//! What a synchronisation of a venue does to the rows of the catalog: which
//! coins and listings it writes, what they hold afterwards, and which rows it
//! leaves as they were.

use vstd::prelude::*;
use crate::services::exchange_service::coins_needed;
use crate::services::exchange_service::lemma_names_take;
use crate::services::exchange_service::market_symbol_of;
use crate::store::coin_upserted;
use crate::store::greatest_coin_id;
use crate::store::listing_upserted;
use crate::store::names;
use crate::store::Tables;

verus! {

/// What the listing of a coin on a venue says once it is written: the
/// venue's market symbol of the coin, the coin as the base, the quote, and
/// that it is active.
pub open spec fn written(ex_name: Seq<char>, quote: Seq<char>, symbol: Seq<char>) -> (
    Seq<char>,
    Seq<char>,
    Seq<char>,
    bool,
) {
    (market_symbol_of(ex_name, symbol), symbol, quote, true)
}

/// The coins of `cur` are the coins of `first` once the symbols `seen` are
/// upserted, which added `added` coins. A coin that was there keeps its
/// place, identifier, symbol, activity and creation time; its name is its
/// symbol where the symbol is among those seen, and the whole row is as it
/// was where not. A coin that was added is active, named by its symbol,
/// created at `now`, and has the next identifier after the coin before it.
pub open spec fn coins_rows(first: Tables, cur: Tables, seen: Seq<String>, added: int, now: int)
    -> bool {
    &&& added >= 0
    &&& cur.coins.len() == first.coins.len() + added
    &&& forall|k: int|
        0 <= k < first.coins.len() ==> {
            &&& (#[trigger] cur.coins[k]).id == first.coins[k].id
            &&& cur.coins[k].symbol@ == first.coins[k].symbol@
            &&& cur.coins[k].is_active == first.coins[k].is_active
            &&& cur.coins[k].created_at == first.coins[k].created_at
            &&& names(seen, first.coins[k].symbol@) ==> cur.coins[k].name@
                == first.coins[k].symbol@
            &&& !names(seen, first.coins[k].symbol@) ==> cur.coins[k] == first.coins[k]
        }
    &&& forall|k: int|
        first.coins.len() <= k < cur.coins.len() ==> {
            &&& (#[trigger] cur.coins[k]).is_active
            &&& cur.coins[k].name@ == cur.coins[k].symbol@
            &&& names(seen, cur.coins[k].symbol@)
            &&& cur.coins[k].created_at == now
            &&& cur.coins[k].id == greatest_coin_id(first.coins) + (k - first.coins.len()) + 1
        }
}

/// Listing `a` is a listing on the venue of coin `k`, which is active and
/// has one of the symbols: a listing that a synchronisation writes.
pub open spec fn due_at(t: Tables, a: int, k: int, id: int, seen: Seq<String>) -> bool {
    &&& 0 <= k < t.coins.len()
    &&& t.listings[a].exchange_id == id
    &&& t.coins[k].id == t.listings[a].coin_id
    &&& t.coins[k].is_active
    &&& names(seen, t.coins[k].symbol@)
}

/// Listing `a` is one that a synchronisation of the venue with the symbols
/// writes.
pub open spec fn is_due(t: Tables, a: int, id: int, seen: Seq<String>) -> bool {
    exists|k: int| due_at(t, a, k, id, seen)
}

/// Listing `a` is the written listing of coin `k` on the venue.
pub open spec fn written_at(
    t: Tables,
    a: int,
    k: int,
    id: int,
    ex_name: Seq<char>,
    quote: Seq<char>,
    seen: Seq<String>,
) -> bool {
    due_at(t, a, k, id, seen) && t.listing_content(a) == written(
        ex_name,
        quote,
        t.coins[k].symbol@,
    )
}

/// Listing `a` is the written listing on the venue of a coin with one of the
/// symbols.
pub open spec fn is_written(
    t: Tables,
    a: int,
    id: int,
    ex_name: Seq<char>,
    quote: Seq<char>,
    seen: Seq<String>,
) -> bool {
    exists|k: int| written_at(t, a, k, id, ex_name, quote, seen)
}

/// The listings of `cur` are the listings of `first` once the listings of
/// the symbols `seen` are upserted on the venue. A listing that was there
/// keeps its place, venue and coin; it says what is written where it is one
/// that the synchronisation writes, and is the row that it was where not.
/// Every listing that was added is a written listing of the venue.
pub open spec fn listings_rows(
    first: Tables,
    cur: Tables,
    id: int,
    ex_name: Seq<char>,
    quote: Seq<char>,
    seen: Seq<String>,
) -> bool {
    &&& first.listings.len() <= cur.listings.len()
    &&& forall|a: int|
        0 <= a < first.listings.len() ==> (#[trigger] cur.listings[a]).exchange_id
            == first.listings[a].exchange_id && cur.listings[a].coin_id
            == first.listings[a].coin_id
    &&& forall|a: int|
        0 <= a < first.listings.len() && !#[trigger] is_due(first, a, id, seen)
            ==> cur.listings[a] == first.listings[a]
    &&& forall|a: int, k: int|
        0 <= a < first.listings.len() && #[trigger] due_at(first, a, k, id, seen)
            ==> cur.listing_content(a) == written(ex_name, quote, first.coins[k].symbol@)
    &&& forall|a: int|
        first.listings.len() <= a < cur.listings.len() ==> #[trigger] is_written(
            cur,
            a,
            id,
            ex_name,
            quote,
            seen,
        )
}

/// The listings of `after` are the listings of `first` once the venue is
/// synchronised with the symbols. No listing is removed. The listings of
/// other venues are the rows that they were. A listing of the venue that the
/// synchronisation writes says what is written. Any other listing of the
/// venue keeps what it says; it is switched off where it was active, there
/// are symbols, and its coin has none of them, and is the row that it was
/// otherwise. Every listing that was added is a written listing of the venue.
pub open spec fn listings_synced(
    first: Tables,
    after: Tables,
    id: int,
    ex_name: Seq<char>,
    quote: Seq<char>,
    symbols: Seq<String>,
) -> bool {
    &&& first.listings.len() <= after.listings.len()
    &&& forall|a: int|
        0 <= a < first.listings.len() ==> (#[trigger] after.listings[a]).exchange_id
            == first.listings[a].exchange_id && after.listings[a].coin_id
            == first.listings[a].coin_id
    &&& forall|a: int|
        0 <= a < first.listings.len() && (#[trigger] first.listings[a]).exchange_id != id
            ==> after.listings[a] == first.listings[a]
    &&& forall|a: int, k: int|
        0 <= a < first.listings.len() && #[trigger] due_at(first, a, k, id, symbols)
            ==> after.listing_content(a) == written(ex_name, quote, first.coins[k].symbol@)
    &&& forall|a: int|
        0 <= a < first.listings.len() && first.listings[a].exchange_id == id && !#[trigger] is_due(
            first,
            a,
            id,
            symbols,
        ) ==> {
            &&& after.listings[a].market_symbol@ == first.listings[a].market_symbol@
            &&& after.listings[a].base@ == first.listings[a].base@
            &&& after.listings[a].quote@ == first.listings[a].quote@
            &&& after.listings[a].is_active == (first.listings[a].is_active && (symbols.len() == 0
                || first.listing_named(a, symbols)))
            &&& after.listings[a].is_active == first.listings[a].is_active ==> after.listings[a]
                == first.listings[a]
        }
    &&& forall|a: int|
        first.listings.len() <= a < after.listings.len() ==> #[trigger] is_written(
            after,
            a,
            id,
            ex_name,
            quote,
            symbols,
        )
}

/// What a synchronisation of a venue leaves alone, whether it succeeds or
/// fails: no coin and no listing is removed; a coin keeps its place,
/// identifier, symbol, activity and creation time, and is the row that it was
/// where its symbol is none of the symbols; a listing keeps its place, venue
/// and coin, and is the row that it was where it is of another venue; and
/// with no symbols at all the store is as it was.
pub open spec fn catalog_kept(before: Tables, after: Tables, id: Option<int>, symbols: Seq<String>)
    -> bool {
    &&& before.coins.len() <= after.coins.len()
    &&& forall|k: int|
        0 <= k < before.coins.len() ==> {
            &&& (#[trigger] after.coins[k]).id == before.coins[k].id
            &&& after.coins[k].symbol@ == before.coins[k].symbol@
            &&& after.coins[k].is_active == before.coins[k].is_active
            &&& after.coins[k].created_at == before.coins[k].created_at
            &&& !names(symbols, before.coins[k].symbol@) ==> after.coins[k] == before.coins[k]
        }
    &&& before.listings.len() <= after.listings.len()
    &&& forall|a: int|
        0 <= a < before.listings.len() ==> {
            &&& (#[trigger] after.listings[a]).exchange_id == before.listings[a].exchange_id
            &&& after.listings[a].coin_id == before.listings[a].coin_id
            &&& id != Some(before.listings[a].exchange_id as int) ==> after.listings[a]
                == before.listings[a]
        }
    &&& symbols.len() == 0 ==> after == before
    &&& id is None ==> after == before
}

/// A coin has the symbol and is named by it.
pub open spec fn coin_named(t: Tables, x: Seq<char>) -> bool {
    exists|k: int| t.coin_at(k, x) && t.coins[k].name@ == x
}

/// A synchronisation failed at symbol `i`: the symbols before it are done,
/// the symbol needs a new coin, and no identifier is left for one.
pub open spec fn failed_at(
    before: Tables,
    after: Tables,
    id: int,
    ex_name: Seq<char>,
    quote: Seq<char>,
    symbols: Seq<String>,
    i: int,
    now: int,
) -> bool {
    &&& 0 <= i < symbols.len()
    &&& coins_rows(before, after, symbols.take(i), coins_needed(before, symbols, i) as int, now)
    &&& listings_rows(before, after, id, ex_name, quote, symbols.take(i))
    &&& !before.has_coin(symbols[i]@)
    &&& !names(symbols.take(i), symbols[i]@)
    &&& greatest_coin_id(before.coins) + coins_needed(before, symbols, i) >= i32::MAX
}

/// The progress of a synchronisation that fails at symbol `i`.
pub proof fn lemma_progress_fails(
    first: Tables,
    cur: Tables,
    id: int,
    ex_name: Seq<char>,
    quote: Seq<char>,
    symbols: Seq<String>,
    i: int,
    now: int,
)
    requires
        0 <= i < symbols.len(),
        progress(first, cur, id, ex_name, quote, symbols, i, now),
        !first.has_coin(symbols[i]@),
        !names(symbols.take(i), symbols[i]@),
        greatest_coin_id(first.coins) + coins_needed(first, symbols, i) >= i32::MAX,
    ensures
        failed_at(first, cur, id, ex_name, quote, symbols, i, now),
{
    reveal(progress);
}

/// With the coins of the symbols upserted, every symbol has a coin that is
/// named by it.
pub proof fn lemma_coins_named(
    first: Tables,
    after: Tables,
    symbols: Seq<String>,
    added: int,
    now: int,
)
    requires
        coins_rows(first, after, symbols, added, now),
        forall|x: Seq<char>| names(symbols, x) ==> #[trigger] after.has_coin(x),
    ensures
        forall|x: Seq<char>| names(symbols, x) ==> #[trigger] coin_named(after, x),
{
    assert forall|x: Seq<char>| names(symbols, x) implies #[trigger] coin_named(after, x) by {
        assert(after.has_coin(x));
        let k = choose|k: int| after.coin_at(k, x);
        assert(after.coins[k].symbol@ == x);
        if k < first.coins.len() {
            assert(first.coins[k].symbol@ == x);
        }
        assert(after.coin_at(k, x) && after.coins[k].name@ == x);
    }
}

/// Switching off the stale listings of a venue changes nothing about what
/// the listing of a coin with one of the symbols says.
pub proof fn lemma_deactivation_keeps_written(
    mid: Tables,
    after: Tables,
    id: int,
    symbols: Seq<String>,
)
    requires
        mid.wf(),
        after.wf(),
        mid.stale_switched_off(after, mid.listings.len() as int, id, symbols),
    ensures
        forall|x: Seq<char>|
            names(symbols, x) ==> #[trigger] after.listing_state(id, x) == mid.listing_state(id, x),
{
    assert(after.coins == mid.coins);
    assert forall|x: Seq<char>| names(symbols, x) implies #[trigger] after.listing_state(id, x)
        == mid.listing_state(id, x) by {
        let m = choose|m: int| 0 <= m < symbols.len() && (#[trigger] symbols[m])@ == x;
        assert forall|a: int, k: int|
            after.listing_of_at(a, k, id, x) == mid.listing_of_at(a, k, id, x) by {
            if mid.listing_of_at(a, k, id, x) {
                assert(after.listings[a].exchange_id == mid.listings[a].exchange_id);
            }
            if after.listing_of_at(a, k, id, x) {
                assert(after.listings[a].exchange_id == mid.listings[a].exchange_id);
            }
        }
        if exists|a: int, k: int| mid.listing_of_at(a, k, id, x) {
            let pm = choose|a: int, k: int| mid.listing_of_at(a, k, id, x);
            assert(after.listing_of_at(pm.0, pm.1, id, x));
            let pa = choose|a: int, k: int| after.listing_of_at(a, k, id, x);
            crate::store::lemma_listing_of_unique(after, pa.0, pa.1, pm.0, pm.1, id, x);
            assert(mid.coins[pm.1].id == mid.listings[pm.0].coin_id && mid.coins[pm.1].symbol@
                == symbols[m]@);
            assert(mid.listing_named(pm.0, symbols));
            assert(!mid.listing_stale(pm.0, id, symbols));
            assert(after.listings[pm.0] == mid.listings[pm.0]);
        } else if exists|a: int, k: int| after.listing_of_at(a, k, id, x) {
            let pa = choose|a: int, k: int| after.listing_of_at(a, k, id, x);
            assert(mid.listing_of_at(pa.0, pa.1, id, x));
        }
    }
}

/// The progress of a synchronisation whose first `i` symbols are done.
#[verifier::opaque]
pub open spec fn progress(
    first: Tables,
    cur: Tables,
    id: int,
    ex_name: Seq<char>,
    quote: Seq<char>,
    symbols: Seq<String>,
    i: int,
    now: int,
) -> bool {
    &&& coins_rows(first, cur, symbols.take(i), coins_needed(first, symbols, i) as int, now)
    &&& listings_rows(first, cur, id, ex_name, quote, symbols.take(i))
}

/// Nothing is done before the first symbol.
pub proof fn lemma_progress_starts(
    first: Tables,
    id: int,
    ex_name: Seq<char>,
    quote: Seq<char>,
    symbols: Seq<String>,
    now: int,
)
    ensures
        progress(first, first, id, ex_name, quote, symbols, 0, now),
{
    reveal(progress);
    let seen = symbols.take(0);
    assert(seen.len() == 0);
    assert forall|x: Seq<char>| !names(seen, x) by {}
    assert forall|a: int| 0 <= a < first.listings.len() implies !is_due(first, a, id, seen) by {
        if is_due(first, a, id, seen) {
            let k = choose|k: int| due_at(first, a, k, id, seen);
            assert(names(seen, first.coins[k].symbol@));
        }
    }
}

/// An upsert of the coin of the next symbol keeps the progress of the
/// listings and advances the progress of the coins.
pub proof fn lemma_progress_coin(
    first: Tables,
    cur: Tables,
    mid: Tables,
    id: int,
    ex_name: Seq<char>,
    quote: Seq<char>,
    symbols: Seq<String>,
    i: int,
    now: int,
)
    requires
        cur.wf(),
        0 <= i < symbols.len(),
        progress(first, cur, id, ex_name, quote, symbols, i, now),
        forall|x: Seq<char>| #[trigger]
            cur.has_coin(x) == (first.has_coin(x) || names(symbols.take(i), x)),
        greatest_coin_id(cur.coins) == greatest_coin_id(first.coins) + coins_needed(
            first,
            symbols,
            i,
        ),
        coin_upserted(cur, mid, symbols[i]@, symbols[i]@, now),
    ensures
        coins_rows(
            first,
            mid,
            symbols.take(i + 1),
            coins_needed(first, symbols, i + 1) as int,
            now,
        ),
        listings_rows(first, mid, id, ex_name, quote, symbols.take(i)),
{
    reveal(progress);
    lemma_names_take(symbols, i);
    let sym = symbols[i]@;
    let seen = symbols.take(i);
    let more = symbols.take(i + 1);
    assert(cur.has_coin(sym) == (first.has_coin(sym) || names(seen, sym)));
    if exists|k: int| cur.coin_at(k, sym) && cur.coin_renamed(mid, k, sym) {
        let k0 = choose|k: int| cur.coin_at(k, sym) && cur.coin_renamed(mid, k, sym);
        assert(cur.has_coin(sym));
        assert(coins_needed(first, symbols, i + 1) == coins_needed(first, symbols, i));
        assert forall|k: int| 0 <= k < first.coins.len() implies {
            &&& (#[trigger] mid.coins[k]).id == first.coins[k].id
            &&& mid.coins[k].symbol@ == first.coins[k].symbol@
            &&& mid.coins[k].is_active == first.coins[k].is_active
            &&& mid.coins[k].created_at == first.coins[k].created_at
            &&& names(more, first.coins[k].symbol@) ==> mid.coins[k].name@
                == first.coins[k].symbol@
            &&& !names(more, first.coins[k].symbol@) ==> mid.coins[k] == first.coins[k]
        } by {
            assert(cur.coins[k].id == first.coins[k].id);
            if k != k0 {
                assert(mid.coins[k] == cur.coins[k]);
                if first.coins[k].symbol@ == sym {
                    assert(cur.coins[k].symbol@ == cur.coins[k0].symbol@);
                    assert(false);
                }
            }
        }
        assert forall|k: int| first.coins.len() <= k < mid.coins.len() implies {
            &&& (#[trigger] mid.coins[k]).is_active
            &&& mid.coins[k].name@ == mid.coins[k].symbol@
            &&& names(more, mid.coins[k].symbol@)
            &&& mid.coins[k].created_at == now
            &&& mid.coins[k].id == greatest_coin_id(first.coins) + (k - first.coins.len()) + 1
        } by {
            assert(cur.coins[k].is_active);
            if k != k0 {
                assert(mid.coins[k] == cur.coins[k]);
            }
        }
    } else {
        assert(!cur.has_coin(sym));
        assert(coins_needed(first, symbols, i + 1) == coins_needed(first, symbols, i) + 1);
        assert forall|k: int| 0 <= k < cur.coins.len() implies #[trigger] mid.coins[k]
            == cur.coins[k] by {
            assert(mid.coins.subrange(0, cur.coins.len() as int)[k] == mid.coins[k]);
        }
        assert forall|k: int| 0 <= k < first.coins.len() implies {
            &&& (#[trigger] mid.coins[k]).id == first.coins[k].id
            &&& mid.coins[k].symbol@ == first.coins[k].symbol@
            &&& mid.coins[k].is_active == first.coins[k].is_active
            &&& mid.coins[k].created_at == first.coins[k].created_at
            &&& names(more, first.coins[k].symbol@) ==> mid.coins[k].name@
                == first.coins[k].symbol@
            &&& !names(more, first.coins[k].symbol@) ==> mid.coins[k] == first.coins[k]
        } by {
            assert(cur.coins[k].id == first.coins[k].id);
            assert(mid.coins[k] == cur.coins[k]);
            if first.coins[k].symbol@ == sym {
                assert(cur.coin_at(k, sym));
                assert(false);
            }
        }
        assert forall|k: int| first.coins.len() <= k < mid.coins.len() implies {
            &&& (#[trigger] mid.coins[k]).is_active
            &&& mid.coins[k].name@ == mid.coins[k].symbol@
            &&& names(more, mid.coins[k].symbol@)
            &&& mid.coins[k].created_at == now
            &&& mid.coins[k].id == greatest_coin_id(first.coins) + (k - first.coins.len()) + 1
        } by {
            if k < cur.coins.len() {
                assert(cur.coins[k].is_active);
                assert(mid.coins[k] == cur.coins[k]);
            }
        }
    }
    // The listings are the same; a written listing keeps its coin.
    assert(mid.listings == cur.listings);
    crate::store::lemma_coin_upsert_coins(cur, mid, sym, sym, now);
    assert forall|a: int| first.listings.len() <= a < mid.listings.len() implies #[trigger] is_written(
        mid,
        a,
        id,
        ex_name,
        quote,
        seen,
    ) by {
        assert(is_written(cur, a, id, ex_name, quote, seen));
        let k = choose|k: int| written_at(cur, a, k, id, ex_name, quote, seen);
        assert(mid.coins[k].id == cur.coins[k].id);
        assert(written_at(mid, a, k, id, ex_name, quote, seen));
    }
    assert forall|a: int, k: int|
        0 <= a < first.listings.len() && #[trigger] due_at(
            first,
            a,
            k,
            id,
            seen,
        ) implies mid.listing_content(a) == written(ex_name, quote, first.coins[k].symbol@) by {
        assert(cur.listing_content(a) == written(ex_name, quote, first.coins[k].symbol@));
    }
}

/// A symbol whose coin is inactive gets no listing: the listings are done
/// for one symbol more as they are.
pub proof fn lemma_progress_skips(
    first: Tables,
    mid: Tables,
    id: int,
    ex_name: Seq<char>,
    quote: Seq<char>,
    symbols: Seq<String>,
    i: int,
    now: int,
)
    requires
        first.wf(),
        0 <= i < symbols.len(),
        coins_rows(
            first,
            mid,
            symbols.take(i + 1),
            coins_needed(first, symbols, i + 1) as int,
            now,
        ),
        listings_rows(first, mid, id, ex_name, quote, symbols.take(i)),
        first.has_inactive_coin(symbols[i]@),
    ensures
        progress(first, mid, id, ex_name, quote, symbols, i + 1, now),
{
    reveal(progress);
    lemma_names_take(symbols, i);
    let sym = symbols[i]@;
    let seen = symbols.take(i);
    let more = symbols.take(i + 1);
    let bad = choose|k: int| first.coin_at(k, sym) && !first.coins[k].is_active;
    assert forall|a: int, k: int|
        0 <= a < first.listings.len() && #[trigger] due_at(
            first,
            a,
            k,
            id,
            more,
        ) implies due_at(first, a, k, id, seen) by {
        if first.coins[k].symbol@ == sym {
            assert(first.coins[k].symbol@ == first.coins[bad].symbol@);
            assert(k == bad);
        }
    }
    assert forall|a: int|
        0 <= a < first.listings.len() && !#[trigger] is_due(
            first,
            a,
            id,
            more,
        ) implies mid.listings[a] == first.listings[a] by {
        if is_due(first, a, id, seen) {
            let k = choose|k: int| due_at(first, a, k, id, seen);
            assert(due_at(first, a, k, id, more));
        }
    }
    assert forall|a: int| first.listings.len() <= a < mid.listings.len() implies #[trigger] is_written(
        mid,
        a,
        id,
        ex_name,
        quote,
        more,
    ) by {
        assert(is_written(mid, a, id, ex_name, quote, seen));
        let k = choose|k: int| written_at(mid, a, k, id, ex_name, quote, seen);
        assert(written_at(mid, a, k, id, ex_name, quote, more));
    }
}

/// An upsert of the listing of the next symbol's coin advances the progress
/// of the listings.
pub proof fn lemma_progress_listing(
    first: Tables,
    mid: Tables,
    next: Tables,
    id: int,
    k0: int,
    ex_name: Seq<char>,
    quote: Seq<char>,
    symbols: Seq<String>,
    i: int,
    now: int,
)
    requires
        first.wf(),
        mid.wf(),
        0 <= i < symbols.len(),
        coins_rows(
            first,
            mid,
            symbols.take(i + 1),
            coins_needed(first, symbols, i + 1) as int,
            now,
        ),
        listings_rows(first, mid, id, ex_name, quote, symbols.take(i)),
        0 <= k0 < mid.coins.len(),
        mid.coins[k0].symbol@ == symbols[i]@,
        mid.coins[k0].is_active,
        listing_upserted(
            mid,
            next,
            id,
            mid.coins[k0].id as int,
            market_symbol_of(ex_name, symbols[i]@),
            symbols[i]@,
            quote,
        ),
    ensures
        progress(first, next, id, ex_name, quote, symbols, i + 1, now),
{
    reveal(progress);
    lemma_names_take(symbols, i);
    let sym = symbols[i]@;
    let seen = symbols.take(i);
    let more = symbols.take(i + 1);
    let coin_id = mid.coins[k0].id as int;
    let added = !(exists|a: int| mid.listing_at(a, id, coin_id));
    let i0 = if added {
        mid.listings.len() as int
    } else {
        choose|a: int|
            mid.listing_at(a, id, coin_id) && mid.listing_rewritten(
                next,
                a,
                market_symbol_of(ex_name, sym),
                sym,
                quote,
            )
    };
    assert(next.coins == mid.coins);
    assert(next.listing_at(i0, id, coin_id));
    assert(next.listing_content(i0) == written(ex_name, quote, sym));
    assert forall|a: int| 0 <= a < mid.listings.len() && a != i0 implies next.listings[a]
        == mid.listings[a] by {
        if added {
            assert(next.listings.subrange(0, mid.listings.len() as int)[a] == next.listings[a]);
        }
    }
    // A listing of `first` with the venue and the coin of the symbol is the
    // listing that was written.
    assert forall|a: int, k: int|
        0 <= a < first.listings.len() && 0 <= k < first.coins.len()
            && first.listings[a].exchange_id == id && first.coins[k].id
            == first.listings[a].coin_id && first.coins[k].symbol@ == sym implies a == i0 by {
        assert(mid.coins[k].symbol@ == mid.coins[k0].symbol@);
        assert(k == k0);
        assert(mid.listings[a].coin_id == first.listings[a].coin_id);
        assert(mid.listing_at(a, id, coin_id));
        if a != i0 {
            assert(mid.listings[a].exchange_id == mid.listings[i0].exchange_id);
            assert(false);
        }
    }
    assert forall|a: int| 0 <= a < first.listings.len() implies (
    #[trigger] next.listings[a]).exchange_id == first.listings[a].exchange_id
        && next.listings[a].coin_id == first.listings[a].coin_id by {
        assert(mid.listings[a].exchange_id == first.listings[a].exchange_id);
    }
    assert forall|a: int|
        0 <= a < first.listings.len() && !#[trigger] is_due(
            first,
            a,
            id,
            more,
        ) implies next.listings[a] == first.listings[a] by {
        if is_due(first, a, id, seen) {
            let k = choose|k: int| due_at(first, a, k, id, seen);
            assert(due_at(first, a, k, id, more));
        }
        assert(mid.listings[a] == first.listings[a]);
        if a == i0 {
            assert(first.has_coin_id(first.listings[a].coin_id as int));
            let w = choose|w: int|
                0 <= w < first.coins.len() && (#[trigger] first.coins[w]).id
                    == first.listings[a].coin_id;
            assert(mid.coins[w].id == mid.coins[k0].id);
            assert(w == k0);
            assert(due_at(first, a, w, id, more));
        }
    }
    assert forall|a: int, k: int|
        0 <= a < first.listings.len() && #[trigger] due_at(
            first,
            a,
            k,
            id,
            more,
        ) implies next.listing_content(a) == written(ex_name, quote, first.coins[k].symbol@) by {
        if a == i0 {
            assert(mid.coins[k].id == mid.coins[k0].id);
            assert(k == k0);
        } else {
            if first.coins[k].symbol@ == sym {
                assert(false);
            }
            assert(due_at(first, a, k, id, seen));
        }
    }
    assert forall|a: int| first.listings.len() <= a < next.listings.len() implies #[trigger] is_written(
        next,
        a,
        id,
        ex_name,
        quote,
        more,
    ) by {
        if a == i0 {
            assert(written_at(next, a, k0, id, ex_name, quote, more));
        } else {
            assert(is_written(mid, a, id, ex_name, quote, seen));
            let k = choose|k: int| written_at(mid, a, k, id, ex_name, quote, seen);
            assert(written_at(next, a, k, id, ex_name, quote, more));
        }
    }
}

/// Whatever progress a synchronisation has made, it has left alone what a
/// synchronisation leaves alone.
pub proof fn lemma_progress_keeps(
    first: Tables,
    cur: Tables,
    id: int,
    ex_name: Seq<char>,
    quote: Seq<char>,
    symbols: Seq<String>,
    i: int,
    now: int,
)
    requires
        0 <= i <= symbols.len(),
        symbols.len() > 0,
        progress(first, cur, id, ex_name, quote, symbols, i, now),
    ensures
        catalog_kept(first, cur, Some(id), symbols),
{
    reveal(progress);
    let seen = symbols.take(i);
    assert forall|x: Seq<char>| names(seen, x) implies names(symbols, x) by {
        let m = choose|m: int| 0 <= m < seen.len() && (#[trigger] seen[m])@ == x;
        assert(symbols[m]@ == x);
    }
    assert forall|a: int| 0 <= a < first.listings.len() implies {
        &&& (#[trigger] cur.listings[a]).exchange_id == first.listings[a].exchange_id
        &&& cur.listings[a].coin_id == first.listings[a].coin_id
        &&& Some(id) != Some(first.listings[a].exchange_id as int) ==> cur.listings[a]
            == first.listings[a]
    } by {
        if first.listings[a].exchange_id != id {
            if is_due(first, a, id, seen) {
                let k = choose|k: int| due_at(first, a, k, id, seen);
                assert(false);
            }
        }
    }
}

/// A synchronisation that is done, and has switched off the stale listings,
/// has done to the rows what a synchronisation does.
pub proof fn lemma_progress_ends(
    first: Tables,
    mid: Tables,
    after: Tables,
    id: int,
    ex_name: Seq<char>,
    quote: Seq<char>,
    symbols: Seq<String>,
    now: int,
)
    requires
        first.wf(),
        mid.wf(),
        progress(first, mid, id, ex_name, quote, symbols, symbols.len() as int, now),
        after.exchanges == first.exchanges,
        after.prices == first.prices,
        after.rates == first.rates,
        after.kimchi == first.kimchi,
        mid.exchanges == first.exchanges,
        if symbols.len() == 0 {
            after == mid
        } else {
            mid.stale_switched_off(after, mid.listings.len() as int, id, symbols)
        },
    ensures
        coins_rows(
            first,
            after,
            symbols,
            coins_needed(first, symbols, symbols.len() as int) as int,
            now,
        ),
        listings_synced(first, after, id, ex_name, quote, symbols),
        catalog_kept(first, after, Some(id), symbols),
{
    reveal(progress);
    assert(symbols.take(symbols.len() as int) =~= symbols);
    assert(after.coins == mid.coins);
    // The coin of a listing that was there is a coin that was there.
    assert forall|a: int, k: int|
        0 <= a < first.listings.len() && 0 <= k < mid.coins.len() && (#[trigger] mid.coins[k]).id
            == (#[trigger] first.listings[a]).coin_id implies k < first.coins.len() by {
        assert(first.has_coin_id(first.listings[a].coin_id as int));
        let w = choose|w: int|
            0 <= w < first.coins.len() && (#[trigger] first.coins[w]).id
                == first.listings[a].coin_id;
        assert(mid.coins[w].id == first.coins[w].id);
        if k != w {
            assert(mid.coins[k].id == mid.coins[w].id);
            assert(false);
        }
    }
    assert forall|a: int| 0 <= a < first.listings.len() implies mid.listing_named(a, symbols)
        == first.listing_named(a, symbols) by {
        assert(mid.listings[a].coin_id == first.listings[a].coin_id);
        if first.listing_named(a, symbols) {
            let (k, m) = choose|k: int, m: int|
                0 <= k < first.coins.len() && 0 <= m < symbols.len() && (
                #[trigger] first.coins[k]).id == first.listings[a].coin_id
                    && first.coins[k].symbol@ == (#[trigger] symbols[m])@;
            assert(mid.coins[k].id == mid.listings[a].coin_id && mid.coins[k].symbol@
                == symbols[m]@);
        }
        if mid.listing_named(a, symbols) {
            let (k, m) = choose|k: int, m: int|
                0 <= k < mid.coins.len() && 0 <= m < symbols.len() && (#[trigger] mid.coins[k]).id
                    == mid.listings[a].coin_id && mid.coins[k].symbol@ == (
                #[trigger] symbols[m])@;
            assert(mid.coins[k].id == first.listings[a].coin_id);
            assert(k < first.coins.len());
            assert(first.coins[k].id == first.listings[a].coin_id && first.coins[k].symbol@
                == symbols[m]@);
        }
    }
    // A written listing is none that is switched off.
    assert forall|a: int, k: int|
        0 <= a < mid.listings.len() && due_at(mid, a, k, id, symbols) implies mid.listing_named(
            a,
            symbols,
        ) by {
        let m = choose|m: int| 0 <= m < symbols.len() && (#[trigger] symbols[m])@
            == mid.coins[k].symbol@;
        assert(mid.coins[k].id == mid.listings[a].coin_id && mid.coins[k].symbol@
            == symbols[m]@);
    }
    assert forall|a: int| 0 <= a < first.listings.len() implies (
    #[trigger] after.listings[a]).exchange_id == first.listings[a].exchange_id
        && after.listings[a].coin_id == first.listings[a].coin_id by {
        assert(mid.listings[a].exchange_id == first.listings[a].exchange_id);
    }
    assert forall|a: int|
        0 <= a < first.listings.len() && (#[trigger] first.listings[a]).exchange_id
            != id implies after.listings[a] == first.listings[a] by {
        if is_due(first, a, id, symbols) {
            let k = choose|k: int| due_at(first, a, k, id, symbols);
            assert(false);
        }
        assert(mid.listings[a] == first.listings[a]);
        assert(!mid.listing_stale(a, id, symbols));
    }
    assert forall|a: int, k: int|
        0 <= a < first.listings.len() && #[trigger] due_at(
            first,
            a,
            k,
            id,
            symbols,
        ) implies after.listing_content(a) == written(ex_name, quote, first.coins[k].symbol@) by {
        assert(mid.listing_content(a) == written(ex_name, quote, first.coins[k].symbol@));
        assert(mid.coins[k].id == first.coins[k].id);
        assert(due_at(mid, a, k, id, symbols));
        assert(mid.listing_named(a, symbols));
        assert(!mid.listing_stale(a, id, symbols));
    }
    assert forall|a: int|
        0 <= a < first.listings.len() && first.listings[a].exchange_id == id && !#[trigger] is_due(
            first,
            a,
            id,
            symbols,
        ) implies {
        &&& after.listings[a].market_symbol@ == first.listings[a].market_symbol@
        &&& after.listings[a].base@ == first.listings[a].base@
        &&& after.listings[a].quote@ == first.listings[a].quote@
        &&& after.listings[a].is_active == (first.listings[a].is_active && (symbols.len() == 0
            || first.listing_named(a, symbols)))
        &&& after.listings[a].is_active == first.listings[a].is_active ==> after.listings[a]
            == first.listings[a]
    } by {
        assert(mid.listings[a] == first.listings[a]);
        assert(mid.listing_named(a, symbols) == first.listing_named(a, symbols));
    }
    assert forall|a: int| first.listings.len() <= a < after.listings.len() implies #[trigger] is_written(
        after,
        a,
        id,
        ex_name,
        quote,
        symbols,
    ) by {
        assert(is_written(mid, a, id, ex_name, quote, symbols));
        let k = choose|k: int| written_at(mid, a, k, id, ex_name, quote, symbols);
        assert(due_at(mid, a, k, id, symbols));
        assert(mid.listing_named(a, symbols));
        assert(!mid.listing_stale(a, id, symbols));
        assert(after.listings[a] == mid.listings[a]);
        assert(written_at(after, a, k, id, ex_name, quote, symbols));
    }
    if symbols.len() == 0 {
        assert forall|x: Seq<char>| !names(symbols, x) by {}
        assert(after.coins =~= first.coins);
        if after.listings.len() > first.listings.len() {
            let a = first.listings.len() as int;
            assert(is_written(after, a, id, ex_name, quote, symbols));
            let k = choose|k: int| written_at(after, a, k, id, ex_name, quote, symbols);
            assert(names(symbols, after.coins[k].symbol@));
        }
        assert forall|a: int| 0 <= a < first.listings.len() implies after.listings[a]
            == first.listings[a] by {
            if is_due(first, a, id, symbols) {
                let k = choose|k: int| due_at(first, a, k, id, symbols);
                assert(names(symbols, first.coins[k].symbol@));
            }
            assert(mid.listings[a] == first.listings[a]);
        }
        assert(after.listings =~= first.listings);
        assert(after == first);
    }
}

} // verus!
