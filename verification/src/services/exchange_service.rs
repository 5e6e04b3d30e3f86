//! Catalog synchronisation and price ingestion for the three venues.

use vstd::prelude::*;
use crate::decimal::Dec;
use crate::decimal::Decimal;
use crate::decimal::decimal_product;
use crate::decimal::decimal_text;
use crate::decimal::parsed_decimal;
use crate::decimal::scale_in_range;
use crate::models::arbitrage::copy_optional;
use crate::services::catalog_rows::catalog_kept;
use crate::services::catalog_rows::coin_named;
use crate::services::catalog_rows::coins_rows;
use crate::services::catalog_rows::failed_at;
use crate::services::catalog_rows::lemma_coins_named;
use crate::services::catalog_rows::lemma_deactivation_keeps_written;
use crate::services::catalog_rows::lemma_progress_coin;
use crate::services::catalog_rows::lemma_progress_ends;
use crate::services::catalog_rows::lemma_progress_fails;
use crate::services::catalog_rows::lemma_progress_keeps;
use crate::services::catalog_rows::lemma_progress_listing;
use crate::services::catalog_rows::lemma_progress_skips;
use crate::services::catalog_rows::lemma_progress_starts;
use crate::services::catalog_rows::listings_synced;
use crate::services::catalog_rows::progress;
use crate::services::catalog_rows::due_at;
use crate::services::catalog_rows::is_due;
use crate::services::catalog_rows::is_written;
use crate::services::catalog_rows::written;
use crate::services::catalog_rows::written_at;
use crate::models::exchange::BinanceSymbolInfo;
use crate::models::exchange::BinanceTickerResponse;
use crate::models::exchange::BithumbEntry;
use crate::models::exchange::BithumbResponse;
use crate::models::exchange::ExchangeType;
use crate::models::exchange::NewPriceData;
use crate::models::exchange::opt_dec;
use crate::models::exchange::PriceRow;
use crate::models::exchange::UpbitMarket;
use crate::models::exchange::UpbitTickerResponse;
use crate::store::greatest_coin_id;
use crate::store::lemma_deactivation_keeps_named;
use crate::store::names;
use crate::store::Store;
use crate::store::Tables;
use crate::store::with_prices;
use crate::text::contains_text;
use crate::text::ends_with;
use crate::text::joined;
use crate::text::lowercase_of;
use crate::text::same_text;
use crate::text::starts_with;
use crate::text::without_prefix;
use crate::text::without_suffix;
use crate::utils::error::AppError;

verus! {

/// What the texts say, text by text.
pub open spec fn texts_of(items: Seq<String>) -> Seq<Seq<char>> {
    items.map_values(|s: String| s@)
}

/// The texts in the order of their first occurrence, each once.
pub open spec fn distinct_texts(items: Seq<Seq<char>>) -> Seq<Seq<char>>
    decreases items.len(),
{
    if items.len() == 0 {
        Seq::empty()
    } else {
        let earlier = distinct_texts(items.drop_last());
        if earlier.contains(items.last()) {
            earlier
        } else {
            earlier.push(items.last())
        }
    }
}

/// [`distinct_texts`] holds every text of its input, no other text, and none
/// twice.
pub proof fn lemma_distinct_texts(items: Seq<Seq<char>>)
    ensures
        forall|x: Seq<char>| distinct_texts(items).contains(x) <==> items.contains(x),
        distinct_texts(items).no_duplicates(),
    decreases items.len(),
{
    if items.len() > 0 {
        let rest = items.drop_last();
        lemma_distinct_texts(rest);
        let earlier = distinct_texts(rest);
        let out = distinct_texts(items);
        assert forall|x: Seq<char>| out.contains(x) <==> items.contains(x) by {
            if items.contains(x) {
                let i = choose|i: int| 0 <= i < items.len() && items[i] == x;
                if i < items.len() - 1 {
                    assert(rest[i] == x);
                    assert(rest.contains(x));
                    assert(earlier.contains(x));
                    let j = choose|j: int| 0 <= j < earlier.len() && earlier[j] == x;
                    assert(out[j] == x);
                } else if !earlier.contains(items.last()) {
                    assert(out[out.len() - 1] == x);
                }
            }
            if out.contains(x) {
                let j = choose|j: int| 0 <= j < out.len() && out[j] == x;
                if j < earlier.len() {
                    assert(earlier[j] == x);
                    assert(earlier.contains(x));
                    assert(rest.contains(x));
                    let i = choose|i: int| 0 <= i < rest.len() && rest[i] == x;
                    assert(items[i] == x);
                } else {
                    assert(items[items.len() - 1] == x);
                }
            }
        }
        assert(out.no_duplicates()) by {
            assert forall|a: int, b: int| 0 <= a < out.len() && 0 <= b < out.len() && a
                != b implies out[a] != out[b] by {
                if a < earlier.len() && b < earlier.len() {
                    assert(earlier[a] != earlier[b]);
                } else if a < earlier.len() {
                    assert(earlier.contains(earlier[a]));
                } else if b < earlier.len() {
                    assert(earlier.contains(earlier[b]));
                }
            }
        }
    }
}

/// Adds the text to the texts unless it is among them.
fn push_distinct(out: &mut Vec<String>, text: &str, Ghost(seen): Ghost<Seq<Seq<char>>>)
    requires
        texts_of(old(out)@) == distinct_texts(seen),
    ensures
        texts_of(final(out)@) == distinct_texts(seen.push(text@)),
{
    let ghost before = out@;
    assert(seen.push(text@).drop_last() =~= seen);
    let found = contains_text(out, text);
    proof {
        if found {
            let i = choose|i: int| 0 <= i < before.len() && (#[trigger] before[i])@ == text@;
            assert(texts_of(before)[i] == text@);
        } else if texts_of(before).contains(text@) {
            let i = choose|i: int| 0 <= i < texts_of(before).len() && texts_of(before)[i] == text@;
            assert(before[i]@ == text@);
        }
    }
    if !found {
        out.push(text.to_owned());
        assert(texts_of(out@) =~= texts_of(before).push(text@));
    }
}

/// A symbol of Binance is listed where it trades and quotes in USDT.
pub open spec fn binance_trades(entry: BinanceSymbolInfo) -> bool {
    entry.status@ == "TRADING"@ && entry.quote_asset@ == "USDT"@
}

/// The base assets of the first `n` entries that trade against USDT.
pub open spec fn binance_bases(info: Seq<BinanceSymbolInfo>, n: int) -> Seq<Seq<char>>
    decreases n,
{
    if n <= 0 {
        Seq::empty()
    } else if binance_trades(info[n - 1]) {
        binance_bases(info, n - 1).push(info[n - 1].base_asset@)
    } else {
        binance_bases(info, n - 1)
    }
}

/// The bases of the first `n` markets of Upbit that quote in KRW: what
/// follows `KRW-` in the market's name.
pub open spec fn upbit_bases(markets: Seq<UpbitMarket>, n: int) -> Seq<Seq<char>>
    decreases n,
{
    if n <= 0 {
        Seq::empty()
    } else if starts_with(markets[n - 1].market@, "KRW-"@) {
        upbit_bases(markets, n - 1).push(
            markets[n - 1].market@.subrange("KRW-"@.len() as int, markets[n - 1].market@.len() as int),
        )
    } else {
        upbit_bases(markets, n - 1)
    }
}

/// A member of Bithumb's data stands for a coin where it is an object and
/// its key is not `date`.
pub open spec fn bithumb_is_coin(entry: BithumbEntry) -> bool {
    entry.key@ != "date"@ && entry.is_object
}

/// The keys of the first `n` members that stand for coins.
pub open spec fn bithumb_keys(entries: Seq<BithumbEntry>, n: int) -> Seq<Seq<char>>
    decreases n,
{
    if n <= 0 {
        Seq::empty()
    } else if bithumb_is_coin(entries[n - 1]) {
        bithumb_keys(entries, n - 1).push(entries[n - 1].key@)
    } else {
        bithumb_keys(entries, n - 1)
    }
}

/// The coins that an answer of Bithumb stands for: none unless its status is
/// `0000` and its data is an object.
pub open spec fn bithumb_symbols(response: BithumbResponse) -> Seq<Seq<char>> {
    if response.status@ == "0000"@ && response.data is Some {
        bithumb_keys(response.data.unwrap()@, response.data.unwrap()@.len() as int)
    } else {
        Seq::empty()
    }
}

/// The decimal that a text stands for, if it stands for one that this
/// library can hold.
pub open spec fn read_or_none(text: Seq<char>) -> Option<Dec> {
    if Decimal::readable(text) {
        parsed_decimal(text)
    } else {
        None
    }
}

/// Reads a decimal from a text, giving `None` where it holds none.
pub fn read_optional(text: &str) -> (r: Option<Decimal>)
    ensures
        opt_dec(r) == read_or_none(text@),
{
    match Decimal::parse(text) {
        Ok(d) => Some(d),
        Err(_) => None,
    }
}

/// What the rows hold, row by row.
pub open spec fn rows_of(rows: Seq<NewPriceData>) -> Seq<PriceRow> {
    rows.map_values(|r: NewPriceData| r@)
}

/// What becomes of one ticker: it is left out, it gives a row, or its price
/// cannot be read.
pub enum TickerOutcome {
    Skipped,
    Row(PriceRow),
    Unreadable,
}

/// What becomes of a ticker of Binance: a row where its symbol ends in `USDT`
/// and what precedes that has an active listing on the venue. The price must
/// be readable; a volume or a change that is not is left empty.
pub open spec fn binance_outcome(
    t: Tables,
    exchange_id: int,
    ticker: BinanceTickerResponse,
    timestamp: int,
) -> TickerOutcome {
    if !ends_with(ticker.symbol@, "USDT"@) {
        TickerOutcome::Skipped
    } else {
        match t.listed_coin_id(
            exchange_id,
            ticker.symbol@.subrange(0, ticker.symbol@.len() - "USDT"@.len()),
        ) {
            None => TickerOutcome::Skipped,
            Some(coin_id) => if !Decimal::readable(ticker.last_price@) {
                TickerOutcome::Unreadable
            } else {
                TickerOutcome::Row(
                    PriceRow {
                        exchange_id,
                        coin_id,
                        price: parsed_decimal(ticker.last_price@).unwrap(),
                        volume_24h: read_or_none(ticker.volume@),
                        price_change_24h: read_or_none(ticker.price_change_percent@),
                        timestamp,
                    },
                )
            },
        }
    }
}

/// The rows of the first `n` tickers of Binance, or `None` where one of them
/// has a price that cannot be read.
pub open spec fn binance_rows(
    t: Tables,
    exchange_id: int,
    tickers: Seq<BinanceTickerResponse>,
    n: int,
    timestamp: int,
) -> Option<Seq<PriceRow>>
    decreases n,
{
    if n <= 0 {
        Some(Seq::empty())
    } else {
        match binance_rows(t, exchange_id, tickers, n - 1, timestamp) {
            None => None,
            Some(rows) => match binance_outcome(t, exchange_id, tickers[n - 1], timestamp) {
                TickerOutcome::Skipped => Some(rows),
                TickerOutcome::Row(row) => Some(rows.push(row)),
                TickerOutcome::Unreadable => None,
            },
        }
    }
}

/// The coin that a market of Upbit trades: what follows `KRW-`.
pub open spec fn upbit_symbol(market: Seq<char>) -> Seq<char> {
    if starts_with(market, "KRW-"@) {
        market.subrange("KRW-"@.len() as int, market.len() as int)
    } else {
        market
    }
}

/// A rate as percent points: the rate times one hundred, where this library
/// can hold the product.
pub open spec fn percent_of(rate: Dec) -> Option<Dec> {
    if scale_in_range(decimal_product(rate, Dec::whole(100)).scale) {
        Some(decimal_product(rate, Dec::whole(100)))
    } else {
        None
    }
}

/// What becomes of a ticker of Upbit: a row where its coin has an active
/// listing on the venue.
pub open spec fn upbit_outcome(
    t: Tables,
    exchange_id: int,
    ticker: UpbitTickerResponse,
    timestamp: int,
) -> Option<PriceRow> {
    match t.listed_coin_id(exchange_id, upbit_symbol(ticker.market@)) {
        None => None,
        Some(coin_id) => Some(
            PriceRow {
                exchange_id,
                coin_id,
                price: ticker.trade_price@,
                volume_24h: Some(ticker.acc_trade_volume_24h@),
                price_change_24h: percent_of(ticker.signed_change_rate@),
                timestamp,
            },
        ),
    }
}

/// The rows of the first `n` tickers of Upbit.
pub open spec fn upbit_rows(
    t: Tables,
    exchange_id: int,
    tickers: Seq<UpbitTickerResponse>,
    n: int,
    timestamp: int,
) -> Seq<PriceRow>
    decreases n,
{
    if n <= 0 {
        Seq::empty()
    } else {
        match upbit_outcome(t, exchange_id, tickers[n - 1], timestamp) {
            Some(row) => upbit_rows(t, exchange_id, tickers, n - 1, timestamp).push(row),
            None => upbit_rows(t, exchange_id, tickers, n - 1, timestamp),
        }
    }
}

/// The first of two optional texts that is there.
pub open spec fn first_text(a: Option<Seq<char>>, b: Option<Seq<char>>) -> Option<Seq<char>> {
    match a {
        Some(x) => Some(x),
        None => b,
    }
}

/// The decimal that an optional text stands for.
pub open spec fn read_text(text: Option<Seq<char>>) -> Option<Dec> {
    match text {
        Some(x) => read_or_none(x),
        None => None,
    }
}

/// What becomes of a member of Bithumb's data: a row where it stands for a
/// coin with an active listing on the venue and has a `closing_price` that
/// can be read. The volume is read from `units_traded_24H` and the change from
/// `fluctate_rate_24H`, or from the members spelt with `24h` where those are
/// missing.
pub open spec fn bithumb_outcome(
    t: Tables,
    exchange_id: int,
    entry: BithumbEntry,
    timestamp: int,
) -> Option<PriceRow> {
    if !bithumb_is_coin(entry) || entry.member_text("closing_price"@) is None {
        None
    } else {
        match t.listed_coin_id(exchange_id, entry.key@) {
            None => None,
            Some(coin_id) => if !Decimal::readable(entry.member_text("closing_price"@).unwrap()) {
                None
            } else {
                Some(
                    PriceRow {
                        exchange_id,
                        coin_id,
                        price: parsed_decimal(entry.member_text("closing_price"@).unwrap()).unwrap(),
                        volume_24h: read_text(
                            first_text(
                                entry.member_text("units_traded_24H"@),
                                entry.member_text("units_traded_24h"@),
                            ),
                        ),
                        price_change_24h: read_text(
                            first_text(
                                entry.member_text("fluctate_rate_24H"@),
                                entry.member_text("fluctate_rate_24h"@),
                            ),
                        ),
                        timestamp,
                    },
                )
            },
        }
    }
}

/// The rows of the first `n` members of Bithumb's data.
pub open spec fn bithumb_rows(
    t: Tables,
    exchange_id: int,
    entries: Seq<BithumbEntry>,
    n: int,
    timestamp: int,
) -> Seq<PriceRow>
    decreases n,
{
    if n <= 0 {
        Seq::empty()
    } else {
        match bithumb_outcome(t, exchange_id, entries[n - 1], timestamp) {
            Some(row) => bithumb_rows(t, exchange_id, entries, n - 1, timestamp).push(row),
            None => bithumb_rows(t, exchange_id, entries, n - 1, timestamp),
        }
    }
}

/// The volume as it is persisted: dropped where its text is longer than
/// thirty characters, which the store's column cannot hold.
pub open spec fn sanitized_volume(volume: Option<Dec>) -> Option<Dec> {
    match volume {
        Some(d) => if decimal_text(d).len() > 30 {
            None
        } else {
            Some(d)
        },
        None => None,
    }
}

/// The row as it is persisted: its volume sanitized, the rest as it is.
pub open spec fn sanitized(row: PriceRow) -> PriceRow {
    PriceRow {
        exchange_id: row.exchange_id,
        coin_id: row.coin_id,
        price: row.price,
        volume_24h: sanitized_volume(row.volume_24h),
        price_change_24h: row.price_change_24h,
        timestamp: row.timestamp,
    }
}

/// The rows as they are persisted.
pub open spec fn sanitized_rows(rows: Seq<PriceRow>) -> Seq<PriceRow> {
    rows.map_values(|r: PriceRow| sanitized(r))
}

/// Drops a volume whose text is longer than thirty characters.
pub fn sanitize_volume(volume: &Option<Decimal>) -> (r: Option<Decimal>)
    ensures
        opt_dec(r) == sanitized_volume(opt_dec(*volume)),
{
    match volume {
        Some(v) => {
            let text = v.to_text();
            if text.as_str().unicode_len() > 30 {
                None
            } else {
                Some(v.clone())
            }
        },
        None => None,
    }
}

/// The first of two optional texts that is there.
fn first_of<'a>(entry: &'a BithumbEntry, upper: &str, lower: &str) -> (r: Option<&'a str>)
    ensures
        match r {
            Some(x) => first_text(entry.member_text(upper@), entry.member_text(lower@)) == Some(
                x@,
            ),
            None => first_text(entry.member_text(upper@), entry.member_text(lower@)) is None,
        },
{
    match entry.text(upper) {
        Some(x) => Some(x),
        None => entry.text(lower),
    }
}

/// Reads a decimal from an optional text.
fn read_from(text: Option<&str>) -> (r: Option<Decimal>)
    ensures
        match text {
            Some(x) => opt_dec(r) == read_or_none(x@),
            None => r is None,
        },
{
    match text {
        Some(x) => read_optional(x),
        None => None,
    }
}

/// Once a price cannot be read, the rows of every longer run of tickers are
/// undefined too.
pub proof fn lemma_binance_rows_stay_unreadable(
    t: Tables,
    exchange_id: int,
    tickers: Seq<BinanceTickerResponse>,
    n: int,
    m: int,
    timestamp: int,
)
    requires
        0 <= n <= m,
        binance_rows(t, exchange_id, tickers, n, timestamp) is None,
    ensures
        binance_rows(t, exchange_id, tickers, m, timestamp) is None,
    decreases m - n,
{
    if n < m {
        lemma_binance_rows_stay_unreadable(t, exchange_id, tickers, n, m - 1, timestamp);
    }
}

/// The market symbol of a coin on the venue with the name; the coin's own
/// symbol where the name is of no venue.
pub open spec fn market_symbol_of(exchange_name: Seq<char>, symbol: Seq<char>) -> Seq<char> {
    match ExchangeType::of_name(exchange_name) {
        Some(venue) => venue.market_symbol(symbol),
        None => symbol,
    }
}

/// The symbol at position `j` stands at an earlier position too.
pub open spec fn seen_before(symbols: Seq<String>, j: int) -> bool {
    names(symbols.take(j), symbols[j]@)
}

/// How many of the first `n` symbols need a new coin: those that no coin has
/// and that do not stand at an earlier position.
pub open spec fn coins_needed(t: Tables, symbols: Seq<String>, n: int) -> nat
    decreases n,
{
    if n <= 0 {
        0
    } else {
        coins_needed(t, symbols, n - 1) + if !t.has_coin(symbols[n - 1]@) && !seen_before(symbols, n - 1) {
            1nat
        } else {
            0nat
        }
    }
}

/// The rows that the listing upserts of the first `n` symbols affect. A
/// symbol of an inactive coin gets no listing, and a symbol that stands at an
/// earlier position finds its listing written already.
pub open spec fn listing_writes(
    t: Tables,
    exchange_id: int,
    exchange_name: Seq<char>,
    quote: Seq<char>,
    symbols: Seq<String>,
    n: int,
) -> int
    decreases n,
{
    if n <= 0 {
        0
    } else {
        listing_writes(t, exchange_id, exchange_name, quote, symbols, n - 1) + if t.has_inactive_coin(
            symbols[n - 1]@,
        ) || seen_before(symbols, n - 1) {
            0
        } else {
            crate::store::rows_affected(
                t.listing_state(exchange_id, symbols[n - 1]@),
                market_symbol_of(exchange_name, symbols[n - 1]@),
                symbols[n - 1]@,
                quote,
            )
        }
    }
}

/// The count of coins needed grows with the number of symbols.
pub proof fn lemma_coins_needed_grows(t: Tables, symbols: Seq<String>, n: int, m: int)
    requires
        0 <= n <= m,
    ensures
        coins_needed(t, symbols, n) <= coins_needed(t, symbols, m),
    decreases m - n,
{
    if n < m {
        lemma_coins_needed_grows(t, symbols, n, m - 1);
    }
}

/// One more symbol names what was named before, and itself.
pub proof fn lemma_names_take(symbols: Seq<String>, i: int)
    requires
        0 <= i < symbols.len(),
    ensures
        forall|x: Seq<char>| #[trigger]
            names(symbols.take(i + 1), x) == (names(symbols.take(i), x) || x == symbols[i]@),
{
    assert forall|x: Seq<char>| #[trigger]
        names(symbols.take(i + 1), x) == (names(symbols.take(i), x) || x == symbols[i]@) by {
        if names(symbols.take(i + 1), x) {
            let m = choose|m: int|
                0 <= m < symbols.take(i + 1).len() && (#[trigger] symbols.take(i + 1)[m])@ == x;
            if m < i {
                assert(symbols.take(i)[m]@ == x);
            }
        }
        if names(symbols.take(i), x) {
            let m = choose|m: int|
                0 <= m < symbols.take(i).len() && (#[trigger] symbols.take(i)[m])@ == x;
            assert(symbols.take(i + 1)[m]@ == x);
        }
        if x == symbols[i]@ {
            assert(symbols.take(i + 1)[i]@ == x);
        }
    }
}

/// The venue's listed symbols after a synchronisation with the symbols: with
/// no symbols the venue is left alone; otherwise a symbol is listed where it
/// is one of the symbols and either was listed or can be listed, which it
/// cannot where its coin is inactive.
pub open spec fn listed_after_sync(before: Tables, exchange_id: int, symbols: Seq<String>, x: Seq<char>)
    -> bool {
    if symbols.len() == 0 {
        before.is_listed(exchange_id, x)
    } else {
        names(symbols, x) && (before.is_listed(exchange_id, x) || !before.has_inactive_coin(x))
    }
}

/// The tables differ at most in their coins and listings.
pub open spec fn same_but_catalog(before: Tables, after: Tables) -> bool {
    &&& after.exchanges == before.exchanges
    &&& after.prices == before.prices
    &&& after.rates == before.rates
    &&& after.kimchi == before.kimchi
}

/// What a synchronisation of one venue does: `after` is `before` once the
/// venue with the name is brought in line with the symbols at the time
/// `now`, and `r` is what the synchronisation returns. It says when the
/// synchronisation succeeds, what it counts, which symbols the venues list
/// afterwards, and what every coin and every listing holds afterwards: the
/// coins as [`coins_rows`] has them, the listings as [`listings_synced`] has
/// them. Whether it succeeds or fails, it leaves alone what [`catalog_kept`]
/// names; where it fails for want of a coin identifier, [`failed_at`] says how
/// far it came.
#[verifier::opaque]
pub open spec fn exchange_processed(
    before: Tables,
    after: Tables,
    ex_name: Seq<char>,
    symbols: Seq<String>,
    quote: Seq<char>,
    now: int,
    r: Result<(u128, u64, usize), AppError>,
) -> bool {
    &&& after.wf()
    &&& same_but_catalog(before, after)
    &&& forall|x: Seq<char>| #[trigger] after.has_inactive_coin(x) == before.has_inactive_coin(x)
    &&& r is Ok <==> before.exchange_id(ex_name) is Some && greatest_coin_id(before.coins)
        + coins_needed(before, symbols, symbols.len() as int) <= i32::MAX
    &&& r is Err ==> r.unwrap_err() is Database
    &&& before.exchange_id(ex_name) is None ==> after == before
    &&& catalog_kept(before, after, before.exchange_id(ex_name), symbols)
    &&& r is Err && before.exchange_id(ex_name) is Some ==> exists|i: int| #[trigger]
        failed_at(
            before,
            after,
            before.exchange_id(ex_name).unwrap(),
            ex_name,
            quote,
            symbols,
            i,
            now,
        )
    &&& r is Ok ==> {
        let id = before.exchange_id(ex_name).unwrap();
        &&& coins_rows(
            before,
            after,
            symbols,
            coins_needed(before, symbols, symbols.len() as int) as int,
            now,
        )
        &&& listings_synced(before, after, id, ex_name, quote, symbols)
        &&& forall|x: Seq<char>|
            names(symbols, x) && !before.has_inactive_coin(x) ==> #[trigger] after.listing_state(
                id,
                x,
            ) == Some(written(ex_name, quote, x))
        &&& forall|x: Seq<char>| names(symbols, x) ==> #[trigger] coin_named(after, x)
        &&& r.unwrap().0 == listing_writes(
            before,
            id,
            ex_name,
            quote,
            symbols,
            symbols.len() as int,
        )
        &&& r.unwrap().1 == (if symbols.len() == 0 {
            0
        } else {
            before.stale_count(before.listings.len() as int, id, symbols)
        })
        &&& r.unwrap().0 <= 2 * symbols.len()
        &&& r.unwrap().2 == symbols.len()
        &&& forall|x: Seq<char>| #[trigger]
            after.is_listed(id, x) == listed_after_sync(before, id, symbols, x)
        &&& forall|e: int, x: Seq<char>|
            e != id ==> #[trigger] after.is_listed(e, x) == before.is_listed(e, x)
        &&& forall|x: Seq<char>| names(symbols, x) ==> #[trigger] after.has_coin(x)
    }
}

/// No coin is needed where every symbol has one.
pub proof fn lemma_no_coins_needed(t: Tables, symbols: Seq<String>, n: int)
    requires
        0 <= n <= symbols.len(),
        forall|x: Seq<char>| names(symbols, x) ==> #[trigger] t.has_coin(x),
    ensures
        coins_needed(t, symbols, n) == 0,
    decreases n,
{
    if n > 0 {
        lemma_no_coins_needed(t, symbols, n - 1);
        assert(names(symbols, symbols[n - 1]@));
        assert(t.has_coin(symbols[n - 1]@));
    }
}

/// No row is affected where every listing to write says what is written.
pub proof fn lemma_no_listing_writes(
    t: Tables,
    exchange_id: int,
    ex_name: Seq<char>,
    quote: Seq<char>,
    symbols: Seq<String>,
    n: int,
)
    requires
        0 <= n <= symbols.len(),
        forall|x: Seq<char>|
            names(symbols, x) && !t.has_inactive_coin(x) ==> #[trigger] t.listing_state(
                exchange_id,
                x,
            ) == Some(written(ex_name, quote, x)),
    ensures
        listing_writes(t, exchange_id, ex_name, quote, symbols, n) == 0,
    decreases n,
{
    if n > 0 {
        lemma_no_listing_writes(t, exchange_id, ex_name, quote, symbols, n - 1);
        assert(names(symbols, symbols[n - 1]@));
    }
}

/// No listing is stale where none of the first `n` is.
pub proof fn lemma_no_stale(t: Tables, n: int, exchange_id: int, symbols: Seq<String>)
    requires
        forall|a: int| 0 <= a < n ==> !t.listing_stale(a, exchange_id, symbols),
    ensures
        t.stale_count(n, exchange_id, symbols) == 0,
    decreases n,
{
    if n > 0 {
        lemma_no_stale(t, n - 1, exchange_id, symbols);
    }
}

/// After a synchronisation of a venue with symbols, none of its listings is
/// stale for these symbols.
pub proof fn lemma_synced_has_no_stale(
    before: Tables,
    after: Tables,
    ex_name: Seq<char>,
    symbols: Seq<String>,
    quote: Seq<char>,
    now: int,
    r: Result<(u128, u64, usize), AppError>,
)
    requires
        symbols.len() > 0,
        exchange_processed(before, after, ex_name, symbols, quote, now, r),
        r is Ok,
    ensures
        forall|a: int|
            0 <= a < after.listings.len() ==> !after.listing_stale(
                a,
                before.exchange_id(ex_name).unwrap(),
                symbols,
            ),
{
    reveal(exchange_processed);
    let id = before.exchange_id(ex_name).unwrap();
    assert forall|a: int| 0 <= a < after.listings.len() implies !after.listing_stale(
        a,
        id,
        symbols,
    ) by {
        if after.listings[a].exchange_id == id && after.listings[a].is_active {
            assert(after.has_coin_id(after.listings[a].coin_id as int));
            let k = choose|k: int|
                0 <= k < after.coins.len() && (#[trigger] after.coins[k]).id
                    == after.listings[a].coin_id;
            let x = after.coins[k].symbol@;
            assert(after.listed_at(a, k, id, x));
            assert(after.is_listed(id, x));
            assert(listed_after_sync(before, id, symbols, x));
            let m = choose|m: int| 0 <= m < symbols.len() && (#[trigger] symbols[m])@ == x;
            assert(after.coins[k].id == after.listings[a].coin_id && after.coins[k].symbol@
                == symbols[m]@);
            assert(after.listing_named(a, symbols));
        }
    }
}

/// What two tables hold is the same, row by row: the coins and the listings
/// have the same fields with the same contents.
pub open spec fn same_catalog_rows(a: Tables, b: Tables) -> bool {
    &&& a.coins.len() == b.coins.len()
    &&& forall|k: int|
        0 <= k < a.coins.len() ==> {
            &&& (#[trigger] a.coins[k]).id == b.coins[k].id
            &&& a.coins[k].symbol@ == b.coins[k].symbol@
            &&& a.coins[k].name@ == b.coins[k].name@
            &&& a.coins[k].is_active == b.coins[k].is_active
            &&& a.coins[k].created_at == b.coins[k].created_at
        }
    &&& a.listings.len() == b.listings.len()
    &&& forall|i: int|
        0 <= i < a.listings.len() ==> {
            &&& (#[trigger] a.listings[i]).exchange_id == b.listings[i].exchange_id
            &&& a.listings[i].coin_id == b.listings[i].coin_id
            &&& a.listing_content(i) == b.listing_content(i)
        }
}

/// A synchronisation of a venue that follows a successful one with the same
/// symbols succeeds, affects no row, switches off no listing, and leaves
/// every coin and every listing holding what it held.
pub proof fn lemma_second_sync_is_idle(
    t0: Tables,
    t1: Tables,
    t2: Tables,
    ex_name: Seq<char>,
    symbols: Seq<String>,
    quote: Seq<char>,
    now1: int,
    now2: int,
    r1: Result<(u128, u64, usize), AppError>,
    r2: Result<(u128, u64, usize), AppError>,
)
    requires
        t0.wf(),
        symbols.len() > 0,
        exchange_processed(t0, t1, ex_name, symbols, quote, now1, r1),
        r1 is Ok,
        exchange_processed(t1, t2, ex_name, symbols, quote, now2, r2),
    ensures
        r2 is Ok,
        r2.unwrap().0 == 0,
        r2.unwrap().1 == 0,
        r2.unwrap().2 == symbols.len(),
        same_catalog_rows(t1, t2),
{
    reveal(exchange_processed);
    let id = t0.exchange_id(ex_name).unwrap();
    assert(t1.exchange_id(ex_name) == t0.exchange_id(ex_name)) by {
        assert forall|i: int| t1.exchange_at(i, ex_name) == t0.exchange_at(i, ex_name) by {}
    }
    lemma_no_coins_needed(t1, symbols, symbols.len() as int);
    crate::store::lemma_greatest_in_range(t1.coins);
    assert(r2 is Ok);
    lemma_no_listing_writes(t1, id, ex_name, quote, symbols, symbols.len() as int);
    lemma_synced_has_no_stale(t0, t1, ex_name, symbols, quote, now1, r1);
    lemma_no_stale(t1, t1.listings.len() as int, id, symbols);
    lemma_second_sync_keeps_coins(t0, t1, t2, symbols, now1, now2);
    lemma_second_sync_keeps_listings(t0, t1, t2, id, ex_name, quote, symbols, now1);
}

/// The coins of a second synchronisation with the same symbols hold what
/// they held.
pub proof fn lemma_second_sync_keeps_coins(
    t0: Tables,
    t1: Tables,
    t2: Tables,
    symbols: Seq<String>,
    now1: int,
    now2: int,
)
    requires
        coins_rows(t0, t1, symbols, coins_needed(t0, symbols, symbols.len() as int) as int, now1),
        coins_rows(t1, t2, symbols, 0, now2),
    ensures
        t2.coins.len() == t1.coins.len(),
        forall|k: int|
            0 <= k < t1.coins.len() ==> {
                &&& (#[trigger] t1.coins[k]).id == t2.coins[k].id
                &&& t1.coins[k].symbol@ == t2.coins[k].symbol@
                &&& t1.coins[k].name@ == t2.coins[k].name@
                &&& t1.coins[k].is_active == t2.coins[k].is_active
                &&& t1.coins[k].created_at == t2.coins[k].created_at
            },
{
    assert forall|k: int| 0 <= k < t1.coins.len() implies {
        &&& (#[trigger] t1.coins[k]).id == t2.coins[k].id
        &&& t1.coins[k].symbol@ == t2.coins[k].symbol@
        &&& t1.coins[k].name@ == t2.coins[k].name@
        &&& t1.coins[k].is_active == t2.coins[k].is_active
        &&& t1.coins[k].created_at == t2.coins[k].created_at
    } by {
        assert(t2.coins[k].id == t1.coins[k].id);
        if k < t0.coins.len() {
            assert(t1.coins[k].symbol@ == t0.coins[k].symbol@);
        } else {
            assert(t1.coins[k].name@ == t1.coins[k].symbol@);
        }
    }
}

/// The listings of a second synchronisation with the same symbols hold what
/// they held, and there are no more of them.
pub proof fn lemma_second_sync_keeps_listings(
    t0: Tables,
    t1: Tables,
    t2: Tables,
    id: int,
    ex_name: Seq<char>,
    quote: Seq<char>,
    symbols: Seq<String>,
    now1: int,
)
    requires
        t0.wf(),
        t1.wf(),
        t2.wf(),
        symbols.len() > 0,
        coins_rows(t0, t1, symbols, coins_needed(t0, symbols, symbols.len() as int) as int, now1),
        t2.coins.len() == t1.coins.len(),
        forall|k: int|
            0 <= k < t1.coins.len() ==> (#[trigger] t2.coins[k]).id == t1.coins[k].id
                && t2.coins[k].symbol@ == t1.coins[k].symbol@ && t2.coins[k].is_active
                == t1.coins[k].is_active,
        listings_synced(t0, t1, id, ex_name, quote, symbols),
        listings_synced(t1, t2, id, ex_name, quote, symbols),
        forall|x: Seq<char>|
            names(symbols, x) && !t1.has_inactive_coin(x) ==> #[trigger] t1.listing_state(id, x)
                is Some,
        forall|a: int| 0 <= a < t1.listings.len() ==> !t1.listing_stale(a, id, symbols),
    ensures
        t2.listings.len() == t1.listings.len(),
        forall|i: int|
            0 <= i < t1.listings.len() ==> {
                &&& (#[trigger] t1.listings[i]).exchange_id == t2.listings[i].exchange_id
                &&& t1.listings[i].coin_id == t2.listings[i].coin_id
                &&& t1.listing_content(i) == t2.listing_content(i)
            },
{
    // A listing to write says what is written already.
    assert forall|a: int, k: int|
        0 <= a < t1.listings.len() && #[trigger] due_at(
            t1,
            a,
            k,
            id,
            symbols,
        ) implies t1.listing_content(a) == written(ex_name, quote, t1.coins[k].symbol@) by {
        if a < t0.listings.len() {
            assert(t1.listings[a].coin_id == t0.listings[a].coin_id);
            assert(t0.has_coin_id(t0.listings[a].coin_id as int));
            let w = choose|w: int|
                0 <= w < t0.coins.len() && (#[trigger] t0.coins[w]).id == t0.listings[a].coin_id;
            assert(t1.coins[w].id == t0.coins[w].id);
            if w != k {
                assert(t1.coins[w].id == t1.coins[k].id);
                assert(false);
            }
            assert(due_at(t0, a, k, id, symbols));
        } else {
            assert(is_written(t1, a, id, ex_name, quote, symbols));
            let w = choose|w: int| written_at(t1, a, w, id, ex_name, quote, symbols);
            if w != k {
                assert(t1.coins[w].id == t1.coins[k].id);
                assert(false);
            }
        }
    }
    assert forall|i: int| 0 <= i < t1.listings.len() implies {
        &&& (#[trigger] t1.listings[i]).exchange_id == t2.listings[i].exchange_id
        &&& t1.listings[i].coin_id == t2.listings[i].coin_id
        &&& t1.listing_content(i) == t2.listing_content(i)
    } by {
        assert(t2.listings[i].exchange_id == t1.listings[i].exchange_id);
        if t1.listings[i].exchange_id != id {
            assert(t2.listings[i] == t1.listings[i]);
        } else if is_due(t1, i, id, symbols) {
            let k = choose|k: int| due_at(t1, i, k, id, symbols);
            assert(due_at(t1, i, k, id, symbols));
        } else {
            assert(!t1.listing_stale(i, id, symbols));
        }
    }
    if t2.listings.len() > t1.listings.len() {
        let a = t1.listings.len() as int;
        assert(is_written(t2, a, id, ex_name, quote, symbols));
        let k = choose|k: int| written_at(t2, a, k, id, ex_name, quote, symbols);
        let x = t1.coins[k].symbol@;
        assert(t2.coins[k].id == t1.coins[k].id);
        assert(names(symbols, x));
        if t1.has_inactive_coin(x) {
            let bad = choose|b: int| t1.coin_at(b, x) && !t1.coins[b].is_active;
            assert(t1.coins[bad].symbol@ == t1.coins[k].symbol@);
            assert(bad == k);
            assert(false);
        }
        assert(t1.listing_state(id, x) is Some);
        let p = choose|i: int, w: int| t1.listing_of_at(i, w, id, x);
        assert(t1.coins[p.1].symbol@ == t1.coins[k].symbol@);
        assert(p.1 == k);
        assert(t2.listings[p.0].exchange_id == t1.listings[p.0].exchange_id);
        assert(t2.listings[p.0].exchange_id == t2.listings[a].exchange_id
            && t2.listings[p.0].coin_id == t2.listings[a].coin_id);
        assert(false);
    }
}

/// What the venues answered when asked for their listings. `None` stands
/// for a venue whose answer did not arrive or could not be decoded.
#[derive(Debug, Clone)]
pub struct CatalogUpstream {
    pub binance: Option<Vec<BinanceSymbolInfo>>,
    pub upbit: Option<Vec<UpbitMarket>>,
    pub bithumb: Option<BithumbResponse>,
}

/// The outcome of a catalog synchronisation.
#[derive(Debug, Clone, Copy, PartialEq, Eq, Structural)]
pub struct SyncSummary {
    /// The number of symbols that the synchronised venues reported.
    pub active_total: u128,
    /// The rows that the listing upserts affected.
    pub upserts: u128,
    /// The number of listings that were switched off.
    pub deactivated: u128,
}

/// What the venues answered when asked for their tickers. `None` stands for
/// a venue whose answer did not arrive or could not be decoded.
#[derive(Debug, Clone)]
pub struct PriceUpstream {
    pub binance: Option<Vec<BinanceTickerResponse>>,
    pub upbit: Option<Vec<UpbitTickerResponse>>,
    pub bithumb: Option<BithumbResponse>,
}

/// How many rows each venue contributed to a batch; none for a venue whose
/// fetch failed.
#[derive(Debug, Clone, Copy, PartialEq, Eq, Structural)]
pub struct IngestSummary {
    pub binance_count: usize,
    pub upbit_count: usize,
    pub bithumb_count: usize,
}

/// The symbols that Binance reports; none where its answer is missing.
pub open spec fn binance_listing(upstream: CatalogUpstream) -> Seq<Seq<char>> {
    match upstream.binance {
        Some(info) => distinct_texts(binance_bases(info@, info@.len() as int)),
        None => Seq::empty(),
    }
}

/// The symbols that Upbit reports; none where its answer is missing.
pub open spec fn upbit_listing(upstream: CatalogUpstream) -> Seq<Seq<char>> {
    match upstream.upbit {
        Some(markets) => distinct_texts(upbit_bases(markets@, markets@.len() as int)),
        None => Seq::empty(),
    }
}

/// The symbols that Bithumb reports; none where its answer is missing.
pub open spec fn bithumb_listing(upstream: CatalogUpstream) -> Seq<Seq<char>> {
    match upstream.bithumb {
        Some(response) => distinct_texts(bithumb_symbols(response)),
        None => Seq::empty(),
    }
}

/// The target of a synchronisation: the lowercase form of what was asked
/// for, `all` where nothing was.
pub open spec fn sync_target(exchange: Option<&str>) -> Seq<char> {
    match exchange {
        Some(name) => lowercase_of(name@),
        None => "all"@,
    }
}

/// The target covers the venue: it is `all`, or the venue's name in
/// lowercase.
pub open spec fn targets(target: Seq<char>, venue: ExchangeType) -> bool {
    target == "all"@ || target == (match venue {
        ExchangeType::Binance => "binance"@,
        ExchangeType::Upbit => "upbit"@,
        ExchangeType::Bithumb => "bithumb"@,
    })
}

/// One link of a synchronisation: a venue that the target covers is
/// synchronised with its symbols, another is left alone.
pub open spec fn venue_synced(
    before: Tables,
    after: Tables,
    targeted: bool,
    venue: ExchangeType,
    texts: Seq<Seq<char>>,
    now: int,
    r: Option<Result<(u128, u64, usize), AppError>>,
) -> bool {
    if targeted {
        r is Some && exists|symbols: Seq<String>| #[trigger]
            texts_of(symbols) == texts && exchange_processed(
                before,
                after,
                venue.name(),
                symbols,
                venue.quote(),
                now,
                r.unwrap(),
            )
    } else {
        r is None && after == before
    }
}

/// The counts that a link contributes.
pub open spec fn link_counts(r: Option<Result<(u128, u64, usize), AppError>>) -> (int, int, int) {
    match r {
        Some(Ok(c)) => (c.0 as int, c.1 as int, c.2 as int),
        _ => (0, 0, 0),
    }
}

/// A link failed.
pub open spec fn link_failed(r: Option<Result<(u128, u64, usize), AppError>>) -> bool {
    r is Some && r.unwrap() is Err
}

/// The links of a synchronisation, venue after venue: Binance, Upbit,
/// Bithumb. The first link that fails ends it, and what was done stays.
pub open spec fn sync_chain(
    before: Tables,
    a: Tables,
    b: Tables,
    after: Tables,
    target: Seq<char>,
    upstream: CatalogUpstream,
    now: int,
    rb: Option<Result<(u128, u64, usize), AppError>>,
    ru: Option<Result<(u128, u64, usize), AppError>>,
    rt: Option<Result<(u128, u64, usize), AppError>>,
    r: Result<SyncSummary, AppError>,
) -> bool {
    &&& venue_synced(
        before,
        a,
        targets(target, ExchangeType::Binance),
        ExchangeType::Binance,
        binance_listing(upstream),
        now,
        rb,
    )
    &&& if link_failed(rb) {
        b == a && after == a && ru is None && rt is None && r is Err && r.unwrap_err() is Database
    } else {
        &&& venue_synced(
            a,
            b,
            targets(target, ExchangeType::Upbit),
            ExchangeType::Upbit,
            upbit_listing(upstream),
            now,
            ru,
        )
        &&& if link_failed(ru) {
            after == b && rt is None && r is Err && r.unwrap_err() is Database
        } else {
            &&& venue_synced(
                b,
                after,
                targets(target, ExchangeType::Bithumb),
                ExchangeType::Bithumb,
                bithumb_listing(upstream),
                now,
                rt,
            )
            &&& if link_failed(rt) {
                r is Err && r.unwrap_err() is Database
            } else {
                &&& r is Ok
                &&& r.unwrap().upserts == link_counts(rb).0 + link_counts(ru).0 + link_counts(rt).0
                &&& r.unwrap().deactivated == link_counts(rb).1 + link_counts(ru).1 + link_counts(
                    rt,
                ).1
                &&& r.unwrap().active_total == link_counts(rb).2 + link_counts(ru).2 + link_counts(
                    rt,
                ).2
            }
        }
    }
}

/// `after` is `before` once the catalog is synchronised for the target, and
/// `r` is what the synchronisation returns.
pub open spec fn catalog_synced(
    before: Tables,
    after: Tables,
    target: Seq<char>,
    upstream: CatalogUpstream,
    now: int,
    r: Result<SyncSummary, AppError>,
) -> bool {
    exists|
        a: Tables,
        b: Tables,
        rb: Option<Result<(u128, u64, usize), AppError>>,
        ru: Option<Result<(u128, u64, usize), AppError>>,
        rt: Option<Result<(u128, u64, usize), AppError>>,
    | #[trigger] sync_chain(
        before,
        a,
        b,
        after,
        target,
        upstream,
        now,
        rb,
        ru,
        rt,
        r,
    )
}

/// The symbols that a venue reports.
pub open spec fn venue_listing(upstream: CatalogUpstream, venue: ExchangeType) -> Seq<Seq<char>> {
    match venue {
        ExchangeType::Binance => binance_listing(upstream),
        ExchangeType::Upbit => upbit_listing(upstream),
        ExchangeType::Bithumb => bithumb_listing(upstream),
    }
}

/// The venue's listed symbols after a synchronisation with the reported
/// texts: with no texts the venue is left alone; otherwise a symbol is listed
/// where it is reported and either was listed or can be listed, which it
/// cannot where its coin is inactive.
pub open spec fn listed_after(before: Tables, exchange_id: int, texts: Seq<Seq<char>>, x: Seq<char>)
    -> bool {
    if texts.len() == 0 {
        before.is_listed(exchange_id, x)
    } else {
        texts.contains(x) && (before.is_listed(exchange_id, x) || !before.has_inactive_coin(x))
    }
}

/// A text is named by the symbols where it is among their texts.
pub proof fn lemma_names_contains(symbols: Seq<String>, x: Seq<char>)
    ensures
        names(symbols, x) == texts_of(symbols).contains(x),
{
    if names(symbols, x) {
        let m = choose|m: int| 0 <= m < symbols.len() && (#[trigger] symbols[m])@ == x;
        assert(texts_of(symbols)[m] == x);
    }
    if texts_of(symbols).contains(x) {
        let m = choose|m: int| 0 <= m < texts_of(symbols).len() && texts_of(symbols)[m] == x;
        assert(symbols[m]@ == x);
    }
}

/// After a synchronisation, a venue that reported a set of symbols lists
/// exactly that set, provided none of them is the symbol of an inactive
/// coin; a venue that reported nothing lists what it listed before.
pub proof fn lemma_sync_lists_what_is_reported(
    before: Tables,
    after: Tables,
    exchange_id: int,
    texts: Seq<Seq<char>>,
)
    requires
        forall|x: Seq<char>| #[trigger]
            after.is_listed(exchange_id, x) == listed_after(before, exchange_id, texts, x),
        forall|x: Seq<char>| texts.contains(x) ==> !#[trigger] before.has_inactive_coin(x),
    ensures
        texts.len() > 0 ==> after.active_symbols(exchange_id) == texts.to_set(),
        texts.len() == 0 ==> after.active_symbols(exchange_id) == before.active_symbols(
            exchange_id,
        ),
{
    if texts.len() > 0 {
        assert forall|x: Seq<char>|
            after.active_symbols(exchange_id).contains(x) == texts.to_set().contains(x) by {
            assert(after.is_listed(exchange_id, x) == listed_after(before, exchange_id, texts, x));
        }
        assert(after.active_symbols(exchange_id) =~= texts.to_set());
    } else {
        assert forall|x: Seq<char>|
            after.active_symbols(exchange_id).contains(x) == before.active_symbols(
                exchange_id,
            ).contains(x) by {
            assert(after.is_listed(exchange_id, x) == listed_after(before, exchange_id, texts, x));
        }
        assert(after.active_symbols(exchange_id) =~= before.active_symbols(exchange_id));
    }
}

/// The rows of Binance in a batch: none where its answer is missing, the
/// store does not know the venue, or a price cannot be read.
pub open spec fn binance_batch(t: Tables, upstream: PriceUpstream, timestamp: int) -> Seq<PriceRow> {
    match (upstream.binance, t.exchange_id("Binance"@)) {
        (Some(response), Some(id)) => match binance_rows(
            t,
            id,
            response@,
            response@.len() as int,
            timestamp,
        ) {
            Some(rows) => rows,
            None => Seq::empty(),
        },
        _ => Seq::empty(),
    }
}

/// The rows of Upbit in a batch.
pub open spec fn upbit_batch(t: Tables, upstream: PriceUpstream, timestamp: int) -> Seq<PriceRow> {
    match (upstream.upbit, t.exchange_id("Upbit"@)) {
        (Some(response), Some(id)) => upbit_rows(
            t,
            id,
            response@,
            response@.len() as int,
            timestamp,
        ),
        _ => Seq::empty(),
    }
}

/// The rows of Bithumb in a batch.
pub open spec fn bithumb_batch(t: Tables, upstream: PriceUpstream, timestamp: int) -> Seq<PriceRow> {
    match upstream.bithumb {
        Some(response) => if response.status@ == "0000"@ && response.data is Some {
            match t.exchange_id("Bithumb"@) {
                Some(id) => bithumb_rows(
                    t,
                    id,
                    response.data.unwrap()@,
                    response.data.unwrap()@.len() as int,
                    timestamp,
                ),
                None => Seq::empty(),
            }
        } else {
            Seq::empty()
        },
        None => Seq::empty(),
    }
}

/// How many of the first `n` written rows the table takes: a row is refused
/// only where it has a new key and the table is full.
pub open spec fn rows_taken(rows: Seq<PriceRow>, written: Seq<PriceRow>, n: int) -> nat
    decreases n,
{
    if n <= 0 {
        0
    } else {
        rows_taken(rows, written, n - 1) + if crate::store::holds_key(
            with_prices(rows, written, n - 1),
            written[n - 1],
        ) || with_prices(rows, written, n - 1).len() < i32::MAX {
            1nat
        } else {
            0nat
        }
    }
}

/// The price rows once the rows are persisted: sanitized and written one
/// after the other.
pub open spec fn persisted(rows: Seq<PriceRow>, batch: Seq<PriceRow>) -> Seq<PriceRow> {
    with_prices(rows, sanitized_rows(batch), batch.len() as int)
}

/// Different venues have different identifiers in a store that knows both.
pub proof fn lemma_exchange_ids_distinct(t: Tables, v: ExchangeType, w: ExchangeType)
    requires
        t.wf(),
        v != w,
        t.exchange_id(v.name()) is Some,
        t.exchange_id(w.name()) is Some,
    ensures
        t.exchange_id(v.name()).unwrap() != t.exchange_id(w.name()).unwrap(),
{
    crate::models::exchange::lemma_canonical_names_distinct();
    let i = choose|i: int| t.exchange_at(i, v.name());
    let j = choose|j: int| t.exchange_at(j, w.name());
    assert(t.exchanges[i].name@ != t.exchanges[j].name@);
    assert(i != j);
    if i < j {
        assert(t.exchanges[i].id != t.exchanges[j].id);
    } else {
        assert(t.exchanges[j].id != t.exchanges[i].id);
    }
}

/// What a venue lists after a synchronisation of the catalog: what its own
/// synchronisation leaves where the target covers it, what it listed before
/// where not.
pub open spec fn listed_after_catalog_sync(
    before: Tables,
    target: Seq<char>,
    upstream: CatalogUpstream,
    venue: ExchangeType,
    x: Seq<char>,
) -> bool {
    if targets(target, venue) {
        listed_after(
            before,
            before.exchange_id(venue.name()).unwrap(),
            venue_listing(upstream, venue),
            x,
        )
    } else {
        before.is_listed(before.exchange_id(venue.name()).unwrap(), x)
    }
}

/// The counts of a link are bounded by the number of its symbols.
pub proof fn lemma_link_bounds(
    before: Tables,
    after: Tables,
    targeted: bool,
    venue: ExchangeType,
    texts: Seq<Seq<char>>,
    now: int,
    r: Option<Result<(u128, u64, usize), AppError>>,
)
    requires
        venue_synced(
            before,
            after,
            targeted,
            venue,
            texts,
            now,
            r,
        ),
    ensures
        0 <= link_counts(r).0 <= 2 * usize::MAX,
        0 <= link_counts(r).1 <= u64::MAX,
        0 <= link_counts(r).2 <= usize::MAX,
        link_failed(r) ==> r.unwrap().unwrap_err() is Database,
{
    reveal(exchange_processed);
}

/// What one link leaves of a venue's listed symbols and of the inactive
/// coins, where it does not fail.
pub proof fn lemma_link_lists(
    first: Tables,
    before: Tables,
    after: Tables,
    targeted: bool,
    venue: ExchangeType,
    texts: Seq<Seq<char>>,
    now: int,
    r: Option<Result<(u128, u64, usize), AppError>>,
    other: ExchangeType,
    x: Seq<char>,
)
    requires
        first.wf(),
        before.exchanges == first.exchanges,
        venue_synced(
            before,
            after,
            targeted,
            venue,
            texts,
            now,
            r,
        ),
        !link_failed(r),
        first.exchange_id(other.name()) is Some,
        before.has_inactive_coin(x) == first.has_inactive_coin(x),
        other == venue ==> before.is_listed(first.exchange_id(other.name()).unwrap(), x)
            == first.is_listed(first.exchange_id(other.name()).unwrap(), x),
    ensures
        after.exchanges == first.exchanges,
        after.has_inactive_coin(x) == first.has_inactive_coin(x),
        after.is_listed(first.exchange_id(other.name()).unwrap(), x) == (if targeted && other
            == venue {
            listed_after(first, first.exchange_id(other.name()).unwrap(), texts, x)
        } else {
            before.is_listed(first.exchange_id(other.name()).unwrap(), x)
        }),
{
    reveal(exchange_processed);
    let id = first.exchange_id(other.name()).unwrap();
    assert(before.exchange_id(other.name()) == first.exchange_id(other.name())) by {
        assert forall|i: int|
            before.exchange_at(i, other.name()) == first.exchange_at(i, other.name()) by {}
    }
    assert(before.exchange_id(venue.name()) == first.exchange_id(venue.name())) by {
        assert forall|i: int|
            before.exchange_at(i, venue.name()) == first.exchange_at(i, venue.name()) by {}
    }
    if targeted {
        let symbols = choose|symbols: Seq<String>| #[trigger]
            texts_of(symbols) == texts && exchange_processed(
                before,
                after,
                venue.name(),
                symbols,
                venue.quote(),
                now,
                r.unwrap(),
            );
        lemma_names_contains(symbols, x);
        if other != venue {
            lemma_exchange_ids_distinct(first, other, venue);
        }
    }
}

/// What one link of a synchronisation leaves alone: as [`catalog_kept`], with
/// the symbols given as texts. `id` is the identifier of the venue that the
/// link synchronises, if it synchronises one.
pub open spec fn rows_kept(before: Tables, after: Tables, id: Option<int>, texts: Seq<Seq<char>>)
    -> bool {
    &&& before.coins.len() <= after.coins.len()
    &&& forall|k: int|
        0 <= k < before.coins.len() ==> {
            &&& (#[trigger] after.coins[k]).id == before.coins[k].id
            &&& after.coins[k].symbol@ == before.coins[k].symbol@
            &&& after.coins[k].is_active == before.coins[k].is_active
            &&& after.coins[k].created_at == before.coins[k].created_at
            &&& !texts.contains(before.coins[k].symbol@) ==> after.coins[k] == before.coins[k]
        }
    &&& before.listings.len() <= after.listings.len()
    &&& forall|a: int|
        0 <= a < before.listings.len() ==> {
            &&& (#[trigger] after.listings[a]).exchange_id == before.listings[a].exchange_id
            &&& after.listings[a].coin_id == before.listings[a].coin_id
            &&& id != Some(before.listings[a].exchange_id as int) ==> after.listings[a]
                == before.listings[a]
        }
    &&& texts.len() == 0 || id is None ==> after == before
}

/// One link of a synchronisation leaves alone what a synchronisation of its
/// venue leaves alone, whether it succeeds or fails.
pub proof fn lemma_link_keeps(
    first: Tables,
    before: Tables,
    after: Tables,
    targeted: bool,
    venue: ExchangeType,
    texts: Seq<Seq<char>>,
    now: int,
    r: Option<Result<(u128, u64, usize), AppError>>,
)
    requires
        before.exchanges == first.exchanges,
        venue_synced(before, after, targeted, venue, texts, now, r),
    ensures
        after.exchanges == first.exchanges,
        rows_kept(
            before,
            after,
            if targeted {
                first.exchange_id(venue.name())
            } else {
                None
            },
            texts,
        ),
{
    reveal(exchange_processed);
    if targeted {
        assert(before.exchange_id(venue.name()) == first.exchange_id(venue.name())) by {
            assert forall|i: int|
                before.exchange_at(i, venue.name()) == first.exchange_at(i, venue.name()) by {}
        }
        let symbols = choose|symbols: Seq<String>| #[trigger]
            texts_of(symbols) == texts && exchange_processed(
                before,
                after,
                venue.name(),
                symbols,
                venue.quote(),
                now,
                r.unwrap(),
            );
        assert(texts.len() == symbols.len());
        assert forall|k: int| 0 <= k < before.coins.len() implies {
            &&& (#[trigger] after.coins[k]).id == before.coins[k].id
            &&& after.coins[k].symbol@ == before.coins[k].symbol@
            &&& after.coins[k].is_active == before.coins[k].is_active
            &&& after.coins[k].created_at == before.coins[k].created_at
            &&& !texts.contains(before.coins[k].symbol@) ==> after.coins[k] == before.coins[k]
        } by {
            lemma_names_contains(symbols, before.coins[k].symbol@);
        }
    }
}

/// One of the venues that the target covers reports the symbol.
pub open spec fn reported(target: Seq<char>, upstream: CatalogUpstream, x: Seq<char>) -> bool {
    ||| targets(target, ExchangeType::Binance) && binance_listing(upstream).contains(x)
    ||| targets(target, ExchangeType::Upbit) && upbit_listing(upstream).contains(x)
    ||| targets(target, ExchangeType::Bithumb) && bithumb_listing(upstream).contains(x)
}

/// The identifier is of one of the venues that the target covers.
pub open spec fn synced_id(t: Tables, target: Seq<char>, e: int) -> bool {
    ||| targets(target, ExchangeType::Binance) && t.exchange_id("Binance"@) == Some(e)
    ||| targets(target, ExchangeType::Upbit) && t.exchange_id("Upbit"@) == Some(e)
    ||| targets(target, ExchangeType::Bithumb) && t.exchange_id("Bithumb"@) == Some(e)
}

/// None of the venues that the target covers reports a symbol.
pub open spec fn nothing_reported(target: Seq<char>, upstream: CatalogUpstream) -> bool {
    &&& targets(target, ExchangeType::Binance) ==> binance_listing(upstream).len() == 0
    &&& targets(target, ExchangeType::Upbit) ==> upbit_listing(upstream).len() == 0
    &&& targets(target, ExchangeType::Bithumb) ==> bithumb_listing(upstream).len() == 0
}

/// What a synchronisation of the catalog leaves alone, whether it succeeds
/// or fails. No coin and no listing is removed. A coin keeps its place,
/// identifier, symbol, activity and creation time, and is the row that it was
/// unless a venue that the target covers reports its symbol. A listing keeps
/// its place, venue and coin, and is the row that it was unless it is of a
/// venue that the target covers. Where none of those venues reports a symbol,
/// the store is as it was.
pub open spec fn catalog_left(
    before: Tables,
    after: Tables,
    target: Seq<char>,
    upstream: CatalogUpstream,
) -> bool {
    &&& before.coins.len() <= after.coins.len()
    &&& forall|k: int|
        0 <= k < before.coins.len() ==> {
            &&& (#[trigger] after.coins[k]).id == before.coins[k].id
            &&& after.coins[k].symbol@ == before.coins[k].symbol@
            &&& after.coins[k].is_active == before.coins[k].is_active
            &&& after.coins[k].created_at == before.coins[k].created_at
            &&& !reported(target, upstream, before.coins[k].symbol@) ==> after.coins[k]
                == before.coins[k]
        }
    &&& before.listings.len() <= after.listings.len()
    &&& forall|a: int|
        0 <= a < before.listings.len() ==> {
            &&& (#[trigger] after.listings[a]).exchange_id == before.listings[a].exchange_id
            &&& after.listings[a].coin_id == before.listings[a].coin_id
            &&& !synced_id(before, target, before.listings[a].exchange_id as int)
                ==> after.listings[a] == before.listings[a]
        }
    &&& nothing_reported(target, upstream) ==> after == before
}

/// A synchronisation of the catalog leaves alone what [`catalog_left`]
/// names.
pub proof fn lemma_chain_keeps(
    first: Tables,
    a: Tables,
    b: Tables,
    last: Tables,
    target: Seq<char>,
    upstream: CatalogUpstream,
    now: int,
    rb: Option<Result<(u128, u64, usize), AppError>>,
    ru: Option<Result<(u128, u64, usize), AppError>>,
    rt: Option<Result<(u128, u64, usize), AppError>>,
    r: Result<SyncSummary, AppError>,
)
    requires
        sync_chain(first, a, b, last, target, upstream, now, rb, ru, rt, r),
    ensures
        catalog_left(first, last, target, upstream),
{
    let tb = targets(target, ExchangeType::Binance);
    let tu = targets(target, ExchangeType::Upbit);
    let tt = targets(target, ExchangeType::Bithumb);
    let ib = if tb {
        first.exchange_id("Binance"@)
    } else {
        None
    };
    let iu = if tu {
        first.exchange_id("Upbit"@)
    } else {
        None
    };
    let it = if tt {
        first.exchange_id("Bithumb"@)
    } else {
        None
    };
    lemma_link_keeps(first, first, a, tb, ExchangeType::Binance, binance_listing(upstream), now, rb);
    if !link_failed(rb) {
        lemma_link_keeps(first, a, b, tu, ExchangeType::Upbit, upbit_listing(upstream), now, ru);
        if !link_failed(ru) {
            lemma_link_keeps(
                first,
                b,
                last,
                tt,
                ExchangeType::Bithumb,
                bithumb_listing(upstream),
                now,
                rt,
            );
        }
    }
    assert(rows_kept(first, a, ib, binance_listing(upstream)));
    assert(link_failed(rb) ==> b == a && last == a);
    assert(!link_failed(rb) ==> rows_kept(a, b, iu, upbit_listing(upstream)));
    assert(!link_failed(rb) && link_failed(ru) ==> last == b);
    assert(!link_failed(rb) && !link_failed(ru) ==> rows_kept(
        b,
        last,
        it,
        bithumb_listing(upstream),
    ));
    assert forall|k: int| 0 <= k < first.coins.len() implies {
        &&& (#[trigger] last.coins[k]).id == first.coins[k].id
        &&& last.coins[k].symbol@ == first.coins[k].symbol@
        &&& last.coins[k].is_active == first.coins[k].is_active
        &&& last.coins[k].created_at == first.coins[k].created_at
        &&& !reported(target, upstream, first.coins[k].symbol@) ==> last.coins[k]
            == first.coins[k]
    } by {
        assert(a.coins[k].id == first.coins[k].id);
        if !link_failed(rb) {
            assert(b.coins[k].id == a.coins[k].id);
            if !link_failed(ru) {
                assert(last.coins[k].id == b.coins[k].id);
            }
        }
    }
    assert forall|i: int| 0 <= i < first.listings.len() implies {
        &&& (#[trigger] last.listings[i]).exchange_id == first.listings[i].exchange_id
        &&& last.listings[i].coin_id == first.listings[i].coin_id
        &&& !synced_id(first, target, first.listings[i].exchange_id as int) ==> last.listings[i]
            == first.listings[i]
    } by {
        assert(a.listings[i].exchange_id == first.listings[i].exchange_id);
        if !link_failed(rb) {
            assert(b.listings[i].exchange_id == a.listings[i].exchange_id);
            if !link_failed(ru) {
                assert(last.listings[i].exchange_id == b.listings[i].exchange_id);
            }
        }
    }
}

/// After a synchronisation of the catalog that did not fail, every venue
/// that the store knows lists what its own synchronisation leaves.
pub proof fn lemma_chain_lists(
    first: Tables,
    a: Tables,
    b: Tables,
    last: Tables,
    target: Seq<char>,
    upstream: CatalogUpstream,
    now: int,
    rb: Option<Result<(u128, u64, usize), AppError>>,
    ru: Option<Result<(u128, u64, usize), AppError>>,
    rt: Option<Result<(u128, u64, usize), AppError>>,
    r: Result<SyncSummary, AppError>,
)
    requires
        first.wf(),
        sync_chain(
            first,
            a,
            b,
            last,
            target,
            upstream,
            now,
            rb,
            ru,
            rt,
            r,
        ),
        r is Ok,
    ensures
        forall|venue: ExchangeType, x: Seq<char>|
            first.exchange_id(venue.name()) is Some ==> #[trigger] last.is_listed(
                first.exchange_id(venue.name()).unwrap(),
                x,
            ) == listed_after_catalog_sync(first, target, upstream, venue, x),
{
    assert forall|venue: ExchangeType, x: Seq<char>|
        first.exchange_id(venue.name()) is Some implies #[trigger] last.is_listed(
        first.exchange_id(venue.name()).unwrap(),
        x,
    ) == listed_after_catalog_sync(first, target, upstream, venue, x) by {
        lemma_link_lists(
            first,
            first,
            a,
            targets(target, ExchangeType::Binance),
            ExchangeType::Binance,
            binance_listing(upstream),
            now,
            rb,
            venue,
            x,
        );
        lemma_link_lists(
            first,
            a,
            b,
            targets(target, ExchangeType::Upbit),
            ExchangeType::Upbit,
            upbit_listing(upstream),
            now,
            ru,
            venue,
            x,
        );
        lemma_link_lists(
            first,
            b,
            last,
            targets(target, ExchangeType::Bithumb),
            ExchangeType::Bithumb,
            bithumb_listing(upstream),
            now,
            rt,
            venue,
            x,
        );
    }
}

/// Every row that is built from Binance's tickers carries the batch's
/// timestamp and the venue's identifier, and where every one of the first `n`
/// tickers gives a row there are `n` rows.
pub proof fn lemma_binance_rows_stamped(
    t: Tables,
    exchange_id: int,
    tickers: Seq<BinanceTickerResponse>,
    n: int,
    timestamp: int,
)
    requires
        0 <= n <= tickers.len(),
        binance_rows(t, exchange_id, tickers, n, timestamp) is Some,
    ensures
        binance_rows(t, exchange_id, tickers, n, timestamp).unwrap().len() <= n,
        forall|j: int|
            0 <= j < binance_rows(t, exchange_id, tickers, n, timestamp).unwrap().len() ==> (
            #[trigger] binance_rows(t, exchange_id, tickers, n, timestamp).unwrap()[j]).timestamp
                == timestamp && binance_rows(
                t,
                exchange_id,
                tickers,
                n,
                timestamp,
            ).unwrap()[j].exchange_id == exchange_id,
        (forall|k: int|
            0 <= k < n ==> #[trigger] binance_outcome(t, exchange_id, tickers[k], timestamp) is Row)
            ==> binance_rows(t, exchange_id, tickers, n, timestamp).unwrap().len() == n,
    decreases n,
{
    if n > 0 {
        lemma_binance_rows_stamped(t, exchange_id, tickers, n - 1, timestamp);
        if forall|k: int|
            0 <= k < n ==> #[trigger] binance_outcome(t, exchange_id, tickers[k], timestamp) is Row {
            assert(binance_outcome(t, exchange_id, tickers[n - 1], timestamp) is Row);
        }
    }
}

/// Every row that is built from Upbit's tickers carries the batch's
/// timestamp and the venue's identifier, and where every one of the first `n`
/// tickers gives a row there are `n` rows.
pub proof fn lemma_upbit_rows_stamped(
    t: Tables,
    exchange_id: int,
    tickers: Seq<UpbitTickerResponse>,
    n: int,
    timestamp: int,
)
    requires
        0 <= n <= tickers.len(),
    ensures
        upbit_rows(t, exchange_id, tickers, n, timestamp).len() <= n,
        forall|j: int|
            0 <= j < upbit_rows(t, exchange_id, tickers, n, timestamp).len() ==> (
            #[trigger] upbit_rows(t, exchange_id, tickers, n, timestamp)[j]).timestamp == timestamp
                && upbit_rows(t, exchange_id, tickers, n, timestamp)[j].exchange_id == exchange_id,
        (forall|k: int|
            0 <= k < n ==> #[trigger] upbit_outcome(t, exchange_id, tickers[k], timestamp) is Some)
            ==> upbit_rows(t, exchange_id, tickers, n, timestamp).len() == n,
    decreases n,
{
    if n > 0 {
        lemma_upbit_rows_stamped(t, exchange_id, tickers, n - 1, timestamp);
        if forall|k: int|
            0 <= k < n ==> #[trigger] upbit_outcome(t, exchange_id, tickers[k], timestamp) is Some {
            assert(upbit_outcome(t, exchange_id, tickers[n - 1], timestamp) is Some);
        }
    }
}

/// Every row that is built from Bithumb's data carries the batch's timestamp
/// and the venue's identifier, and where every one of the first `n` members
/// gives a row there are `n` rows.
pub proof fn lemma_bithumb_rows_stamped(
    t: Tables,
    exchange_id: int,
    entries: Seq<BithumbEntry>,
    n: int,
    timestamp: int,
)
    requires
        0 <= n <= entries.len(),
    ensures
        bithumb_rows(t, exchange_id, entries, n, timestamp).len() <= n,
        forall|j: int|
            0 <= j < bithumb_rows(t, exchange_id, entries, n, timestamp).len() ==> (
            #[trigger] bithumb_rows(t, exchange_id, entries, n, timestamp)[j]).timestamp
                == timestamp && bithumb_rows(t, exchange_id, entries, n, timestamp)[j].exchange_id
                == exchange_id,
        (forall|k: int|
            0 <= k < n ==> #[trigger] bithumb_outcome(t, exchange_id, entries[k], timestamp) is Some)
            ==> bithumb_rows(t, exchange_id, entries, n, timestamp).len() == n,
    decreases n,
{
    if n > 0 {
        lemma_bithumb_rows_stamped(t, exchange_id, entries, n - 1, timestamp);
        if forall|k: int|
            0 <= k < n ==> #[trigger] bithumb_outcome(t, exchange_id, entries[k], timestamp) is Some {
            assert(bithumb_outcome(t, exchange_id, entries[n - 1], timestamp) is Some);
        }
    }
}

/// Coins with different symbols that a venue lists have different
/// identifiers.
pub proof fn lemma_listed_coins_differ(t: Tables, exchange_id: int, x: Seq<char>, y: Seq<char>)
    requires
        t.wf(),
        t.listed_coin_id(exchange_id, x) is Some,
        t.listed_coin_id(exchange_id, y) is Some,
        x != y,
    ensures
        t.listed_coin_id(exchange_id, x) != t.listed_coin_id(exchange_id, y),
{
    let (a, k) = choose|a: int, k: int| t.listed_at(a, k, exchange_id, x);
    assert(t.coin_at(k, x));
    let (b, m) = choose|b: int, m: int| t.listed_at(b, m, exchange_id, y);
    assert(t.coin_at(m, y));
    let kx = choose|k: int| t.coin_at(k, x);
    let ky = choose|k: int| t.coin_at(k, y);
    assert(t.coins[kx].symbol@ != t.coins[ky].symbol@);
    if kx < ky {
        assert(t.coins[kx].id != t.coins[ky].id);
    } else if ky < kx {
        assert(t.coins[ky].id != t.coins[kx].id);
    }
}

/// A batch of one venue, stamped with a timestamp that no price row has yet,
/// whose rows are of listed coins with symbols of their own, adds one price
/// row for each of its rows. This holds where the table has room for the
/// batch.
pub proof fn lemma_batch_adds_rows(
    t: Tables,
    exchange_id: int,
    timestamp: int,
    batch: Seq<PriceRow>,
    symbols: Seq<Seq<char>>,
)
    requires
        t.wf(),
        batch.len() == symbols.len(),
        forall|j: int|
            0 <= j < batch.len() ==> (#[trigger] batch[j]).exchange_id == exchange_id
                && batch[j].timestamp == timestamp && t.listed_coin_id(exchange_id, symbols[j])
                == Some(batch[j].coin_id),
        forall|j: int, k: int|
            0 <= j < k < symbols.len() ==> #[trigger] symbols[j] != #[trigger] symbols[k],
        forall|i: int| 0 <= i < t.prices.len() ==> (#[trigger] t.prices[i]).timestamp != timestamp,
        t.prices.len() + batch.len() < i32::MAX,
    ensures
        persisted(t.price_rows(), batch).len() == t.prices.len() + batch.len(),
{
    let rows = t.price_rows();
    let written = sanitized_rows(batch);
    crate::store::lemma_price_rows_keys_differ(t);
    assert forall|j: int| 0 <= j < written.len() implies !crate::store::holds_key(
        rows,
        #[trigger] written[j],
    ) by {
        if crate::store::holds_key(rows, written[j]) {
            let i = choose|i: int| crate::store::same_key_at(rows, i, written[j]);
            assert(t.prices[i].timestamp == timestamp);
        }
    }
    assert forall|j: int, k: int| 0 <= j < k < written.len() implies !crate::store::same_key(
        #[trigger] written[j],
        #[trigger] written[k],
    ) by {
        assert(batch[j].exchange_id == exchange_id && batch[k].exchange_id == exchange_id);
        assert(symbols[j] != symbols[k]);
        lemma_listed_coins_differ(t, exchange_id, symbols[j], symbols[k]);
    }
    crate::store::lemma_fresh_writes_add_rows(rows, written, written.len() as int);
}

/// The coin that a ticker of Binance is of: what stands before `USDT`.
pub open spec fn binance_base(ticker: BinanceTickerResponse) -> Seq<char> {
    ticker.symbol@.subrange(0, ticker.symbol@.len() - "USDT"@.len())
}

/// Where every one of Binance's tickers gives a row, and the tickers are of
/// different markets, the rows are one per ticker, each stamped with the
/// batch's timestamp, with the venue's identifier and the identifier of the
/// coin that the venue lists under the ticker's base; and a batch with a
/// timestamp that no price row has yet adds exactly as many price rows as
/// there are tickers.
pub proof fn lemma_binance_tickers_add_rows(
    t: Tables,
    exchange_id: int,
    tickers: Seq<BinanceTickerResponse>,
    timestamp: int,
)
    requires
        t.wf(),
        forall|k: int|
            0 <= k < tickers.len() ==> #[trigger] binance_outcome(
                t,
                exchange_id,
                tickers[k],
                timestamp,
            ) is Row,
        forall|j: int, k: int|
            0 <= j < k < tickers.len() ==> (#[trigger] tickers[j]).symbol@ != (
            #[trigger] tickers[k]).symbol@,
        forall|i: int| 0 <= i < t.prices.len() ==> (#[trigger] t.prices[i]).timestamp != timestamp,
        t.prices.len() + tickers.len() < i32::MAX,
    ensures
        binance_rows(t, exchange_id, tickers, tickers.len() as int, timestamp) is Some,
        binance_rows(t, exchange_id, tickers, tickers.len() as int, timestamp).unwrap().len()
            == tickers.len(),
        forall|j: int|
            0 <= j < tickers.len() ==> {
                let row = #[trigger] binance_rows(
                    t,
                    exchange_id,
                    tickers,
                    tickers.len() as int,
                    timestamp,
                ).unwrap()[j];
                &&& row.exchange_id == exchange_id
                &&& row.timestamp == timestamp
                &&& Some(row.coin_id) == t.listed_coin_id(exchange_id, binance_base(tickers[j]))
            },
        persisted(
            t.price_rows(),
            binance_rows(t, exchange_id, tickers, tickers.len() as int, timestamp).unwrap(),
        ).len() == t.prices.len() + tickers.len(),
{
    let n = tickers.len() as int;
    lemma_binance_rows_of_tickers(t, exchange_id, tickers, n, timestamp);
    let batch = binance_rows(t, exchange_id, tickers, n, timestamp).unwrap();
    let symbols = Seq::new(tickers.len(), |k: int| binance_base(tickers[k]));
    assert forall|j: int, k: int| 0 <= j < k < symbols.len() implies #[trigger] symbols[j]
        != #[trigger] symbols[k] by {
        assert(binance_outcome(t, exchange_id, tickers[j], timestamp) is Row);
        assert(binance_outcome(t, exchange_id, tickers[k], timestamp) is Row);
        assert(tickers[j].symbol@ =~= binance_base(tickers[j]) + "USDT"@);
        assert(tickers[k].symbol@ =~= binance_base(tickers[k]) + "USDT"@);
    }
    assert forall|j: int| 0 <= j < batch.len() implies (#[trigger] batch[j]).exchange_id
        == exchange_id && batch[j].timestamp == timestamp && t.listed_coin_id(
        exchange_id,
        symbols[j],
    ) == Some(batch[j].coin_id) by {
        assert(binance_outcome(t, exchange_id, tickers[j], timestamp) is Row);
    }
    lemma_batch_adds_rows(t, exchange_id, timestamp, batch, symbols);
}

/// Where every one of the first `n` tickers of Binance gives a row, the rows
/// are the rows of the tickers, one by one.
pub proof fn lemma_binance_rows_of_tickers(
    t: Tables,
    exchange_id: int,
    tickers: Seq<BinanceTickerResponse>,
    n: int,
    timestamp: int,
)
    requires
        0 <= n <= tickers.len(),
        forall|k: int|
            0 <= k < n ==> #[trigger] binance_outcome(t, exchange_id, tickers[k], timestamp) is Row,
    ensures
        binance_rows(t, exchange_id, tickers, n, timestamp) is Some,
        binance_rows(t, exchange_id, tickers, n, timestamp).unwrap().len() == n,
        forall|j: int|
            0 <= j < n ==> TickerOutcome::Row(
                #[trigger] binance_rows(t, exchange_id, tickers, n, timestamp).unwrap()[j],
            ) == binance_outcome(t, exchange_id, tickers[j], timestamp),
    decreases n,
{
    if n > 0 {
        lemma_binance_rows_of_tickers(t, exchange_id, tickers, n - 1, timestamp);
        assert(binance_outcome(t, exchange_id, tickers[n - 1], timestamp) is Row);
        let earlier = binance_rows(t, exchange_id, tickers, n - 1, timestamp).unwrap();
        let rows = binance_rows(t, exchange_id, tickers, n, timestamp).unwrap();
        assert forall|j: int| 0 <= j < n implies TickerOutcome::Row(#[trigger] rows[j])
            == binance_outcome(t, exchange_id, tickers[j], timestamp) by {
            if j < n - 1 {
                assert(rows[j] == earlier[j]);
            }
        }
    }
}

/// As [`lemma_binance_tickers_add_rows`], for Upbit: tickers of different
/// coins that all give a row add exactly as many price rows as there are
/// tickers.
pub proof fn lemma_upbit_tickers_add_rows(
    t: Tables,
    exchange_id: int,
    tickers: Seq<UpbitTickerResponse>,
    timestamp: int,
)
    requires
        t.wf(),
        forall|k: int|
            0 <= k < tickers.len() ==> #[trigger] upbit_outcome(
                t,
                exchange_id,
                tickers[k],
                timestamp,
            ) is Some,
        forall|j: int, k: int|
            0 <= j < k < tickers.len() ==> upbit_symbol((#[trigger] tickers[j]).market@)
                != upbit_symbol((#[trigger] tickers[k]).market@),
        forall|i: int| 0 <= i < t.prices.len() ==> (#[trigger] t.prices[i]).timestamp != timestamp,
        t.prices.len() + tickers.len() < i32::MAX,
    ensures
        upbit_rows(t, exchange_id, tickers, tickers.len() as int, timestamp).len()
            == tickers.len(),
        forall|j: int|
            0 <= j < tickers.len() ==> Some(
                #[trigger] upbit_rows(t, exchange_id, tickers, tickers.len() as int, timestamp)[j],
            ) == upbit_outcome(t, exchange_id, tickers[j], timestamp),
        persisted(
            t.price_rows(),
            upbit_rows(t, exchange_id, tickers, tickers.len() as int, timestamp),
        ).len() == t.prices.len() + tickers.len(),
{
    let n = tickers.len() as int;
    lemma_upbit_rows_of_tickers(t, exchange_id, tickers, n, timestamp);
    let batch = upbit_rows(t, exchange_id, tickers, n, timestamp);
    let symbols = Seq::new(tickers.len(), |k: int| upbit_symbol(tickers[k].market@));
    assert forall|j: int| 0 <= j < batch.len() implies (#[trigger] batch[j]).exchange_id
        == exchange_id && batch[j].timestamp == timestamp && t.listed_coin_id(
        exchange_id,
        symbols[j],
    ) == Some(batch[j].coin_id) by {
        assert(upbit_outcome(t, exchange_id, tickers[j], timestamp) is Some);
    }
    lemma_batch_adds_rows(t, exchange_id, timestamp, batch, symbols);
}

/// Where every one of the first `n` tickers of Upbit gives a row, the rows
/// are the rows of the tickers, one by one.
pub proof fn lemma_upbit_rows_of_tickers(
    t: Tables,
    exchange_id: int,
    tickers: Seq<UpbitTickerResponse>,
    n: int,
    timestamp: int,
)
    requires
        0 <= n <= tickers.len(),
        forall|k: int|
            0 <= k < n ==> #[trigger] upbit_outcome(t, exchange_id, tickers[k], timestamp) is Some,
    ensures
        upbit_rows(t, exchange_id, tickers, n, timestamp).len() == n,
        forall|j: int|
            0 <= j < n ==> Some(#[trigger] upbit_rows(t, exchange_id, tickers, n, timestamp)[j])
                == upbit_outcome(t, exchange_id, tickers[j], timestamp),
    decreases n,
{
    if n > 0 {
        lemma_upbit_rows_of_tickers(t, exchange_id, tickers, n - 1, timestamp);
        assert(upbit_outcome(t, exchange_id, tickers[n - 1], timestamp) is Some);
        let earlier = upbit_rows(t, exchange_id, tickers, n - 1, timestamp);
        let rows = upbit_rows(t, exchange_id, tickers, n, timestamp);
        assert forall|j: int| 0 <= j < n implies Some(#[trigger] rows[j]) == upbit_outcome(
            t,
            exchange_id,
            tickers[j],
            timestamp,
        ) by {
            if j < n - 1 {
                assert(rows[j] == earlier[j]);
            }
        }
    }
}

/// As [`lemma_binance_tickers_add_rows`], for Bithumb: members of different
/// keys that all give a row add exactly as many price rows as there are
/// members.
pub proof fn lemma_bithumb_members_add_rows(
    t: Tables,
    exchange_id: int,
    entries: Seq<BithumbEntry>,
    timestamp: int,
)
    requires
        t.wf(),
        forall|k: int|
            0 <= k < entries.len() ==> #[trigger] bithumb_outcome(
                t,
                exchange_id,
                entries[k],
                timestamp,
            ) is Some,
        forall|j: int, k: int|
            0 <= j < k < entries.len() ==> (#[trigger] entries[j]).key@ != (
            #[trigger] entries[k]).key@,
        forall|i: int| 0 <= i < t.prices.len() ==> (#[trigger] t.prices[i]).timestamp != timestamp,
        t.prices.len() + entries.len() < i32::MAX,
    ensures
        bithumb_rows(t, exchange_id, entries, entries.len() as int, timestamp).len()
            == entries.len(),
        forall|j: int|
            0 <= j < entries.len() ==> Some(
                #[trigger] bithumb_rows(t, exchange_id, entries, entries.len() as int, timestamp)[j],
            ) == bithumb_outcome(t, exchange_id, entries[j], timestamp),
        persisted(
            t.price_rows(),
            bithumb_rows(t, exchange_id, entries, entries.len() as int, timestamp),
        ).len() == t.prices.len() + entries.len(),
{
    let n = entries.len() as int;
    lemma_bithumb_rows_of_members(t, exchange_id, entries, n, timestamp);
    let batch = bithumb_rows(t, exchange_id, entries, n, timestamp);
    let symbols = Seq::new(entries.len(), |k: int| entries[k].key@);
    assert forall|j: int| 0 <= j < batch.len() implies (#[trigger] batch[j]).exchange_id
        == exchange_id && batch[j].timestamp == timestamp && t.listed_coin_id(
        exchange_id,
        symbols[j],
    ) == Some(batch[j].coin_id) by {
        assert(bithumb_outcome(t, exchange_id, entries[j], timestamp) is Some);
    }
    lemma_batch_adds_rows(t, exchange_id, timestamp, batch, symbols);
}

/// Where every one of the first `n` members of Bithumb's data gives a row,
/// the rows are the rows of the members, one by one.
pub proof fn lemma_bithumb_rows_of_members(
    t: Tables,
    exchange_id: int,
    entries: Seq<BithumbEntry>,
    n: int,
    timestamp: int,
)
    requires
        0 <= n <= entries.len(),
        forall|k: int|
            0 <= k < n ==> #[trigger] bithumb_outcome(t, exchange_id, entries[k], timestamp) is Some,
    ensures
        bithumb_rows(t, exchange_id, entries, n, timestamp).len() == n,
        forall|j: int|
            0 <= j < n ==> Some(#[trigger] bithumb_rows(t, exchange_id, entries, n, timestamp)[j])
                == bithumb_outcome(t, exchange_id, entries[j], timestamp),
    decreases n,
{
    if n > 0 {
        lemma_bithumb_rows_of_members(t, exchange_id, entries, n - 1, timestamp);
        assert(bithumb_outcome(t, exchange_id, entries[n - 1], timestamp) is Some);
        let earlier = bithumb_rows(t, exchange_id, entries, n - 1, timestamp);
        let rows = bithumb_rows(t, exchange_id, entries, n, timestamp);
        assert forall|j: int| 0 <= j < n implies Some(#[trigger] rows[j]) == bithumb_outcome(
            t,
            exchange_id,
            entries[j],
            timestamp,
        ) by {
            if j < n - 1 {
                assert(rows[j] == earlier[j]);
            }
        }
    }
}

/// A row of a batch is persisted under its key as it was built, but for its
/// volume, which is dropped where its text is longer than thirty characters:
/// the price, the change and the timestamp are persisted unchanged. This
/// holds of every row that no later row of the batch overwrites, where the
/// table has room for the batch.
pub proof fn lemma_batch_is_persisted(rows: Seq<PriceRow>, batch: Seq<PriceRow>, j: int)
    requires
        crate::store::keys_differ(rows),
        rows.len() + batch.len() < i32::MAX,
        0 <= j < batch.len(),
        forall|k: int| j < k < batch.len() ==> !crate::store::same_key(batch[j], #[trigger] batch[k]),
    ensures
        crate::store::row_with_key(persisted(rows, batch), batch[j]) == Some(sanitized(batch[j])),
        sanitized(batch[j]).price == batch[j].price,
        sanitized(batch[j]).timestamp == batch[j].timestamp,
        sanitized(batch[j]).volume_24h == sanitized_volume(batch[j].volume_24h),
        persisted(rows, batch).len() <= rows.len() + batch.len(),
{
    let written = sanitized_rows(batch);
    crate::store::lemma_last_write_wins(rows, written, batch.len() as int, batch[j]);
    lemma_last_written_is(written, batch.len() as int, j, batch[j]);
}

/// The last row written to a key is the row at `j`, where no later row has
/// the key.
pub proof fn lemma_last_written_is(written: Seq<PriceRow>, n: int, j: int, asked: PriceRow)
    requires
        0 <= j < n <= written.len(),
        crate::store::same_key(asked, written[j]),
        forall|k: int| j < k < n ==> !crate::store::same_key(asked, #[trigger] written[k]),
    ensures
        crate::store::last_written(written, n, asked) == Some(written[j]),
    decreases n,
{
    if n - 1 > j {
        lemma_last_written_is(written, n - 1, j, asked);
    }
}

/// The markets of the first `n` symbols as Upbit wants them in a request:
/// `KRW-` before each symbol, a comma between two markets.
pub open spec fn upbit_markets(symbols: Seq<String>, n: int) -> Seq<char>
    decreases n,
{
    if n <= 0 {
        Seq::empty()
    } else if n == 1 {
        "KRW-"@ + symbols[0]@
    } else {
        upbit_markets(symbols, n - 1) + ","@ + "KRW-"@ + symbols[n - 1]@
    }
}

/// A batch without rows persists nothing.
pub proof fn lemma_empty_batch_persists_nothing(rows: Seq<PriceRow>)
    ensures
        persisted(rows, Seq::empty()) == rows,
{
}

/// What one ingestion leaves of the price rows.
pub open spec fn ingested(t: Tables, upstream: PriceUpstream, timestamp: int) -> Seq<PriceRow> {
    persisted(
        persisted(
            persisted(t.price_rows(), binance_batch(t, upstream, timestamp)),
            upbit_batch(t, upstream, timestamp),
        ),
        bithumb_batch(t, upstream, timestamp),
    )
}

/// An ingestion in which only Binance answers, with tickers of different
/// markets that all give a row, under a timestamp that no price row has yet,
/// adds exactly one price row for each ticker.
pub proof fn lemma_binance_ingestion_gains_rows(t: Tables, upstream: PriceUpstream, timestamp: int)
    requires
        t.wf(),
        upstream.binance is Some,
        upstream.upbit is None,
        upstream.bithumb is None,
        t.exchange_id("Binance"@) is Some,
        forall|k: int|
            0 <= k < upstream.binance.unwrap()@.len() ==> #[trigger] binance_outcome(
                t,
                t.exchange_id("Binance"@).unwrap(),
                upstream.binance.unwrap()@[k],
                timestamp,
            ) is Row,
        forall|j: int, k: int|
            0 <= j < k < upstream.binance.unwrap()@.len() ==> (
            #[trigger] upstream.binance.unwrap()@[j]).symbol@ != (
            #[trigger] upstream.binance.unwrap()@[k]).symbol@,
        forall|i: int| 0 <= i < t.prices.len() ==> (#[trigger] t.prices[i]).timestamp != timestamp,
        t.prices.len() + upstream.binance.unwrap()@.len() < i32::MAX,
    ensures
        ingested(t, upstream, timestamp).len() == t.prices.len()
            + upstream.binance.unwrap()@.len(),
{
    let id = t.exchange_id("Binance"@).unwrap();
    lemma_binance_tickers_add_rows(t, id, upstream.binance.unwrap()@, timestamp);
    let first = persisted(t.price_rows(), binance_batch(t, upstream, timestamp));
    lemma_empty_batch_persists_nothing(first);
}

/// An ingestion in which only Upbit answers, with tickers of different coins
/// that all give a row, under a timestamp that no price row has yet, adds
/// exactly one price row for each ticker.
pub proof fn lemma_upbit_ingestion_gains_rows(t: Tables, upstream: PriceUpstream, timestamp: int)
    requires
        t.wf(),
        upstream.binance is None,
        upstream.upbit is Some,
        upstream.bithumb is None,
        t.exchange_id("Upbit"@) is Some,
        forall|k: int|
            0 <= k < upstream.upbit.unwrap()@.len() ==> #[trigger] upbit_outcome(
                t,
                t.exchange_id("Upbit"@).unwrap(),
                upstream.upbit.unwrap()@[k],
                timestamp,
            ) is Some,
        forall|j: int, k: int|
            0 <= j < k < upstream.upbit.unwrap()@.len() ==> upbit_symbol(
                (#[trigger] upstream.upbit.unwrap()@[j]).market@,
            ) != upbit_symbol((#[trigger] upstream.upbit.unwrap()@[k]).market@),
        forall|i: int| 0 <= i < t.prices.len() ==> (#[trigger] t.prices[i]).timestamp != timestamp,
        t.prices.len() + upstream.upbit.unwrap()@.len() < i32::MAX,
    ensures
        ingested(t, upstream, timestamp).len() == t.prices.len() + upstream.upbit.unwrap()@.len(),
{
    let id = t.exchange_id("Upbit"@).unwrap();
    lemma_upbit_tickers_add_rows(t, id, upstream.upbit.unwrap()@, timestamp);
    lemma_empty_batch_persists_nothing(t.price_rows());
    let second = persisted(t.price_rows(), upbit_batch(t, upstream, timestamp));
    lemma_empty_batch_persists_nothing(second);
}

/// An ingestion in which only Bithumb answers, with members of different
/// keys that all give a row, under a timestamp that no price row has yet,
/// adds exactly one price row for each member.
pub proof fn lemma_bithumb_ingestion_gains_rows(t: Tables, upstream: PriceUpstream, timestamp: int)
    requires
        t.wf(),
        upstream.binance is None,
        upstream.upbit is None,
        upstream.bithumb is Some,
        upstream.bithumb.unwrap().status@ == "0000"@,
        upstream.bithumb.unwrap().data is Some,
        t.exchange_id("Bithumb"@) is Some,
        forall|k: int|
            0 <= k < upstream.bithumb.unwrap().data.unwrap()@.len() ==> #[trigger] bithumb_outcome(
                t,
                t.exchange_id("Bithumb"@).unwrap(),
                upstream.bithumb.unwrap().data.unwrap()@[k],
                timestamp,
            ) is Some,
        forall|j: int, k: int|
            0 <= j < k < upstream.bithumb.unwrap().data.unwrap()@.len() ==> (
            #[trigger] upstream.bithumb.unwrap().data.unwrap()@[j]).key@ != (
            #[trigger] upstream.bithumb.unwrap().data.unwrap()@[k]).key@,
        forall|i: int| 0 <= i < t.prices.len() ==> (#[trigger] t.prices[i]).timestamp != timestamp,
        t.prices.len() + upstream.bithumb.unwrap().data.unwrap()@.len() < i32::MAX,
    ensures
        ingested(t, upstream, timestamp).len() == t.prices.len()
            + upstream.bithumb.unwrap().data.unwrap()@.len(),
{
    let id = t.exchange_id("Bithumb"@).unwrap();
    lemma_bithumb_members_add_rows(t, id, upstream.bithumb.unwrap().data.unwrap()@, timestamp);
    lemma_empty_batch_persists_nothing(t.price_rows());
}

/// Catalog synchronisation and price ingestion.
#[derive(Debug, Clone, Copy)]
pub struct ExchangeService {}

impl ExchangeService {
    /// A service.
    pub fn new() -> (service: Self) {
        ExchangeService {  }
    }

    /// The symbols that Binance lists: the base assets of the entries that
    /// trade and quote in USDT, each once.
    pub fn list_binance_symbols(&self, info: &Vec<BinanceSymbolInfo>) -> (symbols: Vec<String>)
        ensures
            texts_of(symbols@) == distinct_texts(binance_bases(info@, info@.len() as int)),
    {
        let mut out: Vec<String> = Vec::new();
        let mut i: usize = 0;
        assert(texts_of(out@) =~= Seq::<Seq<char>>::empty());
        while i < info.len()
            invariant
                i <= info@.len(),
                texts_of(out@) == distinct_texts(binance_bases(info@, i as int)),
            decreases info@.len() - i,
        {
            if same_text(info[i].status.as_str(), "TRADING") && same_text(
                info[i].quote_asset.as_str(),
                "USDT",
            ) {
                push_distinct(
                    &mut out,
                    info[i].base_asset.as_str(),
                    Ghost(binance_bases(info@, i as int)),
                );
            }
            i += 1;
        }
        out
    }

    /// The symbols that Upbit lists: what follows `KRW-` in the names of the
    /// markets that begin with it, each once.
    pub fn list_upbit_symbols(&self, markets: &Vec<UpbitMarket>) -> (symbols: Vec<String>)
        ensures
            texts_of(symbols@) == distinct_texts(upbit_bases(markets@, markets@.len() as int)),
    {
        let mut out: Vec<String> = Vec::new();
        let mut i: usize = 0;
        assert(texts_of(out@) =~= Seq::<Seq<char>>::empty());
        while i < markets.len()
            invariant
                i <= markets@.len(),
                texts_of(out@) == distinct_texts(upbit_bases(markets@, i as int)),
            decreases markets@.len() - i,
        {
            match without_prefix(markets[i].market.as_str(), "KRW-") {
                Some(base) => {
                    push_distinct(&mut out, base.as_str(), Ghost(upbit_bases(markets@, i as int)));
                },
                None => {},
            }
            i += 1;
        }
        out
    }

    /// The symbols that Bithumb lists: where the answer's status is `0000`,
    /// the keys of its data, other than `date`, whose value is an object.
    pub fn list_bithumb_symbols(&self, response: &BithumbResponse) -> (symbols: Vec<String>)
        ensures
            texts_of(symbols@) == distinct_texts(bithumb_symbols(*response)),
    {
        let mut out: Vec<String> = Vec::new();
        assert(texts_of(out@) =~= Seq::<Seq<char>>::empty());
        if !same_text(response.status.as_str(), "0000") {
            return out;
        }
        match &response.data {
            Some(entries) => {
                let mut i: usize = 0;
                while i < entries.len()
                    invariant
                        i <= entries@.len(),
                        texts_of(out@) == distinct_texts(bithumb_keys(entries@, i as int)),
                    decreases entries@.len() - i,
                {
                    if !same_text(entries[i].key.as_str(), "date") && entries[i].is_object {
                        push_distinct(
                            &mut out,
                            entries[i].key.as_str(),
                            Ghost(bithumb_keys(entries@, i as int)),
                        );
                    }
                    i += 1;
                }
                out
            },
            None => out,
        }
    }
    /// The identifier of the venue with the name; a venue that the store
    /// does not know is a store error.
    pub fn get_exchange_id_by_name(&self, store: &Store, name: &str) -> (r: Result<i32, AppError>)
        requires
            store@.wf(),
        ensures
            r is Ok <==> store@.exchange_id(name@) is Some,
            r is Ok ==> r.unwrap() == store@.exchange_id(name@).unwrap(),
            r is Err ==> r.unwrap_err() is Database,
    {
        match store.get_exchange_id_by_name(name) {
            Some(id) => Ok(id),
            None => Err(AppError::Database("no rows returned by a query that expected one".to_owned())),
        }
    }

    /// Turns Binance's tickers into price rows stamped with the batch's
    /// timestamp. A ticker gives a row where its symbol ends in `USDT` and the
    /// coin before that has an active listing on Binance. Fails where the
    /// store does not know the venue, or where the price of such a ticker
    /// cannot be read.
    pub fn fetch_binance_prices(
        &self,
        store: &Store,
        response: &Vec<BinanceTickerResponse>,
        timestamp: i64,
    ) -> (r: Result<Vec<NewPriceData>, AppError>)
        requires
            store@.wf(),
        ensures
            match store@.exchange_id("Binance"@) {
                None => r is Err && r.unwrap_err() is Database,
                Some(id) => match binance_rows(
                    store@,
                    id,
                    response@,
                    response@.len() as int,
                    timestamp as int,
                ) {
                    Some(rows) => r is Ok && rows_of(r.unwrap()@) == rows,
                    None => r is Err && r.unwrap_err() is DecimalParsing,
                },
            },
    {
        let binance_id = match self.get_exchange_id_by_name(store, "Binance") {
            Ok(id) => id,
            Err(e) => {
                return Err(e);
            },
        };
        let mut prices: Vec<NewPriceData> = Vec::new();
        let mut i: usize = 0;
        assert(rows_of(prices@) =~= Seq::<PriceRow>::empty());
        while i < response.len()
            invariant
                store@.wf(),
                store@.exchange_id("Binance"@) == Some(binance_id as int),
                i <= response@.len(),
                binance_rows(store@, binance_id as int, response@, i as int, timestamp as int)
                    == Some(rows_of(prices@)),
            decreases response@.len() - i,
        {
            let ghost earlier = prices@;
            match without_suffix(response[i].symbol.as_str(), "USDT") {
                Some(symbol) => {
                    match store.get_coin_id_for_exchange(binance_id, symbol.as_str()) {
                        Some(coin_id) => {
                            let price = match Decimal::parse(response[i].last_price.as_str()) {
                                Ok(d) => d,
                                Err(e) => {
                                    proof {
                                        assert(binance_outcome(
                                            store@,
                                            binance_id as int,
                                            response@[i as int],
                                            timestamp as int,
                                        ) is Unreadable);
                                        assert(binance_rows(
                                            store@,
                                            binance_id as int,
                                            response@,
                                            i + 1,
                                            timestamp as int,
                                        ) is None);
                                        lemma_binance_rows_stay_unreadable(
                                            store@,
                                            binance_id as int,
                                            response@,
                                            i + 1,
                                            response@.len() as int,
                                            timestamp as int,
                                        );
                                    }
                                    return Err(e);
                                },
                            };
                            let volume = read_optional(response[i].volume.as_str());
                            let change = read_optional(response[i].price_change_percent.as_str());
                            prices.push(
                                NewPriceData {
                                    exchange_id: binance_id,
                                    coin_id,
                                    price,
                                    volume_24h: volume,
                                    price_change_24h: change,
                                    timestamp,
                                },
                            );
                            assert(rows_of(prices@) =~= rows_of(earlier).push(
                                prices@[prices@.len() - 1]@,
                            ));
                        },
                        None => {},
                    }
                },
                None => {},
            }
            i += 1;
        }
        Ok(prices)
    }

    /// Turns Upbit's tickers into price rows stamped with the batch's
    /// timestamp. A ticker gives a row where its coin has an active listing
    /// on Upbit; its change rate is turned into percent points. Fails where
    /// the store does not know the venue.
    pub fn fetch_upbit_prices(
        &self,
        store: &Store,
        response: &Vec<UpbitTickerResponse>,
        timestamp: i64,
    ) -> (r: Result<Vec<NewPriceData>, AppError>)
        requires
            store@.wf(),
        ensures
            match store@.exchange_id("Upbit"@) {
                None => r is Err && r.unwrap_err() is Database,
                Some(id) => r is Ok && rows_of(r.unwrap()@) == upbit_rows(
                    store@,
                    id,
                    response@,
                    response@.len() as int,
                    timestamp as int,
                ),
            },
    {
        let upbit_id = match self.get_exchange_id_by_name(store, "Upbit") {
            Ok(id) => id,
            Err(e) => {
                return Err(e);
            },
        };
        let hundred = Decimal::from_u32(100);
        let mut prices: Vec<NewPriceData> = Vec::new();
        let mut i: usize = 0;
        assert(rows_of(prices@) =~= Seq::<PriceRow>::empty());
        while i < response.len()
            invariant
                store@.wf(),
                hundred@ == Dec::whole(100),
                i <= response@.len(),
                upbit_rows(store@, upbit_id as int, response@, i as int, timestamp as int)
                    == rows_of(prices@),
            decreases response@.len() - i,
        {
            let ghost earlier = prices@;
            let symbol = match without_prefix(response[i].market.as_str(), "KRW-") {
                Some(rest) => rest,
                None => response[i].market.clone(),
            };
            match store.get_coin_id_for_exchange(upbit_id, symbol.as_str()) {
                Some(coin_id) => {
                    prices.push(
                        NewPriceData {
                            exchange_id: upbit_id,
                            coin_id,
                            price: response[i].trade_price.clone(),
                            volume_24h: Some(response[i].acc_trade_volume_24h.clone()),
                            price_change_24h: response[i].signed_change_rate.checked_mul(&hundred),
                            timestamp,
                        },
                    );
                    assert(rows_of(prices@) =~= rows_of(earlier).push(prices@[prices@.len() - 1]@));
                },
                None => {},
            }
            i += 1;
        }
        Ok(prices)
    }

    /// Turns Bithumb's answer into price rows stamped with the batch's
    /// timestamp. An answer whose status is not `0000`, or whose data is no
    /// object, gives no rows. A member of the data gives a row where it
    /// stands for a coin with an active listing on Bithumb and its closing
    /// price can be read; one without is left out. Fails where the store does
    /// not know the venue.
    pub fn fetch_bithumb_prices(&self, store: &Store, response: &BithumbResponse, timestamp: i64)
        -> (r: Result<Vec<NewPriceData>, AppError>)
        requires
            store@.wf(),
        ensures
            response.status@ != "0000"@ || response.data is None ==> r is Ok
                && r.unwrap()@.len() == 0,
            response.status@ == "0000"@ && response.data is Some ==> match store@.exchange_id(
                "Bithumb"@,
            ) {
                None => r is Err && r.unwrap_err() is Database,
                Some(id) => r is Ok && rows_of(r.unwrap()@) == bithumb_rows(
                    store@,
                    id,
                    response.data.unwrap()@,
                    response.data.unwrap()@.len() as int,
                    timestamp as int,
                ),
            },
    {
        let mut out: Vec<NewPriceData> = Vec::new();
        if !same_text(response.status.as_str(), "0000") {
            return Ok(out);
        }
        let entries = match &response.data {
            Some(entries) => entries,
            None => {
                return Ok(out);
            },
        };
        let bithumb_id = match self.get_exchange_id_by_name(store, "Bithumb") {
            Ok(id) => id,
            Err(e) => {
                return Err(e);
            },
        };
        let mut i: usize = 0;
        assert(rows_of(out@) =~= Seq::<PriceRow>::empty());
        while i < entries.len()
            invariant
                store@.wf(),
                i <= entries@.len(),
                bithumb_rows(store@, bithumb_id as int, entries@, i as int, timestamp as int)
                    == rows_of(out@),
            decreases entries@.len() - i,
        {
            let ghost earlier = out@;
            let entry = &entries[i];
            if !same_text(entry.key.as_str(), "date") && entry.is_object {
                let volume_text = first_of(entry, "units_traded_24H", "units_traded_24h");
                let change_text = first_of(entry, "fluctate_rate_24H", "fluctate_rate_24h");
                match entry.text("closing_price") {
                    Some(closing) => {
                        match store.get_coin_id_for_exchange(bithumb_id, entry.key.as_str()) {
                            Some(coin_id) => {
                                match Decimal::parse(closing) {
                                    Ok(price) => {
                                        let volume = read_from(volume_text);
                                        let change = read_from(change_text);
                                        out.push(
                                            NewPriceData {
                                                exchange_id: bithumb_id,
                                                coin_id,
                                                price,
                                                volume_24h: volume,
                                                price_change_24h: change,
                                                timestamp,
                                            },
                                        );
                                        assert(rows_of(out@) =~= rows_of(earlier).push(
                                            out@[out@.len() - 1]@,
                                        ));
                                    },
                                    Err(_) => {},
                                }
                            },
                            None => {},
                        }
                    },
                    None => {},
                }
            }
            i += 1;
        }
        Ok(out)
    }

    /// Persists the rows one by one, each with its volume sanitized. A row
    /// that the store refuses is left out and the rest goes on. Returns how
    /// many rows the store took.
    pub fn save_prices(&self, store: &mut Store, prices: &Vec<NewPriceData>, now: i64) -> (saved:
        usize)
        requires
            old(store)@.wf(),
        ensures
            final(store)@.wf(),
            old(store)@.same_but_prices(final(store)@),
            final(store)@.price_rows() == with_prices(
                old(store)@.price_rows(),
                sanitized_rows(rows_of(prices@)),
                prices@.len() as int,
            ),
            saved == rows_taken(
                old(store)@.price_rows(),
                sanitized_rows(rows_of(prices@)),
                prices@.len() as int,
            ),
            old(store)@.prices.len() + prices@.len() < i32::MAX ==> saved == prices@.len(),
    {
        let ghost written = sanitized_rows(rows_of(prices@));
        let mut saved: usize = 0;
        let mut i: usize = 0;
        while i < prices.len()
            invariant
                store@.wf(),
                i <= prices@.len(),
                saved <= i,
                written == sanitized_rows(rows_of(prices@)),
                old(store)@.same_but_prices(store@),
                store@.price_rows() == with_prices(old(store)@.price_rows(), written, i as int),
                store@.prices.len() <= old(store)@.prices.len() + i,
                saved == rows_taken(old(store)@.price_rows(), written, i as int),
                old(store)@.prices.len() + prices@.len() < i32::MAX ==> saved == i,
            decreases prices@.len() - i,
        {
            let row = NewPriceData {
                exchange_id: prices[i].exchange_id,
                coin_id: prices[i].coin_id,
                price: prices[i].price.clone(),
                volume_24h: sanitize_volume(&prices[i].volume_24h),
                price_change_24h: copy_optional(&prices[i].price_change_24h),
                timestamp: prices[i].timestamp,
            };
            assert(row@ == written[i as int]);
            let ghost before = store@;
            proof {
                let rows = before.price_rows();
                assert(rows.len() == before.prices.len());
                if before.has_price(written[i as int]) {
                    let w = choose|w: int|
                        before.price_at(
                            w,
                            written[i as int].exchange_id,
                            written[i as int].coin_id,
                            written[i as int].timestamp,
                        );
                    assert(crate::store::same_key_at(rows, w, written[i as int]));
                }
                if crate::store::holds_key(rows, written[i as int]) {
                    let w = choose|w: int| crate::store::same_key_at(rows, w, written[i as int]);
                    assert(before.price_at(
                        w,
                        written[i as int].exchange_id,
                        written[i as int].coin_id,
                        written[i as int].timestamp,
                    ));
                }
            }
            match store.upsert_price(row, now) {
                Ok(_) => {
                    saved += 1;
                    proof {
                        assert(store@.prices.len() <= before.prices.len() + 1);
                    }
                },
                Err(_) => {},
            }
            i += 1;
        }
        saved
    }
    /// Brings the venue's listings in line with the symbols that the venue
    /// reports. Each symbol gets its coin (created under the symbol as its
    /// name, or renamed to it) and, unless that coin is inactive, its active
    /// listing with the venue's market symbol. Then the venue's active
    /// listings of coins with none of the symbols are switched off, unless
    /// there are no symbols at all.
    ///
    /// No coin and no listing is removed: a listing that is switched off
    /// stays in the table and keeps what it says. The rows of other venues,
    /// and the coins with none of the symbols, are left as they are; with no
    /// symbols the whole store is.
    ///
    /// Returns the rows that the listing upserts affected, the number of
    /// listings switched off, and the number of symbols. Fails where the
    /// store does not know the venue, and where it runs out of coin
    /// identifiers; what it did up to then stays.
    pub fn process_exchange(
        &self,
        store: &mut Store,
        ex_name: &str,
        symbols: &Vec<String>,
        quote: &str,
        now: i64,
    ) -> (r: Result<(u128, u64, usize), AppError>)
        requires
            old(store)@.wf(),
        ensures
            exchange_processed(
                old(store)@,
                final(store)@,
                ex_name@,
                symbols@,
                quote@,
                now as int,
                r,
            ),
    {
        proof {
            reveal(exchange_processed);
        }
        let ex_id = match self.get_exchange_id_by_name(store, ex_name) {
            Ok(id) => id,
            Err(e) => {
                return Err(e);
            },
        };
        let venue = ExchangeType::from_name(ex_name);
        let ghost first = store@;
        let ghost id = ex_id as int;
        let mut upserts: u128 = 0;
        let n = symbols.len();
        let mut i: usize = 0;
        proof {
            assert(symbols@.take(0).len() == 0);
            lemma_progress_starts(first, id, ex_name@, quote@, symbols@, now as int);
        }
        while i < n
            invariant
                i <= n,
                n == symbols@.len(),
                first == old(store)@,
                first.wf(),
                progress(first, store@, id, ex_name@, quote@, symbols@, i as int, now as int),
                id == ex_id,
                venue == ExchangeType::of_name(ex_name@),
                store@.wf(),
                same_but_catalog(first, store@),
                first.exchange_id(ex_name@) == Some(id),
                forall|x: Seq<char>| #[trigger]
                    store@.has_inactive_coin(x) == first.has_inactive_coin(x),
                forall|x: Seq<char>| #[trigger]
                    store@.has_coin(x) == (first.has_coin(x) || names(symbols@.take(i as int), x)),
                greatest_coin_id(store@.coins) == greatest_coin_id(first.coins) + coins_needed(
                    first,
                    symbols@,
                    i as int,
                ),
                forall|e: int, x: Seq<char>|
                    !(e == id && names(symbols@.take(i as int), x)) ==> #[trigger] store@.listing_state(
                        e,
                        x,
                    ) == first.listing_state(e, x),
                forall|x: Seq<char>|
                    names(symbols@.take(i as int), x) && !first.has_inactive_coin(x)
                        ==> #[trigger] store@.listing_state(id, x) == Some(
                        (market_symbol_of(ex_name@, x), x, quote@, true),
                    ),
                forall|e: int, x: Seq<char>| #[trigger]
                    store@.is_listed(e, x) == (first.is_listed(e, x) || (e == id && names(
                        symbols@.take(i as int),
                        x,
                    ) && !first.has_inactive_coin(x))),
                store@.stale_count(store@.listings.len() as int, id, symbols@) == first.stale_count(
                    first.listings.len() as int,
                    id,
                    symbols@,
                ),
                upserts == listing_writes(first, id, ex_name@, quote@, symbols@, i as int),
                0 <= upserts <= 2 * i,
            decreases n - i,
        {
            let sym = symbols[i].as_str();
            let ghost cur = store@;
            proof {
                lemma_names_take(symbols@, i as int);
                assert(names(symbols@, sym@)) by {
                    assert(symbols@[i as int]@ == sym@);
                }
            }
            match store.upsert_coin(sym, sym, now) {
                Ok(_) => {},
                Err(e) => {
                    proof {
                        reveal(exchange_processed);
                        assert(!cur.has_coin(sym@));
                        assert(!first.has_coin(sym@));
                        assert(!seen_before(symbols@, i as int));
                        lemma_coins_needed_grows(first, symbols@, i + 1, n as int);
                        lemma_progress_keeps(
                            first,
                            cur,
                            id,
                            ex_name@,
                            quote@,
                            symbols@,
                            i as int,
                            now as int,
                        );
                        lemma_progress_fails(
                            first,
                            cur,
                            id,
                            ex_name@,
                            quote@,
                            symbols@,
                            i as int,
                            now as int,
                        );
                    }
                    return Err(e);
                },
            }
            let ghost mid = store@;
            proof {
                assert(crate::store::coin_upserted(cur, mid, sym@, sym@, now as int));
                lemma_progress_coin(
                    first,
                    cur,
                    mid,
                    id,
                    ex_name@,
                    quote@,
                    symbols@,
                    i as int,
                    now as int,
                );
                crate::store::lemma_coin_upsert_coins(cur, mid, sym@, sym@, now as int);
                crate::store::lemma_coin_upsert_keeps_listings(
                    cur,
                    mid,
                    sym@,
                    sym@,
                    now as int,
                    symbols@,
                );
                crate::store::lemma_coin_upsert_keeps_listed(cur, mid, sym@, sym@, now as int);
                assert forall|x: Seq<char>| #[trigger]
                    mid.has_coin(x) == (first.has_coin(x) || names(symbols@.take(i + 1), x)) by {
                    if cur.has_coin(x) {
                        let k = choose|k: int| cur.coin_at(k, x);
                        assert(mid.coin_at(k, x));
                    }
                    if mid.has_coin(x) {
                        let k = choose|k: int| mid.coin_at(k, x);
                        if k < cur.coins.len() {
                            assert(cur.coin_at(k, x));
                        }
                    }
                }
                assert(greatest_coin_id(mid.coins) == greatest_coin_id(first.coins) + coins_needed(
                    first,
                    symbols@,
                    i + 1,
                )) by {
                    if mid.coins.len() > cur.coins.len() {
                        assert(!cur.has_coin(sym@));
                    } else {
                        assert(cur.has_coin(sym@));
                    }
                }
            }
            match store.get_coin_id(sym) {
                Some(coin_id) => {
                    let market_symbol = match venue {
                        Some(v) => v.market_symbol_for(sym),
                        None => sym.to_owned(),
                    };
                    proof {
                        assert(market_symbol@ == market_symbol_of(ex_name@, sym@));
                        let k0 = choose|k: int| mid.active_coin_at(k, sym@);
                        assert(mid.coins[k0].id == coin_id);
                        assert(mid.has_coin_id(coin_id as int));
                        assert(!mid.has_inactive_coin(sym@)) by {
                            if mid.has_inactive_coin(sym@) {
                                let k = choose|k: int|
                                    mid.coin_at(k, sym@) && !mid.coins[k].is_active;
                                assert(mid.coins[k].symbol@ == mid.coins[k0].symbol@);
                                assert(k == k0);
                            }
                        }
                    }
                    match store.upsert_listing(ex_id, coin_id, market_symbol.as_str(), sym, quote) {
                        Ok(count) => {
                            proof {
                                let k0 = choose|k: int| mid.active_coin_at(k, sym@);
                                assert(crate::store::listing_upserted(
                                    mid,
                                    store@,
                                    id,
                                    mid.coins[k0].id as int,
                                    market_symbol@,
                                    sym@,
                                    quote@,
                                ));
                                crate::store::lemma_listing_upsert_state(
                                    mid,
                                    store@,
                                    id,
                                    k0,
                                    market_symbol@,
                                    sym@,
                                    quote@,
                                    symbols@,
                                );
                                crate::store::lemma_listing_upsert_lists(
                                    mid,
                                    store@,
                                    id,
                                    k0,
                                    market_symbol@,
                                    sym@,
                                    quote@,
                                );
                                lemma_progress_listing(
                                    first,
                                    mid,
                                    store@,
                                    id,
                                    k0,
                                    ex_name@,
                                    quote@,
                                    symbols@,
                                    i as int,
                                    now as int,
                                );
                                assert(count == crate::store::rows_affected(
                                    mid.listing_state(id, sym@),
                                    market_symbol@,
                                    sym@,
                                    quote@,
                                )) by {
                                    if exists|a: int| mid.listing_at(a, id, coin_id as int) {
                                        let a = choose|a: int|
                                            mid.listing_at(a, id, coin_id as int)
                                                && mid.listing_rewritten(
                                                store@,
                                                a,
                                                market_symbol@,
                                                sym@,
                                                quote@,
                                            ) && count == (if mid.listing_says(
                                                a,
                                                market_symbol@,
                                                sym@,
                                                quote@,
                                            ) {
                                                0u64
                                            } else {
                                                2u64
                                            });
                                        assert(mid.listing_state(id, sym@) == Some(
                                            mid.listing_content(a),
                                        ));
                                    }
                                }
                                assert(mid.listing_state(id, sym@) == cur.listing_state(id, sym@));
                                assert(store@.coins == mid.coins);
                                let after = store@;
                                assert forall|x: Seq<char>| #[trigger]
                                    after.has_inactive_coin(x) == mid.has_inactive_coin(x) by {
                                    if mid.has_inactive_coin(x) {
                                        let k = choose|k: int|
                                            mid.coin_at(k, x) && !mid.coins[k].is_active;
                                        assert(after.coin_at(k, x) && !after.coins[k].is_active);
                                    }
                                    if after.has_inactive_coin(x) {
                                        let k = choose|k: int|
                                            after.coin_at(k, x) && !after.coins[k].is_active;
                                        assert(mid.coin_at(k, x) && !mid.coins[k].is_active);
                                    }
                                }
                                assert forall|x: Seq<char>| #[trigger]
                                    after.has_coin(x) == mid.has_coin(x) by {
                                    if mid.has_coin(x) {
                                        let k = choose|k: int| mid.coin_at(k, x);
                                        assert(after.coin_at(k, x));
                                    }
                                    if after.has_coin(x) {
                                        let k = choose|k: int| after.coin_at(k, x);
                                        assert(mid.coin_at(k, x));
                                    }
                                }
                            }
                            upserts = upserts + count as u128;
                        },
                        Err(e) => {
                            proof {
                                reveal(exchange_processed);
                            }
                            return Err(e);
                        },
                    }
                },
                None => {
                    proof {
                        assert(mid.has_inactive_coin(sym@)) by {
                            assert(mid.has_coin(sym@));
                            let k = choose|k: int| mid.coin_at(k, sym@);
                            assert(!mid.active_coin_at(k, sym@));
                        }
                        lemma_progress_skips(
                            first,
                            mid,
                            id,
                            ex_name@,
                            quote@,
                            symbols@,
                            i as int,
                            now as int,
                        );
                    }
                },
            }
            i += 1;
        }
        proof {
            reveal(exchange_processed);
            assert(symbols@.take(n as int) =~= symbols@);
            crate::store::lemma_greatest_in_range(store@.coins);
        }
        let ghost mid = store@;
        let deactivated = store.deactivate_listings_except(ex_id, symbols);
        proof {
            if n > 0 {
                lemma_deactivation_keeps_named(mid, store@, id, symbols@);
                lemma_deactivation_keeps_written(mid, store@, id, symbols@);
            }
            lemma_progress_ends(first, mid, store@, id, ex_name@, quote@, symbols@, now as int);
            let after = store@;
            assert(after.coins == mid.coins);
            assert forall|x: Seq<char>| #[trigger]
                after.has_inactive_coin(x) == mid.has_inactive_coin(x) by {
                if mid.has_inactive_coin(x) {
                    let k = choose|k: int| mid.coin_at(k, x) && !mid.coins[k].is_active;
                    assert(after.coin_at(k, x) && !after.coins[k].is_active);
                }
                if after.has_inactive_coin(x) {
                    let k = choose|k: int| after.coin_at(k, x) && !after.coins[k].is_active;
                    assert(mid.coin_at(k, x) && !mid.coins[k].is_active);
                }
            }
            assert forall|x: Seq<char>| names(symbols@, x) implies #[trigger] store@.has_coin(
                x,
            ) by {
                assert(mid.has_coin(x));
                let k = choose|k: int| mid.coin_at(k, x);
                assert(store@.coin_at(k, x));
            }
            lemma_coins_named(
                first,
                after,
                symbols@,
                coins_needed(first, symbols@, n as int) as int,
                now as int,
            );
            assert forall|x: Seq<char>|
                names(symbols@, x) && !first.has_inactive_coin(x) implies #[trigger] after.listing_state(
                id,
                x,
            ) == Some(written(ex_name@, quote@, x)) by {
                assert(mid.listing_state(id, x) == Some(
                    (market_symbol_of(ex_name@, x), x, quote@, true),
                ));
                assert(after.listing_state(id, x) == mid.listing_state(id, x));
            }
        }
        Ok((upserts, deactivated, n))
    }

    /// One link of a synchronisation: the venue is synchronised with the
    /// symbols where the target covers it, and left alone where not.
    fn sync_venue(
        &self,
        store: &mut Store,
        targeted: bool,
        venue: ExchangeType,
        symbols: &Vec<String>,
        now: i64,
    ) -> (r: Option<Result<(u128, u64, usize), AppError>>)
        requires
            old(store)@.wf(),
        ensures
            final(store)@.wf(),
            same_but_catalog(old(store)@, final(store)@),
            venue_synced(
                old(store)@,
                final(store)@,
                targeted,
                venue,
                texts_of(symbols@),
                now as int,
                r,
            ),
    {
        if !targeted {
            return None;
        }
        let name = venue.to_string();
        let quote = venue.quote_currency();
        let r = self.process_exchange(store, name.as_str(), symbols, quote.as_str(), now);
        proof {
            reveal(exchange_processed);
            assert(texts_of(symbols@) == texts_of(symbols@) && exchange_processed(
                old(store)@,
                store@,
                venue.name(),
                symbols@,
                venue.quote(),
                now as int,
                r,
            ));
        }
        Some(r)
    }

    /// Synchronises the catalog with what the venues report: all three
    /// venues, or the one that `exchange` names, whatever its case. A venue
    /// whose answer is missing counts as reporting nothing, which leaves its
    /// listings alone. The venues are synchronised one after the other; the
    /// first that fails ends the run. The rows of a venue that the target does
    /// not cover stay as they are, and so does the whole store where no
    /// venue reports a symbol.
    pub fn sync_coins(
        &self,
        store: &mut Store,
        exchange: Option<&str>,
        upstream: &CatalogUpstream,
        now: i64,
    ) -> (r: Result<SyncSummary, AppError>)
        requires
            old(store)@.wf(),
        ensures
            final(store)@.wf(),
            same_but_catalog(old(store)@, final(store)@),
            catalog_synced(
                old(store)@,
                final(store)@,
                sync_target(exchange),
                *upstream,
                now as int,
                r,
            ),
            catalog_left(old(store)@, final(store)@, sync_target(exchange), *upstream),
            r is Ok ==> forall|venue: ExchangeType, x: Seq<char>|
                old(store)@.exchange_id(venue.name()) is Some ==> #[trigger] final(store)@.is_listed(
                    old(store)@.exchange_id(venue.name()).unwrap(),
                    x,
                ) == listed_after_catalog_sync(
                    old(store)@,
                    sync_target(exchange),
                    *upstream,
                    venue,
                    x,
                ),
    {
        let target = match exchange {
            Some(name) => name.to_lowercase(),
            None => "all".to_owned(),
        };
        let all = same_text(target.as_str(), "all");
        let ghost first = store@;
        let ghost tg = sync_target(exchange);
        let binance_symbols = match &upstream.binance {
            Some(info) => self.list_binance_symbols(info),
            None => Vec::new(),
        };
        assert(texts_of(binance_symbols@) =~= binance_listing(*upstream));
        let rb = self.sync_venue(
            store,
            all || same_text(target.as_str(), "binance"),
            ExchangeType::Binance,
            &binance_symbols,
            now,
        );
        let ghost a = store@;
        let ghost gb = rb;
        let (upserts_b, deactivated_b, active_b) = match rb {
            Some(Err(e)) => {
                proof {
                    lemma_link_bounds(
                        first,
                        a,
                        targets(tg, ExchangeType::Binance),
                        ExchangeType::Binance,
                        binance_listing(*upstream),
                        now as int,
                        gb,
                    );
                    assert(sync_chain(
                        first,
                        a,
                        a,
                        a,
                        tg,
                        *upstream,
                        now as int,
                        gb,
                        None,
                        None,
                        Err(e),
                    ));
                    lemma_chain_keeps(
                        first,
                        a,
                        a,
                        a,
                        tg,
                        *upstream,
                        now as int,
                        gb,
                        None,
                        None,
                        Err(e),
                    );
                }
                return Err(e);
            },
            Some(Ok(c)) => (c.0, c.1 as u128, c.2 as u128),
            None => (0, 0, 0),
        };
        let upbit_symbols = match &upstream.upbit {
            Some(markets) => self.list_upbit_symbols(markets),
            None => Vec::new(),
        };
        assert(texts_of(upbit_symbols@) =~= upbit_listing(*upstream));
        let ru = self.sync_venue(
            store,
            all || same_text(target.as_str(), "upbit"),
            ExchangeType::Upbit,
            &upbit_symbols,
            now,
        );
        let ghost b = store@;
        let ghost gu = ru;
        let (upserts_u, deactivated_u, active_u) = match ru {
            Some(Err(e)) => {
                proof {
                    lemma_link_bounds(
                        a,
                        b,
                        targets(tg, ExchangeType::Upbit),
                        ExchangeType::Upbit,
                        upbit_listing(*upstream),
                        now as int,
                        gu,
                    );
                    assert(sync_chain(
                        first,
                        a,
                        b,
                        b,
                        tg,
                        *upstream,
                        now as int,
                        gb,
                        gu,
                        None,
                        Err(e),
                    ));
                    lemma_chain_keeps(
                        first,
                        a,
                        b,
                        b,
                        tg,
                        *upstream,
                        now as int,
                        gb,
                        gu,
                        None,
                        Err(e),
                    );
                }
                return Err(e);
            },
            Some(Ok(c)) => (c.0, c.1 as u128, c.2 as u128),
            None => (0, 0, 0),
        };
        let bithumb_symbols = match &upstream.bithumb {
            Some(response) => self.list_bithumb_symbols(response),
            None => Vec::new(),
        };
        assert(texts_of(bithumb_symbols@) =~= bithumb_listing(*upstream));
        let rt = self.sync_venue(
            store,
            all || same_text(target.as_str(), "bithumb"),
            ExchangeType::Bithumb,
            &bithumb_symbols,
            now,
        );
        let ghost gt = rt;
        let (upserts_t, deactivated_t, active_t) = match rt {
            Some(Err(e)) => {
                proof {
                    lemma_link_bounds(
                        b,
                        store@,
                        targets(tg, ExchangeType::Bithumb),
                        ExchangeType::Bithumb,
                        bithumb_listing(*upstream),
                        now as int,
                        gt,
                    );
                    assert(sync_chain(
                        first,
                        a,
                        b,
                        store@,
                        tg,
                        *upstream,
                        now as int,
                        gb,
                        gu,
                        gt,
                        Err(e),
                    ));
                    lemma_chain_keeps(
                        first,
                        a,
                        b,
                        store@,
                        tg,
                        *upstream,
                        now as int,
                        gb,
                        gu,
                        gt,
                        Err(e),
                    );
                }
                return Err(e);
            },
            Some(Ok(c)) => (c.0, c.1 as u128, c.2 as u128),
            None => (0, 0, 0),
        };
        proof {
            lemma_link_bounds(
                first,
                a,
                targets(tg, ExchangeType::Binance),
                ExchangeType::Binance,
                binance_listing(*upstream),
                now as int,
                gb,
            );
            lemma_link_bounds(
                a,
                b,
                targets(tg, ExchangeType::Upbit),
                ExchangeType::Upbit,
                upbit_listing(*upstream),
                now as int,
                gu,
            );
            lemma_link_bounds(
                b,
                store@,
                targets(tg, ExchangeType::Bithumb),
                ExchangeType::Bithumb,
                bithumb_listing(*upstream),
                now as int,
                gt,
            );
        }
        let summary = SyncSummary {
            active_total: active_b + active_u + active_t,
            upserts: upserts_b + upserts_u + upserts_t,
            deactivated: deactivated_b + deactivated_u + deactivated_t,
        };
        proof {
            assert(sync_chain(
                first,
                a,
                b,
                store@,
                tg,
                *upstream,
                now as int,
                gb,
                gu,
                gt,
                Ok(summary),
            ));
            lemma_chain_keeps(
                first,
                a,
                b,
                store@,
                tg,
                *upstream,
                now as int,
                gb,
                gu,
                gt,
                Ok(summary),
            );
            lemma_chain_lists(
                first,
                a,
                b,
                store@,
                tg,
                *upstream,
                now as int,
                gb,
                gu,
                gt,
                Ok(summary),
            );
        }
        Ok(summary)
    }
    /// Ingests one batch: turns what each venue answered into price rows, all
    /// stamped with the one timestamp of the batch, and persists them venue
    /// by venue. A venue whose answer is missing, or whose rows cannot be
    /// built, contributes nothing; the other venues' rows are persisted all
    /// the same.
    pub fn fetch_all_prices(&self, store: &mut Store, upstream: &PriceUpstream, timestamp: i64) -> (r:
        IngestSummary)
        requires
            old(store)@.wf(),
        ensures
            final(store)@.wf(),
            old(store)@.same_but_prices(final(store)@),
            final(store)@.price_rows() == ingested(old(store)@, *upstream, timestamp as int),
            r.binance_count == binance_batch(old(store)@, *upstream, timestamp as int).len(),
            r.upbit_count == upbit_batch(old(store)@, *upstream, timestamp as int).len(),
            r.bithumb_count == bithumb_batch(old(store)@, *upstream, timestamp as int).len(),
    {
        let binance_rows: Vec<NewPriceData> = match &upstream.binance {
            Some(response) => match self.fetch_binance_prices(store, response, timestamp) {
                Ok(rows) => rows,
                Err(_) => Vec::new(),
            },
            None => Vec::new(),
        };
        let upbit_rows: Vec<NewPriceData> = match &upstream.upbit {
            Some(response) => match self.fetch_upbit_prices(store, response, timestamp) {
                Ok(rows) => rows,
                Err(_) => Vec::new(),
            },
            None => Vec::new(),
        };
        let bithumb_rows: Vec<NewPriceData> = match &upstream.bithumb {
            Some(response) => match self.fetch_bithumb_prices(store, response, timestamp) {
                Ok(rows) => rows,
                Err(_) => Vec::new(),
            },
            None => Vec::new(),
        };
        proof {
            assert(rows_of(binance_rows@) =~= binance_batch(
                old(store)@,
                *upstream,
                timestamp as int,
            ));
            assert(rows_of(upbit_rows@) =~= upbit_batch(old(store)@, *upstream, timestamp as int));
            assert(rows_of(bithumb_rows@) =~= bithumb_batch(
                old(store)@,
                *upstream,
                timestamp as int,
            ));
        }
        self.save_prices(store, &binance_rows, timestamp);
        self.save_prices(store, &upbit_rows, timestamp);
        self.save_prices(store, &bithumb_rows, timestamp);
        IngestSummary {
            binance_count: binance_rows.len(),
            upbit_count: upbit_rows.len(),
            bithumb_count: bithumb_rows.len(),
        }
    }
    /// The address of Upbit's tickers for the symbols: one request for all
    /// of them.
    pub fn upbit_ticker_url(&self, symbols: &Vec<String>) -> (url: String)
        ensures
            url@ == "https://api.upbit.com/v1/ticker?markets="@ + upbit_markets(
                symbols@,
                symbols@.len() as int,
            ),
    {
        let mut markets = String::new();
        let mut i: usize = 0;
        while i < symbols.len()
            invariant
                i <= symbols@.len(),
                markets@ == upbit_markets(symbols@, i as int),
            decreases symbols@.len() - i,
        {
            let market = joined("KRW-", symbols[i].as_str());
            let ghost before = markets@;
            if i > 0 {
                markets = joined(markets.as_str(), ",");
            }
            markets = joined(markets.as_str(), market.as_str());
            proof {
                if i > 0 {
                    assert(markets@ =~= before + ","@ + "KRW-"@ + symbols@[i as int]@);
                } else {
                    assert(markets@ =~= "KRW-"@ + symbols@[0]@);
                }
            }
            i += 1;
        }
        joined("https://api.upbit.com/v1/ticker?markets=", markets.as_str())
    }
}

} // verus!
