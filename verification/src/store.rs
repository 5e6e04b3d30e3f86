//! The relational store that the services read and write, held in memory.
//!
//! The store keeps six tables: venues, coins, listings, price snapshots,
//! rates and the premium history. Its operations have upsert semantics where
//! the tables have unique keys. [`Tables`] is what a store holds, as
//! mathematics; every operation says what it does to the tables.

use vstd::prelude::*;
use crate::decimal::Decimal;
use crate::models::arbitrage::KimchiHistoryPoint;
use crate::models::coin::Coin;
use crate::models::coin::CoinListing;
use crate::models::exchange::Exchange;
use crate::models::exchange::NewPriceData;
use crate::models::exchange::opt_dec;
use crate::models::exchange::PriceData;
use crate::models::exchange::PriceRow;
use crate::models::exchange_rate::ExchangeRate;
use crate::models::exchange_rate::NewExchangeRate;
use crate::models::exchange_rate::RateRow;
use crate::text::same_text;
use crate::utils::error::AppError;
use crate::utils::ranking::lemma_injection_is_onto;
use crate::utils::ranking::lemma_text_order_total;
use crate::utils::ranking::occurs;
use crate::utils::ranking::Ranked;
use crate::utils::ranking::sorts_stably;
use crate::utils::ranking::stable_sort;
use crate::utils::ranking::text_less;

verus! {

/// The rows of a store, table by table, in the order in which they were
/// inserted.
pub struct Tables {
    pub exchanges: Seq<Exchange>,
    pub coins: Seq<Coin>,
    pub listings: Seq<CoinListing>,
    pub prices: Seq<PriceData>,
    pub rates: Seq<ExchangeRate>,
    pub kimchi: Seq<KimchiHistoryPoint>,
}

impl Tables {
    /// No two venues share an identifier or a name.
    pub open spec fn unique_exchanges(self) -> bool {
        forall|i: int, j: int|
            0 <= i < j < self.exchanges.len() ==> (#[trigger] self.exchanges[i]).id != (
            #[trigger] self.exchanges[j]).id && self.exchanges[i].name@ != self.exchanges[j].name@
    }

    /// No two coins share an identifier or a symbol.
    pub open spec fn unique_coins(self) -> bool {
        forall|i: int, j: int|
            0 <= i < j < self.coins.len() ==> (#[trigger] self.coins[i]).id != (
            #[trigger] self.coins[j]).id && self.coins[i].symbol@ != self.coins[j].symbol@
    }

    /// There is at most one listing per venue and coin.
    pub open spec fn unique_listings(self) -> bool {
        forall|i: int, j: int|
            0 <= i < j < self.listings.len() ==> !((#[trigger] self.listings[i]).exchange_id == (
            #[trigger] self.listings[j]).exchange_id && self.listings[i].coin_id
                == self.listings[j].coin_id)
    }

    /// Some coin has the identifier.
    pub open spec fn has_coin_id(self, id: int) -> bool {
        exists|k: int| 0 <= k < self.coins.len() && (#[trigger] self.coins[k]).id == id
    }

    /// Every listing is of a coin of the store.
    pub open spec fn listings_have_coins(self) -> bool {
        forall|i: int|
            0 <= i < self.listings.len() ==> self.has_coin_id(
                (#[trigger] self.listings[i]).coin_id as int,
            )
    }

    /// There is at most one price row per venue, coin and timestamp.
    pub open spec fn unique_prices(self) -> bool {
        forall|i: int, j: int|
            0 <= i < j < self.prices.len() ==> !((#[trigger] self.prices[i]).exchange_id == (
            #[trigger] self.prices[j]).exchange_id && self.prices[i].coin_id
                == self.prices[j].coin_id && self.prices[i].timestamp
                == self.prices[j].timestamp)
    }

    /// The tables respect their unique keys, and listings refer to coins.
    pub open spec fn wf(self) -> bool {
        &&& self.unique_exchanges()
        &&& self.unique_coins()
        &&& self.unique_listings()
        &&& self.listings_have_coins()
        &&& self.unique_prices()
    }

    /// The coin `k` is the active coin with the symbol.
    pub open spec fn active_coin_at(self, k: int, symbol: Seq<char>) -> bool {
        0 <= k < self.coins.len() && self.coins[k].symbol@ == symbol && self.coins[k].is_active
    }

    /// The identifier of the active coin with the symbol, if there is one.
    pub open spec fn coin_id(self, symbol: Seq<char>) -> Option<int> {
        if exists|k: int| self.active_coin_at(k, symbol) {
            Some(self.coins[choose|k: int| self.active_coin_at(k, symbol)].id as int)
        } else {
            None
        }
    }

    /// The venue `i` has the name.
    pub open spec fn exchange_at(self, i: int, name: Seq<char>) -> bool {
        0 <= i < self.exchanges.len() && self.exchanges[i].name@ == name
    }

    /// The identifier of the venue with the name, if there is one.
    pub open spec fn exchange_id(self, name: Seq<char>) -> Option<int> {
        if exists|i: int| self.exchange_at(i, name) {
            Some(self.exchanges[choose|i: int| self.exchange_at(i, name)].id as int)
        } else {
            None
        }
    }

    /// Listing `i` is an active listing on the venue, of coin `k`, and that
    /// coin has the symbol.
    pub open spec fn listed_at(self, i: int, k: int, exchange_id: int, symbol: Seq<char>) -> bool {
        &&& 0 <= i < self.listings.len()
        &&& 0 <= k < self.coins.len()
        &&& self.listings[i].exchange_id == exchange_id
        &&& self.listings[i].is_active
        &&& self.listings[i].coin_id == self.coins[k].id
        &&& self.coins[k].symbol@ == symbol
    }

    /// The coin with the symbol has an active listing on the venue.
    pub open spec fn is_listed(self, exchange_id: int, symbol: Seq<char>) -> bool {
        exists|i: int, k: int| self.listed_at(i, k, exchange_id, symbol)
    }

    /// Coin `k` has the symbol, active or not.
    pub open spec fn coin_at(self, k: int, symbol: Seq<char>) -> bool {
        0 <= k < self.coins.len() && self.coins[k].symbol@ == symbol
    }

    /// The tables differ at most in their coins.
    pub open spec fn same_but_coins(self, other: Tables) -> bool {
        &&& self.exchanges == other.exchanges
        &&& self.listings == other.listings
        &&& self.prices == other.prices
        &&& self.rates == other.rates
        &&& self.kimchi == other.kimchi
    }

    /// The tables differ at most in their listings.
    pub open spec fn same_but_listings(self, other: Tables) -> bool {
        &&& self.exchanges == other.exchanges
        &&& self.coins == other.coins
        &&& self.prices == other.prices
        &&& self.rates == other.rates
        &&& self.kimchi == other.kimchi
    }

    /// `after` is `self` with the name of coin `k` replaced.
    pub open spec fn coin_renamed(self, after: Tables, k: int, name: Seq<char>) -> bool {
        &&& self.same_but_coins(after)
        &&& 0 <= k < self.coins.len()
        &&& after.coins.len() == self.coins.len()
        &&& forall|j: int| 0 <= j < self.coins.len() && j != k ==> after.coins[j] == self.coins[j]
        &&& after.coins[k].id == self.coins[k].id
        &&& after.coins[k].symbol@ == self.coins[k].symbol@
        &&& after.coins[k].name@ == name
        &&& after.coins[k].is_active == self.coins[k].is_active
        &&& after.coins[k].created_at == self.coins[k].created_at
    }

    /// `after` is `self` with one more coin: active, with the next
    /// identifier, the symbol and the name.
    pub open spec fn coin_added(self, after: Tables, symbol: Seq<char>, name: Seq<char>, now: int)
        -> bool {
        &&& self.same_but_coins(after)
        &&& after.coins.len() == self.coins.len() + 1
        &&& after.coins.subrange(0, self.coins.len() as int) == self.coins
        &&& after.coins.last().id == greatest_coin_id(self.coins) + 1
        &&& after.coins.last().symbol@ == symbol
        &&& after.coins.last().name@ == name
        &&& after.coins.last().is_active
        &&& after.coins.last().created_at == now
    }

    /// Listing `i` is the listing of the coin on the venue.
    pub open spec fn listing_at(self, i: int, exchange_id: int, coin_id: int) -> bool {
        &&& 0 <= i < self.listings.len()
        &&& self.listings[i].exchange_id == exchange_id
        &&& self.listings[i].coin_id == coin_id
    }

    /// Listing `i` already says what an upsert would write.
    pub open spec fn listing_says(
        self,
        i: int,
        market_symbol: Seq<char>,
        base: Seq<char>,
        quote: Seq<char>,
    ) -> bool {
        &&& self.listings[i].market_symbol@ == market_symbol
        &&& self.listings[i].base@ == base
        &&& self.listings[i].quote@ == quote
        &&& self.listings[i].is_active
    }

    /// `after` is `self` with listing `i` rewritten and made active.
    pub open spec fn listing_rewritten(
        self,
        after: Tables,
        i: int,
        market_symbol: Seq<char>,
        base: Seq<char>,
        quote: Seq<char>,
    ) -> bool {
        &&& self.same_but_listings(after)
        &&& 0 <= i < self.listings.len()
        &&& after.listings.len() == self.listings.len()
        &&& forall|j: int|
            0 <= j < self.listings.len() && j != i ==> after.listings[j] == self.listings[j]
        &&& after.listings[i].exchange_id == self.listings[i].exchange_id
        &&& after.listings[i].coin_id == self.listings[i].coin_id
        &&& after.listing_says(i, market_symbol, base, quote)
    }

    /// `after` is `self` with one more listing, which is active.
    pub open spec fn listing_added(
        self,
        after: Tables,
        exchange_id: int,
        coin_id: int,
        market_symbol: Seq<char>,
        base: Seq<char>,
        quote: Seq<char>,
    ) -> bool {
        &&& self.same_but_listings(after)
        &&& after.listings.len() == self.listings.len() + 1
        &&& after.listings.subrange(0, self.listings.len() as int) == self.listings
        &&& after.listing_at(self.listings.len() as int, exchange_id, coin_id)
        &&& after.listing_says(self.listings.len() as int, market_symbol, base, quote)
    }

    /// The coin of listing `i` has one of the symbols.
    pub open spec fn listing_named(self, i: int, symbols: Seq<String>) -> bool {
        exists|k: int, m: int|
            0 <= k < self.coins.len() && 0 <= m < symbols.len() && (#[trigger] self.coins[k]).id
                == self.listings[i].coin_id && self.coins[k].symbol@ == (#[trigger] symbols[m])@
    }

    /// Listing `i` is one that a deactivation on the venue switches off: an
    /// active listing there whose coin has none of the symbols.
    pub open spec fn listing_stale(self, i: int, exchange_id: int, symbols: Seq<String>) -> bool {
        &&& self.listings[i].exchange_id == exchange_id
        &&& self.listings[i].is_active
        &&& !self.listing_named(i, symbols)
    }

    /// The number of stale listings among the first `n`.
    pub open spec fn stale_count(self, n: int, exchange_id: int, symbols: Seq<String>) -> nat
        decreases n,
    {
        if n <= 0 {
            0
        } else {
            self.stale_count(n - 1, exchange_id, symbols) + if self.listing_stale(
                n - 1,
                exchange_id,
                symbols,
            ) {
                1nat
            } else {
                0nat
            }
        }
    }

    /// `after` is `self` with the stale listings among the first `n` switched
    /// off, and nothing else changed: a stale listing stays in the table and
    /// keeps what it says, every other listing is the row that it was.
    pub open spec fn stale_switched_off(
        self,
        after: Tables,
        n: int,
        exchange_id: int,
        symbols: Seq<String>,
    ) -> bool {
        &&& self.same_but_listings(after)
        &&& after.listings.len() == self.listings.len()
        &&& forall|j: int|
            0 <= j < self.listings.len() ==> {
                &&& (#[trigger] after.listings[j]).exchange_id == self.listings[j].exchange_id
                &&& after.listings[j].coin_id == self.listings[j].coin_id
                &&& after.listings[j].market_symbol@ == self.listings[j].market_symbol@
                &&& after.listings[j].base@ == self.listings[j].base@
                &&& after.listings[j].quote@ == self.listings[j].quote@
                &&& after.listings[j].is_active == (self.listings[j].is_active && !(j < n
                    && self.listing_stale(j, exchange_id, symbols)))
                &&& !(j < n && self.listing_stale(j, exchange_id, symbols)) ==> after.listings[j]
                    == self.listings[j]
            }
    }

    /// Price row `i` is the row of the venue, the coin and the timestamp.
    pub open spec fn price_at(self, i: int, exchange_id: int, coin_id: int, timestamp: int)
        -> bool {
        &&& 0 <= i < self.prices.len()
        &&& self.prices[i].exchange_id == exchange_id
        &&& self.prices[i].coin_id == coin_id
        &&& self.prices[i].timestamp == timestamp
    }

    /// Some price row has the key of `row`.
    pub open spec fn has_price(self, row: PriceRow) -> bool {
        exists|i: int| self.price_at(i, row.exchange_id, row.coin_id, row.timestamp)
    }

    /// The tables differ at most in their price rows.
    pub open spec fn same_but_prices(self, other: Tables) -> bool {
        &&& self.exchanges == other.exchanges
        &&& self.coins == other.coins
        &&& self.listings == other.listings
        &&& self.rates == other.rates
        &&& self.kimchi == other.kimchi
    }

    /// `after` is `self` with the price, the volume and the change of price
    /// row `i` replaced by those of `row`.
    pub open spec fn price_rewritten(self, after: Tables, i: int, row: PriceRow) -> bool {
        &&& self.same_but_prices(after)
        &&& 0 <= i < self.prices.len()
        &&& after.prices.len() == self.prices.len()
        &&& forall|j: int| 0 <= j < self.prices.len() && j != i ==> after.prices[j] == self.prices[j]
        &&& after.prices[i]@ == row
        &&& after.prices[i].id == self.prices[i].id
        &&& after.prices[i].created_at == self.prices[i].created_at
    }

    /// `after` is `self` with `row` as one more price row.
    pub open spec fn price_added(self, after: Tables, row: PriceRow, now: int) -> bool {
        &&& self.same_but_prices(after)
        &&& after.prices.len() == self.prices.len() + 1
        &&& after.prices.subrange(0, self.prices.len() as int) == self.prices
        &&& after.prices.last()@ == row
        &&& after.prices.last().id == self.prices.len() + 1
        &&& after.prices.last().created_at == now
    }

    /// `after` is `self` once `row` is written with upsert semantics: the row
    /// with its key is rewritten, or the row is added where there is none.
    pub open spec fn price_upserted(self, after: Tables, row: PriceRow, now: int) -> bool {
        if self.has_price(row) {
            exists|i: int|
                self.price_at(i, row.exchange_id, row.coin_id, row.timestamp)
                    && self.price_rewritten(after, i, row)
        } else {
            self.price_added(after, row, now)
        }
    }

    /// Price row `i` is a row of the venue and the coin that is no older than
    /// the cutoff.
    pub open spec fn fresh_price_at(self, i: int, exchange_id: int, coin_id: int, cutoff: int)
        -> bool {
        &&& self.prices[i].exchange_id == exchange_id
        &&& self.prices[i].coin_id == coin_id
        &&& self.prices[i].timestamp >= cutoff
    }

    /// Among the first `n` price rows, the most recent row of the venue and
    /// the coin that is no older than the cutoff.
    pub open spec fn latest_price(self, n: int, exchange_id: int, coin_id: int, cutoff: int)
        -> Option<int>
        decreases n,
    {
        if n <= 0 {
            None
        } else {
            let earlier = self.latest_price(n - 1, exchange_id, coin_id, cutoff);
            if self.fresh_price_at(n - 1, exchange_id, coin_id, cutoff) && (earlier is None
                || self.prices[earlier.unwrap()].timestamp < self.prices[n - 1].timestamp) {
                Some(n - 1)
            } else {
                earlier
            }
        }
    }

    /// For each of the first `m` venues that has a fresh price row of the
    /// coin: the position of the venue and of its most recent such row.
    pub open spec fn latest_quotes(self, m: int, coin_id: int, cutoff: int) -> Seq<(int, int)>
        decreases m,
    {
        if m <= 0 {
            Seq::empty()
        } else {
            let earlier = self.latest_quotes(m - 1, coin_id, cutoff);
            match self.latest_price(
                self.prices.len() as int,
                self.exchanges[m - 1].id as int,
                coin_id,
                cutoff,
            ) {
                Some(i) => earlier.push((m - 1, i)),
                None => earlier,
            }
        }
    }

    /// The quotes that a read of the symbol at the time `now` returns: for
    /// each venue its most recent price row of the coin that is at most
    /// thirty minutes old.
    pub open spec fn quotes_of(self, symbol: Seq<char>, now: int) -> Seq<(int, int)> {
        match coin_with_symbol(self.coins, symbol) {
            Some(id) => self.latest_quotes(
                self.exchanges.len() as int,
                id,
                now - FRESH_WINDOW_MS,
            ),
            None => Seq::empty(),
        }
    }

    /// The tables differ at most in their rates.
    pub open spec fn same_but_rates(self, other: Tables) -> bool {
        &&& self.exchanges == other.exchanges
        &&& self.coins == other.coins
        &&& self.listings == other.listings
        &&& self.prices == other.prices
        &&& self.kimchi == other.kimchi
    }

    /// `after` is `self` with `row` as one more rate, created at `now`.
    pub open spec fn rate_added(self, after: Tables, row: RateRow, now: int) -> bool {
        &&& self.same_but_rates(after)
        &&& after.rates.len() == self.rates.len() + 1
        &&& after.rates.subrange(0, self.rates.len() as int) == self.rates
        &&& after.rates.last()@ == row
        &&& after.rates.last().id == self.rates.len() + 1
        &&& after.rates.last().created_at == Some(now as i64)
    }

    /// Among the first `n` rates, the latest of the currency: the one with
    /// the greatest creation time, the last inserted among equals. A rate
    /// without a creation time is older than any with one.
    pub open spec fn latest_rate(self, n: int, currency: Seq<char>) -> Option<int>
        decreases n,
    {
        if n <= 0 {
            None
        } else {
            let earlier = self.latest_rate(n - 1, currency);
            if self.rates[n - 1].currency_code@ == currency && (earlier is None || !created_before(
                self.rates[n - 1].created_at,
                self.rates[earlier.unwrap()].created_at,
            )) {
                Some(n - 1)
            } else {
                earlier
            }
        }
    }

    /// The tables differ at most in their premium history.
    pub open spec fn same_but_kimchi(self, other: Tables) -> bool {
        &&& self.exchanges == other.exchanges
        &&& self.coins == other.coins
        &&& self.listings == other.listings
        &&& self.prices == other.prices
        &&& self.rates == other.rates
    }

    /// History point `i` is of the symbol and the two venues, and no older
    /// than the cutoff.
    pub open spec fn kimchi_match(
        self,
        i: int,
        symbol: Seq<char>,
        from_exchange: Seq<char>,
        to_exchange: Seq<char>,
        cutoff: int,
    ) -> bool {
        &&& self.kimchi[i].symbol@ == symbol
        &&& self.kimchi[i].from_exchange@ == from_exchange
        &&& self.kimchi[i].to_exchange@ == to_exchange
        &&& self.kimchi[i].ts >= cutoff
    }

    /// `picked` holds the positions of the history points that a read
    /// returns, in the order in which it returns them: every matching point
    /// once, the earlier first, and points of one time in the order in which
    /// they were recorded.
    pub open spec fn kimchi_answer(
        self,
        picked: Seq<int>,
        symbol: Seq<char>,
        from_exchange: Seq<char>,
        to_exchange: Seq<char>,
        cutoff: int,
    ) -> bool {
        &&& forall|i: int|
            0 <= i < picked.len() ==> 0 <= #[trigger] picked[i] < self.kimchi.len()
                && self.kimchi_match(picked[i], symbol, from_exchange, to_exchange, cutoff)
        &&& forall|i: int, j: int|
            #![trigger picked[i], picked[j]]
            0 <= i < j < picked.len() ==> self.kimchi[picked[i]].ts < self.kimchi[picked[j]].ts
                || (self.kimchi[picked[i]].ts == self.kimchi[picked[j]].ts && picked[i]
                < picked[j])
        &&& forall|k: int|
            0 <= k < self.kimchi.len() && #[trigger] self.kimchi_match(
                k,
                symbol,
                from_exchange,
                to_exchange,
                cutoff,
            ) ==> occurs(picked, k)
    }

    /// `points` are the history points at the positions `picked`, and
    /// `picked` is the answer of a read.
    pub open spec fn kimchi_read(
        self,
        points: Seq<KimchiHistoryPoint>,
        picked: Seq<int>,
        symbol: Seq<char>,
        from_exchange: Seq<char>,
        to_exchange: Seq<char>,
        cutoff: int,
    ) -> bool {
        &&& picked.len() == points.len()
        &&& self.kimchi_answer(picked, symbol, from_exchange, to_exchange, cutoff)
        &&& forall|i: int|
            0 <= i < points.len() ==> points[i]@ == self.kimchi[#[trigger] picked[i]]@
    }

    /// The symbol is listed on both venues, the venues given by name.
    pub open spec fn is_common(self, from_exchange: Seq<char>, to_exchange: Seq<char>, s: Seq<char>)
        -> bool {
        &&& self.exchange_id(from_exchange) is Some
        &&& self.exchange_id(to_exchange) is Some
        &&& self.is_listed(self.exchange_id(from_exchange).unwrap(), s)
        &&& self.is_listed(self.exchange_id(to_exchange).unwrap(), s)
    }

    /// `out` is the answer to a read of the symbols that the two venues have
    /// in common: the common symbols in the order of texts, each once, and
    /// with a limit the first `limit` of them.
    pub open spec fn common_answer(
        self,
        out: Seq<String>,
        from_exchange: Seq<char>,
        to_exchange: Seq<char>,
        limit: Option<i64>,
    ) -> bool {
        &&& forall|i: int, j: int|
            #![trigger out[i], out[j]]
            0 <= i < j < out.len() ==> text_less(out[i]@, out[j]@)
        &&& forall|i: int|
            0 <= i < out.len() ==> self.is_common(from_exchange, to_exchange, (#[trigger] out[i])@)
        &&& limit is Some ==> out.len() <= limit.unwrap()
        &&& forall|s: Seq<char>| #[trigger]
            self.is_common(from_exchange, to_exchange, s) && !names(out, s) ==> limit is Some
                && out.len() == limit.unwrap() && forall|i: int|
                0 <= i < out.len() ==> text_less((#[trigger] out[i])@, s)
    }

    /// What the price rows hold, row by row.
    pub open spec fn price_rows(self) -> Seq<PriceRow> {
        self.prices.map_values(|p: PriceData| p@)
    }

    /// The identifier of the coin with the symbol, where that coin has an
    /// active listing on the venue.
    pub open spec fn listed_coin_id(self, exchange_id: int, symbol: Seq<char>) -> Option<int> {
        if self.is_listed(exchange_id, symbol) {
            Some(self.coins[choose|k: int| self.coin_at(k, symbol)].id as int)
        } else {
            None
        }
    }

    /// An inactive coin has the symbol.
    pub open spec fn has_inactive_coin(self, symbol: Seq<char>) -> bool {
        exists|k: int| self.coin_at(k, symbol) && !self.coins[k].is_active
    }

    /// Listing `a` is the listing on the venue of coin `k`, which has the
    /// symbol.
    pub open spec fn listing_of_at(self, a: int, k: int, exchange_id: int, symbol: Seq<char>)
        -> bool {
        self.coin_at(k, symbol) && self.listing_at(a, exchange_id, self.coins[k].id as int)
    }

    /// What listing `a` says: its market symbol, its base, its quote, and
    /// whether it is active.
    pub open spec fn listing_content(self, a: int) -> (Seq<char>, Seq<char>, Seq<char>, bool) {
        (
            self.listings[a].market_symbol@,
            self.listings[a].base@,
            self.listings[a].quote@,
            self.listings[a].is_active,
        )
    }

    /// What the listing on the venue of the coin with the symbol says, if
    /// there is such a listing.
    pub open spec fn listing_state(self, exchange_id: int, symbol: Seq<char>) -> Option<
        (Seq<char>, Seq<char>, Seq<char>, bool),
    > {
        if exists|a: int, k: int| self.listing_of_at(a, k, exchange_id, symbol) {
            let pair = choose|a: int, k: int| self.listing_of_at(a, k, exchange_id, symbol);
            Some(self.listing_content(pair.0))
        } else {
            None
        }
    }

    /// Some coin has the symbol.
    pub open spec fn has_coin(self, symbol: Seq<char>) -> bool {
        exists|k: int| self.coin_at(k, symbol)
    }

    /// The symbols with an active listing on the venue.
    pub open spec fn active_symbols(self, exchange_id: int) -> Set<Seq<char>> {
        Set::new(|symbol: Seq<char>| self.is_listed(exchange_id, symbol))
    }
}

/// The identifier of the first of the coins that has the symbol.
pub open spec fn coin_with_symbol(coins: Seq<Coin>, symbol: Seq<char>) -> Option<int>
    decreases coins.len(),
{
    if coins.len() == 0 {
        None
    } else {
        match coin_with_symbol(coins.drop_last(), symbol) {
            Some(id) => Some(id),
            None => if coins.last().symbol@ == symbol {
                Some(coins.last().id as int)
            } else {
                None
            },
        }
    }
}

/// Once a coin with the symbol is found, more coins change nothing.
pub proof fn lemma_coin_with_symbol_stays(coins: Seq<Coin>, n: int, symbol: Seq<char>)
    requires
        0 <= n <= coins.len(),
        coin_with_symbol(coins.take(n), symbol) is Some,
    ensures
        coin_with_symbol(coins, symbol) == coin_with_symbol(coins.take(n), symbol),
    decreases coins.len() - n,
{
    if n < coins.len() {
        assert(coins.take(n + 1).drop_last() =~= coins.take(n));
        lemma_coin_with_symbol_stays(coins, n + 1, symbol);
    } else {
        assert(coins.take(n) =~= coins);
    }
}

/// The greatest identifier among the coins, zero where there is none.
pub open spec fn greatest_coin_id(coins: Seq<Coin>) -> int
    decreases coins.len(),
{
    if coins.len() == 0 {
        0
    } else {
        let rest = greatest_coin_id(coins.drop_last());
        if coins.last().id > rest {
            coins.last().id as int
        } else {
            rest
        }
    }
}

/// No coin has an identifier above the greatest.
pub proof fn lemma_greatest_coin_id(coins: Seq<Coin>, k: int)
    requires
        0 <= k < coins.len(),
    ensures
        coins[k].id <= greatest_coin_id(coins),
        greatest_coin_id(coins) >= 0,
    decreases coins.len(),
{
    if k < coins.len() - 1 {
        lemma_greatest_coin_id(coins.drop_last(), k);
    } else if coins.len() > 1 {
        lemma_greatest_coin_id(coins.drop_last(), 0);
    }
}

/// One of the texts is `s`.
pub open spec fn names(symbols: Seq<String>, s: Seq<char>) -> bool {
    exists|m: int| 0 <= m < symbols.len() && (#[trigger] symbols[m])@ == s
}

/// Renaming or adding a coin changes no venue's listed symbols.
pub proof fn lemma_coin_upsert_keeps_listed(
    before: Tables,
    after: Tables,
    symbol: Seq<char>,
    name: Seq<char>,
    now: int,
)
    requires
        before.wf(),
        (exists|k: int| before.coin_at(k, symbol) && before.coin_renamed(after, k, name))
            || before.coin_added(after, symbol, name, now),
    ensures
        forall|e: int, s: Seq<char>| #[trigger] after.is_listed(e, s) == before.is_listed(e, s),
{
    assert forall|e: int, s: Seq<char>| #[trigger] after.is_listed(e, s) == before.is_listed(
        e,
        s,
    ) by {
        if before.is_listed(e, s) {
            let (i, k) = choose|i: int, k: int| before.listed_at(i, k, e, s);
            assert(after.coins[k].id == before.coins[k].id && after.coins[k].symbol@
                == before.coins[k].symbol@) by {
                if before.coin_added(after, symbol, name, now) {
                    assert(after.coins.subrange(0, before.coins.len() as int)[k]
                        == after.coins[k]);
                }
            }
            assert(after.listed_at(i, k, e, s));
        }
        if after.is_listed(e, s) {
            let (i, k) = choose|i: int, k: int| after.listed_at(i, k, e, s);
            if k < before.coins.len() {
                assert(after.coins[k].id == before.coins[k].id && after.coins[k].symbol@
                    == before.coins[k].symbol@) by {
                    if before.coin_added(after, symbol, name, now) {
                        assert(after.coins.subrange(0, before.coins.len() as int)[k]
                            == after.coins[k]);
                    }
                }
                assert(before.listed_at(i, k, e, s));
            } else {
                assert(before.has_coin_id(before.listings[i].coin_id as int));
                let w = choose|w: int|
                    0 <= w < before.coins.len() && (#[trigger] before.coins[w]).id
                        == before.listings[i].coin_id;
                lemma_greatest_coin_id(before.coins, w);
                assert(false);
            }
        }
    }
}

/// Writing the listing of a coin on a venue adds the coin's symbol to the
/// venue's listed symbols and changes nothing else.
pub proof fn lemma_listing_upsert_lists(
    before: Tables,
    after: Tables,
    exchange_id: int,
    k0: int,
    market_symbol: Seq<char>,
    base: Seq<char>,
    quote: Seq<char>,
)
    requires
        before.wf(),
        0 <= k0 < before.coins.len(),
        (exists|i: int|
            before.listing_at(i, exchange_id, before.coins[k0].id as int)
                && before.listing_rewritten(after, i, market_symbol, base, quote))
            || (!(exists|i: int| before.listing_at(i, exchange_id, before.coins[k0].id as int))
            && before.listing_added(
            after,
            exchange_id,
            before.coins[k0].id as int,
            market_symbol,
            base,
            quote,
        )),
    ensures
        forall|e: int, s: Seq<char>| #[trigger]
            after.is_listed(e, s) == (before.is_listed(e, s) || (e == exchange_id && s
                == before.coins[k0].symbol@)),
{
    let coin_id = before.coins[k0].id as int;
    let sym = before.coins[k0].symbol@;
    let added = !(exists|i: int| before.listing_at(i, exchange_id, coin_id));
    let i0 = if added {
        before.listings.len() as int
    } else {
        choose|i: int|
            before.listing_at(i, exchange_id, coin_id) && before.listing_rewritten(
                after,
                i,
                market_symbol,
                base,
                quote,
            )
    };
    assert(after.listing_at(i0, exchange_id, coin_id));
    assert(after.listings[i0].is_active);
    assert forall|j: int| 0 <= j < before.listings.len() && j != i0 implies after.listings[j]
        == before.listings[j] by {
        if added {
            assert(after.listings.subrange(0, before.listings.len() as int)[j]
                == after.listings[j]);
        }
    }
    assert forall|e: int, s: Seq<char>| #[trigger]
        after.is_listed(e, s) == (before.is_listed(e, s) || (e == exchange_id && s == sym)) by {
        if before.is_listed(e, s) {
            let (i, k) = choose|i: int, k: int| before.listed_at(i, k, e, s);
            if i != i0 {
                assert(after.listed_at(i, k, e, s));
            } else {
                assert(before.coins[k].id == before.coins[k0].id);
                assert(k == k0);
                assert(after.listed_at(i0, k0, e, s));
            }
        }
        if e == exchange_id && s == sym {
            assert(after.listed_at(i0, k0, e, s));
        }
        if after.is_listed(e, s) {
            let (i, k) = choose|i: int, k: int| after.listed_at(i, k, e, s);
            if i != i0 {
                assert(before.listed_at(i, k, e, s));
            } else {
                assert(before.coins[k].id == before.coins[k0].id);
                assert(k == k0);
            }
        }
    }
}

/// Switching off the stale listings of a venue leaves it with the listed
/// symbols that are among the given ones, and leaves the other venues alone.
pub proof fn lemma_deactivation_keeps_named(
    before: Tables,
    after: Tables,
    exchange_id: int,
    symbols: Seq<String>,
)
    requires
        before.wf(),
        before.stale_switched_off(after, before.listings.len() as int, exchange_id, symbols),
    ensures
        forall|e: int, s: Seq<char>| #[trigger]
            after.is_listed(e, s) == (before.is_listed(e, s) && (e != exchange_id || names(
                symbols,
                s,
            ))),
{
    assert forall|e: int, s: Seq<char>| #[trigger]
        after.is_listed(e, s) == (before.is_listed(e, s) && (e != exchange_id || names(
            symbols,
            s,
        ))) by {
        if after.is_listed(e, s) {
            let (i, k) = choose|i: int, k: int| after.listed_at(i, k, e, s);
            assert(after.listings[i].is_active);
            assert(before.listed_at(i, k, e, s));
            if e == exchange_id {
                assert(before.listing_named(i, symbols));
                let (k2, m) = choose|k2: int, m: int|
                    0 <= k2 < before.coins.len() && 0 <= m < symbols.len() && (
                    #[trigger] before.coins[k2]).id == before.listings[i].coin_id
                        && before.coins[k2].symbol@ == (#[trigger] symbols[m])@;
                assert(before.coins[k2].id == before.coins[k].id);
                assert(k2 == k);
                assert(symbols[m]@ == s);
            }
        }
        if before.is_listed(e, s) && (e != exchange_id || names(symbols, s)) {
            let (i, k) = choose|i: int, k: int| before.listed_at(i, k, e, s);
            if e == exchange_id {
                let m = choose|m: int| 0 <= m < symbols.len() && (#[trigger] symbols[m])@ == s;
                assert(before.coins[k].id == before.listings[i].coin_id && before.coins[k].symbol@
                    == symbols[m]@);
                assert(before.listing_named(i, symbols));
            }
            assert(after.listings[i].is_active);
            assert(after.listed_at(i, k, e, s));
        }
    }
}

/// How old a price row may be to count as recent: thirty minutes, in
/// milliseconds.
pub const FRESH_WINDOW_MS: i64 = 1800000;

/// The creation time `a` is before `b`; an absent time is before any other.
pub open spec fn created_before(a: Option<i64>, b: Option<i64>) -> bool {
    match (a, b) {
        (None, Some(_)) => true,
        (Some(x), Some(y)) => x < y,
        _ => false,
    }
}

/// The most recent fresh row is fresh, and no fresh row of the venue and the
/// coin is more recent; there is none only where no row is fresh.
pub proof fn lemma_latest_price(
    t: Tables,
    n: int,
    exchange_id: int,
    coin_id: int,
    cutoff: int,
    j: int,
)
    requires
        0 <= j < n <= t.prices.len(),
    ensures
        t.latest_price(n, exchange_id, coin_id, cutoff) is Some ==> {
            let i = t.latest_price(n, exchange_id, coin_id, cutoff).unwrap();
            &&& 0 <= i < n
            &&& t.fresh_price_at(i, exchange_id, coin_id, cutoff)
            &&& t.fresh_price_at(j, exchange_id, coin_id, cutoff) ==> t.prices[j].timestamp
                <= t.prices[i].timestamp
        },
        t.latest_price(n, exchange_id, coin_id, cutoff) is None ==> !t.fresh_price_at(
            j,
            exchange_id,
            coin_id,
            cutoff,
        ),
    decreases n,
{
    if n > 1 {
        if j < n - 1 {
            lemma_latest_price(t, n - 1, exchange_id, coin_id, cutoff, j);
        } else {
            lemma_latest_price(t, n - 1, exchange_id, coin_id, cutoff, 0);
        }
    } else {
        assert(t.latest_price(0, exchange_id, coin_id, cutoff) is None);
    }
}

/// Writing a price row twice under one key leaves one row with that key, and
/// it holds what was written last.
pub proof fn lemma_price_upsert_idempotent(
    before: Tables,
    between: Tables,
    after: Tables,
    first: PriceRow,
    second: PriceRow,
    now_first: int,
    now_second: int,
)
    requires
        before.wf(),
        first.exchange_id == second.exchange_id,
        first.coin_id == second.coin_id,
        first.timestamp == second.timestamp,
        before.price_upserted(between, first, now_first),
        between.price_upserted(after, second, now_second),
    ensures
        after.prices.len() == between.prices.len(),
        exists|i: int|
            {
                &&& after.price_at(i, second.exchange_id, second.coin_id, second.timestamp)
                &&& after.prices[i]@ == second
                &&& forall|j: int|
                    after.price_at(j, second.exchange_id, second.coin_id, second.timestamp) ==> j
                        == i
            },
{
    lemma_price_upsert_keeps_unique(before, between, first, now_first);
    lemma_price_upsert_keeps_unique(between, after, second, now_second);
    let w = if before.has_price(first) {
        choose|i: int|
            before.price_at(i, first.exchange_id, first.coin_id, first.timestamp)
                && before.price_rewritten(between, i, first)
    } else {
        before.prices.len() as int
    };
    assert(between.price_at(w, second.exchange_id, second.coin_id, second.timestamp));
    assert(between.has_price(second));
    let i = choose|i: int|
        between.price_at(i, second.exchange_id, second.coin_id, second.timestamp)
            && between.price_rewritten(after, i, second);
    assert(after.price_at(i, second.exchange_id, second.coin_id, second.timestamp));
    assert forall|j: int|
        after.price_at(j, second.exchange_id, second.coin_id, second.timestamp) implies j == i by {
        if j != i {
            assert(after.prices[i].exchange_id == after.prices[j].exchange_id);
        }
    }
}

/// An upsert of a price row keeps the key of price rows unique.
pub proof fn lemma_price_upsert_keeps_unique(
    before: Tables,
    after: Tables,
    row: PriceRow,
    now: int,
)
    requires
        before.unique_prices(),
        before.price_upserted(after, row, now),
    ensures
        after.unique_prices(),
{
    assert forall|a: int, b: int| 0 <= a < b < after.prices.len() implies !((
    #[trigger] after.prices[a]).exchange_id == (#[trigger] after.prices[b]).exchange_id
        && after.prices[a].coin_id == after.prices[b].coin_id && after.prices[a].timestamp
        == after.prices[b].timestamp) by {
        if before.has_price(row) {
            let i = choose|i: int|
                before.price_at(i, row.exchange_id, row.coin_id, row.timestamp)
                    && before.price_rewritten(after, i, row);
            assert(!(before.prices[a].exchange_id == before.prices[b].exchange_id
                && before.prices[a].coin_id == before.prices[b].coin_id
                && before.prices[a].timestamp == before.prices[b].timestamp));
        } else {
            if b < before.prices.len() {
                assert(after.prices.subrange(0, before.prices.len() as int)[a] == after.prices[a]);
                assert(after.prices.subrange(0, before.prices.len() as int)[b] == after.prices[b]);
                assert(!(before.prices[a].exchange_id == before.prices[b].exchange_id
                    && before.prices[a].coin_id == before.prices[b].coin_id
                    && before.prices[a].timestamp == before.prices[b].timestamp));
            } else {
                assert(after.prices.subrange(0, before.prices.len() as int)[a] == after.prices[a]);
                assert(!before.price_at(a, row.exchange_id, row.coin_id, row.timestamp));
            }
        }
    }
}

/// Whether a row with the timestamp is at most thirty minutes old at the
/// time `now`.
pub fn is_fresh(timestamp: i64, now: i64) -> (r: bool)
    ensures
        r == (timestamp >= now - FRESH_WINDOW_MS),
{
    if now >= i64::MIN + FRESH_WINDOW_MS {
        timestamp >= now - FRESH_WINDOW_MS
    } else {
        true
    }
}

/// Whether the creation time `a` is before `b`.
pub fn is_created_before(a: Option<i64>, b: Option<i64>) -> (r: bool)
    ensures
        r == created_before(a, b),
{
    match (a, b) {
        (None, Some(_)) => true,
        (Some(x), Some(y)) => x < y,
        _ => false,
    }
}

/// Row `i` of the rows has the key of `row`: its venue, coin and timestamp.
pub open spec fn same_key_at(rows: Seq<PriceRow>, i: int, row: PriceRow) -> bool {
    &&& 0 <= i < rows.len()
    &&& rows[i].exchange_id == row.exchange_id
    &&& rows[i].coin_id == row.coin_id
    &&& rows[i].timestamp == row.timestamp
}

/// Some row of the rows has the key of `row`.
pub open spec fn holds_key(rows: Seq<PriceRow>, row: PriceRow) -> bool {
    exists|i: int| same_key_at(rows, i, row)
}

/// The rows once `row` is written with upsert semantics: it replaces the row
/// with its key, or is added where there is none and the table is not full.
pub open spec fn with_price(rows: Seq<PriceRow>, row: PriceRow) -> Seq<PriceRow> {
    if holds_key(rows, row) {
        rows.update(choose|i: int| same_key_at(rows, i, row), row)
    } else if rows.len() < i32::MAX {
        rows.push(row)
    } else {
        rows
    }
}

/// The rows once the first `n` of `written` are written one after the other.
pub open spec fn with_prices(rows: Seq<PriceRow>, written: Seq<PriceRow>, n: int) -> Seq<PriceRow>
    decreases n,
{
    if n <= 0 {
        rows
    } else {
        with_price(with_prices(rows, written, n - 1), written[n - 1])
    }
}

/// The relation that an upsert establishes between the tables is the
/// function [`with_price`] on what the price rows hold.
pub proof fn lemma_price_upsert_rows(before: Tables, after: Tables, row: PriceRow, now: int)
    requires
        before.unique_prices(),
        before.price_upserted(after, row, now),
        before.has_price(row) || before.prices.len() < i32::MAX,
    ensures
        after.price_rows() == with_price(before.price_rows(), row),
{
    let rows = before.price_rows();
    assert forall|i: int| same_key_at(rows, i, row) == before.price_at(
        i,
        row.exchange_id,
        row.coin_id,
        row.timestamp,
    ) by {}
    if before.has_price(row) {
        let i = choose|i: int|
            before.price_at(i, row.exchange_id, row.coin_id, row.timestamp)
                && before.price_rewritten(after, i, row);
        assert(same_key_at(rows, i, row));
        let c = choose|c: int| same_key_at(rows, c, row);
        assert(before.price_at(c, row.exchange_id, row.coin_id, row.timestamp));
        if c != i {
            assert(before.prices[c].exchange_id == before.prices[i].exchange_id);
        }
        assert(after.price_rows() =~= rows.update(c, row));
    } else {
        assert(!holds_key(rows, row)) by {
            if holds_key(rows, row) {
                let c = choose|c: int| same_key_at(rows, c, row);
                assert(before.price_at(c, row.exchange_id, row.coin_id, row.timestamp));
            }
        }
        assert forall|j: int| 0 <= j < before.prices.len() implies after.prices[j]
            == before.prices[j] by {
            assert(after.prices.subrange(0, before.prices.len() as int)[j] == after.prices[j]);
        }
        assert(after.price_rows() =~= rows.push(row));
    }
}

/// The rows that an upsert of a listing affects, as the store counts them:
/// one for a new listing, two for one that changes, none for one that says
/// the same already.
pub open spec fn rows_affected(
    state: Option<(Seq<char>, Seq<char>, Seq<char>, bool)>,
    market_symbol: Seq<char>,
    base: Seq<char>,
    quote: Seq<char>,
) -> int {
    match state {
        None => 1,
        Some(content) => if content == (market_symbol, base, quote, true) {
            0
        } else {
            2
        },
    }
}

/// `after` is `before` once the coin with the symbol is renamed or added.
pub open spec fn coin_upserted(
    before: Tables,
    after: Tables,
    symbol: Seq<char>,
    name: Seq<char>,
    now: int,
) -> bool {
    (exists|k: int| before.coin_at(k, symbol) && before.coin_renamed(after, k, name)) || (!(
    exists|k: int| before.coin_at(k, symbol)) && before.coin_added(after, symbol, name, now))
}

/// `after` is `before` once the listing of the coin on the venue is
/// rewritten or added.
pub open spec fn listing_upserted(
    before: Tables,
    after: Tables,
    exchange_id: int,
    coin_id: int,
    market_symbol: Seq<char>,
    base: Seq<char>,
    quote: Seq<char>,
) -> bool {
    (exists|i: int|
        before.listing_at(i, exchange_id, coin_id) && before.listing_rewritten(
            after,
            i,
            market_symbol,
            base,
            quote,
        )) || (!(exists|i: int| before.listing_at(i, exchange_id, coin_id))
        && before.listing_added(after, exchange_id, coin_id, market_symbol, base, quote))
}

/// An upsert of a coin keeps every coin that was there at its place, with its
/// identifier, symbol and activity; a coin that it adds is active, has the
/// symbol, and an identifier one above the greatest.
pub proof fn lemma_coin_upsert_coins(
    before: Tables,
    after: Tables,
    symbol: Seq<char>,
    name: Seq<char>,
    now: int,
)
    requires
        before.wf(),
        coin_upserted(before, after, symbol, name, now),
    ensures
        before.coins.len() <= after.coins.len() <= before.coins.len() + 1,
        forall|k: int|
            0 <= k < before.coins.len() ==> (#[trigger] after.coins[k]).id == before.coins[k].id
                && after.coins[k].symbol@ == before.coins[k].symbol@ && after.coins[k].is_active
                == before.coins[k].is_active,
        after.coins.len() > before.coins.len() ==> after.coins.last().is_active
            && after.coins.last().symbol@ == symbol && after.coins.last().id == greatest_coin_id(
            before.coins,
        ) + 1 && !(exists|k: int| before.coin_at(k, symbol)),
        after.coins.len() == before.coins.len() ==> exists|k: int| before.coin_at(k, symbol),
        exists|k: int| after.coin_at(k, symbol),
        greatest_coin_id(after.coins) == greatest_coin_id(before.coins) + (after.coins.len()
            - before.coins.len()),
        forall|s: Seq<char>| #[trigger] after.has_inactive_coin(s) == before.has_inactive_coin(s),
{
    if exists|k: int| before.coin_at(k, symbol) && before.coin_renamed(after, k, name) {
        let k0 = choose|k: int| before.coin_at(k, symbol) && before.coin_renamed(after, k, name);
        assert(after.coin_at(k0, symbol));
        lemma_greatest_same_ids(before.coins, after.coins);
    } else {
        assert forall|k: int| 0 <= k < before.coins.len() implies (#[trigger] after.coins[k])
            == before.coins[k] by {
            assert(after.coins.subrange(0, before.coins.len() as int)[k] == after.coins[k]);
        }
        assert(after.coin_at(before.coins.len() as int, symbol));
        assert(after.coins.drop_last() =~= before.coins);
        if before.coins.len() > 0 {
            lemma_greatest_coin_id(before.coins, 0);
        }
    }
    assert forall|s: Seq<char>| #[trigger] after.has_inactive_coin(s) == before.has_inactive_coin(
        s,
    ) by {
        if before.has_inactive_coin(s) {
            let k = choose|k: int| before.coin_at(k, s) && !before.coins[k].is_active;
            assert(after.coin_at(k, s) && !after.coins[k].is_active);
        }
        if after.has_inactive_coin(s) {
            let k = choose|k: int| after.coin_at(k, s) && !after.coins[k].is_active;
            assert(k < before.coins.len());
            assert(before.coin_at(k, s) && !before.coins[k].is_active);
        }
    }
}

/// The greatest identifier is an identifier, or zero.
pub proof fn lemma_greatest_in_range(coins: Seq<Coin>)
    ensures
        0 <= greatest_coin_id(coins) <= i32::MAX,
    decreases coins.len(),
{
    if coins.len() > 0 {
        lemma_greatest_in_range(coins.drop_last());
    }
}

/// Coins with the same identifiers have the same greatest identifier.
pub proof fn lemma_greatest_same_ids(a: Seq<Coin>, b: Seq<Coin>)
    requires
        a.len() == b.len(),
        forall|k: int| 0 <= k < a.len() ==> (#[trigger] a[k]).id == b[k].id,
    ensures
        greatest_coin_id(a) == greatest_coin_id(b),
    decreases a.len(),
{
    if a.len() > 0 {
        assert(a.last().id == b.last().id);
        lemma_greatest_same_ids(a.drop_last(), b.drop_last());
    }
}

/// An upsert of a coin changes nothing about what any listing says, nor
/// about which listings are stale.
pub proof fn lemma_coin_upsert_keeps_listings(
    before: Tables,
    after: Tables,
    symbol: Seq<char>,
    name: Seq<char>,
    now: int,
    symbols: Seq<String>,
)
    requires
        before.wf(),
        coin_upserted(before, after, symbol, name, now),
    ensures
        forall|e: int, s: Seq<char>| #[trigger]
            after.listing_state(e, s) == before.listing_state(e, s),
        forall|e: int|
            after.stale_count(after.listings.len() as int, e, symbols) == #[trigger] before.stale_count(
                before.listings.len() as int,
                e,
                symbols,
            ),
{
    lemma_coin_upsert_coins(before, after, symbol, name, now);
    assert(after.listings == before.listings);
    // A listing never refers to the coin that was added.
    assert forall|a: int, k: int|
        0 <= a < after.listings.len() && 0 <= k < after.coins.len() && (
        #[trigger] after.coins[k]).id == (#[trigger] after.listings[a]).coin_id implies k
        < before.coins.len() by {
        if k >= before.coins.len() {
            assert(before.has_coin_id(before.listings[a].coin_id as int));
            let w = choose|w: int|
                0 <= w < before.coins.len() && (#[trigger] before.coins[w]).id
                    == before.listings[a].coin_id;
            lemma_greatest_coin_id(before.coins, w);
        }
    }
    assert forall|e: int, s: Seq<char>| #[trigger]
        after.listing_state(e, s) == before.listing_state(e, s) by {
        assert forall|a: int, k: int|
            after.listing_of_at(a, k, e, s) == before.listing_of_at(a, k, e, s) by {
            if after.listing_of_at(a, k, e, s) {
                assert(after.coins[k].id == after.listings[a].coin_id);
                assert(k < before.coins.len());
            }
            if before.listing_of_at(a, k, e, s) {
                assert(after.coins[k].id == before.coins[k].id);
            }
        }
        if exists|a: int, k: int| before.listing_of_at(a, k, e, s) {
            let pb = choose|a: int, k: int| before.listing_of_at(a, k, e, s);
            assert(after.listing_of_at(pb.0, pb.1, e, s));
            let pa = choose|a: int, k: int| after.listing_of_at(a, k, e, s);
            assert(before.listing_of_at(pa.0, pa.1, e, s));
            lemma_listing_of_unique(before, pa.0, pa.1, pb.0, pb.1, e, s);
        } else if exists|a: int, k: int| after.listing_of_at(a, k, e, s) {
            let pa = choose|a: int, k: int| after.listing_of_at(a, k, e, s);
            assert(before.listing_of_at(pa.0, pa.1, e, s));
        }
    }
    assert forall|e: int|
        after.stale_count(after.listings.len() as int, e, symbols) == #[trigger] before.stale_count(
            before.listings.len() as int,
            e,
            symbols,
        ) by {
        assert forall|a: int| 0 <= a < before.listings.len() implies after.listing_stale(
            a,
            e,
            symbols,
        ) == before.listing_stale(a, e, symbols) by {
            if before.listing_named(a, symbols) {
                let (k, m) = choose|k: int, m: int|
                    0 <= k < before.coins.len() && 0 <= m < symbols.len() && (
                    #[trigger] before.coins[k]).id == before.listings[a].coin_id
                        && before.coins[k].symbol@ == (#[trigger] symbols[m])@;
                assert(after.coins[k].id == after.listings[a].coin_id && after.coins[k].symbol@
                    == symbols[m]@);
            }
            if after.listing_named(a, symbols) {
                let (k, m) = choose|k: int, m: int|
                    0 <= k < after.coins.len() && 0 <= m < symbols.len() && (
                    #[trigger] after.coins[k]).id == after.listings[a].coin_id
                        && after.coins[k].symbol@ == (#[trigger] symbols[m])@;
                assert(k < before.coins.len());
                assert(before.coins[k].id == before.listings[a].coin_id && before.coins[k].symbol@
                    == symbols[m]@);
            }
        }
        lemma_stale_count_same(before, after, before.listings.len() as int, e, symbols);
    }
}

/// Tables whose first `n` listings are stale alike have the same count.
pub proof fn lemma_stale_count_same(
    a: Tables,
    b: Tables,
    n: int,
    exchange_id: int,
    symbols: Seq<String>,
)
    requires
        forall|i: int|
            0 <= i < n ==> a.listing_stale(i, exchange_id, symbols) == b.listing_stale(
                i,
                exchange_id,
                symbols,
            ),
    ensures
        a.stale_count(n, exchange_id, symbols) == b.stale_count(n, exchange_id, symbols),
    decreases n,
{
    if n > 0 {
        lemma_stale_count_same(a, b, n - 1, exchange_id, symbols);
    }
}

/// A coin has at most one listing on a venue.
pub proof fn lemma_listing_of_unique(
    t: Tables,
    a1: int,
    k1: int,
    a2: int,
    k2: int,
    exchange_id: int,
    symbol: Seq<char>,
)
    requires
        t.wf(),
        t.listing_of_at(a1, k1, exchange_id, symbol),
        t.listing_of_at(a2, k2, exchange_id, symbol),
    ensures
        a1 == a2,
        k1 == k2,
{
    assert(t.coins[k1].symbol@ == t.coins[k2].symbol@);
    if k1 != k2 {
        assert(false);
    }
    if a1 != a2 {
        assert(t.listings[a1].exchange_id == t.listings[a2].exchange_id);
        assert(false);
    }
}

/// An upsert of the listing of a coin on a venue sets what that listing
/// says and leaves every other listing as it was; the rows it affects follow
/// from what the listing said before; and where the coin has one of the
/// symbols, as many listings are stale as before.
pub proof fn lemma_listing_upsert_state(
    before: Tables,
    after: Tables,
    exchange_id: int,
    k0: int,
    market_symbol: Seq<char>,
    base: Seq<char>,
    quote: Seq<char>,
    symbols: Seq<String>,
)
    requires
        before.wf(),
        0 <= k0 < before.coins.len(),
        listing_upserted(
            before,
            after,
            exchange_id,
            before.coins[k0].id as int,
            market_symbol,
            base,
            quote,
        ),
    ensures
        after.listing_state(exchange_id, before.coins[k0].symbol@) == Some(
            (market_symbol, base, quote, true),
        ),
        forall|e: int, s: Seq<char>|
            !(e == exchange_id && s == before.coins[k0].symbol@) ==> #[trigger] after.listing_state(
                e,
                s,
            ) == before.listing_state(e, s),
        (exists|i: int| before.listing_at(i, exchange_id, before.coins[k0].id as int))
            == before.listing_state(exchange_id, before.coins[k0].symbol@) is Some,
        forall|i: int|
            before.listing_at(i, exchange_id, before.coins[k0].id as int) ==> before.listing_state(
                exchange_id,
                before.coins[k0].symbol@,
            ) == Some(before.listing_content(i)),
        names(symbols, before.coins[k0].symbol@) ==> after.stale_count(
            after.listings.len() as int,
            exchange_id,
            symbols,
        ) == before.stale_count(before.listings.len() as int, exchange_id, symbols),
{
    let coin_id = before.coins[k0].id as int;
    let sym = before.coins[k0].symbol@;
    let added = !(exists|i: int| before.listing_at(i, exchange_id, coin_id));
    let i0 = if added {
        before.listings.len() as int
    } else {
        choose|i: int|
            before.listing_at(i, exchange_id, coin_id) && before.listing_rewritten(
                after,
                i,
                market_symbol,
                base,
                quote,
            )
    };
    assert(after.coins == before.coins);
    assert(after.listing_at(i0, exchange_id, coin_id));
    assert forall|j: int| 0 <= j < before.listings.len() && j != i0 implies after.listings[j]
        == before.listings[j] by {
        if added {
            assert(after.listings.subrange(0, before.listings.len() as int)[j]
                == after.listings[j]);
        }
    }
    assert(after.wf()) by {
        assert forall|a: int, b: int| 0 <= a < b < after.listings.len() implies !((
        #[trigger] after.listings[a]).exchange_id == (#[trigger] after.listings[b]).exchange_id
            && after.listings[a].coin_id == after.listings[b].coin_id) by {
            if b < before.listings.len() {
                assert(!(before.listings[a].exchange_id == before.listings[b].exchange_id
                    && before.listings[a].coin_id == before.listings[b].coin_id));
            } else {
                assert(!before.listing_at(a, exchange_id, coin_id));
            }
        }
        assert forall|l: int| 0 <= l < after.listings.len() implies after.has_coin_id(
            (#[trigger] after.listings[l]).coin_id as int,
        ) by {
            if l < before.listings.len() {
                assert(before.has_coin_id(before.listings[l].coin_id as int));
                let w = choose|w: int|
                    0 <= w < before.coins.len() && (#[trigger] before.coins[w]).id
                        == before.listings[l].coin_id;
                assert(after.coins[w].id == after.listings[l].coin_id);
            } else {
                assert(after.coins[k0].id == after.listings[l].coin_id);
            }
        }
    }
    // The listing that was written.
    assert(after.listing_of_at(i0, k0, exchange_id, sym));
    let pa = choose|a: int, k: int| after.listing_of_at(a, k, exchange_id, sym);
    lemma_listing_of_unique(after, pa.0, pa.1, i0, k0, exchange_id, sym);
    // Every other listing.
    assert forall|e: int, s: Seq<char>| !(e == exchange_id && s == sym) implies #[trigger]
        after.listing_state(e, s) == before.listing_state(e, s) by {
        assert forall|a: int, k: int|
            after.listing_of_at(a, k, e, s) == before.listing_of_at(a, k, e, s) by {
            if after.listing_of_at(a, k, e, s) && a == i0 {
                assert(after.coins[k].id == after.coins[k0].id);
                assert(k == k0);
            }
            if before.listing_of_at(a, k, e, s) && a == i0 {
                assert(before.coins[k].id == before.coins[k0].id);
                assert(k == k0);
            }
        }
        if exists|a: int, k: int| before.listing_of_at(a, k, e, s) {
            let pb = choose|a: int, k: int| before.listing_of_at(a, k, e, s);
            assert(after.listing_of_at(pb.0, pb.1, e, s));
            let pc = choose|a: int, k: int| after.listing_of_at(a, k, e, s);
            assert(before.listing_of_at(pc.0, pc.1, e, s));
            lemma_listing_of_unique(before, pc.0, pc.1, pb.0, pb.1, e, s);
            assert(pc.0 != i0);
        } else if exists|a: int, k: int| after.listing_of_at(a, k, e, s) {
            let pc = choose|a: int, k: int| after.listing_of_at(a, k, e, s);
            assert(before.listing_of_at(pc.0, pc.1, e, s));
        }
    }
    // What the listing said before.
    if !added {
        assert(before.listing_of_at(i0, k0, exchange_id, sym));
        let pb = choose|a: int, k: int| before.listing_of_at(a, k, exchange_id, sym);
        lemma_listing_of_unique(before, pb.0, pb.1, i0, k0, exchange_id, sym);
        assert forall|i: int| before.listing_at(i, exchange_id, coin_id) implies i == i0 by {
            assert(before.listing_of_at(i, k0, exchange_id, sym));
            lemma_listing_of_unique(before, i, k0, i0, k0, exchange_id, sym);
        }
    } else {
        if exists|a: int, k: int| before.listing_of_at(a, k, exchange_id, sym) {
            let pb = choose|a: int, k: int| before.listing_of_at(a, k, exchange_id, sym);
            assert(before.coins[pb.1].symbol@ == before.coins[k0].symbol@);
            assert(pb.1 == k0);
            assert(before.listing_at(pb.0, exchange_id, coin_id));
        }
    }
    // Stale listings.
    if names(symbols, sym) {
        let m0 = choose|m: int| 0 <= m < symbols.len() && (#[trigger] symbols[m])@ == sym;
        assert forall|a: int| 0 <= a < before.listings.len() implies after.listing_stale(
            a,
            exchange_id,
            symbols,
        ) == before.listing_stale(a, exchange_id, symbols) by {
            if a == i0 {
                assert(before.coins[k0].id == before.listings[a].coin_id && before.coins[k0].symbol@
                    == symbols[m0]@);
                assert(before.listing_named(a, symbols));
                assert(after.coins[k0].id == after.listings[a].coin_id && after.coins[k0].symbol@
                    == symbols[m0]@);
                assert(after.listing_named(a, symbols));
            } else {
                assert(after.listings[a] == before.listings[a]);
                assert(after.listing_named(a, symbols) == before.listing_named(a, symbols));
            }
        }
        lemma_stale_count_same(
            before,
            after,
            before.listings.len() as int,
            exchange_id,
            symbols,
        );
        if added {
            assert(after.coins[k0].id == after.listings[i0].coin_id && after.coins[k0].symbol@
                == symbols[m0]@);
            assert(after.listing_named(i0, symbols));
            assert(!after.listing_stale(i0, exchange_id, symbols));
        }
    }
}

/// The row of the rows that has the key of `row`, if there is one.
pub open spec fn row_with_key(rows: Seq<PriceRow>, row: PriceRow) -> Option<PriceRow> {
    if holds_key(rows, row) {
        Some(rows[choose|i: int| same_key_at(rows, i, row)])
    } else {
        None
    }
}

/// The two rows have the same key.
pub open spec fn same_key(a: PriceRow, b: PriceRow) -> bool {
    a.exchange_id == b.exchange_id && a.coin_id == b.coin_id && a.timestamp == b.timestamp
}

/// No two of the rows have the same key.
pub open spec fn keys_differ(rows: Seq<PriceRow>) -> bool {
    forall|i: int, j: int|
        0 <= i < j < rows.len() ==> !same_key(#[trigger] rows[i], #[trigger] rows[j])
}

/// A write puts its row under the row's key and leaves the rows of every
/// other key as they were, where the table has room for the row.
pub proof fn lemma_with_price_reads(rows: Seq<PriceRow>, row: PriceRow, asked: PriceRow)
    requires
        keys_differ(rows),
        holds_key(rows, row) || rows.len() < i32::MAX,
    ensures
        keys_differ(with_price(rows, row)),
        rows.len() <= with_price(rows, row).len() <= rows.len() + 1,
        row_with_key(with_price(rows, row), asked) == (if same_key(asked, row) {
            Some(row)
        } else {
            row_with_key(rows, asked)
        }),
{
    let out = with_price(rows, row);
    let at = if holds_key(rows, row) {
        choose|i: int| same_key_at(rows, i, row)
    } else {
        rows.len() as int
    };
    assert(same_key_at(out, at, row));
    assert(out[at] == row);
    assert forall|j: int| 0 <= j < rows.len() && j != at implies out[j] == rows[j] by {}
    assert(keys_differ(out)) by {
        assert forall|i: int, j: int| 0 <= i < j < out.len() implies !same_key(
            #[trigger] out[i],
            #[trigger] out[j],
        ) by {
            if i != at && j != at {
                assert(!same_key(rows[i], rows[j]));
            } else if holds_key(rows, row) {
                assert(!same_key(rows[i], rows[j]));
            } else {
                assert(!same_key_at(rows, i, row));
            }
        }
    }
    if same_key(asked, row) {
        assert(same_key_at(out, at, asked));
        let c = choose|c: int| same_key_at(out, c, asked);
        if c < at {
            assert(!same_key(out[c], out[at]));
        } else if at < c {
            assert(!same_key(out[at], out[c]));
        }
    } else {
        assert forall|j: int| same_key_at(out, j, asked) == same_key_at(rows, j, asked) by {}
        if holds_key(rows, asked) {
            let c = choose|c: int| same_key_at(rows, c, asked);
            assert(same_key_at(out, c, asked));
            let d = choose|d: int| same_key_at(out, d, asked);
            assert(same_key_at(rows, d, asked));
            if c < d {
                assert(!same_key(rows[c], rows[d]));
            } else if d < c {
                assert(!same_key(rows[d], rows[c]));
            }
        } else if holds_key(out, asked) {
            let d = choose|d: int| same_key_at(out, d, asked);
            assert(same_key_at(rows, d, asked));
        }
    }
}

/// The last of the first `n` written rows that has the key of `asked`.
pub open spec fn last_written(written: Seq<PriceRow>, n: int, asked: PriceRow) -> Option<PriceRow>
    decreases n,
{
    if n <= 0 {
        None
    } else if same_key(asked, written[n - 1]) {
        Some(written[n - 1])
    } else {
        last_written(written, n - 1, asked)
    }
}

/// After a run of writes, a key holds the row that was written to it last,
/// and a key that was not written to holds what it held; the run adds at
/// most one row per write. This holds where the table has room for the rows.
pub proof fn lemma_last_write_wins(
    rows: Seq<PriceRow>,
    written: Seq<PriceRow>,
    n: int,
    asked: PriceRow,
)
    requires
        keys_differ(rows),
        0 <= n <= written.len(),
        rows.len() + n < i32::MAX,
    ensures
        keys_differ(with_prices(rows, written, n)),
        rows.len() <= with_prices(rows, written, n).len() <= rows.len() + n,
        row_with_key(with_prices(rows, written, n), asked) == (match last_written(
            written,
            n,
            asked,
        ) {
            Some(row) => Some(row),
            None => row_with_key(rows, asked),
        }),
    decreases n,
{
    if n > 0 {
        lemma_last_write_wins(rows, written, n - 1, asked);
        lemma_with_price_reads(with_prices(rows, written, n - 1), written[n - 1], asked);
    }
}

/// No row was written to a key to which none of the written rows goes.
pub proof fn lemma_never_written(written: Seq<PriceRow>, n: int, asked: PriceRow)
    requires
        0 <= n <= written.len(),
        forall|j: int| 0 <= j < n ==> !same_key(asked, #[trigger] written[j]),
    ensures
        last_written(written, n, asked) is None,
    decreases n,
{
    if n > 0 {
        lemma_never_written(written, n - 1, asked);
    }
}

/// Rows that are written to keys of their own, none of which the table
/// holds, are all added: the table gains one row for each of them. This
/// holds where the table has room for the rows.
pub proof fn lemma_fresh_writes_add_rows(rows: Seq<PriceRow>, written: Seq<PriceRow>, n: int)
    requires
        keys_differ(rows),
        0 <= n <= written.len(),
        rows.len() + n < i32::MAX,
        forall|j: int| 0 <= j < n ==> !holds_key(rows, #[trigger] written[j]),
        forall|j: int, k: int|
            0 <= j < k < n ==> !same_key(#[trigger] written[j], #[trigger] written[k]),
    ensures
        with_prices(rows, written, n).len() == rows.len() + n,
        keys_differ(with_prices(rows, written, n)),
    decreases n,
{
    if n > 0 {
        lemma_fresh_writes_add_rows(rows, written, n - 1);
        let earlier = with_prices(rows, written, n - 1);
        let row = written[n - 1];
        lemma_last_write_wins(rows, written, n - 1, row);
        assert forall|j: int| 0 <= j < n - 1 implies !same_key(row, #[trigger] written[j]) by {
            assert(!same_key(written[j], written[n - 1]));
        }
        lemma_never_written(written, n - 1, row);
        assert(!holds_key(rows, row));
        assert(row_with_key(earlier, row) is None);
        assert(!holds_key(earlier, row));
        lemma_with_price_reads(earlier, row, row);
        assert(with_price(earlier, row) == earlier.push(row));
    } else {
    }
}

/// The rows of a store that respects its keys have different keys.
pub proof fn lemma_price_rows_keys_differ(t: Tables)
    requires
        t.unique_prices(),
    ensures
        keys_differ(t.price_rows()),
{
    let rows = t.price_rows();
    assert forall|i: int, j: int| 0 <= i < j < rows.len() implies !same_key(
        #[trigger] rows[i],
        #[trigger] rows[j],
    ) by {
        assert(!(t.prices[i].exchange_id == t.prices[j].exchange_id && t.prices[i].coin_id
            == t.prices[j].coin_id && t.prices[i].timestamp == t.prices[j].timestamp));
    }
}

/// An in-memory relational store.
#[derive(Debug)]
pub struct Store {
    exchanges: Vec<Exchange>,
    coins: Vec<Coin>,
    listings: Vec<CoinListing>,
    prices: Vec<PriceData>,
    rates: Vec<ExchangeRate>,
    kimchi: Vec<KimchiHistoryPoint>,
}

impl View for Store {
    type V = Tables;

    closed spec fn view(&self) -> Tables {
        Tables {
            exchanges: self.exchanges@,
            coins: self.coins@,
            listings: self.listings@,
            prices: self.prices@,
            rates: self.rates@,
            kimchi: self.kimchi@,
        }
    }
}

impl Store {
    /// A store with the given venues and nothing else, or `None` where two
    /// of the venues share an identifier or a name.
    pub fn new(exchanges: Vec<Exchange>) -> (r: Option<Store>)
        ensures
            r is Some <==> (Tables {
                exchanges: exchanges@,
                coins: Seq::empty(),
                listings: Seq::empty(),
                prices: Seq::empty(),
                rates: Seq::empty(),
                kimchi: Seq::empty(),
            }).unique_exchanges(),
            r is Some ==> r.unwrap()@ == (Tables {
                exchanges: exchanges@,
                coins: Seq::empty(),
                listings: Seq::empty(),
                prices: Seq::empty(),
                rates: Seq::empty(),
                kimchi: Seq::empty(),
            }),
            r is Some ==> r.unwrap()@.wf(),
    {
        let n = exchanges.len();
        let mut j: usize = 0;
        while j < n
            invariant
                j <= n,
                n == exchanges@.len(),
                forall|a: int, b: int|
                    0 <= a < b < j ==> (#[trigger] exchanges@[a]).id != (#[trigger] exchanges@[b]).id
                        && exchanges@[a].name@ != exchanges@[b].name@,
            decreases n - j,
        {
            let mut i: usize = 0;
            while i < j
                invariant
                    i <= j < n,
                    n == exchanges@.len(),
                    forall|a: int|
                        0 <= a < i ==> (#[trigger] exchanges@[a]).id != exchanges@[j as int].id
                            && exchanges@[a].name@ != exchanges@[j as int].name@,
                decreases j - i,
            {
                if exchanges[i].id == exchanges[j].id || same_text(
                    exchanges[i].name.as_str(),
                    exchanges[j].name.as_str(),
                ) {
                    proof {
                        let t = Tables {
                            exchanges: exchanges@,
                            coins: Seq::empty(),
                            listings: Seq::empty(),
                            prices: Seq::empty(),
                            rates: Seq::empty(),
                            kimchi: Seq::empty(),
                        };
                        assert(t.exchanges[i as int].id == t.exchanges[j as int].id
                            || t.exchanges[i as int].name@ == t.exchanges[j as int].name@);
                    }
                    return None;
                }
                i += 1;
            }
            j += 1;
        }
        Some(
            Store {
                exchanges,
                coins: Vec::new(),
                listings: Vec::new(),
                prices: Vec::new(),
                rates: Vec::new(),
                kimchi: Vec::new(),
            },
        )
    }

    /// The identifier of the venue with the name.
    pub fn get_exchange_id_by_name(&self, name: &str) -> (r: Option<i32>)
        requires
            self@.wf(),
        ensures
            r is Some <==> self@.exchange_id(name@) is Some,
            r is Some ==> r.unwrap() == self@.exchange_id(name@).unwrap(),
    {
        let mut i: usize = 0;
        while i < self.exchanges.len()
            invariant
                self@.wf(),
                i <= self.exchanges@.len(),
                forall|a: int| 0 <= a < i ==> !self@.exchange_at(a, name@),
            decreases self.exchanges@.len() - i,
        {
            if same_text(self.exchanges[i].name.as_str(), name) {
                proof {
                    assert(self@.exchange_at(i as int, name@));
                    let c = choose|c: int| self@.exchange_at(c, name@);
                    assert(self@.exchanges[c].name@ == self@.exchanges[i as int].name@);
                    assert(c == i);
                }
                return Some(self.exchanges[i].id);
            }
            i += 1;
        }
        None
    }

    /// The identifier of the active coin with the symbol.
    pub fn get_coin_id(&self, symbol: &str) -> (r: Option<i32>)
        requires
            self@.wf(),
        ensures
            r is Some <==> self@.coin_id(symbol@) is Some,
            r is Some ==> r.unwrap() == self@.coin_id(symbol@).unwrap(),
    {
        let mut i: usize = 0;
        while i < self.coins.len()
            invariant
                self@.wf(),
                i <= self.coins@.len(),
                forall|a: int| 0 <= a < i ==> !self@.active_coin_at(a, symbol@),
            decreases self.coins@.len() - i,
        {
            if self.coins[i].is_active && same_text(self.coins[i].symbol.as_str(), symbol) {
                proof {
                    assert(self@.active_coin_at(i as int, symbol@));
                    let c = choose|c: int| self@.active_coin_at(c, symbol@);
                    assert(self@.coins[c].symbol@ == self@.coins[i as int].symbol@);
                    assert(c == i);
                }
                return Some(self.coins[i].id);
            }
            i += 1;
        }
        None
    }
    /// Inserts a coin with the symbol and the name, active and with the next
    /// identifier; where a coin has the symbol already, only its name is
    /// replaced. Fails, and changes nothing, where no identifier is left.
    pub fn upsert_coin(&mut self, symbol: &str, name: &str, now: i64) -> (r: Result<(), AppError>)
        requires
            old(self)@.wf(),
        ensures
            final(self)@.wf(),
            r is Err <==> !(exists|k: int| old(self)@.coin_at(k, symbol@)) && greatest_coin_id(
                old(self)@.coins,
            ) >= i32::MAX,
            r is Err ==> final(self)@ == old(self)@ && r.unwrap_err() is Database,
            r is Ok && (exists|k: int| old(self)@.coin_at(k, symbol@)) ==> exists|k: int|
                old(self)@.coin_at(k, symbol@) && old(self)@.coin_renamed(final(self)@, k, name@),
            r is Ok && !(exists|k: int| old(self)@.coin_at(k, symbol@)) ==> old(self)@.coin_added(
                final(self)@,
                symbol@,
                name@,
                now as int,
            ),
    {
        let n = self.coins.len();
        let mut greatest: i32 = 0;
        let mut i: usize = 0;
        assert(self.coins@.subrange(0, 0) =~= Seq::<Coin>::empty());
        while i < n
            invariant
                i <= n,
                n == self.coins@.len(),
                *self == *old(self),
                self@.wf(),
                greatest == greatest_coin_id(self.coins@.subrange(0, i as int)),
                forall|a: int| 0 <= a < i ==> !self@.coin_at(a, symbol@),
            decreases n - i,
        {
            proof {
                let upto = self.coins@.subrange(0, i + 1);
                assert(upto.drop_last() =~= self.coins@.subrange(0, i as int));
                assert(upto.last() == self.coins@[i as int]);
            }
            if same_text(self.coins[i].symbol.as_str(), symbol) {
                let renamed = Coin {
                    id: self.coins[i].id,
                    symbol: self.coins[i].symbol.clone(),
                    name: name.to_owned(),
                    is_active: self.coins[i].is_active,
                    created_at: self.coins[i].created_at,
                };
                let ghost before = self@;
                self.coins.set(i, renamed);
                proof {
                    assert(before.coin_at(i as int, symbol@));
                    assert(before.coin_renamed(self@, i as int, name@));
                    assert(self@.unique_coins()) by {
                        assert forall|a: int, b: int| 0 <= a < b < self@.coins.len() implies (
                        #[trigger] self@.coins[a]).id != (#[trigger] self@.coins[b]).id
                            && self@.coins[a].symbol@ != self@.coins[b].symbol@ by {
                            assert(before.coins[a].id != before.coins[b].id);
                            assert(before.coins[a].symbol@ != before.coins[b].symbol@);
                        }
                    }
                    assert(self@.listings_have_coins()) by {
                        assert forall|l: int| 0 <= l < self@.listings.len() implies self@.has_coin_id(
                            (#[trigger] self@.listings[l]).coin_id as int,
                        ) by {
                            assert(before.has_coin_id(before.listings[l].coin_id as int));
                            let w = choose|w: int|
                                0 <= w < before.coins.len() && (#[trigger] before.coins[w]).id
                                    == before.listings[l].coin_id;
                            assert(self@.coins[w].id == before.listings[l].coin_id);
                        }
                    }
                }
                return Ok(());
            }
            if self.coins[i].id > greatest {
                greatest = self.coins[i].id;
            }
            i += 1;
        }
        assert(self.coins@.subrange(0, n as int) =~= self.coins@);
        if greatest >= i32::MAX {
            return Err(AppError::Database("coin identifier out of range".to_owned()));
        }
        let ghost before = self@;
        let added = Coin {
            id: greatest + 1,
            symbol: symbol.to_owned(),
            name: name.to_owned(),
            is_active: true,
            created_at: now,
        };
        self.coins.push(added);
        proof {
            assert(self@.coins.subrange(0, before.coins.len() as int) =~= before.coins);
            assert(before.coin_added(self@, symbol@, name@, now as int));
            assert(self@.unique_coins()) by {
                assert forall|a: int, b: int| 0 <= a < b < self@.coins.len() implies (
                #[trigger] self@.coins[a]).id != (#[trigger] self@.coins[b]).id
                    && self@.coins[a].symbol@ != self@.coins[b].symbol@ by {
                    if b < before.coins.len() {
                        assert(before.coins[a].id != before.coins[b].id);
                    } else {
                        lemma_greatest_coin_id(before.coins, a);
                        assert(!before.coin_at(a, symbol@));
                    }
                }
            }
            assert(self@.listings_have_coins()) by {
                assert forall|l: int| 0 <= l < self@.listings.len() implies self@.has_coin_id(
                    (#[trigger] self@.listings[l]).coin_id as int,
                ) by {
                    assert(before.has_coin_id(before.listings[l].coin_id as int));
                    let w = choose|w: int|
                        0 <= w < before.coins.len() && (#[trigger] before.coins[w]).id
                            == before.listings[l].coin_id;
                    assert(self@.coins[w].id == before.listings[l].coin_id);
                }
            }
        }
        Ok(())
    }
    /// Whether some coin has the identifier.
    fn coin_exists(&self, coin_id: i32) -> (r: bool)
        ensures
            r == self@.has_coin_id(coin_id as int),
    {
        let mut k: usize = 0;
        while k < self.coins.len()
            invariant
                k <= self.coins@.len(),
                forall|a: int| 0 <= a < k ==> (#[trigger] self@.coins[a]).id != coin_id,
            decreases self.coins@.len() - k,
        {
            if self.coins[k].id == coin_id {
                assert(self@.coins[k as int].id == coin_id);
                return true;
            }
            k += 1;
        }
        false
    }

    /// Writes the listing of the coin on the venue: a listing that exists is
    /// rewritten and made active, one that does not is added as active.
    /// Returns the number of rows affected as the store counts them: 1 for a
    /// new listing, 2 for one that changed, 0 for one that already said the
    /// same. Fails, and changes nothing, where no coin has the identifier.
    pub fn upsert_listing(
        &mut self,
        exchange_id: i32,
        coin_id: i32,
        market_symbol: &str,
        base: &str,
        quote: &str,
    ) -> (r: Result<u64, AppError>)
        requires
            old(self)@.wf(),
        ensures
            final(self)@.wf(),
            r is Err <==> !old(self)@.has_coin_id(coin_id as int),
            r is Err ==> final(self)@ == old(self)@ && r.unwrap_err() is Database,
            r is Ok && (exists|i: int| old(self)@.listing_at(i, exchange_id as int, coin_id as int))
                ==> exists|i: int|
                old(self)@.listing_at(i, exchange_id as int, coin_id as int)
                    && old(self)@.listing_rewritten(final(self)@, i, market_symbol@, base@, quote@)
                    && r.unwrap() == (if old(self)@.listing_says(
                    i,
                    market_symbol@,
                    base@,
                    quote@,
                ) {
                    0u64
                } else {
                    2u64
                }),
            r is Ok && !(exists|i: int|
                old(self)@.listing_at(i, exchange_id as int, coin_id as int)) ==> r.unwrap() == 1
                && old(self)@.listing_added(
                final(self)@,
                exchange_id as int,
                coin_id as int,
                market_symbol@,
                base@,
                quote@,
            ),
    {
        if !self.coin_exists(coin_id) {
            return Err(AppError::Database("listing refers to no coin".to_owned()));
        }
        let ghost before = self@;
        let n = self.listings.len();
        let mut i: usize = 0;
        while i < n
            invariant
                i <= n,
                n == self.listings@.len(),
                *self == *old(self),
                before == self@,
                self@.wf(),
                self@.has_coin_id(coin_id as int),
                forall|a: int|
                    0 <= a < i ==> !self@.listing_at(a, exchange_id as int, coin_id as int),
            decreases n - i,
        {
            if self.listings[i].exchange_id == exchange_id && self.listings[i].coin_id == coin_id {
                let same = self.listings[i].is_active && same_text(
                    self.listings[i].market_symbol.as_str(),
                    market_symbol,
                ) && same_text(self.listings[i].base.as_str(), base) && same_text(
                    self.listings[i].quote.as_str(),
                    quote,
                );
                let rewritten = CoinListing {
                    exchange_id,
                    coin_id,
                    market_symbol: market_symbol.to_owned(),
                    base: base.to_owned(),
                    quote: quote.to_owned(),
                    is_active: true,
                };
                self.listings.set(i, rewritten);
                proof {
                    assert(before.listing_at(i as int, exchange_id as int, coin_id as int));
                    assert(before.listing_rewritten(self@, i as int, market_symbol@, base@, quote@));
                    assert(self@.unique_listings()) by {
                        assert forall|a: int, b: int|
                            0 <= a < b < self@.listings.len() implies !((
                        #[trigger] self@.listings[a]).exchange_id == (
                        #[trigger] self@.listings[b]).exchange_id && self@.listings[a].coin_id
                            == self@.listings[b].coin_id) by {
                            assert(!(before.listings[a].exchange_id == before.listings[b].exchange_id
                                && before.listings[a].coin_id == before.listings[b].coin_id));
                        }
                    }
                    assert(self@.listings_have_coins()) by {
                        assert forall|l: int| 0 <= l < self@.listings.len() implies self@.has_coin_id(
                            (#[trigger] self@.listings[l]).coin_id as int,
                        ) by {
                            assert(before.has_coin_id(before.listings[l].coin_id as int));
                        }
                    }
                }
                return Ok(if same { 0 } else { 2 });
            }
            i += 1;
        }
        let added = CoinListing {
            exchange_id,
            coin_id,
            market_symbol: market_symbol.to_owned(),
            base: base.to_owned(),
            quote: quote.to_owned(),
            is_active: true,
        };
        self.listings.push(added);
        proof {
            assert(self@.listings.subrange(0, before.listings.len() as int) =~= before.listings);
            assert(self@.unique_listings()) by {
                assert forall|a: int, b: int| 0 <= a < b < self@.listings.len() implies !((
                #[trigger] self@.listings[a]).exchange_id == (
                #[trigger] self@.listings[b]).exchange_id && self@.listings[a].coin_id
                    == self@.listings[b].coin_id) by {
                    if b < before.listings.len() {
                        assert(!(before.listings[a].exchange_id == before.listings[b].exchange_id
                            && before.listings[a].coin_id == before.listings[b].coin_id));
                    } else {
                        assert(!before.listing_at(a, exchange_id as int, coin_id as int));
                    }
                }
            }
            assert(self@.listings_have_coins()) by {
                assert forall|l: int| 0 <= l < self@.listings.len() implies self@.has_coin_id(
                    (#[trigger] self@.listings[l]).coin_id as int,
                ) by {
                    assert(self@.coins == before.coins);
                    if l < before.listings.len() {
                        assert(self@.listings[l] == before.listings[l]);
                        assert(before.has_coin_id(before.listings[l].coin_id as int));
                    } else {
                        assert(self@.listings[l].coin_id == coin_id);
                        assert(before.has_coin_id(coin_id as int));
                    }
                }
            }
            assert(before.wf());
            assert(self@.exchanges == before.exchanges);
            assert(self@.prices == before.prices);
            assert(self@.unique_exchanges());
            assert(self@.unique_coins());
            assert(self@.unique_prices());
        }
        Ok(1)
    }

    /// Whether the coin of listing `i` has one of the symbols.
    fn listing_is_named(&self, i: usize, symbols: &Vec<String>) -> (r: bool)
        requires
            self@.wf(),
            i < self@.listings.len(),
        ensures
            r == self@.listing_named(i as int, symbols@),
    {
        let coin_id = self.listings[i].coin_id;
        let mut k: usize = 0;
        while k < self.coins.len()
            invariant
                self@.wf(),
                i < self@.listings.len(),
                coin_id == self@.listings[i as int].coin_id,
                k <= self.coins@.len(),
                forall|a: int| 0 <= a < k ==> (#[trigger] self@.coins[a]).id != coin_id,
            decreases self.coins@.len() - k,
        {
            if self.coins[k].id == coin_id {
                let found = crate::text::contains_text(symbols, self.coins[k].symbol.as_str());
                proof {
                    if found {
                        let m = choose|m: int|
                            0 <= m < symbols@.len() && (#[trigger] symbols@[m])@
                                == self@.coins[k as int].symbol@;
                        assert(self@.coins[k as int].id == coin_id && self@.coins[k as int].symbol@
                            == symbols@[m]@);
                    } else if self@.listing_named(i as int, symbols@) {
                        let (k2, m) = choose|k2: int, m: int|
                            0 <= k2 < self@.coins.len() && 0 <= m < symbols@.len() && (
                            #[trigger] self@.coins[k2]).id == self@.listings[i as int].coin_id
                                && self@.coins[k2].symbol@ == (#[trigger] symbols@[m])@;
                        assert(self@.coins[k2].id == self@.coins[k as int].id);
                        assert(k2 == k);
                    }
                }
                return found;
            }
            k += 1;
        }
        false
    }

    /// Switches off the venue's active listings whose coin has none of the
    /// symbols, and returns how many it switched off. With no symbols at all
    /// it does nothing: an empty upstream never empties a venue.
    pub fn deactivate_listings_except(&mut self, exchange_id: i32, symbols: &Vec<String>) -> (r:
        u64)
        requires
            old(self)@.wf(),
        ensures
            final(self)@.wf(),
            symbols@.len() == 0 ==> final(self)@ == old(self)@ && r == 0,
            symbols@.len() > 0 ==> old(self)@.stale_switched_off(
                final(self)@,
                old(self)@.listings.len() as int,
                exchange_id as int,
                symbols@,
            ) && r == old(self)@.stale_count(
                old(self)@.listings.len() as int,
                exchange_id as int,
                symbols@,
            ),
    {
        if symbols.len() == 0 {
            return 0;
        }
        let ghost before = self@;
        let n = self.listings.len();
        let mut count: u64 = 0;
        let mut i: usize = 0;
        while i < n
            invariant
                i <= n,
                n == before.listings.len(),
                before == old(self)@,
                before.wf(),
                self@.wf(),
                count <= i,
                count == before.stale_count(i as int, exchange_id as int, symbols@),
                before.stale_switched_off(self@, i as int, exchange_id as int, symbols@),
            decreases n - i,
        {
            let ghost earlier = self@;
            let stale = self.listings[i].exchange_id == exchange_id && self.listings[i].is_active
                && !self.listing_is_named(i, symbols);
            proof {
                assert(earlier.listings[i as int].coin_id == before.listings[i as int].coin_id);
                assert(earlier.listing_named(i as int, symbols@) == before.listing_named(
                    i as int,
                    symbols@,
                ));
                assert(stale == before.listing_stale(i as int, exchange_id as int, symbols@));
            }
            if stale {
                let off = CoinListing {
                    exchange_id: self.listings[i].exchange_id,
                    coin_id: self.listings[i].coin_id,
                    market_symbol: self.listings[i].market_symbol.clone(),
                    base: self.listings[i].base.clone(),
                    quote: self.listings[i].quote.clone(),
                    is_active: false,
                };
                self.listings.set(i, off);
                count += 1;
            }
            proof {
                assert(before.stale_switched_off(
                    self@,
                    i + 1,
                    exchange_id as int,
                    symbols@,
                )) by {
                    assert forall|j: int| 0 <= j < before.listings.len() implies {
                        &&& (#[trigger] self@.listings[j]).exchange_id
                            == before.listings[j].exchange_id
                        &&& self@.listings[j].coin_id == before.listings[j].coin_id
                        &&& self@.listings[j].market_symbol@ == before.listings[j].market_symbol@
                        &&& self@.listings[j].base@ == before.listings[j].base@
                        &&& self@.listings[j].quote@ == before.listings[j].quote@
                        &&& self@.listings[j].is_active == (before.listings[j].is_active && !(j < i
                            + 1 && before.listing_stale(j, exchange_id as int, symbols@)))
                        &&& !(j < i + 1 && before.listing_stale(j, exchange_id as int, symbols@))
                            ==> self@.listings[j] == before.listings[j]
                    } by {
                        assert(earlier.listings[j].exchange_id == before.listings[j].exchange_id);
                    }
                }
                assert(self@.unique_listings()) by {
                    assert forall|a: int, b: int| 0 <= a < b < self@.listings.len() implies !((
                    #[trigger] self@.listings[a]).exchange_id == (
                    #[trigger] self@.listings[b]).exchange_id && self@.listings[a].coin_id
                        == self@.listings[b].coin_id) by {
                        assert(!(before.listings[a].exchange_id == before.listings[b].exchange_id
                            && before.listings[a].coin_id == before.listings[b].coin_id));
                    }
                }
                assert(self@.listings_have_coins()) by {
                    assert forall|l: int| 0 <= l < self@.listings.len() implies self@.has_coin_id(
                        (#[trigger] self@.listings[l]).coin_id as int,
                    ) by {
                        assert(before.has_coin_id(before.listings[l].coin_id as int));
                    }
                }
            }
            i += 1;
        }
        count
    }
    /// The position of the coin with the identifier.
    fn coin_position(&self, coin_id: i32) -> (r: Option<usize>)
        ensures
            r is Some ==> r.unwrap() < self@.coins.len() && self@.coins[r.unwrap() as int].id
                == coin_id,
            r is None ==> !self@.has_coin_id(coin_id as int),
    {
        let mut k: usize = 0;
        while k < self.coins.len()
            invariant
                k <= self.coins@.len(),
                forall|a: int| 0 <= a < k ==> (#[trigger] self@.coins[a]).id != coin_id,
            decreases self.coins@.len() - k,
        {
            if self.coins[k].id == coin_id {
                return Some(k);
            }
            k += 1;
        }
        None
    }

    /// The symbols with an active listing on the venue, each once.
    pub fn get_listed_symbols(&self, exchange_id: i32) -> (r: Vec<String>)
        requires
            self@.wf(),
        ensures
            forall|s: Seq<char>| names(r@, s) <==> self@.is_listed(exchange_id as int, s),
            forall|a: int, b: int| 0 <= a < b < r@.len() ==> r@[a]@ != r@[b]@,
    {
        let mut out: Vec<String> = Vec::new();
        let ghost mut src: Seq<int> = Seq::empty();
        let ghost mut cks: Seq<int> = Seq::empty();
        let n = self.listings.len();
        let mut i: usize = 0;
        while i < n
            invariant
                self@.wf(),
                i <= n,
                n == self@.listings.len(),
                src.len() == out@.len(),
                cks.len() == out@.len(),
                forall|j: int|
                    0 <= j < out@.len() ==> src[j] < i && self@.listed_at(
                        #[trigger] src[j],
                        cks[j],
                        exchange_id as int,
                        out@[j]@,
                    ),
                forall|a: int, b: int| 0 <= a < b < out@.len() ==> src[a] < src[b],
                forall|a: int, k: int, s: Seq<char>|
                    a < i && #[trigger] self@.listed_at(a, k, exchange_id as int, s) ==> names(
                        out@,
                        s,
                    ),
            decreases n - i,
        {
            let ghost earlier = out@;
            if self.listings[i].exchange_id == exchange_id && self.listings[i].is_active {
                match self.coin_position(self.listings[i].coin_id) {
                    Some(k) => {
                        out.push(self.coins[k].symbol.clone());
                        proof {
                            src = src.push(i as int);
                            cks = cks.push(k as int);
                            assert forall|a: int, k2: int, s: Seq<char>|
                                a < i + 1 && #[trigger] self@.listed_at(
                                    a,
                                    k2,
                                    exchange_id as int,
                                    s,
                                ) implies names(out@, s) by {
                                if a < i {
                                    assert(names(earlier, s));
                                    let m = choose|m: int|
                                        0 <= m < earlier.len() && (#[trigger] earlier[m])@ == s;
                                    assert(out@[m]@ == s);
                                } else {
                                    assert(self@.coins[k2].id == self@.coins[k as int].id);
                                    assert(k2 == k);
                                    assert(out@[out@.len() - 1]@ == s);
                                }
                            }
                        }
                    },
                    None => {
                        proof {
                            assert(self@.has_coin_id(self@.listings[i as int].coin_id as int));
                        }
                    },
                }
            }
            i += 1;
        }
        proof {
            assert forall|s: Seq<char>| names(out@, s) <==> self@.is_listed(
                exchange_id as int,
                s,
            ) by {
                if names(out@, s) {
                    let m = choose|m: int| 0 <= m < out@.len() && (#[trigger] out@[m])@ == s;
                    assert(self@.listed_at(src[m], cks[m], exchange_id as int, s));
                }
                if self@.is_listed(exchange_id as int, s) {
                    let (a, k) = choose|a: int, k: int|
                        self@.listed_at(a, k, exchange_id as int, s);
                    assert(self@.listed_at(a, k, exchange_id as int, s));
                }
            }
            assert forall|a: int, b: int| 0 <= a < b < out@.len() implies out@[a]@ != out@[b]@ by {
                assert(self@.listed_at(src[a], cks[a], exchange_id as int, out@[a]@));
                assert(self@.listed_at(src[b], cks[b], exchange_id as int, out@[b]@));
                if out@[a]@ == out@[b]@ {
                    assert(self@.coins[cks[a]].symbol@ == self@.coins[cks[b]].symbol@);
                    assert(cks[a] == cks[b]);
                    assert(self@.listings[src[a]].coin_id == self@.listings[src[b]].coin_id);
                    assert(false);
                }
            }
        }
        out
    }

    /// The identifier of the coin with the symbol, where that coin has an
    /// active listing on the venue.
    pub fn get_coin_id_for_exchange(&self, exchange_id: i32, symbol: &str) -> (r: Option<i32>)
        requires
            self@.wf(),
        ensures
            r is Some <==> self@.is_listed(exchange_id as int, symbol@),
            r is Some ==> Some(r.unwrap() as int) == self@.listed_coin_id(
                exchange_id as int,
                symbol@,
            ),
    {
        let mut k: usize = 0;
        while k < self.coins.len()
            invariant
                self@.wf(),
                k <= self.coins@.len(),
                forall|a: int| 0 <= a < k ==> !self@.coin_at(a, symbol@),
            decreases self.coins@.len() - k,
        {
            if same_text(self.coins[k].symbol.as_str(), symbol) {
                let coin_id = self.coins[k].id;
                let mut i: usize = 0;
                while i < self.listings.len()
                    invariant
                        self@.wf(),
                        k < self.coins@.len(),
                        self@.coins[k as int].symbol@ == symbol@,
                        coin_id == self@.coins[k as int].id,
                        i <= self.listings@.len(),
                        forall|a: int|
                            0 <= a < i ==> !self@.listed_at(
                                a,
                                k as int,
                                exchange_id as int,
                                symbol@,
                            ),
                    decreases self.listings@.len() - i,
                {
                    if self.listings[i].exchange_id == exchange_id && self.listings[i].is_active
                        && self.listings[i].coin_id == coin_id {
                        assert(self@.listed_at(i as int, k as int, exchange_id as int, symbol@));
                        assert(self@.coin_at(k as int, symbol@));
                        proof {
                            let c = choose|c: int| self@.coin_at(c, symbol@);
                            assert(self@.coins[c].symbol@ == self@.coins[k as int].symbol@);
                            assert(c == k);
                        }
                        return Some(coin_id);
                    }
                    i += 1;
                }
                proof {
                    if self@.is_listed(exchange_id as int, symbol@) {
                        let (a, k2) = choose|a: int, k2: int|
                            self@.listed_at(a, k2, exchange_id as int, symbol@);
                        assert(self@.coins[k2].symbol@ == self@.coins[k as int].symbol@);
                        assert(k2 == k);
                        assert(false);
                    }
                }
                return None;
            }
            k += 1;
        }
        proof {
            if self@.is_listed(exchange_id as int, symbol@) {
                let (a, k2) = choose|a: int, k2: int|
                    self@.listed_at(a, k2, exchange_id as int, symbol@);
                assert(self@.coin_at(k2, symbol@));
                assert(false);
            }
        }
        None
    }
    /// Writes a price row with upsert semantics: where a row has its venue,
    /// coin and timestamp, the price, the volume and the change of that row
    /// are replaced; otherwise the row is added. Fails, and changes nothing,
    /// where no identifier is left for a new row.
    pub fn upsert_price(&mut self, row: NewPriceData, now: i64) -> (r: Result<(), AppError>)
        requires
            old(self)@.wf(),
        ensures
            final(self)@.wf(),
            r is Err <==> !old(self)@.has_price(row@) && old(self)@.prices.len() >= i32::MAX,
            r is Err ==> final(self)@ == old(self)@ && r.unwrap_err() is Database,
            r is Ok ==> old(self)@.price_upserted(final(self)@, row@, now as int),
            final(self)@.price_rows() == with_price(old(self)@.price_rows(), row@),
    {
        let ghost before = self@;
        let n = self.prices.len();
        let mut i: usize = 0;
        while i < n
            invariant
                i <= n,
                n == self.prices@.len(),
                *self == *old(self),
                before == self@,
                self@.wf(),
                forall|a: int|
                    0 <= a < i ==> !self@.price_at(
                        a,
                        row.exchange_id as int,
                        row.coin_id as int,
                        row.timestamp as int,
                    ),
            decreases n - i,
        {
            if self.prices[i].exchange_id == row.exchange_id && self.prices[i].coin_id
                == row.coin_id && self.prices[i].timestamp == row.timestamp {
                let ghost written = row@;
                let rewritten = PriceData {
                    id: self.prices[i].id,
                    exchange_id: row.exchange_id,
                    coin_id: row.coin_id,
                    price: row.price,
                    volume_24h: row.volume_24h,
                    price_change_24h: row.price_change_24h,
                    timestamp: row.timestamp,
                    created_at: self.prices[i].created_at,
                };
                self.prices.set(i, rewritten);
                proof {
                    assert(before.price_at(
                        i as int,
                        written.exchange_id,
                        written.coin_id,
                        written.timestamp,
                    ));
                    assert(before.price_rewritten(self@, i as int, written));
                    assert(before.price_upserted(self@, written, now as int));
                    lemma_price_upsert_keeps_unique(before, self@, written, now as int);
                    lemma_price_upsert_rows(before, self@, written, now as int);
                    assert(self@.exchanges == before.exchanges);
                    assert(self@.coins == before.coins);
                    assert(self@.listings == before.listings);
                }
                return Ok(());
            }
            i += 1;
        }
        if n >= i32::MAX as usize {
            proof {
                let rows = before.price_rows();
                if holds_key(rows, row@) {
                    let c = choose|c: int| same_key_at(rows, c, row@);
                    assert(before.price_at(c, row@.exchange_id, row@.coin_id, row@.timestamp));
                }
            }
            return Err(AppError::Database("price identifier out of range".to_owned()));
        }
        let ghost written = row@;
        let added = PriceData {
            id: (n + 1) as i32,
            exchange_id: row.exchange_id,
            coin_id: row.coin_id,
            price: row.price,
            volume_24h: row.volume_24h,
            price_change_24h: row.price_change_24h,
            timestamp: row.timestamp,
            created_at: now,
        };
        self.prices.push(added);
        proof {
            assert(self@.prices.subrange(0, before.prices.len() as int) =~= before.prices);
            assert(!before.has_price(written));
            assert(before.price_added(self@, written, now as int));
            lemma_price_upsert_keeps_unique(before, self@, written, now as int);
            lemma_price_upsert_rows(before, self@, written, now as int);
            assert(self@.exchanges == before.exchanges);
            assert(self@.coins == before.coins);
            assert(self@.listings == before.listings);
        }
        Ok(())
    }

    /// The position of the most recent price row of the venue and the coin
    /// that is no older than thirty minutes at the time `now`.
    fn latest_price_position(&self, exchange_id: i32, coin_id: i32, now: i64) -> (r: Option<usize>)
        ensures
            r is Some <==> self@.latest_price(
                self@.prices.len() as int,
                exchange_id as int,
                coin_id as int,
                now - FRESH_WINDOW_MS,
            ) is Some,
            r is Some ==> r.unwrap() == self@.latest_price(
                self@.prices.len() as int,
                exchange_id as int,
                coin_id as int,
                now - FRESH_WINDOW_MS,
            ).unwrap() && r.unwrap() < self@.prices.len(),
    {
        let mut best: Option<usize> = None;
        let n = self.prices.len();
        let mut i: usize = 0;
        while i < n
            invariant
                i <= n,
                n == self@.prices.len(),
                best is Some <==> self@.latest_price(
                    i as int,
                    exchange_id as int,
                    coin_id as int,
                    now - FRESH_WINDOW_MS,
                ) is Some,
                best is Some ==> best.unwrap() == self@.latest_price(
                    i as int,
                    exchange_id as int,
                    coin_id as int,
                    now - FRESH_WINDOW_MS,
                ).unwrap() && best.unwrap() < i,
            decreases n - i,
        {
            let fresh = self.prices[i].exchange_id == exchange_id && self.prices[i].coin_id
                == coin_id && is_fresh(self.prices[i].timestamp, now);
            if fresh {
                let newer = match best {
                    Some(b) => self.prices[b].timestamp < self.prices[i].timestamp,
                    None => true,
                };
                if newer {
                    best = Some(i);
                }
            }
            i += 1;
        }
        best
    }

    /// For each venue, its most recent price and volume of the coin with the
    /// symbol, from the price rows that are at most thirty minutes old at the
    /// time `now`. A venue without such a row is left out.
    pub fn latest_price_volume_per_exchange(&self, symbol: &str, now: i64) -> (r: Vec<
        (String, Decimal, Option<Decimal>),
    >)
        requires
            self@.wf(),
        ensures
            r@.len() == self@.quotes_of(symbol@, now as int).len(),
            forall|j: int|
                0 <= j < r@.len() ==> {
                    let q = #[trigger] self@.quotes_of(symbol@, now as int)[j];
                    &&& 0 <= q.0 < self@.exchanges.len()
                    &&& 0 <= q.1 < self@.prices.len()
                    &&& r@[j].0@ == self@.exchanges[q.0].name@
                    &&& r@[j].1@ == self@.prices[q.1].price@
                    &&& opt_dec(r@[j].2) == opt_dec(self@.prices[q.1].volume_24h)
                },
    {
        let mut out: Vec<(String, Decimal, Option<Decimal>)> = Vec::new();
        let mut k: usize = 0;
        assert(self@.coins.take(0) =~= Seq::<Coin>::empty());
        while k < self.coins.len()
            invariant
                self@.wf(),
                out@.len() == 0,
                k <= self.coins@.len(),
                coin_with_symbol(self@.coins.take(k as int), symbol@) is None,
            decreases self.coins@.len() - k,
        {
            proof {
                assert(self@.coins.take(k + 1).drop_last() =~= self@.coins.take(k as int));
            }
            if same_text(self.coins[k].symbol.as_str(), symbol) {
                let coin_id = self.coins[k].id;
                proof {
                    assert(coin_with_symbol(self@.coins.take(k + 1), symbol@) == Some(
                        coin_id as int,
                    ));
                    lemma_coin_with_symbol_stays(self@.coins, k + 1, symbol@);
                }
                let m = self.exchanges.len();
                let mut e: usize = 0;
                let ghost cutoff = now - FRESH_WINDOW_MS;
                while e < m
                    invariant
                        e <= m,
                        m == self@.exchanges.len(),
                        cutoff == now - FRESH_WINDOW_MS,
                        out@.len() == self@.latest_quotes(e as int, coin_id as int, cutoff).len(),
                        forall|j: int|
                            0 <= j < out@.len() ==> {
                                let q = #[trigger] self@.latest_quotes(
                                    e as int,
                                    coin_id as int,
                                    cutoff,
                                )[j];
                                &&& 0 <= q.0 < self@.exchanges.len()
                                &&& 0 <= q.1 < self@.prices.len()
                                &&& out@[j].0@ == self@.exchanges[q.0].name@
                                &&& out@[j].1@ == self@.prices[q.1].price@
                                &&& opt_dec(out@[j].2) == opt_dec(self@.prices[q.1].volume_24h)
                            },
                    decreases m - e,
                {
                    let ghost earlier = self@.latest_quotes(e as int, coin_id as int, cutoff);
                    let ghost earlier_out = out@;
                    match self.latest_price_position(self.exchanges[e].id, coin_id, now) {
                        Some(i) => {
                            let volume = match &self.prices[i].volume_24h {
                                Some(v) => Some(v.clone()),
                                None => None,
                            };
                            out.push(
                                (self.exchanges[e].name.clone(), self.prices[i].price.clone(), volume),
                            );
                            proof {
                                let later = self@.latest_quotes(e + 1, coin_id as int, cutoff);
                                assert(later == earlier.push((e as int, i as int)));
                                assert forall|j: int| 0 <= j < out@.len() implies {
                                    let q = #[trigger] later[j];
                                    &&& 0 <= q.0 < self@.exchanges.len()
                                    &&& 0 <= q.1 < self@.prices.len()
                                    &&& out@[j].0@ == self@.exchanges[q.0].name@
                                    &&& out@[j].1@ == self@.prices[q.1].price@
                                    &&& opt_dec(out@[j].2) == opt_dec(
                                        self@.prices[q.1].volume_24h,
                                    )
                                } by {
                                    if j < earlier_out.len() {
                                        assert(later[j] == earlier[j]);
                                        assert(out@[j] == earlier_out[j]);
                                    }
                                }
                            }
                        },
                        None => {},
                    }
                    e += 1;
                }
                return out;
            }
            k += 1;
        }
        assert(self@.coins.take(k as int) =~= self@.coins);
        out
    }

    /// Appends a rate, created at the time `now`. Fails, and changes nothing,
    /// where no identifier is left.
    pub fn insert_rate(&mut self, rate: NewExchangeRate, now: i64) -> (r: Result<(), AppError>)
        requires
            old(self)@.wf(),
        ensures
            final(self)@.wf(),
            r is Err <==> old(self)@.rates.len() >= i32::MAX,
            r is Err ==> final(self)@ == old(self)@ && r.unwrap_err() is DatabaseError,
            r is Ok ==> old(self)@.rate_added(final(self)@, rate@, now as int),
    {
        let n = self.rates.len();
        if n >= i32::MAX as usize {
            return Err(AppError::DatabaseError("rate identifier out of range".to_owned()));
        }
        let ghost before = self@;
        let ghost written = rate@;
        let added = ExchangeRate {
            id: (n + 1) as i32,
            currency_code: rate.currency_code,
            rate: rate.rate,
            ttb_rate: rate.ttb_rate,
            tts_rate: rate.tts_rate,
            created_at: Some(now),
        };
        self.rates.push(added);
        proof {
            assert(self@.rates.subrange(0, before.rates.len() as int) =~= before.rates);
            assert(self@.exchanges == before.exchanges);
            assert(self@.coins == before.coins);
            assert(self@.listings == before.listings);
            assert(self@.prices == before.prices);
        }
        Ok(())
    }

    /// The latest persisted rate of the currency.
    pub fn latest_fx_rate(&self, currency: &str) -> (r: Option<Decimal>)
        ensures
            r is Some <==> self@.latest_rate(self@.rates.len() as int, currency@) is Some,
            r is Some ==> r.unwrap()@ == self@.rates[self@.latest_rate(
                self@.rates.len() as int,
                currency@,
            ).unwrap()].rate@,
    {
        let mut best: Option<usize> = None;
        let n = self.rates.len();
        let mut i: usize = 0;
        while i < n
            invariant
                i <= n,
                n == self@.rates.len(),
                best is Some <==> self@.latest_rate(i as int, currency@) is Some,
                best is Some ==> best.unwrap() == self@.latest_rate(i as int, currency@).unwrap()
                    && best.unwrap() < i,
            decreases n - i,
        {
            if same_text(self.rates[i].currency_code.as_str(), currency) {
                let older = match best {
                    Some(b) => is_created_before(self.rates[i].created_at, self.rates[b].created_at),
                    None => false,
                };
                if !older {
                    best = Some(i);
                }
            }
            i += 1;
        }
        match best {
            Some(b) => Some(self.rates[b].rate.clone()),
            None => None,
        }
    }
    /// Appends a point to the premium history.
    pub fn insert_kimchi(&mut self, point: KimchiHistoryPoint)
        requires
            old(self)@.wf(),
        ensures
            final(self)@.wf(),
            old(self)@.same_but_kimchi(final(self)@),
            final(self)@.kimchi == old(self)@.kimchi.push(point),
    {
        let ghost before = self@;
        self.kimchi.push(point);
        proof {
            assert(self@.exchanges == before.exchanges);
            assert(self@.coins == before.coins);
            assert(self@.listings == before.listings);
            assert(self@.prices == before.prices);
        }
    }

    /// The history points of the symbol between the two venues that are at
    /// most `minutes` old at the time `now`, the earlier first.
    pub fn query_kimchi(
        &self,
        symbol: &str,
        from_exchange: &str,
        to_exchange: &str,
        minutes: i64,
        now: i64,
    ) -> (r: Vec<KimchiHistoryPoint>)
        ensures
            exists|picked: Seq<int>| #[trigger]
                self@.kimchi_read(
                    r@,
                    picked,
                    symbol@,
                    from_exchange@,
                    to_exchange@,
                    now - minutes * 60000,
                ),
    {
        let cutoff: i128 = now as i128 - (minutes as i128) * 60000;
        let mut found: Vec<KimchiHistoryPoint> = Vec::new();
        let ghost mut src: Seq<int> = Seq::empty();
        let n = self.kimchi.len();
        let mut i: usize = 0;
        while i < n
            invariant
                i <= n,
                n == self@.kimchi.len(),
                cutoff == now - minutes * 60000,
                src.len() == found@.len(),
                forall|j: int|
                    0 <= j < src.len() ==> 0 <= #[trigger] src[j] < i && self@.kimchi_match(
                        src[j],
                        symbol@,
                        from_exchange@,
                        to_exchange@,
                        cutoff as int,
                    ) && found@[j]@ == self@.kimchi[src[j]]@,
                forall|a: int, b: int|
                    #![trigger src[a], src[b]]
                    0 <= a < b < src.len() ==> src[a] < src[b],
                forall|k: int|
                    0 <= k < i && #[trigger] self@.kimchi_match(
                        k,
                        symbol@,
                        from_exchange@,
                        to_exchange@,
                        cutoff as int,
                    ) ==> occurs(src, k),
            decreases n - i,
        {
            let p = &self.kimchi[i];
            if (p.ts as i128) >= cutoff && same_text(p.symbol.as_str(), symbol) && same_text(
                p.from_exchange.as_str(),
                from_exchange,
            ) && same_text(p.to_exchange.as_str(), to_exchange) {
                let ghost earlier = src;
                found.push(p.copy());
                proof {
                    src = src.push(i as int);
                    assert forall|k: int|
                        0 <= k < i + 1 && #[trigger] self@.kimchi_match(
                            k,
                            symbol@,
                            from_exchange@,
                            to_exchange@,
                            cutoff as int,
                        ) implies occurs(src, k) by {
                        if k < i {
                            assert(occurs(earlier, k));
                            let w = choose|w: int| 0 <= w < earlier.len() && #[trigger] earlier[w] == k;
                            assert(src[w] == k);
                        } else {
                            assert(src[src.len() - 1] == k);
                        }
                    }
                }
            }
            i += 1;
        }
        let ghost unsorted = found@;
        let sorted = stable_sort(found);
        proof {
            let order = choose|order: Seq<int>| sorts_stably(unsorted, sorted@, order);
            let picked = Seq::new(sorted@.len(), |i: int| src[order[i]]);
            lemma_injection_is_onto(order, unsorted.len() as int);
            assert forall|i: int| 0 <= i < sorted@.len() implies sorted@[i]@
                == self@.kimchi[#[trigger] picked[i]]@ by {
                assert(sorted@[i] == unsorted[order[i]]);
            }
            assert forall|i: int, j: int|
                #![trigger picked[i], picked[j]]
                0 <= i < j < picked.len() implies self@.kimchi[picked[i]].ts
                < self@.kimchi[picked[j]].ts || (self@.kimchi[picked[i]].ts
                == self@.kimchi[picked[j]].ts && picked[i] < picked[j]) by {
                assert(sorted@[i] == unsorted[order[i]]);
                assert(sorted@[j] == unsorted[order[j]]);
                assert(sorted@[i]@ == self@.kimchi[picked[i]]@);
                assert(sorted@[j]@ == self@.kimchi[picked[j]]@);
                assert(order[i] != order[j]);
                assert(sorted@[i].precedes(&sorted@[j]) || (!sorted@[j].precedes(&sorted@[i])
                    && order[i] < order[j]));
                if !sorted@[i].precedes(&sorted@[j]) {
                    assert(src[order[i]] < src[order[j]]);
                }
            }
            assert forall|k: int|
                0 <= k < self@.kimchi.len() && #[trigger] self@.kimchi_match(
                    k,
                    symbol@,
                    from_exchange@,
                    to_exchange@,
                    cutoff as int,
                ) implies occurs(picked, k) by {
                assert(occurs(src, k));
                let w = choose|w: int| 0 <= w < src.len() && #[trigger] src[w] == k;
                assert(occurs(order, w));
                let i = choose|i: int| 0 <= i < order.len() && #[trigger] order[i] == w;
                assert(picked[i] == k);
            }
            assert(self@.kimchi_answer(
                picked,
                symbol@,
                from_exchange@,
                to_exchange@,
                now - minutes * 60000,
            ));
            assert(self@.kimchi_read(
                sorted@,
                picked,
                symbol@,
                from_exchange@,
                to_exchange@,
                now - minutes * 60000,
            ));
        }
        sorted
    }
    /// The symbols that have an active listing on both venues, in the order
    /// of texts, and with a limit only the first `limit` of them. Fails on a
    /// negative limit.
    pub fn common_symbols(&self, from_exchange: &str, to_exchange: &str, limit: Option<i64>) -> (r:
        Result<Vec<String>, AppError>)
        requires
            self@.wf(),
        ensures
            r is Err <==> limit is Some && limit.unwrap() < 0,
            r is Err ==> r.unwrap_err() is Database && r.unwrap_err().detail()
                == "negative limit"@,
            r is Ok ==> self@.common_answer(r.unwrap()@, from_exchange@, to_exchange@, limit),
    {
        match limit {
            Some(l) => {
                if l < 0 {
                    return Err(AppError::Database("negative limit".to_owned()));
                }
            },
            None => {},
        }
        let from_id = match self.get_exchange_id_by_name(from_exchange) {
            Some(id) => id,
            None => {
                return Ok(Vec::new());
            },
        };
        let to_id = match self.get_exchange_id_by_name(to_exchange) {
            Some(id) => id,
            None => {
                return Ok(Vec::new());
            },
        };
        let listed = self.get_listed_symbols(from_id);
        let mut common: Vec<String> = Vec::new();
        let ghost mut src: Seq<int> = Seq::empty();
        let n = listed.len();
        let mut i: usize = 0;
        while i < n
            invariant
                self@.wf(),
                i <= n,
                n == listed@.len(),
                self@.exchange_id(from_exchange@) == Some(from_id as int),
                self@.exchange_id(to_exchange@) == Some(to_id as int),
                forall|s: Seq<char>| names(listed@, s) <==> self@.is_listed(from_id as int, s),
                forall|a: int, b: int| 0 <= a < b < listed@.len() ==> listed@[a]@ != listed@[b]@,
                src.len() == common@.len(),
                forall|j: int|
                    0 <= j < src.len() ==> 0 <= #[trigger] src[j] < i && common@[j]@
                        == listed@[src[j]]@ && self@.is_listed(to_id as int, common@[j]@),
                forall|a: int, b: int|
                    #![trigger src[a], src[b]]
                    0 <= a < b < src.len() ==> src[a] < src[b],
                forall|k: int|
                    0 <= k < i && self@.is_listed(to_id as int, (#[trigger] listed@[k])@)
                        ==> occurs(src, k),
            decreases n - i,
        {
            if self.get_coin_id_for_exchange(to_id, listed[i].as_str()).is_some() {
                let ghost earlier = src;
                let ghost earlier_common = common@;
                common.push(listed[i].clone());
                proof {
                    src = src.push(i as int);
                    assert forall|j: int| 0 <= j < src.len() implies 0 <= #[trigger] src[j] < i + 1
                        && common@[j]@ == listed@[src[j]]@ && self@.is_listed(
                        to_id as int,
                        common@[j]@,
                    ) by {
                        if j < earlier.len() {
                            assert(src[j] == earlier[j]);
                            assert(common@[j] == earlier_common[j]);
                        }
                    }
                    assert forall|k: int|
                        0 <= k < i + 1 && self@.is_listed(
                            to_id as int,
                            (#[trigger] listed@[k])@,
                        ) implies occurs(src, k) by {
                        if k < i {
                            assert(occurs(earlier, k));
                            let w = choose|w: int|
                                0 <= w < earlier.len() && #[trigger] earlier[w] == k;
                            assert(src[w] == k);
                        } else {
                            assert(src[src.len() - 1] == k);
                        }
                    }
                }
            }
            i += 1;
        }
        let ghost unsorted = common@;
        let mut sorted = stable_sort(common);
        let ghost whole = sorted@;
        let ghost order = choose|order: Seq<int>| sorts_stably(unsorted, whole, order);
        proof {
            lemma_injection_is_onto(order, unsorted.len() as int);
            assert forall|a: int, b: int|
                #![trigger whole[a], whole[b]]
                0 <= a < b < whole.len() implies text_less(whole[a]@, whole[b]@) by {
                assert(whole[a] == unsorted[order[a]]);
                assert(whole[b] == unsorted[order[b]]);
                assert(order[a] != order[b]);
                assert(src[order[a]] != src[order[b]]);
                assert(whole[a]@ != whole[b]@);
                assert(whole[a].precedes(&whole[b]) || !whole[b].precedes(&whole[a]));
                lemma_text_order_total(whole[a]@, whole[b]@);
            }
            assert forall|a: int| 0 <= a < whole.len() implies self@.is_common(
                from_exchange@,
                to_exchange@,
                (#[trigger] whole[a])@,
            ) by {
                assert(whole[a] == unsorted[order[a]]);
                let j = order[a];
                assert(unsorted[j]@ == listed@[src[j]]@);
                assert(names(listed@, unsorted[j]@));
            }
            assert forall|s: Seq<char>| #[trigger]
                self@.is_common(from_exchange@, to_exchange@, s) implies names(whole, s) by {
                assert(names(listed@, s));
                let k = choose|k: int| 0 <= k < listed@.len() && (#[trigger] listed@[k])@ == s;
                assert(occurs(src, k));
                let w = choose|w: int| 0 <= w < src.len() && #[trigger] src[w] == k;
                assert(occurs(order, w));
                let a = choose|a: int| 0 <= a < order.len() && #[trigger] order[a] == w;
                assert(whole[a] == unsorted[w]);
                assert(whole[a]@ == s);
            }
        }
        match limit {
            Some(l) => {
                if (l as i128) < (sorted.len() as i128) {
                    sorted.truncate(l as usize);
                    proof {
                        assert forall|s: Seq<char>| #[trigger]
                            self@.is_common(from_exchange@, to_exchange@, s) && !names(
                                sorted@,
                                s,
                            ) implies forall|i: int|
                            0 <= i < sorted@.len() ==> text_less((#[trigger] sorted@[i])@, s) by {
                            assert(names(whole, s));
                            let a = choose|a: int| 0 <= a < whole.len() && (#[trigger] whole[a])@ == s;
                            if a < l {
                                assert(sorted@[a]@ == s);
                            }
                            assert forall|i: int| 0 <= i < sorted@.len() implies text_less(
                                (#[trigger] sorted@[i])@,
                                s,
                            ) by {
                                assert(sorted@[i] == whole[i]);
                                assert(text_less(whole[i]@, whole[a]@));
                            }
                        }
                        assert forall|a: int, b: int|
                            #![trigger sorted@[a], sorted@[b]]
                            0 <= a < b < sorted@.len() implies text_less(
                            sorted@[a]@,
                            sorted@[b]@,
                        ) by {
                            assert(sorted@[a] == whole[a] && sorted@[b] == whole[b]);
                        }
                        assert forall|a: int| 0 <= a < sorted@.len() implies self@.is_common(
                            from_exchange@,
                            to_exchange@,
                            (#[trigger] sorted@[a])@,
                        ) by {
                            assert(sorted@[a] == whole[a]);
                        }
                    }
                }
            },
            None => {},
        }
        Ok(sorted)
    }
    /// The venues, in the order in which they were given.
    pub fn exchanges(&self) -> (rows: Vec<Exchange>)
        ensures
            rows@ == self@.exchanges,
    {
        let mut rows: Vec<Exchange> = Vec::new();
        let mut i: usize = 0;
        while i < self.exchanges.len()
            invariant
                i <= self.exchanges@.len(),
                rows@ == self@.exchanges.take(i as int),
            decreases self.exchanges@.len() - i,
        {
            rows.push(self.exchanges[i].copy());
            assert(self@.exchanges.take(i + 1) =~= self@.exchanges.take(i as int).push(
                self@.exchanges[i as int],
            ));
            i += 1;
        }
        assert(self@.exchanges.take(self@.exchanges.len() as int) =~= self@.exchanges);
        rows
    }

    /// The coins, in the order in which they were inserted.
    pub fn coins(&self) -> (rows: Vec<Coin>)
        ensures
            rows@ == self@.coins,
    {
        let mut rows: Vec<Coin> = Vec::new();
        let mut i: usize = 0;
        while i < self.coins.len()
            invariant
                i <= self.coins@.len(),
                rows@ == self@.coins.take(i as int),
            decreases self.coins@.len() - i,
        {
            rows.push(self.coins[i].copy());
            assert(self@.coins.take(i + 1) =~= self@.coins.take(i as int).push(
                self@.coins[i as int],
            ));
            i += 1;
        }
        assert(self@.coins.take(self@.coins.len() as int) =~= self@.coins);
        rows
    }

    /// The listings, in the order in which they were inserted.
    pub fn listings(&self) -> (rows: Vec<CoinListing>)
        ensures
            rows@ == self@.listings,
    {
        let mut rows: Vec<CoinListing> = Vec::new();
        let mut i: usize = 0;
        while i < self.listings.len()
            invariant
                i <= self.listings@.len(),
                rows@ == self@.listings.take(i as int),
            decreases self.listings@.len() - i,
        {
            rows.push(self.listings[i].copy());
            assert(self@.listings.take(i + 1) =~= self@.listings.take(i as int).push(
                self@.listings[i as int],
            ));
            i += 1;
        }
        assert(self@.listings.take(self@.listings.len() as int) =~= self@.listings);
        rows
    }

    /// The price rows, in the order in which they were inserted.
    pub fn prices(&self) -> (rows: Vec<PriceData>)
        ensures
            rows@.len() == self@.prices.len(),
            forall|i: int|
                0 <= i < rows@.len() ==> (#[trigger] rows@[i])@ == self@.prices[i]@ && rows@[i].id
                    == self@.prices[i].id && rows@[i].created_at == self@.prices[i].created_at,
    {
        let mut rows: Vec<PriceData> = Vec::new();
        let mut i: usize = 0;
        while i < self.prices.len()
            invariant
                i <= self.prices@.len(),
                rows@.len() == i,
                forall|j: int|
                    0 <= j < i ==> (#[trigger] rows@[j])@ == self@.prices[j]@ && rows@[j].id
                        == self@.prices[j].id && rows@[j].created_at == self@.prices[j].created_at,
            decreases self.prices@.len() - i,
        {
            rows.push(self.prices[i].copy());
            i += 1;
        }
        rows
    }

    /// The rates, in the order in which they were inserted.
    pub fn rates(&self) -> (rows: Vec<ExchangeRate>)
        ensures
            rows@.len() == self@.rates.len(),
            forall|i: int|
                0 <= i < rows@.len() ==> (#[trigger] rows@[i])@ == self@.rates[i]@ && rows@[i].id
                    == self@.rates[i].id && rows@[i].created_at == self@.rates[i].created_at,
    {
        let mut rows: Vec<ExchangeRate> = Vec::new();
        let mut i: usize = 0;
        while i < self.rates.len()
            invariant
                i <= self.rates@.len(),
                rows@.len() == i,
                forall|j: int|
                    0 <= j < i ==> (#[trigger] rows@[j])@ == self@.rates[j]@ && rows@[j].id
                        == self@.rates[j].id && rows@[j].created_at == self@.rates[j].created_at,
            decreases self.rates@.len() - i,
        {
            rows.push(self.rates[i].copy());
            i += 1;
        }
        rows
    }

    /// The premium history, in the order in which it was recorded.
    pub fn kimchi(&self) -> (rows: Vec<KimchiHistoryPoint>)
        ensures
            rows@.len() == self@.kimchi.len(),
            forall|i: int| 0 <= i < rows@.len() ==> (#[trigger] rows@[i])@ == self@.kimchi[i]@,
    {
        let mut rows: Vec<KimchiHistoryPoint> = Vec::new();
        let mut i: usize = 0;
        while i < self.kimchi.len()
            invariant
                i <= self.kimchi@.len(),
                rows@.len() == i,
                forall|j: int| 0 <= j < i ==> (#[trigger] rows@[j])@ == self@.kimchi[j]@,
            decreases self.kimchi@.len() - i,
        {
            rows.push(self.kimchi[i].copy());
            i += 1;
        }
        rows
    }

    /// Adds a coin as it is, with its own identifier. Fails, and changes
    /// nothing, where a coin has its identifier or its symbol already.
    pub fn load_coin(&mut self, coin: Coin) -> (r: Result<(), AppError>)
        requires
            old(self)@.wf(),
        ensures
            final(self)@.wf(),
            r is Err <==> old(self)@.has_coin_id(coin.id as int) || old(self)@.has_coin(coin.symbol@),
            r is Err ==> final(self)@ == old(self)@ && r.unwrap_err() is Database,
            r is Ok ==> old(self)@.same_but_coins(final(self)@) && final(self)@.coins
                == old(self)@.coins.push(coin),
    {
        let mut k: usize = 0;
        while k < self.coins.len()
            invariant
                *self == *old(self),
                self@.wf(),
                k <= self.coins@.len(),
                forall|a: int|
                    0 <= a < k ==> (#[trigger] self@.coins[a]).id != coin.id
                        && self@.coins[a].symbol@ != coin.symbol@,
            decreases self.coins@.len() - k,
        {
            if self.coins[k].id == coin.id || same_text(
                self.coins[k].symbol.as_str(),
                coin.symbol.as_str(),
            ) {
                proof {
                    if self@.coins[k as int].id == coin.id {
                        assert(self@.has_coin_id(coin.id as int));
                    } else {
                        assert(self@.coin_at(k as int, coin.symbol@));
                    }
                }
                return Err(AppError::Database("duplicate coin".to_owned()));
            }
            k += 1;
        }
        let ghost before = self@;
        proof {
            if before.has_coin(coin.symbol@) {
                let w = choose|w: int| before.coin_at(w, coin.symbol@);
                assert(before.coins[w].symbol@ == coin.symbol@);
            }
        }
        self.coins.push(coin);
        proof {
            assert(self@.exchanges == before.exchanges);
            assert(self@.listings == before.listings);
            assert(self@.prices == before.prices);
            assert(self@.unique_coins()) by {
                assert forall|a: int, b: int| 0 <= a < b < self@.coins.len() implies (
                #[trigger] self@.coins[a]).id != (#[trigger] self@.coins[b]).id
                    && self@.coins[a].symbol@ != self@.coins[b].symbol@ by {
                    if b < before.coins.len() {
                        assert(before.coins[a].id != before.coins[b].id);
                    } else {
                        assert(before.coins[a].id != coin.id);
                    }
                }
            }
            assert(self@.listings_have_coins()) by {
                assert forall|l: int| 0 <= l < self@.listings.len() implies self@.has_coin_id(
                    (#[trigger] self@.listings[l]).coin_id as int,
                ) by {
                    assert(before.has_coin_id(before.listings[l].coin_id as int));
                    let w = choose|w: int|
                        0 <= w < before.coins.len() && (#[trigger] before.coins[w]).id
                            == before.listings[l].coin_id;
                    assert(self@.coins[w].id == before.listings[l].coin_id);
                }
            }
        }
        Ok(())
    }

    /// Adds a listing as it is, active or not. Fails, and changes nothing,
    /// where its coin is unknown or its venue lists the coin already.
    pub fn load_listing(&mut self, listing: CoinListing) -> (r: Result<(), AppError>)
        requires
            old(self)@.wf(),
        ensures
            final(self)@.wf(),
            r is Err <==> !old(self)@.has_coin_id(listing.coin_id as int) || (exists|i: int|
                old(self)@.listing_at(i, listing.exchange_id as int, listing.coin_id as int)),
            r is Err ==> final(self)@ == old(self)@ && r.unwrap_err() is Database,
            r is Ok ==> old(self)@.same_but_listings(final(self)@) && final(self)@.listings
                == old(self)@.listings.push(listing),
    {
        if !self.coin_exists(listing.coin_id) {
            return Err(AppError::Database("listing refers to no coin".to_owned()));
        }
        let mut i: usize = 0;
        while i < self.listings.len()
            invariant
                *self == *old(self),
                self@.wf(),
                self@.has_coin_id(listing.coin_id as int),
                i <= self.listings@.len(),
                forall|a: int|
                    0 <= a < i ==> !self@.listing_at(
                        a,
                        listing.exchange_id as int,
                        listing.coin_id as int,
                    ),
            decreases self.listings@.len() - i,
        {
            if self.listings[i].exchange_id == listing.exchange_id && self.listings[i].coin_id
                == listing.coin_id {
                assert(self@.listing_at(
                    i as int,
                    listing.exchange_id as int,
                    listing.coin_id as int,
                ));
                return Err(AppError::Database("duplicate listing".to_owned()));
            }
            i += 1;
        }
        let ghost before = self@;
        self.listings.push(listing);
        proof {
            assert(self@.exchanges == before.exchanges);
            assert(self@.coins == before.coins);
            assert(self@.prices == before.prices);
            assert(self@.unique_listings()) by {
                assert forall|a: int, b: int| 0 <= a < b < self@.listings.len() implies !((
                #[trigger] self@.listings[a]).exchange_id == (
                #[trigger] self@.listings[b]).exchange_id && self@.listings[a].coin_id
                    == self@.listings[b].coin_id) by {
                    if b < before.listings.len() {
                        assert(!(before.listings[a].exchange_id == before.listings[b].exchange_id
                            && before.listings[a].coin_id == before.listings[b].coin_id));
                    } else {
                        assert(!before.listing_at(
                            a,
                            listing.exchange_id as int,
                            listing.coin_id as int,
                        ));
                    }
                }
            }
            assert(self@.listings_have_coins()) by {
                assert forall|l: int| 0 <= l < self@.listings.len() implies self@.has_coin_id(
                    (#[trigger] self@.listings[l]).coin_id as int,
                ) by {
                    if l < before.listings.len() {
                        assert(before.has_coin_id(before.listings[l].coin_id as int));
                    } else {
                        assert(before.has_coin_id(listing.coin_id as int));
                    }
                }
            }
        }
        Ok(())
    }

    /// Adds a price row as it is, with its own identifier and creation time.
    /// Fails, and changes nothing, where a row has its venue, coin and
    /// timestamp already.
    pub fn load_price(&mut self, row: PriceData) -> (r: Result<(), AppError>)
        requires
            old(self)@.wf(),
        ensures
            final(self)@.wf(),
            r is Err <==> old(self)@.has_price(row@),
            r is Err ==> final(self)@ == old(self)@ && r.unwrap_err() is Database,
            r is Ok ==> old(self)@.same_but_prices(final(self)@) && final(self)@.prices
                == old(self)@.prices.push(row),
    {
        let mut i: usize = 0;
        while i < self.prices.len()
            invariant
                *self == *old(self),
                self@.wf(),
                i <= self.prices@.len(),
                forall|a: int|
                    0 <= a < i ==> !self@.price_at(
                        a,
                        row.exchange_id as int,
                        row.coin_id as int,
                        row.timestamp as int,
                    ),
            decreases self.prices@.len() - i,
        {
            if self.prices[i].exchange_id == row.exchange_id && self.prices[i].coin_id
                == row.coin_id && self.prices[i].timestamp == row.timestamp {
                assert(self@.price_at(
                    i as int,
                    row@.exchange_id,
                    row@.coin_id,
                    row@.timestamp,
                ));
                return Err(AppError::Database("duplicate price row".to_owned()));
            }
            i += 1;
        }
        let ghost before = self@;
        proof {
            if before.has_price(row@) {
                let w = choose|w: int|
                    before.price_at(w, row@.exchange_id, row@.coin_id, row@.timestamp);
                assert(before.price_at(
                    w,
                    row.exchange_id as int,
                    row.coin_id as int,
                    row.timestamp as int,
                ));
            }
        }
        self.prices.push(row);
        proof {
            assert(self@.exchanges == before.exchanges);
            assert(self@.coins == before.coins);
            assert(self@.listings == before.listings);
            assert(self@.unique_prices()) by {
                assert forall|a: int, b: int| 0 <= a < b < self@.prices.len() implies !((
                #[trigger] self@.prices[a]).exchange_id == (
                #[trigger] self@.prices[b]).exchange_id && self@.prices[a].coin_id
                    == self@.prices[b].coin_id && self@.prices[a].timestamp
                    == self@.prices[b].timestamp) by {
                    if b < before.prices.len() {
                        assert(!(before.prices[a].exchange_id == before.prices[b].exchange_id
                            && before.prices[a].coin_id == before.prices[b].coin_id
                            && before.prices[a].timestamp == before.prices[b].timestamp));
                    } else {
                        assert(!before.price_at(
                            a,
                            row.exchange_id as int,
                            row.coin_id as int,
                            row.timestamp as int,
                        ));
                    }
                }
            }
        }
        Ok(())
    }

    /// Adds a rate as it is, with its own identifier and creation time.
    pub fn load_rate(&mut self, rate: ExchangeRate)
        requires
            old(self)@.wf(),
        ensures
            final(self)@.wf(),
            old(self)@.same_but_rates(final(self)@),
            final(self)@.rates == old(self)@.rates.push(rate),
    {
        let ghost before = self@;
        self.rates.push(rate);
        proof {
            assert(self@.exchanges == before.exchanges);
            assert(self@.coins == before.coins);
            assert(self@.listings == before.listings);
            assert(self@.prices == before.prices);
        }
    }
}

} // verus!
