//! The directional arbitrage calculator: the latest prices of a coin on two
//! venues, brought to KRW, and the profit of buying on one and selling on
//! the other.

use vstd::prelude::*;
use crate::decimal::Dec;
use crate::decimal::Decimal;
use crate::decimal::decimal_difference;
use crate::decimal::decimal_product;
use crate::decimal::decimal_quotient;
use crate::decimal::decimal_sum;
use crate::decimal::lemma_plus_same_value;
use crate::decimal::scale_in_range;
use crate::models::arbitrage::ArbitrageRow;
use crate::models::arbitrage::copy_optional;
use crate::models::arbitrage::DirectionalArbitrage;
use crate::models::arbitrage::FeeCalculation;
use crate::models::arbitrage::KimchiHistoryPoint;
use crate::models::arbitrage::KimchiRow;
use crate::models::exchange::opt_dec;
use crate::services::exchange_rate_service::acquired;
use crate::services::exchange_rate_service::ExchangeRateService;
use crate::services::exchange_rate_service::FxUpstream;
use crate::services::exchange_rate_service::lemma_persisted_rate_is_latest;
use crate::services::exchange_rate_service::rate_persisted;
use crate::services::exchange_rate_service::usd_rate;
use crate::store::FRESH_WINDOW_MS;
use crate::store::Store;
use crate::store::Tables;
use crate::text::joined;
use crate::text::same_text;
use crate::utils::error::AppError;
use crate::utils::ranking::is_stable_sort;
use crate::utils::ranking::lemma_stable_sort_is_sorted;
use crate::utils::ranking::Ranked;
use crate::utils::ranking::stable_sort;

verus! {

/// Where the rate between USD and KRW is taken from.
#[derive(Debug, Clone, Copy, PartialEq, Eq, Structural)]
pub enum FxSource {
    /// The price of USDT on a domestic venue.
    UsdtKrw,
    /// The persisted reference rate.
    UsdKrw,
}

impl FxSource {
    /// The tag of the source.
    pub open spec fn tag(self) -> Seq<char> {
        match self {
            FxSource::UsdKrw => "usdkrw"@,
            FxSource::UsdtKrw => "usdtkrw"@,
        }
    }

    /// The tag of the source: `usdkrw` or `usdtkrw`.
    pub fn to_string(&self) -> (tag: String)
        ensures
            tag@ == self.tag(),
    {
        match self {
            FxSource::UsdKrw => "usdkrw".to_owned(),
            FxSource::UsdtKrw => "usdtkrw".to_owned(),
        }
    }
}

/// The decimal, where its scale is one that this library can hold.
pub open spec fn held(d: Dec) -> Option<Dec> {
    if scale_in_range(d.scale) {
        Some(d)
    } else {
        None
    }
}

/// The trading fee of one side, 0.1 percent points.
pub open spec fn trading_fee() -> Dec {
    Dec { unscaled: 1, scale: 1 }
}

/// The surcharge for the currency exchange, 0.05 percent points.
pub open spec fn exchange_fee() -> Dec {
    Dec { unscaled: 5, scale: 2 }
}

/// The withdrawal fee of a coin, in units of the coin.
pub open spec fn withdrawal_fee(symbol: Seq<char>) -> Dec {
    if symbol == "BTC"@ {
        Dec { unscaled: 5, scale: 4 }
    } else if symbol == "ETH"@ {
        Dec { unscaled: 5, scale: 3 }
    } else {
        Dec { unscaled: 1, scale: 3 }
    }
}

/// The trading fee of both sides as `bigdecimal` computes it.
pub open spec fn both_sides_fee() -> Dec {
    decimal_product(trading_fee(), Dec::whole(2))
}

/// The fee total as `bigdecimal` computes it: the trading fee of both sides
/// plus the exchange fee, where this library can hold it.
pub open spec fn fee_total() -> Option<Dec> {
    if scale_in_range(both_sides_fee().scale) {
        held(decimal_sum(both_sides_fee(), exchange_fee()))
    } else {
        None
    }
}

/// The fee model of a trade in the coin. The trading fee is charged on both
/// sides, so the total is twice the trading fee plus the exchange fee, 0.25
/// percent points. The withdrawal fee is in units of the coin and is no part
/// of the total. Fails where the total cannot be held.
pub fn fee_model(symbol: &str) -> (r: Result<FeeCalculation, AppError>)
    ensures
        r is Ok <==> fee_total() is Some,
        r is Ok ==> {
            &&& r.unwrap().trading_fee@ == trading_fee()
            &&& r.unwrap().exchange_fee@ == exchange_fee()
            &&& r.unwrap().withdrawal_fee@ == withdrawal_fee(symbol@)
            &&& r.unwrap().total_fee@ == fee_total().unwrap()
            &&& r.unwrap().total_fee@.same_value(Dec { unscaled: 25, scale: 2 })
        },
        r is Err ==> r.unwrap_err() is Internal,
{
    let trading = Decimal::from_scaled(1, 1);
    let withdrawal = if same_text(symbol, "BTC") {
        Decimal::from_scaled(5, 4)
    } else if same_text(symbol, "ETH") {
        Decimal::from_scaled(5, 3)
    } else {
        Decimal::from_scaled(1, 3)
    };
    let exchange = Decimal::from_scaled(5, 2);
    let two = Decimal::from_u32(2);
    let both = match trading.checked_mul(&two) {
        Some(d) => d,
        None => {
            return Err(AppError::Internal("decimal out of range".to_owned()));
        },
    };
    let total = match both.checked_add(&exchange) {
        Some(d) => d,
        None => {
            return Err(AppError::Internal("decimal out of range".to_owned()));
        },
    };
    proof {
        let exact_both = trading_fee().times(Dec::whole(2));
        lemma_plus_same_value(both@, exact_both, exchange_fee(), exchange_fee());
        crate::decimal::lemma_same_value_transitive(
            total@,
            both@.plus(exchange_fee()),
            exact_both.plus(exchange_fee()),
        );
        let quarter = Dec { unscaled: 25, scale: 2 };
        assert(exact_both.plus(exchange_fee()) == quarter) by {
            assert(exact_both == Dec { unscaled: 2, scale: 1 });
            vstd::arithmetic::power::lemma_pow1(10);
            vstd::arithmetic::power::lemma_pow0(10);
        }
    }
    Ok(FeeCalculation { trading_fee: trading, withdrawal_fee: withdrawal, exchange_fee: exchange, total_fee: total })
}

/// A price in KRW: the price times the rate on the foreign venue, the price
/// itself on a domestic one. `None` where the product cannot be held.
pub open spec fn krw_price(exchange: Seq<char>, price: Dec, fx_rate: Dec) -> Option<Dec> {
    if exchange == "Binance"@ {
        held(decimal_product(price, fx_rate))
    } else {
        Some(price)
    }
}

/// The turnover of a day in KRW: the price times the volume, where the
/// volume is known. The outer `None` says that the product cannot be held.
pub open spec fn notional(price: Dec, volume: Option<Dec>) -> Option<Option<Dec>> {
    match volume {
        Some(v) => match held(decimal_product(price, v)) {
            Some(n) => Some(Some(n)),
            None => None,
        },
        None => Some(None),
    }
}

/// What is known of a coin on the two venues when its arbitrage is
/// computed: the prices and volumes of both sides, the rate, and the fees.
pub struct Quotes {
    pub symbol: Seq<char>,
    pub from_exchange: Seq<char>,
    pub to_exchange: Seq<char>,
    pub from_price: Dec,
    pub to_price: Dec,
    pub from_volume: Option<Dec>,
    pub to_volume: Option<Dec>,
    pub fx_rate: Dec,
    pub fx_type: Seq<char>,
    pub total_fees: Dec,
}

/// What is known of a coin on the two venues beside its prices.
pub struct Sides {
    pub symbol: Seq<char>,
    pub from_exchange: Seq<char>,
    pub to_exchange: Seq<char>,
    pub from_volume: Option<Dec>,
    pub to_volume: Option<Dec>,
    pub fx_rate: Dec,
    pub fx_type: Seq<char>,
    pub total_fees: Dec,
}

impl Quotes {
    /// The quotes without the prices.
    pub open spec fn sides(self) -> Sides {
        Sides {
            symbol: self.symbol,
            from_exchange: self.from_exchange,
            to_exchange: self.to_exchange,
            from_volume: self.from_volume,
            to_volume: self.to_volume,
            fx_rate: self.fx_rate,
            fx_type: self.fx_type,
            total_fees: self.total_fees,
        }
    }
}

/// The directional arbitrage of a coin whose prices on the two venues are
/// `from` and `to` in KRW, as `bigdecimal` computes it; `None` where the
/// buying price is zero or a result cannot be held.
pub open spec fn arbitrage_in_krw(q: Sides, from: Dec, to: Dec) -> Option<ArbitrageRow> {
    let difference = decimal_difference(to, from);
    let quotient = decimal_quotient(difference, from);
    let percentage = decimal_product(quotient, Dec::whole(100));
    let after_fees = decimal_difference(percentage, q.total_fees);
    if scale_in_range(difference.scale) && from.unscaled != 0 && scale_in_range(quotient.scale)
        && scale_in_range(percentage.scale) && scale_in_range(after_fees.scale) {
        match (notional(from, q.from_volume), notional(to, q.to_volume)) {
            (Some(from_notional), Some(to_notional)) => Some(
                ArbitrageRow {
                    symbol: q.symbol,
                    from_exchange: q.from_exchange,
                    to_exchange: q.to_exchange,
                    from_price: from,
                    to_price: to,
                    from_volume_24h: q.from_volume,
                    to_volume_24h: q.to_volume,
                    from_notional_24h: from_notional,
                    to_notional_24h: to_notional,
                    price_difference: difference,
                    profit_percentage: percentage,
                    estimated_profit_after_fees: after_fees,
                    total_fees: q.total_fees,
                    is_profitable: Dec::whole(0).less(after_fees),
                    fx_type: q.fx_type,
                    fx_rate: q.fx_rate,
                },
            ),
            _ => None,
        }
    } else {
        None
    }
}

/// The directional arbitrage of the quotes as `bigdecimal` computes it: the
/// prices are brought to KRW, and the arbitrage is computed from them.
pub open spec fn arbitrage_of(q: Quotes) -> Option<ArbitrageRow> {
    match (
        krw_price(q.from_exchange, q.from_price, q.fx_rate),
        krw_price(q.to_exchange, q.to_price, q.fx_rate),
    ) {
        (Some(from), Some(to)) => arbitrage_in_krw(q.sides(), from, to),
        _ => None,
    }
}

/// What a price in KRW means: on the foreign venue it denotes the price
/// times the rate, on a domestic venue it is the price as it came.
pub open spec fn krw_means(exchange: Seq<char>, price: Dec, fx_rate: Dec, krw: Dec) -> bool {
    if exchange == "Binance"@ {
        krw.same_value(price.times(fx_rate))
    } else {
        krw == price
    }
}

/// What the profit of an arbitrage means, whatever representation
/// `bigdecimal` chose for it: the difference is the selling price less the
/// buying price; the percentage is one hundred times the quotient of the
/// difference and the buying price, the quotient cut off at the precision of
/// the decimals; the profit after fees is the percentage less the fees, and
/// it is profitable where that is above zero; a notional is the side's price
/// times its volume.
pub open spec fn profit_means(q: Sides, row: ArbitrageRow) -> bool {
    &&& row.price_difference.same_value(row.to_price.minus(row.from_price))
    &&& row.profit_percentage.same_value(
        decimal_quotient(row.price_difference, row.from_price).times(Dec::whole(100)),
    )
    &&& row.estimated_profit_after_fees.same_value(row.profit_percentage.minus(row.total_fees))
    &&& row.is_profitable == (row.estimated_profit_after_fees.unscaled > 0)
    &&& row.from_notional_24h is Some == q.from_volume is Some
    &&& row.to_notional_24h is Some == q.to_volume is Some
    &&& q.from_volume is Some ==> row.from_notional_24h.unwrap().same_value(
        row.from_price.times(q.from_volume.unwrap()),
    )
    &&& q.to_volume is Some ==> row.to_notional_24h.unwrap().same_value(
        row.to_price.times(q.to_volume.unwrap()),
    )
}

/// What the results of an arbitrage mean: what its prices in KRW mean, and
/// what its profit means.
pub open spec fn arbitrage_means(q: Quotes, row: ArbitrageRow) -> bool {
    &&& krw_means(q.from_exchange, q.from_price, q.fx_rate, row.from_price)
    &&& krw_means(q.to_exchange, q.to_price, q.fx_rate, row.to_price)
    &&& profit_means(q.sides(), row)
}

/// The price rows of the two venues among the first `n` quotes: the row of
/// the buying venue, and the row of the selling venue. Each side is looked up
/// on its own, so a venue that is both has its row on both sides.
pub open spec fn side_rows(
    t: Tables,
    quotes: Seq<(int, int)>,
    n: int,
    from_exchange: Seq<char>,
    to_exchange: Seq<char>,
) -> (Option<int>, Option<int>)
    decreases n,
{
    if n <= 0 {
        (None, None)
    } else {
        let (from, to) = side_rows(t, quotes, n - 1, from_exchange, to_exchange);
        (
            if t.exchanges[quotes[n - 1].0].name@ == from_exchange {
                Some(quotes[n - 1].1)
            } else {
                from
            },
            if t.exchanges[quotes[n - 1].0].name@ == to_exchange {
                Some(quotes[n - 1].1)
            } else {
                to
            },
        )
    }
}

/// One of the first `n` quotes is of the venue with the name.
pub open spec fn quoted(t: Tables, quotes: Seq<(int, int)>, n: int, exchange: Seq<char>) -> bool {
    exists|j: int| 0 <= j < n && t.exchanges[(#[trigger] quotes[j]).0].name@ == exchange
}

/// A side has a row exactly where one of the quotes is of its venue, and the
/// row is then the row of such a quote.
pub proof fn lemma_side_rows_found(
    t: Tables,
    quotes: Seq<(int, int)>,
    n: int,
    from_exchange: Seq<char>,
    to_exchange: Seq<char>,
)
    requires
        0 <= n <= quotes.len(),
    ensures
        side_rows(t, quotes, n, from_exchange, to_exchange).0 is Some <==> quoted(
            t,
            quotes,
            n,
            from_exchange,
        ),
        side_rows(t, quotes, n, from_exchange, to_exchange).1 is Some <==> quoted(
            t,
            quotes,
            n,
            to_exchange,
        ),
        side_rows(t, quotes, n, from_exchange, to_exchange).0 is Some ==> exists|j: int|
            0 <= j < n && t.exchanges[(#[trigger] quotes[j]).0].name@ == from_exchange && side_rows(
                t,
                quotes,
                n,
                from_exchange,
                to_exchange,
            ).0 == Some(quotes[j].1),
        side_rows(t, quotes, n, from_exchange, to_exchange).1 is Some ==> exists|j: int|
            0 <= j < n && t.exchanges[(#[trigger] quotes[j]).0].name@ == to_exchange && side_rows(
                t,
                quotes,
                n,
                from_exchange,
                to_exchange,
            ).1 == Some(quotes[j].1),
    decreases n,
{
    if n > 0 {
        lemma_side_rows_found(t, quotes, n - 1, from_exchange, to_exchange);
        let earlier = side_rows(t, quotes, n - 1, from_exchange, to_exchange);
        let now = side_rows(t, quotes, n, from_exchange, to_exchange);
        let name = t.exchanges[quotes[n - 1].0].name@;
        if quoted(t, quotes, n - 1, from_exchange) {
            let j = choose|j: int|
                0 <= j < n - 1 && t.exchanges[(#[trigger] quotes[j]).0].name@ == from_exchange;
            assert(t.exchanges[quotes[j].0].name@ == from_exchange);
        }
        if quoted(t, quotes, n - 1, to_exchange) {
            let j = choose|j: int|
                0 <= j < n - 1 && t.exchanges[(#[trigger] quotes[j]).0].name@ == to_exchange;
            assert(t.exchanges[quotes[j].0].name@ == to_exchange);
        }
        if quoted(t, quotes, n, from_exchange) && name != from_exchange {
            let j = choose|j: int|
                0 <= j < n && t.exchanges[(#[trigger] quotes[j]).0].name@ == from_exchange;
            assert(j < n - 1);
            assert(quoted(t, quotes, n - 1, from_exchange));
        }
        if quoted(t, quotes, n, to_exchange) && name != to_exchange {
            let j = choose|j: int|
                0 <= j < n && t.exchanges[(#[trigger] quotes[j]).0].name@ == to_exchange;
            assert(j < n - 1);
            assert(quoted(t, quotes, n - 1, to_exchange));
        }
        if name == from_exchange {
            assert(t.exchanges[quotes[n - 1].0].name@ == from_exchange && now.0 == Some(
                quotes[n - 1].1,
            ));
        } else if earlier.0 is Some {
            let j = choose|j: int|
                0 <= j < n - 1 && t.exchanges[(#[trigger] quotes[j]).0].name@ == from_exchange
                    && earlier.0 == Some(quotes[j].1);
            assert(t.exchanges[quotes[j].0].name@ == from_exchange && now.0 == Some(quotes[j].1));
        }
        if name == to_exchange {
            assert(t.exchanges[quotes[n - 1].0].name@ == to_exchange && now.1 == Some(
                quotes[n - 1].1,
            ));
        } else if earlier.1 is Some {
            let j = choose|j: int|
                0 <= j < n - 1 && t.exchanges[(#[trigger] quotes[j]).0].name@ == to_exchange
                    && earlier.1 == Some(quotes[j].1);
            assert(t.exchanges[quotes[j].0].name@ == to_exchange && now.1 == Some(quotes[j].1));
        }
    }
}

/// The price rows of the two venues for the coin at the time `now`.
pub open spec fn found_rows(
    t: Tables,
    symbol: Seq<char>,
    from_exchange: Seq<char>,
    to_exchange: Seq<char>,
    now: int,
) -> (Option<int>, Option<int>) {
    side_rows(
        t,
        t.quotes_of(symbol, now),
        t.quotes_of(symbol, now).len() as int,
        from_exchange,
        to_exchange,
    )
}

/// The price row of the first domestic venue among the first `n` quotes.
pub open spec fn domestic_row(t: Tables, quotes: Seq<(int, int)>, n: int) -> Option<int>
    decreases n,
{
    if n <= 0 {
        None
    } else {
        match domestic_row(t, quotes, n - 1) {
            Some(i) => Some(i),
            None => if t.exchanges[quotes[n - 1].0].name@ == "Upbit"@
                || t.exchanges[quotes[n - 1].0].name@ == "Bithumb"@ {
                Some(quotes[n - 1].1)
            } else {
                None
            },
        }
    }
}

/// The market rate of USDT in KRW at the time `now`: its latest price on the
/// first domestic venue that has one.
pub open spec fn usdt_rate(t: Tables, now: int) -> Option<Dec> {
    match domestic_row(
        t,
        t.quotes_of("USDT"@, now),
        t.quotes_of("USDT"@, now).len() as int,
    ) {
        Some(i) => Some(t.prices[i].price@),
        None => None,
    }
}

/// The rate is resolved through the reference rate: that source is asked
/// for, or the market has no rate.
pub open spec fn needs_usd(t: Tables, fx_source: FxSource, now: int) -> bool {
    fx_source == FxSource::UsdKrw || usdt_rate(t, now) is None
}

/// The rate that a computation uses.
pub open spec fn fx_rate_of(t: Tables, upstream: FxUpstream, fx_source: FxSource, now: int) -> Dec {
    if needs_usd(t, fx_source, now) {
        usd_rate(t, upstream)
    } else {
        usdt_rate(t, now).unwrap()
    }
}

/// What resolving the rate leaves of the store: where the reference rate is
/// needed and none is persisted, the acquired rate is persisted; otherwise
/// nothing changes.
pub open spec fn fx_settled(
    before: Tables,
    after: Tables,
    upstream: FxUpstream,
    fx_source: FxSource,
    now: int,
) -> bool {
    if needs_usd(before, fx_source, now) && before.latest_rate(
        before.rates.len() as int,
        "USD"@,
    ) is None {
        rate_persisted(before, after, upstream, now)
    } else {
        after == before
    }
}

/// What a request for the arbitrage of a coin ends in.
pub enum Answer {
    /// The buying venue has no recent price of the coin.
    MissingFrom,
    /// The selling venue has no recent price of the coin.
    MissingTo,
    /// The buying price is zero, or a result cannot be held.
    Failed,
    /// The arbitrage.
    Found(ArbitrageRow),
}

/// The fees that a computation takes off: the fee total where fees are
/// included, zero where not.
pub open spec fn fees_of(include_fees: bool) -> Option<Dec> {
    if include_fees {
        fee_total()
    } else {
        Some(Dec::whole(0))
    }
}

/// The quotes of a coin on the two venues at the time `now`, given the price
/// rows of the two sides.
pub open spec fn quotes_at(
    t: Tables,
    upstream: FxUpstream,
    symbol: Seq<char>,
    from_exchange: Seq<char>,
    to_exchange: Seq<char>,
    fx_source: FxSource,
    fees: Dec,
    now: int,
    from_row: int,
    to_row: int,
) -> Quotes {
    Quotes {
        symbol,
        from_exchange,
        to_exchange,
        from_price: t.prices[from_row].price@,
        to_price: t.prices[to_row].price@,
        from_volume: opt_dec(t.prices[from_row].volume_24h),
        to_volume: opt_dec(t.prices[to_row].volume_24h),
        fx_rate: fx_rate_of(t, upstream, fx_source, now),
        fx_type: fx_source.tag(),
        total_fees: fees,
    }
}

/// The answer to a request for the arbitrage of a coin at the time `now`.
pub open spec fn answer_of(
    t: Tables,
    upstream: FxUpstream,
    symbol: Seq<char>,
    from_exchange: Seq<char>,
    to_exchange: Seq<char>,
    fx_source: FxSource,
    include_fees: bool,
    now: int,
) -> Answer {
    match found_rows(t, symbol, from_exchange, to_exchange, now) {
        (None, _) => Answer::MissingFrom,
        (Some(_), None) => Answer::MissingTo,
        (Some(from_row), Some(to_row)) => match fees_of(include_fees) {
            None => Answer::Failed,
            Some(fees) => match arbitrage_of(
                quotes_at(
                    t,
                    upstream,
                    symbol,
                    from_exchange,
                    to_exchange,
                    fx_source,
                    fees,
                    now,
                    from_row,
                    to_row,
                ),
            ) {
                Some(row) => Answer::Found(row),
                None => Answer::Failed,
            },
        },
    }
}

/// What a request leaves of the store: the rate is resolved, and settled,
/// only where both venues have a recent price.
pub open spec fn request_settled(
    before: Tables,
    after: Tables,
    upstream: FxUpstream,
    symbol: Seq<char>,
    from_exchange: Seq<char>,
    to_exchange: Seq<char>,
    fx_source: FxSource,
    now: int,
) -> bool {
    match found_rows(before, symbol, from_exchange, to_exchange, now) {
        (Some(_), Some(_)) => fx_settled(before, after, upstream, fx_source, now),
        _ => after == before,
    }
}

/// `r` is what a request with the answer returns.
pub open spec fn returns_answer(
    answer: Answer,
    from_exchange: Seq<char>,
    to_exchange: Seq<char>,
    r: Result<DirectionalArbitrage, AppError>,
) -> bool {
    match answer {
        Answer::Found(row) => r is Ok && r.unwrap()@ == row,
        Answer::MissingFrom => r is Err && r.unwrap_err() is NotFound && r.unwrap_err().detail()
            == "Price not found for "@ + from_exchange,
        Answer::MissingTo => r is Err && r.unwrap_err() is NotFound && r.unwrap_err().detail()
            == "Price not found for "@ + to_exchange,
        Answer::Failed => r is Err && r.unwrap_err() is Internal,
    }
}

/// The store is as it was, or as it was with the acquired rate persisted as
/// its first rate of the US dollar.
pub open spec fn settled(before: Tables, after: Tables, upstream: FxUpstream, now: int) -> bool {
    after == before || (before.latest_rate(before.rates.len() as int, "USD"@) is None
        && acquired(upstream) is Row && before.rates.len() < i32::MAX && before.rate_added(
        after,
        acquired(upstream)->Row_0,
        now,
    ))
}

/// Persisting the acquired rate changes no answer: the prices are the same,
/// and the rate that was acquired is the rate that is read afterwards.
pub proof fn lemma_settled_same_answer(
    before: Tables,
    after: Tables,
    upstream: FxUpstream,
    symbol: Seq<char>,
    from_exchange: Seq<char>,
    to_exchange: Seq<char>,
    fx_source: FxSource,
    include_fees: bool,
    now: int,
)
    requires
        settled(before, after, upstream, now),
    ensures
        found_rows(after, symbol, from_exchange, to_exchange, now) == found_rows(
            before,
            symbol,
            from_exchange,
            to_exchange,
            now,
        ),
        fx_rate_of(after, upstream, fx_source, now) == fx_rate_of(before, upstream, fx_source, now),
        answer_of(
            after,
            upstream,
            symbol,
            from_exchange,
            to_exchange,
            fx_source,
            include_fees,
            now,
        ) == answer_of(
            before,
            upstream,
            symbol,
            from_exchange,
            to_exchange,
            fx_source,
            include_fees,
            now,
        ),
        after != before ==> after.latest_rate(after.rates.len() as int, "USD"@) is Some,
{
    if after != before {
        lemma_persisted_rate_is_latest(before, after, upstream, now);
        lemma_same_prices_same_quotes(before, after, symbol, now);
        lemma_same_prices_same_quotes(before, after, "USDT"@, now);
        lemma_side_rows_same(
            before,
            after,
            before.quotes_of(symbol, now),
            before.quotes_of(symbol, now).len() as int,
            from_exchange,
            to_exchange,
        );
        lemma_domestic_row_same(
            before,
            after,
            before.quotes_of("USDT"@, now),
            before.quotes_of("USDT"@, now).len() as int,
        );
    }
}

/// Tables with the same venues, coins and prices give the same quotes.
pub proof fn lemma_same_prices_same_quotes(a: Tables, b: Tables, symbol: Seq<char>, now: int)
    requires
        a.exchanges == b.exchanges,
        a.coins == b.coins,
        a.prices == b.prices,
    ensures
        a.quotes_of(symbol, now) == b.quotes_of(symbol, now),
{
    match crate::store::coin_with_symbol(a.coins, symbol) {
        Some(id) => {
            lemma_latest_quotes_same(a, b, a.exchanges.len() as int, id, now - FRESH_WINDOW_MS);
        },
        None => {},
    }
}

/// The most recent fresh row depends on the price rows alone.
pub proof fn lemma_latest_price_same(
    a: Tables,
    b: Tables,
    n: int,
    exchange_id: int,
    coin_id: int,
    cutoff: int,
)
    requires
        a.prices == b.prices,
    ensures
        a.latest_price(n, exchange_id, coin_id, cutoff) == b.latest_price(
            n,
            exchange_id,
            coin_id,
            cutoff,
        ),
    decreases n,
{
    if n > 0 {
        lemma_latest_price_same(a, b, n - 1, exchange_id, coin_id, cutoff);
    }
}

/// The latest quotes depend on the venues and the price rows alone.
pub proof fn lemma_latest_quotes_same(a: Tables, b: Tables, m: int, coin_id: int, cutoff: int)
    requires
        a.exchanges == b.exchanges,
        a.prices == b.prices,
    ensures
        a.latest_quotes(m, coin_id, cutoff) == b.latest_quotes(m, coin_id, cutoff),
    decreases m,
{
    if m > 0 {
        lemma_latest_quotes_same(a, b, m - 1, coin_id, cutoff);
        lemma_latest_price_same(
            a,
            b,
            a.prices.len() as int,
            a.exchanges[m - 1].id as int,
            coin_id,
            cutoff,
        );
    }
}

/// The rows of the two sides depend on the venues alone.
pub proof fn lemma_side_rows_same(
    a: Tables,
    b: Tables,
    quotes: Seq<(int, int)>,
    n: int,
    from_exchange: Seq<char>,
    to_exchange: Seq<char>,
)
    requires
        a.exchanges == b.exchanges,
    ensures
        side_rows(a, quotes, n, from_exchange, to_exchange) == side_rows(
            b,
            quotes,
            n,
            from_exchange,
            to_exchange,
        ),
    decreases n,
{
    if n > 0 {
        lemma_side_rows_same(a, b, quotes, n - 1, from_exchange, to_exchange);
    }
}

/// The row of the first domestic venue depends on the venues alone.
pub proof fn lemma_domestic_row_same(a: Tables, b: Tables, quotes: Seq<(int, int)>, n: int)
    requires
        a.exchanges == b.exchanges,
    ensures
        domestic_row(a, quotes, n) == domestic_row(b, quotes, n),
    decreases n,
{
    if n > 0 {
        lemma_domestic_row_same(a, b, quotes, n - 1);
    }
}

/// The quotes that the arguments of [`compute_arbitrage`] stand for.
pub open spec fn quotes_from(
    symbol: Seq<char>,
    from_exchange: Seq<char>,
    to_exchange: Seq<char>,
    from_price: Dec,
    to_price: Dec,
    from_volume: Option<Dec>,
    to_volume: Option<Dec>,
    fx_rate: Dec,
    fx_type: Seq<char>,
    total_fees: Dec,
) -> Quotes {
    Quotes {
        symbol,
        from_exchange,
        to_exchange,
        from_price,
        to_price,
        from_volume,
        to_volume,
        fx_rate,
        fx_type,
        total_fees,
    }
}

/// A price in KRW: multiplied by the rate on Binance, as it is elsewhere.
pub fn to_krw(exchange: &str, price: &Decimal, fx_rate: &Decimal) -> (r: Option<Decimal>)
    ensures
        opt_dec(r) == krw_price(exchange@, price@, fx_rate@),
        r is Some ==> krw_means(exchange@, price@, fx_rate@, r.unwrap()@),
{
    if same_text(exchange, "Binance") {
        price.checked_mul(fx_rate)
    } else {
        Some(price.clone())
    }
}

/// The turnover of a day in KRW.
pub fn notional_of(price: &Decimal, volume: &Option<Decimal>) -> (r: Option<Option<Decimal>>)
    ensures
        match notional(price@, opt_dec(*volume)) {
            Some(n) => r is Some && opt_dec(r.unwrap()) == n,
            None => r is None,
        },
        r is Some && volume is Some ==> r.unwrap().unwrap()@.same_value(
            price@.times(volume.unwrap()@),
        ),
{
    match volume {
        Some(v) => match price.checked_mul(v) {
            Some(n) => Some(Some(n)),
            None => None,
        },
        None => Some(None),
    }
}

/// The sides that the arguments of [`arbitrage_from_krw`] stand for.
pub open spec fn sides_from(
    symbol: Seq<char>,
    from_exchange: Seq<char>,
    to_exchange: Seq<char>,
    from_volume: Option<Dec>,
    to_volume: Option<Dec>,
    fx_rate: Dec,
    fx_type: Seq<char>,
    total_fees: Dec,
) -> Sides {
    Sides {
        symbol,
        from_exchange,
        to_exchange,
        from_volume,
        to_volume,
        fx_rate,
        fx_type,
        total_fees,
    }
}

/// Computes the directional arbitrage of a coin from its prices on the two
/// venues in KRW. The profit percentage is the difference of the prices over
/// the buying price, times one hundred; the fees are taken off it. Fails
/// where the buying price is zero, and where a result cannot be held.
pub fn arbitrage_from_krw(
    symbol: &str,
    from_exchange: &str,
    to_exchange: &str,
    from_krw: Decimal,
    to_krw: Decimal,
    from_volume: Option<Decimal>,
    to_volume: Option<Decimal>,
    fx_rate: Decimal,
    fx_type: String,
    total_fees: Decimal,
) -> (r: Result<DirectionalArbitrage, AppError>)
    ensures
        r is Ok <==> arbitrage_in_krw(
            sides_from(
                symbol@,
                from_exchange@,
                to_exchange@,
                opt_dec(from_volume),
                opt_dec(to_volume),
                fx_rate@,
                fx_type@,
                total_fees@,
            ),
            from_krw@,
            to_krw@,
        ) is Some,
        r is Ok ==> r.unwrap()@ == arbitrage_in_krw(
            sides_from(
                symbol@,
                from_exchange@,
                to_exchange@,
                opt_dec(from_volume),
                opt_dec(to_volume),
                fx_rate@,
                fx_type@,
                total_fees@,
            ),
            from_krw@,
            to_krw@,
        ).unwrap(),
        r is Ok ==> profit_means(
            sides_from(
                symbol@,
                from_exchange@,
                to_exchange@,
                opt_dec(from_volume),
                opt_dec(to_volume),
                fx_rate@,
                fx_type@,
                total_fees@,
            ),
            r.unwrap()@,
        ),
        r is Err ==> r.unwrap_err() is Internal,
{
    let price_difference = match to_krw.checked_sub(&from_krw) {
        Some(d) => d,
        None => {
            return Err(AppError::Internal("decimal out of range".to_owned()));
        },
    };
    let quotient = match price_difference.checked_div(&from_krw) {
        Some(d) => d,
        None => {
            return Err(AppError::Internal("no profit percentage on a price of zero".to_owned()));
        },
    };
    let hundred = Decimal::from_u32(100);
    let profit_percentage = match quotient.checked_mul(&hundred) {
        Some(d) => d,
        None => {
            return Err(AppError::Internal("decimal out of range".to_owned()));
        },
    };
    let estimated_profit_after_fees = match profit_percentage.checked_sub(&total_fees) {
        Some(d) => d,
        None => {
            return Err(AppError::Internal("decimal out of range".to_owned()));
        },
    };
    let is_profitable = estimated_profit_after_fees.is_positive();
    let from_notional_24h = match notional_of(&from_krw, &from_volume) {
        Some(n) => n,
        None => {
            return Err(AppError::Internal("decimal out of range".to_owned()));
        },
    };
    let to_notional_24h = match notional_of(&to_krw, &to_volume) {
        Some(n) => n,
        None => {
            return Err(AppError::Internal("decimal out of range".to_owned()));
        },
    };
    Ok(
        DirectionalArbitrage {
            symbol: symbol.to_owned(),
            from_exchange: from_exchange.to_owned(),
            to_exchange: to_exchange.to_owned(),
            from_price: from_krw,
            to_price: to_krw,
            from_volume_24h: from_volume,
            to_volume_24h: to_volume,
            from_notional_24h,
            to_notional_24h,
            price_difference,
            profit_percentage,
            estimated_profit_after_fees,
            total_fees,
            is_profitable,
            fx_type,
            fx_rate,
        },
    )
}

/// Computes the directional arbitrage of a coin from its latest prices on
/// the two venues. Both prices are brought to KRW with the rate; the profit
/// percentage is the difference over the buying price, times one hundred;
/// the fees are taken off it. Fails where the buying price is zero, and where
/// a result cannot be held.
pub fn compute_arbitrage(
    symbol: &str,
    from_exchange: &str,
    to_exchange: &str,
    from_price: &Decimal,
    to_price: &Decimal,
    from_volume: Option<Decimal>,
    to_volume: Option<Decimal>,
    fx_rate: Decimal,
    fx_type: String,
    total_fees: Decimal,
) -> (r: Result<DirectionalArbitrage, AppError>)
    ensures
        r is Ok <==> arbitrage_of(
            quotes_from(
                symbol@,
                from_exchange@,
                to_exchange@,
                from_price@,
                to_price@,
                opt_dec(from_volume),
                opt_dec(to_volume),
                fx_rate@,
                fx_type@,
                total_fees@,
            ),
        ) is Some,
        r is Ok ==> r.unwrap()@ == arbitrage_of(
            quotes_from(
                symbol@,
                from_exchange@,
                to_exchange@,
                from_price@,
                to_price@,
                opt_dec(from_volume),
                opt_dec(to_volume),
                fx_rate@,
                fx_type@,
                total_fees@,
            ),
        ).unwrap(),
        r is Ok ==> arbitrage_means(
            quotes_from(
                symbol@,
                from_exchange@,
                to_exchange@,
                from_price@,
                to_price@,
                opt_dec(from_volume),
                opt_dec(to_volume),
                fx_rate@,
                fx_type@,
                total_fees@,
            ),
            r.unwrap()@,
        ),
        r is Err ==> r.unwrap_err() is Internal,
{
    let from_krw = match to_krw(from_exchange, from_price, &fx_rate) {
        Some(d) => d,
        None => {
            return Err(AppError::Internal("decimal out of range".to_owned()));
        },
    };
    let to_krw = match to_krw(to_exchange, to_price, &fx_rate) {
        Some(d) => d,
        None => {
            return Err(AppError::Internal("decimal out of range".to_owned()));
        },
    };
    arbitrage_from_krw(
        symbol,
        from_exchange,
        to_exchange,
        from_krw,
        to_krw,
        from_volume,
        to_volume,
        fx_rate,
        fx_type,
        total_fees,
    )
}

/// Once a domestic venue is found, more quotes change nothing.
pub proof fn lemma_domestic_row_stays(t: Tables, quotes: Seq<(int, int)>, n: int, m: int)
    requires
        0 <= n <= m,
        domestic_row(t, quotes, n) is Some,
    ensures
        domestic_row(t, quotes, m) == domestic_row(t, quotes, n),
    decreases m - n,
{
    if n < m {
        lemma_domestic_row_stays(t, quotes, n, m - 1);
    }
}

/// The quotes that the answer to a request is computed from, where both
/// venues have a recent price and the fees can be held.
pub open spec fn quotes_for(
    t: Tables,
    upstream: FxUpstream,
    symbol: Seq<char>,
    from_exchange: Seq<char>,
    to_exchange: Seq<char>,
    fx_source: FxSource,
    include_fees: bool,
    now: int,
) -> Quotes {
    quotes_at(
        t,
        upstream,
        symbol,
        from_exchange,
        to_exchange,
        fx_source,
        fees_of(include_fees).unwrap(),
        now,
        found_rows(t, symbol, from_exchange, to_exchange, now).0.unwrap(),
        found_rows(t, symbol, from_exchange, to_exchange, now).1.unwrap(),
    )
}

/// What the arbitrages hold, one by one.
pub open spec fn rows_of_list(list: Seq<DirectionalArbitrage>) -> Seq<ArbitrageRow> {
    list.map_values(|a: DirectionalArbitrage| a@)
}

/// The arbitrages of the first `n` symbols, in their order; a symbol whose
/// request ends in no arbitrage is left out.
pub open spec fn found_answers(
    t: Tables,
    upstream: FxUpstream,
    symbols: Seq<String>,
    n: int,
    from_exchange: Seq<char>,
    to_exchange: Seq<char>,
    fx_source: FxSource,
    include_fees: bool,
    now: int,
) -> Seq<ArbitrageRow>
    decreases n,
{
    if n <= 0 {
        Seq::empty()
    } else {
        let earlier = found_answers(
            t,
            upstream,
            symbols,
            n - 1,
            from_exchange,
            to_exchange,
            fx_source,
            include_fees,
            now,
        );
        match answer_of(
            t,
            upstream,
            symbols[n - 1]@,
            from_exchange,
            to_exchange,
            fx_source,
            include_fees,
            now,
        ) {
            Answer::Found(row) => earlier.push(row),
            _ => earlier,
        }
    }
}

/// `out` is the list of arbitrages between the two venues: `symbols` are
/// the symbols that the venues have in common, up to the limit; `unsorted`
/// holds their arbitrages in the order of the symbols; and `out` is
/// `unsorted` sorted stably by profit percentage, the greatest first.
pub open spec fn list_built(
    t: Tables,
    upstream: FxUpstream,
    from_exchange: Seq<char>,
    to_exchange: Seq<char>,
    fx_source: FxSource,
    include_fees: bool,
    limit: Option<i64>,
    now: int,
    symbols: Seq<String>,
    unsorted: Seq<DirectionalArbitrage>,
    out: Seq<DirectionalArbitrage>,
) -> bool {
    &&& t.common_answer(symbols, from_exchange, to_exchange, limit)
    &&& rows_of_list(unsorted) == found_answers(
        t,
        upstream,
        symbols,
        symbols.len() as int,
        from_exchange,
        to_exchange,
        fx_source,
        include_fees,
        now,
    )
    &&& is_stable_sort(unsorted, out)
}

/// Every arbitrage of a list is the arbitrage of one of the symbols, and
/// both venues have a recent price of that symbol.
pub proof fn lemma_found_answers_have_prices(
    t: Tables,
    upstream: FxUpstream,
    symbols: Seq<String>,
    n: int,
    from_exchange: Seq<char>,
    to_exchange: Seq<char>,
    fx_source: FxSource,
    include_fees: bool,
    now: int,
    j: int,
)
    requires
        0 <= n <= symbols.len(),
        0 <= j < found_answers(
            t,
            upstream,
            symbols,
            n,
            from_exchange,
            to_exchange,
            fx_source,
            include_fees,
            now,
        ).len(),
    ensures
        exists|i: int|
            0 <= i < n && #[trigger] answer_of(
                t,
                upstream,
                symbols[i]@,
                from_exchange,
                to_exchange,
                fx_source,
                include_fees,
                now,
            ) == Answer::Found(
                found_answers(
                    t,
                    upstream,
                    symbols,
                    n,
                    from_exchange,
                    to_exchange,
                    fx_source,
                    include_fees,
                    now,
                )[j],
            ) && found_rows(t, symbols[i]@, from_exchange, to_exchange, now).0 is Some
                && found_rows(t, symbols[i]@, from_exchange, to_exchange, now).1 is Some,
    decreases n,
{
    let earlier = found_answers(
        t,
        upstream,
        symbols,
        n - 1,
        from_exchange,
        to_exchange,
        fx_source,
        include_fees,
        now,
    );
    if j < earlier.len() {
        lemma_found_answers_have_prices(
            t,
            upstream,
            symbols,
            n - 1,
            from_exchange,
            to_exchange,
            fx_source,
            include_fees,
            now,
            j,
        );
        let i = choose|i: int|
            0 <= i < n - 1 && #[trigger] answer_of(
                t,
                upstream,
                symbols[i]@,
                from_exchange,
                to_exchange,
                fx_source,
                include_fees,
                now,
            ) == Answer::Found(earlier[j]) && found_rows(
                t,
                symbols[i]@,
                from_exchange,
                to_exchange,
                now,
            ).0 is Some && found_rows(t, symbols[i]@, from_exchange, to_exchange, now).1 is Some;
        assert(answer_of(
            t,
            upstream,
            symbols[i]@,
            from_exchange,
            to_exchange,
            fx_source,
            include_fees,
            now,
        ) == Answer::Found(earlier[j]));
    } else {
        assert(answer_of(
            t,
            upstream,
            symbols[n - 1]@,
            from_exchange,
            to_exchange,
            fx_source,
            include_fees,
            now,
        ) is Found);
    }
}

/// The point that records an arbitrage at the time `now`.
pub open spec fn point_of(row: ArbitrageRow, now: int) -> KimchiRow {
    KimchiRow {
        symbol: row.symbol,
        from_exchange: row.from_exchange,
        to_exchange: row.to_exchange,
        fx_type: row.fx_type,
        ts: now,
        from_price_krw: row.from_price,
        to_price_krw: row.to_price,
        profit_percentage: row.profit_percentage,
        from_volume_24h: row.from_volume_24h,
        to_volume_24h: row.to_volume_24h,
        from_notional_24h: row.from_notional_24h,
        to_notional_24h: row.to_notional_24h,
    }
}

/// `after` is `before` once the request is settled, which leaves `mid`, and
/// the point of the arbitrage is appended to the history.
pub open spec fn snapshot_via(
    before: Tables,
    mid: Tables,
    after: Tables,
    upstream: FxUpstream,
    symbol: Seq<char>,
    from_exchange: Seq<char>,
    to_exchange: Seq<char>,
    fx_source: FxSource,
    now: int,
    row: ArbitrageRow,
) -> bool {
    &&& request_settled(before, mid, upstream, symbol, from_exchange, to_exchange, fx_source, now)
    &&& mid.same_but_kimchi(after)
    &&& after.kimchi.len() == mid.kimchi.len() + 1
    &&& after.kimchi.drop_last() == mid.kimchi
    &&& after.kimchi.last()@ == point_of(row, now)
}

/// A point that was recorded at the time `now` is part of every read of the
/// history at that time, however short the window that the read covers.
pub proof fn lemma_recorded_point_is_read(
    t: Tables,
    picked: Seq<int>,
    minutes: int,
    now: int,
)
    requires
        t.kimchi.len() > 0,
        t.kimchi.last().ts == now,
        minutes >= 0,
        t.kimchi_answer(
            picked,
            t.kimchi.last().symbol@,
            t.kimchi.last().from_exchange@,
            t.kimchi.last().to_exchange@,
            now - minutes * 60000,
        ),
    ensures
        crate::utils::ranking::occurs(picked, t.kimchi.len() - 1),
{
    assert(minutes * 60000 >= 0) by (nonlinear_arith)
        requires
            minutes >= 0,
    ;
    assert(t.kimchi_match(
        t.kimchi.len() - 1,
        t.kimchi.last().symbol@,
        t.kimchi.last().from_exchange@,
        t.kimchi.last().to_exchange@,
        now - minutes * 60000,
    ));
}

/// The arbitrage calculator.
#[derive(Debug, Clone)]
pub struct ArbitrageService {
    exchange_rate_service: ExchangeRateService,
}

impl ArbitrageService {
    /// The key that the calculator's rate service asks the bank with.
    pub closed spec fn key(&self) -> Seq<char> {
        self.exchange_rate_service.key()
    }

    /// A calculator whose rate service asks the bank with the key.
    pub fn new(auth_key: String) -> (service: Self)
        ensures
            service.key() == auth_key@,
    {
        ArbitrageService { exchange_rate_service: ExchangeRateService::new(auth_key) }
    }

    /// The fee total of a trade in the coin between the two venues, in
    /// percent points: the trading fee on both sides plus the exchange fee,
    /// 0.25. The venues and the coin's withdrawal fee do not enter it.
    pub fn calculate_total_fees(&self, symbol: &str, buy_exchange: &str, sell_exchange: &str) -> (r:
        Result<Decimal, AppError>)
        ensures
            r is Ok <==> fee_total() is Some,
            r is Ok ==> r.unwrap()@ == fee_total().unwrap() && r.unwrap()@.same_value(
                Dec { unscaled: 25, scale: 2 },
            ),
            r is Err ==> r.unwrap_err() is Internal,
    {
        match fee_model(symbol) {
            Ok(fees) => Ok(fees.total_fee),
            Err(e) => Err(e),
        }
    }

    /// For each venue, its most recent price and volume of the coin, from the
    /// price rows of the last thirty minutes.
    pub fn get_latest_price_volume_for_symbol(&self, store: &Store, symbol: &str, now: i64) -> (r:
        Vec<(String, Decimal, Option<Decimal>)>)
        requires
            store@.wf(),
        ensures
            r@.len() == store@.quotes_of(symbol@, now as int).len(),
            forall|j: int|
                0 <= j < r@.len() ==> {
                    let q = #[trigger] store@.quotes_of(symbol@, now as int)[j];
                    &&& 0 <= q.0 < store@.exchanges.len()
                    &&& 0 <= q.1 < store@.prices.len()
                    &&& r@[j].0@ == store@.exchanges[q.0].name@
                    &&& r@[j].1@ == store@.prices[q.1].price@
                    &&& opt_dec(r@[j].2) == opt_dec(store@.prices[q.1].volume_24h)
                },
    {
        store.latest_price_volume_per_exchange(symbol, now)
    }

    /// For each venue, its most recent price of the coin, from the price rows
    /// of the last thirty minutes.
    pub fn get_latest_prices_for_symbol(&self, store: &Store, symbol: &str, now: i64) -> (r: Vec<
        (String, Decimal),
    >)
        requires
            store@.wf(),
        ensures
            r@.len() == store@.quotes_of(symbol@, now as int).len(),
            forall|j: int|
                0 <= j < r@.len() ==> {
                    let q = #[trigger] store@.quotes_of(symbol@, now as int)[j];
                    &&& 0 <= q.0 < store@.exchanges.len()
                    &&& 0 <= q.1 < store@.prices.len()
                    &&& r@[j].0@ == store@.exchanges[q.0].name@
                    &&& r@[j].1@ == store@.prices[q.1].price@
                },
    {
        let rows = store.latest_price_volume_per_exchange(symbol, now);
        let mut out: Vec<(String, Decimal)> = Vec::new();
        let mut j: usize = 0;
        while j < rows.len()
            invariant
                j <= rows@.len(),
                out@.len() == j,
                forall|k: int|
                    0 <= k < j ==> (#[trigger] out@[k]).0@ == rows@[k].0@ && out@[k].1@
                        == rows@[k].1@,
            decreases rows@.len() - j,
        {
            out.push((rows[j].0.clone(), rows[j].1.clone()));
            j += 1;
        }
        proof {
            assert forall|j: int| 0 <= j < out@.len() implies {
                let q = #[trigger] store@.quotes_of(symbol@, now as int)[j];
                &&& 0 <= q.0 < store@.exchanges.len()
                &&& 0 <= q.1 < store@.prices.len()
                &&& out@[j].0@ == store@.exchanges[q.0].name@
                &&& out@[j].1@ == store@.prices[q.1].price@
            } by {
                assert(out@[j].0@ == rows@[j].0@);
            }
        }
        out
    }

    /// The market rate of USDT in KRW: the latest price of USDT on the first
    /// domestic venue that has one.
    pub fn get_usdt_krw_price(&self, store: &Store, now: i64) -> (r: Result<Decimal, AppError>)
        requires
            store@.wf(),
        ensures
            r is Ok <==> usdt_rate(store@, now as int) is Some,
            r is Ok ==> r.unwrap()@ == usdt_rate(store@, now as int).unwrap(),
            r is Err ==> r.unwrap_err() is NotFound && r.unwrap_err().detail()
                == "USDT price not found"@,
    {
        let rows = store.latest_price_volume_per_exchange("USDT", now);
        let ghost quotes = store@.quotes_of("USDT"@, now as int);
        let mut j: usize = 0;
        while j < rows.len()
            invariant
                j <= rows@.len(),
                quotes == store@.quotes_of("USDT"@, now as int),
                rows@.len() == quotes.len(),
                forall|k: int|
                    0 <= k < rows@.len() ==> {
                        let q = #[trigger] quotes[k];
                        &&& 0 <= q.0 < store@.exchanges.len()
                        &&& 0 <= q.1 < store@.prices.len()
                        &&& rows@[k].0@ == store@.exchanges[q.0].name@
                        &&& rows@[k].1@ == store@.prices[q.1].price@
                    },
                domestic_row(store@, quotes, j as int) is None,
            decreases rows@.len() - j,
        {
            proof {
                let q = quotes[j as int];
                assert(rows@[j as int].0@ == store@.exchanges[q.0].name@);
            }
            if same_text(rows[j].0.as_str(), "Upbit") || same_text(rows[j].0.as_str(), "Bithumb") {
                proof {
                    assert(domestic_row(store@, quotes, j + 1) == Some(quotes[j as int].1));
                    lemma_domestic_row_stays(store@, quotes, j + 1, quotes.len() as int);
                }
                return Ok(rows[j].1.clone());
            }
            j += 1;
        }
        Err(AppError::NotFound("USDT price not found".to_owned()))
    }

    /// Resolves the rate between USD and KRW. With the market as the source,
    /// the market rate of USDT is used where there is one. Otherwise, and with
    /// the reference rate as the source, the latest persisted rate of the US
    /// dollar is used; where none is persisted it is acquired; and where that
    /// fails the rate of last resort is used.
    pub fn resolve_fx_rate(
        &self,
        store: &mut Store,
        upstream: &FxUpstream,
        fx_source: FxSource,
        now: i64,
    ) -> (rate: Decimal)
        requires
            old(store)@.wf(),
        ensures
            final(store)@.wf(),
            rate@ == fx_rate_of(old(store)@, *upstream, fx_source, now as int),
            fx_settled(old(store)@, final(store)@, *upstream, fx_source, now as int),
    {
        match fx_source {
            FxSource::UsdtKrw => {
                match self.get_usdt_krw_price(store, now) {
                    Ok(price) => {
                        return price;
                    },
                    Err(_) => {},
                }
            },
            FxSource::UsdKrw => {},
        }
        match self.exchange_rate_service.get_latest_usd_krw_rate(store, upstream, now) {
            Ok(rate) => rate,
            Err(_) => ExchangeRateService::get_fallback_usd_krw_rate(),
        }
    }

    /// Brings the prices of the two sides to KRW: the rate is resolved, and
    /// the price of a side on Binance is multiplied by it. Returns the two
    /// prices in KRW, the rate, and the tag of the source that was asked for.
    /// Fails where a product cannot be held.
    pub fn adjust_prices_for_currency(
        &self,
        store: &mut Store,
        upstream: &FxUpstream,
        from_price: &Decimal,
        to_price: &Decimal,
        from_exchange: &str,
        to_exchange: &str,
        fx_source: &FxSource,
        now: i64,
    ) -> (r: Result<(Decimal, Decimal, Decimal, String), AppError>)
        requires
            old(store)@.wf(),
        ensures
            final(store)@.wf(),
            fx_settled(old(store)@, final(store)@, *upstream, *fx_source, now as int),
            r is Ok <==> krw_price(
                from_exchange@,
                from_price@,
                fx_rate_of(old(store)@, *upstream, *fx_source, now as int),
            ) is Some && krw_price(
                to_exchange@,
                to_price@,
                fx_rate_of(old(store)@, *upstream, *fx_source, now as int),
            ) is Some,
            r is Ok ==> {
                let rate = fx_rate_of(old(store)@, *upstream, *fx_source, now as int);
                &&& r.unwrap().0@ == krw_price(from_exchange@, from_price@, rate).unwrap()
                &&& r.unwrap().1@ == krw_price(to_exchange@, to_price@, rate).unwrap()
                &&& r.unwrap().2@ == rate
                &&& r.unwrap().3@ == fx_source.tag()
                &&& krw_means(from_exchange@, from_price@, rate, r.unwrap().0@)
                &&& krw_means(to_exchange@, to_price@, rate, r.unwrap().1@)
            },
            r is Err ==> r.unwrap_err() is Internal,
    {
        let rate = self.resolve_fx_rate(store, upstream, *fx_source, now);
        let adjusted_from = match to_krw(from_exchange, from_price, &rate) {
            Some(d) => d,
            None => {
                return Err(AppError::Internal("decimal out of range".to_owned()));
            },
        };
        let adjusted_to = match to_krw(to_exchange, to_price, &rate) {
            Some(d) => d,
            None => {
                return Err(AppError::Internal("decimal out of range".to_owned()));
            },
        };
        Ok((adjusted_from, adjusted_to, rate, fx_source.to_string()))
    }

    /// The directional arbitrage of a coin between two venues: the profit of
    /// buying it on `from_exchange` and selling it on `to_exchange`, from the
    /// latest prices of the last thirty minutes. Fails with `NotFound` where a
    /// venue has no such price, and only there; each venue is looked up on its
    /// own, so the same venue on both sides gives a profit of zero.
    pub fn get_directional_arbitrage_with_options(
        &self,
        store: &mut Store,
        upstream: &FxUpstream,
        symbol: &str,
        from_exchange: &str,
        to_exchange: &str,
        fx_source: FxSource,
        include_fees: bool,
        now: i64,
    ) -> (r: Result<DirectionalArbitrage, AppError>)
        requires
            old(store)@.wf(),
        ensures
            final(store)@.wf(),
            request_settled(
                old(store)@,
                final(store)@,
                *upstream,
                symbol@,
                from_exchange@,
                to_exchange@,
                fx_source,
                now as int,
            ),
            returns_answer(
                answer_of(
                    old(store)@,
                    *upstream,
                    symbol@,
                    from_exchange@,
                    to_exchange@,
                    fx_source,
                    include_fees,
                    now as int,
                ),
                from_exchange@,
                to_exchange@,
                r,
            ),
            r is Ok ==> arbitrage_means(
                quotes_for(
                    old(store)@,
                    *upstream,
                    symbol@,
                    from_exchange@,
                    to_exchange@,
                    fx_source,
                    include_fees,
                    now as int,
                ),
                r.unwrap()@,
            ),
            (r is Err && r.unwrap_err() is NotFound) <==> !(quoted(
                old(store)@,
                old(store)@.quotes_of(symbol@, now as int),
                old(store)@.quotes_of(symbol@, now as int).len() as int,
                from_exchange@,
            ) && quoted(
                old(store)@,
                old(store)@.quotes_of(symbol@, now as int),
                old(store)@.quotes_of(symbol@, now as int).len() as int,
                to_exchange@,
            )),
            r is Err && r.unwrap_err() is NotFound ==> final(store)@ == old(store)@,
    {
        let rows = store.latest_price_volume_per_exchange(symbol, now);
        let ghost quotes = store@.quotes_of(symbol@, now as int);
        let ghost t = store@;
        let mut from_at: Option<usize> = None;
        let mut to_at: Option<usize> = None;
        let mut j: usize = 0;
        while j < rows.len()
            invariant
                j <= rows@.len(),
                t == store@,
                quotes == t.quotes_of(symbol@, now as int),
                rows@.len() == quotes.len(),
                forall|k: int|
                    0 <= k < rows@.len() ==> {
                        let q = #[trigger] quotes[k];
                        &&& 0 <= q.0 < t.exchanges.len()
                        &&& 0 <= q.1 < t.prices.len()
                        &&& rows@[k].0@ == t.exchanges[q.0].name@
                        &&& rows@[k].1@ == t.prices[q.1].price@
                        &&& opt_dec(rows@[k].2) == opt_dec(t.prices[q.1].volume_24h)
                    },
                from_at is Some ==> from_at.unwrap() < j,
                to_at is Some ==> to_at.unwrap() < j,
                side_rows(t, quotes, j as int, from_exchange@, to_exchange@).0 == (match from_at {
                    Some(a) => Some(quotes[a as int].1),
                    None => None,
                }),
                side_rows(t, quotes, j as int, from_exchange@, to_exchange@).1 == (match to_at {
                    Some(a) => Some(quotes[a as int].1),
                    None => None,
                }),
            decreases rows@.len() - j,
        {
            proof {
                let q = quotes[j as int];
                assert(rows@[j as int].0@ == t.exchanges[q.0].name@);
            }
            if same_text(rows[j].0.as_str(), from_exchange) {
                from_at = Some(j);
            }
            if same_text(rows[j].0.as_str(), to_exchange) {
                to_at = Some(j);
            }
            j += 1;
        }
        proof {
            lemma_side_rows_found(t, quotes, quotes.len() as int, from_exchange@, to_exchange@);
        }
        let from_row = match from_at {
            Some(a) => a,
            None => {
                return Err(AppError::NotFound(joined("Price not found for ", from_exchange)));
            },
        };
        let to_row = match to_at {
            Some(a) => a,
            None => {
                return Err(AppError::NotFound(joined("Price not found for ", to_exchange)));
            },
        };
        proof {
            let qf = quotes[from_row as int];
            let qt = quotes[to_row as int];
            assert(rows@[from_row as int].1@ == t.prices[qf.1].price@);
            assert(rows@[to_row as int].1@ == t.prices[qt.1].price@);
        }
        let (adjusted_from, adjusted_to, fx_rate, fx_type) =
            match self.adjust_prices_for_currency(
            store,
            upstream,
            &rows[from_row].1,
            &rows[to_row].1,
            from_exchange,
            to_exchange,
            &fx_source,
            now,
        ) {
            Ok(adjusted) => adjusted,
            Err(e) => {
                return Err(e);
            },
        };
        let total_fees = if include_fees {
            match self.calculate_total_fees(symbol, from_exchange, to_exchange) {
                Ok(fees) => fees,
                Err(e) => {
                    return Err(e);
                },
            }
        } else {
            Decimal::from_u32(0)
        };
        arbitrage_from_krw(
            symbol,
            from_exchange,
            to_exchange,
            adjusted_from,
            adjusted_to,
            copy_optional(&rows[from_row].2),
            copy_optional(&rows[to_row].2),
            fx_rate,
            fx_type,
            total_fees,
        )
    }

    /// The symbols that both venues list, in the order of texts, up to the
    /// limit.
    pub fn get_common_symbols(
        &self,
        store: &Store,
        from_exchange: &str,
        to_exchange: &str,
        limit: Option<i64>,
    ) -> (r: Result<Vec<String>, AppError>)
        requires
            store@.wf(),
        ensures
            r is Err <==> limit is Some && limit.unwrap() < 0,
            r is Err ==> r.unwrap_err() is Database && r.unwrap_err().detail()
                == "negative limit"@,
            r is Ok ==> store@.common_answer(r.unwrap()@, from_exchange@, to_exchange@, limit),
    {
        store.common_symbols(from_exchange, to_exchange, limit)
    }

    /// The history of the premium of a coin between two venues over the last
    /// `minutes`, the earlier points first.
    pub fn get_kimchi_history(
        &self,
        store: &Store,
        symbol: &str,
        from_exchange: &str,
        to_exchange: &str,
        minutes: i64,
        now: i64,
    ) -> (r: Vec<KimchiHistoryPoint>)
        ensures
            exists|picked: Seq<int>| #[trigger]
                store@.kimchi_read(
                    r@,
                    picked,
                    symbol@,
                    from_exchange@,
                    to_exchange@,
                    now - minutes * 60000,
                ),
    {
        store.query_kimchi(symbol, from_exchange, to_exchange, minutes, now)
    }

    /// Records the premium of a coin between two venues at the time `now`:
    /// the arbitrage is computed without fees and its point is appended to
    /// the history. Fails, and records nothing, where the arbitrage cannot be
    /// computed.
    pub fn record_kimchi_snapshot(
        &self,
        store: &mut Store,
        upstream: &FxUpstream,
        symbol: &str,
        from_exchange: &str,
        to_exchange: &str,
        fx_source: FxSource,
        now: i64,
    ) -> (r: Result<(), AppError>)
        requires
            old(store)@.wf(),
        ensures
            final(store)@.wf(),
            match answer_of(
                old(store)@,
                *upstream,
                symbol@,
                from_exchange@,
                to_exchange@,
                fx_source,
                false,
                now as int,
            ) {
                Answer::Found(row) => r is Ok && exists|mid: Tables| #[trigger]
                    snapshot_via(
                        old(store)@,
                        mid,
                        final(store)@,
                        *upstream,
                        symbol@,
                        from_exchange@,
                        to_exchange@,
                        fx_source,
                        now as int,
                        row,
                    ),
                Answer::MissingFrom => r is Err && r.unwrap_err() is NotFound
                    && r.unwrap_err().detail() == "Price not found for "@ + from_exchange@
                    && final(store)@ == old(store)@,
                Answer::MissingTo => r is Err && r.unwrap_err() is NotFound
                    && r.unwrap_err().detail() == "Price not found for "@ + to_exchange@
                    && final(store)@ == old(store)@,
                Answer::Failed => r is Err && r.unwrap_err() is Internal && request_settled(
                    old(store)@,
                    final(store)@,
                    *upstream,
                    symbol@,
                    from_exchange@,
                    to_exchange@,
                    fx_source,
                    now as int,
                ),
            },
    {
        let ar = match self.get_directional_arbitrage_with_options(
            store,
            upstream,
            symbol,
            from_exchange,
            to_exchange,
            fx_source,
            false,
            now,
        ) {
            Ok(ar) => ar,
            Err(e) => {
                return Err(e);
            },
        };
        let ghost mid = store@;
        let ghost row = ar@;
        let point = KimchiHistoryPoint {
            symbol: ar.symbol,
            from_exchange: ar.from_exchange,
            to_exchange: ar.to_exchange,
            fx_type: ar.fx_type,
            ts: now,
            from_price_krw: ar.from_price,
            to_price_krw: ar.to_price,
            profit_percentage: ar.profit_percentage,
            from_volume_24h: ar.from_volume_24h,
            to_volume_24h: ar.to_volume_24h,
            from_notional_24h: ar.from_notional_24h,
            to_notional_24h: ar.to_notional_24h,
        };
        assert(point@ == point_of(row, now as int));
        store.insert_kimchi(point);
        proof {
            assert(store@.kimchi.drop_last() =~= mid.kimchi);
            assert(snapshot_via(
                old(store)@,
                mid,
                store@,
                *upstream,
                symbol@,
                from_exchange@,
                to_exchange@,
                fx_source,
                now as int,
                row,
            ));
        }
        Ok(())
    }

    /// The arbitrages between two venues for the symbols that both list, the
    /// most profitable first. A symbol for which no arbitrage can be computed,
    /// such as one that lacks a recent price on either side, is left out.
    /// Fails on a negative limit.
    pub fn get_directional_arbitrage_list(
        &self,
        store: &mut Store,
        upstream: &FxUpstream,
        from_exchange: &str,
        to_exchange: &str,
        fx_source: FxSource,
        include_fees: bool,
        limit: Option<i64>,
        now: i64,
    ) -> (r: Result<Vec<DirectionalArbitrage>, AppError>)
        requires
            old(store)@.wf(),
        ensures
            final(store)@.wf(),
            settled(old(store)@, final(store)@, *upstream, now as int),
            r is Err <==> limit is Some && limit.unwrap() < 0,
            r is Err ==> r.unwrap_err() is Database && r.unwrap_err().detail()
                == "negative limit"@ && final(store)@ == old(store)@,
            r is Ok ==> exists|symbols: Seq<String>, unsorted: Seq<DirectionalArbitrage>| #[trigger]
                list_built(
                    old(store)@,
                    *upstream,
                    from_exchange@,
                    to_exchange@,
                    fx_source,
                    include_fees,
                    limit,
                    now as int,
                    symbols,
                    unsorted,
                    r.unwrap()@,
                ),
            r is Ok ==> forall|i: int, j: int|
                0 <= i < j < r.unwrap()@.len() ==> (#[trigger] r.unwrap()@[i]).profit_percentage@.at_least(
                    (#[trigger] r.unwrap()@[j]).profit_percentage@,
                ),
    {
        let symbols = match self.get_common_symbols(store, from_exchange, to_exchange, limit) {
            Ok(symbols) => symbols,
            Err(e) => {
                return Err(e);
            },
        };
        let ghost first = store@;
        let mut out: Vec<DirectionalArbitrage> = Vec::new();
        let mut i: usize = 0;
        assert(rows_of_list(out@) =~= Seq::<ArbitrageRow>::empty());
        while i < symbols.len()
            invariant
                i <= symbols@.len(),
                first == old(store)@,
                store@.wf(),
                settled(first, store@, *upstream, now as int),
                rows_of_list(out@) == found_answers(
                    first,
                    *upstream,
                    symbols@,
                    i as int,
                    from_exchange@,
                    to_exchange@,
                    fx_source,
                    include_fees,
                    now as int,
                ),
            decreases symbols@.len() - i,
        {
            let ghost cur = store@;
            let ghost earlier = out@;
            proof {
                lemma_settled_same_answer(
                    first,
                    cur,
                    *upstream,
                    symbols@[i as int]@,
                    from_exchange@,
                    to_exchange@,
                    fx_source,
                    include_fees,
                    now as int,
                );
            }
            match self.get_directional_arbitrage_with_options(
                store,
                upstream,
                symbols[i].as_str(),
                from_exchange,
                to_exchange,
                fx_source,
                include_fees,
                now,
            ) {
                Ok(item) => {
                    out.push(item);
                    assert(rows_of_list(out@) =~= rows_of_list(earlier).push(item@));
                },
                Err(_) => {},
            }
            i += 1;
        }
        let ghost unsorted = out@;
        let sorted = stable_sort(out);
        proof {
            assert(list_built(
                first,
                *upstream,
                from_exchange@,
                to_exchange@,
                fx_source,
                include_fees,
                limit,
                now as int,
                symbols@,
                unsorted,
                sorted@,
            ));
            assert forall|i: int, j: int| 0 <= i < j < sorted@.len() implies (
            #[trigger] sorted@[i]).profit_percentage@.at_least(
                (#[trigger] sorted@[j]).profit_percentage@,
            ) by {
                lemma_stable_sort_is_sorted(unsorted, sorted@, i, j);
            }
        }
        Ok(sorted)
    }
}

} // verus!
