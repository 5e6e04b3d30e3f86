//! The results of the arbitrage calculator.

use vstd::prelude::*;
use crate::decimal::Dec;
use crate::decimal::Decimal;
use crate::decimal::lemma_at_least_transitive;
use crate::decimal::lemma_less_transitive;
use crate::models::exchange::ExchangeType;
use crate::models::exchange::opt_dec;
use crate::utils::ranking::Ranked;

verus! {

/// An opportunity between two venues, with a recommendation.
#[derive(Debug, Clone)]
pub struct ArbitrageOpportunity {
    pub symbol: String,
    pub kimchi_premium: Decimal,
    pub buy_exchange: ExchangeType,
    pub sell_exchange: ExchangeType,
    pub buy_price: Decimal,
    pub sell_price: Decimal,
    pub estimated_profit: Decimal,
    pub total_fees: Decimal,
    pub recommendation: ArbitrageRecommendation,
}

/// The profit of buying a coin on one venue and selling it on another, both
/// prices in KRW.
#[derive(Debug, Clone)]
pub struct DirectionalArbitrage {
    pub symbol: String,
    pub from_exchange: String,
    pub to_exchange: String,
    /// Price on the buying venue, in KRW.
    pub from_price: Decimal,
    /// Price on the selling venue, in KRW.
    pub to_price: Decimal,
    pub from_volume_24h: Option<Decimal>,
    pub to_volume_24h: Option<Decimal>,
    /// `from_price * from_volume_24h`, where the volume is known.
    pub from_notional_24h: Option<Decimal>,
    /// `to_price * to_volume_24h`, where the volume is known.
    pub to_notional_24h: Option<Decimal>,
    /// `to_price - from_price`.
    pub price_difference: Decimal,
    /// `price_difference / from_price * 100`.
    pub profit_percentage: Decimal,
    /// `profit_percentage - total_fees`.
    pub estimated_profit_after_fees: Decimal,
    /// The fee total in percent points, zero where fees are left out.
    pub total_fees: Decimal,
    /// Whether `estimated_profit_after_fees` is above zero.
    pub is_profitable: bool,
    /// The rate source that was asked for: `usdkrw` or `usdtkrw`.
    pub fx_type: String,
    /// The rate that was used.
    pub fx_rate: Decimal,
}

/// What a directional arbitrage holds, as mathematics.
pub struct ArbitrageRow {
    pub symbol: Seq<char>,
    pub from_exchange: Seq<char>,
    pub to_exchange: Seq<char>,
    pub from_price: Dec,
    pub to_price: Dec,
    pub from_volume_24h: Option<Dec>,
    pub to_volume_24h: Option<Dec>,
    pub from_notional_24h: Option<Dec>,
    pub to_notional_24h: Option<Dec>,
    pub price_difference: Dec,
    pub profit_percentage: Dec,
    pub estimated_profit_after_fees: Dec,
    pub total_fees: Dec,
    pub is_profitable: bool,
    pub fx_type: Seq<char>,
    pub fx_rate: Dec,
}

impl View for DirectionalArbitrage {
    type V = ArbitrageRow;

    open spec fn view(&self) -> ArbitrageRow {
        ArbitrageRow {
            symbol: self.symbol@,
            from_exchange: self.from_exchange@,
            to_exchange: self.to_exchange@,
            from_price: self.from_price@,
            to_price: self.to_price@,
            from_volume_24h: opt_dec(self.from_volume_24h),
            to_volume_24h: opt_dec(self.to_volume_24h),
            from_notional_24h: opt_dec(self.from_notional_24h),
            to_notional_24h: opt_dec(self.to_notional_24h),
            price_difference: self.price_difference@,
            profit_percentage: self.profit_percentage@,
            estimated_profit_after_fees: self.estimated_profit_after_fees@,
            total_fees: self.total_fees@,
            is_profitable: self.is_profitable,
            fx_type: self.fx_type@,
            fx_rate: self.fx_rate@,
        }
    }
}

/// What to do about an opportunity.
#[derive(Debug, Clone)]
pub enum ArbitrageRecommendation {
    Buy { profit_percentage: Decimal },
    Sell { profit_percentage: Decimal },
    Hold { reason: String },
}

/// The premium of a domestic price over the foreign price in KRW.
#[derive(Debug, Clone)]
pub struct KimchiPremium {
    pub symbol: String,
    pub domestic_price: Decimal,
    pub foreign_price: Decimal,
    pub premium_percentage: Decimal,
    pub exchange_rate: Decimal,
}

/// The fee model of one trade. The rates are in percent points, the
/// withdrawal fee in units of the coin.
#[derive(Debug, Clone)]
pub struct FeeCalculation {
    pub trading_fee: Decimal,
    pub withdrawal_fee: Decimal,
    pub exchange_fee: Decimal,
    /// Trading fee on both sides plus the exchange fee. The withdrawal fee is
    /// in another unit and is no part of it.
    pub total_fee: Decimal,
}

/// One recorded point of the premium between two venues.
#[derive(Debug, Clone)]
pub struct KimchiHistoryPoint {
    pub symbol: String,
    pub from_exchange: String,
    pub to_exchange: String,
    pub fx_type: String,
    /// Milliseconds since the Unix epoch.
    pub ts: i64,
    pub from_price_krw: Decimal,
    pub to_price_krw: Decimal,
    pub profit_percentage: Decimal,
    pub from_volume_24h: Option<Decimal>,
    pub to_volume_24h: Option<Decimal>,
    pub from_notional_24h: Option<Decimal>,
    pub to_notional_24h: Option<Decimal>,
}

/// What a recorded point holds, as mathematics.
pub struct KimchiRow {
    pub symbol: Seq<char>,
    pub from_exchange: Seq<char>,
    pub to_exchange: Seq<char>,
    pub fx_type: Seq<char>,
    pub ts: int,
    pub from_price_krw: Dec,
    pub to_price_krw: Dec,
    pub profit_percentage: Dec,
    pub from_volume_24h: Option<Dec>,
    pub to_volume_24h: Option<Dec>,
    pub from_notional_24h: Option<Dec>,
    pub to_notional_24h: Option<Dec>,
}

impl View for KimchiHistoryPoint {
    type V = KimchiRow;

    open spec fn view(&self) -> KimchiRow {
        KimchiRow {
            symbol: self.symbol@,
            from_exchange: self.from_exchange@,
            to_exchange: self.to_exchange@,
            fx_type: self.fx_type@,
            ts: self.ts as int,
            from_price_krw: self.from_price_krw@,
            to_price_krw: self.to_price_krw@,
            profit_percentage: self.profit_percentage@,
            from_volume_24h: opt_dec(self.from_volume_24h),
            to_volume_24h: opt_dec(self.to_volume_24h),
            from_notional_24h: opt_dec(self.from_notional_24h),
            to_notional_24h: opt_dec(self.to_notional_24h),
        }
    }
}

/// A copy of an optional decimal.
pub fn copy_optional(d: &Option<Decimal>) -> (copy: Option<Decimal>)
    ensures
        opt_dec(copy) == opt_dec(*d),
{
    match d {
        Some(x) => Some(x.clone()),
        None => None,
    }
}

impl KimchiHistoryPoint {
    /// A copy of the point.
    pub fn copy(&self) -> (point: KimchiHistoryPoint)
        ensures
            point@ == self@,
    {
        KimchiHistoryPoint {
            symbol: self.symbol.clone(),
            from_exchange: self.from_exchange.clone(),
            to_exchange: self.to_exchange.clone(),
            fx_type: self.fx_type.clone(),
            ts: self.ts,
            from_price_krw: self.from_price_krw.clone(),
            to_price_krw: self.to_price_krw.clone(),
            profit_percentage: self.profit_percentage.clone(),
            from_volume_24h: copy_optional(&self.from_volume_24h),
            to_volume_24h: copy_optional(&self.to_volume_24h),
            from_notional_24h: copy_optional(&self.from_notional_24h),
            to_notional_24h: copy_optional(&self.to_notional_24h),
        }
    }
}

/// Points are ranked by their time, the earlier first.
impl Ranked for KimchiHistoryPoint {
    open spec fn precedes(&self, other: &Self) -> bool {
        self.ts < other.ts
    }

    fn stands_before(&self, other: &Self) -> (r: bool) {
        self.ts < other.ts
    }

    proof fn lemma_strict_weak_order(a: &Self, b: &Self, c: &Self) {
    }
}

/// Arbitrages are ranked by their profit percentage, the greater first.
impl Ranked for DirectionalArbitrage {
    open spec fn precedes(&self, other: &Self) -> bool {
        other.profit_percentage@.less(self.profit_percentage@)
    }

    fn stands_before(&self, other: &Self) -> (r: bool) {
        other.profit_percentage.less_than(&self.profit_percentage)
    }

    proof fn lemma_strict_weak_order(a: &Self, b: &Self, c: &Self) {
        let x = a.profit_percentage@;
        let y = b.profit_percentage@;
        let z = c.profit_percentage@;
        if y.less(x) && z.less(y) {
            lemma_less_transitive(z, y, x);
        }
        if !y.less(x) && !z.less(y) {
            lemma_at_least_transitive(z, y, x);
        }
    }
}

} // verus!
