//! Venues, their price rows and the tickers that they answer with.

use vstd::prelude::*;
use crate::decimal::Dec;
use crate::decimal::Decimal;
use crate::text::joined;
use crate::text::same_text;

verus! {

/// A venue's seeded row.
#[derive(Debug, Clone)]
pub struct Exchange {
    pub id: i32,
    pub name: String,
    pub country: String,
    pub api_base_url: String,
    /// Milliseconds since the Unix epoch.
    pub created_at: i64,
}

/// A venue that the backend ingests from.
#[derive(Debug, Clone, Copy, PartialEq, Eq, Structural)]
pub enum ExchangeType {
    /// The foreign venue, quoted in USDT.
    Binance,
    /// A domestic venue, quoted in KRW.
    Upbit,
    /// A domestic venue, quoted in KRW.
    Bithumb,
}

impl ExchangeType {
    /// The canonical name of the venue.
    pub open spec fn name(self) -> Seq<char> {
        match self {
            ExchangeType::Binance => "Binance"@,
            ExchangeType::Upbit => "Upbit"@,
            ExchangeType::Bithumb => "Bithumb"@,
        }
    }

    /// The currency that the venue quotes in.
    pub open spec fn quote(self) -> Seq<char> {
        match self {
            ExchangeType::Binance => "USDT"@,
            ExchangeType::Upbit => "KRW"@,
            ExchangeType::Bithumb => "KRW"@,
        }
    }

    /// The venue's own pair string for a coin: `BTCUSDT`, `KRW-BTC`, `BTC_KRW`.
    pub open spec fn market_symbol(self, base: Seq<char>) -> Seq<char> {
        match self {
            ExchangeType::Binance => base + "USDT"@,
            ExchangeType::Upbit => "KRW-"@ + base,
            ExchangeType::Bithumb => base + "_KRW"@,
        }
    }

    /// The venue that a lowercase name stands for.
    pub open spec fn of_lowercase(lower: Seq<char>) -> Option<ExchangeType> {
        if lower == "binance"@ {
            Some(ExchangeType::Binance)
        } else if lower == "upbit"@ {
            Some(ExchangeType::Upbit)
        } else if lower == "bithumb"@ {
            Some(ExchangeType::Bithumb)
        } else {
            None
        }
    }

    /// The venue that a canonical name stands for.
    pub open spec fn of_name(name: Seq<char>) -> Option<ExchangeType> {
        if name == "Binance"@ {
            Some(ExchangeType::Binance)
        } else if name == "Upbit"@ {
            Some(ExchangeType::Upbit)
        } else if name == "Bithumb"@ {
            Some(ExchangeType::Bithumb)
        } else {
            None
        }
    }

    /// The canonical name of the venue.
    pub fn to_string(&self) -> (name: String)
        ensures
            name@ == self.name(),
    {
        match self {
            ExchangeType::Binance => "Binance".to_owned(),
            ExchangeType::Upbit => "Upbit".to_owned(),
            ExchangeType::Bithumb => "Bithumb".to_owned(),
        }
    }

    /// The currency that the venue quotes in.
    pub fn quote_currency(&self) -> (quote: String)
        ensures
            quote@ == self.quote(),
    {
        match self {
            ExchangeType::Binance => "USDT".to_owned(),
            ExchangeType::Upbit => "KRW".to_owned(),
            ExchangeType::Bithumb => "KRW".to_owned(),
        }
    }

    /// The venue's own pair string for the coin `base`.
    pub fn market_symbol_for(&self, base: &str) -> (symbol: String)
        ensures
            symbol@ == self.market_symbol(base@),
    {
        match self {
            ExchangeType::Binance => joined(base, "USDT"),
            ExchangeType::Upbit => joined("KRW-", base),
            ExchangeType::Bithumb => joined(base, "_KRW"),
        }
    }

    /// The venue that the lowercase name `lower` stands for, if any.
    pub fn from_lowercase(lower: &str) -> (venue: Option<ExchangeType>)
        ensures
            venue == ExchangeType::of_lowercase(lower@),
    {
        if same_text(lower, "binance") {
            Some(ExchangeType::Binance)
        } else if same_text(lower, "upbit") {
            Some(ExchangeType::Upbit)
        } else if same_text(lower, "bithumb") {
            Some(ExchangeType::Bithumb)
        } else {
            None
        }
    }

    /// The venue that the canonical name `name` stands for, if any.
    pub fn from_name(name: &str) -> (venue: Option<ExchangeType>)
        ensures
            venue == ExchangeType::of_name(name@),
    {
        if same_text(name, "Binance") {
            Some(ExchangeType::Binance)
        } else if same_text(name, "Upbit") {
            Some(ExchangeType::Upbit)
        } else if same_text(name, "Bithumb") {
            Some(ExchangeType::Bithumb)
        } else {
            None
        }
    }
}

/// The canonical names differ from one another, and each names its venue.
pub proof fn lemma_canonical_names_distinct()
    ensures
        ExchangeType::Binance.name() != ExchangeType::Upbit.name(),
        ExchangeType::Binance.name() != ExchangeType::Bithumb.name(),
        ExchangeType::Upbit.name() != ExchangeType::Bithumb.name(),
        forall|v: ExchangeType| ExchangeType::of_name(#[trigger] v.name()) == Some(v),
{
    reveal_strlit("Binance");
    reveal_strlit("Upbit");
    reveal_strlit("Bithumb");
    assert("Binance"@.len() == 7);
    assert("Upbit"@.len() == 5);
    assert("Bithumb"@.len() == 7);
    assert("Binance"@[2] == 'n');
    assert("Bithumb"@[2] == 't');
    assert forall|v: ExchangeType| ExchangeType::of_name(#[trigger] v.name()) == Some(v) by {
        match v {
            ExchangeType::Binance => {},
            ExchangeType::Upbit => {},
            ExchangeType::Bithumb => {},
        }
    }
}

/// The content of an optional decimal.
pub open spec fn opt_dec(d: Option<Decimal>) -> Option<Dec> {
    match d {
        Some(x) => Some(x@),
        None => None,
    }
}

/// A persisted price snapshot, in the venue's own quote currency. There is
/// at most one row per venue, coin and timestamp.
#[derive(Debug, Clone)]
pub struct PriceData {
    pub id: i32,
    pub exchange_id: i32,
    pub coin_id: i32,
    pub price: Decimal,
    pub volume_24h: Option<Decimal>,
    pub price_change_24h: Option<Decimal>,
    /// The ingestion clock of the batch, in milliseconds since the Unix epoch.
    pub timestamp: i64,
    pub created_at: i64,
}

/// A price snapshot on its way into the store.
#[derive(Debug, Clone)]
pub struct NewPriceData {
    pub exchange_id: i32,
    pub coin_id: i32,
    pub price: Decimal,
    pub volume_24h: Option<Decimal>,
    pub price_change_24h: Option<Decimal>,
    /// The ingestion clock of the batch, in milliseconds since the Unix epoch.
    pub timestamp: i64,
}

/// What a price row holds, as mathematics.
pub struct PriceRow {
    pub exchange_id: int,
    pub coin_id: int,
    pub price: Dec,
    pub volume_24h: Option<Dec>,
    pub price_change_24h: Option<Dec>,
    pub timestamp: int,
}

impl View for NewPriceData {
    type V = PriceRow;

    open spec fn view(&self) -> PriceRow {
        PriceRow {
            exchange_id: self.exchange_id as int,
            coin_id: self.coin_id as int,
            price: self.price@,
            volume_24h: opt_dec(self.volume_24h),
            price_change_24h: opt_dec(self.price_change_24h),
            timestamp: self.timestamp as int,
        }
    }
}

impl View for PriceData {
    type V = PriceRow;

    open spec fn view(&self) -> PriceRow {
        PriceRow {
            exchange_id: self.exchange_id as int,
            coin_id: self.coin_id as int,
            price: self.price@,
            volume_24h: opt_dec(self.volume_24h),
            price_change_24h: opt_dec(self.price_change_24h),
            timestamp: self.timestamp as int,
        }
    }
}

impl Exchange {
    /// A copy of the venue.
    pub fn copy(&self) -> (exchange: Exchange)
        ensures
            exchange == *self,
    {
        Exchange {
            id: self.id,
            name: self.name.clone(),
            country: self.country.clone(),
            api_base_url: self.api_base_url.clone(),
            created_at: self.created_at,
        }
    }
}

impl PriceData {
    /// A copy of the row.
    pub fn copy(&self) -> (row: PriceData)
        ensures
            row@ == self@,
            row.id == self.id,
            row.created_at == self.created_at,
    {
        PriceData {
            id: self.id,
            exchange_id: self.exchange_id,
            coin_id: self.coin_id,
            price: self.price.clone(),
            volume_24h: match &self.volume_24h {
                Some(v) => Some(v.clone()),
                None => None,
            },
            price_change_24h: match &self.price_change_24h {
                Some(v) => Some(v.clone()),
                None => None,
            },
            timestamp: self.timestamp,
            created_at: self.created_at,
        }
    }
}

/// The fees that a venue charges for a coin.
#[derive(Debug, Clone)]
pub struct ExchangeFee {
    pub id: i32,
    pub exchange_id: i32,
    pub coin_id: i32,
    pub trading_fee: Decimal,
    pub withdrawal_fee: Decimal,
    pub updated_at: i64,
}

/// One entry of Binance's 24-hour ticker list, as the venue sends it.
#[derive(Debug, Clone)]
pub struct BinanceTickerResponse {
    pub symbol: String,
    pub last_price: String,
    pub volume: String,
    pub price_change_percent: String,
}

/// One entry of Binance's exchange information.
#[derive(Debug, Clone)]
pub struct BinanceSymbolInfo {
    pub status: String,
    pub base_asset: String,
    pub quote_asset: String,
}

/// One entry of Upbit's ticker list. The venue sends numbers; they are
/// widened to decimals where the answer is decoded.
#[derive(Debug, Clone)]
pub struct UpbitTickerResponse {
    pub market: String,
    pub trade_price: Decimal,
    pub acc_trade_volume_24h: Decimal,
    pub signed_change_rate: Decimal,
}

/// One entry of Upbit's market list.
#[derive(Debug, Clone)]
pub struct UpbitMarket {
    pub market: String,
}

/// One member of a JSON object: its name, and its value where that value is
/// a text.
#[derive(Debug, Clone)]
pub struct BithumbMember {
    pub name: String,
    pub text: Option<String>,
}

/// One member of the `data` object of Bithumb's `ALL_KRW` answer: its key,
/// whether its value is an object, and the members of that object.
#[derive(Debug, Clone)]
pub struct BithumbEntry {
    pub key: String,
    pub is_object: bool,
    pub members: Vec<BithumbMember>,
}

/// The position of the first of the first `n` members that has the name.
pub open spec fn member_position(members: Seq<BithumbMember>, n: int, name: Seq<char>) -> Option<
    int,
>
    decreases n,
{
    if n <= 0 {
        None
    } else {
        match member_position(members, n - 1, name) {
            Some(i) => Some(i),
            None => if members[n - 1].name@ == name {
                Some(n - 1)
            } else {
                None
            },
        }
    }
}

/// Once a member with the name is found, more members change nothing.
pub proof fn lemma_member_position_stays(
    members: Seq<BithumbMember>,
    n: int,
    m: int,
    name: Seq<char>,
)
    requires
        0 <= n <= m,
        member_position(members, n, name) is Some,
    ensures
        member_position(members, m, name) == member_position(members, n, name),
    decreases m - n,
{
    if n < m {
        lemma_member_position_stays(members, n, m - 1, name);
    }
}

impl BithumbEntry {
    /// The text of the member with the name: none where the object has no
    /// such member, and none where the member's value is no text.
    pub open spec fn member_text(self, name: Seq<char>) -> Option<Seq<char>> {
        match member_position(self.members@, self.members@.len() as int, name) {
            Some(i) => match self.members@[i].text {
                Some(text) => Some(text@),
                None => None,
            },
            None => None,
        }
    }

    /// The text of the member with the name.
    pub fn text(&self, name: &str) -> (r: Option<&str>)
        ensures
            match r {
                Some(text) => self.member_text(name@) == Some(text@),
                None => self.member_text(name@) is None,
            },
    {
        let mut i: usize = 0;
        while i < self.members.len()
            invariant
                i <= self.members@.len(),
                member_position(self.members@, i as int, name@) is None,
            decreases self.members@.len() - i,
        {
            if same_text(self.members[i].name.as_str(), name) {
                proof {
                    assert(member_position(self.members@, i + 1, name@) == Some(i as int));
                    lemma_member_position_stays(
                        self.members@,
                        i + 1,
                        self.members@.len() as int,
                        name@,
                    );
                }
                return match &self.members[i].text {
                    Some(text) => Some(text.as_str()),
                    None => None,
                };
            }
            i += 1;
        }
        None
    }
}

/// Bithumb's `ALL_KRW` answer: its status and the members of its `data`
/// object, or no members where `data` is no object.
#[derive(Debug, Clone)]
pub struct BithumbResponse {
    pub status: String,
    pub data: Option<Vec<BithumbEntry>>,
}

} // verus!
