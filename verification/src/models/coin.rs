//! Coins and their listings on the venues.

use vstd::prelude::*;

verus! {

/// A coin, created when it first appears in a venue's listing.
#[derive(Debug, Clone)]
pub struct Coin {
    pub id: i32,
    /// Upper-case ticker, unique among coins.
    pub symbol: String,
    pub name: String,
    pub is_active: bool,
    /// Milliseconds since the Unix epoch.
    pub created_at: i64,
}

/// What is needed to create a coin.
#[derive(Debug, Clone)]
pub struct NewCoin {
    pub symbol: String,
    pub name: String,
}

/// The fact that a venue trades a coin under a market symbol of its own.
/// There is at most one listing per venue and coin.
#[derive(Debug, Clone)]
pub struct CoinListing {
    pub exchange_id: i32,
    pub coin_id: i32,
    /// The venue's pair string, such as `BTCUSDT`, `KRW-BTC` or `BTC_KRW`.
    pub market_symbol: String,
    pub base: String,
    pub quote: String,
    /// Only an active listing makes the coin eligible for ingestion.
    pub is_active: bool,
}

impl Coin {
    /// A copy of the coin.
    pub fn copy(&self) -> (coin: Coin)
        ensures
            coin == *self,
    {
        Coin {
            id: self.id,
            symbol: self.symbol.clone(),
            name: self.name.clone(),
            is_active: self.is_active,
            created_at: self.created_at,
        }
    }
}

impl CoinListing {
    /// A copy of the listing.
    pub fn copy(&self) -> (listing: CoinListing)
        ensures
            listing == *self,
    {
        CoinListing {
            exchange_id: self.exchange_id,
            coin_id: self.coin_id,
            market_symbol: self.market_symbol.clone(),
            base: self.base.clone(),
            quote: self.quote.clone(),
            is_active: self.is_active,
        }
    }
}

} // verus!
