use kimchi_arbitrage::decimal::Decimal;
use kimchi_arbitrage::models::coin::Coin;
use kimchi_arbitrage::models::coin::CoinListing;
use kimchi_arbitrage::models::exchange::Exchange;
use kimchi_arbitrage::models::exchange::PriceData;
use kimchi_arbitrage::store::is_created_before;
use kimchi_arbitrage::store::is_fresh;
use kimchi_arbitrage::store::Store;
use kimchi_arbitrage::text::chars_of;
use kimchi_arbitrage::text::contains_text;
use kimchi_arbitrage::text::joined;
use kimchi_arbitrage::text::same_text;
use kimchi_arbitrage::text::text_of;
use kimchi_arbitrage::text::without_prefix;
use kimchi_arbitrage::text::without_suffix;
use kimchi_arbitrage::utils::error::AppError;

fn venue(id: i32, name: &str) -> Exchange {
    Exchange {
        id,
        name: name.to_string(),
        country: "KR".to_string(),
        api_base_url: "https://example.invalid".to_string(),
        created_at: 5,
    }
}

fn coin(id: i32, symbol: &str) -> Coin {
    Coin { id, symbol: symbol.to_string(), name: symbol.to_string(), is_active: true, created_at: 0 }
}

fn listing(exchange_id: i32, coin_id: i32, is_active: bool) -> CoinListing {
    CoinListing {
        exchange_id,
        coin_id,
        market_symbol: "m".to_string(),
        base: "b".to_string(),
        quote: "q".to_string(),
        is_active,
    }
}

#[test]
fn venues_must_differ_in_identifier_and_name() {
    assert!(Store::new(vec![venue(1, "Binance"), venue(1, "Upbit")]).is_none());
    assert!(Store::new(vec![venue(1, "Binance"), venue(2, "Binance")]).is_none());
    let s = Store::new(vec![venue(4, "Binance"), venue(9, "Upbit")]).unwrap();
    assert_eq!(s.get_exchange_id_by_name("Upbit"), Some(9));
    assert_eq!(s.get_exchange_id_by_name("upbit"), None);
    let rows = s.exchanges();
    assert_eq!(rows.len(), 2);
    assert_eq!((rows[0].id, rows[0].name.as_str(), rows[0].country.as_str()), (4, "Binance", "KR"));
}

#[test]
fn coins_are_upserted_by_symbol() {
    let mut s = Store::new(vec![venue(1, "Binance")]).unwrap();
    s.upsert_coin("BTC", "Bitcoin", 10).unwrap();
    s.upsert_coin("ETH", "Ether", 11).unwrap();
    s.upsert_coin("BTC", "BTC", 12).unwrap();
    let coins = s.coins();
    assert_eq!(coins.len(), 2);
    assert_eq!((coins[0].id, coins[0].name.as_str(), coins[0].created_at), (1, "BTC", 10));
    assert_eq!((coins[1].id, coins[1].name.as_str(), coins[1].created_at), (2, "Ether", 11));
    assert_eq!(s.get_coin_id("ETH"), Some(2));
    assert_eq!(s.get_coin_id("eth"), None);
}

#[test]
fn the_next_coin_identifier_follows_the_greatest() {
    let mut s = Store::new(Vec::new()).unwrap();
    s.load_coin(coin(40, "BTC")).unwrap();
    s.load_coin(coin(7, "ETH")).unwrap();
    s.upsert_coin("XRP", "XRP", 0).unwrap();
    assert_eq!(s.get_coin_id("XRP"), Some(41));
    let mut full = Store::new(Vec::new()).unwrap();
    full.load_coin(coin(i32::MAX, "BTC")).unwrap();
    assert!(matches!(full.upsert_coin("ETH", "ETH", 0), Err(AppError::Database(_))));
    assert!(full.upsert_coin("BTC", "Bitcoin", 0).is_ok());
    assert_eq!(full.coins().len(), 1);
}

#[test]
fn loading_respects_the_keys() {
    let mut s = Store::new(vec![venue(1, "Binance")]).unwrap();
    s.load_coin(coin(1, "BTC")).unwrap();
    assert!(matches!(s.load_coin(coin(1, "ETH")), Err(AppError::Database(_))));
    assert!(matches!(s.load_coin(coin(2, "BTC")), Err(AppError::Database(_))));
    assert!(matches!(s.load_listing(listing(1, 9, true)), Err(AppError::Database(_))));
    s.load_listing(listing(1, 1, false)).unwrap();
    assert!(matches!(s.load_listing(listing(1, 1, true)), Err(AppError::Database(_))));
    s.load_listing(listing(2, 1, true)).unwrap();
    assert!(s.get_listed_symbols(1).is_empty());
    assert_eq!(s.get_listed_symbols(2), vec!["BTC"]);
    let row = |id: i32, ts: i64| PriceData {
        id,
        exchange_id: 1,
        coin_id: 1,
        price: Decimal::from_u32(5),
        volume_24h: None,
        price_change_24h: None,
        timestamp: ts,
        created_at: ts,
    };
    s.load_price(row(70, 100)).unwrap();
    assert!(matches!(s.load_price(row(71, 100)), Err(AppError::Database(_))));
    s.load_price(row(71, 101)).unwrap();
    let ids: Vec<i32> = s.prices().iter().map(|p| p.id).collect();
    assert_eq!(ids, vec![70, 71]);
}

#[test]
fn listings_count_the_rows_they_affect() {
    let mut s = Store::new(vec![venue(1, "Binance")]).unwrap();
    s.upsert_coin("BTC", "BTC", 0).unwrap();
    assert!(matches!(s.upsert_listing(1, 5, "BTCUSDT", "BTC", "USDT"), Err(AppError::Database(_))));
    assert_eq!(s.upsert_listing(1, 1, "BTCUSDT", "BTC", "USDT").unwrap(), 1);
    assert_eq!(s.upsert_listing(1, 1, "BTCUSDT", "BTC", "USDT").unwrap(), 0);
    assert_eq!(s.upsert_listing(1, 1, "BTC-USDT", "BTC", "USDT").unwrap(), 2);
    assert_eq!(s.deactivate_listings_except(1, &vec!["ETH".to_string()]), 1);
    assert_eq!(s.deactivate_listings_except(1, &vec!["ETH".to_string()]), 0);
    assert_eq!(s.upsert_listing(1, 1, "BTC-USDT", "BTC", "USDT").unwrap(), 2);
    assert_eq!(s.deactivate_listings_except(1, &Vec::new()), 0);
    assert_eq!(s.deactivate_listings_except(2, &vec!["ETH".to_string()]), 0);
    assert_eq!(s.get_listed_symbols(1), vec!["BTC"]);
    let rows = s.listings();
    assert_eq!(rows.len(), 1);
    assert_eq!(rows[0].market_symbol, "BTC-USDT");
}

#[test]
fn common_symbols_come_in_the_order_of_texts() {
    let mut s = Store::new(vec![venue(1, "Binance"), venue(2, "Upbit"), venue(3, "Bithumb")]).unwrap();
    for (id, symbol) in [(1, "XRP"), (2, "BTC"), (3, "ETH"), (4, "ADA"), (5, "SOL")] {
        s.load_coin(coin(id, symbol)).unwrap();
    }
    for (exchange_id, coin_id, active) in
        [(1, 1, true), (1, 2, true), (1, 3, true), (1, 4, true), (2, 1, true), (2, 2, true), (2, 3, false), (2, 5, true), (2, 4, true)]
    {
        s.load_listing(listing(exchange_id, coin_id, active)).unwrap();
    }
    assert_eq!(s.common_symbols("Binance", "Upbit", None).unwrap(), vec!["ADA", "BTC", "XRP"]);
    assert_eq!(s.common_symbols("Upbit", "Binance", Some(2)).unwrap(), vec!["ADA", "BTC"]);
    assert_eq!(s.common_symbols("Binance", "Upbit", Some(3)).unwrap(), vec!["ADA", "BTC", "XRP"]);
    assert_eq!(s.common_symbols("Binance", "Upbit", Some(99)).unwrap(), vec!["ADA", "BTC", "XRP"]);
    assert!(s.common_symbols("Binance", "Upbit", Some(0)).unwrap().is_empty());
    assert!(s.common_symbols("Binance", "Bithumb", None).unwrap().is_empty());
    assert!(s.common_symbols("Binance", "Coinone", None).unwrap().is_empty());
    assert_eq!(s.common_symbols("Binance", "Binance", None).unwrap(), vec!["ADA", "BTC", "ETH", "XRP"]);
    assert!(matches!(s.common_symbols("Binance", "Upbit", Some(-1)), Err(AppError::Database(_))));
}

#[test]
fn freshness_and_creation_times() {
    assert!(is_fresh(1000, 1000));
    assert!(is_fresh(1000 - 1_800_000, 1000));
    assert!(!is_fresh(999 - 1_800_000, 1000));
    assert!(is_fresh(i64::MIN, i64::MIN + 5));
    assert!(is_fresh(5, 0));
    assert!(is_created_before(None, Some(0)));
    assert!(is_created_before(Some(1), Some(2)));
    assert!(!is_created_before(Some(2), Some(2)));
    assert!(!is_created_before(Some(2), None));
    assert!(!is_created_before(None, None));
}

#[test]
fn texts_are_taken_apart_and_put_together() {
    assert!(same_text("abc", "abc"));
    assert!(!same_text("abc", "abd"));
    assert_eq!(joined("KRW-", "BTC"), "KRW-BTC");
    assert_eq!(without_prefix("KRW-BTC", "KRW-"), Some("BTC".to_string()));
    assert_eq!(without_prefix("KRW-", "KRW-"), Some(String::new()));
    assert_eq!(without_prefix("KR", "KRW-"), None);
    assert_eq!(without_prefix("BTC-KRW-", "KRW-"), None);
    assert_eq!(without_suffix("BTCUSDT", "USDT"), Some("BTC".to_string()));
    assert_eq!(without_suffix("USDTBTC", "USDT"), None);
    assert_eq!(without_suffix("USDTUSDT", "USDT"), Some("USDT".to_string()));
    assert_eq!(without_suffix("비트USDT", "USDT"), Some("비트".to_string()));
    assert_eq!(chars_of("a,1원"), vec!['a', ',', '1', '원']);
    assert_eq!(text_of(&vec!['1', '.', '5']), "1.5");
    assert!(contains_text(&vec!["BTC".to_string(), "ETH".to_string()], "ETH"));
    assert!(!contains_text(&vec!["BTC".to_string()], "btc"));
}
