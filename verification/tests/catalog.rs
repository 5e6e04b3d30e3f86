use kimchi_arbitrage::models::coin::Coin;
use kimchi_arbitrage::models::exchange::BinanceSymbolInfo;
use kimchi_arbitrage::models::exchange::BithumbEntry;
use kimchi_arbitrage::models::exchange::BithumbResponse;
use kimchi_arbitrage::models::exchange::Exchange;
use kimchi_arbitrage::models::exchange::ExchangeType;
use kimchi_arbitrage::models::exchange::UpbitMarket;
use kimchi_arbitrage::services::exchange_service::CatalogUpstream;
use kimchi_arbitrage::services::exchange_service::ExchangeService;
use kimchi_arbitrage::services::exchange_service::SyncSummary;
use kimchi_arbitrage::store::Store;
use kimchi_arbitrage::utils::error::AppError;

const NOW: i64 = 1_700_000_000_000;

fn venue(id: i32, name: &str) -> Exchange {
    Exchange {
        id,
        name: name.to_string(),
        country: String::new(),
        api_base_url: String::new(),
        created_at: 0,
    }
}

fn store() -> Store {
    Store::new(vec![venue(1, "Binance"), venue(2, "Upbit"), venue(3, "Bithumb")]).unwrap()
}

fn texts(items: &[&str]) -> Vec<String> {
    items.iter().map(|s| s.to_string()).collect()
}

fn sorted(mut items: Vec<String>) -> Vec<String> {
    items.sort();
    items
}

fn binance(status: &str, base: &str, quote: &str) -> BinanceSymbolInfo {
    BinanceSymbolInfo {
        status: status.to_string(),
        base_asset: base.to_string(),
        quote_asset: quote.to_string(),
    }
}

fn market(name: &str) -> UpbitMarket {
    UpbitMarket { market: name.to_string() }
}

fn member(key: &str, is_object: bool) -> BithumbEntry {
    BithumbEntry { key: key.to_string(), is_object, members: Vec::new() }
}

#[test]
fn binance_lists_what_trades_against_usdt() {
    let service = ExchangeService::new();
    let symbols = service.list_binance_symbols(&vec![
        binance("TRADING", "BTC", "USDT"),
        binance("BREAK", "LUNA", "USDT"),
        binance("TRADING", "ETH", "BTC"),
        binance("TRADING", "ETH", "USDT"),
        binance("TRADING", "BTC", "USDT"),
        binance("trading", "XRP", "USDT"),
    ]);
    assert_eq!(symbols, vec!["BTC", "ETH"]);
    assert!(service.list_binance_symbols(&Vec::new()).is_empty());
}

#[test]
fn upbit_lists_its_krw_markets() {
    let service = ExchangeService::new();
    let symbols = service.list_upbit_symbols(&vec![
        market("KRW-BTC"),
        market("BTC-ETH"),
        market("KRW-ETH"),
        market("USDT-BTC"),
        market("KRW-BTC"),
        market("KRW-"),
        market("krw-XRP"),
    ]);
    assert_eq!(symbols, vec!["BTC", "ETH", ""]);
}

#[test]
fn bithumb_lists_the_objects_of_its_data() {
    let service = ExchangeService::new();
    let ok = BithumbResponse {
        status: "0000".to_string(),
        data: Some(vec![member("BTC", true), member("date", false), member("ETH", true), member("XRP", false), member("date", true)]),
    };
    assert_eq!(service.list_bithumb_symbols(&ok), vec!["BTC", "ETH"]);
    let failed = BithumbResponse { status: "5500".to_string(), data: Some(vec![member("BTC", true)]) };
    assert!(service.list_bithumb_symbols(&failed).is_empty());
    let no_data = BithumbResponse { status: "0000".to_string(), data: None };
    assert!(service.list_bithumb_symbols(&no_data).is_empty());
}

#[test]
fn market_symbols_follow_the_venue() {
    assert_eq!(ExchangeType::Binance.market_symbol_for("BTC"), "BTCUSDT");
    assert_eq!(ExchangeType::Upbit.market_symbol_for("BTC"), "KRW-BTC");
    assert_eq!(ExchangeType::Bithumb.market_symbol_for("BTC"), "BTC_KRW");
    assert_eq!(ExchangeType::Binance.quote_currency(), "USDT");
    assert_eq!(ExchangeType::Upbit.quote_currency(), "KRW");
    assert_eq!(ExchangeType::Bithumb.to_string(), "Bithumb");
    assert_eq!(ExchangeType::from_name("Upbit"), Some(ExchangeType::Upbit));
    assert_eq!(ExchangeType::from_name("upbit"), None);
    assert_eq!(ExchangeType::from_lowercase("binance"), Some(ExchangeType::Binance));
    assert_eq!(ExchangeType::from_lowercase("Binance"), None);
}

#[test]
fn after_a_sync_the_venue_lists_what_it_reported() {
    let mut s = store();
    let service = ExchangeService::new();
    let (upserts, deactivated, active) = service
        .process_exchange(&mut s, "Upbit", &texts(&["BTC", "ETH", "XRP"]), "KRW", NOW)
        .unwrap();
    assert_eq!((upserts, deactivated, active), (3, 0, 3));
    assert_eq!(sorted(s.get_listed_symbols(2)), vec!["BTC", "ETH", "XRP"]);
    let listings = s.listings();
    assert_eq!(listings.len(), 3);
    assert_eq!(listings[0].market_symbol, "KRW-BTC");
    assert_eq!(listings[0].base, "BTC");
    assert_eq!(listings[0].quote, "KRW");
    assert!(listings[0].is_active);
    let coins = s.coins();
    assert_eq!(coins.len(), 3);
    assert_eq!((coins[0].id, coins[0].symbol.as_str(), coins[0].name.as_str()), (1, "BTC", "BTC"));
    assert_eq!(coins[2].id, 3);

    let (upserts, deactivated, active) = service
        .process_exchange(&mut s, "Upbit", &texts(&["ETH", "ADA"]), "KRW", NOW)
        .unwrap();
    assert_eq!((upserts, deactivated, active), (1, 2, 2));
    assert_eq!(sorted(s.get_listed_symbols(2)), vec!["ADA", "ETH"]);
    assert_eq!(s.listings().len(), 4);
    assert_eq!(s.coins().len(), 4);

    let (upserts, deactivated, _) = service
        .process_exchange(&mut s, "Upbit", &texts(&["BTC", "ETH", "ADA"]), "KRW", NOW)
        .unwrap();
    assert_eq!((upserts, deactivated), (2, 0));
    assert_eq!(sorted(s.get_listed_symbols(2)), vec!["ADA", "BTC", "ETH"]);
}

#[test]
fn an_empty_report_changes_no_listing() {
    let mut s = store();
    let service = ExchangeService::new();
    service.process_exchange(&mut s, "Bithumb", &texts(&["BTC", "ETH"]), "KRW", NOW).unwrap();
    let before = s.listings();
    let r = service.process_exchange(&mut s, "Bithumb", &Vec::new(), "KRW", NOW).unwrap();
    assert_eq!(r, (0, 0, 0));
    let after = s.listings();
    assert_eq!(after.len(), before.len());
    assert!(after.iter().all(|l| l.is_active));
    assert_eq!(sorted(s.get_listed_symbols(3)), vec!["BTC", "ETH"]);
}

#[test]
fn a_venue_is_synced_on_its_own() {
    let mut s = store();
    let service = ExchangeService::new();
    service.process_exchange(&mut s, "Binance", &texts(&["BTC", "ETH"]), "USDT", NOW).unwrap();
    service.process_exchange(&mut s, "Upbit", &texts(&["BTC", "XRP"]), "KRW", NOW).unwrap();
    service.process_exchange(&mut s, "Upbit", &texts(&["XRP"]), "KRW", NOW).unwrap();
    assert_eq!(sorted(s.get_listed_symbols(1)), vec!["BTC", "ETH"]);
    assert_eq!(sorted(s.get_listed_symbols(2)), vec!["XRP"]);
    assert_eq!(s.get_coin_id_for_exchange(1, "BTC"), Some(1));
    assert_eq!(s.get_coin_id_for_exchange(2, "BTC"), None);
    assert_eq!(s.get_coin_id_for_exchange(2, "XRP"), Some(3));
    let binance_btc = s.listings().into_iter().find(|l| l.exchange_id == 1 && l.coin_id == 1).unwrap();
    assert_eq!(binance_btc.market_symbol, "BTCUSDT");
    assert_eq!(binance_btc.quote, "USDT");
}

#[test]
fn a_symbol_reported_twice_is_listed_once() {
    let mut s = store();
    let service = ExchangeService::new();
    let r = service.process_exchange(&mut s, "Upbit", &texts(&["BTC", "BTC"]), "KRW", NOW).unwrap();
    assert_eq!(r, (1, 0, 2));
    assert_eq!(s.get_listed_symbols(2), vec!["BTC"]);
    assert_eq!(s.coins().len(), 1);
}

#[test]
fn an_inactive_coin_gets_no_listing() {
    let mut s = store();
    s.load_coin(Coin {
        id: 7,
        symbol: "LUNA".to_string(),
        name: "Terra".to_string(),
        is_active: false,
        created_at: 0,
    })
    .unwrap();
    let service = ExchangeService::new();
    let r = service.process_exchange(&mut s, "Upbit", &texts(&["LUNA", "BTC"]), "KRW", NOW).unwrap();
    assert_eq!(r, (1, 0, 2));
    assert_eq!(s.get_listed_symbols(2), vec!["BTC"]);
    let coins = s.coins();
    assert_eq!(coins[0].name, "LUNA");
    assert!(!coins[0].is_active);
    assert_eq!(coins[1].id, 8);
}

#[test]
fn an_unknown_venue_is_a_store_error() {
    let mut s = store();
    let service = ExchangeService::new();
    match service.process_exchange(&mut s, "Coinone", &texts(&["BTC"]), "KRW", NOW) {
        Err(AppError::Database(_)) => {}
        other => panic!("unexpected {:?}", other),
    }
    assert!(s.coins().is_empty());
    assert!(matches!(service.get_exchange_id_by_name(&s, "Coinone"), Err(AppError::Database(_))));
    assert_eq!(service.get_exchange_id_by_name(&s, "Bithumb").unwrap(), 3);
}

fn upstream() -> CatalogUpstream {
    CatalogUpstream {
        binance: Some(vec![binance("TRADING", "BTC", "USDT"), binance("TRADING", "ETH", "USDT")]),
        upbit: Some(vec![market("KRW-BTC"), market("KRW-XRP")]),
        bithumb: Some(BithumbResponse {
            status: "0000".to_string(),
            data: Some(vec![member("BTC", true), member("date", false)]),
        }),
    }
}

#[test]
fn syncing_all_venues() {
    let mut s = store();
    let service = ExchangeService::new();
    let summary = service.sync_coins(&mut s, Some("all"), &upstream(), NOW).unwrap();
    assert_eq!(summary, SyncSummary { active_total: 5, upserts: 5, deactivated: 0 });
    assert_eq!(sorted(s.get_listed_symbols(1)), vec!["BTC", "ETH"]);
    assert_eq!(sorted(s.get_listed_symbols(2)), vec!["BTC", "XRP"]);
    assert_eq!(sorted(s.get_listed_symbols(3)), vec!["BTC"]);
    let again = service.sync_coins(&mut s, None, &upstream(), NOW).unwrap();
    assert_eq!(again, SyncSummary { active_total: 5, upserts: 0, deactivated: 0 });
}

#[test]
fn syncing_one_venue_by_name_in_any_case() {
    let mut s = store();
    let service = ExchangeService::new();
    let summary = service.sync_coins(&mut s, Some("UPBIT"), &upstream(), NOW).unwrap();
    assert_eq!(summary, SyncSummary { active_total: 2, upserts: 2, deactivated: 0 });
    assert!(s.get_listed_symbols(1).is_empty());
    assert_eq!(sorted(s.get_listed_symbols(2)), vec!["BTC", "XRP"]);
    assert!(s.get_listed_symbols(3).is_empty());
    let none = service.sync_coins(&mut s, Some("kraken"), &upstream(), NOW).unwrap();
    assert_eq!(none, SyncSummary { active_total: 0, upserts: 0, deactivated: 0 });
}

#[test]
fn a_venue_that_did_not_answer_keeps_its_listings() {
    let mut s = store();
    let service = ExchangeService::new();
    service.sync_coins(&mut s, None, &upstream(), NOW).unwrap();
    let partial = CatalogUpstream {
        binance: None,
        upbit: Some(vec![market("KRW-XRP")]),
        bithumb: Some(BithumbResponse { status: "5500".to_string(), data: None }),
    };
    let summary = service.sync_coins(&mut s, None, &partial, NOW).unwrap();
    assert_eq!(summary, SyncSummary { active_total: 1, upserts: 0, deactivated: 1 });
    assert_eq!(sorted(s.get_listed_symbols(1)), vec!["BTC", "ETH"]);
    assert_eq!(sorted(s.get_listed_symbols(2)), vec!["XRP"]);
    assert_eq!(sorted(s.get_listed_symbols(3)), vec!["BTC"]);
}

#[test]
fn a_store_without_the_venue_fails_the_sync() {
    let mut s = Store::new(vec![venue(1, "Binance")]).unwrap();
    let service = ExchangeService::new();
    match service.sync_coins(&mut s, None, &upstream(), NOW) {
        Err(AppError::Database(_)) => {}
        other => panic!("unexpected {:?}", other),
    }
    assert_eq!(sorted(s.get_listed_symbols(1)), vec!["BTC", "ETH"]);
}

fn listing_rows(s: &Store) -> Vec<(i32, i32, String, String, String, bool)> {
    s.listings()
        .into_iter()
        .map(|l| (l.exchange_id, l.coin_id, l.market_symbol, l.base, l.quote, l.is_active))
        .collect()
}

fn coin_rows(s: &Store) -> Vec<(i32, String, String, bool, i64)> {
    s.coins().into_iter().map(|c| (c.id, c.symbol, c.name, c.is_active, c.created_at)).collect()
}

#[test]
fn a_sync_writes_the_rows_of_each_venue_in_its_own_form() {
    for (venue, id, quote, market) in
        [("Binance", 1, "USDT", "BTCUSDT"), ("Upbit", 2, "KRW", "KRW-BTC"), ("Bithumb", 3, "KRW", "BTC_KRW")]
    {
        let mut s = store();
        let service = ExchangeService::new();
        let r = service.process_exchange(&mut s, venue, &texts(&["BTC"]), quote, NOW).unwrap();
        assert_eq!(r, (1, 0, 1));
        assert_eq!(coin_rows(&s), vec![(1, "BTC".to_string(), "BTC".to_string(), true, NOW)]);
        assert_eq!(
            listing_rows(&s),
            vec![(id, 1, market.to_string(), "BTC".to_string(), quote.to_string(), true)]
        );
    }
}

#[test]
fn a_listing_that_is_switched_off_stays_in_the_table() {
    let mut s = store();
    let service = ExchangeService::new();
    service.process_exchange(&mut s, "Binance", &texts(&["BTC", "ETH"]), "USDT", NOW).unwrap();
    service.process_exchange(&mut s, "Upbit", &texts(&["BTC", "ETH"]), "KRW", NOW).unwrap();
    s.upsert_coin("ETH", "Ether", NOW).unwrap();
    let before = listing_rows(&s);
    let r = service.process_exchange(&mut s, "Upbit", &texts(&["BTC"]), "KRW", NOW + 9).unwrap();
    assert_eq!(r, (0, 1, 1));
    let after = listing_rows(&s);
    assert_eq!(after.len(), before.len());
    assert_eq!(after[0], before[0]);
    assert_eq!(after[1], before[1]);
    assert_eq!(after[2], before[2]);
    assert_eq!(after[3], (2, 2, "KRW-ETH".to_string(), "ETH".to_string(), "KRW".to_string(), false));
    let coins = coin_rows(&s);
    assert_eq!(coins[0], (1, "BTC".to_string(), "BTC".to_string(), true, NOW));
    assert_eq!(coins[1], (2, "ETH".to_string(), "Ether".to_string(), true, NOW));
}

#[test]
fn a_second_sync_with_the_same_report_changes_no_row() {
    let mut s = store();
    let service = ExchangeService::new();
    service.process_exchange(&mut s, "Bithumb", &texts(&["XRP", "BTC", "ETH"]), "KRW", NOW).unwrap();
    let coins = coin_rows(&s);
    let listings = listing_rows(&s);
    let r = service
        .process_exchange(&mut s, "Bithumb", &texts(&["XRP", "BTC", "ETH"]), "KRW", NOW + 60_000)
        .unwrap();
    assert_eq!(r, (0, 0, 3));
    assert_eq!(coin_rows(&s), coins);
    assert_eq!(listing_rows(&s), listings);
}

#[test]
fn syncing_one_venue_leaves_the_rows_of_the_others() {
    let mut s = store();
    let service = ExchangeService::new();
    service.sync_coins(&mut s, None, &upstream(), NOW).unwrap();
    let before = listing_rows(&s);
    let coins = coin_rows(&s);
    let changed = CatalogUpstream {
        binance: Some(vec![binance("TRADING", "SOL", "USDT")]),
        upbit: Some(vec![market("KRW-SOL")]),
        bithumb: None,
    };
    service.sync_coins(&mut s, Some("Upbit"), &changed, NOW + 5).unwrap();
    let after = listing_rows(&s);
    for (row, was) in after.iter().zip(before.iter()) {
        if row.0 != 2 {
            assert_eq!(row, was);
        } else {
            assert_eq!((row.0, row.1, &row.2, &row.3, &row.4), (was.0, was.1, &was.2, &was.3, &was.4));
            assert!(!row.5);
        }
    }
    assert_eq!(after.len(), before.len() + 1);
    assert_eq!(after[before.len()], (2, 4, "KRW-SOL".to_string(), "SOL".to_string(), "KRW".to_string(), true));
    assert_eq!(&coin_rows(&s)[..coins.len()], &coins[..]);
    assert_eq!(coin_rows(&s)[coins.len()], (4, "SOL".to_string(), "SOL".to_string(), true, NOW + 5));

    let rows = listing_rows(&s);
    let coins = coin_rows(&s);
    let silent = CatalogUpstream { binance: None, upbit: Some(Vec::new()), bithumb: None };
    let summary = service.sync_coins(&mut s, Some("upbit"), &silent, NOW + 9).unwrap();
    assert_eq!(summary, SyncSummary { active_total: 0, upserts: 0, deactivated: 0 });
    assert_eq!(listing_rows(&s), rows);
    assert_eq!(coin_rows(&s), coins);
}
