use kimchi_arbitrage::decimal::Decimal;
use kimchi_arbitrage::models::exchange::BinanceTickerResponse;
use kimchi_arbitrage::models::exchange::BithumbEntry;
use kimchi_arbitrage::models::exchange::BithumbMember;
use kimchi_arbitrage::models::exchange::BithumbResponse;
use kimchi_arbitrage::models::exchange::Exchange;
use kimchi_arbitrage::models::exchange::NewPriceData;
use kimchi_arbitrage::models::exchange::UpbitTickerResponse;
use kimchi_arbitrage::services::exchange_service::sanitize_volume;
use kimchi_arbitrage::services::exchange_service::ExchangeService;
use kimchi_arbitrage::services::exchange_service::IngestSummary;
use kimchi_arbitrage::services::exchange_service::PriceUpstream;
use kimchi_arbitrage::store::Store;
use kimchi_arbitrage::utils::error::AppError;

const NOW: i64 = 1_700_000_000_000;

fn dec(text: &str) -> Decimal {
    Decimal::parse(text).unwrap()
}

fn venue(id: i32, name: &str) -> Exchange {
    Exchange {
        id,
        name: name.to_string(),
        country: String::new(),
        api_base_url: String::new(),
        created_at: 0,
    }
}

fn texts(items: &[&str]) -> Vec<String> {
    items.iter().map(|s| s.to_string()).collect()
}

fn listed_store() -> Store {
    let mut s = Store::new(vec![venue(1, "Binance"), venue(2, "Upbit"), venue(3, "Bithumb")]).unwrap();
    let service = ExchangeService::new();
    service.process_exchange(&mut s, "Binance", &texts(&["BTC", "ETH"]), "USDT", NOW).unwrap();
    service.process_exchange(&mut s, "Upbit", &texts(&["BTC", "XRP"]), "KRW", NOW).unwrap();
    service.process_exchange(&mut s, "Bithumb", &texts(&["ETH"]), "KRW", NOW).unwrap();
    s
}

fn binance(symbol: &str, price: &str, volume: &str, change: &str) -> BinanceTickerResponse {
    BinanceTickerResponse {
        symbol: symbol.to_string(),
        last_price: price.to_string(),
        volume: volume.to_string(),
        price_change_percent: change.to_string(),
    }
}

fn upbit(market: &str, price: &str, volume: &str, rate: &str) -> UpbitTickerResponse {
    UpbitTickerResponse {
        market: market.to_string(),
        trade_price: dec(price),
        acc_trade_volume_24h: dec(volume),
        signed_change_rate: dec(rate),
    }
}

fn text(name: &str, value: &str) -> BithumbMember {
    BithumbMember { name: name.to_string(), text: Some(value.to_string()) }
}

fn other(name: &str) -> BithumbMember {
    BithumbMember { name: name.to_string(), text: None }
}

fn bithumb(key: &str, closing: Option<&str>) -> BithumbEntry {
    BithumbEntry {
        key: key.to_string(),
        is_object: true,
        members: match closing {
            Some(price) => vec![text("opening_price", "1"), text("closing_price", price)],
            None => vec![text("opening_price", "1")],
        },
    }
}

#[test]
fn binance_tickers_become_rows_of_listed_coins() {
    let s = listed_store();
    let service = ExchangeService::new();
    let rows = service
        .fetch_binance_prices(
            &s,
            &vec![
                binance("BTCUSDT", "60000.00", "12.5", "-1.25"),
                binance("ETHBTC", "0.05", "1", "1"),
                binance("XRPUSDT", "0.5", "1", "1"),
                binance("ETHUSDT", "3000", "n/a", ""),
                binance("USDT", "1", "1", "1"),
            ],
            NOW,
        )
        .unwrap();
    assert_eq!(rows.len(), 2);
    assert_eq!((rows[0].exchange_id, rows[0].coin_id, rows[0].timestamp), (1, 1, NOW));
    assert_eq!(rows[0].price.to_text(), "60000.00");
    assert!(rows[0].volume_24h.as_ref().unwrap().same_value(&dec("12.5")));
    assert!(rows[0].price_change_24h.as_ref().unwrap().same_value(&dec("-1.25")));
    assert_eq!((rows[1].exchange_id, rows[1].coin_id, rows[1].timestamp), (1, 2, NOW));
    assert!(rows[1].volume_24h.is_none());
    assert!(rows[1].price_change_24h.is_none());
}

#[test]
fn a_listed_binance_ticker_without_a_price_fails_the_venue() {
    let s = listed_store();
    let service = ExchangeService::new();
    match service.fetch_binance_prices(
        &s,
        &vec![binance("BTCUSDT", "1", "1", "1"), binance("ETHUSDT", "oops", "1", "1")],
        NOW,
    ) {
        Err(AppError::DecimalParsing(text)) => assert_eq!(text, "oops"),
        other => panic!("unexpected {:?}", other),
    }
    let unlisted = service
        .fetch_binance_prices(&s, &vec![binance("XRPUSDT", "oops", "1", "1")], NOW)
        .unwrap();
    assert!(unlisted.is_empty());
}

#[test]
fn upbit_tickers_become_rows_with_the_change_in_percent() {
    let s = listed_store();
    let service = ExchangeService::new();
    let rows = service
        .fetch_upbit_prices(
            &s,
            &vec![
                upbit("KRW-BTC", "83200000", "1234.5", "0.0123"),
                upbit("KRW-ETH", "4000000", "1", "0"),
                upbit("XRP", "700", "99", "-0.05"),
            ],
            NOW,
        )
        .unwrap();
    assert_eq!(rows.len(), 2);
    assert_eq!((rows[0].exchange_id, rows[0].coin_id, rows[0].timestamp), (2, 1, NOW));
    assert!(rows[0].price.same_value(&dec("83200000")));
    assert!(rows[0].volume_24h.as_ref().unwrap().same_value(&dec("1234.5")));
    assert!(rows[0].price_change_24h.as_ref().unwrap().same_value(&dec("1.23")));
    assert_eq!(rows[1].coin_id, 3);
    assert!(rows[1].price_change_24h.as_ref().unwrap().same_value(&dec("-5")));
}

#[test]
fn bithumb_members_become_rows_in_either_spelling() {
    let s = listed_store();
    let service = ExchangeService::new();
    let mut upper = bithumb("ETH", Some("4000000"));
    upper.members.push(text("units_traded_24H", "10.5"));
    upper.members.push(text("units_traded_24h", "99"));
    upper.members.push(other("fluctate_rate_24H"));
    upper.members.push(text("fluctate_rate_24h", "-2.5"));
    let response = BithumbResponse {
        status: "0000".to_string(),
        data: Some(vec![
            bithumb("date", Some("1")),
            bithumb("BTC", Some("80000000")),
            upper,
        ]),
    };
    let rows = service.fetch_bithumb_prices(&s, &response, NOW).unwrap();
    assert_eq!(rows.len(), 1);
    assert_eq!((rows[0].exchange_id, rows[0].coin_id, rows[0].timestamp), (3, 2, NOW));
    assert!(rows[0].price.same_value(&dec("4000000")));
    assert!(rows[0].volume_24h.as_ref().unwrap().same_value(&dec("10.5")));
    assert!(rows[0].price_change_24h.as_ref().unwrap().same_value(&dec("-2.5")));
}

#[test]
fn bithumb_members_without_a_usable_price_are_dropped() {
    let s = listed_store();
    let service = ExchangeService::new();
    let mut not_object = bithumb("ETH", Some("1"));
    not_object.is_object = false;
    let mut no_text = bithumb("ETH", None);
    no_text.members.push(other("closing_price"));
    no_text.members.push(text("closing_price", "4000000"));
    for entry in [bithumb("ETH", None), bithumb("ETH", Some("soon")), not_object, no_text] {
        let response = BithumbResponse { status: "0000".to_string(), data: Some(vec![entry]) };
        assert!(service.fetch_bithumb_prices(&s, &response, NOW).unwrap().is_empty());
    }
    let failed = BithumbResponse {
        status: "5600".to_string(),
        data: Some(vec![bithumb("ETH", Some("1"))]),
    };
    assert!(service.fetch_bithumb_prices(&s, &failed, NOW).unwrap().is_empty());
    let no_data = BithumbResponse { status: "0000".to_string(), data: None };
    assert!(service.fetch_bithumb_prices(&s, &no_data, NOW).unwrap().is_empty());
}

#[test]
fn a_batch_of_valid_tickers_is_persisted_under_one_timestamp() {
    let mut s = listed_store();
    let service = ExchangeService::new();
    let upstream = PriceUpstream {
        binance: Some(vec![
            binance("BTCUSDT", "60000", "1", "1"),
            binance("ETHUSDT", "3000", "1", "1"),
        ]),
        upbit: Some(vec![upbit("KRW-BTC", "83200000", "1", "0.01"), upbit("KRW-XRP", "700", "1", "0")]),
        bithumb: Some(BithumbResponse {
            status: "0000".to_string(),
            data: Some(vec![bithumb("ETH", Some("4000000"))]),
        }),
    };
    let summary = service.fetch_all_prices(&mut s, &upstream, NOW);
    assert_eq!(summary, IngestSummary { binance_count: 2, upbit_count: 2, bithumb_count: 1 });
    let rows = s.prices();
    assert_eq!(rows.len(), 5);
    assert!(rows.iter().all(|r| r.timestamp == NOW));
    assert!(rows.iter().all(|r| r.price.is_positive()));
    let ids: Vec<i32> = rows.iter().map(|r| r.id).collect();
    assert_eq!(ids, vec![1, 2, 3, 4, 5]);
    let venues: Vec<i32> = rows.iter().map(|r| r.exchange_id).collect();
    assert_eq!(venues, vec![1, 1, 2, 2, 3]);
}

#[test]
fn a_failing_venue_does_not_stop_the_others() {
    let mut s = listed_store();
    let service = ExchangeService::new();
    let upstream = PriceUpstream {
        binance: Some(vec![binance("BTCUSDT", "broken", "1", "1")]),
        upbit: None,
        bithumb: Some(BithumbResponse {
            status: "0000".to_string(),
            data: Some(vec![bithumb("ETH", Some("4000000"))]),
        }),
    };
    let summary = service.fetch_all_prices(&mut s, &upstream, NOW);
    assert_eq!(summary, IngestSummary { binance_count: 0, upbit_count: 0, bithumb_count: 1 });
    let rows = s.prices();
    assert_eq!(rows.len(), 1);
    assert_eq!(rows[0].exchange_id, 3);
}

#[test]
fn writing_a_key_twice_leaves_one_row_with_the_second_value() {
    let mut s = listed_store();
    let row = |price: &str, volume: Option<&str>| NewPriceData {
        exchange_id: 1,
        coin_id: 1,
        price: dec(price),
        volume_24h: volume.map(dec),
        price_change_24h: None,
        timestamp: NOW,
    };
    s.upsert_price(row("100", Some("5")), NOW).unwrap();
    s.upsert_price(row("101", None), NOW + 7).unwrap();
    let rows = s.prices();
    assert_eq!(rows.len(), 1);
    assert!(rows[0].price.same_value(&dec("101")));
    assert!(rows[0].volume_24h.is_none());
    assert_eq!(rows[0].created_at, NOW);
    assert_eq!(rows[0].id, 1);
    let mut other = row("102", None);
    other.timestamp = NOW + 1;
    s.upsert_price(other, NOW).unwrap();
    assert_eq!(s.prices().len(), 2);
}

#[test]
fn an_overlong_volume_is_dropped_and_the_price_kept() {
    let long = "1234567890123456789012345678.12";
    assert_eq!(long.len(), 31);
    let fits = "123456789012345678901234567.12";
    assert_eq!(fits.len(), 30);
    assert!(sanitize_volume(&Some(dec(long))).is_none());
    assert_eq!(sanitize_volume(&Some(dec(fits))).unwrap().to_text(), fits);
    assert!(sanitize_volume(&None).is_none());

    let mut s = listed_store();
    let service = ExchangeService::new();
    let rows = vec![
        NewPriceData {
            exchange_id: 1,
            coin_id: 1,
            price: dec("99999999999999999999999999999999.5"),
            volume_24h: Some(dec(long)),
            price_change_24h: Some(dec(long)),
            timestamp: NOW,
        },
        NewPriceData {
            exchange_id: 1,
            coin_id: 2,
            price: dec("1"),
            volume_24h: Some(dec(fits)),
            price_change_24h: None,
            timestamp: NOW,
        },
    ];
    assert_eq!(service.save_prices(&mut s, &rows, NOW), 2);
    let stored = s.prices();
    assert_eq!(stored.len(), 2);
    assert!(stored[0].volume_24h.is_none());
    assert_eq!(stored[0].price.to_text(), "99999999999999999999999999999999.5");
    assert_eq!(stored[0].price_change_24h.as_ref().unwrap().to_text(), long);
    assert_eq!(stored[1].volume_24h.as_ref().unwrap().to_text(), fits);
}

#[test]
fn a_store_without_the_venue_fails_the_fetch() {
    let s = Store::new(vec![venue(1, "Binance")]).unwrap();
    let service = ExchangeService::new();
    assert!(service.fetch_binance_prices(&s, &Vec::new(), NOW).unwrap().is_empty());
    assert!(matches!(service.fetch_upbit_prices(&s, &Vec::new(), NOW), Err(AppError::Database(_))));
    let response = BithumbResponse { status: "0000".to_string(), data: Some(Vec::new()) };
    assert!(matches!(service.fetch_bithumb_prices(&s, &response, NOW), Err(AppError::Database(_))));
}

#[test]
fn members_are_found_by_name() {
    let entry = BithumbEntry {
        key: "BTC".to_string(),
        is_object: true,
        members: vec![text("a", "1"), other("b"), text("b", "2"), text("a", "3")],
    };
    assert_eq!(entry.text("a"), Some("1"));
    assert_eq!(entry.text("b"), None);
    assert_eq!(entry.text("c"), None);
    assert_eq!(entry.text("A"), None);
}

#[test]
fn one_venue_with_distinct_listed_tickers_adds_a_row_for_each() {
    let mut s = listed_store();
    let service = ExchangeService::new();
    let upstream = PriceUpstream {
        binance: None,
        upbit: Some(vec![
            upbit("KRW-XRP", "700", "1", "0"),
            upbit("KRW-BTC", "83200000", "1", "0.01"),
        ]),
        bithumb: None,
    };
    service.fetch_all_prices(&mut s, &upstream, NOW - 1);
    let before = s.prices().len();
    let summary = service.fetch_all_prices(&mut s, &upstream, NOW);
    assert_eq!(summary, IngestSummary { binance_count: 0, upbit_count: 2, bithumb_count: 0 });
    let rows = s.prices();
    assert_eq!(rows.len(), before + 2);
    let gained: Vec<(i32, i32, i64)> =
        rows[before..].iter().map(|r| (r.exchange_id, r.coin_id, r.timestamp)).collect();
    assert_eq!(gained, vec![(2, 3, NOW), (2, 1, NOW)]);
    service.fetch_all_prices(&mut s, &upstream, NOW);
    assert_eq!(s.prices().len(), before + 2);
}
