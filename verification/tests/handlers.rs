use kimchi_arbitrage::config::Config;
use kimchi_arbitrage::decimal::Decimal;
use kimchi_arbitrage::handlers::admin_handlers::ingest_now;
use kimchi_arbitrage::handlers::admin_handlers::sync_coins;
use kimchi_arbitrage::handlers::admin_handlers::SyncCoinsQuery;
use kimchi_arbitrage::handlers::api_handlers::canonical_name;
use kimchi_arbitrage::handlers::api_handlers::get_arbitrage_list;
use kimchi_arbitrage::handlers::api_handlers::get_directional_arbitrage;
use kimchi_arbitrage::handlers::api_handlers::get_exchange_rate;
use kimchi_arbitrage::handlers::api_handlers::get_kimchi_history;
use kimchi_arbitrage::handlers::api_handlers::KimchiHistoryQuery;
use kimchi_arbitrage::services::exchange_rate_service::ExchangeRateService;
use kimchi_arbitrage::handlers::api_handlers::internal_error;
use kimchi_arbitrage::handlers::api_handlers::normalize_exchange_name;
use kimchi_arbitrage::handlers::api_handlers::requested_symbol;
use kimchi_arbitrage::handlers::api_handlers::ArbitrageListQuery;
use kimchi_arbitrage::handlers::api_handlers::ArbitrageQuery;
use kimchi_arbitrage::models::exchange::BinanceTickerResponse;
use kimchi_arbitrage::models::exchange::Exchange;
use kimchi_arbitrage::models::exchange::NewPriceData;
use kimchi_arbitrage::models::exchange::UpbitMarket;
use kimchi_arbitrage::services::arbitrage_service::ArbitrageService;
use kimchi_arbitrage::services::arbitrage_service::FxSource;
use kimchi_arbitrage::services::exchange_rate_service::FxUpstream;
use kimchi_arbitrage::services::exchange_service::CatalogUpstream;
use kimchi_arbitrage::services::exchange_service::ExchangeService;
use kimchi_arbitrage::services::exchange_service::PriceUpstream;
use kimchi_arbitrage::store::Store;
use kimchi_arbitrage::utils::error::AppError;

const NOW: i64 = 1_700_000_000_000;

fn dec(text: &str) -> Decimal {
    Decimal::parse(text).unwrap()
}

fn venue(id: i32, name: &str) -> Exchange {
    Exchange {
        id,
        name: name.to_string(),
        country: String::new(),
        api_base_url: String::new(),
        created_at: 0,
    }
}

fn store() -> Store {
    Store::new(vec![venue(1, "Binance"), venue(2, "Upbit"), venue(3, "Bithumb")]).unwrap()
}

fn offline() -> FxUpstream {
    FxUpstream {
        naver: Err(AppError::ExternalApiError("offline".to_string())),
        eximbank: Err(AppError::ExternalApiError("offline".to_string())),
    }
}

fn priced_store() -> Store {
    let mut s = store();
    let service = ExchangeService::new();
    let symbols = vec!["BTC".to_string()];
    service.process_exchange(&mut s, "Binance", &symbols, "USDT", NOW).unwrap();
    service.process_exchange(&mut s, "Upbit", &symbols, "KRW", NOW).unwrap();
    for (exchange_id, price) in [(1, "100"), (2, "143000")] {
        s.upsert_price(
            NewPriceData {
                exchange_id,
                coin_id: 1,
                price: dec(price),
                volume_24h: None,
                price_change_24h: None,
                timestamp: NOW,
            },
            NOW,
        )
        .unwrap();
    }
    s
}

#[test]
fn venue_names_are_folded_to_their_canonical_form() {
    assert_eq!(normalize_exchange_name("binance"), "Binance");
    assert_eq!(normalize_exchange_name("BINANCE"), "Binance");
    assert_eq!(normalize_exchange_name("uPbIt"), "Upbit");
    assert_eq!(normalize_exchange_name("Bithumb"), "Bithumb");
    assert_eq!(normalize_exchange_name("Coinone"), "Coinone");
    assert_eq!(normalize_exchange_name(" binance"), " binance");
    assert_eq!(normalize_exchange_name(""), "");
    assert_eq!(canonical_name("upbit", "whatever"), "Upbit");
    assert_eq!(canonical_name("Upbit", "whatever"), "whatever");
}

#[test]
fn list_requests_default_to_the_reference_rate_without_fees() {
    let query = |fx: Option<&str>, fees: Option<&str>| ArbitrageListQuery {
        from: "binance".to_string(),
        to: "upbit".to_string(),
        fx: fx.map(|s| s.to_string()),
        fees: fees.map(|s| s.to_string()),
        limit: None,
    };
    assert_eq!(query(None, None).fx_source(), FxSource::UsdKrw);
    assert_eq!(query(Some("usdtkrw"), None).fx_source(), FxSource::UsdtKrw);
    assert_eq!(query(Some("USDTKRW"), None).fx_source(), FxSource::UsdtKrw);
    assert_eq!(query(Some("usdkrw"), None).fx_source(), FxSource::UsdKrw);
    assert_eq!(query(Some("eur"), None).fx_source(), FxSource::UsdKrw);
    assert!(!query(None, None).include_fees());
    assert!(query(None, Some("include")).include_fees());
    assert!(!query(None, Some("Include")).include_fees());
    assert!(!query(None, Some("exclude")).include_fees());
}

#[test]
fn single_requests_default_to_the_market_rate_with_fees() {
    let query = |fx: Option<&str>, fees: Option<&str>| ArbitrageQuery {
        from: "binance".to_string(),
        to: "upbit".to_string(),
        fx: fx.map(|s| s.to_string()),
        fees: fees.map(|s| s.to_string()),
    };
    assert_eq!(query(None, None).fx_source(), FxSource::UsdtKrw);
    assert_eq!(query(Some("usdkrw"), None).fx_source(), FxSource::UsdKrw);
    assert_eq!(query(Some("UsdKrw"), None).fx_source(), FxSource::UsdKrw);
    assert_eq!(query(Some("usdtkrw"), None).fx_source(), FxSource::UsdtKrw);
    assert_eq!(query(Some("eur"), None).fx_source(), FxSource::UsdtKrw);
    assert!(query(None, None).include_fees());
    assert!(query(None, Some("include")).include_fees());
    assert!(query(None, Some("anything")).include_fees());
    assert!(!query(None, Some("exclude")).include_fees());
    assert!(!query(None, Some("EXCLUDE")).include_fees());
    assert_eq!(FxSource::UsdKrw.to_string(), "usdkrw");
    assert_eq!(FxSource::UsdtKrw.to_string(), "usdtkrw");
}

#[test]
fn the_single_route_answers_with_the_arbitrage() {
    let mut s = priced_store();
    let service = ArbitrageService::new("key".to_string());
    let query = ArbitrageQuery {
        from: "BINANCE".to_string(),
        to: "upbit".to_string(),
        fx: None,
        fees: None,
    };
    let a = get_directional_arbitrage("btc", &query, &service, &mut s, &offline(), NOW).unwrap();
    assert_eq!(a.symbol, "BTC");
    assert_eq!(a.from_exchange, "Binance");
    assert_eq!(a.to_exchange, "Upbit");
    assert_eq!(a.fx_type, "usdtkrw");
    assert!(a.fx_rate.same_value(&dec("1300")));
    assert!(a.profit_percentage.same_value(&dec("10")));
    assert!(a.total_fees.same_value(&dec("0.25")));
    assert!(a.estimated_profit_after_fees.same_value(&dec("9.75")));
    let missing = ArbitrageQuery {
        from: "bithumb".to_string(),
        to: "upbit".to_string(),
        fx: None,
        fees: None,
    };
    let e = get_directional_arbitrage("btc", &missing, &service, &mut s, &offline(), NOW).unwrap_err();
    assert_eq!(e.status, 500);
    assert_eq!(e.body, "Error: Not found: Price not found for Bithumb");
}

#[test]
fn the_list_route_answers_with_the_list() {
    let mut s = priced_store();
    let service = ArbitrageService::new("key".to_string());
    let query = ArbitrageListQuery {
        from: "binance".to_string(),
        to: "UPBIT".to_string(),
        fx: None,
        fees: None,
        limit: Some(10),
    };
    let list = get_arbitrage_list(&query, &service, &mut s, &offline(), NOW).unwrap();
    assert_eq!(list.len(), 1);
    assert_eq!(list[0].fx_type, "usdkrw");
    assert!(list[0].total_fees.is_zero());
    let bad = ArbitrageListQuery { limit: Some(-5), ..query };
    let e = get_arbitrage_list(&bad, &service, &mut s, &offline(), NOW).unwrap_err();
    assert_eq!(e.status, 500);
    assert_eq!(e.body, "Error: Database error: negative limit");
}

#[test]
fn the_admin_routes_run_the_services() {
    let mut s = store();
    let service = ExchangeService::new();
    let upstream = CatalogUpstream {
        binance: None,
        upbit: Some(vec![UpbitMarket { market: "KRW-BTC".to_string() }]),
        bithumb: None,
    };
    let summary =
        sync_coins(&SyncCoinsQuery { exchange: Some("Upbit".to_string()) }, &service, &mut s, &upstream, NOW)
            .unwrap();
    assert_eq!((summary.active_total, summary.upserts, summary.deactivated), (1, 1, 0));
    let all = sync_coins(&SyncCoinsQuery { exchange: None }, &service, &mut s, &upstream, NOW).unwrap();
    assert_eq!((all.active_total, all.upserts, all.deactivated), (1, 0, 0));
    let mut bare = Store::new(Vec::new()).unwrap();
    let e = sync_coins(&SyncCoinsQuery { exchange: None }, &service, &mut bare, &upstream, NOW).unwrap_err();
    assert_eq!(e.status, 500);
    assert!(e.body.starts_with("Error: Database error: "));

    service.process_exchange(&mut s, "Binance", &vec!["BTC".to_string()], "USDT", NOW).unwrap();
    let prices = PriceUpstream {
        binance: Some(vec![BinanceTickerResponse {
            symbol: "BTCUSDT".to_string(),
            last_price: "60000".to_string(),
            volume: "1".to_string(),
            price_change_percent: "0".to_string(),
        }]),
        upbit: None,
        bithumb: None,
    };
    let counts = ingest_now(&service, &mut s, &prices, NOW);
    assert_eq!((counts.binance_count, counts.upbit_count, counts.bithumb_count), (1, 0, 0));
    assert_eq!(s.prices().len(), 1);
}

#[test]
fn errors_render_as_messages_and_answers() {
    let cases = [
        (AppError::Database("gone".to_string()), "Database error: gone", 500, "Database error occurred"),
        (AppError::Http("refused".to_string()), "HTTP client error: refused", 502, "External service error"),
        (AppError::Serialization("eof".to_string()), "Serialization error: eof", 400, "Invalid data format"),
        (AppError::DecimalParsing("x".to_string()), "Decimal parsing error: x", 400, "Invalid number format"),
        (AppError::Internal("bug".to_string()), "Internal server error: bug", 500, "bug"),
        (AppError::DatabaseError("full".to_string()), "Database error: full", 500, "full"),
        (AppError::NotFound("BTC".to_string()), "Not found: BTC", 404, "BTC"),
        (AppError::ExternalApiError("down".to_string()), "External API error: down", 502, "down"),
        (AppError::BadRequest("limit".to_string()), "Bad request: limit", 400, "limit"),
    ];
    for (error, message, status, body) in cases {
        assert_eq!(error.to_string(), message);
        assert_eq!(error.status_code(), status);
        assert_eq!(error.error_response(), (status, body.to_string()));
        assert_eq!(error.copy().to_string(), message);
        let answer = internal_error(&error);
        assert_eq!(answer.status, 500);
        assert_eq!(answer.body, format!("Error: {}", message));
    }
}

#[test]
fn configuration_has_its_defaults() {
    assert!(Config::from_values(None, Some("h".to_string()), Some(1), None).is_none());
    let c = Config::from_values(Some("mysql://db".to_string()), None, None, None).unwrap();
    assert_eq!(c.database_url, "mysql://db");
    assert_eq!(c.server_host, "127.0.0.1");
    assert_eq!(c.server_port, 8080);
    assert_eq!(c.rust_log, "info");
    assert_eq!(c.server_address("8080"), "127.0.0.1:8080");
    let d = Config::from_values(
        Some("mysql://db".to_string()),
        Some("0.0.0.0".to_string()),
        Some(9000),
        Some("debug".to_string()),
    )
    .unwrap();
    assert_eq!((d.server_host.as_str(), d.server_port, d.rust_log.as_str()), ("0.0.0.0", 9000, "debug"));
}

#[test]
fn case_is_folded_as_unicode_folds_it() {
    let kelvin = "usdt\u{212A}rw";
    let query = ArbitrageListQuery {
        from: "binance".to_string(),
        to: "upbit".to_string(),
        fx: Some(kelvin.to_string()),
        fees: None,
        limit: None,
    };
    assert_eq!(query.fx_source(), FxSource::UsdtKrw);
    assert_eq!(normalize_exchange_name("BİNANCE"), "BİNANCE");
    assert_eq!(normalize_exchange_name("BITHUMB"), "Bithumb");
    assert_eq!(requested_symbol("btc"), "BTC");
    assert_eq!(requested_symbol("Eth2"), "ETH2");
    assert_eq!(requested_symbol("straße"), "STRASSE");
}

#[test]
fn the_rate_route_answers_with_a_rate_in_any_case() {
    let service = ExchangeRateService::new("key".to_string());
    let mut s = store();
    let failed = get_exchange_rate(&service, &mut s, &offline(), NOW);
    assert_eq!(failed.currency_pair, "USD/KRW");
    assert_eq!(failed.timestamp, NOW);
    assert!(failed.rate.same_value(&dec("1300")));
    assert_eq!(failed.note, Some("External API error: offline".to_string()));
    assert!(s.rates().is_empty());
    let upstream = FxUpstream { naver: Ok("1,391.5".to_string()), eximbank: offline().eximbank };
    let acquired = get_exchange_rate(&service, &mut s, &upstream, NOW);
    assert!(acquired.rate.same_value(&dec("1391.5")));
    assert_eq!(acquired.note, None);
    assert_eq!(s.rates().len(), 1);
    let persisted = get_exchange_rate(&service, &mut s, &offline(), NOW + 5);
    assert!(persisted.rate.same_value(&dec("1391.5")));
    assert_eq!(persisted.note, None);
    assert_eq!(persisted.timestamp, NOW + 5);
    assert_eq!(s.rates().len(), 1);
}

#[test]
fn the_history_route_normalizes_the_venues() {
    let mut s = priced_store();
    let service = ArbitrageService::new("key".to_string());
    service
        .record_kimchi_snapshot(&mut s, &offline(), "BTC", "Binance", "Upbit", FxSource::UsdKrw, NOW)
        .unwrap();
    let query = |symbol: &str, from: &str, minutes: i64| KimchiHistoryQuery {
        symbol: symbol.to_string(),
        from: from.to_string(),
        to: "UPBIT".to_string(),
        minutes,
    };
    assert_eq!(get_kimchi_history(&query("BTC", "binance", 1), &service, &s, NOW).len(), 1);
    assert_eq!(get_kimchi_history(&query("BTC", "binance", 0), &service, &s, NOW).len(), 1);
    assert!(get_kimchi_history(&query("BTC", "binance", -1), &service, &s, NOW).is_empty());
    assert!(get_kimchi_history(&query("btc", "binance", 1), &service, &s, NOW).is_empty());
    assert!(get_kimchi_history(&query("BTC", "bithumb", 1), &service, &s, NOW).is_empty());
}
