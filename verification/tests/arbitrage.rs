use kimchi_arbitrage::decimal::Decimal;
use kimchi_arbitrage::models::exchange::Exchange;
use kimchi_arbitrage::models::exchange::NewPriceData;
use kimchi_arbitrage::models::exchange_rate::NewExchangeRate;
use kimchi_arbitrage::services::arbitrage_service::arbitrage_from_krw;
use kimchi_arbitrage::services::arbitrage_service::compute_arbitrage;
use kimchi_arbitrage::services::arbitrage_service::fee_model;
use kimchi_arbitrage::services::arbitrage_service::to_krw;
use kimchi_arbitrage::services::arbitrage_service::ArbitrageService;
use kimchi_arbitrage::services::arbitrage_service::FxSource;
use kimchi_arbitrage::services::exchange_rate_service::FxUpstream;
use kimchi_arbitrage::store::Store;
use kimchi_arbitrage::utils::error::AppError;

const NOW: i64 = 1_700_000_000_000;

fn dec(text: &str) -> Decimal {
    Decimal::parse(text).unwrap()
}

fn venue(id: i32, name: &str) -> Exchange {
    Exchange {
        id,
        name: name.to_string(),
        country: String::new(),
        api_base_url: String::new(),
        created_at: 0,
    }
}

fn store() -> Store {
    Store::new(vec![venue(1, "Binance"), venue(2, "Upbit"), venue(3, "Bithumb")]).unwrap()
}

fn no_upstream() -> FxUpstream {
    FxUpstream {
        naver: Err(AppError::ExternalApiError("Failed to fetch Naver FX: offline".to_string())),
        eximbank: Err(AppError::ExternalApiError(
            "Failed to fetch exchange rate: offline".to_string(),
        )),
    }
}

fn list_on(store: &mut Store, exchange_id: i32, venue_name: &str, symbol: &str) -> i32 {
    store.upsert_coin(symbol, symbol, NOW).unwrap();
    let coin_id = store.get_coin_id(symbol).unwrap();
    let quote = if venue_name == "Binance" { "USDT" } else { "KRW" };
    store.upsert_listing(exchange_id, coin_id, symbol, symbol, quote).unwrap();
    coin_id
}

fn quote(store: &mut Store, exchange_id: i32, coin_id: i32, price: &str, volume: Option<&str>, ts: i64) {
    store
        .upsert_price(
            NewPriceData {
                exchange_id,
                coin_id,
                price: dec(price),
                volume_24h: volume.map(dec),
                price_change_24h: None,
                timestamp: ts,
            },
            ts,
        )
        .unwrap();
}

fn usd(store: &mut Store, rate: &str) {
    store
        .insert_rate(
            NewExchangeRate {
                currency_code: "USD".to_string(),
                rate: dec(rate),
                ttb_rate: None,
                tts_rate: None,
            },
            NOW - 1000,
        )
        .unwrap();
}

#[test]
fn binance_to_upbit_at_the_reference_rate() {
    let mut s = store();
    let btc = list_on(&mut s, 1, "Binance", "BTC");
    list_on(&mut s, 2, "Upbit", "BTC");
    quote(&mut s, 1, btc, "60000.00", Some("2"), NOW);
    quote(&mut s, 2, btc, "83200000", None, NOW);
    usd(&mut s, "1300.00");
    let service = ArbitrageService::new("key".to_string());
    let a = service
        .get_directional_arbitrage_with_options(
            &mut s,
            &no_upstream(),
            "BTC",
            "Binance",
            "Upbit",
            FxSource::UsdKrw,
            false,
            NOW,
        )
        .unwrap();
    assert_eq!(a.symbol, "BTC");
    assert_eq!(a.from_exchange, "Binance");
    assert_eq!(a.to_exchange, "Upbit");
    assert!(a.from_price.same_value(&dec("78000000")));
    assert!(a.to_price.same_value(&dec("83200000")));
    assert_eq!(a.to_price.to_text(), "83200000");
    assert!(a.price_difference.same_value(&dec("5200000")));
    assert!(a.profit_percentage.greater_than(&dec("6.6666")));
    assert!(a.profit_percentage.less_than(&dec("6.6667")));
    assert!(a.total_fees.is_zero());
    assert!(a.estimated_profit_after_fees.same_value(&a.profit_percentage));
    assert!(a.is_profitable);
    assert_eq!(a.fx_type, "usdkrw");
    assert!(a.fx_rate.same_value(&dec("1300")));
    assert!(a.from_volume_24h.as_ref().unwrap().same_value(&dec("2")));
    assert!(a.from_notional_24h.as_ref().unwrap().same_value(&dec("156000000")));
    assert!(a.to_volume_24h.is_none());
    assert!(a.to_notional_24h.is_none());
}

#[test]
fn upbit_to_bithumb_with_fees() {
    let mut s = store();
    let eth = list_on(&mut s, 2, "Upbit", "ETH");
    list_on(&mut s, 3, "Bithumb", "ETH");
    quote(&mut s, 2, eth, "5000000", None, NOW);
    quote(&mut s, 3, eth, "5025000", None, NOW);
    usd(&mut s, "1300.00");
    let service = ArbitrageService::new("key".to_string());
    let a = service
        .get_directional_arbitrage_with_options(
            &mut s,
            &no_upstream(),
            "ETH",
            "Upbit",
            "Bithumb",
            FxSource::UsdKrw,
            true,
            NOW,
        )
        .unwrap();
    assert!(a.from_price.same_value(&dec("5000000")));
    assert!(a.to_price.same_value(&dec("5025000")));
    assert!(a.profit_percentage.same_value(&dec("0.5")));
    assert!(a.total_fees.same_value(&dec("0.25")));
    assert!(a.estimated_profit_after_fees.same_value(&dec("0.25")));
    assert!(a.is_profitable);
}

#[test]
fn market_rate_falls_back_to_the_reference_rate() {
    let mut s = store();
    let btc = list_on(&mut s, 1, "Binance", "BTC");
    quote(&mut s, 1, btc, "100", None, NOW);
    quote(&mut s, 2, btc, "140000", None, NOW);
    usd(&mut s, "1350.5");
    let service = ArbitrageService::new("key".to_string());
    let a = service
        .get_directional_arbitrage_with_options(
            &mut s,
            &no_upstream(),
            "BTC",
            "Binance",
            "Upbit",
            FxSource::UsdtKrw,
            false,
            NOW,
        )
        .unwrap();
    assert_eq!(a.fx_type, "usdtkrw");
    assert!(a.fx_rate.same_value(&dec("1350.5")));
    assert!(a.from_price.same_value(&dec("135050")));
}

#[test]
fn market_rate_is_the_price_of_usdt_on_a_domestic_venue() {
    let mut s = store();
    let btc = list_on(&mut s, 1, "Binance", "BTC");
    let usdt = list_on(&mut s, 3, "Bithumb", "USDT");
    quote(&mut s, 1, btc, "100", None, NOW);
    quote(&mut s, 2, btc, "140000", None, NOW);
    quote(&mut s, 1, usdt, "1", None, NOW);
    quote(&mut s, 3, usdt, "1400", None, NOW);
    usd(&mut s, "1300");
    let service = ArbitrageService::new("key".to_string());
    assert!(service.get_usdt_krw_price(&s, NOW).unwrap().same_value(&dec("1400")));
    let a = service
        .get_directional_arbitrage_with_options(
            &mut s,
            &no_upstream(),
            "BTC",
            "Binance",
            "Upbit",
            FxSource::UsdtKrw,
            false,
            NOW,
        )
        .unwrap();
    assert!(a.fx_rate.same_value(&dec("1400")));
    assert!(a.price_difference.is_zero());
    assert!(a.profit_percentage.is_zero());
    assert!(!a.is_profitable);
    let b = service
        .get_directional_arbitrage_with_options(
            &mut s,
            &no_upstream(),
            "BTC",
            "Binance",
            "Upbit",
            FxSource::UsdKrw,
            false,
            NOW,
        )
        .unwrap();
    assert!(b.fx_rate.same_value(&dec("1300")));
    assert_eq!(b.fx_type, "usdkrw");
}

#[test]
fn no_rate_at_all_uses_the_rate_of_last_resort() {
    let mut s = store();
    let btc = list_on(&mut s, 1, "Binance", "BTC");
    quote(&mut s, 1, btc, "2", None, NOW);
    quote(&mut s, 2, btc, "2600", None, NOW);
    let service = ArbitrageService::new("key".to_string());
    let a = service
        .get_directional_arbitrage_with_options(
            &mut s,
            &no_upstream(),
            "BTC",
            "Binance",
            "Upbit",
            FxSource::UsdKrw,
            false,
            NOW,
        )
        .unwrap();
    assert!(a.fx_rate.same_value(&dec("1300")));
    assert!(a.from_price.same_value(&dec("2600")));
    assert!(s.rates().is_empty());
}

#[test]
fn selling_on_binance_converts_the_selling_side() {
    let mut s = store();
    let btc = list_on(&mut s, 1, "Binance", "BTC");
    quote(&mut s, 1, btc, "100", None, NOW);
    quote(&mut s, 2, btc, "125000", None, NOW);
    usd(&mut s, "1000");
    let service = ArbitrageService::new("key".to_string());
    let a = service
        .get_directional_arbitrage_with_options(
            &mut s,
            &no_upstream(),
            "BTC",
            "Upbit",
            "Binance",
            FxSource::UsdKrw,
            true,
            NOW,
        )
        .unwrap();
    assert!(a.from_price.same_value(&dec("125000")));
    assert_eq!(a.from_price.to_text(), "125000");
    assert!(a.to_price.same_value(&dec("100000")));
    assert!(a.price_difference.same_value(&dec("-25000")));
    assert!(a.profit_percentage.same_value(&dec("-20")));
    assert!(a.estimated_profit_after_fees.same_value(&dec("-20.25")));
    assert!(!a.is_profitable);
}

#[test]
fn a_side_without_a_recent_price_is_not_found() {
    let mut s = store();
    let btc = list_on(&mut s, 1, "Binance", "BTC");
    quote(&mut s, 1, btc, "100", None, NOW);
    quote(&mut s, 2, btc, "125000", None, NOW - 31 * 60 * 1000);
    usd(&mut s, "1000");
    let service = ArbitrageService::new("key".to_string());
    match service.get_directional_arbitrage_with_options(
        &mut s,
        &no_upstream(),
        "BTC",
        "Binance",
        "Upbit",
        FxSource::UsdKrw,
        false,
        NOW,
    ) {
        Err(AppError::NotFound(m)) => assert_eq!(m, "Price not found for Upbit"),
        other => panic!("unexpected {:?}", other),
    }
    match service.get_directional_arbitrage_with_options(
        &mut s,
        &no_upstream(),
        "BTC",
        "Bithumb",
        "Binance",
        FxSource::UsdKrw,
        false,
        NOW,
    ) {
        Err(AppError::NotFound(m)) => assert_eq!(m, "Price not found for Bithumb"),
        other => panic!("unexpected {:?}", other),
    }
    match service.get_directional_arbitrage_with_options(
        &mut s,
        &no_upstream(),
        "DOGE",
        "Binance",
        "Upbit",
        FxSource::UsdKrw,
        false,
        NOW,
    ) {
        Err(AppError::NotFound(m)) => assert_eq!(m, "Price not found for Binance"),
        other => panic!("unexpected {:?}", other),
    }
}

#[test]
fn a_price_at_the_edge_of_the_window_still_counts() {
    let mut s = store();
    let btc = list_on(&mut s, 2, "Upbit", "BTC");
    quote(&mut s, 2, btc, "100", None, NOW - 30 * 60 * 1000);
    quote(&mut s, 3, btc, "110", None, NOW - 30 * 60 * 1000 - 1);
    let service = ArbitrageService::new("key".to_string());
    let rows = service.get_latest_price_volume_for_symbol(&s, "BTC", NOW);
    assert_eq!(rows.len(), 1);
    assert_eq!(rows[0].0, "Upbit");
    let prices = service.get_latest_prices_for_symbol(&s, "BTC", NOW);
    assert_eq!(prices.len(), 1);
    assert!(prices[0].1.same_value(&dec("100")));
}

#[test]
fn the_latest_row_of_a_venue_is_the_one_that_counts() {
    let mut s = store();
    let btc = list_on(&mut s, 2, "Upbit", "BTC");
    quote(&mut s, 2, btc, "100", Some("1"), NOW - 5000);
    quote(&mut s, 2, btc, "300", Some("3"), NOW - 1000);
    quote(&mut s, 2, btc, "200", Some("2"), NOW - 3000);
    quote(&mut s, 3, btc, "150", None, NOW - 4000);
    let service = ArbitrageService::new("key".to_string());
    let rows = service.get_latest_price_volume_for_symbol(&s, "BTC", NOW);
    assert_eq!(rows.len(), 2);
    assert_eq!(rows[0].0, "Upbit");
    assert!(rows[0].1.same_value(&dec("300")));
    assert!(rows[0].2.as_ref().unwrap().same_value(&dec("3")));
    assert_eq!(rows[1].0, "Bithumb");
    assert!(rows[1].2.is_none());
}

#[test]
fn the_same_venue_on_both_sides_gives_no_profit() {
    let mut s = store();
    let btc = list_on(&mut s, 2, "Upbit", "BTC");
    quote(&mut s, 2, btc, "100", Some("4"), NOW);
    let service = ArbitrageService::new("key".to_string());
    let a = service
        .get_directional_arbitrage_with_options(
            &mut s,
            &no_upstream(),
            "BTC",
            "Upbit",
            "Upbit",
            FxSource::UsdKrw,
            false,
            NOW,
        )
        .unwrap();
    assert!(a.from_price.same_value(&dec("100")));
    assert!(a.to_price.same_value(&dec("100")));
    assert!(a.price_difference.is_zero());
    assert!(a.profit_percentage.is_zero());
    assert!(!a.is_profitable);
    assert!(a.to_volume_24h.unwrap().same_value(&dec("4")));
    match service.get_directional_arbitrage_with_options(
        &mut s,
        &no_upstream(),
        "BTC",
        "Bithumb",
        "Bithumb",
        FxSource::UsdKrw,
        false,
        NOW,
    ) {
        Err(AppError::NotFound(m)) => assert_eq!(m, "Price not found for Bithumb"),
        other => panic!("unexpected {:?}", other),
    }
}

#[test]
fn a_buying_price_of_zero_is_an_internal_error() {
    let mut s = store();
    let btc = list_on(&mut s, 2, "Upbit", "BTC");
    quote(&mut s, 2, btc, "0", None, NOW);
    quote(&mut s, 3, btc, "10", None, NOW);
    let service = ArbitrageService::new("key".to_string());
    match service.get_directional_arbitrage_with_options(
        &mut s,
        &no_upstream(),
        "BTC",
        "Upbit",
        "Bithumb",
        FxSource::UsdKrw,
        false,
        NOW,
    ) {
        Err(AppError::Internal(_)) => {}
        other => panic!("unexpected {:?}", other),
    }
}

#[test]
fn list_is_limited_and_sorted_by_profit() {
    let mut s = store();
    for (symbol, binance, upbit) in [
        ("XRP", "1", "1500"),
        ("BTC", "60000", "81000000"),
        ("ZEC", "30", "90000"),
        ("ETH", "3000", "4200000"),
    ] {
        let id = list_on(&mut s, 1, "Binance", symbol);
        list_on(&mut s, 2, "Upbit", symbol);
        quote(&mut s, 1, id, binance, None, NOW);
        quote(&mut s, 2, id, upbit, None, NOW);
    }
    usd(&mut s, "1000");
    let service = ArbitrageService::new("key".to_string());
    assert_eq!(
        service.get_common_symbols(&s, "Binance", "Upbit", Some(3)).unwrap(),
        vec!["BTC", "ETH", "XRP"]
    );
    let list = service
        .get_directional_arbitrage_list(
            &mut s,
            &no_upstream(),
            "Binance",
            "Upbit",
            FxSource::UsdKrw,
            false,
            Some(3),
            NOW,
        )
        .unwrap();
    let symbols: Vec<&str> = list.iter().map(|a| a.symbol.as_str()).collect();
    assert_eq!(symbols, vec!["XRP", "ETH", "BTC"]);
    assert!(list[0].profit_percentage.same_value(&dec("50")));
    assert!(list[1].profit_percentage.same_value(&dec("40")));
    assert!(list[2].profit_percentage.same_value(&dec("35")));
    for pair in list.windows(2) {
        assert!(!pair[0].profit_percentage.less_than(&pair[1].profit_percentage));
    }
    let all = service
        .get_directional_arbitrage_list(
            &mut s,
            &no_upstream(),
            "Binance",
            "Upbit",
            FxSource::UsdKrw,
            false,
            None,
            NOW,
        )
        .unwrap();
    let symbols: Vec<&str> = all.iter().map(|a| a.symbol.as_str()).collect();
    assert_eq!(symbols, vec!["ZEC", "XRP", "ETH", "BTC"]);
}

#[test]
fn list_leaves_out_symbols_without_a_recent_price() {
    let mut s = store();
    let btc = list_on(&mut s, 1, "Binance", "BTC");
    list_on(&mut s, 2, "Upbit", "BTC");
    let eth = list_on(&mut s, 1, "Binance", "ETH");
    list_on(&mut s, 2, "Upbit", "ETH");
    let xrp = list_on(&mut s, 1, "Binance", "XRP");
    list_on(&mut s, 2, "Upbit", "XRP");
    quote(&mut s, 1, btc, "10", None, NOW);
    quote(&mut s, 2, btc, "11000", None, NOW);
    quote(&mut s, 1, eth, "10", None, NOW);
    quote(&mut s, 1, xrp, "10", None, NOW);
    quote(&mut s, 2, xrp, "11000", None, NOW - 40 * 60 * 1000);
    usd(&mut s, "1000");
    let service = ArbitrageService::new("key".to_string());
    let list = service
        .get_directional_arbitrage_list(
            &mut s,
            &no_upstream(),
            "Binance",
            "Upbit",
            FxSource::UsdKrw,
            false,
            None,
            NOW,
        )
        .unwrap();
    assert_eq!(list.len(), 1);
    assert_eq!(list[0].symbol, "BTC");
}

#[test]
fn list_keeps_the_order_of_symbols_among_equal_profits() {
    let mut s = store();
    for symbol in ["CCC", "AAA", "BBB"] {
        let id = list_on(&mut s, 2, "Upbit", symbol);
        list_on(&mut s, 3, "Bithumb", symbol);
        quote(&mut s, 2, id, "100", None, NOW);
        quote(&mut s, 3, id, "110.0", None, NOW);
    }
    let service = ArbitrageService::new("key".to_string());
    let list = service
        .get_directional_arbitrage_list(
            &mut s,
            &no_upstream(),
            "Upbit",
            "Bithumb",
            FxSource::UsdKrw,
            false,
            None,
            NOW,
        )
        .unwrap();
    let symbols: Vec<&str> = list.iter().map(|a| a.symbol.as_str()).collect();
    assert_eq!(symbols, vec!["AAA", "BBB", "CCC"]);
}

#[test]
fn list_refuses_a_negative_limit() {
    let mut s = store();
    let service = ArbitrageService::new("key".to_string());
    match service.get_directional_arbitrage_list(
        &mut s,
        &no_upstream(),
        "Binance",
        "Upbit",
        FxSource::UsdKrw,
        false,
        Some(-1),
        NOW,
    ) {
        Err(AppError::Database(_)) => {}
        other => panic!("unexpected {:?}", other),
    }
    let none = service
        .get_directional_arbitrage_list(
            &mut s,
            &no_upstream(),
            "Binance",
            "Upbit",
            FxSource::UsdKrw,
            false,
            Some(0),
            NOW,
        )
        .unwrap();
    assert!(none.is_empty());
}

#[test]
fn fees_are_a_quarter_percent_whatever_the_coin() {
    let service = ArbitrageService::new("key".to_string());
    for symbol in ["BTC", "ETH", "XRP"] {
        let total = service.calculate_total_fees(symbol, "Binance", "Upbit").unwrap();
        assert!(total.same_value(&dec("0.25")));
    }
    let btc = fee_model("BTC").unwrap();
    assert!(btc.trading_fee.same_value(&dec("0.1")));
    assert!(btc.exchange_fee.same_value(&dec("0.05")));
    assert!(btc.withdrawal_fee.same_value(&dec("0.0005")));
    assert!(btc.total_fee.same_value(&dec("0.25")));
    assert!(fee_model("ETH").unwrap().withdrawal_fee.same_value(&dec("0.005")));
    assert!(fee_model("DOGE").unwrap().withdrawal_fee.same_value(&dec("0.001")));
}

#[test]
fn only_binance_prices_are_converted() {
    let rate = dec("1300");
    assert!(to_krw("Binance", &dec("2"), &rate).unwrap().same_value(&dec("2600")));
    assert!(to_krw("Upbit", &dec("2"), &rate).unwrap().same_value(&dec("2")));
    assert!(to_krw("Bithumb", &dec("2"), &rate).unwrap().same_value(&dec("2")));
    assert!(to_krw("binance", &dec("2"), &rate).unwrap().same_value(&dec("2")));
}

#[test]
fn computing_from_plain_quotes() {
    let a = compute_arbitrage(
        "BTC",
        "Upbit",
        "Bithumb",
        &dec("200"),
        &dec("201"),
        Some(dec("10")),
        Some(dec("0.5")),
        dec("1300"),
        "usdkrw".to_string(),
        dec("0.25"),
    )
    .unwrap();
    assert!(a.price_difference.same_value(&dec("1")));
    assert!(a.profit_percentage.same_value(&dec("0.5")));
    assert!(a.estimated_profit_after_fees.same_value(&dec("0.25")));
    assert!(a.is_profitable);
    assert!(a.from_notional_24h.unwrap().same_value(&dec("2000")));
    assert!(a.to_notional_24h.unwrap().same_value(&dec("100.5")));
    let even = compute_arbitrage(
        "BTC",
        "Upbit",
        "Bithumb",
        &dec("400"),
        &dec("401"),
        None,
        None,
        dec("1300"),
        "usdkrw".to_string(),
        dec("0.25"),
    )
    .unwrap();
    assert!(even.estimated_profit_after_fees.is_zero());
    assert!(!even.is_profitable);
}

#[test]
fn snapshot_is_read_back_within_the_minute() {
    let mut s = store();
    let eth = list_on(&mut s, 1, "Binance", "ETH");
    list_on(&mut s, 2, "Upbit", "ETH");
    quote(&mut s, 1, eth, "3000", Some("7"), NOW);
    quote(&mut s, 2, eth, "4050000", None, NOW);
    usd(&mut s, "1300");
    let service = ArbitrageService::new("key".to_string());
    let live = service
        .get_directional_arbitrage_with_options(
            &mut s,
            &no_upstream(),
            "ETH",
            "Binance",
            "Upbit",
            FxSource::UsdKrw,
            false,
            NOW,
        )
        .unwrap();
    service
        .record_kimchi_snapshot(
            &mut s,
            &no_upstream(),
            "ETH",
            "Binance",
            "Upbit",
            FxSource::UsdKrw,
            NOW,
        )
        .unwrap();
    let history = service.get_kimchi_history(&s, "ETH", "Binance", "Upbit", 1, NOW);
    assert_eq!(history.len(), 1);
    assert_eq!(history[0].ts, NOW);
    assert_eq!(history[0].fx_type, "usdkrw");
    assert!(history[0].profit_percentage.same_value(&live.profit_percentage));
    assert_eq!(history[0].profit_percentage.to_text(), live.profit_percentage.to_text());
    assert!(history[0].from_price_krw.same_value(&dec("3900000")));
    assert!(history[0].from_notional_24h.as_ref().unwrap().same_value(&dec("27300000")));
    assert!(service.get_kimchi_history(&s, "ETH", "Upbit", "Binance", 1, NOW).is_empty());
    assert!(service.get_kimchi_history(&s, "ETH", "Binance", "Upbit", 1, NOW + 60_001).is_empty());
}

#[test]
fn snapshot_without_prices_records_nothing() {
    let mut s = store();
    let service = ArbitrageService::new("key".to_string());
    let r = service.record_kimchi_snapshot(
        &mut s,
        &no_upstream(),
        "ETH",
        "Binance",
        "Upbit",
        FxSource::UsdKrw,
        NOW,
    );
    assert!(matches!(r, Err(AppError::NotFound(_))));
    assert!(s.kimchi().is_empty());
}

#[test]
fn history_comes_earliest_first() {
    let mut s = store();
    let eth = list_on(&mut s, 1, "Binance", "ETH");
    usd(&mut s, "1300");
    let service = ArbitrageService::new("key".to_string());
    for (ts, upbit) in [(NOW - 1000, "4000000"), (NOW - 3000, "4100000"), (NOW - 2000, "4200000")] {
        quote(&mut s, 1, eth, "3000", None, ts);
        quote(&mut s, 2, eth, upbit, None, ts);
        service
            .record_kimchi_snapshot(
                &mut s,
                &no_upstream(),
                "ETH",
                "Binance",
                "Upbit",
                FxSource::UsdKrw,
                ts,
            )
            .unwrap();
    }
    let history = service.get_kimchi_history(&s, "ETH", "Binance", "Upbit", 5, NOW);
    let times: Vec<i64> = history.iter().map(|p| p.ts).collect();
    assert_eq!(times, vec![NOW - 3000, NOW - 2000, NOW - 1000]);
}

#[test]
fn prices_are_adjusted_with_the_resolved_rate() {
    let mut s = store();
    usd(&mut s, "1250");
    let service = ArbitrageService::new("key".to_string());
    let (from, to, rate, tag) = service
        .adjust_prices_for_currency(
            &mut s,
            &no_upstream(),
            &dec("4"),
            &dec("5100"),
            "Binance",
            "Bithumb",
            &FxSource::UsdtKrw,
            NOW,
        )
        .unwrap();
    assert!(from.same_value(&dec("5000")));
    assert_eq!(to.to_text(), "5100");
    assert!(rate.same_value(&dec("1250")));
    assert_eq!(tag, "usdtkrw");
    assert!(service
        .resolve_fx_rate(&mut s, &no_upstream(), FxSource::UsdKrw, NOW)
        .same_value(&dec("1250")));
}

#[test]
fn a_missing_rate_is_acquired_and_persisted_once() {
    let mut s = store();
    let btc = list_on(&mut s, 1, "Binance", "BTC");
    list_on(&mut s, 2, "Upbit", "BTC");
    let eth = list_on(&mut s, 1, "Binance", "ETH");
    list_on(&mut s, 2, "Upbit", "ETH");
    quote(&mut s, 1, btc, "10", None, NOW);
    quote(&mut s, 2, btc, "15400", None, NOW);
    quote(&mut s, 1, eth, "1", None, NOW);
    quote(&mut s, 2, eth, "1400", None, NOW);
    let upstream = FxUpstream {
        naver: Ok("USD 1,400.00 KRW".to_string()),
        eximbank: Err(AppError::ExternalApiError("unused".to_string())),
    };
    let service = ArbitrageService::new("key".to_string());
    let list = service
        .get_directional_arbitrage_list(
            &mut s,
            &upstream,
            "Binance",
            "Upbit",
            FxSource::UsdKrw,
            false,
            None,
            NOW,
        )
        .unwrap();
    assert_eq!(list.len(), 2);
    assert_eq!(list[0].symbol, "BTC");
    assert!(list[0].fx_rate.same_value(&dec("1400")));
    assert!(list[0].profit_percentage.same_value(&dec("10")));
    assert!(list[1].fx_rate.same_value(&dec("1400")));
    assert!(list[1].profit_percentage.is_zero());
    let rates = s.rates();
    assert_eq!(rates.len(), 1);
    assert!(rates[0].rate.same_value(&dec("1400")));
}

#[test]
fn profit_from_prices_in_krw() {
    let a = arbitrage_from_krw(
        "XRP",
        "Binance",
        "Upbit",
        dec("1000"),
        dec("990"),
        None,
        Some(dec("3")),
        dec("1300"),
        "usdkrw".to_string(),
        dec("0"),
    )
    .unwrap();
    assert!(a.from_price.same_value(&dec("1000")));
    assert!(a.price_difference.same_value(&dec("-10")));
    assert!(a.profit_percentage.same_value(&dec("-1")));
    assert!(!a.is_profitable);
    assert!(a.from_notional_24h.is_none());
    assert!(a.to_notional_24h.unwrap().same_value(&dec("2970")));
    assert!(matches!(
        arbitrage_from_krw(
            "XRP",
            "Binance",
            "Upbit",
            dec("0.0"),
            dec("990"),
            None,
            None,
            dec("1300"),
            "usdkrw".to_string(),
            dec("0"),
        ),
        Err(AppError::Internal(_))
    ));
}
