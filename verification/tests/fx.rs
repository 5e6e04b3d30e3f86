use kimchi_arbitrage::decimal::Decimal;
use kimchi_arbitrage::models::exchange::Exchange;
use kimchi_arbitrage::models::exchange_rate::strip_commas;
use kimchi_arbitrage::models::exchange_rate::ExchangeRate;
use kimchi_arbitrage::models::exchange_rate::KoreaEximbankResponse;
use kimchi_arbitrage::services::exchange_rate_service::scan_usd_krw;
use kimchi_arbitrage::services::exchange_rate_service::ExchangeRateService;
use kimchi_arbitrage::services::exchange_rate_service::FxUpstream;
use kimchi_arbitrage::store::Store;
use kimchi_arbitrage::utils::error::AppError;

const NOW: i64 = 1_700_000_000_000;

fn dec(text: &str) -> Decimal {
    Decimal::parse(text).unwrap()
}

fn store() -> Store {
    Store::new(vec![Exchange {
        id: 1,
        name: "Binance".to_string(),
        country: String::new(),
        api_base_url: String::new(),
        created_at: 0,
    }])
    .unwrap()
}

fn entry(unit: &str, deal: &str, ttb: &str, tts: &str) -> KoreaEximbankResponse {
    KoreaEximbankResponse {
        result: 1,
        cur_unit: unit.to_string(),
        ttb: ttb.to_string(),
        tts: tts.to_string(),
        deal_bas_r: deal.to_string(),
        bkpr: String::new(),
        yy_efee_r: String::new(),
        ten_dd_efee_r: String::new(),
        kftc_bkpr: String::new(),
        kftc_deal_bas_r: String::new(),
        cur_nm: String::new(),
    }
}

fn failed(what: &str) -> AppError {
    AppError::ExternalApiError(what.to_string())
}

#[test]
fn the_scan_takes_the_greatest_number_in_the_range() {
    let found = scan_usd_krw("{\"rate\":\"1,385.50\",\"prev\":\"1,379.10\",\"count\":\"3\"}").unwrap();
    assert!(found.same_value(&dec("1385.5")));
    assert_eq!(found.to_text(), "1385.50");
    assert!(scan_usd_krw("USD 900 KRW").unwrap().same_value(&dec("900")));
    assert!(scan_usd_krw("2000").unwrap().same_value(&dec("2000")));
    assert!(scan_usd_krw("899.99 and 2000.01 and 2,000.01").is_none());
    assert!(scan_usd_krw("1300 1,9,9,9 1500.").unwrap().same_value(&dec("1999")));
    assert!(scan_usd_krw("").is_none());
    assert!(scan_usd_krw("no numbers here").is_none());
    assert!(scan_usd_krw("1.300.5 , . ,, 13e2").is_none());
    assert!(scan_usd_krw("환율 1,301.2원").unwrap().same_value(&dec("1301.2")));
    assert!(scan_usd_krw("x1400").unwrap().same_value(&dec("1400")));
    assert!(scan_usd_krw("1400-1450").unwrap().same_value(&dec("1450")));
}

#[test]
fn commas_are_stripped() {
    assert_eq!(strip_commas("1,234,567.89"), "1234567.89");
    assert_eq!(strip_commas(",,"), "");
    assert_eq!(strip_commas("1300"), "1300");
    assert_eq!(strip_commas(""), "");
}

#[test]
fn the_bank_entry_becomes_a_rate() {
    let rate = entry("USD", "1,385.5", "1,371.64", "1,399.36").to_exchange_rate().unwrap();
    assert_eq!(rate.currency_code, "USD");
    assert!(rate.rate.same_value(&dec("1385.5")));
    assert!(rate.ttb_rate.unwrap().same_value(&dec("1371.64")));
    assert!(rate.tts_rate.unwrap().same_value(&dec("1399.36")));
    let bare = entry("JPY(100)", "905.12", "", "").to_exchange_rate().unwrap();
    assert_eq!(bare.currency_code, "JPY(100)");
    assert!(bare.ttb_rate.is_none());
    assert!(bare.tts_rate.is_none());
    match entry("USD", "n/a", "", "").to_exchange_rate() {
        Err(AppError::DecimalParsing(text)) => assert_eq!(text, "n/a"),
        other => panic!("unexpected {:?}", other),
    }
    match entry("USD", "1", "1", "x,y").to_exchange_rate() {
        Err(AppError::DecimalParsing(text)) => assert_eq!(text, "xy"),
        other => panic!("unexpected {:?}", other),
    }
    assert!(entry("USD", "", "", "").to_exchange_rate().is_err());
}

#[test]
fn the_primary_source_is_persisted_first() {
    let mut s = store();
    let service = ExchangeRateService::new("key".to_string());
    let upstream = FxUpstream {
        naver: Ok("rate 1,390.25 until 1,380.00".to_string()),
        eximbank: Ok(vec![entry("USD", "1,385.5", "", "")]),
    };
    let rate = service.fetch_and_save_usd_krw_rate(&mut s, &upstream, NOW).unwrap();
    assert!(rate.same_value(&dec("1390.25")));
    let rates = s.rates();
    assert_eq!(rates.len(), 1);
    assert_eq!(rates[0].currency_code, "USD");
    assert!(rates[0].rate.same_value(&dec("1390.25")));
    assert!(rates[0].ttb_rate.is_none());
    assert_eq!(rates[0].created_at, Some(NOW));
    assert_eq!(rates[0].id, 1);
}

#[test]
fn the_bank_steps_in_when_the_primary_source_fails() {
    let mut s = store();
    let service = ExchangeRateService::new("key".to_string());
    let upstream = FxUpstream {
        naver: Err(failed("Failed to fetch Naver FX: timeout")),
        eximbank: Ok(vec![
            entry("EUR", "1,500.1", "", ""),
            entry("USD", "1,385.5", "1,371.64", "1,399.36"),
            entry("USD", "1.0", "", ""),
        ]),
    };
    let rate = service.get_latest_usd_krw_rate(&mut s, &upstream, NOW).unwrap();
    assert!(rate.same_value(&dec("1385.5")));
    let rates = s.rates();
    assert_eq!(rates.len(), 1);
    assert!(rates[0].rate.same_value(&dec("1385.5")));
    assert!(rates[0].ttb_rate.as_ref().unwrap().same_value(&dec("1371.64")));
    let nothing = FxUpstream { naver: Err(failed("a")), eximbank: Err(failed("b")) };
    let again = service.get_latest_usd_krw_rate(&mut s, &nothing, NOW + 1).unwrap();
    assert!(again.same_value(&dec("1385.5")));
    assert_eq!(s.rates().len(), 1);
}

#[test]
fn a_primary_text_without_a_rate_counts_as_a_failure() {
    let mut s = store();
    let service = ExchangeRateService::new("key".to_string());
    let upstream = FxUpstream {
        naver: Ok("maintenance 503".to_string()),
        eximbank: Ok(vec![entry("USD", "1,301", "", "")]),
    };
    match service.fetch_usd_krw_from_naver(&upstream) {
        Err(AppError::ExternalApiError(m)) => {
            assert_eq!(m, "Failed to parse USD/KRW from Naver response")
        }
        other => panic!("unexpected {:?}", other),
    }
    let rate = service.fetch_and_save_usd_krw_rate(&mut s, &upstream, NOW).unwrap();
    assert!(rate.same_value(&dec("1301")));
}

#[test]
fn a_total_failure_surfaces_and_persists_nothing() {
    let mut s = store();
    let service = ExchangeRateService::new("key".to_string());
    let offline = FxUpstream {
        naver: Err(failed("Failed to fetch Naver FX: offline")),
        eximbank: Err(failed("Failed to fetch exchange rate: offline")),
    };
    match service.fetch_usd_krw_from_naver(&offline) {
        Err(AppError::ExternalApiError(m)) => assert_eq!(m, "Failed to fetch Naver FX: offline"),
        other => panic!("unexpected {:?}", other),
    }
    match service.fetch_and_save_usd_krw_rate(&mut s, &offline, NOW) {
        Err(AppError::ExternalApiError(m)) => {
            assert_eq!(m, "Failed to fetch exchange rate: offline")
        }
        other => panic!("unexpected {:?}", other),
    }
    let no_dollar = FxUpstream {
        naver: Err(failed("x")),
        eximbank: Ok(vec![entry("EUR", "1,500", "", "")]),
    };
    match service.fetch_and_save_usd_krw_rate(&mut s, &no_dollar, NOW) {
        Err(AppError::ExternalApiError(m)) => assert_eq!(m, "USD rate not found"),
        other => panic!("unexpected {:?}", other),
    }
    let unreadable = FxUpstream {
        naver: Err(failed("x")),
        eximbank: Ok(vec![entry("USD", "soon", "", "")]),
    };
    match service.get_latest_usd_krw_rate(&mut s, &unreadable, NOW) {
        Err(AppError::ExternalApiError(m)) => {
            assert_eq!(m, "Failed to convert exchange rate: Decimal parsing error: soon")
        }
        other => panic!("unexpected {:?}", other),
    }
    assert!(s.rates().is_empty());
    assert!(ExchangeRateService::get_fallback_usd_krw_rate().same_value(&dec("1300")));
    assert_eq!(ExchangeRateService::get_fallback_usd_krw_rate().to_text(), "1300.0");
}

#[test]
fn the_latest_rate_is_the_one_created_last() {
    let mut s = store();
    let rate = |id: i32, code: &str, value: &str, at: Option<i64>| ExchangeRate {
        id,
        currency_code: code.to_string(),
        rate: dec(value),
        ttb_rate: None,
        tts_rate: None,
        created_at: at,
    };
    assert!(s.latest_fx_rate("USD").is_none());
    s.load_rate(rate(1, "USD", "1300", Some(50)));
    s.load_rate(rate(2, "USD", "1310", Some(70)));
    s.load_rate(rate(3, "EUR", "1500", Some(90)));
    s.load_rate(rate(4, "USD", "1320", Some(60)));
    s.load_rate(rate(5, "USD", "1330", None));
    assert!(s.latest_fx_rate("USD").unwrap().same_value(&dec("1310")));
    assert!(s.latest_fx_rate("EUR").unwrap().same_value(&dec("1500")));
    assert!(s.latest_fx_rate("JPY").is_none());
    s.load_rate(rate(6, "USD", "1340", Some(70)));
    assert!(s.latest_fx_rate("USD").unwrap().same_value(&dec("1340")));
}

#[test]
fn the_address_of_the_bank_carries_key_and_day() {
    let service = ExchangeRateService::new("SECRET".to_string());
    assert_eq!(
        service.eximbank_url("20240131"),
        "https://oapi.koreaexim.go.kr/site/program/financial/exchangeJSON?authkey=SECRET&searchdate=20240131&data=AP01"
    );
}
