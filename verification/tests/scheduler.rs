use kimchi_arbitrage::decimal::Decimal;
use kimchi_arbitrage::models::exchange::BinanceSymbolInfo;
use kimchi_arbitrage::models::exchange::BinanceTickerResponse;
use kimchi_arbitrage::models::exchange::Exchange;
use kimchi_arbitrage::models::exchange::UpbitMarket;
use kimchi_arbitrage::models::exchange::UpbitTickerResponse;
use kimchi_arbitrage::services::arbitrage_service::ArbitrageService;
use kimchi_arbitrage::services::exchange_rate_service::ExchangeRateService;
use kimchi_arbitrage::services::exchange_rate_service::FxUpstream;
use kimchi_arbitrage::services::exchange_service::CatalogUpstream;
use kimchi_arbitrage::services::exchange_service::ExchangeService;
use kimchi_arbitrage::services::exchange_service::PriceUpstream;
use kimchi_arbitrage::services::scheduler_service::JobAction;
use kimchi_arbitrage::services::scheduler_service::SchedulerService;
use kimchi_arbitrage::services::scheduler_service::Upstream;
use kimchi_arbitrage::store::Store;
use kimchi_arbitrage::utils::error::AppError;

const NOW: i64 = 1_700_000_000_000;

fn dec(text: &str) -> Decimal {
    Decimal::parse(text).unwrap()
}

fn venue(id: i32, name: &str) -> Exchange {
    Exchange {
        id,
        name: name.to_string(),
        country: String::new(),
        api_base_url: String::new(),
        created_at: 0,
    }
}

fn scheduler() -> SchedulerService {
    SchedulerService::new(
        ExchangeService::new(),
        ExchangeRateService::new("key".to_string()),
        ArbitrageService::new("key".to_string()),
    )
}

fn upstream() -> Upstream {
    Upstream {
        catalog: CatalogUpstream {
            binance: Some(vec![BinanceSymbolInfo {
                status: "TRADING".to_string(),
                base_asset: "ETH".to_string(),
                quote_asset: "USDT".to_string(),
            }]),
            upbit: Some(vec![UpbitMarket { market: "KRW-ETH".to_string() }]),
            bithumb: None,
        },
        prices: PriceUpstream {
            binance: Some(vec![BinanceTickerResponse {
                symbol: "ETHUSDT".to_string(),
                last_price: "3000".to_string(),
                volume: "10".to_string(),
                price_change_percent: "1".to_string(),
            }]),
            upbit: Some(vec![UpbitTickerResponse {
                market: "KRW-ETH".to_string(),
                trade_price: dec("4200000"),
                acc_trade_volume_24h: dec("5"),
                signed_change_rate: dec("0.01"),
            }]),
            bithumb: None,
        },
        fx: FxUpstream {
            naver: Ok("1,400.00".to_string()),
            eximbank: Err(AppError::ExternalApiError("unused".to_string())),
        },
    }
}

#[test]
fn the_plan_primes_catalog_prices_and_rate_in_this_order() {
    let mut scheduler = scheduler();
    let plan = scheduler.start();
    assert_eq!(
        plan.prime,
        vec![JobAction::SyncCatalog, JobAction::FetchAllPrices, JobAction::FetchAndSaveUsdKrwRate]
    );
    let jobs: Vec<(JobAction, &str)> =
        plan.jobs.iter().map(|j| (j.action, j.schedule.as_str())).collect();
    assert_eq!(
        jobs,
        vec![
            (JobAction::FetchAllPrices, "*/2 * * * * *"),
            (JobAction::SyncCatalog, "0 */10 * * * *"),
            (JobAction::FetchAndSaveUsdKrwRate, "*/10 * * * * *"),
            (JobAction::RecordKimchiSnapshot, "0 * * * * *"),
        ]
    );
    scheduler.stop();
    assert_eq!(JobAction::RecordKimchiSnapshot.schedule(), "0 * * * * *");
}

#[test]
fn the_jobs_fill_the_store() {
    let mut s = Store::new(vec![venue(1, "Binance"), venue(2, "Upbit"), venue(3, "Bithumb")]).unwrap();
    let mut scheduler = scheduler();
    let plan = scheduler.start();
    let world = upstream();
    for action in plan.prime {
        scheduler.run_job(&mut s, action, &world, NOW);
    }
    assert_eq!(s.get_listed_symbols(1), vec!["ETH"]);
    assert_eq!(s.get_listed_symbols(2), vec!["ETH"]);
    assert_eq!(s.prices().len(), 2);
    assert_eq!(s.rates().len(), 1);
    scheduler.run_job(&mut s, JobAction::RecordKimchiSnapshot, &world, NOW + 1000);
    let history = s.kimchi();
    assert_eq!(history.len(), 1);
    assert_eq!(history[0].symbol, "ETH");
    assert_eq!(history[0].from_exchange, "Binance");
    assert_eq!(history[0].to_exchange, "Upbit");
    assert_eq!(history[0].fx_type, "usdkrw");
    assert_eq!(history[0].ts, NOW + 1000);
    assert!(history[0].from_price_krw.same_value(&dec("4200000")));
    assert!(history[0].profit_percentage.is_zero());
}

#[test]
fn a_job_that_fails_is_dropped() {
    let mut s = Store::new(Vec::new()).unwrap();
    let scheduler = scheduler();
    let world = upstream();
    scheduler.run_job(&mut s, JobAction::SyncCatalog, &world, NOW);
    scheduler.run_job(&mut s, JobAction::FetchAllPrices, &world, NOW);
    scheduler.run_job(&mut s, JobAction::RecordKimchiSnapshot, &world, NOW);
    assert!(s.coins().is_empty());
    assert!(s.prices().is_empty());
    assert!(s.kimchi().is_empty());
}
