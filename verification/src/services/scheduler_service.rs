//! The schedule of the background jobs. The scheduler owns no business
//! state: it says which job runs when, and runs a job against the store when
//! its trigger fires.

use vstd::prelude::*;
use crate::services::arbitrage_service::Answer;
use crate::services::arbitrage_service::answer_of;
use crate::services::arbitrage_service::ArbitrageService;
use crate::services::arbitrage_service::FxSource;
use crate::services::arbitrage_service::request_settled;
use crate::services::arbitrage_service::snapshot_via;
use crate::services::exchange_rate_service::ExchangeRateService;
use crate::services::exchange_rate_service::FxUpstream;
use crate::services::exchange_rate_service::rate_persisted;
use crate::services::exchange_service::binance_batch;
use crate::services::exchange_service::bithumb_batch;
use crate::services::exchange_service::catalog_left;
use crate::services::exchange_service::catalog_synced;
use crate::services::exchange_service::CatalogUpstream;
use crate::services::exchange_service::ExchangeService;
use crate::services::exchange_service::persisted;
use crate::services::exchange_service::PriceUpstream;
use crate::services::exchange_service::SyncSummary;
use crate::services::exchange_service::upbit_batch;
use crate::store::Store;
use crate::store::Tables;
use crate::utils::error::AppError;

verus! {

/// What a background job does.
#[derive(Debug, Clone, Copy, PartialEq, Eq, Structural)]
pub enum JobAction {
    /// Ingest one batch of prices from the three venues.
    FetchAllPrices,
    /// Acquire the USD/KRW rate and persist it.
    FetchAndSaveUsdKrwRate,
    /// Synchronise the catalog of all venues.
    SyncCatalog,
    /// Record the premium of ETH between Binance and Upbit at the reference
    /// rate.
    RecordKimchiSnapshot,
}

impl JobAction {
    /// The trigger of the job: a cron expression of six fields, the first
    /// for the seconds.
    pub open spec fn cron(self) -> Seq<char> {
        match self {
            JobAction::FetchAllPrices => "*/2 * * * * *"@,
            JobAction::FetchAndSaveUsdKrwRate => "*/10 * * * * *"@,
            JobAction::SyncCatalog => "0 */10 * * * *"@,
            JobAction::RecordKimchiSnapshot => "0 * * * * *"@,
        }
    }

    /// The trigger of the job.
    pub fn schedule(&self) -> (cron: String)
        ensures
            cron@ == self.cron(),
    {
        match self {
            JobAction::FetchAllPrices => "*/2 * * * * *".to_owned(),
            JobAction::FetchAndSaveUsdKrwRate => "*/10 * * * * *".to_owned(),
            JobAction::SyncCatalog => "0 */10 * * * *".to_owned(),
            JobAction::RecordKimchiSnapshot => "0 * * * * *".to_owned(),
        }
    }
}

/// A job and its trigger.
#[derive(Debug, Clone)]
pub struct ScheduledJob {
    pub schedule: String,
    pub action: JobAction,
}

/// What a start of the scheduler asks for: the jobs to run once, in their
/// order, before any trigger is engaged, and the jobs to engage.
#[derive(Debug, Clone)]
pub struct StartPlan {
    pub prime: Vec<JobAction>,
    pub jobs: Vec<ScheduledJob>,
}

/// What the outside world answers to the requests of a job.
#[derive(Debug)]
pub struct Upstream {
    pub catalog: CatalogUpstream,
    pub prices: PriceUpstream,
    pub fx: FxUpstream,
}

/// The jobs that run once at a start: the catalog first, then the prices,
/// then the rate.
pub open spec fn prime_runs() -> Seq<JobAction> {
    seq![JobAction::SyncCatalog, JobAction::FetchAllPrices, JobAction::FetchAndSaveUsdKrwRate]
}

/// The jobs that a start engages.
pub open spec fn engaged_jobs() -> Seq<JobAction> {
    seq![
        JobAction::FetchAllPrices,
        JobAction::SyncCatalog,
        JobAction::FetchAndSaveUsdKrwRate,
        JobAction::RecordKimchiSnapshot,
    ]
}

/// `after` is what a run of the job at the time `now` leaves of `before`.
/// A job that fails leaves what it did up to then, and nothing else shows.
pub open spec fn job_ran(
    before: Tables,
    after: Tables,
    action: JobAction,
    upstream: Upstream,
    now: int,
) -> bool {
    match action {
        JobAction::FetchAllPrices => before.same_but_prices(after) && after.price_rows()
            == persisted(
            persisted(
                persisted(before.price_rows(), binance_batch(before, upstream.prices, now)),
                upbit_batch(before, upstream.prices, now),
            ),
            bithumb_batch(before, upstream.prices, now),
        ),
        JobAction::FetchAndSaveUsdKrwRate => rate_persisted(before, after, upstream.fx, now),
        JobAction::SyncCatalog => catalog_left(before, after, "all"@, upstream.catalog) && exists|
            r: Result<SyncSummary, AppError>,
        | #[trigger]
            catalog_synced(before, after, "all"@, upstream.catalog, now, r),
        JobAction::RecordKimchiSnapshot => match answer_of(
            before,
            upstream.fx,
            "ETH"@,
            "Binance"@,
            "Upbit"@,
            FxSource::UsdKrw,
            false,
            now,
        ) {
            Answer::Found(row) => exists|mid: Tables| #[trigger]
                snapshot_via(
                    before,
                    mid,
                    after,
                    upstream.fx,
                    "ETH"@,
                    "Binance"@,
                    "Upbit"@,
                    FxSource::UsdKrw,
                    now,
                    row,
                ),
            _ => request_settled(
                before,
                after,
                upstream.fx,
                "ETH"@,
                "Binance"@,
                "Upbit"@,
                FxSource::UsdKrw,
                now,
            ),
        },
    }
}

/// The scheduler of the background jobs.
#[derive(Debug, Clone)]
pub struct SchedulerService {
    exchange_service: ExchangeService,
    exchange_rate_service: ExchangeRateService,
    arbitrage_service: ArbitrageService,
    running: bool,
}

impl SchedulerService {
    /// Whether the scheduler has been started and not stopped.
    pub closed spec fn is_running(&self) -> bool {
        self.running
    }

    /// A scheduler over the services, not yet started.
    pub fn new(
        exchange_service: ExchangeService,
        exchange_rate_service: ExchangeRateService,
        arbitrage_service: ArbitrageService,
    ) -> (scheduler: Self)
        ensures
            !scheduler.is_running(),
    {
        SchedulerService {
            exchange_service,
            exchange_rate_service,
            arbitrage_service,
            running: false,
        }
    }

    /// Starts the scheduler. The plan says what to run once before the
    /// triggers are engaged (the catalog, the prices, the rate, in this
    /// order) and which jobs to engage, each with its trigger.
    pub fn start(&mut self) -> (plan: StartPlan)
        ensures
            final(self).is_running(),
            plan.prime@ == prime_runs(),
            plan.jobs@.len() == engaged_jobs().len(),
            forall|i: int|
                0 <= i < plan.jobs@.len() ==> (#[trigger] plan.jobs@[i]).action == engaged_jobs()[i]
                    && plan.jobs@[i].schedule@ == engaged_jobs()[i].cron(),
    {
        self.running = true;
        let mut prime: Vec<JobAction> = Vec::new();
        prime.push(JobAction::SyncCatalog);
        prime.push(JobAction::FetchAllPrices);
        prime.push(JobAction::FetchAndSaveUsdKrwRate);
        assert(prime@ =~= prime_runs());
        let mut jobs: Vec<ScheduledJob> = Vec::new();
        jobs.push(
            ScheduledJob {
                schedule: JobAction::FetchAllPrices.schedule(),
                action: JobAction::FetchAllPrices,
            },
        );
        jobs.push(
            ScheduledJob {
                schedule: JobAction::SyncCatalog.schedule(),
                action: JobAction::SyncCatalog,
            },
        );
        jobs.push(
            ScheduledJob {
                schedule: JobAction::FetchAndSaveUsdKrwRate.schedule(),
                action: JobAction::FetchAndSaveUsdKrwRate,
            },
        );
        jobs.push(
            ScheduledJob {
                schedule: JobAction::RecordKimchiSnapshot.schedule(),
                action: JobAction::RecordKimchiSnapshot,
            },
        );
        StartPlan { prime, jobs }
    }

    /// Stops the scheduler. A job that is running is left to complete.
    pub fn stop(&mut self)
        ensures
            !final(self).is_running(),
    {
        self.running = false;
    }

    /// Runs a job at the time `now` against what the outside world answers.
    /// A job never fails the scheduler: an error ends the job and is dropped.
    pub fn run_job(&self, store: &mut Store, action: JobAction, upstream: &Upstream, now: i64)
        requires
            old(store)@.wf(),
        ensures
            final(store)@.wf(),
            job_ran(old(store)@, final(store)@, action, *upstream, now as int),
    {
        match action {
            JobAction::FetchAllPrices => {
                let _ = self.exchange_service.fetch_all_prices(store, &upstream.prices, now);
            },
            JobAction::FetchAndSaveUsdKrwRate => {
                let r = self.exchange_rate_service.fetch_and_save_usd_krw_rate(
                    store,
                    &upstream.fx,
                    now,
                );
            },
            JobAction::SyncCatalog => {
                let r = self.exchange_service.sync_coins(store, None, &upstream.catalog, now);
            },
            JobAction::RecordKimchiSnapshot => {
                let r = self.arbitrage_service.record_kimchi_snapshot(
                    store,
                    &upstream.fx,
                    "ETH",
                    "Binance",
                    "Upbit",
                    FxSource::UsdKrw,
                    now,
                );
            },
        }
    }
}

} // verus!
