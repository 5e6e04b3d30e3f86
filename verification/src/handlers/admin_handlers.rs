//! The administrative routes: a catalog synchronisation and an ingestion on
//! demand.

use vstd::prelude::*;
use crate::handlers::api_handlers::ErrorResponse;
use crate::handlers::api_handlers::internal_error;
use crate::services::exchange_service::binance_batch;
use crate::services::exchange_service::bithumb_batch;
use crate::services::exchange_service::catalog_left;
use crate::services::exchange_service::catalog_synced;
use crate::services::exchange_service::CatalogUpstream;
use crate::services::exchange_service::ExchangeService;
use crate::services::exchange_service::IngestSummary;
use crate::services::exchange_service::persisted;
use crate::services::exchange_service::PriceUpstream;
use crate::services::exchange_service::same_but_catalog;
use crate::services::exchange_service::SyncSummary;
use crate::services::exchange_service::upbit_batch;
use crate::store::Store;
use crate::text::lowercase_of;

verus! {

/// The parameters of a request for a catalog synchronisation.
#[derive(Debug, Clone)]
pub struct SyncCoinsQuery {
    /// `all`, `upbit`, `bithumb` or `binance`.
    pub exchange: Option<String>,
}

impl SyncCoinsQuery {
    /// The target of the request: the lowercase form of the parameter, `all`
    /// where there is none.
    pub open spec fn target(self) -> Seq<char> {
        match self.exchange {
            Some(name) => lowercase_of(name@),
            None => "all"@,
        }
    }
}

/// Answers a request for a catalog synchronisation with its summary. A
/// failure of the service is answered with the status 500.
pub fn sync_coins(
    query: &SyncCoinsQuery,
    exchange_service: &ExchangeService,
    store: &mut Store,
    upstream: &CatalogUpstream,
    now: i64,
) -> (r: Result<SyncSummary, ErrorResponse>)
    requires
        old(store)@.wf(),
    ensures
        final(store)@.wf(),
        same_but_catalog(old(store)@, final(store)@),
        catalog_left(old(store)@, final(store)@, query.target(), *upstream),
        exists|outcome: Result<SyncSummary, crate::utils::error::AppError>| #[trigger]
            catalog_synced(
                old(store)@,
                final(store)@,
                query.target(),
                *upstream,
                now as int,
                outcome,
            ) && (
            match outcome {
                Ok(summary) => r == Ok::<SyncSummary, ErrorResponse>(summary),
                Err(_) => r is Err && r.unwrap_err().status == 500,
            }),
{
    let exchange: Option<&str> = match &query.exchange {
        Some(name) => Some(name.as_str()),
        None => None,
    };
    let outcome = exchange_service.sync_coins(store, exchange, upstream, now);
    let ghost seen = outcome;
    let answer = match outcome {
        Ok(summary) => Ok(summary),
        Err(e) => Err(internal_error(&e)),
    };
    proof {
        assert(catalog_synced(
            old(store)@,
            store@,
            query.target(),
            *upstream,
            now as int,
            seen,
        ));
    }
    answer
}

/// Answers a request for an ingestion on demand: one batch is ingested at
/// the time `timestamp`, and the count of rows per venue is returned.
pub fn ingest_now(
    exchange_service: &ExchangeService,
    store: &mut Store,
    upstream: &PriceUpstream,
    timestamp: i64,
) -> (summary: IngestSummary)
    requires
        old(store)@.wf(),
    ensures
        final(store)@.wf(),
        old(store)@.same_but_prices(final(store)@),
        final(store)@.price_rows() == persisted(
            persisted(
                persisted(
                    old(store)@.price_rows(),
                    binance_batch(old(store)@, *upstream, timestamp as int),
                ),
                upbit_batch(old(store)@, *upstream, timestamp as int),
            ),
            bithumb_batch(old(store)@, *upstream, timestamp as int),
        ),
        summary.binance_count == binance_batch(old(store)@, *upstream, timestamp as int).len(),
        summary.upbit_count == upbit_batch(old(store)@, *upstream, timestamp as int).len(),
        summary.bithumb_count == bithumb_batch(old(store)@, *upstream, timestamp as int).len(),
{
    exchange_service.fetch_all_prices(store, upstream, timestamp)
}

} // verus!
