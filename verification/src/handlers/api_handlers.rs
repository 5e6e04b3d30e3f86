//! The read routes: the arbitrage of one coin, and the list of arbitrages
//! between two venues.

use vstd::prelude::*;
use crate::decimal::Decimal;
use crate::models::arbitrage::DirectionalArbitrage;
use crate::models::arbitrage::KimchiHistoryPoint;
use crate::services::exchange_rate_service::acquired;
use crate::services::exchange_rate_service::ExchangeRateService;
use crate::services::exchange_rate_service::rate_persisted;
use crate::services::exchange_rate_service::usd_rate;
use crate::models::exchange::ExchangeType;
use crate::services::arbitrage_service::Answer;
use crate::services::arbitrage_service::answer_of;
use crate::services::arbitrage_service::ArbitrageService;
use crate::services::arbitrage_service::FxSource;
use crate::services::arbitrage_service::list_built;
use crate::services::arbitrage_service::request_settled;
use crate::services::arbitrage_service::settled;
use crate::services::exchange_rate_service::FxUpstream;
use crate::store::Store;
use crate::text::joined;
use crate::text::lowercase_of;
use crate::text::same_text;
use crate::text::uppercase_of;
use crate::utils::error::AppError;

verus! {

/// The parameters of a request for the arbitrage of one coin.
#[derive(Debug, Clone)]
pub struct ArbitrageQuery {
    pub from: String,
    pub to: String,
    /// `usdkrw` or `usdtkrw`.
    pub fx: Option<String>,
    /// `include` or `exclude`.
    pub fees: Option<String>,
}

/// The parameters of a request for the list of arbitrages.
#[derive(Debug, Clone)]
pub struct ArbitrageListQuery {
    pub from: String,
    pub to: String,
    /// `usdkrw` or `usdtkrw`.
    pub fx: Option<String>,
    /// `include` or `exclude`.
    pub fees: Option<String>,
    pub limit: Option<i64>,
}

/// What a route answers with when a service fails: the status 500 and the
/// error's message after `Error: `.
#[derive(Debug, Clone)]
pub struct ErrorResponse {
    pub status: u16,
    pub body: String,
}

/// The answer to a failure of a service.
pub fn internal_error(error: &AppError) -> (response: ErrorResponse)
    ensures
        response.status == 500,
        response.body@ == "Error: "@ + error.prefix() + error.detail(),
{
    let message = error.to_string();
    let body = joined("Error: ", message.as_str());
    assert(body@ =~= "Error: "@ + error.prefix() + error.detail());
    ErrorResponse { status: 500, body }
}

/// The name that a request's venue name is taken as: the canonical name of
/// the venue that its lowercase form stands for, the name itself otherwise.
pub open spec fn normalized_name(name: Seq<char>) -> Seq<char> {
    match ExchangeType::of_lowercase(lowercase_of(name)) {
        Some(venue) => venue.name(),
        None => name,
    }
}

/// The canonical name of the venue that a lowercase name stands for; where
/// it stands for none, the name as it came.
pub fn canonical_name(lower: &str, name: &str) -> (canonical: String)
    ensures
        canonical@ == (match ExchangeType::of_lowercase(lower@) {
            Some(venue) => venue.name(),
            None => name@,
        }),
{
    match ExchangeType::from_lowercase(lower) {
        Some(venue) => venue.to_string(),
        None => name.to_owned(),
    }
}

/// Folds a venue name from a request to its canonical form, whatever its
/// case; a name of no venue is handed on as it came.
pub fn normalize_exchange_name(name: &str) -> (canonical: String)
    ensures
        canonical@ == normalized_name(name@),
{
    let lower = name.to_lowercase();
    canonical_name(lower.as_str(), name)
}

/// The rate source that a lowercase parameter of a list request stands for:
/// the market only where it says `usdtkrw`.
pub fn list_fx_source(lower: &str) -> (source: FxSource)
    ensures
        source == (if lower@ == "usdtkrw"@ {
            FxSource::UsdtKrw
        } else {
            FxSource::UsdKrw
        }),
{
    if same_text(lower, "usdtkrw") {
        FxSource::UsdtKrw
    } else {
        FxSource::UsdKrw
    }
}

/// The rate source that a lowercase parameter of a request for one coin
/// stands for: the reference rate only where it says `usdkrw`.
pub fn single_fx_source(lower: &str) -> (source: FxSource)
    ensures
        source == (if lower@ == "usdkrw"@ {
            FxSource::UsdKrw
        } else {
            FxSource::UsdtKrw
        }),
{
    if same_text(lower, "usdkrw") {
        FxSource::UsdKrw
    } else {
        FxSource::UsdtKrw
    }
}

/// The lowercase form of an optional parameter, or of its default.
pub open spec fn lowered(parameter: Option<String>, default: Seq<char>) -> Seq<char> {
    match parameter {
        Some(text) => lowercase_of(text@),
        None => lowercase_of(default),
    }
}

/// The lowercase form of an optional parameter, or of its default.
pub fn lowercase_or(parameter: &Option<String>, default: &str) -> (lower: String)
    ensures
        lower@ == lowered(*parameter, default@),
{
    match parameter {
        Some(text) => text.as_str().to_lowercase(),
        None => default.to_lowercase(),
    }
}

/// The rate source of a list request with the parameter.
pub open spec fn list_source_of(fx: Option<String>) -> FxSource {
    if lowered(fx, "usdkrw"@) == "usdtkrw"@ {
        FxSource::UsdtKrw
    } else {
        FxSource::UsdKrw
    }
}

/// Whether a list request with the parameter takes fees into account.
pub open spec fn list_fees_of(fees: Option<String>) -> bool {
    fees is Some && fees.unwrap()@ == "include"@
}

/// The rate source of a request for one coin with the parameter.
pub open spec fn single_source_of(fx: Option<String>) -> FxSource {
    if lowered(fx, "usdtkrw"@) == "usdkrw"@ {
        FxSource::UsdKrw
    } else {
        FxSource::UsdtKrw
    }
}

/// Whether a request for one coin with the parameter takes fees into
/// account.
pub open spec fn single_fees_of(fees: Option<String>) -> bool {
    lowered(fees, "include"@) != "exclude"@
}

impl ArbitrageListQuery {
    /// The rate source of the request: the reference rate unless the
    /// parameter says `usdtkrw`, whatever its case.
    pub fn fx_source(&self) -> (source: FxSource)
        ensures
            source == list_source_of(self.fx),
    {
        let lower = lowercase_or(&self.fx, "usdkrw");
        list_fx_source(lower.as_str())
    }

    /// Whether the request includes fees: only where the parameter says
    /// `include`, in exactly this spelling.
    pub fn include_fees(&self) -> (with_fees: bool)
        ensures
            with_fees == list_fees_of(self.fees),
    {
        match &self.fees {
            Some(text) => same_text(text.as_str(), "include"),
            None => false,
        }
    }
}

impl ArbitrageQuery {
    /// The rate source of the request: the market unless the parameter says
    /// `usdkrw`, whatever its case.
    pub fn fx_source(&self) -> (source: FxSource)
        ensures
            source == single_source_of(self.fx),
    {
        let lower = lowercase_or(&self.fx, "usdtkrw");
        single_fx_source(lower.as_str())
    }

    /// Whether the request includes fees: always, unless the parameter says
    /// `exclude`, whatever its case.
    pub fn include_fees(&self) -> (with_fees: bool)
        ensures
            with_fees == single_fees_of(self.fees),
    {
        let lower = lowercase_or(&self.fees, "include");
        !same_text(lower.as_str(), "exclude")
    }
}

/// Answers a request for the list of arbitrages between two venues. The
/// venue names are normalized; the rate source defaults to the reference
/// rate and the fees are left out unless asked for. A failure of the service
/// is answered with the status 500.
pub fn get_arbitrage_list(
    query: &ArbitrageListQuery,
    arbitrage_service: &ArbitrageService,
    store: &mut Store,
    upstream: &FxUpstream,
    now: i64,
) -> (r: Result<Vec<DirectionalArbitrage>, ErrorResponse>)
    requires
        old(store)@.wf(),
    ensures
        final(store)@.wf(),
        settled(old(store)@, final(store)@, *upstream, now as int),
        r is Err <==> query.limit is Some && query.limit.unwrap() < 0,
        r is Err ==> r.unwrap_err().status == 500 && r.unwrap_err().body@
            == "Error: "@ + "Database error: "@ + "negative limit"@,
        r is Ok ==> exists|symbols: Seq<String>, unsorted: Seq<DirectionalArbitrage>| #[trigger]
            list_built(
                old(store)@,
                *upstream,
                normalized_name(query.from@),
                normalized_name(query.to@),
                list_source_of(query.fx),
                list_fees_of(query.fees),
                query.limit,
                now as int,
                symbols,
                unsorted,
                r.unwrap()@,
            ),
{
    let from_exchange = normalize_exchange_name(query.from.as_str());
    let to_exchange = normalize_exchange_name(query.to.as_str());
    let fx_source = query.fx_source();
    let include_fees = query.include_fees();
    let outcome = arbitrage_service.get_directional_arbitrage_list(
        store,
        upstream,
        from_exchange.as_str(),
        to_exchange.as_str(),
        fx_source,
        include_fees,
        query.limit,
        now,
    );
    let ghost seen = outcome;
    let answer = match outcome {
        Ok(list) => Ok(list),
        Err(e) => Err(internal_error(&e)),
    };
    proof {
        if seen is Ok {
            let (symbols, unsorted) = choose|
                symbols: Seq<String>,
                unsorted: Seq<DirectionalArbitrage>,
            | #[trigger]
                list_built(
                    old(store)@,
                    *upstream,
                    from_exchange@,
                    to_exchange@,
                    fx_source,
                    include_fees,
                    query.limit,
                    now as int,
                    symbols,
                    unsorted,
                    seen.unwrap()@,
                );
            assert(answer.unwrap()@ == seen.unwrap()@);
            assert(list_built(
                old(store)@,
                *upstream,
                normalized_name(query.from@),
                normalized_name(query.to@),
                list_source_of(query.fx),
                list_fees_of(query.fees),
                query.limit,
                now as int,
                symbols,
                unsorted,
                answer.unwrap()@,
            ));
        }
    }
    answer
}

/// The parameters of a request for the history of the premium.
#[derive(Debug, Clone)]
pub struct KimchiHistoryQuery {
    pub symbol: String,
    pub from: String,
    pub to: String,
    /// How far back the history reaches, in minutes.
    pub minutes: i64,
}

/// Answers a request for the history of the premium of a coin between two
/// venues: the recorded points of the last `minutes`, the earlier first. The
/// venue names are normalized.
pub fn get_kimchi_history(
    query: &KimchiHistoryQuery,
    arbitrage_service: &ArbitrageService,
    store: &Store,
    now: i64,
) -> (r: Vec<KimchiHistoryPoint>)
    ensures
        exists|picked: Seq<int>| #[trigger]
            store@.kimchi_read(
                r@,
                picked,
                query.symbol@,
                normalized_name(query.from@),
                normalized_name(query.to@),
                now - query.minutes * 60000,
            ),
{
    let from_exchange = normalize_exchange_name(query.from.as_str());
    let to_exchange = normalize_exchange_name(query.to.as_str());
    arbitrage_service.get_kimchi_history(
        store,
        query.symbol.as_str(),
        from_exchange.as_str(),
        to_exchange.as_str(),
        query.minutes,
        now,
    )
}

/// The answer to a request for the current rate.
#[derive(Debug, Clone)]
pub struct ExchangeRateAnswer {
    /// Always `USD/KRW`.
    pub currency_pair: String,
    pub rate: Decimal,
    /// The time of the answer, in milliseconds since the Unix epoch.
    pub timestamp: i64,
    /// Why the rate of last resort is given, where it is.
    pub note: Option<String>,
}

/// Answers a request for the current USD/KRW rate: the latest persisted
/// rate; where none is persisted, the rate that is acquired and persisted;
/// and where that fails, the rate of last resort with the failure as a note.
pub fn get_exchange_rate(
    exchange_rate_service: &ExchangeRateService,
    store: &mut Store,
    upstream: &FxUpstream,
    now: i64,
) -> (answer: ExchangeRateAnswer)
    requires
        old(store)@.wf(),
    ensures
        final(store)@.wf(),
        answer.currency_pair@ == "USD/KRW"@,
        answer.rate@ == usd_rate(old(store)@, *upstream),
        answer.timestamp == now,
        match old(store)@.latest_rate(old(store)@.rates.len() as int, "USD"@) {
            Some(_) => answer.note is None && final(store)@ == old(store)@,
            None => rate_persisted(old(store)@, final(store)@, *upstream, now as int) && (
            answer.note is None <==> acquired(*upstream) is Row && old(store)@.rates.len()
                < i32::MAX),
        },
{
    match exchange_rate_service.get_latest_usd_krw_rate(store, upstream, now) {
        Ok(rate) => ExchangeRateAnswer {
            currency_pair: "USD/KRW".to_owned(),
            rate,
            timestamp: now,
            note: None,
        },
        Err(e) => ExchangeRateAnswer {
            currency_pair: "USD/KRW".to_owned(),
            rate: ExchangeRateService::get_fallback_usd_krw_rate(),
            timestamp: now,
            note: Some(e.to_string()),
        },
    }
}

/// The symbol that a request for one coin names: the path in upper case.
pub fn requested_symbol(path: &str) -> (symbol: String)
    ensures
        symbol@ == uppercase_of(path@),
{
    path.to_uppercase()
}

/// `r` is what the route answers a request with the answer with: the
/// arbitrage, or the status 500 with the message of the failure.
pub open spec fn answered(
    answer: Answer,
    from_exchange: Seq<char>,
    to_exchange: Seq<char>,
    r: Result<DirectionalArbitrage, ErrorResponse>,
) -> bool {
    match answer {
        Answer::Found(row) => r is Ok && r.unwrap()@ == row,
        Answer::MissingFrom => r is Err && r.unwrap_err().status == 500 && r.unwrap_err().body@
            == "Error: "@ + "Not found: "@ + ("Price not found for "@ + from_exchange),
        Answer::MissingTo => r is Err && r.unwrap_err().status == 500 && r.unwrap_err().body@
            == "Error: "@ + "Not found: "@ + ("Price not found for "@ + to_exchange),
        Answer::Failed => r is Err && r.unwrap_err().status == 500,
    }
}

/// Answers a request for the arbitrage of one coin between two venues. The
/// symbol is taken in upper case and the venue names are normalized; the rate
/// source defaults to the market and the fees are included unless excluded.
/// A failure of the service is answered with the status 500.
pub fn get_directional_arbitrage(
    path: &str,
    query: &ArbitrageQuery,
    arbitrage_service: &ArbitrageService,
    store: &mut Store,
    upstream: &FxUpstream,
    now: i64,
) -> (r: Result<DirectionalArbitrage, ErrorResponse>)
    requires
        old(store)@.wf(),
    ensures
        final(store)@.wf(),
        request_settled(
            old(store)@,
            final(store)@,
            *upstream,
            uppercase_of(path@),
            normalized_name(query.from@),
            normalized_name(query.to@),
            single_source_of(query.fx),
            now as int,
        ),
        answered(
            answer_of(
                old(store)@,
                *upstream,
                uppercase_of(path@),
                normalized_name(query.from@),
                normalized_name(query.to@),
                single_source_of(query.fx),
                single_fees_of(query.fees),
                now as int,
            ),
            normalized_name(query.from@),
            normalized_name(query.to@),
            r,
        ),
{
    let symbol = requested_symbol(path);
    let from_exchange = normalize_exchange_name(query.from.as_str());
    let to_exchange = normalize_exchange_name(query.to.as_str());
    let fx_source = query.fx_source();
    let include_fees = query.include_fees();
    match arbitrage_service.get_directional_arbitrage_with_options(
        store,
        upstream,
        symbol.as_str(),
        from_exchange.as_str(),
        to_exchange.as_str(),
        fx_source,
        include_fees,
        now,
    ) {
        Ok(arbitrage) => Ok(arbitrage),
        Err(e) => Err(internal_error(&e)),
    }
}

} // verus!
