//! The USD/KRW reference rate: a primary source that is scanned for the
//! rate, a bank's rate list to fall back on, and a constant of last resort.

use vstd::prelude::*;
use crate::decimal::Dec;
use crate::decimal::Decimal;
use crate::decimal::lemma_at_least_transitive;
use crate::decimal::lemma_less_transitive;
use crate::models::exchange::opt_dec;
use crate::models::exchange_rate::KoreaEximbankResponse;
use crate::models::exchange_rate::NewExchangeRate;
use crate::models::exchange_rate::RateRow;
use crate::models::exchange_rate::strip_commas;
use crate::models::exchange_rate::without_commas;
use crate::services::exchange_service::read_optional;
use crate::services::exchange_service::read_or_none;
use crate::store::Store;
use crate::store::Tables;
use crate::text::chars_of;
use crate::text::joined;
use crate::text::same_text;
use crate::text::text_of;
use crate::utils::error::AppError;

verus! {

/// A character that a number of the primary source is written with: a
/// digit, a point or a comma.
pub open spec fn is_token_char(c: char) -> bool {
    ('0' <= c && c <= '9') || c == '.' || c == ','
}

/// The state of a scan after the first `n` characters: the tokens that have
/// ended, and the token that has begun and not ended.
pub open spec fn scan_state(text: Seq<char>, n: int) -> (Seq<Seq<char>>, Seq<char>)
    decreases n,
{
    if n <= 0 {
        (Seq::empty(), Seq::empty())
    } else {
        let (done, current) = scan_state(text, n - 1);
        if is_token_char(text[n - 1]) {
            (done, current.push(text[n - 1]))
        } else if current.len() > 0 {
            (done.push(current), Seq::empty())
        } else {
            (done, current)
        }
    }
}

/// The tokens of a text: its longest runs of digits, points and commas, in
/// the order in which they stand.
pub open spec fn tokens_of(text: Seq<char>) -> Seq<Seq<char>> {
    let (done, current) = scan_state(text, text.len() as int);
    if current.len() > 0 {
        done.push(current)
    } else {
        done
    }
}

/// The decimal lies between 900 and 2000, both included: the range in which
/// a USD/KRW rate is looked for.
pub open spec fn in_rate_range(d: Dec) -> bool {
    !d.less(Dec::whole(900)) && !Dec::whole(2000).less(d)
}

/// The rate that a token stands for: its number, read without the commas,
/// where it is one and lies in the range.
pub open spec fn candidate_rate(token: Seq<char>) -> Option<Dec> {
    match read_or_none(without_commas(token)) {
        Some(d) => if in_rate_range(d) {
            Some(d)
        } else {
            None
        },
        None => None,
    }
}

/// The greater of a rate found so far and a rate found now, the earlier one
/// where they are equal.
pub open spec fn greater_rate(best: Option<Dec>, found: Option<Dec>) -> Option<Dec> {
    match (best, found) {
        (Some(b), Some(v)) => if b.less(v) {
            Some(v)
        } else {
            Some(b)
        },
        (None, Some(v)) => Some(v),
        _ => best,
    }
}

/// The greatest rate among the first `n` tokens.
pub open spec fn best_rate(tokens: Seq<Seq<char>>, n: int) -> Option<Dec>
    decreases n,
{
    if n <= 0 {
        None
    } else {
        greater_rate(best_rate(tokens, n - 1), candidate_rate(tokens[n - 1]))
    }
}

/// The rate that the primary source's text gives: the greatest number in the
/// range among its tokens.
pub open spec fn scanned_rate(text: Seq<char>) -> Option<Dec> {
    best_rate(tokens_of(text), tokens_of(text).len() as int)
}

/// The greatest rate is the rate of one of the tokens and lies in the range,
/// and no token has a greater rate; there is none only where no token has a
/// rate.
pub proof fn lemma_best_rate_is_greatest(tokens: Seq<Seq<char>>, n: int, j: int)
    requires
        0 <= j < n <= tokens.len(),
    ensures
        best_rate(tokens, n) is Some ==> in_rate_range(best_rate(tokens, n).unwrap()) && exists|
            i: int,
        |
            0 <= i < n && #[trigger] candidate_rate(tokens[i]) == best_rate(tokens, n),
        candidate_rate(tokens[j]) is Some ==> best_rate(tokens, n) is Some
            && !best_rate(tokens, n).unwrap().less(candidate_rate(tokens[j]).unwrap()),
    decreases n,
{
    if n > 1 {
        let j0 = if j < n - 1 {
            j
        } else {
            0
        };
        lemma_best_rate_is_greatest(tokens, n - 1, j0);
        let earlier = best_rate(tokens, n - 1);
        let found = candidate_rate(tokens[n - 1]);
        if best_rate(tokens, n) is Some {
            if best_rate(tokens, n) == found {
                assert(candidate_rate(tokens[n - 1]) == best_rate(tokens, n));
            } else {
                let i = choose|i: int|
                    0 <= i < n - 1 && #[trigger] candidate_rate(tokens[i]) == earlier;
                assert(candidate_rate(tokens[i]) == best_rate(tokens, n));
            }
        }
        if j < n - 1 && candidate_rate(tokens[j]) is Some && found is Some && earlier.unwrap().less(
            found.unwrap(),
        ) {
            lemma_at_least_transitive(
                found.unwrap(),
                earlier.unwrap(),
                candidate_rate(tokens[j]).unwrap(),
            );
            if found.unwrap().less(earlier.unwrap()) {
                lemma_less_transitive(found.unwrap(), earlier.unwrap(), found.unwrap());
            }
        }
    } else {
        assert(best_rate(tokens, 0) is None);
        if best_rate(tokens, n) is Some {
            assert(candidate_rate(tokens[0]) == best_rate(tokens, n));
        }
    }
}

/// Whether a character is one that a number is written with.
pub fn token_char(c: char) -> (r: bool)
    ensures
        r == is_token_char(c),
{
    ('0' <= c && c <= '9') || c == '.' || c == ','
}

/// The rate that a token stands for.
pub fn rate_of_token(token: &Vec<char>) -> (r: Option<Decimal>)
    ensures
        opt_dec(r) == candidate_rate(token@),
{
    let text = text_of(token);
    let cleaned = strip_commas(text.as_str());
    match read_optional(cleaned.as_str()) {
        Some(d) => {
            let low = Decimal::from_u32(900);
            let high = Decimal::from_u32(2000);
            if !d.less_than(&low) && !high.less_than(&d) {
                Some(d)
            } else {
                None
            }
        },
        None => None,
    }
}

/// The greater of the rate found so far and the rate found now.
pub fn keep_greater(best: Option<Decimal>, found: Option<Decimal>) -> (r: Option<Decimal>)
    ensures
        opt_dec(r) == greater_rate(opt_dec(best), opt_dec(found)),
{
    match found {
        Some(v) => match best {
            Some(b) => if b.less_than(&v) {
                Some(v)
            } else {
                Some(b)
            },
            None => Some(v),
        },
        None => best,
    }
}

/// Scans the text of the primary source for the USD/KRW rate: of the numbers
/// written in it with digits, points and commas, the greatest that lies
/// between 900 and 2000.
pub fn scan_usd_krw(text: &str) -> (r: Option<Decimal>)
    ensures
        opt_dec(r) == scanned_rate(text@),
{
    let chars = chars_of(text);
    let n = chars.len();
    let mut best: Option<Decimal> = None;
    let mut current: Vec<char> = Vec::new();
    let ghost mut done: Seq<Seq<char>> = Seq::empty();
    let mut i: usize = 0;
    while i < n
        invariant
            i <= n,
            n == chars@.len(),
            chars@ == text@,
            scan_state(text@, i as int) == (done, current@),
            opt_dec(best) == best_rate(done, done.len() as int),
        decreases n - i,
    {
        if token_char(chars[i]) {
            current.push(chars[i]);
        } else if current.len() > 0 {
            let found = rate_of_token(&current);
            best = keep_greater(best, found);
            proof {
                let longer = done.push(current@);
                assert(longer.drop_last() =~= done);
                lemma_best_rate_prefix(done, longer, done.len() as int);
                done = longer;
            }
            current = Vec::new();
        }
        i += 1;
    }
    if current.len() > 0 {
        let found = rate_of_token(&current);
        best = keep_greater(best, found);
        proof {
            let longer = done.push(current@);
            lemma_best_rate_prefix(done, longer, done.len() as int);
        }
    }
    best
}

/// The greatest rate among the first `n` tokens depends on those tokens
/// alone.
pub proof fn lemma_best_rate_prefix(a: Seq<Seq<char>>, b: Seq<Seq<char>>, n: int)
    requires
        0 <= n <= a.len(),
        n <= b.len(),
        forall|i: int| 0 <= i < n ==> a[i] == b[i],
    ensures
        best_rate(a, n) == best_rate(b, n),
    decreases n,
{
    if n > 0 {
        lemma_best_rate_prefix(a, b, n - 1);
    }
}

/// What the two sources of the rate answered. An `Err` stands for a source
/// whose answer did not arrive or could not be decoded, with the error to
/// report for it.
#[derive(Debug)]
pub struct FxUpstream {
    /// The text of the primary source's answer.
    pub naver: Result<String, AppError>,
    /// The rate list of the Korea Eximbank.
    pub eximbank: Result<Vec<KoreaEximbankResponse>, AppError>,
}

/// The first entry of the US dollar among the first `n` of the bank's list.
pub open spec fn first_usd_in(rates: Seq<KoreaEximbankResponse>, n: int) -> Option<int>
    decreases n,
{
    if n <= 0 {
        None
    } else {
        match first_usd_in(rates, n - 1) {
            Some(i) => Some(i),
            None => if rates[n - 1].cur_unit@ == "USD"@ {
                Some(n - 1)
            } else {
                None
            },
        }
    }
}

/// The first entry of the US dollar in the bank's list.
pub open spec fn first_usd(rates: Seq<KoreaEximbankResponse>) -> Option<int> {
    first_usd_in(rates, rates.len() as int)
}

/// The first entry of the US dollar is an entry of the US dollar, and stays
/// the first however long the list is.
pub proof fn lemma_first_usd(rates: Seq<KoreaEximbankResponse>, n: int, m: int)
    requires
        0 <= n <= m <= rates.len(),
    ensures
        first_usd_in(rates, n) is Some ==> first_usd_in(rates, m) == first_usd_in(rates, n) && 0
            <= first_usd_in(rates, n).unwrap() < n && rates[first_usd_in(
            rates,
            n,
        ).unwrap()].cur_unit@ == "USD"@,
    decreases m,
{
    if n > 0 {
        lemma_first_usd(rates, n - 1, n - 1);
    }
    if n < m {
        lemma_first_usd(rates, n, m - 1);
    }
}

/// The rate that the primary source gives, if its answer arrived and holds
/// one.
pub open spec fn primary_rate(upstream: FxUpstream) -> Option<Dec> {
    match upstream.naver {
        Ok(text) => scanned_rate(text@),
        Err(_) => None,
    }
}

/// What acquiring the rate ends in, before anything is persisted.
pub enum Acquired {
    /// The row to persist.
    Row(RateRow),
    /// The bank's answer is missing; the error is the one given for it.
    BankMissing(AppError),
    /// The bank's list has no entry of the US dollar.
    NoDollar,
    /// The entry of the US dollar holds a text that is no number.
    Unreadable,
}

/// The rate that the chain acquires: the primary source's rate where it
/// gives one, else the bank's entry of the US dollar.
pub open spec fn acquired(upstream: FxUpstream) -> Acquired {
    match primary_rate(upstream) {
        Some(rate) => Acquired::Row(
            RateRow { currency_code: "USD"@, rate, ttb_rate: None, tts_rate: None },
        ),
        None => match upstream.eximbank {
            Err(e) => Acquired::BankMissing(e),
            Ok(rates) => match first_usd(rates@) {
                None => Acquired::NoDollar,
                Some(i) => match rates@[i].rate_row() {
                    Some(row) => Acquired::Row(row),
                    None => Acquired::Unreadable,
                },
            },
        },
    }
}

/// `after` and `r` are what acquiring and persisting the rate leaves of
/// `before`: the acquired row is appended and its rate returned; where
/// nothing is acquired, or the store refuses the row, nothing changes and the
/// error says why.
pub open spec fn rate_fetched(
    before: Tables,
    after: Tables,
    upstream: FxUpstream,
    now: int,
    r: Result<Decimal, AppError>,
) -> bool {
    match acquired(upstream) {
        Acquired::Row(row) => if before.rates.len() >= i32::MAX {
            r is Err && r.unwrap_err() is DatabaseError && after == before
        } else {
            r is Ok && r.unwrap()@ == row.rate && before.rate_added(after, row, now)
        },
        Acquired::BankMissing(e) => r == Err::<Decimal, AppError>(e) && after == before,
        Acquired::NoDollar => r is Err && r.unwrap_err() is ExternalApiError
            && r.unwrap_err().detail() == "USD rate not found"@ && after == before,
        Acquired::Unreadable => r is Err && r.unwrap_err() is ExternalApiError
            && r.unwrap_err().detail() == "Failed to convert exchange rate: "@ + (
        "Decimal parsing error: "@ + upstream.eximbank.unwrap()@[first_usd(
            upstream.eximbank.unwrap()@,
        ).unwrap()].first_unreadable()) && after == before,
    }
}

/// What acquiring the rate leaves of the store: the acquired row is
/// appended, unless nothing is acquired or the store is full.
pub open spec fn rate_persisted(before: Tables, after: Tables, upstream: FxUpstream, now: int)
    -> bool {
    match acquired(upstream) {
        Acquired::Row(row) => if before.rates.len() >= i32::MAX {
            after == before
        } else {
            before.rate_added(after, row, now)
        },
        _ => after == before,
    }
}

/// The rate of last resort.
pub open spec fn fallback_rate() -> Dec {
    Dec { unscaled: 13000, scale: 1 }
}

/// The USD/KRW rate that a computation uses: the latest persisted rate of
/// the US dollar; where none is persisted, the rate that is acquired and
/// persisted; where that fails, the rate of last resort.
pub open spec fn usd_rate(t: Tables, upstream: FxUpstream) -> Dec {
    match t.latest_rate(t.rates.len() as int, "USD"@) {
        Some(i) => t.rates[i].rate@,
        None => match acquired(upstream) {
            Acquired::Row(row) => if t.rates.len() >= i32::MAX {
                fallback_rate()
            } else {
                row.rate
            },
            _ => fallback_rate(),
        },
    }
}

/// The row that is acquired is a row of the US dollar.
pub proof fn lemma_acquired_is_dollar(upstream: FxUpstream)
    ensures
        acquired(upstream) is Row ==> acquired(upstream)->Row_0.currency_code == "USD"@,
{
    if primary_rate(upstream) is None && upstream.eximbank is Ok {
        let rates = upstream.eximbank.unwrap()@;
        lemma_first_usd(rates, rates.len() as int, rates.len() as int);
    }
}

/// The latest rate among the first `n` depends on those rates alone.
pub proof fn lemma_latest_rate_prefix(a: Tables, b: Tables, n: int, currency: Seq<char>)
    requires
        0 <= n <= a.rates.len(),
        n <= b.rates.len(),
        forall|i: int| 0 <= i < n ==> a.rates[i] == b.rates[i],
    ensures
        a.latest_rate(n, currency) == b.latest_rate(n, currency),
        a.latest_rate(n, currency) is Some ==> 0 <= a.latest_rate(n, currency).unwrap() < n,
    decreases n,
{
    if n > 0 {
        lemma_latest_rate_prefix(a, b, n - 1, currency);
    }
}

/// Once the acquired rate is persisted in a store that had no rate of the
/// US dollar, it is the latest rate of the US dollar, so the rate that a
/// computation uses is the same before and after.
pub proof fn lemma_persisted_rate_is_latest(
    before: Tables,
    after: Tables,
    upstream: FxUpstream,
    now: int,
)
    requires
        before.latest_rate(before.rates.len() as int, "USD"@) is None,
        acquired(upstream) is Row,
        before.rates.len() < i32::MAX,
        before.rate_added(after, acquired(upstream)->Row_0, now),
    ensures
        after.latest_rate(after.rates.len() as int, "USD"@) == Some(before.rates.len() as int),
        usd_rate(after, upstream) == usd_rate(before, upstream),
{
    lemma_acquired_is_dollar(upstream);
    let n = before.rates.len() as int;
    assert forall|i: int| 0 <= i < n implies after.rates[i] == before.rates[i] by {
        assert(after.rates.subrange(0, n)[i] == after.rates[i]);
    }
    lemma_latest_rate_prefix(after, before, n, "USD"@);
    assert(after.rates[n]@ == acquired(upstream)->Row_0);
}

/// The USD/KRW rate service. It holds the key of the bank's interface.
#[derive(Debug, Clone)]
pub struct ExchangeRateService {
    auth_key: String,
}

impl ExchangeRateService {
    /// A service that asks the bank with the key.
    pub fn new(auth_key: String) -> (service: Self)
        ensures
            service.key() == auth_key@,
    {
        ExchangeRateService { auth_key }
    }

    /// The key of the bank's interface.
    pub closed spec fn key(&self) -> Seq<char> {
        self.auth_key@
    }

    /// The address of the bank's rate list for a day, the day written as
    /// `YYYYMMDD`.
    pub fn eximbank_url(&self, searchdate: &str) -> (url: String)
        ensures
            url@
                == "https://oapi.koreaexim.go.kr/site/program/financial/exchangeJSON?authkey="@
                + self.key() + "&searchdate="@ + searchdate@ + "&data=AP01"@,
    {
        let head = joined(
            "https://oapi.koreaexim.go.kr/site/program/financial/exchangeJSON?authkey=",
            self.auth_key.as_str(),
        );
        let day = joined("&searchdate=", searchdate);
        let tail = joined(day.as_str(), "&data=AP01");
        let url = joined(head.as_str(), tail.as_str());
        assert(url@
            =~= "https://oapi.koreaexim.go.kr/site/program/financial/exchangeJSON?authkey="@
            + self.key() + "&searchdate="@ + searchdate@ + "&data=AP01"@);
        url
    }

    /// The rate of last resort, 1300.0. It is a constant of the library and
    /// is never persisted.
    pub fn get_fallback_usd_krw_rate() -> (rate: Decimal)
        ensures
            rate@ == fallback_rate(),
    {
        Decimal::from_scaled(13000, 1)
    }

    /// The rate that the primary source gives. Fails with the source's error
    /// where its answer is missing, and where its text holds no number in the
    /// range.
    pub fn fetch_usd_krw_from_naver(&self, upstream: &FxUpstream) -> (r: Result<Decimal, AppError>)
        ensures
            r is Ok <==> primary_rate(*upstream) is Some,
            r is Ok ==> r.unwrap()@ == primary_rate(*upstream).unwrap(),
            r is Err ==> match upstream.naver {
                Err(e) => r.unwrap_err() == e,
                Ok(_) => r.unwrap_err() is ExternalApiError && r.unwrap_err().detail()
                    == "Failed to parse USD/KRW from Naver response"@,
            },
    {
        match &upstream.naver {
            Ok(text) => match scan_usd_krw(text.as_str()) {
                Some(rate) => Ok(rate),
                None => Err(
                    AppError::ExternalApiError(
                        "Failed to parse USD/KRW from Naver response".to_owned(),
                    ),
                ),
            },
            Err(e) => Err(e.copy()),
        }
    }

    /// Appends the rate to the store.
    pub fn save_exchange_rate(&self, store: &mut Store, new_rate: &NewExchangeRate, now: i64) -> (r:
        Result<(), AppError>)
        requires
            old(store)@.wf(),
        ensures
            final(store)@.wf(),
            r is Err <==> old(store)@.rates.len() >= i32::MAX,
            r is Err ==> final(store)@ == old(store)@ && r.unwrap_err() is DatabaseError,
            r is Ok ==> old(store)@.rate_added(final(store)@, new_rate@, now as int),
    {
        let copy = NewExchangeRate {
            currency_code: new_rate.currency_code.clone(),
            rate: new_rate.rate.clone(),
            ttb_rate: crate::models::arbitrage::copy_optional(&new_rate.ttb_rate),
            tts_rate: crate::models::arbitrage::copy_optional(&new_rate.tts_rate),
        };
        store.insert_rate(copy, now)
    }

    /// Acquires the USD/KRW rate and persists it. The primary source is
    /// asked first; where it gives no rate, the bank's list is searched for
    /// the entry of the US dollar, whose `deal_bas_r` is the rate.
    pub fn fetch_and_save_usd_krw_rate(&self, store: &mut Store, upstream: &FxUpstream, now: i64)
        -> (r: Result<Decimal, AppError>)
        requires
            old(store)@.wf(),
        ensures
            final(store)@.wf(),
            rate_fetched(old(store)@, final(store)@, *upstream, now as int, r),
    {
        match self.fetch_usd_krw_from_naver(upstream) {
            Ok(rate) => {
                let exchange_rate = NewExchangeRate {
                    currency_code: "USD".to_owned(),
                    rate: rate.clone(),
                    ttb_rate: None,
                    tts_rate: None,
                };
                match self.save_exchange_rate(store, &exchange_rate, now) {
                    Ok(_) => {
                        return Ok(rate);
                    },
                    Err(e) => {
                        return Err(e);
                    },
                }
            },
            Err(_) => {},
        }
        let rates = match &upstream.eximbank {
            Ok(rates) => rates,
            Err(e) => {
                return Err(e.copy());
            },
        };
        let mut i: usize = 0;
        while i < rates.len()
            invariant
                store@ == old(store)@,
                store@.wf(),
                primary_rate(*upstream) is None,
                upstream.eximbank == Ok::<Vec<KoreaEximbankResponse>, AppError>(*rates),
                i <= rates@.len(),
                first_usd_in(rates@, i as int) is None,
            decreases rates@.len() - i,
        {
            if same_text(rates[i].cur_unit.as_str(), "USD") {
                proof {
                    assert(first_usd_in(rates@, i + 1) == Some(i as int));
                    lemma_first_usd(rates@, i + 1, rates@.len() as int);
                }
                let exchange_rate = match rates[i].to_exchange_rate() {
                    Ok(rate) => rate,
                    Err(e) => {
                        return Err(
                            AppError::ExternalApiError(
                                joined("Failed to convert exchange rate: ", e.to_string().as_str()),
                            ),
                        );
                    },
                };
                match self.save_exchange_rate(store, &exchange_rate, now) {
                    Ok(_) => {
                        return Ok(exchange_rate.rate);
                    },
                    Err(e) => {
                        return Err(e);
                    },
                }
            }
            i += 1;
        }
        Err(AppError::ExternalApiError("USD rate not found".to_owned()))
    }

    /// The USD/KRW rate to compute with: the latest persisted rate of the US
    /// dollar; where none is persisted, the rate is acquired and persisted
    /// first.
    pub fn get_latest_usd_krw_rate(&self, store: &mut Store, upstream: &FxUpstream, now: i64) -> (r:
        Result<Decimal, AppError>)
        requires
            old(store)@.wf(),
        ensures
            final(store)@.wf(),
            match old(store)@.latest_rate(old(store)@.rates.len() as int, "USD"@) {
                Some(i) => r is Ok && r.unwrap()@ == old(store)@.rates[i].rate@ && final(store)@
                    == old(store)@,
                None => rate_fetched(old(store)@, final(store)@, *upstream, now as int, r)
                    && rate_persisted(old(store)@, final(store)@, *upstream, now as int),
            },
            r is Ok ==> r.unwrap()@ == usd_rate(old(store)@, *upstream),
            r is Err ==> usd_rate(old(store)@, *upstream) == fallback_rate(),
    {
        match store.latest_fx_rate("USD") {
            Some(rate) => Ok(rate),
            None => self.fetch_and_save_usd_krw_rate(store, upstream, now),
        }
    }
}

} // verus!
