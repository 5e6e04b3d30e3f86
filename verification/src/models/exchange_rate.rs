//! The USD/KRW reference rate and the answer of the Korea Eximbank.

use vstd::prelude::*;
use crate::decimal::Dec;
use crate::decimal::Decimal;
use crate::decimal::parsed_decimal;
use crate::models::exchange::opt_dec;
use crate::utils::error::AppError;

verus! {

/// A persisted rate. Rates are only ever appended; the latest of a currency
/// is the one with the greatest `created_at`.
#[derive(Debug, Clone)]
pub struct ExchangeRate {
    pub id: i32,
    pub currency_code: String,
    pub rate: Decimal,
    pub ttb_rate: Option<Decimal>,
    pub tts_rate: Option<Decimal>,
    /// Milliseconds since the Unix epoch.
    pub created_at: Option<i64>,
}

/// A rate on its way into the store.
#[derive(Debug, Clone)]
pub struct NewExchangeRate {
    pub currency_code: String,
    pub rate: Decimal,
    pub ttb_rate: Option<Decimal>,
    pub tts_rate: Option<Decimal>,
}

/// What a new rate holds, as mathematics.
pub struct RateRow {
    pub currency_code: Seq<char>,
    pub rate: Dec,
    pub ttb_rate: Option<Dec>,
    pub tts_rate: Option<Dec>,
}

impl View for NewExchangeRate {
    type V = RateRow;

    open spec fn view(&self) -> RateRow {
        RateRow {
            currency_code: self.currency_code@,
            rate: self.rate@,
            ttb_rate: opt_dec(self.ttb_rate),
            tts_rate: opt_dec(self.tts_rate),
        }
    }
}

impl View for ExchangeRate {
    type V = RateRow;

    open spec fn view(&self) -> RateRow {
        RateRow {
            currency_code: self.currency_code@,
            rate: self.rate@,
            ttb_rate: opt_dec(self.ttb_rate),
            tts_rate: opt_dec(self.tts_rate),
        }
    }
}

impl ExchangeRate {
    /// A copy of the rate.
    pub fn copy(&self) -> (rate: ExchangeRate)
        ensures
            rate@ == self@,
            rate.id == self.id,
            rate.created_at == self.created_at,
    {
        ExchangeRate {
            id: self.id,
            currency_code: self.currency_code.clone(),
            rate: self.rate.clone(),
            ttb_rate: match &self.ttb_rate {
                Some(v) => Some(v.clone()),
                None => None,
            },
            tts_rate: match &self.tts_rate {
                Some(v) => Some(v.clone()),
                None => None,
            },
            created_at: self.created_at,
        }
    }
}

/// One entry of the Korea Eximbank's rate list, every number as the text that
/// the bank sends, thousands separated by commas.
#[derive(Debug, Clone)]
pub struct KoreaEximbankResponse {
    pub result: i32,
    pub cur_unit: String,
    pub ttb: String,
    pub tts: String,
    pub deal_bas_r: String,
    pub bkpr: String,
    pub yy_efee_r: String,
    pub ten_dd_efee_r: String,
    pub kftc_bkpr: String,
    pub kftc_deal_bas_r: String,
    pub cur_nm: String,
}

/// The text without its commas.
pub open spec fn without_commas(text: Seq<char>) -> Seq<char> {
    text.filter(|c: char| c != ',')
}

/// The decimal that a text of the bank stands for: the commas are dropped,
/// the rest is read as a decimal.
pub open spec fn bank_number(text: Seq<char>) -> Option<Dec> {
    if Decimal::readable(without_commas(text)) {
        parsed_decimal(without_commas(text))
    } else {
        None
    }
}

/// The optional decimal that a text of the bank stands for: none for the
/// empty text. The outer `None` says that the text is no number.
pub open spec fn bank_optional_number(text: Seq<char>) -> Option<Option<Dec>> {
    if text.len() == 0 {
        Some(None)
    } else {
        match bank_number(text) {
            Some(d) => Some(Some(d)),
            None => None,
        }
    }
}

/// Drops the commas of a text.
pub fn strip_commas(text: &str) -> (cleaned: String)
    ensures
        cleaned@ == without_commas(text@),
{
    let n = text.unicode_len();
    let mut cleaned = String::new();
    let mut i: usize = 0;
    assert(text@.subrange(0, 0) =~= Seq::<char>::empty());
    while i < n
        invariant
            i <= n,
            n == text@.len(),
            cleaned@ == without_commas(text@.subrange(0, i as int)),
        decreases n - i,
    {
        let c = text.get_char(i);
        proof {
            let before = text@.subrange(0, i as int);
            let upto = text@.subrange(0, i + 1);
            assert(upto =~= before.push(c));
            assert(upto.drop_last() =~= before);
            reveal(Seq::filter);
        }
        if c != ',' {
            cleaned.append(text.substring_char(i, i + 1));
            assert(text@.subrange(i as int, i + 1) =~= seq![c]);
            assert(cleaned@ =~= without_commas(text@.subrange(0, i as int)).push(c));
        }
        i += 1;
    }
    assert(text@.subrange(0, n as int) =~= text@);
    cleaned
}

impl KoreaEximbankResponse {
    /// The rate row that the entry stands for, where its numbers can be read.
    pub open spec fn rate_row(self) -> Option<RateRow> {
        match (
            bank_number(self.deal_bas_r@),
            bank_optional_number(self.ttb@),
            bank_optional_number(self.tts@),
        ) {
            (Some(rate), Some(ttb), Some(tts)) => Some(
                RateRow { currency_code: self.cur_unit@, rate, ttb_rate: ttb, tts_rate: tts },
            ),
            _ => None,
        }
    }

    /// The text whose reading fails first, in the order `deal_bas_r`, `ttb`,
    /// `tts`.
    pub open spec fn first_unreadable(self) -> Seq<char> {
        if bank_number(self.deal_bas_r@) is None {
            without_commas(self.deal_bas_r@)
        } else if bank_optional_number(self.ttb@) is None {
            without_commas(self.ttb@)
        } else {
            without_commas(self.tts@)
        }
    }

    /// Turns the entry into a rate: `deal_bas_r` is the rate, `ttb` and `tts`
    /// the optional buying and selling rates, each read without its commas.
    /// Fails with the first text that is no number.
    pub fn to_exchange_rate(&self) -> (r: Result<NewExchangeRate, AppError>)
        ensures
            r is Ok <==> self.rate_row() is Some,
            r is Ok ==> r.unwrap()@ == self.rate_row().unwrap(),
            r is Err ==> r.unwrap_err() is DecimalParsing && r.unwrap_err().detail()
                == self.first_unreadable(),
    {
        let rate = match Decimal::parse(strip_commas(self.deal_bas_r.as_str()).as_str()) {
            Ok(d) => d,
            Err(e) => {
                return Err(e);
            },
        };
        let ttb_rate = if self.ttb.as_str().unicode_len() != 0 {
            match Decimal::parse(strip_commas(self.ttb.as_str()).as_str()) {
                Ok(d) => Some(d),
                Err(e) => {
                    return Err(e);
                },
            }
        } else {
            None
        };
        let tts_rate = if self.tts.as_str().unicode_len() != 0 {
            match Decimal::parse(strip_commas(self.tts.as_str()).as_str()) {
                Ok(d) => Some(d),
                Err(e) => {
                    return Err(e);
                },
            }
        } else {
            None
        };
        Ok(NewExchangeRate { currency_code: self.cur_unit.clone(), rate, ttb_rate, tts_rate })
    }
}

} // verus!
