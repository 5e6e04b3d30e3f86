//! Arbitrary-precision decimals, computed by `bigdecimal` and specified here.
//!
//! A [`Decimal`] stores the unscaled integer of a decimal number as
//! little-endian two's-complement bytes together with its scale, so that the
//! number is `unscaled * 10^(-scale)`. Its view is the pair [`Dec`].
//!
//! `bigdecimal` chooses the representation of every result (it may strip or
//! add trailing zeros). The representation is therefore given a name here, and
//! beside the name stands what the operation means: the number that the result
//! denotes.
//!
//! What is taken on trust is the behaviour of `bigdecimal` and `num-bigint`,
//! in the private functions whose names begin with `big_`. Each rebuilds its
//! operands with `BigInt::from_signed_bytes_le` and `BigDecimal::new`, makes
//! one call, and takes the result apart with `into_bigint_and_exponent` and
//! `to_signed_bytes_le`. They ask for scales within [`SCALE_LIMIT`], which
//! keeps the scale arithmetic of `bigdecimal` far from the limits of `i64`.
//! Everything else in this module is proved.

use vstd::prelude::*;
use vstd::arithmetic::power::lemma_pow_adds;
use vstd::arithmetic::power::lemma_pow_positive;
use vstd::arithmetic::power::pow;
use bigdecimal::BigDecimal;
use bigdecimal::ParseBigDecimalError;
use bigdecimal::num_bigint::BigInt;
use std::str::FromStr;
use crate::utils::error::AppError;

verus! {

/// The mathematical content of a decimal: `unscaled * 10^(-scale)`.
pub struct Dec {
    pub unscaled: int,
    pub scale: int,
}

impl Dec {
    /// The unscaled integer of `self` once it is rewritten with scale `s`.
    pub open spec fn at_scale(self, s: int) -> int
        recommends
            s >= self.scale,
    {
        self.unscaled * pow(10, (s - self.scale) as nat)
    }

    /// The larger of the two scales.
    pub open spec fn common_scale(self, other: Dec) -> int {
        if self.scale >= other.scale {
            self.scale
        } else {
            other.scale
        }
    }

    /// `self` and `other` denote the same number.
    pub open spec fn same_value(self, other: Dec) -> bool {
        self.at_scale(self.common_scale(other)) == other.at_scale(self.common_scale(other))
    }

    /// `self` denotes a smaller number than `other`.
    pub open spec fn less(self, other: Dec) -> bool {
        self.at_scale(self.common_scale(other)) < other.at_scale(self.common_scale(other))
    }

    /// `self` denotes a number that is not smaller than `other`.
    pub open spec fn at_least(self, other: Dec) -> bool {
        !self.less(other)
    }

    /// The exact product.
    pub open spec fn times(self, other: Dec) -> Dec {
        Dec { unscaled: self.unscaled * other.unscaled, scale: self.scale + other.scale }
    }

    /// The exact sum.
    pub open spec fn plus(self, other: Dec) -> Dec {
        Dec {
            unscaled: self.at_scale(self.common_scale(other)) + other.at_scale(
                self.common_scale(other),
            ),
            scale: self.common_scale(other),
        }
    }

    /// The exact difference.
    pub open spec fn minus(self, other: Dec) -> Dec {
        Dec {
            unscaled: self.at_scale(self.common_scale(other)) - other.at_scale(
                self.common_scale(other),
            ),
            scale: self.common_scale(other),
        }
    }

    /// The whole number `n`.
    pub open spec fn whole(n: int) -> Dec {
        Dec { unscaled: n, scale: 0 }
    }
}

/// The bytes read as a little-endian natural number.
pub open spec fn le_unsigned(bytes: Seq<u8>) -> nat
    decreases bytes.len(),
{
    if bytes.len() == 0 {
        0
    } else {
        bytes[0] as nat + 256 * le_unsigned(bytes.drop_first())
    }
}

/// The bytes read as a little-endian two's-complement integer.
pub open spec fn le_signed(bytes: Seq<u8>) -> int {
    if bytes.len() > 0 && bytes.last() >= 128 {
        le_unsigned(bytes) - pow(256, bytes.len())
    } else {
        le_unsigned(bytes) as int
    }
}

/// The decimal that a byte string and a scale stand for.
pub open spec fn dec_of(bytes: Seq<u8>, scale: i64) -> Dec {
    Dec { unscaled: le_signed(bytes), scale: scale as int }
}

/// Largest magnitude of a scale that a [`Decimal`] may carry.
pub const SCALE_LIMIT: i64 = 10000;

/// The scale lies within the range that this library works in.
pub open spec fn scale_in_range(scale: int) -> bool {
    -SCALE_LIMIT <= scale <= SCALE_LIMIT
}

/// The representation that `bigdecimal` gives to the product of two decimals.
pub uninterp spec fn decimal_product(a: Dec, b: Dec) -> Dec;

/// The representation that `bigdecimal` gives to the sum of two decimals.
pub uninterp spec fn decimal_sum(a: Dec, b: Dec) -> Dec;

/// The representation that `bigdecimal` gives to the difference of two decimals.
pub uninterp spec fn decimal_difference(a: Dec, b: Dec) -> Dec;

/// What `bigdecimal` computes for `num / den`: the quotient, cut off and
/// rounded at the precision that the crate was built with (100 digits unless
/// configured otherwise).
pub uninterp spec fn decimal_quotient(num: Dec, den: Dec) -> Dec;

/// The text that `bigdecimal` displays a decimal as: plain digits, or the
/// exponential form beyond the thresholds that the crate was built with.
pub uninterp spec fn decimal_text(d: Dec) -> Seq<char>;

/// The decimal that `bigdecimal` reads from a text, if it reads one.
pub uninterp spec fn parsed_decimal(text: Seq<char>) -> Option<Dec>;

/// `bigdecimal::ParseBigDecimalError`, the error of `BigDecimal::from_str`.
/// It is handed on as it comes and never looked into.
#[verifier::external_type_specification]
#[verifier::external_body]
pub struct ExParseBigDecimalError(ParseBigDecimalError);

/// `&BigDecimal * &BigDecimal`: the result is the representation named
/// [`decimal_product`], and it denotes the exact product of the operands.
#[verifier::external_body]
fn big_mul(a: &Vec<u8>, a_scale: i64, b: &Vec<u8>, b_scale: i64) -> (r: (Vec<u8>, i64))
    requires
        scale_in_range(a_scale as int),
        scale_in_range(b_scale as int),
    ensures
        dec_of(r.0@, r.1) == decimal_product(dec_of(a@, a_scale), dec_of(b@, b_scale)),
        dec_of(r.0@, r.1).same_value(dec_of(a@, a_scale).times(dec_of(b@, b_scale))),
{
    let x = BigDecimal::new(BigInt::from_signed_bytes_le(a), a_scale);
    let y = BigDecimal::new(BigInt::from_signed_bytes_le(b), b_scale);
    let (digits, scale) = (&x * &y).into_bigint_and_exponent();
    (digits.to_signed_bytes_le(), scale)
}

/// `&BigDecimal + &BigDecimal`: the result is the representation named
/// [`decimal_sum`], and it denotes the exact sum of the operands.
#[verifier::external_body]
fn big_add(a: &Vec<u8>, a_scale: i64, b: &Vec<u8>, b_scale: i64) -> (r: (Vec<u8>, i64))
    requires
        scale_in_range(a_scale as int),
        scale_in_range(b_scale as int),
    ensures
        dec_of(r.0@, r.1) == decimal_sum(dec_of(a@, a_scale), dec_of(b@, b_scale)),
        dec_of(r.0@, r.1).same_value(dec_of(a@, a_scale).plus(dec_of(b@, b_scale))),
{
    let x = BigDecimal::new(BigInt::from_signed_bytes_le(a), a_scale);
    let y = BigDecimal::new(BigInt::from_signed_bytes_le(b), b_scale);
    let (digits, scale) = (&x + &y).into_bigint_and_exponent();
    (digits.to_signed_bytes_le(), scale)
}

/// `&BigDecimal - &BigDecimal`: the result is the representation named
/// [`decimal_difference`], and it denotes the exact difference of the
/// operands.
#[verifier::external_body]
fn big_sub(a: &Vec<u8>, a_scale: i64, b: &Vec<u8>, b_scale: i64) -> (r: (Vec<u8>, i64))
    requires
        scale_in_range(a_scale as int),
        scale_in_range(b_scale as int),
    ensures
        dec_of(r.0@, r.1) == decimal_difference(dec_of(a@, a_scale), dec_of(b@, b_scale)),
        dec_of(r.0@, r.1).same_value(dec_of(a@, a_scale).minus(dec_of(b@, b_scale))),
{
    let x = BigDecimal::new(BigInt::from_signed_bytes_le(a), a_scale);
    let y = BigDecimal::new(BigInt::from_signed_bytes_le(b), b_scale);
    let (digits, scale) = (&x - &y).into_bigint_and_exponent();
    (digits.to_signed_bytes_le(), scale)
}

/// `&BigDecimal / &BigDecimal`, which panics on a zero divisor: the result is
/// the representation named [`decimal_quotient`].
#[verifier::external_body]
fn big_div(a: &Vec<u8>, a_scale: i64, b: &Vec<u8>, b_scale: i64) -> (r: (Vec<u8>, i64))
    requires
        scale_in_range(a_scale as int),
        scale_in_range(b_scale as int),
        le_signed(b@) != 0,
    ensures
        dec_of(r.0@, r.1) == decimal_quotient(dec_of(a@, a_scale), dec_of(b@, b_scale)),
{
    let x = BigDecimal::new(BigInt::from_signed_bytes_le(a), a_scale);
    let y = BigDecimal::new(BigInt::from_signed_bytes_le(b), b_scale);
    let (digits, scale) = (&x / &y).into_bigint_and_exponent();
    (digits.to_signed_bytes_le(), scale)
}

/// `BigDecimal < BigDecimal`: the order of the numbers that the operands
/// denote, whatever their scales.
#[verifier::external_body]
fn big_less(a: &Vec<u8>, a_scale: i64, b: &Vec<u8>, b_scale: i64) -> (r: bool)
    requires
        scale_in_range(a_scale as int),
        scale_in_range(b_scale as int),
    ensures
        r == dec_of(a@, a_scale).less(dec_of(b@, b_scale)),
{
    let x = BigDecimal::new(BigInt::from_signed_bytes_le(a), a_scale);
    let y = BigDecimal::new(BigInt::from_signed_bytes_le(b), b_scale);
    x < y
}

/// `BigDecimal::to_string`: the displayed text, named [`decimal_text`].
#[verifier::external_body]
fn big_text(a: &Vec<u8>, a_scale: i64) -> (r: String)
    requires
        scale_in_range(a_scale as int),
    ensures
        r@ == decimal_text(dec_of(a@, a_scale)),
{
    BigDecimal::new(BigInt::from_signed_bytes_le(a), a_scale).to_string()
}

/// `BigDecimal::from_str`: succeeds exactly on the texts that
/// [`parsed_decimal`] reads, with the decimal that it names.
#[verifier::external_body]
fn big_parse(text: &str) -> (r: Result<(Vec<u8>, i64), ParseBigDecimalError>)
    ensures
        r is Ok <==> parsed_decimal(text@) is Some,
        r is Ok ==> dec_of(r.unwrap().0@, r.unwrap().1) == parsed_decimal(text@).unwrap(),
{
    match BigDecimal::from_str(text) {
        Ok(d) => {
            let (digits, scale) = d.into_bigint_and_exponent();
            Ok((digits.to_signed_bytes_le(), scale))
        },
        Err(e) => Err(e),
    }
}

/// Rewriting a decimal with a larger scale multiplies its unscaled integer by
/// the matching power of ten.
pub proof fn lemma_at_scale_raise(a: Dec, s: int, t: int)
    requires
        a.scale <= s <= t,
    ensures
        a.at_scale(t) == a.at_scale(s) * pow(10, (t - s) as nat),
{
    let x = (s - a.scale) as nat;
    let y = (t - s) as nat;
    lemma_pow_adds(10, x, y);
    assert(x + y == (t - a.scale) as nat);
    assert(a.unscaled * (pow(10, x) * pow(10, y)) == (a.unscaled * pow(10, x)) * pow(10, y))
        by (nonlinear_arith);
}

/// Two decimals compare at every scale that both can be written with as they
/// compare at their common scale.
pub proof fn lemma_order_at_any_scale(a: Dec, b: Dec, s: int)
    requires
        s >= a.scale,
        s >= b.scale,
    ensures
        a.less(b) == (a.at_scale(s) < b.at_scale(s)),
        a.same_value(b) == (a.at_scale(s) == b.at_scale(s)),
{
    let m = a.common_scale(b);
    lemma_at_scale_raise(a, m, s);
    lemma_at_scale_raise(b, m, s);
    let p = pow(10, (s - m) as nat);
    lemma_pow_positive(10, (s - m) as nat);
    let x = a.at_scale(m);
    let y = b.at_scale(m);
    assert((x < y) == (x * p < y * p)) by (nonlinear_arith)
        requires
            p > 0,
    ;
    assert((x == y) == (x * p == y * p)) by (nonlinear_arith)
        requires
            p > 0,
    ;
}

/// The scale at which three decimals can all be written.
pub open spec fn common_scale_of_three(a: Dec, b: Dec, c: Dec) -> int {
    let m = a.common_scale(b);
    if m >= c.scale {
        m
    } else {
        c.scale
    }
}

/// Denoting the same number is transitive.
pub proof fn lemma_same_value_transitive(a: Dec, b: Dec, c: Dec)
    requires
        a.same_value(b),
        b.same_value(c),
    ensures
        a.same_value(c),
{
    let s = common_scale_of_three(a, b, c);
    lemma_order_at_any_scale(a, b, s);
    lemma_order_at_any_scale(b, c, s);
    lemma_order_at_any_scale(a, c, s);
}

/// The order of decimals is transitive.
pub proof fn lemma_less_transitive(a: Dec, b: Dec, c: Dec)
    requires
        a.less(b),
        b.less(c),
    ensures
        a.less(c),
{
    let s = common_scale_of_three(a, b, c);
    lemma_order_at_any_scale(a, b, s);
    lemma_order_at_any_scale(b, c, s);
    lemma_order_at_any_scale(a, c, s);
}

/// "Not smaller than" is transitive.
pub proof fn lemma_at_least_transitive(a: Dec, b: Dec, c: Dec)
    requires
        a.at_least(b),
        b.at_least(c),
    ensures
        a.at_least(c),
{
    let s = common_scale_of_three(a, b, c);
    lemma_order_at_any_scale(a, b, s);
    lemma_order_at_any_scale(b, c, s);
    lemma_order_at_any_scale(a, c, s);
}

/// A decimal that is neither below nor above zero has a zero unscaled integer,
/// and the other way round.
pub proof fn lemma_zero_by_order(a: Dec)
    ensures
        (!a.less(Dec::whole(0)) && !Dec::whole(0).less(a)) == (a.unscaled == 0),
        Dec::whole(0).less(a) == (a.unscaled > 0),
        a.less(Dec::whole(0)) == (a.unscaled < 0),
{
    let z = Dec::whole(0);
    let m = a.common_scale(z);
    let p = pow(10, (m - a.scale) as nat);
    lemma_pow_positive(10, (m - a.scale) as nat);
    let q = pow(10, (m - z.scale) as nat);
    assert(0 * q == 0);
    let u = a.unscaled;
    assert((u * p < 0) == (u < 0)) by (nonlinear_arith)
        requires
            p > 0,
    ;
    assert((0 < u * p) == (0 < u)) by (nonlinear_arith)
        requires
            p > 0,
    ;
    assert(z.common_scale(a) == m);
}

/// The sum of two decimals, written at a scale that both can be written
/// with, is the sum of the two written at that scale.
pub proof fn lemma_plus_at_scale(a: Dec, b: Dec, s: int)
    requires
        s >= a.scale,
        s >= b.scale,
    ensures
        a.plus(b).at_scale(s) == a.at_scale(s) + b.at_scale(s),
        a.minus(b).at_scale(s) == a.at_scale(s) - b.at_scale(s),
{
    let m = a.common_scale(b);
    lemma_at_scale_raise(a, m, s);
    lemma_at_scale_raise(b, m, s);
    let p = pow(10, (s - m) as nat);
    let x = a.at_scale(m);
    let y = b.at_scale(m);
    assert(pow(10, (m - m) as nat) == 1) by {
        vstd::arithmetic::power::lemma_pow0(10);
    }
    assert((x + y) * 1 == x + y);
    assert((x - y) * 1 == x - y);
    assert((x + y) * p == x * p + y * p) by (nonlinear_arith);
    assert((x - y) * p == x * p - y * p) by (nonlinear_arith);
    assert(a.plus(b).at_scale(s) == (x + y) * p);
    assert(a.minus(b).at_scale(s) == (x - y) * p);
}

/// Sums and differences of decimals that denote the same numbers denote the
/// same number.
pub proof fn lemma_plus_same_value(a: Dec, a2: Dec, b: Dec, b2: Dec)
    requires
        a.same_value(a2),
        b.same_value(b2),
    ensures
        a.plus(b).same_value(a2.plus(b2)),
        a.minus(b).same_value(a2.minus(b2)),
{
    let s1 = common_scale_of_three(a, a2, b);
    let s = if s1 >= b2.scale {
        s1
    } else {
        b2.scale
    };
    lemma_plus_at_scale(a, b, s);
    lemma_plus_at_scale(a2, b2, s);
    lemma_order_at_any_scale(a, a2, s);
    lemma_order_at_any_scale(b, b2, s);
    lemma_order_at_any_scale(a.plus(b), a2.plus(b2), s);
    lemma_order_at_any_scale(a.minus(b), a2.minus(b2), s);
}

proof fn lemma_le_unsigned_cons(first: u8, rest: Seq<u8>)
    ensures
        le_unsigned(seq![first] + rest) == first as nat + 256 * le_unsigned(rest),
{
    let s = seq![first] + rest;
    assert(s.drop_first() =~= rest);
}

/// An arbitrary-precision decimal number.
#[derive(Debug)]
pub struct Decimal {
    bytes: Vec<u8>,
    scale: i64,
}

impl View for Decimal {
    type V = Dec;

    closed spec fn view(&self) -> Dec {
        dec_of(self.bytes@, self.scale)
    }
}

impl Clone for Decimal {
    fn clone(&self) -> (copy: Self)
        ensures
            copy@ == self@,
    {
        proof {
            use_type_invariant(self);
        }
        let bytes = self.bytes.clone();
        assert(bytes@ =~= self.bytes@);
        Decimal { bytes, scale: self.scale }
    }
}

impl Decimal {
    #[verifier::type_invariant]
    closed spec fn inv(&self) -> bool {
        scale_in_range(self.scale as int)
    }

    /// The scale of the decimal, which is always within the range.
    pub fn scale(&self) -> (s: i64)
        ensures
            s == self@.scale,
            scale_in_range(s as int),
    {
        proof {
            use_type_invariant(self);
        }
        self.scale
    }

    /// The decimal `value * 10^(-places)`.
    pub fn from_scaled(value: u32, places: u8) -> (d: Decimal)
        ensures
            d@ == (Dec { unscaled: value as int, scale: places as int }),
    {
        let b0: u8 = (value & 0xff) as u8;
        let b1: u8 = ((value >> 8) & 0xff) as u8;
        let b2: u8 = ((value >> 16) & 0xff) as u8;
        let b3: u8 = ((value >> 24) & 0xff) as u8;
        let mut bytes: Vec<u8> = Vec::new();
        bytes.push(b0);
        bytes.push(b1);
        bytes.push(b2);
        bytes.push(b3);
        bytes.push(0u8);
        proof {
            let tail4 = seq![0u8];
            let tail3 = seq![b3] + tail4;
            let tail2 = seq![b2] + tail3;
            let tail1 = seq![b1] + tail2;
            assert(bytes@ =~= seq![b0] + tail1);
            lemma_le_unsigned_cons(0u8, Seq::<u8>::empty());
            assert(tail4 =~= seq![0u8] + Seq::<u8>::empty());
            assert(le_unsigned(Seq::<u8>::empty()) == 0);
            lemma_le_unsigned_cons(b3, tail4);
            lemma_le_unsigned_cons(b2, tail3);
            lemma_le_unsigned_cons(b1, tail2);
            lemma_le_unsigned_cons(b0, tail1);
            assert(value == b0 + 256 * (b1 + 256 * (b2 + 256 * b3))) by (bit_vector)
                requires
                    b0 == (value & 0xff) as u8,
                    b1 == ((value >> 8) & 0xff) as u8,
                    b2 == ((value >> 16) & 0xff) as u8,
                    b3 == ((value >> 24) & 0xff) as u8,
            ;
            assert(bytes@.last() == 0u8);
        }
        Decimal { bytes, scale: places as i64 }
    }

    /// The whole number `value`.
    pub fn from_u32(value: u32) -> (d: Decimal)
        ensures
            d@ == Dec::whole(value as int),
    {
        Decimal::from_scaled(value, 0)
    }

    /// Reads a decimal from its text. Fails where `bigdecimal` reads none, and
    /// where the scale of what it reads is beyond [`SCALE_LIMIT`]; the error
    /// carries the text.
    pub fn parse(text: &str) -> (r: Result<Decimal, AppError>)
        ensures
            r is Ok <==> Decimal::readable(text@),
            r is Ok ==> r.unwrap()@ == parsed_decimal(text@).unwrap(),
            r is Err ==> r.unwrap_err() is DecimalParsing && r.unwrap_err().detail() == text@,
    {
        match big_parse(text) {
            Ok((bytes, scale)) => {
                if -SCALE_LIMIT <= scale && scale <= SCALE_LIMIT {
                    Ok(Decimal { bytes, scale })
                } else {
                    Err(AppError::DecimalParsing(text.to_owned()))
                }
            },
            Err(_) => Err(AppError::DecimalParsing(text.to_owned())),
        }
    }

    /// The text is one that `bigdecimal` reads as a decimal whose scale this
    /// library can hold.
    pub open spec fn readable(text: Seq<char>) -> bool {
        parsed_decimal(text) is Some && scale_in_range(parsed_decimal(text).unwrap().scale)
    }

    /// The text that the decimal is displayed as.
    pub fn to_text(&self) -> (text: String)
        ensures
            text@ == decimal_text(self@),
    {
        proof {
            use_type_invariant(self);
        }
        big_text(&self.bytes, self.scale)
    }

    /// The product, or `None` when its scale is beyond [`SCALE_LIMIT`].
    pub fn checked_mul(&self, rhs: &Decimal) -> (r: Option<Decimal>)
        ensures
            r is Some <==> scale_in_range(decimal_product(self@, rhs@).scale),
            r is Some ==> r.unwrap()@ == decimal_product(self@, rhs@),
            r is Some ==> r.unwrap()@.same_value(self@.times(rhs@)),
    {
        proof {
            use_type_invariant(self);
            use_type_invariant(rhs);
        }
        let (bytes, scale) = big_mul(&self.bytes, self.scale, &rhs.bytes, rhs.scale);
        if -SCALE_LIMIT <= scale && scale <= SCALE_LIMIT {
            Some(Decimal { bytes, scale })
        } else {
            None
        }
    }

    /// The sum, or `None` when its scale is beyond [`SCALE_LIMIT`].
    pub fn checked_add(&self, rhs: &Decimal) -> (r: Option<Decimal>)
        ensures
            r is Some <==> scale_in_range(decimal_sum(self@, rhs@).scale),
            r is Some ==> r.unwrap()@ == decimal_sum(self@, rhs@),
            r is Some ==> r.unwrap()@.same_value(self@.plus(rhs@)),
    {
        proof {
            use_type_invariant(self);
            use_type_invariant(rhs);
        }
        let (bytes, scale) = big_add(&self.bytes, self.scale, &rhs.bytes, rhs.scale);
        if -SCALE_LIMIT <= scale && scale <= SCALE_LIMIT {
            Some(Decimal { bytes, scale })
        } else {
            None
        }
    }

    /// The difference, or `None` when its scale is beyond [`SCALE_LIMIT`].
    pub fn checked_sub(&self, rhs: &Decimal) -> (r: Option<Decimal>)
        ensures
            r is Some <==> scale_in_range(decimal_difference(self@, rhs@).scale),
            r is Some ==> r.unwrap()@ == decimal_difference(self@, rhs@),
            r is Some ==> r.unwrap()@.same_value(self@.minus(rhs@)),
    {
        proof {
            use_type_invariant(self);
            use_type_invariant(rhs);
        }
        let (bytes, scale) = big_sub(&self.bytes, self.scale, &rhs.bytes, rhs.scale);
        if -SCALE_LIMIT <= scale && scale <= SCALE_LIMIT {
            Some(Decimal { bytes, scale })
        } else {
            None
        }
    }

    /// The quotient as `bigdecimal` computes it, or `None` when the divisor is
    /// zero or the quotient's scale is beyond [`SCALE_LIMIT`].
    pub fn checked_div(&self, rhs: &Decimal) -> (r: Option<Decimal>)
        ensures
            r is Some <==> rhs@.unscaled != 0 && scale_in_range(
                decimal_quotient(self@, rhs@).scale,
            ),
            r is Some ==> r.unwrap()@ == decimal_quotient(self@, rhs@),
    {
        proof {
            use_type_invariant(self);
            use_type_invariant(rhs);
        }
        if rhs.is_zero() {
            return None;
        }
        let (bytes, scale) = big_div(&self.bytes, self.scale, &rhs.bytes, rhs.scale);
        if -SCALE_LIMIT <= scale && scale <= SCALE_LIMIT {
            Some(Decimal { bytes, scale })
        } else {
            None
        }
    }

    /// Whether `self` denotes a smaller number than `other`.
    pub fn less_than(&self, other: &Decimal) -> (r: bool)
        ensures
            r == self@.less(other@),
    {
        proof {
            use_type_invariant(self);
            use_type_invariant(other);
        }
        big_less(&self.bytes, self.scale, &other.bytes, other.scale)
    }

    /// Whether `self` denotes a larger number than `other`.
    pub fn greater_than(&self, other: &Decimal) -> (r: bool)
        ensures
            r == other@.less(self@),
    {
        other.less_than(self)
    }

    /// Whether `self` and `other` denote the same number.
    pub fn same_value(&self, other: &Decimal) -> (r: bool)
        ensures
            r == self@.same_value(other@),
    {
        !self.less_than(other) && !other.less_than(self)
    }

    /// Whether the decimal is zero.
    pub fn is_zero(&self) -> (r: bool)
        ensures
            r == (self@.unscaled == 0),
    {
        let zero = Decimal::from_u32(0);
        proof {
            lemma_zero_by_order(self@);
        }
        !self.less_than(&zero) && !zero.less_than(self)
    }

    /// Whether the decimal is greater than zero.
    pub fn is_positive(&self) -> (r: bool)
        ensures
            r == (self@.unscaled > 0),
            r == Dec::whole(0).less(self@),
    {
        let zero = Decimal::from_u32(0);
        proof {
            lemma_zero_by_order(self@);
        }
        zero.less_than(self)
    }
}

} // verus!
