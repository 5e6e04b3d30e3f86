use kimchi_arbitrage::decimal::Decimal;
use kimchi_arbitrage::utils::error::AppError;

fn dec(text: &str) -> Decimal {
    Decimal::parse(text).unwrap()
}

#[test]
fn parse_then_display_keeps_the_digits() {
    assert_eq!(dec("60000.00").to_text(), "60000.00");
    assert_eq!(dec("-12.5").to_text(), "-12.5");
    assert_eq!(dec("0").to_text(), "0");
}

#[test]
fn parse_refuses_what_is_no_number() {
    match Decimal::parse("12x") {
        Err(AppError::DecimalParsing(text)) => assert_eq!(text, "12x"),
        other => panic!("unexpected {:?}", other),
    }
    assert!(Decimal::parse("").is_err());
    assert!(Decimal::parse(".").is_err());
    assert!(Decimal::parse("1.2.3").is_err());
}

#[test]
fn parse_refuses_a_scale_beyond_the_limit() {
    assert!(Decimal::parse("1e-10000").is_ok());
    match Decimal::parse("1e-10001") {
        Err(AppError::DecimalParsing(text)) => assert_eq!(text, "1e-10001"),
        other => panic!("unexpected {:?}", other),
    }
    assert!(Decimal::parse("1e10001").is_err());
}

#[test]
fn product_of_price_and_rate() {
    let krw = dec("60000.00").checked_mul(&dec("1300.00")).unwrap();
    assert!(krw.same_value(&Decimal::from_u32(78_000_000)));
    assert_eq!(krw.to_text(), "78000000.0000");
}

#[test]
fn product_is_not_an_operand() {
    let a = dec("3");
    let b = dec("7");
    let p = a.checked_mul(&b).unwrap();
    assert!(p.same_value(&dec("21")));
    assert!(!p.same_value(&a));
    assert!(!p.same_value(&b));
}

#[test]
fn sum_and_difference() {
    let s = dec("0.2").checked_add(&dec("0.05")).unwrap();
    assert!(s.same_value(&dec("0.25")));
    assert!(!s.same_value(&dec("0.2")));
    let d = dec("83200000").checked_sub(&dec("78000000.0000")).unwrap();
    assert!(d.same_value(&dec("5200000")));
    let n = dec("1").checked_sub(&dec("2.5")).unwrap();
    assert!(n.same_value(&dec("-1.5")));
}

#[test]
fn quotient_is_cut_off_at_the_precision() {
    let q = dec("1").checked_div(&dec("3")).unwrap();
    assert!(q.greater_than(&dec("0.3333")));
    assert!(q.less_than(&dec("0.3334")));
    let exact = dec("10").checked_div(&dec("4")).unwrap();
    assert!(exact.same_value(&dec("2.5")));
}

#[test]
fn division_by_zero_gives_nothing() {
    assert!(dec("1").checked_div(&dec("0")).is_none());
    assert!(dec("1").checked_div(&dec("0.000")).is_none());
}

#[test]
fn order_goes_by_value_not_by_scale() {
    assert!(dec("1.0").same_value(&dec("1.000")));
    assert!(dec("1.10").greater_than(&dec("1.1")) == false);
    assert!(dec("0.5").less_than(&dec("1")));
    assert!(dec("-3").less_than(&dec("-2.99")));
    assert!(dec("10").greater_than(&dec("9.999")));
    assert!(!dec("2").less_than(&dec("2.0")));
}

#[test]
fn zero_and_sign() {
    assert!(dec("0.00").is_zero());
    assert!(!dec("0.01").is_zero());
    assert!(dec("0.01").is_positive());
    assert!(!dec("-0.01").is_positive());
    assert!(!dec("0").is_positive());
    assert!(!dec("-5").is_zero());
}

#[test]
fn from_scaled_places_the_point() {
    assert!(Decimal::from_scaled(13000, 1).same_value(&dec("1300.0")));
    assert_eq!(Decimal::from_scaled(13000, 1).to_text(), "1300.0");
    assert!(Decimal::from_scaled(5, 2).same_value(&dec("0.05")));
    assert!(Decimal::from_scaled(4_000_000_000, 0).same_value(&dec("4000000000")));
    assert!(Decimal::from_u32(255).same_value(&dec("255")));
    assert!(Decimal::from_u32(256).same_value(&dec("256")));
    assert!(Decimal::from_u32(u32::MAX).same_value(&dec("4294967295")));
    assert_eq!(Decimal::from_scaled(5, 2).scale(), 2);
}

#[test]
fn negative_numbers_survive_the_round_trip() {
    let n = dec("-128");
    assert_eq!(n.to_text(), "-128");
    let m = dec("-32768.5");
    assert!(m.checked_add(&dec("32768.5")).unwrap().is_zero());
    let big = dec("-123456789012345678901234567890.123456789");
    assert_eq!(big.to_text(), "-123456789012345678901234567890.123456789");
    assert_eq!(big.clone().to_text(), big.to_text());
}
