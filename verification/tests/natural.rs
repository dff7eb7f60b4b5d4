use norma::natural::Natural;
use std::cmp::Ordering;

#[test]
fn natural_from_u64_and_decimal() {
    assert_eq!(Natural::from_u64(0).to_decimal(), "0");
    assert_eq!(Natural::from_u64(7).to_decimal(), "7");
    assert_eq!(Natural::from_u64(1 << 40).to_decimal(), "1099511627776");
    assert_eq!(Natural::from_u64(u64::MAX).to_decimal(), "18446744073709551615");
    assert_eq!(Natural::zero(), Natural::from_u64(0));
    assert_eq!(Natural::one(), Natural::from_u64(1));
}

#[test]
fn natural_add_past_u64() {
    let sum = Natural::from_u64(u64::MAX).add(&Natural::one());
    assert_eq!(sum.to_decimal(), "18446744073709551616");
    let double = sum.add(&sum);
    assert_eq!(double.to_decimal(), "36893488147419103232");
}

#[test]
fn natural_saturating_sub() {
    let big = Natural::from_u64(u64::MAX).add(&Natural::from_u64(10));
    assert_eq!(big.saturating_sub(&Natural::from_u64(u64::MAX)), Natural::from_u64(10));
    assert_eq!(Natural::from_u64(3).saturating_sub(&Natural::from_u64(5)), Natural::zero());
    assert_eq!(Natural::from_u64(5).saturating_sub(&Natural::from_u64(5)), Natural::zero());
    assert_eq!(Natural::from_u64(0).pred(), Natural::zero());
    assert_eq!(Natural::from_u64(9).pred(), Natural::from_u64(8));
    assert_eq!(Natural::from_u64(9).succ(), Natural::from_u64(10));
}

#[test]
fn natural_mul_small() {
    assert_eq!(Natural::from_u64(21).mul_small(2), Natural::from_u64(42));
    assert_eq!(Natural::from_u64(0).mul_small(9), Natural::zero());
    let big = Natural::from_u64(u64::MAX).mul_small(9);
    assert_eq!(big.to_decimal(), "166020696663385964535");
}

#[test]
fn natural_compare() {
    let a = Natural::from_u64(3);
    let b = Natural::from_u64(4);
    assert_eq!(a.compare(&b), Ordering::Less);
    assert_eq!(b.compare(&a), Ordering::Greater);
    assert_eq!(a.compare(&Natural::from_u64(3)), Ordering::Equal);
    assert!(a.lt(&b));
    assert!(!b.lt(&a));
    assert!(a.le(&a));
    assert!(a.equals(&Natural::from_u64(3)));
    assert!(Natural::zero().is_zero());
    assert!(!Natural::one().is_zero());
    let big = Natural::from_u64(u64::MAX).add(&Natural::one());
    assert!(Natural::from_u64(u64::MAX).lt(&big));
}

#[test]
fn natural_parse_numerals() {
    assert_eq!(Natural::parse("00123"), Ok(Natural::from_u64(123)));
    assert_eq!(
        Natural::parse("18446744073709551616").map(|n| n.to_decimal()),
        Ok("18446744073709551616".to_string())
    );
    assert_eq!(Natural::parse("+5"), Ok(Natural::from_u64(5)));
    assert_eq!(Natural::parse("1_000"), Ok(Natural::from_u64(1000)));
    assert_eq!(Natural::parse("+1__2_"), Ok(Natural::from_u64(12)));
    assert_eq!(Natural::parse("0"), Ok(Natural::zero()));
}

#[test]
fn natural_parse_errors() {
    let empty = Err("cannot parse integer from empty string".to_string());
    let invalid = Err("invalid digit found in string".to_string());
    assert_eq!(Natural::parse(""), empty);
    assert_eq!(Natural::parse("+"), empty);
    assert_eq!(Natural::parse("++1"), invalid);
    assert_eq!(Natural::parse("_1"), invalid);
    assert_eq!(Natural::parse("+_1"), invalid);
    assert_eq!(Natural::parse("12a"), invalid);
    assert_eq!(Natural::parse("-1"), invalid);
    assert_eq!(Natural::parse(" 1"), invalid);
    assert_eq!(Natural::parse("1\u{e9}"), invalid);
}

#[test]
fn natural_clone_keeps_value() {
    let big = Natural::from_u64(u64::MAX).add(&Natural::from_u64(5));
    assert_eq!(big.clone(), big);
}
