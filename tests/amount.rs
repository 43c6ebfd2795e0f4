use payments::amount::Amount;
use std::ops::Neg;

/// The amount nearest to `value`, in ten-thousandths.
fn amount(value: f64) -> Amount {
    Amount((value * 10000.0).round() as i64)
}

#[test]
fn amount_reliability() {
    // Float arithmetic can accumulate errors
    let mut i = 0.0;
    let delta = 0.3;
    i += delta;
    i += delta;
    i += delta;
    assert_ne!(i, 0.9);

    // Amount arithmetic cannot
    let mut i = amount(0.0);
    let delta = amount(0.3);
    i = i + delta;
    i = i + delta;
    i = i + delta;
    assert_eq!(i, amount(0.9));
    assert_eq!(i, Amount(9000));
}

#[test]
fn amount_arithmetic_is_exact() {
    assert_eq!(Amount(12345) + Amount(-345), Amount(12000));
    assert_eq!(Amount(5) - Amount(7), Amount(-2));
    assert_eq!(Amount(42).neg(), Amount(-42));
    assert_eq!(Amount::default(), Amount(0));
}

#[test]
fn amount_ordering_follows_value() {
    assert!(Amount(1) < Amount(2));
    assert!(Amount(-3) < Amount(0));
    assert!(Amount(5) >= Amount(5));
    assert_eq!(Amount(7).partial_cmp(&Amount(7)), Some(std::cmp::Ordering::Equal));
    assert_eq!(Amount(9).max(Amount(4)), Amount(9));
}
