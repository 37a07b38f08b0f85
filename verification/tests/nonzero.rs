use bitgrain::num::{NonZero, ParseNonZeroIntError, ZeroValueError};

#[test]
fn factory_rejects_zero() {
    assert!(NonZero::new(0).is_none());
    let n = NonZero::new(-8).unwrap();
    assert_eq!(n.get(), -8);
    assert_eq!(NonZero::new(1).unwrap().get(), 1);
}

#[test]
fn zero_counts() {
    assert_eq!(NonZero::new(-1).unwrap().leading_zeros(), 0);
    assert_eq!(NonZero::new(1).unwrap().leading_zeros(), 63);
    assert_eq!(NonZero::new(-8).unwrap().trailing_zeros(), 3);
    assert_eq!(NonZero::new(6).unwrap().trailing_zeros(), 1);
}

#[test]
fn checked_multiplication() {
    let two = NonZero::new(2).unwrap();
    let four = NonZero::new(4).unwrap();
    assert_eq!(two.checked_mul(two).unwrap(), four);
    let max = NonZero::new(i64::MAX).unwrap();
    assert!(max.checked_mul(two).is_none());
}

#[test]
fn checked_exponentiation() {
    let three = NonZero::new(3).unwrap();
    assert_eq!(three.checked_pow(3).unwrap().get(), 27);
    assert_eq!(three.checked_pow(0).unwrap().get(), 1);
    let half_max = NonZero::new(i64::MAX / 2).unwrap();
    assert!(half_max.checked_pow(3).is_none());
    assert_eq!(NonZero::new(-2).unwrap().checked_pow(3).unwrap().get(), -8);
}

#[test]
fn absolute_values_and_negation() {
    let neg = NonZero::new(-1).unwrap();
    assert_eq!(neg.checked_abs().unwrap().get(), 1);
    let min = NonZero::new(i64::MIN).unwrap();
    assert!(min.checked_abs().is_none());
    assert!(min.checked_neg().is_none());
    assert_eq!(NonZero::new(5).unwrap().checked_neg().unwrap().get(), -5);
    assert!(NonZero::new(5).unwrap().is_positive());
    assert!(!NonZero::new(-5).unwrap().is_positive());
    assert!(NonZero::new(-5).unwrap().is_negative());
    assert!(!NonZero::new(5).unwrap().is_negative());
}

#[test]
fn checked_addition() {
    let one = NonZero::new(1).unwrap();
    assert_eq!(one.checked_add(1).unwrap().get(), 2);
    let max = NonZero::new(i64::MAX).unwrap();
    assert!(max.checked_add(1).is_none());
    // A sum landing exactly on zero has no non-zero representation.
    assert!(NonZero::new(-5).unwrap().checked_add(5).is_none());
}

#[test]
fn next_power_of_two() {
    assert_eq!(NonZero::new(2).unwrap().checked_next_power_of_two().unwrap().get(), 2);
    assert_eq!(NonZero::new(3).unwrap().checked_next_power_of_two().unwrap().get(), 4);
    let max = NonZero::new(i64::MAX).unwrap();
    assert!(max.checked_next_power_of_two().is_none());
    assert_eq!(NonZero::new(-7).unwrap().checked_next_power_of_two().unwrap().get(), 1);
}

#[test]
fn integer_logarithms() {
    assert_eq!(NonZero::new(7).unwrap().ilog2(), 2);
    assert_eq!(NonZero::new(8).unwrap().ilog2(), 3);
    assert_eq!(NonZero::new(9).unwrap().ilog2(), 3);
    assert_eq!(NonZero::new(99).unwrap().ilog10(), 1);
    assert_eq!(NonZero::new(100).unwrap().ilog10(), 2);
    assert_eq!(NonZero::new(101).unwrap().ilog10(), 2);
    assert_eq!(NonZero::new(1).unwrap().ilog2(), 0);
    assert_eq!(NonZero::new(i64::MAX).unwrap().ilog2(), 62);
}

#[test]
fn power_of_two_test() {
    assert!(NonZero::new(8).unwrap().is_power_of_two());
    assert!(NonZero::new(1).unwrap().is_power_of_two());
    assert!(!NonZero::new(10).unwrap().is_power_of_two());
    assert!(!NonZero::new(-4).unwrap().is_power_of_two());
}

#[test]
fn error_values() {
    assert_eq!(ZeroValueError::new(), ZeroValueError);
    let e = ParseNonZeroIntError::ZeroValue(ZeroValueError::new());
    assert!(matches!(e, ParseNonZeroIntError::ZeroValue(_)));
    assert!(matches!(
        ParseNonZeroIntError::NotIntegerString,
        ParseNonZeroIntError::NotIntegerString
    ));
}
