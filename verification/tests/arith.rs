use aoc2019::arith::{truncated_quotient, truncated_remainder};

#[test]
fn arith_quotients() {
    assert_eq!(truncated_quotient(7, 2), Some(3));
    assert_eq!(truncated_quotient(-7, 2), Some(-3));
    assert_eq!(truncated_quotient(7, -2), Some(-3));
    assert_eq!(truncated_quotient(-7, -2), Some(3));
    assert_eq!(truncated_quotient(0, 5), Some(0));
    assert_eq!(truncated_quotient(5, 0), None);
    assert_eq!(truncated_quotient(i64::MIN, -1), None);
    assert_eq!(truncated_quotient(i64::MIN, 1), Some(i64::MIN));
    assert_eq!(truncated_quotient(i64::MAX, -1), Some(-i64::MAX));
    assert_eq!(truncated_quotient(i64::MIN, i64::MIN), Some(1));
}

#[test]
fn arith_remainders() {
    assert_eq!(truncated_remainder(7, 2), Some(1));
    assert_eq!(truncated_remainder(-7, 2), Some(-1));
    assert_eq!(truncated_remainder(7, -2), Some(1));
    assert_eq!(truncated_remainder(-7, -2), Some(-1));
    assert_eq!(truncated_remainder(6, 3), Some(0));
    assert_eq!(truncated_remainder(5, 0), None);
    assert_eq!(truncated_remainder(i64::MIN, -1), Some(0));
    assert_eq!(truncated_remainder(i64::MIN, i64::MAX), Some(-1));
    assert_eq!(truncated_remainder(i64::MAX, i64::MIN), Some(i64::MAX));
}
