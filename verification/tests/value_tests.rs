use rlox::value::Value;
use rlox::value::add_val;
use rlox::value::div_val;
use rlox::value::mul_val;
use rlox::value::neg_val;
use rlox::value::sub_val;

#[test]
fn literal_parses_to_exact_fraction() {
    let v = Value::from_literal("1.2").expect("a value");
    assert_eq!(v.num, 12);
    assert_eq!(v.den, 10);

    let v = Value::from_literal("42").expect("a value");
    assert_eq!(v.num, 42);
    assert_eq!(v.den, 1);

    let v = Value::from_literal("0.001").expect("a value");
    assert_eq!(v.num, 1);
    assert_eq!(v.den, 1000);
}

#[test]
fn malformed_literals_are_rejected() {
    assert!(Value::from_literal("").is_none());
    assert!(Value::from_literal("1.").is_none());
    assert!(Value::from_literal(".5").is_none());
    assert!(Value::from_literal("1.2.3").is_none());
    assert!(Value::from_literal("abc").is_none());
    assert!(Value::from_literal("-1").is_none());
    // numerator beyond 64 bits
    assert!(Value::from_literal("99999999999999999999999999").is_none());
}

#[test]
fn rational_equality_ignores_representation() {
    assert!(Value::from_parts(6, 3).eq_rat(&Value::from_int(2)));
    assert!(Value::from_parts(12, 10).eq_rat(&Value::from_parts(6, 5)));
    assert!(!Value::from_parts(1, 2).eq_rat(&Value::from_parts(2, 1)));
}

#[test]
fn arithmetic_is_exact() {
    let a = Value::from_parts(1, 2);
    let b = Value::from_parts(1, 3);
    assert!(add_val(a, b).expect("sum").eq_rat(&Value::from_parts(5, 6)));
    assert!(sub_val(a, b).expect("difference").eq_rat(&Value::from_parts(1, 6)));
    assert!(mul_val(a, b).expect("product").eq_rat(&Value::from_parts(1, 6)));
    assert!(div_val(a, b).expect("quotient").eq_rat(&Value::from_parts(3, 2)));
    assert!(neg_val(a).expect("negation").eq_rat(&Value::from_parts(-1, 2)));
}

#[test]
fn division_by_zero_is_reported() {
    assert!(div_val(Value::from_int(1), Value::from_int(0)).is_none());
}

#[test]
fn division_keeps_denominator_positive() {
    let q = div_val(Value::from_int(1), Value::from_int(-2)).expect("quotient");
    assert!(q.den > 0);
    assert!(q.eq_rat(&Value::from_parts(-1, 2)));
}

#[test]
fn overflowing_arithmetic_is_reported() {
    let big = Value::from_int(i64::MAX);
    assert!(add_val(big, big).is_none());
    assert!(mul_val(big, Value::from_parts(3, 2)).is_none());
}
