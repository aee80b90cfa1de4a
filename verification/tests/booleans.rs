use peano_core::booleans::{And, Bool, BoolWrapper, Boolean, LiftBool, Not, Or};
use peano_core::numbers::{numeral_of, Numeral};

#[test]
fn negation_truth_table() {
    assert_eq!(Boolean::True.not(), Boolean::False);
    assert_eq!(Boolean::False.not(), Boolean::True);
}

#[test]
fn disjunction_truth_table() {
    assert_eq!(Boolean::True.or(&Boolean::True), Boolean::True);
    assert_eq!(Boolean::True.or(&Boolean::False), Boolean::True);
    assert_eq!(Boolean::False.or(&Boolean::True), Boolean::True);
    assert_eq!(Boolean::False.or(&Boolean::False), Boolean::False);
}

#[test]
fn conjunction_truth_table() {
    assert_eq!(Boolean::True.and(&Boolean::True), Boolean::True);
    assert_eq!(Boolean::True.and(&Boolean::False), Boolean::False);
    assert_eq!(Boolean::False.and(&Boolean::True), Boolean::False);
    assert_eq!(Boolean::False.and(&Boolean::False), Boolean::False);
}

#[test]
fn lifting_plain_bools() {
    assert_eq!(BoolWrapper(true).lift(), Boolean::True);
    assert_eq!(BoolWrapper(false).lift(), Boolean::False);
}

#[test]
fn boolean_values() {
    assert!(Boolean::True.bool_value());
    assert!(!Boolean::False.bool_value());
    assert_eq!(Boolean::True.equivalent_int(), numeral_of(1));
    assert_eq!(Boolean::False.equivalent_int(), Numeral::Zero);
}
