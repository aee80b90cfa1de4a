use peano_core::booleans::Boolean;
use peano_core::errors::CoreError;
use peano_core::lists::List;
use peano_core::numbers::{
    abs_diff_checked, decrement, increment, less_than_checked, numeral_of, numeral_of_int, Number,
    Numeral, PeanoAbsDiff, PeanoAdd, PeanoEqual, PeanoLT, Range,
};

#[test]
fn test() {
    let neg1 = Numeral::Negative(Box::new(Numeral::Successor(Box::new(Numeral::Zero))));
    let one = Numeral::Successor(Box::new(Numeral::Zero));
    let zero = neg1.peano_add(&one);
    let one_again = zero.peano_add(&one);
    println!("{:?}", neg1);
    assert_eq!(neg1.value(), -1);
    assert_eq!(zero.value(), 0);
    assert_eq!(one_again.value(), 1);
}

#[test]
fn test_adding_neg_nums() {
    let neg1 = numeral_of_int(-1);
    let other_neg1 = numeral_of_int(-1);
    assert_eq!(-2, neg1.peano_add(&other_neg1).value());
}

#[test]
fn test_equality() {
    let funny_zero = Numeral::Successor(Box::new(Numeral::Negative(Box::new(Numeral::Successor(
        Box::new(Numeral::Zero),
    )))));
    let neg_2 = Numeral::Successor(Box::new(Numeral::Negative(Box::new(Numeral::Successor(
        Box::new(Numeral::Zero),
    )))));
    let _ = funny_zero.is_well_formed();
    let _ = neg_2.is_well_formed();
}

#[test]
fn add_commutes_on_samples() {
    let pairs: Vec<(i64, i64)> = vec![(0, 0), (3, 5), (-2, 7), (-4, -9), (6, -6), (1, -8)];
    for (a, b) in pairs {
        let na = numeral_of_int(a);
        let nb = numeral_of_int(b);
        let ab = na.peano_add(&nb);
        let ba = nb.peano_add(&na);
        assert_eq!(ab.peano_equal(&ba), Boolean::True);
        assert_eq!(ab.value(), a + b);
    }
}

#[test]
fn boundary_cancellation() {
    let neg1 = Numeral::Negative(Box::new(Numeral::Successor(Box::new(Numeral::Zero))));
    let one = Numeral::Successor(Box::new(Numeral::Zero));
    assert_eq!(neg1.peano_add(&one), Numeral::Zero);
}

#[test]
fn abs_diff_symmetric_on_samples() {
    let pairs: Vec<(u64, u64)> = vec![(0, 0), (0, 4), (7, 2), (5, 5), (9, 1)];
    for (a, b) in pairs {
        let na = numeral_of(a);
        let nb = numeral_of(b);
        let d1 = na.peano_abs_diff(&nb);
        let d2 = nb.peano_abs_diff(&na);
        assert_eq!(d1, d2);
        assert_eq!(d1.value(), (a as i64 - b as i64).abs());
    }
}

#[test]
fn equality_cases() {
    assert_eq!(numeral_of(3).peano_equal(&numeral_of(3)), Boolean::True);
    assert_eq!(numeral_of(3).peano_equal(&numeral_of(4)), Boolean::False);
    assert_eq!(numeral_of(0).peano_equal(&numeral_of_int(-1)), Boolean::False);
    assert_eq!(numeral_of_int(-5).peano_equal(&numeral_of_int(-5)), Boolean::True);
    assert_eq!(numeral_of_int(-5).peano_equal(&numeral_of(5)), Boolean::False);
}

#[test]
fn less_than_cases() {
    assert_eq!(numeral_of(0).peano_lt(&numeral_of(1)), Boolean::True);
    assert_eq!(numeral_of(1).peano_lt(&numeral_of(0)), Boolean::False);
    assert_eq!(numeral_of(4).peano_lt(&numeral_of(4)), Boolean::False);
    assert_eq!(numeral_of(2).peano_lt(&numeral_of(9)), Boolean::True);
}

#[test]
fn less_than_checked_rejects_negatives() {
    let neg = numeral_of_int(-3);
    let pos = numeral_of(3);
    assert_eq!(less_than_checked(&neg, &pos), Err(CoreError::Domain));
    assert_eq!(less_than_checked(&pos, &neg), Err(CoreError::Domain));
    assert_eq!(less_than_checked(&pos, &pos), Ok(Boolean::False));
}

#[test]
fn abs_diff_checked_rejects_negatives() {
    let neg = numeral_of_int(-3);
    let pos = numeral_of(3);
    assert_eq!(abs_diff_checked(&neg, &pos), Err(CoreError::Domain));
    assert_eq!(abs_diff_checked(&pos, &neg), Err(CoreError::Domain));
    assert_eq!(abs_diff_checked(&pos, &pos), Ok(Numeral::Zero));
}

#[test]
fn negative_constructor_validates() {
    let one = numeral_of(1);
    assert_eq!(Numeral::negative(one), Ok(numeral_of_int(-1)));
    assert_eq!(Numeral::negative(Numeral::Zero), Err(CoreError::MalformedNumeral));
    let neg1 = numeral_of_int(-1);
    assert_eq!(Numeral::negative(neg1), Err(CoreError::MalformedNumeral));
}

#[test]
fn increment_crosses_zero() {
    assert_eq!(increment(&numeral_of_int(-1)), Numeral::Zero);
    assert_eq!(increment(&Numeral::Zero), numeral_of(1));
    assert_eq!(increment(&numeral_of(4)), numeral_of(5));
    assert_eq!(increment(&numeral_of_int(-4)), numeral_of_int(-3));
}

#[test]
fn decrement_keeps_sign() {
    assert_eq!(decrement(&Numeral::Zero), numeral_of_int(-1));
    assert_eq!(decrement(&numeral_of(5)), numeral_of(4));
    assert_eq!(decrement(&numeral_of_int(-2)), numeral_of_int(-3));
}

#[test]
fn range_counts_down() {
    let three = numeral_of(3);
    let r = three.range();
    let expected = List::Cons(
        numeral_of(2),
        Box::new(List::Cons(
            numeral_of(1),
            Box::new(List::Cons(numeral_of(0), Box::new(List::Nil))),
        )),
    );
    assert_eq!(r, expected);
    let zero = Numeral::Zero;
    assert_eq!(zero.range(), List::Nil);
}

#[test]
fn well_formedness_check() {
    assert!(numeral_of(7).is_well_formed());
    assert!(numeral_of_int(-7).is_well_formed());
    let bad = Numeral::Negative(Box::new(Numeral::Zero));
    assert!(!bad.is_well_formed());
    let also_bad = Numeral::Successor(Box::new(Numeral::Negative(Box::new(Numeral::Successor(
        Box::new(Numeral::Zero),
    )))));
    assert!(!also_bad.is_well_formed());
}
