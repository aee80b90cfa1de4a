use peano_core::errors::CoreError;
use peano_core::functions::{filter_list, map_list, AnyTrue, Function, IsZero, PrependIf};
use peano_core::booleans::Boolean;
use peano_core::lists::{First, List, ListConcat, ListConcatAll};
use peano_core::nqueens::{Prepend, Queen};
use peano_core::numbers::{numeral_of, Numeral};

fn queen(x: u64, y: u64) -> Queen {
    Queen { x: numeral_of(x), y: numeral_of(y) }
}

fn queen_list(coords: &[(u64, u64)]) -> List<Queen> {
    let mut l = List::Nil;
    for &(x, y) in coords.iter().rev() {
        l = List::Cons(queen(x, y), Box::new(l));
    }
    l
}

#[test]
fn concat_keeps_order() {
    let a = queen_list(&[(0, 0), (1, 1)]);
    let b = queen_list(&[(2, 2)]);
    assert_eq!(a.concat(b), queen_list(&[(0, 0), (1, 1), (2, 2)]));
}

#[test]
fn concat_all_flattens_one_level() {
    let nested: List<List<Queen>> = List::Cons(
        queen_list(&[(0, 0)]),
        Box::new(List::Cons(
            queen_list(&[]),
            Box::new(List::Cons(queen_list(&[(1, 1), (2, 2)]), Box::new(List::Nil))),
        )),
    );
    assert_eq!(nested.concat_all(), queen_list(&[(0, 0), (1, 1), (2, 2)]));
}

#[test]
fn first_of_empty_is_an_error() {
    let empty: List<Queen> = List::Nil;
    assert_eq!(empty.first(), Err(CoreError::EmptyListAccess));
    let l = queen_list(&[(3, 4), (5, 6)]);
    assert_eq!(l.first(), Ok(&queen(3, 4)));
}

#[test]
fn length_counts_elements() {
    assert_eq!(queen_list(&[]).length(), 0);
    assert_eq!(queen_list(&[(0, 0), (1, 1), (2, 2)]).length(), 3);
}

#[test]
fn concat_all_of_singletons_is_identity() {
    let l = queen_list(&[(0, 0), (1, 2), (3, 4)]);
    let to_singleton = Prepend { items: List::Nil };
    let singletons = map_list(&to_singleton, &l);
    assert_eq!(singletons.concat_all(), l);
}

#[test]
fn filter_with_constant_predicates() {
    let zeros = List::Cons(
        Numeral::Zero,
        Box::new(List::Cons(Numeral::Zero, Box::new(List::Nil))),
    );
    let kept = filter_list(&IsZero, zeros);
    assert_eq!(kept.length(), 2);
    let ones = List::Cons(
        numeral_of(1),
        Box::new(List::Cons(numeral_of(2), Box::new(List::Nil))),
    );
    let none = filter_list(&IsZero, ones);
    assert_eq!(none, List::Nil);
}

#[test]
fn map_preserves_length() {
    let l = queen_list(&[(0, 0), (1, 1), (2, 2), (3, 3)]);
    let to_singleton = Prepend { items: List::Nil };
    let mapped = map_list(&to_singleton, &l);
    assert_eq!(mapped.length(), l.length());
}

#[test]
fn prepend_if_only_on_true() {
    let l = queen_list(&[(1, 1)]);
    let with = l.prepend_if(&Boolean::True, queen(0, 0));
    assert_eq!(with, queen_list(&[(0, 0), (1, 1)]));
    let l2 = queen_list(&[(1, 1)]);
    let without = l2.prepend_if(&Boolean::False, queen(0, 0));
    assert_eq!(without, queen_list(&[(1, 1)]));
}

#[test]
fn any_true_finds_a_witness() {
    let all_false: List<Boolean> = List::Cons(
        Boolean::False,
        Box::new(List::Cons(Boolean::False, Box::new(List::Nil))),
    );
    assert_eq!(all_false.any_true(), Boolean::False);
    let one_true: List<Boolean> = List::Cons(
        Boolean::False,
        Box::new(List::Cons(Boolean::True, Box::new(List::Nil))),
    );
    assert_eq!(one_true.any_true(), Boolean::True);
    let empty: List<Boolean> = List::Nil;
    assert_eq!(empty.any_true(), Boolean::False);
}

#[test]
fn increment_function_crosses_zero() {
    let inc = peano_core::functions::Increment;
    assert_eq!(inc.apply(&peano_core::numbers::numeral_of_int(-1)), Numeral::Zero);
    assert_eq!(inc.apply(&Numeral::Zero), numeral_of(1));
    let dec = peano_core::functions::Decrement;
    assert_eq!(dec.apply(&Numeral::Zero), peano_core::numbers::numeral_of_int(-1));
    assert_eq!(dec.apply(&peano_core::numbers::numeral_of_int(-1)), peano_core::numbers::numeral_of_int(-2));
}
