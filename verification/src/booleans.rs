//! Two-valued boolean algebra over an explicit tagged value.

use vstd::prelude::*;

use crate::numbers::{from_int, Numeral};

verus! {

/// A two-valued truth value carried as ordinary data, so that predicates of
/// the core can return it and lists can hold it.
#[derive(Clone, Copy, Debug, PartialEq, Eq, Structural)]
pub enum Boolean {
    True,
    False,
}

/// The `Boolean` of a specification-level `bool`.
pub open spec fn lift_bool(b: bool) -> Boolean {
    if b {
        Boolean::True
    } else {
        Boolean::False
    }
}

/// Standard truth table of negation.
pub open spec fn spec_not(b: Boolean) -> Boolean {
    lift_bool(!(b is True))
}

/// Standard truth table of conjunction.
pub open spec fn spec_and(a: Boolean, b: Boolean) -> Boolean {
    lift_bool(a is True && b is True)
}

/// Standard truth table of disjunction.
pub open spec fn spec_or(a: Boolean, b: Boolean) -> Boolean {
    lift_bool(a is True || b is True)
}

/// What a truth value stands for: a plain `bool`, and the numeral
/// conventionally equivalent to it (one for true, zero for false).
pub trait Bool {
    fn bool_value(&self) -> bool;

    fn equivalent_int(&self) -> Numeral;
}

impl Bool for Boolean {
    fn bool_value(&self) -> (r: bool)
        ensures
            *self == lift_bool(r),
    {
        match self {
            Boolean::True => true,
            Boolean::False => false,
        }
    }

    fn equivalent_int(&self) -> (r: Numeral)
        ensures
            r == from_int(if *self is True { 1int } else { 0int }),
    {
        proof {
            reveal_with_fuel(from_int, 2);
        }
        match self {
            Boolean::True => Numeral::Successor(Box::new(Numeral::Zero)),
            Boolean::False => Numeral::Zero,
        }
    }
}

/// Logical negation.
pub trait Not: Sized {
    fn not(&self) -> Self;
}

impl Not for Boolean {
    fn not(&self) -> (r: Boolean)
        ensures
            r == spec_not(*self),
    {
        match self {
            Boolean::True => Boolean::False,
            Boolean::False => Boolean::True,
        }
    }
}

/// Logical disjunction.
pub trait Or: Sized {
    fn or(&self, other: &Self) -> Self;
}

impl Or for Boolean {
    fn or(&self, other: &Boolean) -> (r: Boolean)
        ensures
            r == spec_or(*self, *other),
    {
        match self {
            Boolean::True => Boolean::True,
            Boolean::False => *other,
        }
    }
}

/// Logical conjunction.
pub trait And: Sized {
    fn and(&self, other: &Self) -> Self;
}

impl And for Boolean {
    fn and(&self, other: &Boolean) -> (r: Boolean)
        ensures
            r == spec_and(*self, *other),
    {
        match self {
            Boolean::True => *other,
            Boolean::False => Boolean::False,
        }
    }
}

/// A plain `bool` waiting to be lifted into the core's `Boolean`.
#[derive(Clone, Copy, Debug, PartialEq, Eq, Structural)]
pub struct BoolWrapper(pub bool);

/// Conversion of a plain `bool` into the core's `Boolean`.
pub trait LiftBool {
    fn lift(&self) -> Boolean;
}

impl LiftBool for BoolWrapper {
    fn lift(&self) -> (r: Boolean)
        ensures
            r == lift_bool(self.0),
    {
        if self.0 {
            Boolean::True
        } else {
            Boolean::False
        }
    }
}

} // verus!
