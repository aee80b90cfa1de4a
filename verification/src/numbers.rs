//! Signed unary numerals and their arithmetic.
//!
//! A numeral is `Zero`, a `Successor` of a non-negative numeral, or the
//! `Negative` of a strictly positive numeral. Under this invariant every
//! integer has exactly one encoding, so structural equality coincides with
//! equality of the represented integers.

use vstd::prelude::*;

use crate::booleans::{lift_bool, Boolean};
use crate::errors::CoreError;
use crate::lists::List;

verus! {

/// A signed integer in canonical unary form.
#[derive(Debug, PartialEq, Eq)]
pub enum Numeral {
    Zero,
    Successor(Box<Numeral>),
    Negative(Box<Numeral>),
}

/// The canonical-encoding invariant: `Successor` only wraps a non-negative
/// numeral and `Negative` only wraps a strictly positive one, so `Negative`
/// never wraps `Zero` or another `Negative`.
pub open spec fn wf(n: Numeral) -> bool
    decreases n,
{
    match n {
        Numeral::Zero => true,
        Numeral::Successor(m) => wf(*m) && !(*m is Negative),
        Numeral::Negative(m) => wf(*m) && *m is Successor,
    }
}

/// The integer a numeral stands for.
pub open spec fn to_int(n: Numeral) -> int
    decreases n,
{
    match n {
        Numeral::Zero => 0,
        Numeral::Successor(m) => to_int(*m) + 1,
        Numeral::Negative(m) => -to_int(*m),
    }
}

/// The canonical numeral of an integer. Every arithmetic contract is stated
/// as "the result is `from_int` of the expected integer".
pub open spec fn from_int(i: int) -> Numeral
    decreases (if i >= 0 { i } else { 1 - i }),
{
    if i == 0 {
        Numeral::Zero
    } else if i > 0 {
        Numeral::Successor(Box::new(from_int(i - 1)))
    } else {
        Numeral::Negative(Box::new(from_int(-i)))
    }
}

/// Structural size of a numeral, the termination measure for operations that
/// must also terminate on malformed inputs.
pub open spec fn size(n: Numeral) -> nat
    decreases n,
{
    match n {
        Numeral::Zero => 1,
        Numeral::Successor(m) => 1 + size(*m),
        Numeral::Negative(m) => 1 + size(*m),
    }
}

/// `from_int` always yields a well-formed numeral.
pub proof fn lemma_from_int_wf(i: int)
    ensures
        wf(from_int(i)),
        i > 0 ==> from_int(i) is Successor,
        i == 0 ==> from_int(i) is Zero,
        i < 0 ==> from_int(i) is Negative,
    decreases (if i >= 0 { i } else { 1 - i }),
{
    if i > 0 {
        lemma_from_int_wf(i - 1);
    } else if i < 0 {
        lemma_from_int_wf(-i);
    }
}

/// `to_int` inverts `from_int`.
pub proof fn lemma_to_int_from_int(i: int)
    ensures
        to_int(from_int(i)) == i,
    decreases (if i >= 0 { i } else { 1 - i }),
{
    if i > 0 {
        lemma_to_int_from_int(i - 1);
    } else if i < 0 {
        lemma_to_int_from_int(-i);
    }
}

/// A well-formed numeral that is not `Negative` stands for a non-negative
/// integer, and a `Successor` for a strictly positive one.
pub proof fn lemma_wf_sign(n: Numeral)
    requires
        wf(n),
    ensures
        !(n is Negative) ==> to_int(n) >= 0,
        n is Successor ==> to_int(n) >= 1,
        n is Negative ==> to_int(n) <= -1,
    decreases n,
{
    match n {
        Numeral::Zero => {},
        Numeral::Successor(m) => {
            lemma_wf_sign(*m);
        },
        Numeral::Negative(m) => {
            lemma_wf_sign(*m);
        },
    }
}

/// Canonicity: a well-formed numeral is `from_int` of its own integer, so two
/// well-formed numerals standing for the same integer are structurally equal.
pub proof fn lemma_canonical(n: Numeral)
    requires
        wf(n),
    ensures
        from_int(to_int(n)) == n,
    decreases n,
{
    match n {
        Numeral::Zero => {},
        Numeral::Successor(m) => {
            lemma_wf_sign(*m);
            lemma_canonical(*m);
        },
        Numeral::Negative(m) => {
            lemma_wf_sign(*m);
            lemma_canonical(*m);
        },
    }
}

/// The absolute value of an integer.
pub open spec fn abs_int(i: int) -> int {
    if i < 0 {
        -i
    } else {
        i
    }
}

/// The canonical sum of two numerals.
pub open spec fn spec_add(a: Numeral, b: Numeral) -> Numeral {
    from_int(to_int(a) + to_int(b))
}

/// Whether two numerals stand for the same integer.
pub open spec fn spec_equal(a: Numeral, b: Numeral) -> Boolean {
    lift_bool(to_int(a) == to_int(b))
}

/// Whether the first numeral stands for a smaller integer than the second.
pub open spec fn spec_lt(a: Numeral, b: Numeral) -> Boolean {
    lift_bool(to_int(a) < to_int(b))
}

/// The canonical absolute difference of two numerals.
pub open spec fn spec_abs_diff(a: Numeral, b: Numeral) -> Numeral {
    from_int(abs_int(to_int(a) - to_int(b)))
}

impl Clone for Numeral {
    fn clone(&self) -> (r: Numeral)
        ensures
            r == *self,
        decreases *self,
    {
        match self {
            Numeral::Zero => Numeral::Zero,
            Numeral::Successor(m) => Numeral::Successor(Box::new((**m).clone())),
            Numeral::Negative(m) => Numeral::Negative(Box::new((**m).clone())),
        }
    }
}

impl Numeral {
    /// Whether the canonical-encoding invariant holds of this value.
    pub fn is_well_formed(&self) -> (r: bool)
        ensures
            r == wf(*self),
        decreases *self,
    {
        match self {
            Numeral::Zero => true,
            Numeral::Successor(m) => match &**m {
                Numeral::Negative(_) => false,
                _ => m.is_well_formed(),
            },
            Numeral::Negative(m) => match &**m {
                Numeral::Successor(_) => m.is_well_formed(),
                _ => false,
            },
        }
    }

    /// Validating constructor of a negative numeral: wrapping anything but a
    /// strictly positive numeral is a malformed encoding and is rejected.
    pub fn negative(n: Numeral) -> (r: Result<Numeral, CoreError>)
        requires
            wf(n),
        ensures
            match r {
                Ok(v) => n is Successor && v == from_int(-to_int(n)),
                Err(e) => !(n is Successor) && e == CoreError::MalformedNumeral,
            },
    {
        match n {
            Numeral::Successor(_) => {
                proof {
                    lemma_wf_sign(n);
                    lemma_canonical(n);
                }
                Ok(Numeral::Negative(Box::new(n)))
            },
            _ => Err(CoreError::MalformedNumeral),
        }
    }
}

/// The numeral one greater, crossing the sign boundary exactly: the increment
/// of minus one is zero.
pub fn increment(n: &Numeral) -> (r: Numeral)
    requires
        wf(*n),
    ensures
        r == from_int(to_int(*n) + 1),
{
    proof {
        lemma_wf_sign(*n);
        lemma_canonical(*n);
    }
    match n {
        Numeral::Zero => Numeral::Successor(Box::new(Numeral::Zero)),
        Numeral::Successor(_) => Numeral::Successor(Box::new(n.clone())),
        Numeral::Negative(m) => {
            proof {
                lemma_wf_sign(**m);
                lemma_canonical(**m);
            }
            match &**m {
                Numeral::Successor(k) => {
                    proof {
                        assert(wf(**m));
                        assert(wf(**k));
                        lemma_wf_sign(**k);
                        lemma_canonical(**k);
                    }
                    match &**k {
                        Numeral::Zero => Numeral::Zero,
                        _ => Numeral::Negative(Box::new((**k).clone())),
                    }
                },
                _ => {
                    proof {
                        assert(false);
                    }
                    Numeral::Zero
                },
            }
        },
    }
}

/// The numeral one smaller, with the correct signed behaviour on every input:
/// the decrement of zero is minus one, and decrementing a negative numeral
/// moves it further from zero.
pub fn decrement(n: &Numeral) -> (r: Numeral)
    requires
        wf(*n),
    ensures
        r == from_int(to_int(*n) - 1),
{
    proof {
        lemma_wf_sign(*n);
        lemma_canonical(*n);
    }
    match n {
        Numeral::Zero => {
            proof {
                reveal_with_fuel(from_int, 3);
            }
            Numeral::Negative(Box::new(Numeral::Successor(Box::new(Numeral::Zero))))
        },
        Numeral::Successor(m) => {
            proof {
                lemma_wf_sign(**m);
                lemma_canonical(**m);
            }
            (**m).clone()
        },
        Numeral::Negative(m) => {
            proof {
                assert(wf(**m));
                lemma_wf_sign(**m);
                lemma_canonical(**m);
                let k = to_int(**m);
                assert(from_int(k + 1) == Numeral::Successor(Box::new(from_int(k))));
                assert(from_int(-(k + 1)) == Numeral::Negative(Box::new(from_int(k + 1))));
                assert(to_int(*n) - 1 == -(k + 1));
            }
            Numeral::Negative(Box::new(Numeral::Successor(Box::new((**m).clone()))))
        },
    }
}

/// Structural equality of numerals: matching constructors recurse, different
/// constructors never compare equal.
pub trait PeanoEqual {
    /// The inputs on which the comparison is defined.
    spec fn eq_ok(&self, other: &Numeral) -> bool;

    fn peano_equal(&self, other: &Numeral) -> (r: Boolean)
        requires
            self.eq_ok(other),
    ;
}

impl PeanoEqual for Numeral {
    open spec fn eq_ok(&self, other: &Numeral) -> bool {
        wf(*self) && wf(*other)
    }

    fn peano_equal(&self, other: &Numeral) -> (r: Boolean)
        ensures
            r == spec_equal(*self, *other),
            (r is True) <==> *self == *other,
        decreases *self,
    {
        proof {
            lemma_wf_sign(*self);
            lemma_wf_sign(*other);
            if to_int(*self) == to_int(*other) {
                lemma_canonical(*self);
                lemma_canonical(*other);
            }
        }
        match (self, other) {
            (Numeral::Zero, Numeral::Zero) => Boolean::True,
            (Numeral::Successor(n), Numeral::Successor(m)) => {
                proof {
                    assert(wf(**n) && wf(**m));
                }
                (**n).peano_equal(&**m)
            },
            (Numeral::Negative(n), Numeral::Negative(m)) => {
                proof {
                    assert(wf(**n) && wf(**m));
                }
                (**n).peano_equal(&**m)
            },
            _ => Boolean::False,
        }
    }
}

/// Signed addition. Successors are peeled off the left operand and negatives
/// move it toward zero, so in particular minus one plus a successor collapses
/// to the predecessor.
pub trait PeanoAdd {
    /// The inputs on which addition is defined.
    spec fn add_ok(&self, other: &Numeral) -> bool;

    fn peano_add(&self, other: &Numeral) -> (r: Numeral)
        requires
            self.add_ok(other),
    ;
}

impl PeanoAdd for Numeral {
    open spec fn add_ok(&self, other: &Numeral) -> bool {
        wf(*self) && wf(*other)
    }

    fn peano_add(&self, other: &Numeral) -> (r: Numeral)
        ensures
            r == spec_add(*self, *other),
        decreases size(*self),
    {
        match self {
            Numeral::Zero => {
                proof {
                    lemma_canonical(*other);
                }
                other.clone()
            },
            Numeral::Successor(m) => {
                proof {
                    assert(wf(**m));
                    assert(size(*self) == 1 + size(**m));
                }
                let rest = (**m).peano_add(other);
                proof {
                    lemma_from_int_wf(to_int(**m) + to_int(*other));
                    lemma_to_int_from_int(to_int(**m) + to_int(*other));
                }
                increment(&rest)
            },
            Numeral::Negative(m) => match &**m {
                Numeral::Successor(k) => {
                    proof {
                        assert(wf(**m));
                        assert(wf(**k));
                        assert(size(*self) == 1 + size(**m));
                        assert(size(**m) == 1 + size(**k));
                    }
                    let reduced = match &**k {
                        Numeral::Zero => Numeral::Zero,
                        _ => Numeral::Negative(Box::new((**k).clone())),
                    };
                    proof {
                        lemma_wf_sign(**k);
                        assert(wf(reduced));
                        assert(to_int(reduced) == -to_int(**k));
                        assert(size(reduced) <= 1 + size(**k));
                        assert(to_int(**m) == to_int(**k) + 1);
                        assert(to_int(*self) == -to_int(**m));
                        assert(to_int(*self) == to_int(reduced) - 1);
                    }
                    let rest = reduced.peano_add(other);
                    proof {
                        lemma_from_int_wf(to_int(reduced) + to_int(*other));
                        lemma_to_int_from_int(to_int(reduced) + to_int(*other));
                    }
                    decrement(&rest)
                },
                _ => {
                    proof {
                        assert(false);
                    }
                    Numeral::Zero
                },
            },
        }
    }
}

/// Order on the non-negative numerals. Negative operands are outside the
/// domain; `less_than_checked` reports them as a domain error instead.
pub trait PeanoLT {
    /// The inputs on which the comparison is defined: both sides well formed
    /// and non-negative.
    spec fn lt_ok(&self, other: &Numeral) -> bool;

    fn peano_lt(&self, other: &Numeral) -> (r: Boolean)
        requires
            self.lt_ok(other),
    ;
}

impl PeanoLT for Numeral {
    open spec fn lt_ok(&self, other: &Numeral) -> bool {
        wf(*self) && wf(*other) && to_int(*self) >= 0 && to_int(*other) >= 0
    }

    fn peano_lt(&self, other: &Numeral) -> (r: Boolean)
        ensures
            r == spec_lt(*self, *other),
        decreases *self,
    {
        proof {
            lemma_wf_sign(*self);
            lemma_wf_sign(*other);
        }
        match (self, other) {
            (Numeral::Zero, Numeral::Successor(_)) => Boolean::True,
            (_, Numeral::Zero) => Boolean::False,
            (Numeral::Successor(n), Numeral::Successor(m)) => {
                proof {
                    assert(wf(**n) && wf(**m));
                    lemma_wf_sign(**n);
                    lemma_wf_sign(**m);
                }
                (**n).peano_lt(&**m)
            },
            _ => {
                proof {
                    assert(false);
                }
                Boolean::False
            },
        }
    }
}

/// `peano_lt` behind an eager domain check: a negative operand is reported as
/// a domain error, never silently defaulted.
pub fn less_than_checked(a: &Numeral, b: &Numeral) -> (r: Result<Boolean, CoreError>)
    requires
        wf(*a),
        wf(*b),
    ensures
        match r {
            Ok(v) => to_int(*a) >= 0 && to_int(*b) >= 0 && v == spec_lt(*a, *b),
            Err(e) => (to_int(*a) < 0 || to_int(*b) < 0) && e == CoreError::Domain,
        },
{
    proof {
        lemma_wf_sign(*a);
        lemma_wf_sign(*b);
    }
    match (a, b) {
        (Numeral::Negative(_), _) => Err(CoreError::Domain),
        (_, Numeral::Negative(_)) => Err(CoreError::Domain),
        _ => Ok(a.peano_lt(b)),
    }
}

/// Absolute difference on the non-negative numerals, by peeling matching
/// successors. Negative operands are outside the domain; `abs_diff_checked`
/// reports them as a domain error instead.
pub trait PeanoAbsDiff {
    /// The inputs on which the difference is defined: both sides well formed
    /// and non-negative.
    spec fn abs_diff_ok(&self, other: &Numeral) -> bool;

    fn peano_abs_diff(&self, other: &Numeral) -> (r: Numeral)
        requires
            self.abs_diff_ok(other),
    ;
}

impl PeanoAbsDiff for Numeral {
    open spec fn abs_diff_ok(&self, other: &Numeral) -> bool {
        wf(*self) && wf(*other) && to_int(*self) >= 0 && to_int(*other) >= 0
    }

    fn peano_abs_diff(&self, other: &Numeral) -> (r: Numeral)
        ensures
            r == spec_abs_diff(*self, *other),
        decreases *self,
    {
        proof {
            lemma_wf_sign(*self);
            lemma_wf_sign(*other);
            lemma_canonical(*self);
            lemma_canonical(*other);
        }
        match (self, other) {
            (Numeral::Zero, _) => other.clone(),
            (_, Numeral::Zero) => self.clone(),
            (Numeral::Successor(n), Numeral::Successor(m)) => {
                proof {
                    assert(wf(**n) && wf(**m));
                    lemma_wf_sign(**n);
                    lemma_wf_sign(**m);
                }
                (**n).peano_abs_diff(&**m)
            },
            _ => {
                proof {
                    assert(false);
                }
                Numeral::Zero
            },
        }
    }
}

/// `peano_abs_diff` behind an eager domain check: a negative operand is
/// reported as a domain error, never silently defaulted.
pub fn abs_diff_checked(a: &Numeral, b: &Numeral) -> (r: Result<Numeral, CoreError>)
    requires
        wf(*a),
        wf(*b),
    ensures
        match r {
            Ok(v) => to_int(*a) >= 0 && to_int(*b) >= 0 && v == spec_abs_diff(*a, *b),
            Err(e) => (to_int(*a) < 0 || to_int(*b) < 0) && e == CoreError::Domain,
        },
{
    proof {
        lemma_wf_sign(*a);
        lemma_wf_sign(*b);
    }
    match (a, b) {
        (Numeral::Negative(_), _) => Err(CoreError::Domain),
        (_, Numeral::Negative(_)) => Err(CoreError::Domain),
        _ => Ok(a.peano_abs_diff(b)),
    }
}

/// What a numeral stands for, as a machine integer.
pub trait Number {
    /// The inputs on which the conversion is defined: well formed and small
    /// enough for the machine representation.
    spec fn value_ok(&self) -> bool;

    fn value(&self) -> i64
        requires
            self.value_ok(),
    ;
}

impl Number for Numeral {
    open spec fn value_ok(&self) -> bool {
        wf(*self) && -(i64::MAX as int) <= to_int(*self) <= i64::MAX as int
    }

    fn value(&self) -> (r: i64)
        ensures
            r as int == to_int(*self),
        decreases *self,
    {
        match self {
            Numeral::Zero => 0,
            Numeral::Successor(m) => {
                proof {
                    assert(wf(**m));
                    lemma_wf_sign(**m);
                }
                (**m).value() + 1
            },
            Numeral::Negative(m) => {
                proof {
                    assert(wf(**m));
                    lemma_wf_sign(**m);
                }
                -((**m).value())
            },
        }
    }
}

/// The descending sequence a non-negative numeral generates.
pub open spec fn range_seq(n: int) -> Seq<Numeral> {
    Seq::new((if n <= 0 { 0int } else { n }) as nat, |i: int| from_int(n - 1 - i))
}

/// The list counting down from one below a numeral to zero; it has as many
/// elements as the numeral stands for.
pub trait Range {
    /// The inputs on which the range is defined: well formed and
    /// non-negative.
    spec fn range_ok(&self) -> bool;

    fn range(&self) -> (r: List<Numeral>)
        requires
            self.range_ok(),
    ;
}

impl Range for Numeral {
    open spec fn range_ok(&self) -> bool {
        wf(*self) && to_int(*self) >= 0
    }

    fn range(&self) -> (r: List<Numeral>)
        ensures
            r@ == range_seq(to_int(*self)),
        decreases *self,
    {
        match self {
            Numeral::Zero => {
                let r = List::Nil;
                proof {
                    assert(r@ =~= range_seq(0));
                }
                r
            },
            Numeral::Successor(m) => {
                proof {
                    assert(wf(**m));
                    lemma_wf_sign(**m);
                    lemma_canonical(**m);
                }
                let tail = (**m).range();
                let r = List::Cons((**m).clone(), Box::new(tail));
                proof {
                    assert(r@ =~= range_seq(to_int(*self)));
                }
                r
            },
            Numeral::Negative(_) => {
                proof {
                    lemma_wf_sign(*self);
                    assert(false);
                }
                List::Nil
            },
        }
    }
}

/// The canonical numeral of a machine natural number.
pub fn numeral_of(k: u64) -> (r: Numeral)
    ensures
        r == from_int(k as int),
    decreases k,
{
    if k == 0 {
        Numeral::Zero
    } else {
        let m = numeral_of(k - 1);
        Numeral::Successor(Box::new(m))
    }
}

/// The canonical numeral of a machine integer.
pub fn numeral_of_int(v: i64) -> (r: Numeral)
    requires
        v > i64::MIN,
    ensures
        r == from_int(v as int),
{
    if v >= 0 {
        numeral_of(v as u64)
    } else {
        Numeral::Negative(Box::new(numeral_of((-v) as u64)))
    }
}

/// The range generator as a first-class function value.
pub struct RangeFn;

impl crate::functions::Function<Numeral, List<Numeral>> for RangeFn {
    open spec fn in_dom(&self, x: Numeral) -> bool {
        wf(x) && to_int(x) >= 0
    }

    open spec fn result_of(&self, x: Numeral) -> List<Numeral> {
        crate::lists::list_of(range_seq(to_int(x)))
    }

    fn apply(&self, x: &Numeral) -> (r: List<Numeral>) {
        let r = x.range();
        proof {
            crate::lists::lemma_list_of_seq_of(r);
        }
        r
    }
}

/// Arithmetic commutativity (law): for any two numerals, the canonical sums
/// taken in either order are the same numeral, so they compare equal.
pub proof fn lemma_add_commutative(a: Numeral, b: Numeral)
    ensures
        spec_add(a, b) == spec_add(b, a),
        spec_equal(spec_add(a, b), spec_add(b, a)) == Boolean::True,
{
    lemma_to_int_from_int(to_int(a) + to_int(b));
}

/// Symmetry of absolute difference (law): for any two numerals, the absolute
/// difference is the same numeral in either order, so the two compare equal.
pub proof fn lemma_abs_diff_symmetric(a: Numeral, b: Numeral)
    ensures
        spec_abs_diff(a, b) == spec_abs_diff(b, a),
        spec_equal(spec_abs_diff(a, b), spec_abs_diff(b, a)) == Boolean::True,
{
    lemma_to_int_from_int(abs_int(to_int(a) - to_int(b)));
}

} // verus!
