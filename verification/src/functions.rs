//! First-class total functions and the generic list combinators built on
//! them.
//!
//! A `Function` is a named mapping from input values to output values whose
//! meaning and domain are stated up front; invoking one outside its domain is
//! a precondition violation, never a silent default. A `Predicate` is any
//! `Function` whose result is a `Boolean`.

use vstd::prelude::*;

use crate::booleans::{lift_bool, Boolean};
use crate::lists::{List, ListConcatAll};
use crate::numbers::{decrement, from_int, increment, to_int, wf, Numeral};

verus! {

/// A named, total mapping from `T` to `U`: `in_dom` is the set of supported
/// input shapes, `result_of` the value produced for each of them, and `apply`
/// the executable mapping, exact with respect to `result_of`.
pub trait Function<T, U> {
    /// The input shapes this function has a case for.
    spec fn in_dom(&self, x: T) -> bool;

    /// The output value for each supported input.
    spec fn result_of(&self, x: T) -> U;

    fn apply(&self, x: &T) -> (r: U)
        requires
            self.in_dom(*x),
        ensures
            r == self.result_of(*x),
    ;
}

/// A function whose declared output is always `Boolean`. This is a derived
/// property, not separately authored: every `Function<T, Boolean>` is one.
pub trait Predicate<T>: Function<T, Boolean> {

}

impl<T, F: Function<T, Boolean>> Predicate<T> for F {

}

/// The sequence of results of a function over a sequence of inputs.
pub open spec fn map_spec<T, U, F: Function<T, U>>(f: F, l: Seq<T>) -> Seq<U> {
    Seq::new(l.len(), |i: int| f.result_of(l[i]))
}

/// The subsequence of inputs a predicate holds of, in their original order.
pub open spec fn filter_spec<T, F: Predicate<T>>(f: F, l: Seq<T>) -> Seq<T>
    decreases l.len(),
{
    if l.len() == 0 {
        Seq::empty()
    } else if f.result_of(l.first()) is True {
        seq![l.first()] + filter_spec(f, l.drop_first())
    } else {
        filter_spec(f, l.drop_first())
    }
}

/// Mapping a list-valued function over a sequence and flattening the results.
pub open spec fn flat_map_spec<T, U, F: Function<T, List<U>>>(f: F, l: Seq<T>) -> Seq<U> {
    crate::lists::flatten_views(map_spec(f, l))
}

/// `Map`: apply a function to every element, preserving length and order.
pub fn map_list<T, U, F: Function<T, U>>(f: &F, l: &List<T>) -> (r: List<U>)
    requires
        forall|i: int| 0 <= i < l@.len() ==> f.in_dom(#[trigger] l@[i]),
    ensures
        r@ == map_spec(*f, l@),
    decreases *l,
{
    match l {
        List::Nil => {
            let r: List<U> = List::Nil;
            proof {
                assert(r@ =~= map_spec(*f, l@));
            }
            r
        },
        List::Cons(h, t) => {
            proof {
                assert(l@[0] == *h);
                assert(forall|i: int| 0 <= i < t@.len() ==> t@[i] == l@[i + 1]);
            }
            let rh = f.apply(h);
            let rt = map_list(f, t);
            let r = List::Cons(rh, Box::new(rt));
            proof {
                assert(r@ =~= map_spec(*f, l@));
            }
            r
        },
    }
}

/// `Filter`: keep the elements the predicate holds of, preserving their
/// relative order.
pub fn filter_list<T, F: Predicate<T>>(f: &F, l: List<T>) -> (r: List<T>)
    requires
        forall|i: int| 0 <= i < l@.len() ==> f.in_dom(#[trigger] l@[i]),
    ensures
        r@ == filter_spec(*f, l@),
    decreases l,
{
    match l {
        List::Nil => {
            let r: List<T> = List::Nil;
            proof {
                assert(r@ =~= filter_spec(*f, l@));
            }
            r
        },
        List::Cons(h, t) => {
            proof {
                assert(l@[0] == h);
                assert(l@.first() == h);
                assert(l@.drop_first() =~= t@);
                assert(forall|i: int| 0 <= i < t@.len() ==> t@[i] == l@[i + 1]);
            }
            let keep = f.apply(&h);
            let rest = filter_list(f, *t);
            match keep {
                Boolean::True => {
                    let r = List::Cons(h, Box::new(rest));
                    proof {
                        assert(r@ =~= filter_spec(*f, l@));
                    }
                    r
                },
                Boolean::False => rest,
            }
        },
    }
}

/// `FlatMap`: `Map` with a list-valued function, then one-level flattening of
/// the results.
pub fn flat_map_list<T, U, F: Function<T, List<U>>>(f: &F, l: &List<T>) -> (r: List<U>)
    requires
        forall|i: int| 0 <= i < l@.len() ==> f.in_dom(#[trigger] l@[i]),
    ensures
        r@ == flat_map_spec(*f, l@),
{
    let mapped = map_list(f, l);
    mapped.concat_all()
}

/// Prepending an element exactly when a condition holds.
pub trait PrependIf<T>: Sized {
    fn prepend_if(self, cond: &Boolean, item: T) -> Self;
}

impl<T> PrependIf<T> for List<T> {
    fn prepend_if(self, cond: &Boolean, item: T) -> (r: List<T>)
        ensures
            r@ == (if *cond is True {
                seq![item] + self@
            } else {
                self@
            }),
    {
        match cond {
            Boolean::True => List::Cons(item, Box::new(self)),
            Boolean::False => self,
        }
    }
}

/// Whether any element of a list of truth values is `True`; equivalent to a
/// fold of `or`, and free to short-circuit since `or` is associative and
/// commutative.
pub trait AnyTrue {
    fn any_true(&self) -> Boolean;
}

impl AnyTrue for List<Boolean> {
    fn any_true(&self) -> (r: Boolean)
        ensures
            r == lift_bool(self@.contains(Boolean::True)),
        decreases *self,
    {
        match self {
            List::Nil => Boolean::False,
            List::Cons(h, t) => match h {
                Boolean::True => {
                    proof {
                        assert(self@[0] == Boolean::True);
                    }
                    Boolean::True
                },
                Boolean::False => {
                    let r = t.any_true();
                    proof {
                        assert(self@[0] == Boolean::False);
                        assert(self@.drop_first() =~= t@);
                        if t@.contains(Boolean::True) {
                            let i = choose|i: int|
                                0 <= i < t@.len() && t@[i] == Boolean::True;
                            assert(self@[i + 1] == Boolean::True);
                        } else if self@.contains(Boolean::True) {
                            let i = choose|i: int|
                                0 <= i < self@.len() && self@[i] == Boolean::True;
                            assert(i != 0);
                            assert(t@[i - 1] == Boolean::True);
                        }
                    }
                    r
                },
            },
        }
    }
}

/// The function that moves a numeral one step up, crossing the sign boundary
/// exactly: applied to minus one it yields zero.
pub struct Increment;

impl Function<Numeral, Numeral> for Increment {
    open spec fn in_dom(&self, x: Numeral) -> bool {
        wf(x)
    }

    open spec fn result_of(&self, x: Numeral) -> Numeral {
        from_int(to_int(x) + 1)
    }

    fn apply(&self, x: &Numeral) -> Numeral {
        increment(x)
    }
}

/// The function that moves a numeral one step down. Its signed behaviour is
/// exact on every input: decrementing zero yields minus one rather than the
/// unsigned distance from one, which would discard the sign.
pub struct Decrement;

impl Function<Numeral, Numeral> for Decrement {
    open spec fn in_dom(&self, x: Numeral) -> bool {
        wf(x)
    }

    open spec fn result_of(&self, x: Numeral) -> Numeral {
        from_int(to_int(x) - 1)
    }

    fn apply(&self, x: &Numeral) -> Numeral {
        decrement(x)
    }
}

/// The predicate that holds exactly of zero.
pub struct IsZero;

impl Function<Numeral, Boolean> for IsZero {
    open spec fn in_dom(&self, x: Numeral) -> bool {
        true
    }

    open spec fn result_of(&self, x: Numeral) -> Boolean {
        lift_bool(x is Zero)
    }

    fn apply(&self, x: &Numeral) -> Boolean {
        match x {
            Numeral::Zero => Boolean::True,
            _ => Boolean::False,
        }
    }
}

/// Length preservation (law): mapping a function over a list keeps its
/// length.
pub proof fn lemma_map_preserves_length<T, U, F: Function<T, U>>(f: F, l: Seq<T>)
    ensures
        map_spec(f, l).len() == l.len(),
{
}

/// Filtering with a predicate that holds everywhere (law): the list comes
/// back unchanged.
pub proof fn lemma_filter_always_true<T, F: Predicate<T>>(f: F, l: Seq<T>)
    requires
        forall|x: T| #[trigger] f.result_of(x) is True,
    ensures
        filter_spec(f, l) == l,
    decreases l.len(),
{
    if l.len() > 0 {
        lemma_filter_always_true(f, l.drop_first());
        assert(filter_spec(f, l) =~= l);
    } else {
        assert(filter_spec(f, l) =~= l);
    }
}

/// Filtering with a predicate that holds nowhere (law): the result is the
/// empty list.
pub proof fn lemma_filter_always_false<T, F: Predicate<T>>(f: F, l: Seq<T>)
    requires
        forall|x: T| #[trigger] f.result_of(x) is False,
    ensures
        filter_spec(f, l) == Seq::<T>::empty(),
    decreases l.len(),
{
    if l.len() > 0 {
        lemma_filter_always_false(f, l.drop_first());
        assert(f.result_of(l.first()) is False);
        assert(filter_spec(f, l) =~= Seq::<T>::empty());
    } else {
        assert(filter_spec(f, l) =~= Seq::<T>::empty());
    }
}

} // verus!
