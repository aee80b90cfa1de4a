//! Immutable singly-linked lists and their primitive operations.

use vstd::prelude::*;

use crate::errors::CoreError;

verus! {

/// A persistent list: empty, or a head element followed by a tail. Order is
/// significant and preserved by every operation unless stated otherwise.
#[derive(Debug, PartialEq, Eq)]
pub enum List<T> {
    Nil,
    Cons(T, Box<List<T>>),
}

/// The mathematical sequence a list stands for.
pub open spec fn seq_of<T>(l: List<T>) -> Seq<T>
    decreases l,
{
    match l {
        List::Nil => Seq::empty(),
        List::Cons(h, t) => seq![h] + seq_of(*t),
    }
}

impl<T> View for List<T> {
    type V = Seq<T>;

    open spec fn view(&self) -> Seq<T> {
        seq_of(*self)
    }
}

/// The sequence of all elements of a sequence of lists, in order.
pub open spec fn flatten_views<T>(ls: Seq<List<T>>) -> Seq<T>
    decreases ls.len(),
{
    if ls.len() == 0 {
        Seq::empty()
    } else {
        ls.first()@ + flatten_views(ls.drop_first())
    }
}

/// The list a mathematical sequence stands for: the inverse of `seq_of`.
pub open spec fn list_of<T>(s: Seq<T>) -> List<T>
    decreases s.len(),
{
    if s.len() == 0 {
        List::Nil
    } else {
        List::Cons(s.first(), Box::new(list_of(s.drop_first())))
    }
}

/// `list_of` inverts `seq_of`: a list is the list of its own sequence.
pub proof fn lemma_list_of_seq_of<T>(l: List<T>)
    ensures
        list_of(seq_of(l)) == l,
    decreases l,
{
    match l {
        List::Nil => {
            assert(seq_of(l) =~= Seq::<T>::empty());
        },
        List::Cons(h, t) => {
            lemma_list_of_seq_of(*t);
            assert(seq_of(l).len() > 0);
            assert(seq_of(l).first() == h);
            assert(seq_of(l).drop_first() =~= seq_of(*t));
        },
    }
}

/// `seq_of` inverts `list_of`: a sequence is the sequence of its own list.
pub proof fn lemma_seq_of_list_of<T>(s: Seq<T>)
    ensures
        seq_of(list_of(s)) == s,
    decreases s.len(),
{
    if s.len() == 0 {
        assert(seq_of(list_of(s)) =~= s);
    } else {
        lemma_seq_of_list_of(s.drop_first());
        assert(seq_of(list_of(s)) =~= s);
    }
}

/// The sequence of one-element lists over a sequence of elements.
pub open spec fn singletons_of<T>(s: Seq<T>) -> Seq<List<T>> {
    Seq::new(s.len(), |i: int| List::Cons(s[i], Box::new(List::Nil)))
}

/// List law: concatenating all one-element lists of a sequence gives the
/// sequence back.
pub proof fn lemma_flatten_singletons<T>(s: Seq<T>)
    ensures
        flatten_views(singletons_of(s)) == s,
    decreases s.len(),
{
    if s.len() == 0 {
        assert(flatten_views(singletons_of(s)) =~= s);
    } else {
        lemma_flatten_singletons(s.drop_first());
        let sl = singletons_of(s);
        assert(sl.first() == List::Cons(s.first(), Box::new(List::<T>::Nil)));
        assert(seq_of(List::<T>::Nil) =~= Seq::<T>::empty());
        assert(sl.first()@ =~= seq![s.first()]);
        assert(sl.drop_first() =~= singletons_of(s.drop_first()));
        assert(flatten_views(singletons_of(s)) =~= s);
    }
}

impl<T> List<T> {
    /// How many elements the list holds.
    pub fn length(&self) -> (r: usize)
        requires
            self@.len() <= usize::MAX,
        ensures
            r == self@.len(),
        decreases *self,
    {
        match self {
            List::Nil => 0,
            List::Cons(_, t) => 1 + t.length(),
        }
    }
}

/// Access to the head element. Asking an empty list for its head is an
/// explicit, reportable failure rather than a silent sentinel.
pub trait First<T> {
    fn first(&self) -> Result<&T, CoreError>;
}

impl<T> First<T> for List<T> {
    fn first(&self) -> (r: Result<&T, CoreError>)
        ensures
            match r {
                Ok(x) => self@.len() > 0 && *x == self@[0],
                Err(e) => self@.len() == 0 && e == CoreError::EmptyListAccess,
            },
    {
        match self {
            List::Nil => Err(CoreError::EmptyListAccess),
            List::Cons(h, _) => Ok(h),
        }
    }
}

/// Appending one list to another.
pub trait ListConcat: Sized {
    fn concat(self, other: Self) -> Self;
}

impl<T> ListConcat for List<T> {
    fn concat(self, other: List<T>) -> (r: List<T>)
        ensures
            r@ == self@ + other@,
        decreases self,
    {
        match self {
            List::Nil => {
                proof {
                    assert(self@ + other@ =~= other@);
                }
                other
            },
            List::Cons(h, t) => {
                let rest = (*t).concat(other);
                let r = List::Cons(h, Box::new(rest));
                proof {
                    assert(r@ =~= self@ + other@);
                }
                r
            },
        }
    }
}

/// One-level flattening: every list in a list of lists, concatenated in
/// order.
pub trait ListConcatAll<T> {
    fn concat_all(self) -> List<T>;
}

impl<T> ListConcatAll<T> for List<List<T>> {
    fn concat_all(self) -> (r: List<T>)
        ensures
            r@ == flatten_views(self@),
        decreases self,
    {
        match self {
            List::Nil => List::Nil,
            List::Cons(h, t) => {
                let rest = (*t).concat_all();
                proof {
                    assert(self@.drop_first() =~= t@);
                    assert(self@.first() == h);
                }
                h.concat(rest)
            },
        }
    }
}

} // verus!
