use vstd::prelude::*;

verus! {

/// The failures the core can report. All of them are construction-time or
/// precondition violations: no external resource is involved, so there is no
/// retry or partial-failure path.
#[derive(Clone, Copy, Debug, PartialEq, Eq, Structural)]
pub enum CoreError {
    /// A function or predicate was invoked on an input shape it has no case
    /// for.
    Domain,
    /// An attempt to wrap `Zero` or another `Negative` in `Negative`, which
    /// would break the canonical encoding of numerals.
    MalformedNumeral,
    /// `first` was asked for the head of an empty list.
    EmptyListAccess,
}

} // verus!
