//! Matching arrays by what they are.
use std::sync::Arc;

use vstd::prelude::*;

verus! {

/// What an array is made from.
#[derive(Debug, PartialEq, Eq)]
pub struct ArrayParts {
    /// The name of the array's encoding.
    pub encoding: String,
    pub len: usize,
}

/// An array that has been allocated, and can be held in many places.
#[derive(Debug, PartialEq, Eq)]
pub struct ArrayRef {
    pub parts: Arc<ArrayParts>,
}

/// The parent of an array: one that has been allocated, or the parts of one that has not.
#[derive(Debug)]
pub enum ParentRef<'a> {
    Array(&'a ArrayRef),
    Parts(&'a ArrayParts),
}

/// Trait for matching array types.
///
/// There are two ways in. [`matches`](Self::matches) and [`try_match`](Self::try_match) take a
/// [`ParentRef`], which can borrow an allocated array as well as the parts of one.
/// [`matches_ref`](Self::matches_ref) and [`try_match_ref`](Self::try_match_ref) take an
/// [`ArrayRef`], for callers that hold one already. The two ways have different match types: a
/// match on an allocated array may hand that array out, a match on a parent may not.
pub trait Matcher {
    type RefMatch<'a>;

    type ParentMatch<'a>;

    /// The parent is of the kind that this matcher is for. Each matcher has its own kind, so
    /// nothing is known of this unless the matcher says what it is.
    open spec fn accepts(parent: &ParentRef<'_>) -> bool {
        arbitrary()
    }

    /// The array is of the kind that this matcher is for. Nothing is known of this either
    /// unless the matcher says what it is.
    open spec fn accepts_ref(array: &ArrayRef) -> bool {
        arbitrary()
    }

    /// Whether the given parent matches. Unless an implementation has a cheaper way, this goes
    /// by [`try_match`](Self::try_match).
    fn matches(parent: &ParentRef<'_>) -> (r: bool)
        ensures
            r == Self::accepts(parent),
    {
        Self::try_match(parent).is_some()
    }

    /// The match on the given parent, which borrows from it, if there is one.
    fn try_match<'a>(parent: &'a ParentRef<'_>) -> (r: Option<Self::ParentMatch<'a>>)
        ensures
            r is Some <==> Self::accepts(parent),
    ;

    /// Whether the given array matches. Unless an implementation has a cheaper way, this goes
    /// by [`try_match_ref`](Self::try_match_ref).
    fn matches_ref(array: &ArrayRef) -> (r: bool)
        ensures
            r == Self::accepts_ref(array),
    {
        Self::try_match_ref(array).is_some()
    }

    /// The match on the given array, which borrows from it, if there is one.
    fn try_match_ref(array: &ArrayRef) -> (r: Option<Self::RefMatch<'_>>)
        ensures
            r is Some <==> Self::accepts_ref(array),
    ;
}

} // verus!
