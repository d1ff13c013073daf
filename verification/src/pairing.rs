//! Positional pairing of two sequences, the longer one running on alone once
//! the shorter is exhausted.

use itertools::EitherOrBoth;
use itertools::Itertools;
use vstd::prelude::*;

verus! {

/// What two sequences hold at one position: an item of each, or an item of
/// the only one that reaches this far.
pub enum Paired<T> {
    Both(T, T),
    Left(T),
    Right(T),
}

/// The pairing of `left` and `right` at position `i`, for `i` below the
/// length of the longer one.
pub open spec fn paired_at<'a, T>(left: Seq<T>, right: Seq<T>, i: int) -> Paired<&'a T> {
    if i < left.len() && i < right.len() {
        Paired::Both(&left[i], &right[i])
    } else if i < left.len() {
        Paired::Left(&left[i])
    } else {
        Paired::Right(&right[i])
    }
}

/// The length of the longer of two sequences.
pub open spec fn longer_len<T>(left: Seq<T>, right: Seq<T>) -> nat {
    if left.len() >= right.len() {
        left.len()
    } else {
        right.len()
    }
}

/// Calls `Itertools::zip_longest` on the items of `left` and `right` and
/// collects what it yields. Trusted to yield, position by position, both items
/// while both sequences last, then the items of the longer one alone, and to
/// end when both are exhausted.
#[verifier::external_body]
pub(crate) fn zip_longest<'a, T>(left: &'a Vec<T>, right: &'a Vec<T>) -> (pairs: Vec<
    Paired<&'a T>,
>)
    ensures
        pairs@.len() == longer_len(left@, right@),
        forall|i: int| 0 <= i < pairs@.len() ==> pairs@[i] == paired_at(left@, right@, i),
{
    left.iter().zip_longest(right.iter()).map(
        |pair|
            match pair {
                EitherOrBoth::Both(l, r) => Paired::Both(l, r),
                EitherOrBoth::Left(l) => Paired::Left(l),
                EitherOrBoth::Right(r) => Paired::Right(r),
            },
    ).collect()
}

/// The characters of `text`, in order.
pub fn chars_of(text: &str) -> (chars: Vec<char>)
    ensures
        chars@ == text@,
{
    let mut chars: Vec<char> = Vec::new();
    let iter = text.chars();
    for c in it: iter
        invariant
            chars@ == it.seq().take(it.index()),
    {
        chars.push(c);
    }
    chars
}

} // verus!
