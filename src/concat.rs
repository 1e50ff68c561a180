//! Concatenation of text values.

use vstd::prelude::*;
use vstd::string::StringExecFns;

verus! {

/// A value that joins with another of its kind, end to end.
pub trait Addable: Sized {
    /// The characters a value holds.
    spec fn chars_of(&self) -> Seq<char>;

    /// Joins `self` and `right`: the characters of `self`, then those of `right`.
    fn add(self, right: Self) -> (r: Self)
        ensures
            r.chars_of() == self.chars_of() + right.chars_of(),
    ;
}

impl Addable for String {
    open spec fn chars_of(&self) -> Seq<char> {
        self@
    }

    fn add(self, right: String) -> (r: String) {
        let mut r = self;
        r.append(right.as_str());
        r
    }
}

/// Joins two values end to end.
pub fn __op_addadd<A: Addable>(left: A, right: A) -> (r: A)
    ensures
        r.chars_of() == left.chars_of() + right.chars_of(),
{
    A::add(left, right)
}

} // verus!
