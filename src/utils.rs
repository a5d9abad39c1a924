//! Combining two values of the same kind of state into one.

use vstd::prelude::*;

verus! {

/// Folding one value into another in place, consuming the one folded in.
pub trait Merge: Sized {
    /// What holds between the target before the fold, the value folded in,
    /// and the target after it.
    spec fn merged(before: Self, other: Self, after: Self) -> bool;

    /// Folds `other` into `self`.
    fn merge(&mut self, other: Self)
        ensures
            Self::merged(*old(self), other, *final(self)),
    ;
}

} // verus!
