//! Ordering by recency.
use std::cmp::Ordering;

use vstd::prelude::*;

verus! {

/// Orders values by how new they are.
pub trait Compare {
    /// The order that `compare` computes.
    spec fn compare_spec(&self, comparing_to: &Self) -> Ordering;

    /// `Greater` when `self` is newer, `Less` when it is older, `Equal` when
    /// neither is.
    fn compare(&self, comparing_to: &Self) -> (r: Ordering)
        ensures
            r == self.compare_spec(comparing_to),
    ;
}

} // verus!
