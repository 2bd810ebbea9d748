//! A replicated key-value store whose values are conflict-free replicated
//! data types: a per-origin PN-counter and an add-wins tag set.

pub mod keyed;
pub mod tally;
pub mod pn_counter;
pub mod versions;
pub mod aw_set;
pub mod value;
pub mod store;
pub mod codec;
pub mod server;
pub mod gossip;
pub mod config;

use vstd::prelude::*;

verus! {


/// A replicated value that absorbs the state of another replica of itself.
///
/// Merging is a join on the views: it is idempotent, commutative and
/// associative (see the laws beside each implementation).
pub trait Merge: View + Sized {
    /// The view after `b` has been merged into `a`.
    spec fn join(a: Self::V, b: Self::V) -> Self::V;

    /// The internal invariant of a replica.
    spec fn well_formed(&self) -> bool;

    /// Whether the merged state is representable.
    spec fn fits_with(&self, other: &Self) -> bool;

    /// Merges the state of `other` into `self`.
    fn merge(&mut self, other: &Self)
        requires
            old(self).well_formed(),
            other.well_formed(),
            old(self).fits_with(other),
        ensures
            final(self).well_formed(),
            final(self)@ == Self::join(old(self)@, other@),
    ;
}

} // verus!
