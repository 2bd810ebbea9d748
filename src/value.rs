//! The value held under a key: one of the replicated data types.

use vstd::prelude::*;
use crate::Merge;
use crate::aw_set::AWSet;
use crate::pn_counter::PNCounter;

verus! {

/// A replicated value: a counter or a tag set.
#[derive(Clone, Debug)]
pub enum CRDTValue {
    Counter(PNCounter),
    ASet(AWSet),
}

/// Another name for [`CRDTValue`].
pub type CrdtValue = CRDTValue;

/// What merging an incoming value into a stored one did.
#[derive(PartialEq, Eq, Structural, Debug, Clone, Copy)]
pub enum MergeOutcome {
    /// The key was absent; the incoming value was stored as it came.
    Inserted,
    /// The incoming value was merged into the stored one.
    Merged,
    /// The stored value is of another type; it was left as it was.
    Mismatch,
    /// The merged counter's totals would not fit in `u64`; the stored value
    /// was left as it was.
    Overflow,
}

impl CRDTValue {
    /// The invariant of the value's own type.
    pub open spec fn well_formed(&self) -> bool {
        match self {
            CRDTValue::Counter(c) => c.well_formed(),
            CRDTValue::ASet(s) => s.well_formed(),
        }
    }

    /// Both values are of one type and have the same view.
    pub open spec fn same_as(&self, other: &CRDTValue) -> bool {
        match (self, other) {
            (CRDTValue::Counter(a), CRDTValue::Counter(b)) => a@ == b@,
            (CRDTValue::ASet(a), CRDTValue::ASet(b)) => a@ == b@,
            _ => false,
        }
    }

    /// A copy of this value.
    pub fn duplicate(&self) -> (r: CRDTValue)
        ensures
            r.same_as(self),
            r.well_formed() == self.well_formed(),
    {
        match self {
            CRDTValue::Counter(c) => CRDTValue::Counter(c.duplicate()),
            CRDTValue::ASet(s) => CRDTValue::ASet(s.duplicate()),
        }
    }

    /// Whether this value is a counter.
    pub fn is_counter(&self) -> (r: bool)
        ensures
            r == (self is Counter),
    {
        match self {
            CRDTValue::Counter(_) => true,
            CRDTValue::ASet(_) => false,
        }
    }
}

/// The outcome and the stored value after `incoming` has been merged into
/// `cur`: values of one type are joined, those of different types are not.
pub open spec fn merged_value(
    cur: CRDTValue,
    incoming: CRDTValue,
    after: CRDTValue,
    outcome: MergeOutcome,
) -> bool {
    match (cur, incoming) {
        (CRDTValue::Counter(a), CRDTValue::Counter(b)) => if a.fits_with(&b) {
            &&& outcome == MergeOutcome::Merged
            &&& after is Counter
            &&& after->Counter_0@ == PNCounter::join(a@, b@)
        } else {
            &&& outcome == MergeOutcome::Overflow
            &&& after == cur
        },
        (CRDTValue::ASet(a), CRDTValue::ASet(b)) => {
            &&& outcome == MergeOutcome::Merged
            &&& after is ASet
            &&& after->ASet_0@ == AWSet::join(a@, b@)
        },
        _ => {
            &&& outcome == MergeOutcome::Mismatch
            &&& after == cur
        },
    }
}

/// Merges `incoming` into `cur` where both are of one type.
pub fn merge_values(cur: CRDTValue, incoming: &CRDTValue) -> (r: (CRDTValue, MergeOutcome))
    requires
        cur.well_formed(),
        incoming.well_formed(),
    ensures
        r.0.well_formed(),
        merged_value(cur, *incoming, r.0, r.1),
{
    match cur {
        CRDTValue::Counter(mut a) => match incoming {
            CRDTValue::Counter(b) => {
                if a.try_merge(b) {
                    (CRDTValue::Counter(a), MergeOutcome::Merged)
                } else {
                    (CRDTValue::Counter(a), MergeOutcome::Overflow)
                }
            },
            CRDTValue::ASet(_) => (CRDTValue::Counter(a), MergeOutcome::Mismatch),
        },
        CRDTValue::ASet(mut a) => match incoming {
            CRDTValue::ASet(b) => {
                a.merge(b);
                (CRDTValue::ASet(a), MergeOutcome::Merged)
            },
            CRDTValue::Counter(_) => (CRDTValue::ASet(a), MergeOutcome::Mismatch),
        },
    }
}

} // verus!
