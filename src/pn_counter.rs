//! A PN-counter that records increments and decrements per originating node.

use vstd::prelude::*;
use crate::Merge;
use crate::keyed::{as_map, distinct_keys, keys_distinct, lemma_as_map_finite};
use crate::tally::{
    bump, copy_tally, join_into, join_max, lemma_map_sum_nonneg, lemma_seq_total, map_sum,
    recorded, seq_total, tally_sum, lemma_join_max_laws, lemma_map_sum_le,
    lemma_map_sum_join_disjoint,
};

verus! {

/// The logical value of a counter view: increments minus decrements.
pub open spec fn counter_value(v: (Map<Seq<char>, u64>, Map<Seq<char>, u64>)) -> int {
    map_sum(v.0) - map_sum(v.1)
}

/// A counter whose state is, for every originating node, the total of its
/// increments and the total of its decrements.
#[derive(Clone, Debug)]
pub struct PNCounter {
    p: Vec<(String, u64)>,
    n: Vec<(String, u64)>,
}

impl View for PNCounter {
    /// Increments and decrements, each by origin.
    type V = (Map<Seq<char>, u64>, Map<Seq<char>, u64>);

    closed spec fn view(&self) -> Self::V {
        (as_map(self.p@), as_map(self.n@))
    }
}

impl PNCounter {
    /// The sum of all increments minus the sum of all decrements.
    pub open spec fn value_spec(&self) -> int {
        counter_value(self@)
    }

    /// A counter in which `node_id` alone has recorded `p` increments and
    /// `n` decrements.
    pub fn new(node_id: &String, p: u64, n: u64) -> (r: PNCounter)
        ensures
            r.well_formed(),
            r@.0 == Map::<Seq<char>, u64>::empty().insert(node_id@, p),
            r@.1 == Map::<Seq<char>, u64>::empty().insert(node_id@, n),
    {
        let mut pv: Vec<(String, u64)> = Vec::new();
        pv.push((node_id.clone(), p));
        let mut nv: Vec<(String, u64)> = Vec::new();
        nv.push((node_id.clone(), n));
        let r = PNCounter { p: pv, n: nv };
        proof {
            let e = Seq::<(String, u64)>::empty();
            assert(r.p@.drop_last() =~= e);
            assert(r.n@.drop_last() =~= e);
            assert(as_map(e) == Map::<Seq<char>, u64>::empty());
            assert(seq_total(e) == 0);
            assert(seq_total(r.p@) == p);
            assert(seq_total(r.n@) == n);
            lemma_seq_total(r.p@);
            lemma_seq_total(r.n@);
        }
        r
    }

    /// A counter with the given per-origin increments and decrements, where
    /// no origin appears twice in either list and both totals fit in `u64`;
    /// `None` otherwise.
    pub fn from_tallies(p: Vec<(String, u64)>, n: Vec<(String, u64)>) -> (r: Option<PNCounter>)
        ensures
            match r {
                Some(c) => {
                    &&& c.well_formed()
                    &&& distinct_keys(p@) && distinct_keys(n@)
                    &&& c@ == (as_map(p@), as_map(n@))
                },
                None => !(distinct_keys(p@) && distinct_keys(n@) && map_sum(as_map(p@)) <= u64::MAX
                    && map_sum(as_map(n@)) <= u64::MAX),
            },
    {
        if !keys_distinct(&p) || !keys_distinct(&n) {
            return None;
        }
        proof {
            lemma_seq_total(p@);
            lemma_seq_total(n@);
        }
        match (tally_sum(&p), tally_sum(&n)) {
            (Some(_), Some(_)) => Some(PNCounter { p, n }),
            _ => None,
        }
    }

    /// Records one increment by `node_id`.
    pub fn increment(&mut self, node_id: &String)
        requires
            old(self).well_formed(),
            map_sum(old(self)@.0) < u64::MAX,
        ensures
            final(self).well_formed(),
            final(self)@.0 == old(self)@.0.insert(node_id@, (recorded(old(self)@.0, node_id@) + 1) as u64),
            final(self)@.1 == old(self)@.1,
            final(self).value_spec() == old(self).value_spec() + 1,
    {
        bump(&mut self.p, node_id, 1);
    }

    /// Records one decrement by `node_id`.
    pub fn decrement(&mut self, node_id: &String)
        requires
            old(self).well_formed(),
            map_sum(old(self)@.1) < u64::MAX,
        ensures
            final(self).well_formed(),
            final(self)@.0 == old(self)@.0,
            final(self)@.1 == old(self)@.1.insert(node_id@, (recorded(old(self)@.1, node_id@) + 1) as u64),
            final(self).value_spec() == old(self).value_spec() - 1,
    {
        bump(&mut self.n, node_id, 1);
    }

    /// Records `amount` increments by `node_id`, where the total of all
    /// increments stays within `u64`; returns whether it did.
    pub fn increment_by(&mut self, node_id: &String, amount: u64) -> (ok: bool)
        requires
            old(self).well_formed(),
        ensures
            final(self).well_formed(),
            ok == (map_sum(old(self)@.0) + amount <= u64::MAX),
            ok ==> final(self)@.0 == old(self)@.0.insert(
                node_id@,
                (recorded(old(self)@.0, node_id@) + amount) as u64,
            ),
            ok ==> final(self).value_spec() == old(self).value_spec() + amount,
            !ok ==> final(self)@.0 == old(self)@.0,
            final(self)@.1 == old(self)@.1,
    {
        let total = tally_sum(&self.p);
        proof {
            lemma_seq_total(self.p@);
        }
        match total {
            Some(t) => {
                if t <= u64::MAX - amount {
                    bump(&mut self.p, node_id, amount);
                    true
                } else {
                    false
                }
            },
            None => false,
        }
    }

    /// Records `amount` decrements by `node_id`, where the total of all
    /// decrements stays within `u64`; returns whether it did.
    pub fn decrement_by(&mut self, node_id: &String, amount: u64) -> (ok: bool)
        requires
            old(self).well_formed(),
        ensures
            final(self).well_formed(),
            ok == (map_sum(old(self)@.1) + amount <= u64::MAX),
            ok ==> final(self)@.1 == old(self)@.1.insert(
                node_id@,
                (recorded(old(self)@.1, node_id@) + amount) as u64,
            ),
            ok ==> final(self).value_spec() == old(self).value_spec() - amount,
            !ok ==> final(self)@.1 == old(self)@.1,
            final(self)@.0 == old(self)@.0,
    {
        let total = tally_sum(&self.n);
        proof {
            lemma_seq_total(self.n@);
        }
        match total {
            Some(t) => {
                if t <= u64::MAX - amount {
                    bump(&mut self.n, node_id, amount);
                    true
                } else {
                    false
                }
            },
            None => false,
        }
    }

    /// The sum of all increments minus the sum of all decrements.
    pub fn value(&self) -> (r: i128)
        requires
            self.well_formed(),
        ensures
            r == self.value_spec(),
    {
        proof {
            lemma_seq_total(self.p@);
            lemma_seq_total(self.n@);
        }
        let p = tally_sum(&self.p);
        let n = tally_sum(&self.n);
        match (p, n) {
            (Some(p), Some(n)) => p as i128 - n as i128,
            _ => 0,
        }
    }

    /// Merges `other` in where the merged totals fit in `u64`; otherwise
    /// leaves `self` as it was. Returns whether it merged.
    pub fn try_merge(&mut self, other: &PNCounter) -> (ok: bool)
        requires
            old(self).well_formed(),
            other.well_formed(),
        ensures
            final(self).well_formed(),
            ok == old(self).fits_with(other),
            ok ==> final(self)@ == Self::join(old(self)@, other@),
            !ok ==> *final(self) == *old(self),
    {
        let mut p = copy_tally(&self.p);
        let mut n = copy_tally(&self.n);
        join_into(&mut p, &other.p);
        join_into(&mut n, &other.n);
        proof {
            lemma_seq_total(p@);
            lemma_seq_total(n@);
        }
        match (tally_sum(&p), tally_sum(&n)) {
            (Some(_), Some(_)) => {
                self.p = p;
                self.n = n;
                true
            },
            _ => false,
        }
    }

    /// A copy of this counter.
    pub fn duplicate(&self) -> (r: PNCounter)
        ensures
            r@ == self@,
            r.well_formed() == self.well_formed(),
    {
        PNCounter { p: copy_tally(&self.p), n: copy_tally(&self.n) }
    }

    /// The increments, one entry per origin.
    pub fn increments(&self) -> (r: Vec<(String, u64)>)
        ensures
            distinct_keys(r@) ==> as_map(r@) == self@.0,
            self.well_formed() ==> distinct_keys(r@),
    {
        copy_tally(&self.p)
    }

    /// The decrements, one entry per origin.
    pub fn decrements(&self) -> (r: Vec<(String, u64)>)
        ensures
            distinct_keys(r@) ==> as_map(r@) == self@.1,
            self.well_formed() ==> distinct_keys(r@),
    {
        copy_tally(&self.n)
    }
}

impl Merge for PNCounter {
    open spec fn join(a: Self::V, b: Self::V) -> Self::V {
        (join_max(a.0, b.0), join_max(a.1, b.1))
    }

    closed spec fn well_formed(&self) -> bool {
        &&& distinct_keys(self.p@)
        &&& distinct_keys(self.n@)
        &&& map_sum(as_map(self.p@)) <= u64::MAX
        &&& map_sum(as_map(self.n@)) <= u64::MAX
    }

    open spec fn fits_with(&self, other: &Self) -> bool {
        &&& map_sum(Self::join(self@, other@).0) <= u64::MAX
        &&& map_sum(Self::join(self@, other@).1) <= u64::MAX
    }

    fn merge(&mut self, other: &PNCounter) {
        join_into(&mut self.p, &other.p);
        join_into(&mut self.n, &other.n);
    }
}

/// The maps of a well-formed counter are finite.
proof fn lemma_counter_finite(a: &PNCounter)
    requires
        a.well_formed(),
    ensures
        a@.0.dom().finite(),
        a@.1.dom().finite(),
{
    lemma_as_map_finite(a.p@);
    lemma_as_map_finite(a.n@);
}

/// Merging a counter with a copy of itself changes nothing.
pub proof fn lemma_counter_merge_idempotent(a: &PNCounter)
    ensures
        PNCounter::join(a@, a@) == a@,
        counter_value(PNCounter::join(a@, a@)) == a.value_spec(),
{
    lemma_join_max_laws(a@.0, a@.0, a@.0);
    lemma_join_max_laws(a@.1, a@.1, a@.1);
}

/// The order in which two counters are merged does not matter.
pub proof fn lemma_counter_merge_commutative(a: &PNCounter, b: &PNCounter)
    ensures
        PNCounter::join(a@, b@) == PNCounter::join(b@, a@),
        counter_value(PNCounter::join(a@, b@)) == counter_value(PNCounter::join(b@, a@)),
{
    lemma_join_max_laws(a@.0, b@.0, b@.0);
    lemma_join_max_laws(a@.1, b@.1, b@.1);
}

/// The grouping in which three counters are merged does not matter.
pub proof fn lemma_counter_merge_associative(a: &PNCounter, b: &PNCounter, c: &PNCounter)
    ensures
        PNCounter::join(PNCounter::join(a@, b@), c@) == PNCounter::join(a@, PNCounter::join(b@, c@)),
        counter_value(PNCounter::join(PNCounter::join(a@, b@), c@)) == counter_value(
            PNCounter::join(a@, PNCounter::join(b@, c@)),
        ),
{
    lemma_join_max_laws(a@.0, b@.0, c@.0);
    lemma_join_max_laws(a@.1, b@.1, c@.1);
}

/// A merge never lowers the total of increments nor that of decrements, and
/// never lowers the value where `b` has recorded no more decrements than `a`
/// for any origin.
pub proof fn lemma_counter_merge_monotone(a: &PNCounter, b: &PNCounter)
    requires
        a.well_formed(),
        b.well_formed(),
    ensures
        map_sum(PNCounter::join(a@, b@).0) >= map_sum(a@.0),
        map_sum(PNCounter::join(a@, b@).1) >= map_sum(a@.1),
        (forall|k: Seq<char>| b@.1.contains_key(k) ==> a@.1.contains_key(k) && b@.1[k] <= a@.1[k])
            ==> counter_value(PNCounter::join(a@, b@)) >= a.value_spec(),
{
    lemma_counter_finite(a);
    lemma_counter_finite(b);
    lemma_join_max_laws(a@.0, b@.0, b@.0);
    lemma_join_max_laws(a@.1, b@.1, b@.1);
    lemma_map_sum_le(a@.0, join_max(a@.0, b@.0));
    lemma_map_sum_le(a@.1, join_max(a@.1, b@.1));
    if forall|k: Seq<char>| b@.1.contains_key(k) ==> a@.1.contains_key(k) && b@.1[k] <= a@.1[k] {
        assert(join_max(a@.1, b@.1) =~= a@.1);
    }
}

/// Replicas whose origins are disjoint merge into the sum of their
/// contributions: the merged value is the increments of both minus the
/// decrements of both.
pub proof fn lemma_counter_merge_sums_origins(a: &PNCounter, b: &PNCounter)
    requires
        a.well_formed(),
        b.well_formed(),
        a@.0.dom().disjoint(b@.0.dom()),
        a@.1.dom().disjoint(b@.1.dom()),
    ensures
        map_sum(PNCounter::join(a@, b@).0) == map_sum(a@.0) + map_sum(b@.0),
        map_sum(PNCounter::join(a@, b@).1) == map_sum(a@.1) + map_sum(b@.1),
        counter_value(PNCounter::join(a@, b@)) == a.value_spec() + b.value_spec(),
{
    lemma_counter_finite(a);
    lemma_counter_finite(b);
    lemma_map_sum_join_disjoint(a@.0, b@.0);
    lemma_map_sum_join_disjoint(a@.1, b@.1);
}

} // verus!
