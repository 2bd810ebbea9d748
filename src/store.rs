//! The replicated store: a map from keys to replicated values, held in a
//! sharded concurrent map.

use vstd::prelude::*;
use dashmap::DashMap;
use crate::value::{merged_value, merge_values, CRDTValue, MergeOutcome};

verus! {

#[verifier::external_type_specification]
#[verifier::external_body]
#[verifier::reject_recursive_types(K)]
#[verifier::reject_recursive_types(V)]
#[verifier::reject_recursive_types(S)]
pub struct ExDashMap<K, V, S>(DashMap<K, V, S>);

/// What a `DashMap` of the store holds, by key.
pub uninterp spec fn map_entries(m: DashMap<String, CRDTValue>) -> Map<Seq<char>, CRDTValue>;

/// Relies on `DashMap::new`: a map with no entries.
#[verifier::external_body]
fn map_new() -> (r: DashMap<String, CRDTValue>)
    ensures
        map_entries(r).dom().is_empty(),
{
    DashMap::new()
}

/// Relies on `DashMap::insert`: the key now maps to the value, replacing any
/// earlier one.
#[verifier::external_body]
fn map_insert(m: &mut DashMap<String, CRDTValue>, key: String, value: CRDTValue)
    ensures
        map_entries(*final(m)) == map_entries(*old(m)).insert(key@, value),
{
    m.insert(key, value);
}

/// Relies on `DashMap::remove`: takes the key's entry out, handing back its
/// value, or `None` where the key is absent.
#[verifier::external_body]
fn map_remove(m: &mut DashMap<String, CRDTValue>, key: &String) -> (r: Option<CRDTValue>)
    ensures
        map_entries(*final(m)) == map_entries(*old(m)).remove(key@),
        match r {
            Some(v) => map_entries(*old(m)).contains_key(key@) && v == map_entries(*old(m))[key@],
            None => !map_entries(*old(m)).contains_key(key@),
        },
{
    m.remove(key).map(|(_, v)| v)
}

/// Relies on `DashMap::iter`: every key once, in an order that is not
/// specified.
#[verifier::external_body]
fn map_keys(m: &DashMap<String, CRDTValue>) -> (r: Vec<String>)
    ensures
        forall|t: Seq<char>|
            map_entries(*m).contains_key(t) <==> exists|j: int| 0 <= j < r@.len() && r@[j]@ == t,
        forall|i: int, j: int| 0 <= i < j < r@.len() ==> r@[i]@ != r@[j]@,
{
    m.iter().map(|e| e.key().clone()).collect()
}

/// The store went from `s0` to `s1` by merging `incoming` under `key`,
/// with `outcome` reported.
pub open spec fn merge_in_effect(
    s0: Map<Seq<char>, CRDTValue>,
    s1: Map<Seq<char>, CRDTValue>,
    key: Seq<char>,
    incoming: CRDTValue,
    outcome: MergeOutcome,
) -> bool {
    &&& s1.dom() == s0.dom().insert(key)
    &&& forall|k: Seq<char>| k != key && #[trigger] s0.contains_key(k) ==> s1[k] == s0[k]
    &&& !s0.contains_key(key) ==> outcome == MergeOutcome::Inserted && s1[key] == incoming
    &&& s0.contains_key(key) ==> merged_value(s0[key], incoming, s1[key], outcome)
}

/// A map from keys to replicated values.
pub struct ReplicatedStore {
    map: DashMap<String, CRDTValue>,
}

impl View for ReplicatedStore {
    type V = Map<Seq<char>, CRDTValue>;

    closed spec fn view(&self) -> Map<Seq<char>, CRDTValue> {
        map_entries(self.map)
    }
}

impl ReplicatedStore {
    /// Every stored value satisfies the invariant of its type.
    pub open spec fn well_formed(&self) -> bool {
        forall|k: Seq<char>| #[trigger] self@.contains_key(k) ==> self@[k].well_formed()
    }

    /// An empty store.
    pub fn new() -> (r: ReplicatedStore)
        ensures
            r@.dom().is_empty(),
            r.well_formed(),
    {
        ReplicatedStore { map: map_new() }
    }

    /// Stores `value` under `key`, replacing what was there.
    pub fn write(&mut self, key: String, value: CRDTValue)
        requires
            old(self).well_formed(),
            value.well_formed(),
        ensures
            final(self).well_formed(),
            final(self)@ == old(self)@.insert(key@, value),
    {
        map_insert(&mut self.map, key, value);
    }

    /// A copy of the value under `key`, or `None` where there is none.
    pub fn read(&mut self, key: &String) -> (r: Option<CRDTValue>)
        requires
            old(self).well_formed(),
        ensures
            final(self).well_formed(),
            final(self)@ == old(self)@,
            match r {
                Some(v) => old(self)@.contains_key(key@) && v.same_as(&old(self)@[key@])
                    && v.well_formed(),
                None => !old(self)@.contains_key(key@),
            },
    {
        match map_remove(&mut self.map, key) {
            None => {
                assert(self@ =~= old(self)@);
                None
            },
            Some(v) => {
                let copy = v.duplicate();
                map_insert(&mut self.map, key.clone(), v);
                assert(self@ =~= old(self)@);
                Some(copy)
            },
        }
    }

    /// Merges `incoming` into the value under `key`, or stores it where the
    /// key is absent. A value of another type is left as it was.
    pub fn merge_in(&mut self, key: String, incoming: CRDTValue) -> (r: MergeOutcome)
        requires
            old(self).well_formed(),
            incoming.well_formed(),
        ensures
            final(self).well_formed(),
            merge_in_effect(old(self)@, final(self)@, key@, incoming, r),
    {
        match map_remove(&mut self.map, &key) {
            None => {
                map_insert(&mut self.map, key, incoming);
                proof {
                    assert(self@.dom() =~= old(self)@.dom().insert(key@));
                }
                MergeOutcome::Inserted
            },
            Some(cur) => {
                assert(old(self)@.contains_key(key@));
                let (after, outcome) = merge_values(cur, &incoming);
                map_insert(&mut self.map, key, after);
                proof {
                    assert(self@.dom() =~= old(self)@.dom().insert(key@));
                }
                outcome
            },
        }
    }

    /// Every key in the store, each once.
    pub fn keys(&self) -> (r: Vec<String>)
        ensures
            forall|t: Seq<char>| self@.contains_key(t) <==> exists|j: int| 0 <= j < r@.len() && r@[j]@ == t,
            forall|i: int, j: int| 0 <= i < j < r@.len() ==> r@[i]@ != r@[j]@,
    {
        map_keys(&self.map)
    }
}

} // verus!
