//! An add-wins set of tags. Each tag's adds and removes carry version
//! numbers, so that a remove cancels only the add it observed.

use vstd::prelude::*;
use crate::Merge;
use crate::keyed::{
    as_map, distinct_keys, find_key, keys_distinct, lemma_as_map_dom, lemma_as_map_index, lemma_as_map_push,
    lemma_as_map_update,
};
use crate::versions::{
    all_ranges, copy_history, copy_versions, has_version, is_range, lemma_push_to_set, lemma_range_set,
    next_version, union_into, union_map, version_map, versions,
};

verus! {

/// A view of a tag set: per tag, the versions added and the versions removed.
pub type TagHistory = (Map<Seq<char>, Set<u64>>, Map<Seq<char>, Set<u64>>);

/// Some version of `t` has been added and not removed.
pub open spec fn live(v: TagHistory, t: Seq<char>) -> bool {
    exists|x: u64| versions(v.0, t).contains(x) && !versions(v.1, t).contains(x)
}

/// The tags visible in a tag set.
pub open spec fn current(v: TagHistory) -> Set<Seq<char>> {
    Set::new(|t: Seq<char>| live(v, t))
}

/// Every removed version of a tag is one of its added versions.
pub open spec fn removes_observed(v: TagHistory) -> bool {
    forall|t: Seq<char>| versions(v.1, t).subset_of(versions(v.0, t))
}

/// A set of tags that replicas can merge.
#[derive(Clone, Debug)]
pub struct AWSet {
    added: Vec<(String, Vec<u64>)>,
    removed: Vec<(String, Vec<u64>)>,
}

impl View for AWSet {
    type V = TagHistory;

    closed spec fn view(&self) -> TagHistory {
        (version_map(self.added@), version_map(self.removed@))
    }
}

impl AWSet {
    /// The tags visible in this set.
    pub open spec fn current_spec(&self) -> Set<Seq<char>> {
        current(self@)
    }

    /// A set with no tags and no history.
    pub fn new() -> (r: AWSet)
        ensures
            r.well_formed(),
            r@.0 == Map::<Seq<char>, Set<u64>>::empty(),
            r@.1 == Map::<Seq<char>, Set<u64>>::empty(),
    {
        let r = AWSet { added: Vec::new(), removed: Vec::new() };
        assert(r@.0 =~= Map::<Seq<char>, Set<u64>>::empty());
        assert(r@.1 =~= Map::<Seq<char>, Set<u64>>::empty());
        r
    }

    /// The position of `tag`'s history in `list`, with its version set.
    proof fn lemma_lookup(list: Seq<(String, Vec<u64>)>, i: int)
        requires
            distinct_keys(list),
            0 <= i < list.len(),
        ensures
            version_map(list).contains_key(list[i].0@),
            versions(version_map(list), list[i].0@) == list[i].1@.to_set(),
    {
        lemma_as_map_index(list, i);
    }

    proof fn lemma_absent(list: Seq<(String, Vec<u64>)>, t: Seq<char>)
        requires
            forall|i: int| 0 <= i < list.len() ==> list[i].0@ != t,
        ensures
            versions(version_map(list), t) == Set::<u64>::empty(),
    {
        lemma_as_map_dom(list, t);
    }

    /// Whether some version of `tag` has been added and not removed.
    pub fn contains(&self, tag: &String) -> (r: bool)
        requires
            self.well_formed(),
        ensures
            r == self.current_spec().contains(tag@),
    {
        match find_key(&self.added, tag) {
            None => {
                proof {
                    Self::lemma_absent(self.added@, tag@);
                }
                false
            },
            Some(i) => {
                proof {
                    Self::lemma_lookup(self.added@, i as int);
                }
                let adds = &self.added[i].1;
                let empty: Vec<u64> = Vec::new();
                let rems = match find_key(&self.removed, tag) {
                    None => {
                        proof {
                            Self::lemma_absent(self.removed@, tag@);
                            assert(empty@.to_set() =~= Set::<u64>::empty());
                        }
                        &empty
                    },
                    Some(j) => {
                        proof {
                            Self::lemma_lookup(self.removed@, j as int);
                        }
                        &self.removed[j].1
                    },
                };
                let mut k: usize = 0;
                while k < adds.len()
                    invariant
                        k <= adds@.len(),
                        versions(self@.0, tag@) == adds@.to_set(),
                        versions(self@.1, tag@) == rems@.to_set(),
                        forall|m: int| 0 <= m < k ==> rems@.contains(#[trigger] adds@[m]),
                    decreases adds@.len() - k,
                {
                    if !has_version(rems, adds[k]) {
                        assert(adds@.to_set().contains(adds@[k as int]));
                        return true;
                    }
                    k = k + 1;
                }
                proof {
                    if live(self@, tag@) {
                        let x = choose|x: u64|
                            versions(self@.0, tag@).contains(x) && !versions(self@.1, tag@).contains(x);
                        let m = choose|m: int| 0 <= m < adds@.len() && adds@[m] == x;
                        assert(rems@.contains(adds@[m]));
                    }
                }
                false
            },
        }
    }

    /// Whether `tag` has ever been added.
    pub fn was_added(&self, tag: &String) -> (r: bool)
        requires
            self.well_formed(),
        ensures
            r == !versions(self@.0, tag@).is_empty(),
    {
        match find_key(&self.added, tag) {
            None => {
                proof {
                    Self::lemma_absent(self.added@, tag@);
                }
                false
            },
            Some(i) => {
                proof {
                    Self::lemma_lookup(self.added@, i as int);
                    if self.added@[i as int].1@.len() > 0 {
                        assert(self.added@[i as int].1@.to_set().contains(self.added@[i as int].1@[0]));
                    } else {
                        assert(self.added@[i as int].1@.to_set() =~= Set::<u64>::empty());
                    }
                }
                self.added[i].1.len() > 0
            },
        }
    }

    /// Adds `tag` under the next version where it is not already visible;
    /// where it is, does nothing.
    pub fn add_tag(&mut self, tag: String)
        requires
            old(self).well_formed(),
        ensures
            final(self).well_formed(),
            final(self).current_spec().contains(tag@),
            old(self).current_spec().contains(tag@) ==> final(self)@ == old(self)@,
            !old(self).current_spec().contains(tag@) ==> final(self)@ == (
                old(self)@.0.insert(
                    tag@,
                    versions(old(self)@.0, tag@).insert(next_version(versions(old(self)@.0, tag@))),
                ),
                old(self)@.1,
            ),
    {
        if self.contains(&tag) {
            return;
        }
        let ghost a0 = self@.0;
        let ghost before = self.added@;
        let ghost v = next_version(versions(a0, tag@));
        match find_key(&self.added, &tag) {
            Some(i) => {
                let count = self.added[i].1.len();
                proof {
                    Self::lemma_lookup(self.added@, i as int);
                    lemma_range_set(self.added@[i as int].1@);
                }
                let mut cur = copy_versions(&self.added[i].1);
                let n = count as u64;
                cur.push(n);
                proof {
                    lemma_push_to_set(self.added@[i as int].1@, n);
                    assert(is_range(cur@));
                }
                self.added.set(i, (tag, cur));
                proof {
                    lemma_as_map_update(before, i as int, self.added@[i as int]);
                    assert(self@.0 =~= a0.insert(tag@, versions(a0, tag@).insert(v)));
                }
            },
            None => {
                proof {
                    Self::lemma_absent(self.added@, tag@);
                    lemma_as_map_dom(self.added@, tag@);
                    let e = Seq::<u64>::empty();
                    lemma_range_set(e);
                    assert(e.to_set() =~= Set::<u64>::empty());
                }
                let mut cur: Vec<u64> = Vec::new();
                cur.push(0);
                proof {
                    lemma_push_to_set(Seq::<u64>::empty(), 0);
                    assert(Seq::<u64>::empty().push(0) =~= cur@);
                    assert(Seq::<u64>::empty().to_set() =~= Set::<u64>::empty());
                }
                self.added.push((tag, cur));
                proof {
                    lemma_as_map_push(before, self.added@.last());
                    assert(self.added@ =~= before.push(self.added@.last()));
                    assert(self@.0 =~= a0.insert(tag@, versions(a0, tag@).insert(v)));
                }
            },
        }
        proof {
            assert(all_ranges(self.added@));
            assert(!versions(a0, tag@).contains(v));
            assert(!versions(self@.1, tag@).contains(v));
            assert(versions(self@.0, tag@).contains(v));
            assert(self.current_spec().contains(tag@));
        }
    }

    /// Records the removal of the latest version of `tag`. Returns whether
    /// `tag` had ever been added; where it had not, does nothing.
    pub fn remove_tag(&mut self, tag: &String) -> (r: bool)
        requires
            old(self).well_formed(),
        ensures
            final(self).well_formed(),
            r == !versions(old(self)@.0, tag@).is_empty(),
            r ==> final(self)@ == (
                old(self)@.0,
                old(self)@.1.insert(
                    tag@,
                    versions(old(self)@.1, tag@).insert(
                        (next_version(versions(old(self)@.0, tag@)) - 1) as u64,
                    ),
                ),
            ),
            !r ==> final(self)@ == old(self)@,
    {
        let i = match find_key(&self.added, tag) {
            None => {
                proof {
                    Self::lemma_absent(self.added@, tag@);
                }
                return false;
            },
            Some(i) => i,
        };
        let n = self.added[i].1.len();
        proof {
            Self::lemma_lookup(self.added@, i as int);
            lemma_range_set(self.added@[i as int].1@);
        }
        if n == 0 {
            proof {
                assert(self.added@[i as int].1@.to_set() =~= Set::<u64>::empty());
            }
            return false;
        }
        assert(versions(self@.0, tag@).contains((n - 1) as u64));
        let latest = (n - 1) as u64;
        let ghost r0 = self@.1;
        let ghost before = self.removed@;
        match find_key(&self.removed, tag) {
            Some(j) => {
                proof {
                    Self::lemma_lookup(self.removed@, j as int);
                }
                if has_version(&self.removed[j].1, latest) {
                    assert(versions(r0, tag@).insert(latest) =~= versions(r0, tag@));
                    assert(r0.insert(tag@, versions(r0, tag@)) =~= r0);
                } else {
                    let mut cur = copy_versions(&self.removed[j].1);
                    cur.push(latest);
                    proof {
                        lemma_push_to_set(self.removed@[j as int].1@, latest);
                    }
                    self.removed.set(j, (tag.clone(), cur));
                    proof {
                        lemma_as_map_update(before, j as int, self.removed@[j as int]);
                        assert(self@.1 =~= r0.insert(tag@, versions(r0, tag@).insert(latest)));
                    }
                }
            },
            None => {
                proof {
                    Self::lemma_absent(self.removed@, tag@);
                    lemma_as_map_dom(self.removed@, tag@);
                }
                let mut cur: Vec<u64> = Vec::new();
                cur.push(latest);
                proof {
                    lemma_push_to_set(Seq::<u64>::empty(), latest);
                    assert(Seq::<u64>::empty().push(latest) =~= cur@);
                    assert(Seq::<u64>::empty().to_set() =~= Set::<u64>::empty());
                }
                self.removed.push((tag.clone(), cur));
                proof {
                    lemma_as_map_push(before, self.removed@.last());
                    assert(self.removed@ =~= before.push(self.removed@.last()));
                    assert(self@.1 =~= r0.insert(tag@, versions(r0, tag@).insert(latest)));
                }
            },
        }
        true
    }
}

impl AWSet {
    /// The visible tags, each once.
    pub fn current_tags(&self) -> (r: Vec<String>)
        requires
            self.well_formed(),
        ensures
            forall|t: Seq<char>|
                self.current_spec().contains(t) <==> exists|j: int| 0 <= j < r@.len() && r@[j]@ == t,
    {
        let mut r: Vec<String> = Vec::new();
        let mut i: usize = 0;
        while i < self.added.len()
            invariant
                i <= self.added@.len(),
                self.well_formed(),
                forall|j: int| 0 <= j < r@.len() ==> self.current_spec().contains(#[trigger] r@[j]@),
                forall|m: int|
                    0 <= m < i && self.current_spec().contains(#[trigger] self.added@[m].0@) ==> exists|
                        j: int,
                    | 0 <= j < r@.len() && r@[j]@ == self.added@[m].0@,
            decreases self.added@.len() - i,
        {
            if self.contains(&self.added[i].0) {
                let ghost old_r = r@;
                r.push(self.added[i].0.clone());
                proof {
                    assert forall|m: int|
                        0 <= m < i + 1 && self.current_spec().contains(
                            #[trigger] self.added@[m].0@,
                        ) implies exists|j: int| 0 <= j < r@.len() && r@[j]@ == self.added@[m].0@ by {
                        if m < i {
                            let j = choose|j: int| 0 <= j < old_r.len() && old_r[j]@ == self.added@[m].0@;
                            assert(r@[j] == old_r[j]);
                        } else {
                            assert(r@[r@.len() - 1]@ == self.added@[i as int].0@);
                        }
                    }
                    assert forall|j: int| 0 <= j < r@.len() implies self.current_spec().contains(
                        #[trigger] r@[j]@,
                    ) by {
                        if j < old_r.len() {
                            assert(r@[j] == old_r[j]);
                        }
                    }
                }
            }
            i = i + 1;
        }
        proof {
            assert forall|t: Seq<char>| self.current_spec().contains(t) implies exists|j: int|
                0 <= j < r@.len() && r@[j]@ == t by {
                assert(live(self@, t));
                let x = choose|x: u64| versions(self@.0, t).contains(x) && !versions(self@.1, t).contains(x);
                assert(version_map(self.added@).contains_key(t));
                lemma_as_map_dom(self.added@, t);
                let m = choose|m: int| 0 <= m < self.added@.len() && self.added@[m].0@ == t;
                assert(self.current_spec().contains(self.added@[m].0@));
            }
        }
        r
    }

    /// A copy of this set.
    pub fn duplicate(&self) -> (r: AWSet)
        ensures
            r@ == self@,
            r.well_formed() == self.well_formed(),
    {
        let added = copy_history(&self.added);
        let removed = copy_history(&self.removed);
        let r = AWSet { added, removed };
        proof {
            assert(distinct_keys(r.added@) == distinct_keys(self.added@));
            assert(distinct_keys(r.removed@) == distinct_keys(self.removed@));
            assert(all_ranges(r.added@) == all_ranges(self.added@));
        }
        r
    }
}

/// Every version list of `s` is a range.
fn ranges_check(s: &Vec<(String, Vec<u64>)>) -> (r: bool)
    ensures
        r == all_ranges(s@),
{
    let mut i: usize = 0;
    while i < s.len()
        invariant
            i <= s@.len(),
            forall|m: int| 0 <= m < i ==> is_range(#[trigger] s@[m].1@),
        decreases s@.len() - i,
    {
        let l = &s[i].1;
        let mut k: usize = 0;
        while k < l.len()
            invariant
                i < s@.len(),
                l@ == s@[i as int].1@,
                k <= l@.len(),
                forall|m: int| 0 <= m < k ==> l@[m] == m,
            decreases l@.len() - k,
        {
            if l[k] != k as u64 {
                assert(s@[i as int].1@[k as int] != k);
                return false;
            }
            k = k + 1;
        }
        i = i + 1;
    }
    true
}

/// Every version in `l` is below `n`.
fn all_below(l: &Vec<u64>, n: usize) -> (r: bool)
    ensures
        r == forall|m: int| 0 <= m < l@.len() ==> l@[m] < n,
{
    let mut k: usize = 0;
    while k < l.len()
        invariant
            k <= l@.len(),
            forall|m: int| 0 <= m < k ==> l@[m] < n,
        decreases l@.len() - k,
    {
        if l[k] >= n as u64 {
            return false;
        }
        k = k + 1;
    }
    true
}

impl AWSet {
    /// A set with the given histories, where they are consistent: no tag
    /// twice in either list, each tag's added versions `0, 1, ..., n - 1`,
    /// and every removed version among the added ones. `None` otherwise.
    pub fn from_history(added: Vec<(String, Vec<u64>)>, removed: Vec<(String, Vec<u64>)>) -> (r: Option<
        AWSet,
    >)
        ensures
            match r {
                Some(s) => s.well_formed() && s@ == (version_map(added@), version_map(removed@)),
                None => !(distinct_keys(added@) && distinct_keys(removed@) && all_ranges(added@)
                    && removes_observed((version_map(added@), version_map(removed@)))),
            },
    {
        if !keys_distinct(&added) || !keys_distinct(&removed) || !ranges_check(&added) {
            return None;
        }
        let ghost v = (version_map(added@), version_map(removed@));
        let mut j: usize = 0;
        while j < removed.len()
            invariant
                j <= removed@.len(),
                distinct_keys(added@),
                distinct_keys(removed@),
                all_ranges(added@),
                v == (version_map(added@), version_map(removed@)),
                forall|m: int|
                    0 <= m < j ==> versions(v.1, #[trigger] removed@[m].0@).subset_of(
                        versions(v.0, removed@[m].0@),
                    ),
            decreases removed@.len() - j,
        {
            let t = &removed[j].0;
            let l = &removed[j].1;
            proof {
                AWSet::lemma_lookup(removed@, j as int);
            }
            let n: usize = match find_key(&added, t) {
                Some(i) => {
                    let len = added[i].1.len();
                    proof {
                        AWSet::lemma_lookup(added@, i as int);
                        lemma_range_set(added@[i as int].1@);
                    }
                    len
                },
                None => {
                    proof {
                        AWSet::lemma_absent(added@, t@);
                    }
                    0
                },
            };
            assert(forall|x: u64| versions(v.0, t@).contains(x) <==> x < n);
            if !all_below(l, n) {
                proof {
                    let m = choose|m: int| 0 <= m < l@.len() && !(l@[m] < n);
                    assert(versions(v.1, t@).contains(l@[m]));
                }
                return None;
            }
            j = j + 1;
        }
        proof {
            assert forall|t: Seq<char>| versions(v.1, t).subset_of(versions(v.0, t)) by {
                lemma_as_map_dom(removed@, t);
                if version_map(removed@).contains_key(t) {
                    let m = choose|m: int| 0 <= m < removed@.len() && removed@[m].0@ == t;
                    assert(versions(v.1, removed@[m].0@).subset_of(versions(v.0, removed@[m].0@)));
                }
            }
        }
        Some(AWSet { added, removed })
    }

    /// Per tag, the versions added, in order.
    pub fn added_history(&self) -> (r: Vec<(String, Vec<u64>)>)
        ensures
            version_map(r@) == self@.0,
    {
        copy_history(&self.added)
    }

    /// Per tag, the versions removed.
    pub fn removed_history(&self) -> (r: Vec<(String, Vec<u64>)>)
        ensures
            version_map(r@) == self@.1,
    {
        copy_history(&self.removed)
    }
}

impl Merge for AWSet {
    open spec fn join(a: TagHistory, b: TagHistory) -> TagHistory {
        (union_map(a.0, b.0), union_map(a.1, b.1))
    }

    closed spec fn well_formed(&self) -> bool {
        &&& distinct_keys(self.added@)
        &&& distinct_keys(self.removed@)
        &&& all_ranges(self.added@)
        &&& removes_observed(self@)
    }

    open spec fn fits_with(&self, other: &Self) -> bool {
        true
    }

    fn merge(&mut self, other: &AWSet) {
        union_into(&mut self.added, &other.added);
        union_into(&mut self.removed, &other.removed);
        proof {
            assert forall|t: Seq<char>| versions(self@.1, t).subset_of(versions(self@.0, t)) by {
                assert(versions(old(self)@.1, t).subset_of(versions(old(self)@.0, t)));
                assert(versions(other@.1, t).subset_of(versions(other@.0, t)));
            }
        }
    }
}

/// Joining version maps is idempotent, commutative and associative.
pub proof fn lemma_union_map_laws(
    a: Map<Seq<char>, Set<u64>>,
    b: Map<Seq<char>, Set<u64>>,
    c: Map<Seq<char>, Set<u64>>,
)
    ensures
        union_map(a, a) == a,
        union_map(a, b) == union_map(b, a),
        union_map(union_map(a, b), c) == union_map(a, union_map(b, c)),
{
    assert forall|k: Seq<char>| a.contains_key(k) implies #[trigger] versions(a, k) + versions(a, k) =~= a[k] by {}
    assert(union_map(a, a) =~= a);
    assert forall|k: Seq<char>| #[trigger] union_map(a, b).contains_key(k) implies versions(a, k) + versions(b, k)
        =~= versions(b, k) + versions(a, k) by {}
    assert(union_map(a, b) =~= union_map(b, a));
    assert forall|k: Seq<char>| #[trigger] union_map(union_map(a, b), c).contains_key(k) implies versions(
        union_map(a, b),
        k,
    ) + versions(c, k) =~= versions(a, k) + versions(union_map(b, c), k) by {}
    assert(union_map(union_map(a, b), c) =~= union_map(a, union_map(b, c)));
}

/// Merging a tag set with a copy of itself changes nothing.
pub proof fn lemma_set_merge_idempotent(a: &AWSet)
    ensures
        AWSet::join(a@, a@) == a@,
        current(AWSet::join(a@, a@)) == a.current_spec(),
{
    lemma_union_map_laws(a@.0, a@.0, a@.0);
    lemma_union_map_laws(a@.1, a@.1, a@.1);
}

/// The order in which two tag sets are merged does not matter.
pub proof fn lemma_set_merge_commutative(a: &AWSet, b: &AWSet)
    ensures
        AWSet::join(a@, b@) == AWSet::join(b@, a@),
        current(AWSet::join(a@, b@)) == current(AWSet::join(b@, a@)),
{
    lemma_union_map_laws(a@.0, b@.0, b@.0);
    lemma_union_map_laws(a@.1, b@.1, b@.1);
}

/// The grouping in which three tag sets are merged does not matter.
pub proof fn lemma_set_merge_associative(a: &AWSet, b: &AWSet, c: &AWSet)
    ensures
        AWSet::join(AWSet::join(a@, b@), c@) == AWSet::join(a@, AWSet::join(b@, c@)),
        current(AWSet::join(AWSet::join(a@, b@), c@)) == current(AWSet::join(a@, AWSet::join(b@, c@))),
{
    lemma_union_map_laws(a@.0, b@.0, c@.0);
    lemma_union_map_laws(a@.1, b@.1, c@.1);
}

/// Add wins: a version of `t` added at one replica and not removed there
/// survives a merge with a replica whose removes did not observe it.
pub proof fn lemma_add_wins(a: &AWSet, b: &AWSet, t: Seq<char>, v: u64)
    requires
        versions(a@.0, t).contains(v),
        !versions(a@.1, t).contains(v),
        !versions(b@.1, t).contains(v),
    ensures
        current(AWSet::join(a@, b@)).contains(t),
        current(AWSet::join(b@, a@)).contains(t),
{
    let j1 = AWSet::join(a@, b@);
    let j2 = AWSet::join(b@, a@);
    assert(versions(j1.0, t).contains(v));
    assert(!versions(j1.1, t).contains(v));
    assert(versions(j2.0, t).contains(v));
    assert(!versions(j2.1, t).contains(v));
}

} // verus!
