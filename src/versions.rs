//! Version lists of the add-wins set: per tag, the versions of its adds or of
//! its removes, viewed as sets.

use vstd::prelude::*;
use crate::keyed::{
    as_map, distinct_keys, find_key, lemma_as_map_dom, lemma_as_map_index, lemma_as_map_push,
    lemma_as_map_update,
};

verus! {

/// The versions recorded for `t`, empty where none are.
pub open spec fn versions(m: Map<Seq<char>, Set<u64>>, t: Seq<char>) -> Set<u64> {
    if m.contains_key(t) {
        m[t]
    } else {
        Set::empty()
    }
}

/// Two version maps joined: every tag keeps the versions of both.
pub open spec fn union_map(a: Map<Seq<char>, Set<u64>>, b: Map<Seq<char>, Set<u64>>) -> Map<
    Seq<char>,
    Set<u64>,
> {
    Map::new(
        |k: Seq<char>| a.contains_key(k) || b.contains_key(k),
        |k: Seq<char>| versions(a, k) + versions(b, k),
    )
}

/// The version map an association list of version lists stands for.
pub open spec fn version_map(s: Seq<(String, Vec<u64>)>) -> Map<Seq<char>, Set<u64>> {
    as_map(s).map_values(|l: Vec<u64>| l@.to_set())
}

/// The list holds the versions `0, 1, ..., len - 1`, in order.
pub open spec fn is_range(l: Seq<u64>) -> bool {
    forall|i: int| 0 <= i < l.len() ==> l[i] == i
}

/// Every version list of the association list is a range.
pub open spec fn all_ranges(s: Seq<(String, Vec<u64>)>) -> bool {
    forall|i: int| 0 <= i < s.len() ==> is_range(#[trigger] s[i].1@)
}

/// The least version that a set of versions lacks, where its versions are
/// `0, 1, ..., n - 1`: the version that the next add receives.
pub open spec fn next_version(s: Set<u64>) -> u64 {
    choose|v: u64| !s.contains(v) && forall|x: u64| x < v ==> s.contains(x)
}

pub proof fn lemma_range_set(l: Seq<u64>)
    requires
        is_range(l),
        l.len() <= u64::MAX,
    ensures
        l.to_set() == Set::new(|x: u64| x < l.len()),
        next_version(l.to_set()) == l.len(),
{
    assert forall|x: u64| l.to_set().contains(x) <==> x < l.len() by {
        if x < l.len() {
            assert(l[x as int] == x);
        }
    }
    assert(l.to_set() =~= Set::new(|x: u64| x < l.len()));
    let s = l.to_set();
    let n = l.len() as u64;
    assert(!s.contains(n) && forall|x: u64| x < n ==> s.contains(x));
    let v = next_version(s);
    if v < n {
        assert(s.contains(v));
    } else if v > n {
        assert(s.contains(n));
    }
}

pub proof fn lemma_push_to_set<A>(s: Seq<A>, e: A)
    ensures
        s.push(e).to_set() == s.to_set().insert(e),
{
    assert forall|x: A| s.push(e).to_set().contains(x) <==> s.to_set().insert(e).contains(x) by {
        assert(s.push(e).to_set().contains(x) == s.push(e).contains(x));
        assert(s.to_set().contains(x) == s.contains(x));
        if s.contains(x) {
            let i = choose|i: int| 0 <= i < s.len() && s[i] == x;
            assert(s.push(e)[i] == x);
        }
        if x == e {
            assert(s.push(e)[s.len() as int] == e);
        }
        if s.push(e).contains(x) {
            let i = choose|i: int| 0 <= i < s.push(e).len() && s.push(e)[i] == x;
            if i < s.len() {
                assert(s[i] == x);
            }
        }
    }
    assert(s.push(e).to_set() =~= s.to_set().insert(e));
}

pub proof fn lemma_take_to_set<A>(s: Seq<A>, j: int)
    requires
        0 <= j < s.len(),
    ensures
        s.take(j + 1).to_set() == s.take(j).to_set().insert(s[j]),
{
    assert(s.take(j + 1) =~= s.take(j).push(s[j]));
    lemma_push_to_set(s.take(j), s[j]);
}

/// Whether the list holds `x`.
pub fn has_version(l: &Vec<u64>, x: u64) -> (r: bool)
    ensures
        r == l@.contains(x),
{
    let mut i: usize = 0;
    while i < l.len()
        invariant
            i <= l@.len(),
            forall|j: int| 0 <= j < i ==> l@[j] != x,
        decreases l@.len() - i,
    {
        if l[i] == x {
            return true;
        }
        i = i + 1;
    }
    false
}

/// A copy of a version list.
pub fn copy_versions(l: &Vec<u64>) -> (r: Vec<u64>)
    ensures
        r@ == l@,
{
    let mut r: Vec<u64> = Vec::new();
    let mut i: usize = 0;
    while i < l.len()
        invariant
            i <= l@.len(),
            r@ == l@.take(i as int),
        decreases l@.len() - i,
    {
        r.push(l[i]);
        i = i + 1;
        assert(r@ =~= l@.take(i as int));
    }
    assert(l@.take(i as int) =~= l@);
    r
}

/// Adds to `dst` the versions of `src` that it lacks.
pub fn union_versions(dst: &mut Vec<u64>, src: &Vec<u64>)
    ensures
        final(dst)@.to_set() == old(dst)@.to_set() + src@.to_set(),
        is_range(old(dst)@) && is_range(src@) ==> is_range(final(dst)@),
{
    let ghost a = dst@;
    let ghost ranged = is_range(a) && is_range(src@);
    let mut j: usize = 0;
    assert(src@.take(0).to_set() =~= Set::<u64>::empty());
    assert(dst@.to_set() =~= a.to_set() + src@.take(0).to_set());
    while j < src.len()
        invariant
            j <= src@.len(),
            a == old(dst)@,
            ranged == (is_range(a) && is_range(src@)),
            dst@.to_set() == a.to_set() + src@.take(j as int).to_set(),
            ranged ==> is_range(dst@) && dst@.len() == (if a.len() >= j { a.len() } else { j as nat }),
        decreases src@.len() - j,
    {
        let x = src[j];
        proof {
            lemma_take_to_set(src@, j as int);
        }
        let ghost before = dst@;
        if !has_version(dst, x) {
            dst.push(x);
            proof {
                lemma_push_to_set(before, x);
                if ranged {
                    assert(x == j);
                    if j < a.len() {
                        assert(before[j as int] == j);
                    }
                }
            }
        } else {
            proof {
                assert(before.to_set().insert(x) =~= before.to_set());
                if ranged {
                    assert(x == j);
                    if j >= a.len() {
                        let k = choose|k: int| 0 <= k < before.len() && before[k] == x;
                        assert(before[k] == k);
                    }
                }
            }
        }
        assert(dst@.to_set() =~= a.to_set() + src@.take(j + 1).to_set());
        j = j + 1;
    }
    assert(src@.take(j as int) =~= src@);
}

/// Joins the version lists of `src` into those of `dst`, tag by tag.
pub fn union_into(dst: &mut Vec<(String, Vec<u64>)>, src: &Vec<(String, Vec<u64>)>)
    requires
        distinct_keys(old(dst)@),
        distinct_keys(src@),
    ensures
        distinct_keys(final(dst)@),
        version_map(final(dst)@) == union_map(version_map(old(dst)@), version_map(src@)),
        all_ranges(old(dst)@) && all_ranges(src@) ==> all_ranges(final(dst)@),
{
    let ghost a = version_map(dst@);
    let ghost ranged = all_ranges(dst@) && all_ranges(src@);
    let mut j: usize = 0;
    assert(version_map(src@.take(0)) =~= Map::empty());
    assert forall|k: Seq<char>| a.contains_key(k) implies versions(a, k) + versions(
        Map::<Seq<char>, Set<u64>>::empty(),
        k,
    ) =~= a[k] by {}
    assert(version_map(dst@) =~= union_map(a, version_map(src@.take(0))));
    while j < src.len()
        invariant
            j <= src@.len(),
            distinct_keys(src@),
            distinct_keys(dst@),
            a == version_map(old(dst)@),
            ranged == (all_ranges(old(dst)@) && all_ranges(src@)),
            version_map(dst@) == union_map(a, version_map(src@.take(j as int))),
            ranged ==> all_ranges(dst@),
        decreases src@.len() - j,
    {
        let ghost b = version_map(src@.take(j as int));
        let k = &src[j].0;
        let l = &src[j].1;
        proof {
            assert(src@.take(j + 1).drop_last() =~= src@.take(j as int));
            lemma_as_map_dom(src@.take(j as int), k@);
            if as_map(src@.take(j as int)).contains_key(k@) {
                let i = choose|i: int| 0 <= i < j && src@.take(j as int)[i].0@ == k@;
                assert(src@[i].0@ == src@[j as int].0@);
            }
        }
        let ghost b2 = version_map(src@.take(j + 1));
        assert(b2 =~= b.insert(k@, l@.to_set()));
        match find_key(dst, k) {
            Some(i) => {
                proof {
                    lemma_as_map_index(dst@, i as int);
                }
                let mut cur = copy_versions(&dst[i].1);
                union_versions(&mut cur, l);
                let ghost before = dst@;
                dst.set(i, (k.clone(), cur));
                proof {
                    lemma_as_map_update(before, i as int, dst@[i as int]);
                    assert(!b.contains_key(k@));
                    assert(version_map(before).contains_key(k@));
                    assert(version_map(before)[k@] == before[i as int].1@.to_set());
                    assert(versions(a, k@) + versions(b, k@) == before[i as int].1@.to_set());
                    assert(versions(a, k@) + versions(b, k@) =~= versions(a, k@));
                    assert(version_map(dst@) =~= version_map(before).insert(k@, dst@[i as int].1@.to_set()));
                }
                assert(version_map(dst@) =~= union_map(a, b2));
            },
            None => {
                proof {
                    lemma_as_map_dom(dst@, k@);
                }
                let cur = copy_versions(l);
                let ghost before = dst@;
                dst.push((k.clone(), cur));
                proof {
                    lemma_as_map_push(before, dst@.last());
                    assert(dst@ =~= before.push(dst@.last()));
                    assert(version_map(dst@) =~= version_map(before).insert(k@, l@.to_set()));
                    assert(!version_map(before).contains_key(k@));
                    assert(!a.contains_key(k@));
                    assert(versions(a, k@) + l@.to_set() =~= l@.to_set());
                }
                assert(version_map(dst@) =~= union_map(a, b2));
            },
        }
        j = j + 1;
    }
    assert(src@.take(j as int) =~= src@);
}

/// Two lists whose entries have equal keys and equal version lists, position
/// by position, stand for the same version map.
pub proof fn lemma_version_map_same(r: Seq<(String, Vec<u64>)>, s: Seq<(String, Vec<u64>)>)
    requires
        r.len() == s.len(),
        forall|i: int| 0 <= i < s.len() ==> r[i].0@ == s[i].0@ && r[i].1@ == s[i].1@,
    ensures
        version_map(r) == version_map(s),
    decreases s.len(),
{
    if s.len() > 0 {
        lemma_version_map_same(r.drop_last(), s.drop_last());
        assert(version_map(r) =~= version_map(r.drop_last()).insert(r.last().0@, r.last().1@.to_set()));
        assert(version_map(s) =~= version_map(s.drop_last()).insert(s.last().0@, s.last().1@.to_set()));
        assert(r.last().1@.to_set() =~= s.last().1@.to_set());
    } else {
        assert(version_map(r) =~= version_map(s));
    }
}

/// A copy of an association list of version lists.
pub fn copy_history(s: &Vec<(String, Vec<u64>)>) -> (r: Vec<(String, Vec<u64>)>)
    ensures
        r@.len() == s@.len(),
        forall|i: int| 0 <= i < s@.len() ==> r@[i].0@ == s@[i].0@ && r@[i].1@ == s@[i].1@,
        version_map(r@) == version_map(s@),
{
    let mut r: Vec<(String, Vec<u64>)> = Vec::new();
    let mut i: usize = 0;
    while i < s.len()
        invariant
            i <= s@.len(),
            r@.len() == i,
            forall|m: int| 0 <= m < i ==> r@[m].0@ == s@[m].0@ && r@[m].1@ == s@[m].1@,
        decreases s@.len() - i,
    {
        r.push((s[i].0.clone(), copy_versions(&s[i].1)));
        i = i + 1;
    }
    proof {
        lemma_version_map_same(r@, s@);
    }
    r
}

} // verus!
