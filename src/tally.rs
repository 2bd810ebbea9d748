//! Per-origin tallies: how much each node has contributed, and their sum.

use vstd::prelude::*;
use crate::keyed::{
    as_map, distinct_keys, find_key, lemma_as_map_dom, lemma_as_map_finite, lemma_as_map_index,
    lemma_as_map_push, lemma_as_map_update,
};

verus! {

/// The sum of the values of a finite map.
pub open spec fn map_sum(m: Map<Seq<char>, u64>) -> int
    decreases m.dom().len(),
{
    if m.dom().finite() && m.dom().len() > 0 {
        let k = m.dom().choose();
        m[k] + map_sum(m.remove(k))
    } else {
        0
    }
}

/// Two tallies joined: every origin keeps the larger of its two totals.
pub open spec fn join_max(a: Map<Seq<char>, u64>, b: Map<Seq<char>, u64>) -> Map<Seq<char>, u64> {
    Map::new(
        |k: Seq<char>| a.contains_key(k) || b.contains_key(k),
        |k: Seq<char>|
            if !b.contains_key(k) {
                a[k]
            } else if !a.contains_key(k) {
                b[k]
            } else if a[k] >= b[k] {
                a[k]
            } else {
                b[k]
            },
    )
}

/// What an origin has recorded in a tally, zero where it has recorded nothing.
pub open spec fn recorded(m: Map<Seq<char>, u64>, k: Seq<char>) -> int {
    if m.contains_key(k) {
        m[k] as int
    } else {
        0
    }
}

/// The sum of the entries of an association list, in list order.
pub open spec fn seq_total(s: Seq<(String, u64)>) -> int
    decreases s.len(),
{
    if s.len() == 0 {
        0
    } else {
        seq_total(s.drop_last()) + s.last().1
    }
}

pub proof fn lemma_map_sum_remove(m: Map<Seq<char>, u64>, k: Seq<char>)
    requires
        m.dom().finite(),
        m.contains_key(k),
    ensures
        map_sum(m) == m[k] + map_sum(m.remove(k)),
    decreases m.dom().len(),
{
    let c = m.dom().choose();
    if c != k {
        assert(m.remove(c).dom() =~= m.dom().remove(c));
        assert(m.remove(k).dom() =~= m.dom().remove(k));
        lemma_map_sum_remove(m.remove(c), k);
        lemma_map_sum_remove(m.remove(k), c);
        assert(m.remove(c).remove(k) =~= m.remove(k).remove(c));
    }
}

pub proof fn lemma_map_sum_insert(m: Map<Seq<char>, u64>, k: Seq<char>, v: u64)
    requires
        m.dom().finite(),
    ensures
        map_sum(m.insert(k, v)) == map_sum(m) - recorded(m, k) + v,
        m.insert(k, v).dom().finite(),
{
    let m2 = m.insert(k, v);
    lemma_map_sum_remove(m2, k);
    if m.contains_key(k) {
        lemma_map_sum_remove(m, k);
        assert(m2.remove(k) =~= m.remove(k));
    } else {
        assert(m2.remove(k) =~= m);
    }
}

pub proof fn lemma_map_sum_nonneg(m: Map<Seq<char>, u64>)
    ensures
        map_sum(m) >= 0,
    decreases m.dom().len(),
{
    if m.dom().finite() && m.dom().len() > 0 {
        lemma_map_sum_nonneg(m.remove(m.dom().choose()));
    }
}

/// The sum of an association list with distinct keys is the sum of its map.
pub proof fn lemma_seq_total(s: Seq<(String, u64)>)
    requires
        distinct_keys(s),
    ensures
        seq_total(s) == map_sum(as_map(s)),
        as_map(s).dom().finite(),
    decreases s.len(),
{
    lemma_as_map_finite(s);
    if s.len() > 0 {
        let d = s.drop_last();
        assert(distinct_keys(d));
        lemma_seq_total(d);
        lemma_as_map_dom(d, s.last().0@);
        if as_map(d).contains_key(s.last().0@) {
            let i = choose|i: int| 0 <= i < d.len() && d[i].0@ == s.last().0@;
            assert(s[i].0@ == s[s.len() - 1].0@);
        }
        lemma_map_sum_insert(as_map(d), s.last().0@, s.last().1);
    }
}

pub proof fn lemma_seq_total_prefix(s: Seq<(String, u64)>, i: int)
    requires
        0 <= i <= s.len(),
    ensures
        seq_total(s.take(i)) <= seq_total(s),
        seq_total(s.take(i)) >= 0,
    decreases s.len(),
{
    if i == s.len() {
        assert(s.take(i) =~= s);
        if s.len() > 0 {
            lemma_seq_total_prefix(s.drop_last(), 0);
        }
    } else {
        let d = s.drop_last();
        assert(d.take(i) =~= s.take(i));
        lemma_seq_total_prefix(d, i);
    }
}

/// A tally's map is bounded by its sum, entry by entry.
pub proof fn lemma_entry_le_sum(m: Map<Seq<char>, u64>, k: Seq<char>)
    requires
        m.dom().finite(),
    ensures
        recorded(m, k) <= map_sum(m),
{
    if m.contains_key(k) {
        lemma_map_sum_remove(m, k);
        lemma_map_sum_nonneg(m.remove(k));
    } else {
        lemma_map_sum_nonneg(m);
    }
}

/// A tally dominated origin by origin by another has no larger sum.
pub proof fn lemma_map_sum_le(a: Map<Seq<char>, u64>, b: Map<Seq<char>, u64>)
    requires
        a.dom().finite(),
        b.dom().finite(),
        forall|k: Seq<char>| a.contains_key(k) ==> b.contains_key(k) && a[k] <= b[k],
    ensures
        map_sum(a) <= map_sum(b),
    decreases a.dom().len(),
{
    if a.dom().len() == 0 {
        lemma_map_sum_nonneg(b);
    } else {
        let k = a.dom().choose();
        lemma_map_sum_remove(a, k);
        lemma_map_sum_remove(b, k);
        assert(a.remove(k).dom() =~= a.dom().remove(k));
        lemma_map_sum_le(a.remove(k), b.remove(k));
    }
}

/// Joining tallies of disjoint origins adds their sums.
pub proof fn lemma_map_sum_join_disjoint(a: Map<Seq<char>, u64>, b: Map<Seq<char>, u64>)
    requires
        a.dom().finite(),
        b.dom().finite(),
        a.dom().disjoint(b.dom()),
    ensures
        map_sum(join_max(a, b)) == map_sum(a) + map_sum(b),
        join_max(a, b).dom().finite(),
    decreases a.dom().len(),
{
    assert(join_max(a, b).dom() =~= a.dom() + b.dom());
    if a.dom().len() == 0 {
        assert(join_max(a, b) =~= b);
    } else {
        let k = a.dom().choose();
        assert(!b.contains_key(k));
        assert(a.remove(k).dom() =~= a.dom().remove(k));
        lemma_map_sum_join_disjoint(a.remove(k), b);
        lemma_map_sum_remove(a, k);
        lemma_map_sum_remove(join_max(a, b), k);
        assert(join_max(a, b).remove(k) =~= join_max(a.remove(k), b));
    }
}

pub proof fn lemma_join_max_laws(a: Map<Seq<char>, u64>, b: Map<Seq<char>, u64>, c: Map<Seq<char>, u64>)
    ensures
        join_max(a, a) == a,
        join_max(a, b) == join_max(b, a),
        join_max(join_max(a, b), c) == join_max(a, join_max(b, c)),
        forall|k: Seq<char>| a.contains_key(k) ==> join_max(a, b).contains_key(k) && a[k] <= join_max(a, b)[k],
        a.dom().finite() && b.dom().finite() ==> join_max(a, b).dom().finite(),
{
    assert(join_max(a, a) =~= a);
    assert(join_max(a, b) =~= join_max(b, a));
    assert(join_max(join_max(a, b), c) =~= join_max(a, join_max(b, c)));
    assert(join_max(a, b).dom() =~= a.dom() + b.dom());
}

/// The sum of an association list, or `None` where it does not fit in `u64`.
pub fn tally_sum(s: &Vec<(String, u64)>) -> (r: Option<u64>)
    ensures
        match r {
            Some(t) => t == seq_total(s@),
            None => seq_total(s@) > u64::MAX,
        },
{
    let mut acc: u64 = 0;
    let mut i: usize = 0;
    while i < s.len()
        invariant
            i <= s@.len(),
            acc == seq_total(s@.take(i as int)),
        decreases s@.len() - i,
    {
        assert(s@.take(i + 1).drop_last() =~= s@.take(i as int));
        match acc.checked_add(s[i].1) {
            Some(a) => {
                acc = a;
            },
            None => {
                proof {
                    lemma_seq_total_prefix(s@, i + 1);
                }
                return None;
            },
        }
        i = i + 1;
    }
    assert(s@.take(i as int) =~= s@);
    Some(acc)
}

/// Adds `amount` to what `node` has recorded.
pub fn bump(s: &mut Vec<(String, u64)>, node: &String, amount: u64)
    requires
        distinct_keys(old(s)@),
        map_sum(as_map(old(s)@)) + amount <= u64::MAX,
    ensures
        distinct_keys(final(s)@),
        as_map(final(s)@) == as_map(old(s)@).insert(
            node@,
            (recorded(as_map(old(s)@), node@) + amount) as u64,
        ),
        map_sum(as_map(final(s)@)) == map_sum(as_map(old(s)@)) + amount,
{
    proof {
        lemma_seq_total(s@);
        lemma_entry_le_sum(as_map(s@), node@);
    }
    match find_key(s, node) {
        Some(i) => {
            proof {
                lemma_as_map_index(s@, i as int);
            }
            let v = s[i].1 + amount;
            let ghost before = s@;
            s.set(i, (node.clone(), v));
            proof {
                lemma_as_map_update(before, i as int, s@[i as int]);
            }
        },
        None => {
            proof {
                lemma_as_map_dom(s@, node@);
            }
            let ghost before = s@;
            s.push((node.clone(), amount));
            proof {
                lemma_as_map_push(before, s@.last());
                assert(s@ =~= before.push(s@.last()));
            }
        },
    }
    proof {
        lemma_map_sum_insert(
            as_map(old(s)@),
            node@,
            (recorded(as_map(old(s)@), node@) + amount) as u64,
        );
    }
}

/// Joins `src` into `dst`: every origin ends with the larger of its two totals.
pub fn join_into(dst: &mut Vec<(String, u64)>, src: &Vec<(String, u64)>)
    requires
        distinct_keys(old(dst)@),
        distinct_keys(src@),
    ensures
        distinct_keys(final(dst)@),
        as_map(final(dst)@) == join_max(as_map(old(dst)@), as_map(src@)),
{
    let ghost a = as_map(dst@);
    let mut j: usize = 0;
    assert(as_map(dst@) =~= join_max(a, as_map(src@.take(0))));
    while j < src.len()
        invariant
            j <= src@.len(),
            distinct_keys(src@),
            distinct_keys(dst@),
            a == as_map(old(dst)@),
            as_map(dst@) == join_max(a, as_map(src@.take(j as int))),
        decreases src@.len() - j,
    {
        let ghost b = as_map(src@.take(j as int));
        let k = &src[j].0;
        let v = src[j].1;
        proof {
            assert(src@.take(j + 1).drop_last() =~= src@.take(j as int));
            lemma_as_map_dom(src@.take(j as int), k@);
            if b.contains_key(k@) {
                let i = choose|i: int| 0 <= i < j && src@.take(j as int)[i].0@ == k@;
                assert(src@[i].0@ == src@[j as int].0@);
            }
        }
        let ghost b2 = as_map(src@.take(j + 1));
        assert(b2 == b.insert(k@, v));
        match find_key(dst, k) {
            Some(i) => {
                proof {
                    lemma_as_map_index(dst@, i as int);
                }
                if dst[i].1 < v {
                    let ghost before = dst@;
                    dst.set(i, (k.clone(), v));
                    proof {
                        lemma_as_map_update(before, i as int, dst@[i as int]);
                    }
                }
                assert(as_map(dst@) =~= join_max(a, b2));
            },
            None => {
                proof {
                    lemma_as_map_dom(dst@, k@);
                }
                let ghost before = dst@;
                dst.push((k.clone(), v));
                proof {
                    lemma_as_map_push(before, dst@.last());
                    assert(dst@ =~= before.push(dst@.last()));
                }
                assert(as_map(dst@) =~= join_max(a, b2));
            },
        }
        j = j + 1;
    }
    assert(src@.take(j as int) =~= src@);
}

/// A copy of an association list, entry for entry.
pub fn copy_tally(s: &Vec<(String, u64)>) -> (r: Vec<(String, u64)>)
    ensures
        r@ == s@,
{
    let mut r: Vec<(String, u64)> = Vec::new();
    let mut i: usize = 0;
    while i < s.len()
        invariant
            i <= s@.len(),
            r@ == s@.take(i as int),
        decreases s@.len() - i,
    {
        r.push((s[i].0.clone(), s[i].1));
        i = i + 1;
        assert(r@ =~= s@.take(i as int));
    }
    assert(s@.take(i as int) =~= s@);
    r
}

} // verus!
