//! Association lists keyed by `String`, and the map each one stands for.

use vstd::prelude::*;

verus! {

/// No two entries of the list share a key.
pub open spec fn distinct_keys<V>(s: Seq<(String, V)>) -> bool {
    forall|i: int, j: int|
        0 <= i < s.len() && 0 <= j < s.len() && i != j ==> s[i].0@ != s[j].0@
}

/// The map an association list stands for.
pub open spec fn as_map<V>(s: Seq<(String, V)>) -> Map<Seq<char>, V>
    decreases s.len(),
{
    if s.len() == 0 {
        Map::empty()
    } else {
        as_map(s.drop_last()).insert(s.last().0@, s.last().1)
    }
}

pub proof fn lemma_as_map_dom<V>(s: Seq<(String, V)>, k: Seq<char>)
    ensures
        as_map(s).contains_key(k) <==> exists|i: int| 0 <= i < s.len() && s[i].0@ == k,
    decreases s.len(),
{
    if s.len() > 0 {
        let d = s.drop_last();
        lemma_as_map_dom(d, k);
        if as_map(d).contains_key(k) {
            let i = choose|i: int| 0 <= i < d.len() && d[i].0@ == k;
            assert(s[i].0@ == k);
        }
        if exists|i: int| 0 <= i < s.len() && s[i].0@ == k {
            let i = choose|i: int| 0 <= i < s.len() && s[i].0@ == k;
            if i < s.len() - 1 {
                assert(d[i].0@ == k);
            }
        }
    }
}

pub proof fn lemma_as_map_finite<V>(s: Seq<(String, V)>)
    ensures
        as_map(s).dom().finite(),
    decreases s.len(),
{
    if s.len() > 0 {
        lemma_as_map_finite(s.drop_last());
    }
}

pub proof fn lemma_as_map_index<V>(s: Seq<(String, V)>, i: int)
    requires
        distinct_keys(s),
        0 <= i < s.len(),
    ensures
        as_map(s).contains_key(s[i].0@),
        as_map(s)[s[i].0@] == s[i].1,
    decreases s.len(),
{
    if i < s.len() - 1 {
        let d = s.drop_last();
        assert(distinct_keys(d));
        lemma_as_map_index(d, i);
        assert(s[i].0@ != s[s.len() - 1].0@);
    }
}

pub proof fn lemma_as_map_update<V>(s: Seq<(String, V)>, i: int, x: (String, V))
    requires
        distinct_keys(s),
        0 <= i < s.len(),
        x.0@ == s[i].0@,
    ensures
        distinct_keys(s.update(i, x)),
        as_map(s.update(i, x)) == as_map(s).insert(x.0@, x.1),
    decreases s.len(),
{
    let t = s.update(i, x);
    let d = s.drop_last();
    if i == s.len() - 1 {
        assert(t.drop_last() =~= d);
        assert(as_map(t) =~= as_map(s).insert(x.0@, x.1));
    } else {
        assert(distinct_keys(d));
        lemma_as_map_update(d, i, x);
        assert(t.drop_last() =~= d.update(i, x));
        assert(s.last().0@ != x.0@);
        assert(as_map(t) =~= as_map(s).insert(x.0@, x.1));
    }
}

pub proof fn lemma_as_map_push<V>(s: Seq<(String, V)>, x: (String, V))
    requires
        distinct_keys(s),
        !as_map(s).contains_key(x.0@),
    ensures
        distinct_keys(s.push(x)),
        as_map(s.push(x)) == as_map(s).insert(x.0@, x.1),
{
    lemma_as_map_dom(s, x.0@);
    assert(s.push(x).drop_last() =~= s);
    let t = s.push(x);
    assert forall|i: int, j: int|
        0 <= i < t.len() && 0 <= j < t.len() && i != j implies t[i].0@ != t[j].0@ by {
        if i < s.len() && j < s.len() {
            assert(t[i] == s[i] && t[j] == s[j]);
        } else if i == s.len() {
            assert(t[j] == s[j]);
        } else {
            assert(t[i] == s[i]);
        }
    }
}

/// Where `k` stands in the list, if anywhere.
pub fn find_key<V>(s: &Vec<(String, V)>, k: &String) -> (r: Option<usize>)
    ensures
        match r {
            Some(i) => i < s@.len() && s@[i as int].0@ == k@,
            None => forall|i: int| 0 <= i < s@.len() ==> s@[i].0@ != k@,
        },
{
    let mut i: usize = 0;
    while i < s.len()
        invariant
            i <= s@.len(),
            forall|j: int| 0 <= j < i ==> s@[j].0@ != k@,
        decreases s@.len() - i,
    {
        if s[i].0 == *k {
            return Some(i);
        }
        i = i + 1;
    }
    None
}

/// Whether no two entries of the list share a key.
pub fn keys_distinct<V>(s: &Vec<(String, V)>) -> (r: bool)
    ensures
        r == distinct_keys(s@),
{
    let mut i: usize = 0;
    while i < s.len()
        invariant
            i <= s@.len(),
            forall|a: int, b: int| 0 <= a < i && 0 <= b < s@.len() && a != b ==> s@[a].0@ != s@[b].0@,
        decreases s@.len() - i,
    {
        let mut j: usize = 0;
        while j < s.len()
            invariant
                i < s@.len(),
                j <= s@.len(),
                forall|a: int, b: int| 0 <= a < i && 0 <= b < s@.len() && a != b ==> s@[a].0@ != s@[b].0@,
                forall|b: int| 0 <= b < j && b != i ==> s@[i as int].0@ != s@[b].0@,
            decreases s@.len() - j,
        {
            if j != i && s[i].0 == s[j].0 {
                return false;
            }
            j = j + 1;
        }
        i = i + 1;
    }
    true
}

} // verus!
