//! The decisions of the gossip engine: which peers a round reaches, which
//! connections it reuses, and what it pushes.

use vstd::prelude::*;
use crate::keyed::{
    as_map, distinct_keys, find_key, lemma_as_map_dom, lemma_as_map_index, lemma_as_map_push,
    lemma_as_map_update,
};
use crate::server::ReplicationServer;
use crate::value::CRDTValue;

verus! {

/// How many peers a round reaches at most.
pub const FANOUT: usize = 3;

/// Relies on `rand::seq::index::sample`: `amount` distinct indices below
/// `length`, drawn at random; it panics where `amount > length`.
#[verifier::external_body]
fn sample_indices(length: usize, amount: usize) -> (r: Vec<usize>)
    requires
        amount <= length,
    ensures
        r@.len() == amount,
        forall|i: int| 0 <= i < r@.len() ==> r@[i] < length,
        forall|i: int, j: int| 0 <= i < j < r@.len() ==> r@[i] != r@[j],
{
    rand::seq::index::sample(&mut rand::rng(), length, amount).into_vec()
}

/// The peers at positions `idx`, in that order.
pub open spec fn picked(peers: Seq<String>, idx: Seq<usize>, r: Seq<String>) -> bool {
    &&& r.len() == idx.len()
    &&& forall|i: int| 0 <= i < idx.len() ==> idx[i] < peers.len() && r[i] == peers[idx[i] as int]
    &&& forall|i: int, j: int| 0 <= i < j < idx.len() ==> idx[i] != idx[j]
}

/// The addresses at the chosen positions.
pub fn peers_at(peers: &Vec<String>, idx: &Vec<usize>) -> (r: Vec<String>)
    requires
        forall|i: int| 0 <= i < idx@.len() ==> idx@[i] < peers@.len(),
    ensures
        r@.len() == idx@.len(),
        forall|i: int| 0 <= i < idx@.len() ==> r@[i] == peers@[idx@[i] as int],
{
    let mut r: Vec<String> = Vec::new();
    let mut i: usize = 0;
    while i < idx.len()
        invariant
            i <= idx@.len(),
            forall|m: int| 0 <= m < idx@.len() ==> idx@[m] < peers@.len(),
            r@.len() == i,
            forall|m: int| 0 <= m < i ==> r@[m] == peers@[idx@[m] as int],
        decreases idx@.len() - i,
    {
        r.push(peers[idx[i]].clone());
        i = i + 1;
    }
    r
}

/// Chooses `k` of the peers at random, each at most once; all of them where
/// there are no more than `k`.
pub fn choose_peers(peers: &Vec<String>, k: usize) -> (r: Vec<String>)
    ensures
        r@.len() == if peers@.len() < k { peers@.len() } else { k as nat },
        exists|idx: Seq<usize>| picked(peers@, idx, r@),
{
    let amount = if peers.len() < k { peers.len() } else { k };
    let idx = sample_indices(peers.len(), amount);
    let r = peers_at(peers, &idx);
    assert(picked(peers@, idx@, r@));
    r
}

/// Established connections, one per peer address, reused from round to
/// round.
pub struct ConnectionPool<C> {
    entries: Vec<(String, C)>,
}

impl<C> View for ConnectionPool<C> {
    type V = Map<Seq<char>, C>;

    closed spec fn view(&self) -> Map<Seq<char>, C> {
        as_map(self.entries@)
    }
}

impl<C> ConnectionPool<C> {
    /// The pool's invariant: one entry per address.
    pub closed spec fn well_formed(&self) -> bool {
        distinct_keys(self.entries@)
    }

    /// A pool with no connections.
    pub fn new() -> (r: ConnectionPool<C>)
        ensures
            r.well_formed(),
            r@.dom().is_empty(),
    {
        let r = ConnectionPool { entries: Vec::new() };
        assert(r@.dom() =~= Set::<Seq<char>>::empty());
        r
    }

    /// The connection to `addr`, where one was established.
    pub fn get(&self, addr: &String) -> (r: Option<&C>)
        requires
            self.well_formed(),
        ensures
            match r {
                Some(c) => self@.contains_key(addr@) && *c == self@[addr@],
                None => !self@.contains_key(addr@),
            },
    {
        match find_key(&self.entries, addr) {
            Some(i) => {
                proof {
                    lemma_as_map_index(self.entries@, i as int);
                }
                Some(&self.entries[i].1)
            },
            None => {
                proof {
                    lemma_as_map_dom(self.entries@, addr@);
                }
                None
            },
        }
    }

    /// Keeps `conn` as the connection to `addr`, replacing any earlier one.
    pub fn insert(&mut self, addr: String, conn: C)
        requires
            old(self).well_formed(),
        ensures
            final(self).well_formed(),
            final(self)@ == old(self)@.insert(addr@, conn),
    {
        let ghost before = self.entries@;
        match find_key(&self.entries, &addr) {
            Some(i) => {
                self.entries.set(i, (addr, conn));
                proof {
                    lemma_as_map_update(before, i as int, self.entries@[i as int]);
                }
            },
            None => {
                proof {
                    lemma_as_map_dom(before, addr@);
                }
                self.entries.push((addr, conn));
                proof {
                    lemma_as_map_push(before, self.entries@.last());
                    assert(self.entries@ =~= before.push(self.entries@.last()));
                }
            },
        }
    }

    /// Drops the connection to `addr`, so that the next round connects anew.
    pub fn forget(&mut self, addr: &String)
        requires
            old(self).well_formed(),
        ensures
            final(self).well_formed(),
            final(self)@ == old(self)@.remove(addr@),
    {
        let ghost before = self.entries@;
        match find_key(&self.entries, addr) {
            Some(i) => {
                let _ = self.entries.swap_remove(i);
                proof {
                    lemma_forget(before, i as int);
                }
            },
            None => {
                proof {
                    lemma_as_map_dom(before, addr@);
                }
                assert(self@ =~= old(self)@.remove(addr@));
            },
        }
    }
}

/// Moving the last entry into position `i` and dropping the old last one
/// removes the key at `i`.
proof fn lemma_forget<C>(s: Seq<(String, C)>, i: int)
    requires
        distinct_keys(s),
        0 <= i < s.len(),
    ensures
        distinct_keys(s.update(i, s.last()).drop_last()),
        as_map(s.update(i, s.last()).drop_last()) == as_map(s).remove(s[i].0@),
{
    let t = s.update(i, s.last()).drop_last();
    let k = s[i].0@;
    assert(distinct_keys(t)) by {
        assert forall|a: int, b: int| 0 <= a < t.len() && 0 <= b < t.len() && a != b implies t[a].0@
            != t[b].0@ by {
            let sa = if a == i { s.len() - 1 } else { a };
            let sb = if b == i { s.len() - 1 } else { b };
            assert(t[a] == s[sa] && t[b] == s[sb]);
        }
    }
    assert forall|key: Seq<char>| #[trigger] as_map(t).contains_key(key) <==> as_map(s).remove(k).contains_key(key) by {
        lemma_as_map_dom(t, key);
        lemma_as_map_dom(s, key);
        if as_map(s).remove(k).contains_key(key) {
            let j = choose|j: int| 0 <= j < s.len() && s[j].0@ == key;
            if j == s.len() - 1 {
                if i < s.len() - 1 {
                    assert(t[i].0@ == key);
                }
            } else {
                assert(t[j].0@ == key);
            }
        }
        if as_map(t).contains_key(key) {
            let j = choose|j: int| 0 <= j < t.len() && t[j].0@ == key;
            let sj = if j == i { s.len() - 1 } else { j };
            assert(t[j] == s[sj]);
        }
    }
    assert forall|key: Seq<char>| #[trigger] as_map(t).contains_key(key) implies as_map(t)[key] == as_map(s)[key] by {
        lemma_as_map_dom(t, key);
        let j = choose|j: int| 0 <= j < t.len() && t[j].0@ == key;
        let sj = if j == i { s.len() - 1 } else { j };
        assert(t[j] == s[sj]);
        lemma_as_map_index(t, j);
        lemma_as_map_index(s, sj);
    }
    assert(as_map(t) =~= as_map(s).remove(k));
}

/// What one gossip round sends: every key's value, to each chosen peer.
pub struct GossipRound {
    pub targets: Vec<String>,
    pub updates: Vec<(String, CRDTValue)>,
}

impl ReplicationServer {
    /// Plans a gossip round: up to `FANOUT` peers chosen at random, and a
    /// copy of every key's current value.
    pub fn gossip_round(&mut self) -> (r: GossipRound)
        requires
            old(self).store.well_formed(),
        ensures
            final(self).store.well_formed(),
            final(self).store@ == old(self).store@,
            final(self).node_id == old(self).node_id,
            final(self).peers == old(self).peers,
            r.targets@.len() == if old(self).peers@.len() < FANOUT { old(self).peers@.len() } else { FANOUT as nat },
            exists|idx: Seq<usize>| picked(old(self).peers@, idx, r.targets@),
            forall|t: Seq<char>|
                old(self).store@.contains_key(t) <==> exists|j: int| 0 <= j < r.updates@.len() && r.updates@[j].0@ == t,
            forall|j: int|
                0 <= j < r.updates@.len() ==> {
                    &&& old(self).store@.contains_key(#[trigger] r.updates@[j].0@)
                    &&& r.updates@[j].1.same_as(&old(self).store@[r.updates@[j].0@])
                    &&& r.updates@[j].1.well_formed()
                },
    {
        let targets = choose_peers(&self.peers, FANOUT);
        let keys = self.store.keys();
        let mut updates: Vec<(String, CRDTValue)> = Vec::new();
        let mut i: usize = 0;
        while i < keys.len()
            invariant
                i <= keys@.len(),
                self.store.well_formed(),
                self.store@ == old(self).store@,
                self.node_id == old(self).node_id,
                self.peers == old(self).peers,
                forall|t: Seq<char>|
                    self.store@.contains_key(t) <==> exists|j: int| 0 <= j < keys@.len() && keys@[j]@ == t,
                updates@.len() == i,
                forall|j: int| 0 <= j < i ==> updates@[j].0@ == keys@[j]@,
                forall|j: int|
                    0 <= j < i ==> {
                        &&& self.store@.contains_key(#[trigger] updates@[j].0@)
                        &&& updates@[j].1.same_as(&self.store@[updates@[j].0@])
                        &&& updates@[j].1.well_formed()
                    },
            decreases keys@.len() - i,
        {
            let key = keys[i].clone();
            assert(self.store@.contains_key(keys@[i as int]@));
            match self.store.read(&key) {
                Some(v) => {
                    updates.push((key, v));
                },
                None => {
                    assert(false);
                },
            }
            i = i + 1;
        }
        proof {
            assert forall|t: Seq<char>| self.store@.contains_key(t) implies exists|j: int|
                0 <= j < updates@.len() && updates@[j].0@ == t by {
                let j = choose|j: int| 0 <= j < keys@.len() && keys@[j]@ == t;
                assert(updates@[j].0@ == t);
            }
            assert forall|t: Seq<char>| (exists|j: int| 0 <= j < updates@.len() && updates@[j].0@ == t) implies self.store@.contains_key(t) by {
                let j = choose|j: int| 0 <= j < updates@.len() && updates@[j].0@ == t;
                assert(self.store@.contains_key(updates@[j].0@));
            }
        }
        let ghost u = updates@;
        let r = GossipRound { targets, updates };
        assert(r.updates@ == u);
        assert(forall|t: Seq<char>|
            old(self).store@.contains_key(t) <==> exists|j: int| 0 <= j < r.updates@.len() && r.updates@[j].0@ == t);
        r
    }
}

} // verus!
