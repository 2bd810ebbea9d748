//! The replication service: the requests of clients and of peers, turned
//! into operations on the store.

use vstd::prelude::*;
use crate::codec::{be_value, decode_u64_be};
use crate::pn_counter::PNCounter;
use crate::store::{merge_in_effect, ReplicatedStore};
use crate::tally::{map_sum, recorded};
use crate::value::{CRDTValue, MergeOutcome};

verus! {

/// The operations a client names in a request.
#[derive(PartialEq, Eq, Structural, Debug, Clone, Copy)]
pub enum Command {
    /// `CSET`: replace the key's value by a counter of this node.
    CounterSet,
    /// `CGET`: read the key's counter.
    CounterGet,
    /// `CINC`: add increments by this node to the key's counter.
    CounterIncrement,
    /// `CDEC`: add decrements by this node to the key's counter.
    CounterDecrement,
}

/// Why a client request was refused. The store is left as it was.
#[derive(PartialEq, Eq, Structural, Debug, Clone, Copy)]
pub enum ServiceError {
    /// The payload does not have the shape the operation needs.
    InvalidArgument,
    /// The operation is unknown.
    NotSupported,
    /// No value is stored under the key.
    NotFound,
    /// The value under the key is of another type.
    TypeMismatch,
    /// The counter's totals would not fit in `u64`.
    Overflow,
}

/// The answer to a client request that succeeded.
#[derive(PartialEq, Eq, Structural, Debug, Clone, Copy)]
pub struct PropagateReply {
    pub success: bool,
    /// For a read, the counter's value.
    pub value: Option<i128>,
}

/// The answer to a peer's push.
#[derive(PartialEq, Eq, Structural, Debug, Clone, Copy)]
pub struct GossipReply {
    pub success: bool,
    pub outcome: MergeOutcome,
}

/// The operation that a request's value type names.
pub open spec fn command_of(token: Seq<char>) -> Option<Command> {
    if token == "CSET"@ {
        Some(Command::CounterSet)
    } else if token == "CGET"@ {
        Some(Command::CounterGet)
    } else if token == "CINC"@ {
        Some(Command::CounterIncrement)
    } else if token == "CDEC"@ {
        Some(Command::CounterDecrement)
    } else {
        None
    }
}

/// Reads the operation that a request's value type names.
pub fn parse_command(token: &String) -> (r: Option<Command>)
    ensures
        r == command_of(token@),
{
    if *token == "CSET".to_owned() {
        Some(Command::CounterSet)
    } else if *token == "CGET".to_owned() {
        Some(Command::CounterGet)
    } else if *token == "CINC".to_owned() {
        Some(Command::CounterIncrement)
    } else if *token == "CDEC".to_owned() {
        Some(Command::CounterDecrement)
    } else {
        None
    }
}

/// What a client request does to the store `s0` of node `node`: the result
/// `r` and the store `s1` after it.
pub open spec fn propagate_effect(
    s0: Map<Seq<char>, CRDTValue>,
    s1: Map<Seq<char>, CRDTValue>,
    node: Seq<char>,
    token: Seq<char>,
    key: Seq<char>,
    payload: Seq<u8>,
    r: Result<PropagateReply, ServiceError>,
) -> bool {
    match command_of(token) {
        None => r == Err::<PropagateReply, ServiceError>(ServiceError::NotSupported) && s1 == s0,
        Some(Command::CounterSet) => if payload.len() == 8 {
            &&& r == Ok::<PropagateReply, ServiceError>(PropagateReply { success: true, value: None })
            &&& s1.dom() == s0.dom().insert(key)
            &&& forall|k: Seq<char>| k != key && #[trigger] s0.contains_key(k) ==> s1[k] == s0[k]
            &&& s1[key] is Counter
            &&& s1[key]->Counter_0@.0 == Map::<Seq<char>, u64>::empty().insert(node, be_value(payload) as u64)
            &&& s1[key]->Counter_0@.1 == Map::<Seq<char>, u64>::empty().insert(node, 0u64)
        } else {
            r == Err::<PropagateReply, ServiceError>(ServiceError::InvalidArgument) && s1 == s0
        },
        Some(Command::CounterGet) => {
            &&& s1 == s0
            &&& if payload.len() != 0 {
                r == Err::<PropagateReply, ServiceError>(ServiceError::InvalidArgument)
            } else if !s0.contains_key(key) {
                r == Err::<PropagateReply, ServiceError>(ServiceError::NotFound)
            } else if s0[key] is ASet {
                r == Err::<PropagateReply, ServiceError>(ServiceError::TypeMismatch)
            } else {
                &&& r is Ok
                &&& r->Ok_0.success
                &&& r->Ok_0.value is Some
                &&& r->Ok_0.value->Some_0 == s0[key]->Counter_0.value_spec()
            }
        },
        Some(c) => {
            if payload.len() != 8 {
                r == Err::<PropagateReply, ServiceError>(ServiceError::InvalidArgument) && s1 == s0
            } else if !s0.contains_key(key) {
                r == Err::<PropagateReply, ServiceError>(ServiceError::NotFound) && s1 == s0
            } else if s0[key] is ASet {
                r == Err::<PropagateReply, ServiceError>(ServiceError::TypeMismatch) && s1 == s0
            } else {
                let old_c = s0[key]->Counter_0@;
                let side = if c == Command::CounterIncrement { old_c.0 } else { old_c.1 };
                let amount = be_value(payload);
                if map_sum(side) + amount > u64::MAX {
                    r == Err::<PropagateReply, ServiceError>(ServiceError::Overflow) && s1 == s0
                } else {
                    let new_side = side.insert(node, (recorded(side, node) + amount) as u64);
                    &&& r == Ok::<PropagateReply, ServiceError>(PropagateReply { success: true, value: None })
                    &&& s1.dom() == s0.dom()
                    &&& forall|k: Seq<char>| k != key && #[trigger] s0.contains_key(k) ==> s1[k] == s0[k]
                    &&& s1[key] is Counter
                    &&& s1[key]->Counter_0@ == if c == Command::CounterIncrement {
                        (new_side, old_c.1)
                    } else {
                        (old_c.0, new_side)
                    }
                }
            }
        },
    }
}

/// A node: its store, its identity and the addresses of its peers.
pub struct ReplicationServer {
    pub store: ReplicatedStore,
    pub node_id: String,
    pub peers: Vec<String>,
}

impl ReplicationServer {
    /// A node with an empty store.
    pub fn new(node_id: String, peers: Vec<String>) -> (r: ReplicationServer)
        ensures
            r.store.well_formed(),
            r.store@.dom().is_empty(),
            r.node_id == node_id,
            r.peers == peers,
    {
        ReplicationServer { store: ReplicatedStore::new(), node_id, peers }
    }

    /// Serves a client request: `value_type` names the operation, `value`
    /// is its payload (an eight-byte big-endian integer for `CSET`, `CINC`
    /// and `CDEC`; empty for `CGET`).
    pub fn propagate_data(&mut self, value_type: &String, key: String, value: &Vec<u8>) -> (r: Result<
        PropagateReply,
        ServiceError,
    >)
        requires
            old(self).store.well_formed(),
        ensures
            final(self).store.well_formed(),
            final(self).node_id == old(self).node_id,
            final(self).peers == old(self).peers,
            propagate_effect(
                old(self).store@,
                final(self).store@,
                old(self).node_id@,
                value_type@,
                key@,
                value@,
                r,
            ),
    {
        match parse_command(value_type) {
            None => Err(ServiceError::NotSupported),
            Some(Command::CounterSet) => match decode_u64_be(value) {
                None => Err(ServiceError::InvalidArgument),
                Some(v) => {
                    let c = PNCounter::new(&self.node_id, v, 0);
                    self.store.write(key, CRDTValue::Counter(c));
                    Ok(PropagateReply { success: true, value: None })
                },
            },
            Some(Command::CounterGet) => {
                if value.len() != 0 {
                    return Err(ServiceError::InvalidArgument);
                }
                match self.store.read(&key) {
                    None => Err(ServiceError::NotFound),
                    Some(CRDTValue::ASet(_)) => Err(ServiceError::TypeMismatch),
                    Some(CRDTValue::Counter(c)) => Ok(PropagateReply { success: true, value: Some(c.value()) }),
                }
            },
            Some(cmd) => {
                let amount = match decode_u64_be(value) {
                    None => {
                        return Err(ServiceError::InvalidArgument);
                    },
                    Some(a) => a,
                };
                match self.store.read(&key) {
                    None => Err(ServiceError::NotFound),
                    Some(CRDTValue::ASet(_)) => Err(ServiceError::TypeMismatch),
                    Some(CRDTValue::Counter(mut c)) => {
                        let ok = if cmd == Command::CounterIncrement {
                            c.increment_by(&self.node_id, amount)
                        } else {
                            c.decrement_by(&self.node_id, amount)
                        };
                        if ok {
                            let ghost s0 = self.store@;
                            self.store.write(key, CRDTValue::Counter(c));
                            assert(self.store@.dom() =~= s0.dom());
                            Ok(PropagateReply { success: true, value: None })
                        } else {
                            Err(ServiceError::Overflow)
                        }
                    },
                }
            },
        }
    }

    /// Serves a peer's push: merges `payload` into the value under `key`.
    /// Always succeeds; the outcome says whether the types matched.
    pub fn gossip_changes(&mut self, key: String, payload: CRDTValue) -> (r: GossipReply)
        requires
            old(self).store.well_formed(),
            payload.well_formed(),
        ensures
            r.success,
            final(self).store.well_formed(),
            final(self).node_id == old(self).node_id,
            final(self).peers == old(self).peers,
            merge_in_effect(old(self).store@, final(self).store@, key@, payload, r.outcome),
    {
        let outcome = self.store.merge_in(key, payload);
        GossipReply { success: true, outcome }
    }
}

} // verus!
