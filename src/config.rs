//! A node's static configuration.

use vstd::prelude::*;
use crate::server::ReplicationServer;

verus! {

/// Who a node is, where it listens, and which peers it gossips with.
pub struct Config {
    pub node_id: String,
    pub listen_address: String,
    pub peers: Vec<String>,
}

impl Config {
    /// A node with an empty store, named and connected as configured.
    pub fn into_server(self) -> (r: ReplicationServer)
        ensures
            r.store.well_formed(),
            r.store@.dom().is_empty(),
            r.node_id == self.node_id,
            r.peers == self.peers,
    {
        ReplicationServer::new(self.node_id, self.peers)
    }
}

} // verus!
