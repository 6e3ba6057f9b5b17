//! Configuration and error taxonomy of the transport between nodes.
//!
//! The sockets themselves live in the embedding driver; the core defines
//! what a transport must be told and how its failures are classified.

use crate::NodeId;
use vstd::prelude::*;

verus! {

/// What the transport needs to know.
#[derive(Debug, Clone)]
pub struct NetworkConfig {
    /// The address this node listens on.
    pub listen_addr: String,
    /// Peer addresses by node.
    pub peers: Vec<(NodeId, String)>,
    /// Connection timeout, milliseconds.
    pub connect_timeout_ms: u64,
    /// How many times to retry a failed send.
    pub retry_attempts: usize,
}

impl NetworkConfig {
    /// The address of a peer, if configured.
    pub fn peer_addr(&self, node: NodeId) -> (r: Option<&String>)
        ensures
            r is Some ==> exists|i: int|
                0 <= i < self.peers@.len() && (#[trigger] self.peers@[i]).0 == node,
    {
        let n = self.peers.len();
        let mut i: usize = 0;
        while i < n
            invariant
                0 <= i <= n,
                n == self.peers@.len(),
            decreases n - i,
        {
            if self.peers[i].0 == node {
                return Some(&self.peers[i].1);
            }
            i = i + 1;
        }
        None
    }
}

/// The ways the transport can fail.
#[derive(Debug)]
pub enum NetworkError {
    BindError(String),
    ConnectError(String),
    SendError(String),
    ReceiveError(String),
    SerializeError(String),
    DeserializeError(String),
    UnknownPeer(NodeId),
}

} // verus!
