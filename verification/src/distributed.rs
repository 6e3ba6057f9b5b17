//! Cluster topology: which nodes exist and how each one is configured.
//!
//! The complete node — sockets, timers, event loop — is assembled by the
//! embedding driver from these parts.

use crate::network::NetworkConfig;
use crate::raft::RaftConfig;
use crate::NodeId;
use vstd::prelude::*;

verus! {

/// The whole cluster's layout.
#[derive(Debug, Clone)]
pub struct ClusterConfig {
    pub nodes: Vec<NodeConfig>,
}

/// One node's identity and address.
#[derive(Debug, Clone)]
pub struct NodeConfig {
    pub id: NodeId,
    pub addr: String,
}

impl ClusterConfig {
    /// The stock local three-node cluster.
    pub fn three_node_cluster() -> (r: ClusterConfig)
        ensures
            r.nodes@.len() == 3,
            r.nodes@[0].id == 1,
            r.nodes@[1].id == 2,
            r.nodes@[2].id == 3,
    {
        let mut nodes: Vec<NodeConfig> = Vec::new();
        nodes.push(NodeConfig { id: 1, addr: String::from_str("127.0.0.1:5001") });
        nodes.push(NodeConfig { id: 2, addr: String::from_str("127.0.0.1:5002") });
        nodes.push(NodeConfig { id: 3, addr: String::from_str("127.0.0.1:5003") });
        ClusterConfig { nodes }
    }

    /// The transport configuration of one node: it listens on its own
    /// address and knows every other node's.
    pub fn network_config(&self, node_id: NodeId) -> (r: Option<NetworkConfig>)
        ensures
            r is Some <==> exists|i: int|
                0 <= i < self.nodes@.len() && (#[trigger] self.nodes@[i]).id == node_id,
    {
        let n = self.nodes.len();
        let mut listen_addr: Option<String> = None;
        let mut peers: Vec<(NodeId, String)> = Vec::new();
        let mut i: usize = 0;
        while i < n
            invariant
                0 <= i <= n,
                n == self.nodes@.len(),
                listen_addr is Some <==> exists|j: int|
                    0 <= j < i && (#[trigger] self.nodes@[j]).id == node_id,
            decreases n - i,
        {
            if self.nodes[i].id == node_id {
                listen_addr = Some(self.nodes[i].addr.clone());
            } else {
                peers.push((self.nodes[i].id, self.nodes[i].addr.clone()));
            }
            i = i + 1;
        }
        match listen_addr {
            Some(addr) => Some(
                NetworkConfig {
                    listen_addr: addr,
                    peers,
                    connect_timeout_ms: 1000,
                    retry_attempts: 3,
                },
            ),
            None => None,
        }
    }

    /// The consensus configuration of one node: the full voter set and the
    /// stock timeouts.
    pub fn raft_config(&self, node_id: NodeId) -> (r: RaftConfig)
        ensures
            r.peers@.len() == self.nodes@.len(),
            r.election_timeout_min == 150,
            r.election_timeout_max == 300,
            r.heartbeat_interval == 50,
    {
        let n = self.nodes.len();
        let mut peers: Vec<NodeId> = Vec::new();
        let mut i: usize = 0;
        while i < n
            invariant
                0 <= i <= n,
                n == self.nodes@.len(),
                peers@.len() == i,
            decreases n - i,
        {
            peers.push(self.nodes[i].id);
            i = i + 1;
        }
        RaftConfig {
            peers,
            election_timeout_min: 150,
            election_timeout_max: 300,
            heartbeat_interval: 50,
        }
    }
}

} // verus!
