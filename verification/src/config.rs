//! Configuration of a node and its cluster.
//!
//! Loading a file and reading environment overrides happen in the embedding
//! driver; the core holds the values and validates them.

use vstd::prelude::*;

verus! {

/// The complete configuration of one node.
#[derive(Debug, Clone)]
pub struct Config {
    pub node: NodeConfig,
    pub cluster: ClusterConfiguration,
    pub verification: VerificationConfig,
    pub consensus: ConsensusConfig,
    pub network: NetworkConfiguration,
    pub storage: StorageConfiguration,
    pub monitoring: MonitoringConfig,
    pub security: SecurityConfig,
    pub performance: PerformanceConfig,
}

#[derive(Debug, Clone)]
pub struct NodeConfig {
    pub id: u64,
    pub data_dir: String,
    pub log_level: String,
}

#[derive(Debug, Clone)]
pub struct ClusterConfiguration {
    pub peers: Vec<PeerConfig>,
    pub min_quorum: usize,
}

#[derive(Debug, Clone)]
pub struct PeerConfig {
    pub id: u64,
    pub address: String,
}

#[derive(Debug, Clone)]
pub struct VerificationConfig {
    pub enabled: bool,
    pub shadow_model: bool,
    pub max_verification_time_us: u64,
}

#[derive(Debug, Clone)]
pub struct ConsensusConfig {
    pub election_timeout_min_ms: u64,
    pub election_timeout_max_ms: u64,
    pub heartbeat_interval_ms: u64,
    pub max_entries_per_append: usize,
}

#[derive(Debug, Clone)]
pub struct NetworkConfiguration {
    pub listen_address: String,
    pub listen_port: u16,
    pub connect_timeout_ms: u64,
    pub max_connections: usize,
    pub tcp_nodelay: bool,
    pub tcp_keepalive: bool,
}

#[derive(Debug, Clone)]
pub struct StorageConfiguration {
    pub wal_dir: String,
    pub snapshot_dir: String,
    pub max_wal_size_mb: usize,
    pub snapshot_interval: usize,
    pub sync_on_write: bool,
    pub compression: bool,
}

#[derive(Debug, Clone)]
pub struct MonitoringConfig {
    pub enabled: bool,
    pub metrics_port: u16,
    pub health_check_interval_s: u64,
    pub alert_webhook_url: Option<String>,
}

#[derive(Debug, Clone)]
pub struct SecurityConfig {
    pub enabled: bool,
    pub tls_cert: Option<String>,
    pub tls_key: Option<String>,
    pub admin_nodes: Vec<u64>,
    pub rate_limit_requests: usize,
    pub rate_limit_window_s: u64,
}

#[derive(Debug, Clone)]
pub struct PerformanceConfig {
    pub batch_size: usize,
    pub batch_timeout_ms: u64,
    pub cache_size: usize,
    pub worker_threads: usize,
}

/// Why a configuration was rejected.
#[derive(Debug)]
pub enum ConfigError {
    IoError(String),
    ParseError(String),
    SerializeError(String),
    ValidationError(String),
}

/// What a valid configuration satisfies.
pub open spec fn config_valid(c: Config) -> bool {
    &&& c.node.id != 0
    &&& c.cluster.peers@.len() > 0
    &&& c.cluster.min_quorum <= c.cluster.peers@.len()
    &&& c.consensus.election_timeout_min_ms < c.consensus.election_timeout_max_ms
}

impl Config {
    /// Accepts a configuration exactly when it is valid: a nonzero node id,
    /// a nonempty cluster, a quorum within the cluster, and ordered election
    /// timeouts.
    pub fn validate(&self) -> (r: Result<(), ConfigError>)
        ensures
            r is Ok <==> config_valid(*self),
    {
        if self.node.id == 0 {
            return Err(ConfigError::ValidationError(String::from_str("Node ID must be non-zero")));
        }
        if self.cluster.peers.len() == 0 {
            return Err(
                ConfigError::ValidationError(
                    String::from_str("Cluster must have at least one peer"),
                ),
            );
        }
        if self.cluster.min_quorum > self.cluster.peers.len() {
            let mut m = String::from_str("Quorum ");
            crate::text::push_u64(&mut m, self.cluster.min_quorum as u64);
            m.append(" exceeds total nodes ");
            crate::text::push_u64(&mut m, self.cluster.peers.len() as u64);
            return Err(ConfigError::ValidationError(m));
        }
        if self.consensus.election_timeout_min_ms >= self.consensus.election_timeout_max_ms {
            return Err(
                ConfigError::ValidationError(
                    String::from_str("Election timeout min must be < max"),
                ),
            );
        }
        Ok(())
    }

    /// The stock configuration of a node: a three-node local cluster with
    /// checking on and durable writes.
    pub fn default_for_node(node_id: u64) -> (r: Config)
        ensures
            r.node.id == node_id,
            node_id != 0 ==> config_valid(r),
    {
        let mut data_dir = String::from_str("/var/lib/lattice/node-");
        crate::text::push_u64(&mut data_dir, node_id);
        let mut wal_dir = String::from_str("/var/lib/lattice/node-");
        crate::text::push_u64(&mut wal_dir, node_id);
        wal_dir.append("/wal");
        let mut snapshot_dir = String::from_str("/var/lib/lattice/node-");
        crate::text::push_u64(&mut snapshot_dir, node_id);
        snapshot_dir.append("/snapshots");
        let mut peers: Vec<PeerConfig> = Vec::new();
        peers.push(PeerConfig { id: 1, address: String::from_str("127.0.0.1:5001") });
        peers.push(PeerConfig { id: 2, address: String::from_str("127.0.0.1:5002") });
        peers.push(PeerConfig { id: 3, address: String::from_str("127.0.0.1:5003") });
        let mut admin_nodes: Vec<u64> = Vec::new();
        admin_nodes.push(1);
        let listen_port: u16 = if node_id <= 60000 {
            5000 + (node_id as u16)
        } else {
            5000
        };
        let metrics_port: u16 = if node_id <= 56000 {
            9000 + (node_id as u16)
        } else {
            9000
        };
        Config {
            node: NodeConfig { id: node_id, data_dir, log_level: String::from_str("info") },
            cluster: ClusterConfiguration { peers, min_quorum: 2 },
            verification: VerificationConfig {
                enabled: true,
                shadow_model: true,
                max_verification_time_us: 1000,
            },
            consensus: ConsensusConfig {
                election_timeout_min_ms: 150,
                election_timeout_max_ms: 300,
                heartbeat_interval_ms: 50,
                max_entries_per_append: 100,
            },
            network: NetworkConfiguration {
                listen_address: String::from_str("0.0.0.0"),
                listen_port,
                connect_timeout_ms: 5000,
                max_connections: 100,
                tcp_nodelay: true,
                tcp_keepalive: true,
            },
            storage: StorageConfiguration {
                wal_dir,
                snapshot_dir,
                max_wal_size_mb: 64,
                snapshot_interval: 10000,
                sync_on_write: true,
                compression: false,
            },
            monitoring: MonitoringConfig {
                enabled: true,
                metrics_port,
                health_check_interval_s: 10,
                alert_webhook_url: None,
            },
            security: SecurityConfig {
                enabled: true,
                tls_cert: None,
                tls_key: None,
                admin_nodes,
                rate_limit_requests: 1000,
                rate_limit_window_s: 60,
            },
            performance: PerformanceConfig {
                batch_size: 100,
                batch_timeout_ms: 10,
                cache_size: 10000,
                worker_threads: 4,
            },
        }
    }
}

} // verus!
