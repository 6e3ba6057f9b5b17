//! Fault-injection bookkeeping for resilience testing.
//!
//! The injection itself — killing processes, dropping packets — happens in
//! the test harness outside; this module keeps the scenarios and tallies.

use vstd::prelude::*;

verus! {

/// What one injected failure does.
#[derive(Debug, Clone)]
pub enum ChaosFailure {
    /// Stop a node after a delay.
    KillNode { node_id: u64, after_ms: u64 },
    /// Cut the network between two groups.
    PartitionNetwork { group_a: Vec<u64>, group_b: Vec<u64>, after_ms: u64 },
    /// Drop a share of messages, in percent.
    DropMessages { percent: u8 },
    /// Delay messages by a bound, in milliseconds.
    DelayMessages { max_delay_ms: u64 },
}

/// A named sequence of failures to inject.
#[derive(Debug, Clone)]
pub struct ChaosScenario {
    pub name: String,
    pub duration_ms: u64,
    pub failures: Vec<ChaosFailure>,
}

/// Tallies of what the harness injected.
#[derive(Debug)]
pub struct ChaosStats {
    pub nodes_killed: usize,
    pub partitions_created: usize,
    pub messages_dropped: usize,
    pub messages_delayed: usize,
    pub messages_corrupted: usize,
}

impl ChaosStats {
    pub fn new() -> (r: ChaosStats)
        ensures
            r.nodes_killed == 0,
            r.partitions_created == 0,
            r.messages_dropped == 0,
            r.messages_delayed == 0,
            r.messages_corrupted == 0,
    {
        ChaosStats {
            nodes_killed: 0,
            partitions_created: 0,
            messages_dropped: 0,
            messages_delayed: 0,
            messages_corrupted: 0,
        }
    }
}

/// The stock scenarios.
pub struct ChaosScenarios;

impl ChaosScenarios {
    /// Stop one node mid-run.
    pub fn kill_random_node() -> (r: ChaosScenario)
        ensures
            r.failures@.len() == 1,
    {
        let mut failures: Vec<ChaosFailure> = Vec::new();
        failures.push(ChaosFailure::KillNode { node_id: 2, after_ms: 10000 });
        ChaosScenario {
            name: String::from_str("Kill Random Node"),
            duration_ms: 60000,
            failures,
        }
    }

    /// A lossy, slow network.
    pub fn flaky_network() -> (r: ChaosScenario)
        ensures
            r.failures@.len() == 2,
    {
        let mut failures: Vec<ChaosFailure> = Vec::new();
        failures.push(ChaosFailure::DropMessages { percent: 10 });
        failures.push(ChaosFailure::DelayMessages { max_delay_ms: 100 });
        ChaosScenario {
            name: String::from_str("Flaky Network"),
            duration_ms: 60000,
            failures,
        }
    }

    /// A cluster split into two groups.
    pub fn split_brain() -> (r: ChaosScenario)
        ensures
            r.failures@.len() == 1,
    {
        let mut group_a: Vec<u64> = Vec::new();
        group_a.push(1);
        let mut group_b: Vec<u64> = Vec::new();
        group_b.push(2);
        group_b.push(3);
        let mut failures: Vec<ChaosFailure> = Vec::new();
        failures.push(ChaosFailure::PartitionNetwork { group_a, group_b, after_ms: 5000 });
        ChaosScenario {
            name: String::from_str("Split Brain"),
            duration_ms: 30000,
            failures,
        }
    }
}

/// One scenario's outcome.
#[derive(Debug)]
pub struct TestResult {
    pub scenario_name: String,
    pub passed: bool,
    pub duration_ms: u64,
    pub errors: Vec<String>,
}

} // verus!
