//! Observability records: metrics, health reports, alerts and traces.
//!
//! These are the values the monitoring collaborator consumes; collecting
//! them from timers and emitting them over the network is the embedding
//! driver's job.

use crate::NodeId;
use vstd::prelude::*;

verus! {

/// Counts of error events by kind.
#[derive(Debug, Clone)]
pub struct ErrorMetrics {
    /// Divergences detected.
    pub divergences: u64,
    /// Invariant violations.
    pub invariant_violations: u64,
    /// Network errors.
    pub network_errors: u64,
    /// Storage errors.
    pub storage_errors: u64,
    /// Recovery attempts.
    pub recovery_attempts: u64,
}

impl ErrorMetrics {
    pub fn new() -> (r: ErrorMetrics)
        ensures
            r.divergences == 0,
            r.invariant_violations == 0,
            r.network_errors == 0,
            r.storage_errors == 0,
            r.recovery_attempts == 0,
    {
        ErrorMetrics {
            divergences: 0,
            invariant_violations: 0,
            network_errors: 0,
            storage_errors: 0,
            recovery_attempts: 0,
        }
    }

    /// Count one error of the given kind, saturating at the counter's range.
    pub fn record(&mut self, kind: ErrorType)
        ensures
            match kind {
                ErrorType::Divergence => final(self).divergences == if old(self).divergences
                    < u64::MAX {
                    (old(self).divergences + 1) as u64
                } else {
                    old(self).divergences
                },
                _ => final(self).divergences == old(self).divergences,
            },
    {
        match kind {
            ErrorType::Divergence => {
                if self.divergences < u64::MAX {
                    self.divergences = self.divergences + 1;
                }
            },
            ErrorType::InvariantViolation => {
                if self.invariant_violations < u64::MAX {
                    self.invariant_violations = self.invariant_violations + 1;
                }
            },
            ErrorType::Network => {
                if self.network_errors < u64::MAX {
                    self.network_errors = self.network_errors + 1;
                }
            },
            ErrorType::Storage => {
                if self.storage_errors < u64::MAX {
                    self.storage_errors = self.storage_errors + 1;
                }
            },
            ErrorType::Recovery => {
                if self.recovery_attempts < u64::MAX {
                    self.recovery_attempts = self.recovery_attempts + 1;
                }
            },
        }
    }
}

/// The kinds of errors the metrics distinguish.
#[derive(Debug, Clone, Copy)]
pub enum ErrorType {
    Divergence,
    InvariantViolation,
    Network,
    Storage,
    Recovery,
}

/// A node's health, with the outcome of each individual check.
#[derive(Debug, Clone)]
pub struct HealthStatus {
    pub node_id: NodeId,
    pub healthy: bool,
    pub status: String,
    pub checks: Vec<(String, CheckResult)>,
    pub last_check: u64,
}

/// The outcome of one health check.
#[derive(Debug, Clone)]
pub struct CheckResult {
    pub passed: bool,
    pub message: String,
    pub latency_ms: u64,
}

impl HealthStatus {
    /// A fresh, healthy report.
    pub fn new(node_id: NodeId) -> (r: HealthStatus)
        ensures
            r.healthy,
            r.node_id == node_id,
            r.checks@.len() == 0,
    {
        HealthStatus {
            node_id,
            healthy: true,
            status: String::from_str("OK"),
            checks: Vec::new(),
            last_check: 0,
        }
    }

    /// Record one check's outcome; any failed check marks the node unhealthy.
    pub fn record_check(&mut self, name: String, result: CheckResult, now_ms: u64)
        ensures
            final(self).healthy == (old(self).healthy && result.passed),
            final(self).checks@.len() == old(self).checks@.len() + 1,
            final(self).last_check == now_ms,
    {
        self.healthy = self.healthy && result.passed;
        self.checks.push((name, result));
        self.last_check = now_ms;
    }
}

/// How urgent an alert is.
#[derive(Debug, Clone, Copy, PartialEq, Eq, Structural)]
pub enum Severity {
    Info,
    Warning,
    Error,
    Critical,
}

/// An alert raised by a monitoring rule.
#[derive(Debug, Clone)]
pub struct Alert {
    pub rule_name: String,
    pub severity: String,
    pub message: String,
    pub triggered_at: u64,
    pub node_id: NodeId,
}

/// A distributed trace: one request's spans across the cluster.
#[derive(Debug, Clone)]
pub struct Trace {
    pub id: u64,
    pub started_at: u64,
    pub spans: Vec<Span>,
}

/// One timed section of work within a trace.
#[derive(Debug, Clone)]
pub struct Span {
    pub name: String,
    pub node_id: NodeId,
    pub started_at: u64,
    pub duration_us: Option<u64>,
    pub tags: Vec<(String, String)>,
}

impl Trace {
    pub fn new(id: u64, now_ms: u64) -> (r: Trace)
        ensures
            r.spans@.len() == 0,
            r.id == id,
    {
        Trace { id, started_at: now_ms, spans: Vec::new() }
    }

    /// Add a finished span.
    pub fn add_span(&mut self, span: Span)
        ensures
            final(self).spans@.len() == old(self).spans@.len() + 1,
            final(self).spans@.last() == span,
    {
        self.spans.push(span);
    }
}

} // verus!
