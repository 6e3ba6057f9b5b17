//! Anomaly gradings for the monitoring collaborator.
//!
//! The statistical scoring itself works on floating-point feature vectors
//! and lives with the collaborator outside the verified core; the core only
//! defines the severity scale it reports.

use vstd::prelude::*;

verus! {

/// How far outside normal behavior an observation lies.
#[derive(Debug, Clone, Copy, PartialEq, Eq, Structural)]
pub enum AnomalySeverity {
    Low,
    Medium,
    High,
    Critical,
}

impl AnomalySeverity {
    /// The grade for a deviation measured in tenths of a standard deviation.
    pub fn grade(deviation_tenths: u64) -> (r: AnomalySeverity)
        ensures
            deviation_tenths >= 50 ==> r == AnomalySeverity::Critical,
            deviation_tenths < 50 && deviation_tenths >= 30 ==> r == AnomalySeverity::High,
            deviation_tenths < 30 && deviation_tenths >= 20 ==> r == AnomalySeverity::Medium,
            deviation_tenths < 20 ==> r == AnomalySeverity::Low,
    {
        if deviation_tenths >= 50 {
            AnomalySeverity::Critical
        } else if deviation_tenths >= 30 {
            AnomalySeverity::High
        } else if deviation_tenths >= 20 {
            AnomalySeverity::Medium
        } else {
            AnomalySeverity::Low
        }
    }
}

} // verus!
