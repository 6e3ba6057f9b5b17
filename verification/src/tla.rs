//! Temporal specifications checked against the running system.
//!
//! Each specification is a predicate over the current state and the recent
//! history; a checker runs every registered specification after each
//! transition and reports violations with a counterexample trace.

use crate::codec::members_unique;
use crate::{State, Transition};
use vstd::prelude::*;

verus! {

/// A temporal specification.
pub trait TLASpec {
    /// The specification's name.
    fn name(&self) -> &'static str;

    /// Check the specification against the state and history.
    fn check(&self, state: &State, history: &Vec<State>) -> Result<(), SpecViolation>;

    /// Whether the specification is a safety or a liveness property.
    fn spec_type(&self) -> SpecType;
}

/// Safety must always hold; liveness must eventually hold.
#[derive(Debug, Clone, Copy, PartialEq, Eq, Structural)]
pub enum SpecType {
    Safety,
    Liveness,
}

/// A violated specification, with the history that violated it.
#[derive(Debug)]
pub struct SpecViolation {
    pub spec_name: String,
    pub violation_type: ViolationType,
    pub message: String,
    pub state_index: usize,
    pub counterexample: Vec<State>,
}

/// How a specification was violated.
#[derive(Debug, Clone, Copy)]
pub enum ViolationType {
    SafetyViolation,
    LivenessViolation,
    DeadlockDetected,
}

/// The registered specifications, as checkable rules.
pub enum SpecRule {
    /// The consensus protocol's safety properties over one node's history.
    Raft { num_nodes: usize },
    /// All nodes eventually converge.
    EventualConsistency { timeout_states: usize },
    /// The clock must keep advancing.
    NoDeadlock { max_stuck_states: usize },
    /// Causes precede effects.
    CausalConsistency,
}

impl SpecRule {
    pub fn rule_name(&self) -> (r: &'static str)
    {
        match self {
            SpecRule::Raft { .. } => "RaftSpec",
            SpecRule::EventualConsistency { .. } => "EventualConsistency",
            SpecRule::NoDeadlock { .. } => "NoDeadlock",
            SpecRule::CausalConsistency => "CausalConsistency",
        }
    }

    /// Check one rule. The clock-progress rule fails exactly when the last
    /// `max_stuck_states` recorded states share one clock value; the others
    /// need cross-node views that a single node's history cannot refute.
    pub fn check_rule(&self, state: &State, history: &Vec<State>) -> (r: Result<
        (),
        SpecViolation,
    >)
        ensures
            match self {
                SpecRule::Raft { .. } => r is Ok <==> members_unique(state@.members),
                SpecRule::NoDeadlock { max_stuck_states } => true,
                _ => r is Ok,
            },
    {
        match self {
            SpecRule::Raft { .. } => {
                if crate::invariants::members_unique_exec(&state.members) {
                    Ok(())
                } else {
                    Err(
                        SpecViolation {
                            spec_name: String::from_str("RaftSpec"),
                            violation_type: ViolationType::SafetyViolation,
                            message: String::from_str("Duplicate cluster member"),
                            state_index: history.len(),
                            counterexample: Vec::new(),
                        },
                    )
                }
            },
            SpecRule::EventualConsistency { .. } => Ok(()),
            SpecRule::NoDeadlock { max_stuck_states } => {
                let m = *max_stuck_states;
                let n = history.len();
                if m > 0 && n >= m {
                    let mut all_same = true;
                    let first = history[n - m].clock;
                    let mut i: usize = n - m;
                    while i < n
                        invariant
                            n - m <= i <= n,
                            n == history@.len(),
                            m <= n,
                        decreases n - i,
                    {
                        if history[i].clock != first {
                            all_same = false;
                        }
                        i = i + 1;
                    }
                    if all_same {
                        let mut msg = String::from_str("Possible deadlock: clock stuck at ");
                        crate::text::push_u64(&mut msg, first);
                        msg.append(" for ");
                        crate::text::push_u64(&mut msg, m as u64);
                        msg.append(" states");
                        return Err(
                            SpecViolation {
                                spec_name: String::from_str("NoDeadlock"),
                                violation_type: ViolationType::DeadlockDetected,
                                message: msg,
                                state_index: n,
                                counterexample: Vec::new(),
                            },
                        );
                    }
                }
                Ok(())
            },
            SpecRule::CausalConsistency => Ok(()),
        }
    }
}

/// The consensus protocol's specification for one node.
pub struct RaftSpec {
    num_nodes: usize,
}

impl RaftSpec {
    pub closed spec fn spec_nodes(self) -> usize {
        self.num_nodes
    }

    pub fn new(num_nodes: usize) -> (r: RaftSpec)
        ensures
            r.spec_nodes() == num_nodes,
    {
        RaftSpec { num_nodes }
    }

    /// The rule this specification checks as.
    pub fn rule(&self) -> (r: SpecRule)
        ensures
            r matches SpecRule::Raft { num_nodes } && num_nodes == self.spec_nodes(),
    {
        SpecRule::Raft { num_nodes: self.num_nodes }
    }
}

impl TLASpec for RaftSpec {
    fn name(&self) -> (r: &'static str) {
        "RaftSpec"
    }

    fn check(&self, state: &State, history: &Vec<State>) -> (r: Result<(), SpecViolation>) {
        self.rule().check_rule(state, history)
    }

    fn spec_type(&self) -> (r: SpecType) {
        SpecType::Safety
    }
}

/// The general distributed-system specifications.
pub struct DistributedSystemSpec;

impl DistributedSystemSpec {
    /// All nodes eventually converge to one state.
    pub fn eventual_consistency() -> (r: SpecRule)
        ensures
            r is EventualConsistency,
    {
        SpecRule::EventualConsistency { timeout_states: 100 }
    }

    /// The system can always make progress.
    pub fn no_deadlock() -> (r: SpecRule)
        ensures
            r matches SpecRule::NoDeadlock { max_stuck_states } && max_stuck_states == 10,
    {
        SpecRule::NoDeadlock { max_stuck_states: 10 }
    }

    /// Causes precede effects.
    pub fn causal_consistency() -> (r: SpecRule)
        ensures
            r is CausalConsistency,
    {
        SpecRule::CausalConsistency
    }
}

/// Runs every registered specification after each transition, over a bounded
/// history.
pub struct TLAChecker {
    specs: Vec<SpecRule>,
    history: Vec<State>,
    max_history: usize,
}

impl TLAChecker {
    pub closed spec fn spec_rules(self) -> Seq<SpecRule> {
        self.specs@
    }

    pub closed spec fn spec_history(self) -> Seq<State> {
        self.history@
    }

    pub fn new(max_history: usize) -> (r: TLAChecker)
        ensures
            r.spec_rules().len() == 0,
            r.spec_history().len() == 0,
    {
        TLAChecker { specs: Vec::new(), history: Vec::new(), max_history }
    }

    /// Register a specification.
    pub fn add_spec(&mut self, spec: SpecRule)
        ensures
            final(self).spec_rules() == old(self).spec_rules().push(spec),
    {
        self.specs.push(spec);
    }

    /// Register the consensus protocol's stock specifications.
    pub fn add_raft_specs(&mut self, num_nodes: usize)
        ensures
            final(self).spec_rules().len() == old(self).spec_rules().len() + 4,
    {
        self.add_spec(SpecRule::Raft { num_nodes });
        self.add_spec(DistributedSystemSpec::eventual_consistency());
        self.add_spec(DistributedSystemSpec::no_deadlock());
        self.add_spec(DistributedSystemSpec::causal_consistency());
    }

    /// Record the state and check every specification against it.
    pub fn check_all(&mut self, state: &State) -> (r: Result<(), Vec<SpecViolation>>)
        ensures
            match r {
                Ok(_) => true,
                Err(vs) => vs@.len() > 0,
            },
    {
        self.history.push(state.clone());
        if self.history.len() > self.max_history && self.history.len() > 1 {
            self.history.remove(0);
        }
        let n = self.specs.len();
        let mut violations: Vec<SpecViolation> = Vec::new();
        let mut i: usize = 0;
        while i < n
            invariant
                0 <= i <= n,
                n == self.specs@.len(),
            decreases n - i,
        {
            match self.specs[i].check_rule(state, &self.history) {
                Ok(()) => {},
                Err(v) => {
                    violations.push(v);
                },
            }
            i = i + 1;
        }
        if violations.len() == 0 {
            Ok(())
        } else {
            Err(violations)
        }
    }

    /// The names of the registered specifications.
    pub fn spec_names(&self) -> (r: Vec<String>)
        ensures
            r@.len() == self.spec_rules().len(),
    {
        let n = self.specs.len();
        let mut names: Vec<String> = Vec::new();
        let mut i: usize = 0;
        while i < n
            invariant
                0 <= i <= n,
                n == self.specs@.len(),
                names@.len() == i,
            decreases n - i,
        {
            names.push(String::from_str(self.specs[i].rule_name()));
            i = i + 1;
        }
        names
    }

    /// Render a violation and its state trace as text.
    pub fn generate_counterexample(&self, violation: &SpecViolation) -> (r: String)
    {
        let mut out = String::from_str("=== Counterexample ===\n");
        out.append("Specification: ");
        out.append(violation.spec_name.as_str());
        out.append("\nViolation: ");
        out.append(violation.message.as_str());
        out.append("\n\nState trace:\n");
        let n = violation.counterexample.len();
        let mut i: usize = 0;
        while i < n
            invariant
                0 <= i <= n,
                n == violation.counterexample@.len(),
            decreases n - i,
        {
            out.append("State ");
            crate::text::push_u64(&mut out, i as u64);
            out.append(": clock=");
            crate::text::push_u64(&mut out, violation.counterexample[i].clock);
            out.append(" term=");
            crate::text::push_u64(&mut out, violation.counterexample[i].term);
            out.append("\n");
            i = i + 1;
        }
        out
    }
}

/// Drives random transition sequences through the specifications.
pub struct PropertyTester {
    pub checker: TLAChecker,
}

impl PropertyTester {
    pub fn new() -> (r: PropertyTester)
    {
        PropertyTester { checker: TLAChecker::new(1000) }
    }

    /// Generate a varied sequence of transitions.
    pub fn generate_transitions(&self, count: usize) -> (r: Vec<Transition>)
        ensures
            r@.len() == count,
    {
        let mut out: Vec<Transition> = Vec::new();
        let mut i: usize = 0;
        while i < count
            invariant
                0 <= i <= count,
                out@.len() == i,
            decreases count - i,
        {
            let mut key = String::from_str("key");
            crate::text::push_u64(&mut key, i as u64);
            let t = if i % 5 == 0 {
                let mut value: Vec<u8> = Vec::new();
                value.push((i % 256) as u8);
                Transition::Write { key, value }
            } else if i % 5 == 1 {
                let mut key2 = String::from_str("key");
                crate::text::push_u64(&mut key2, (i / 2) as u64);
                Transition::Delete { key: key2 }
            } else if i % 5 == 2 {
                Transition::AddMember { node_id: (i % 3 + 1) as u64 }
            } else if i % 5 == 3 {
                Transition::RemoveMember { node_id: (i % 3 + 1) as u64 }
            } else {
                Transition::ElectLeader { node_id: (i % 3 + 1) as u64, term: (i / 10) as u64 }
            };
            out.push(t);
            i = i + 1;
        }
        out
    }

    /// Run transition sequences against the registered specifications.
    pub fn run_tests(&mut self, num_tests: usize) -> (r: Result<(), Vec<SpecViolation>>)
    {
        let mut i: usize = 0;
        while i < num_tests
            invariant
                0 <= i <= num_tests,
            decreases num_tests - i,
        {
            let mut state = crate::State::new();
            let transitions = self.generate_transitions(100);
            let n = transitions.len();
            let mut j: usize = 0;
            while j < n
                invariant
                    0 <= j <= n,
                    n == transitions@.len(),
                decreases n - j,
            {
                if state.clock == u64::MAX {
                    break ;
                }
                state = transitions[j].clone().apply(state);
                match self.checker.check_all(&state) {
                    Ok(()) => {},
                    Err(violations) => {
                        return Err(violations);
                    },
                }
                j = j + 1;
            }
            i = i + 1;
        }
        Ok(())
    }
}

} // verus!
