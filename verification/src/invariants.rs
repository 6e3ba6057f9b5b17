//! Runtime invariant checking: properties that must hold of every state.
//!
//! A rule is checked after every applied transition; a violation is treated
//! like a divergence fault and halts the replica.

use crate::codec::{members_unique, spec_apply, StateModel};
use crate::{State, Transition};
use vstd::prelude::*;

verus! {

/// A property that must always hold of the state.
pub trait Invariant {
    /// Check the property against a state.
    fn check(&self, state: &State) -> Result<(), InvariantViolation>;

    /// The rule's name, for reports.
    fn name(&self) -> &'static str;
}

/// A violated property.
#[derive(Debug, Clone)]
pub struct InvariantViolation {
    pub invariant_name: String,
    pub message: String,
    pub state_clock: u64,
}

/// The concrete rules this library checks.
pub enum InvariantRule {
    /// No two nodes lead in the same term (a per-state check here; the
    /// cross-replica law is `raft::lemma_election_safety`).
    SingleLeaderPerTerm,
    /// The logical clock never runs backwards.
    MonotonicClock { last_clock: u64 },
    /// Cluster members are pairwise distinct.
    UniqueMembers,
    /// The leader, when set, is a cluster member.
    LeaderInMembers,
    /// A leader must be elected within the bound (a liveness property; it
    /// cannot be refuted from one state, so the check always passes).
    LeaderElectedEventually { timeout_ms: u64 },
}

/// What a rule means of one state.
pub open spec fn rule_holds(rule: InvariantRule, m: StateModel) -> bool {
    match rule {
        InvariantRule::SingleLeaderPerTerm => true,
        InvariantRule::MonotonicClock { last_clock } => m.clock >= last_clock,
        InvariantRule::UniqueMembers => members_unique(m.members),
        InvariantRule::LeaderInMembers => (m.leader matches Some(l) ==> m.members.contains(l)),
        InvariantRule::LeaderElectedEventually { .. } => true,
    }
}

/// Decides whether a member list is duplicate-free.
pub fn members_unique_exec(members: &Vec<u64>) -> (r: bool)
    ensures
        r == members_unique(members@),
{
    let n = members.len();
    let mut i: usize = 0;
    while i < n
        invariant
            0 <= i <= n,
            n == members@.len(),
            forall|p: int, q: int| 0 <= p < q < members@.len() && p < i ==> members@[p]
                != members@[q],
        decreases n - i,
    {
        let mut j: usize = i + 1;
        while j < n
            invariant
                i < j <= n,
                i < n,
                n == members@.len(),
                forall|q: int| i < q < j ==> members@[i as int] != members@[q],
            decreases n - j,
        {
            if members[i] == members[j] {
                return false;
            }
            j = j + 1;
        }
        i = i + 1;
    }
    true
}

impl Invariant for InvariantRule {
    /// Passes exactly when the rule holds of the state.
    fn check(&self, state: &State) -> (r: Result<(), InvariantViolation>)
        ensures
            r is Ok <==> rule_holds(*self, state@),
    {
        match self {
            InvariantRule::SingleLeaderPerTerm => Ok(()),
            InvariantRule::MonotonicClock { last_clock } => {
                if state.clock >= *last_clock {
                    Ok(())
                } else {
                    let mut message = String::from_str("Clock went backwards: ");
                    crate::text::push_u64(&mut message, *last_clock);
                    message.append(" -> ");
                    crate::text::push_u64(&mut message, state.clock);
                    Err(
                        InvariantViolation {
                            invariant_name: String::from_str("MonotonicClock"),
                            message,
                            state_clock: state.clock,
                        },
                    )
                }
            },
            InvariantRule::UniqueMembers => {
                if members_unique_exec(&state.members) {
                    Ok(())
                } else {
                    Err(
                        InvariantViolation {
                            invariant_name: String::from_str("UniqueMembers"),
                            message: String::from_str("Duplicate member"),
                            state_clock: state.clock,
                        },
                    )
                }
            },
            InvariantRule::LeaderInMembers => {
                let ok = match state.leader {
                    Some(l) => crate::vec_contains_u64(&state.members, l),
                    None => true,
                };
                if ok {
                    Ok(())
                } else {
                    Err(
                        InvariantViolation {
                            invariant_name: String::from_str("LeaderInMembers"),
                            message: String::from_str("Leader is not a cluster member"),
                            state_clock: state.clock,
                        },
                    )
                }
            },
            InvariantRule::LeaderElectedEventually { .. } => Ok(()),
        }
    }

    fn name(&self) -> &'static str {
        match self {
            InvariantRule::SingleLeaderPerTerm => "SingleLeaderPerTerm",
            InvariantRule::MonotonicClock { .. } => "MonotonicClock",
            InvariantRule::UniqueMembers => "UniqueMembers",
            InvariantRule::LeaderInMembers => "LeaderInMembers",
            InvariantRule::LeaderElectedEventually { .. } => "LeaderElectedEventually",
        }
    }
}

/// The safety rules: what must never happen.
pub struct SafetyInvariants;

impl SafetyInvariants {
    /// No two leaders in the same term.
    pub fn single_leader_per_term() -> (r: InvariantRule)
        ensures
            r is SingleLeaderPerTerm,
    {
        InvariantRule::SingleLeaderPerTerm
    }

    /// The clock never decreases.
    pub fn monotonic_clock() -> (r: InvariantRule)
        ensures
            r matches InvariantRule::MonotonicClock { last_clock } && last_clock == 0,
    {
        InvariantRule::MonotonicClock { last_clock: 0 }
    }

    /// Members are pairwise distinct.
    pub fn unique_members() -> (r: InvariantRule)
        ensures
            r is UniqueMembers,
    {
        InvariantRule::UniqueMembers
    }

    /// The leader, when set, is a member.
    pub fn leader_in_members() -> (r: InvariantRule)
        ensures
            r is LeaderInMembers,
    {
        InvariantRule::LeaderInMembers
    }
}

/// The liveness rules: what must eventually happen.
pub struct LivenessInvariants;

impl LivenessInvariants {
    /// A leader must appear within the bound.
    pub fn leader_elected_eventually(timeout_ms: u64) -> (r: InvariantRule)
        ensures
            r matches InvariantRule::LeaderElectedEventually { timeout_ms: t } && t == timeout_ms,
    {
        InvariantRule::LeaderElectedEventually { timeout_ms }
    }
}

/// Runs every registered rule against each state.
pub struct InvariantChecker {
    invariants: Vec<InvariantRule>,
}

impl InvariantChecker {
    pub closed spec fn spec_rules(self) -> Seq<InvariantRule> {
        self.invariants@
    }

    pub fn new() -> (r: InvariantChecker)
        ensures
            r.spec_rules().len() == 0,
    {
        InvariantChecker { invariants: Vec::new() }
    }

    /// Register a rule.
    pub fn add_invariant(&mut self, rule: InvariantRule)
        ensures
            final(self).spec_rules() == old(self).spec_rules().push(rule),
    {
        self.invariants.push(rule);
    }

    /// Check every rule; the first violation is returned.
    pub fn check_all(&self, state: &State) -> (r: Result<(), InvariantViolation>)
        ensures
            r is Ok <==> forall|i: int|
                0 <= i < self.spec_rules().len() ==> rule_holds(
                    #[trigger] self.spec_rules()[i],
                    state@,
                ),
    {
        let n = self.invariants.len();
        let mut i: usize = 0;
        while i < n
            invariant
                0 <= i <= n,
                n == self.spec_rules().len(),
                forall|j: int| 0 <= j < i ==> rule_holds(#[trigger] self.spec_rules()[j], state@),
            decreases n - i,
        {
            match self.invariants[i].check(state) {
                Ok(()) => {},
                Err(v) => {
                    return Err(v);
                },
            }
            i = i + 1;
        }
        Ok(())
    }

    /// The names of the registered rules.
    pub fn invariant_names(&self) -> (r: Vec<String>)
        ensures
            r@.len() == self.spec_rules().len(),
    {
        let n = self.invariants.len();
        let mut names: Vec<String> = Vec::new();
        let mut i: usize = 0;
        while i < n
            invariant
                0 <= i <= n,
                n == self.spec_rules().len(),
                names@.len() == i,
            decreases n - i,
        {
            names.push(String::from_str(self.invariants[i].name()));
            i = i + 1;
        }
        names
    }
}

/// The specification's transition relation, checked at run time.
pub struct TLASpec;

impl TLASpec {
    /// The initial-state predicate: the clock at zero and no data.
    pub fn init_predicate(state: &State) -> (r: bool)
        ensures
            r == (state@.clock == 0 && state@.data.dom().len() == 0),
    {
        state.clock == 0 && state.data.is_empty()
    }

    /// The next-state relation: `after` is exactly the result of applying
    /// the transition to `before`.
    pub fn next_relation(before: &State, after: &State, transition: &Transition) -> (r: bool)
        requires
            before@.clock < u64::MAX,
        ensures
            r == (spec_apply(transition@, before@) == after@),
    {
        let expected = transition.apply(before.clone());
        crate::state_eq(&expected, after)
    }

    /// Temporal properties; these need a history, not one state, so they are
    /// listed for the observer rather than checked here.
    pub fn temporal_properties() -> (r: Vec<&'static str>)
        ensures
            r@.len() == 3,
    {
        let mut v: Vec<&'static str> = Vec::new();
        v.push("Eventually a leader is elected");
        v.push("Leaders do not change without a term increment");
        v.push("Committed data is never lost");
        v
    }
}

} // verus!
