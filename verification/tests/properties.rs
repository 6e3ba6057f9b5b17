//! Invariant rules, temporal specifications, and the incremental digest.

use lattice::compression::{Component, CompressedState, OptimizedVerification};
use lattice::invariants::{Invariant, InvariantChecker, InvariantRule, SafetyInvariants, TLASpec};
use lattice::tla::{PropertyTester, RaftSpec, SpecRule, TLAChecker, TLASpec as TemporalSpec};
use lattice::{State, Transition};

#[test]
fn test_unique_members_invariant() {
    let invariant = InvariantRule::UniqueMembers;

    let mut state = State::new();
    state.members = vec![1, 2, 3];

    assert!(invariant.check(&state).is_ok());

    // Add duplicate
    state.members.push(2);
    assert!(invariant.check(&state).is_err());
}

#[test]
fn test_invariant_checker() {
    let mut checker = InvariantChecker::new();
    checker.add_invariant(InvariantRule::UniqueMembers);

    let mut state = State::new();
    state.members = vec![1, 1];  // Duplicate

    let result = checker.check_all(&state);
    assert!(result.is_err());
}

#[test]
fn monotonic_clock_rule_rejects_backwards_clock() {
    let rule = SafetyInvariants::monotonic_clock();
    let state = State::new();
    assert!(rule.check(&state).is_ok());

    let behind = InvariantRule::MonotonicClock { last_clock: 5 };
    assert!(behind.check(&state).is_err());
    let violation = behind.check(&state).unwrap_err();
    assert_eq!(violation.invariant_name, "MonotonicClock");
}

#[test]
fn invariant_names_are_reported() {
    let mut checker = InvariantChecker::new();
    checker.add_invariant(SafetyInvariants::unique_members());
    checker.add_invariant(SafetyInvariants::monotonic_clock());
    checker.add_invariant(SafetyInvariants::single_leader_per_term());
    let names = checker.invariant_names();
    assert_eq!(names.len(), 3);
    assert_eq!(names[0], "UniqueMembers");
}

#[test]
fn next_relation_accepts_exact_successor() {
    let before = State::new();
    let t = Transition::AddMember { node_id: 1 };
    let after = t.apply(before.clone());
    assert!(TLASpec::next_relation(&before, &after, &t));
    // a tampered successor is refused
    let mut wrong = t.apply(before.clone());
    wrong.term = 9;
    assert!(!TLASpec::next_relation(&before, &wrong, &t));
}

#[test]
fn init_predicate_holds_of_fresh_state() {
    let state = State::new();
    assert!(TLASpec::init_predicate(&state));
    let moved = Transition::AddMember { node_id: 1 }.apply(state);
    assert!(!TLASpec::init_predicate(&moved));
}

#[test]
fn test_raft_spec() {
    let spec = RaftSpec::new(3);
    let state = State::new();

    assert!(spec.check(&state, &Vec::new()).is_ok());
}

#[test]
fn test_tla_invariants() {
    let mut checker = TLAChecker::new(100);
    checker.add_spec(RaftSpec::new(3).rule());

    let state = State::new();
    assert!(checker.check_all(&state).is_ok());
}

#[test]
fn test_property_based_testing() {
    let mut tester = PropertyTester::new();

    // Should pass all random tests
    assert!(tester.run_tests(50).is_ok());
}

#[test]
fn deadlock_rule_fires_on_stuck_clock() {
    let mut checker = TLAChecker::new(100);
    checker.add_spec(SpecRule::NoDeadlock { max_stuck_states: 3 });
    let state = State::new();
    // the same clock three times in a row trips the rule
    assert!(checker.check_all(&state).is_ok());
    assert!(checker.check_all(&state).is_ok());
    assert!(checker.check_all(&state).is_err());
}

#[test]
fn test_incremental_hashing() {
    let mut opt = OptimizedVerification::new();
    let mut state = State::new();

    // Update data
    state.data.insert("key1".to_string(), b"value1".to_vec());
    opt.update(&state, Component::Data);
    let hash1 = opt.hash();

    // Update same data - should get same hash
    opt.update(&state, Component::Data);
    let hash2 = opt.hash();
    assert_eq!(hash1, hash2);

    // Update different data - should get different hash
    state.data.insert("key2".to_string(), b"value2".to_vec());
    opt.update(&state, Component::Data);
    let hash3 = opt.hash();
    assert_ne!(hash1, hash3);
}

#[test]
fn test_only_dirty_components_rehashed() {
    let mut state = State::new();
    state.data.insert("key".to_string(), b"value".to_vec());

    let mut compressed = CompressedState::new();

    // Mark only data dirty
    compressed.mark_data_dirty();
    compressed.recompute(&state);

    // All dirty flags should be clear
    assert_eq!(compressed.dirty_flags(), (false, false, false));
}

#[test]
fn test_property_testing() {
    let mut tester = PropertyTester::new();
    tester.checker.add_raft_specs(3);

    // This would fail if specs are violated
    assert!(tester.run_tests(100).is_ok());
}

#[test]
fn leader_in_members_rule_catches_outside_leader() {
    let rule = SafetyInvariants::leader_in_members();
    let mut state = State::new();
    state.members = vec![1, 2];
    state.leader = Some(1);
    assert!(rule.check(&state).is_ok());
    state.leader = Some(9);
    let violation = rule.check(&state).unwrap_err();
    assert_eq!(violation.invariant_name, "LeaderInMembers");
}
