//! The state machine: deterministic apply, digests, and the shadow model.

use lattice::{ShadowModel, State, StateHash, Transition, VerifiedStateMachine};

#[test]
fn lib_test_state_hash_deterministic() {
    let state1 = State::new();
    let state2 = State::new();

    assert_eq!(state1.hash(), state2.hash());
}

#[test]
fn lib_test_transition_apply() {
    let state = State::new();
    let transition = Transition::Write { key: "test".to_string(), value: b"value".to_vec() };

    let new_state = transition.apply(state);

    assert_eq!(new_state.data.get("test"), Some(&b"value".to_vec()));
    assert_eq!(new_state.clock, 1);
}

#[test]
fn test_verified_execution_success() {
    let mut vsm = VerifiedStateMachine::new(true);

    let transition = Transition::Write { key: "test".to_string(), value: b"value".to_vec() };

    let result = vsm.execute(transition);
    assert!(result.is_ok());

    let state = vsm.state();
    assert_eq!(state.data.get("test"), Some(&b"value".to_vec()));
}

#[test]
fn test_shadow_model_tracking() {
    let mut shadow = ShadowModel::new();

    let t1 = Transition::Write { key: "a".to_string(), value: b"1".to_vec() };
    let hash1 = shadow.apply(&t1);

    let t2 = Transition::Write { key: "b".to_string(), value: b"2".to_vec() };
    let hash2 = shadow.apply(&t2);

    // Hashes should be different
    assert_ne!(hash1, hash2);

    // History should track both
    assert_eq!(shadow.history.len(), 2);
}

#[test]
fn comprehensive_test_state_hash_deterministic() {
    let state1 = State::new();
    let state2 = State::new();
    assert_eq!(state1.hash(), state2.hash());
}

#[test]
fn comprehensive_test_transition_apply() {
    let mut state = State::new();

    let t1 = Transition::Write { key: "test".to_string(), value: b"value".to_vec() };

    state = t1.apply(state);
    assert_eq!(state.data.get("test"), Some(&b"value".to_vec()));
    assert_eq!(state.clock, 1);
}

#[test]
fn test_shadow_model() {
    let mut shadow = ShadowModel::new();

    let t = Transition::Write { key: "a".to_string(), value: b"1".to_vec() };

    let hash1 = shadow.apply(&t);

    let t2 = Transition::Write { key: "b".to_string(), value: b"2".to_vec() };

    let hash2 = shadow.apply(&t2);

    assert_ne!(hash1, hash2);
}

#[test]
fn test_verified_state_machine() {
    let mut vsm = VerifiedStateMachine::new(true);

    let transitions = vec![
        Transition::Write { key: "k1".to_string(), value: b"v1".to_vec() },
        Transition::Write { key: "k2".to_string(), value: b"v2".to_vec() },
        Transition::Delete { key: "k1".to_string() },
    ];

    for t in transitions {
        assert!(vsm.execute(t).is_ok());
    }

    let state = vsm.state();
    assert!(state.data.get("k1").is_none());
    assert_eq!(state.data.get("k2"), Some(&b"v2".to_vec()));
}

#[test]
fn test_end_to_end_transaction() {
    let mut vsm = VerifiedStateMachine::new(true);

    let transitions = vec![
        Transition::AddMember { node_id: 1 },
        Transition::AddMember { node_id: 2 },
        Transition::ElectLeader { node_id: 1, term: 1 },
        Transition::Write { key: "data".to_string(), value: b"test".to_vec() },
    ];

    for t in transitions {
        assert!(vsm.execute(t).is_ok());
    }

    let state = vsm.state();
    assert_eq!(state.members.len(), 2);
    assert_eq!(state.leader, Some(1));
    assert_eq!(state.data.get("data"), Some(&b"test".to_vec()));
}

#[test]
fn delete_twice_leaves_data_unchanged() {
    let mut state = State::new();
    state = Transition::Write { key: "k".to_string(), value: b"v".to_vec() }.apply(state);
    let once = Transition::Delete { key: "k".to_string() }.apply(state);
    let clock_once = once.clock;
    let twice = Transition::Delete { key: "k".to_string() }.apply(once);
    assert!(twice.data.get("k").is_none());
    assert_eq!(twice.data.len(), 0);
    // the clock still advances
    assert_eq!(twice.clock, clock_once + 1);
}

#[test]
fn add_member_twice_equals_once() {
    let state = State::new();
    let once = Transition::AddMember { node_id: 7 }.apply(state);
    let twice = Transition::AddMember { node_id: 7 }.apply(once.clone());
    assert_eq!(twice.members, once.members);
    assert_eq!(twice.members, vec![7]);
    assert_eq!(twice.clock, once.clock + 1);
}

#[test]
fn remove_member_removes_all_occurrences() {
    let mut state = State::new();
    state.members = vec![1, 2, 1, 3, 1];
    let after = Transition::RemoveMember { node_id: 1 }.apply(state);
    assert_eq!(after.members, vec![2, 3]);
}

#[test]
fn elect_leader_needs_newer_term() {
    let mut state = State::new();
    state = Transition::AddMember { node_id: 1 }.apply(state);
    state = Transition::AddMember { node_id: 2 }.apply(state);
    state = Transition::ElectLeader { node_id: 1, term: 3 }.apply(state);
    assert_eq!(state.leader, Some(1));
    assert_eq!(state.term, 3);
    // a stale term changes nothing but the clock
    let stale = Transition::ElectLeader { node_id: 2, term: 3 }.apply(state.clone());
    assert_eq!(stale.leader, Some(1));
    assert_eq!(stale.term, 3);
}

#[test]
fn apply_is_deterministic_across_replicas() {
    // the same transitions, applied independently, give byte-identical digests
    let ts = vec![
        Transition::AddMember { node_id: 2 },
        Transition::AddMember { node_id: 1 },
        Transition::Write { key: "x".to_string(), value: b"1".to_vec() },
        Transition::Write { key: "a".to_string(), value: b"2".to_vec() },
        Transition::Delete { key: "x".to_string() },
    ];
    let mut s1 = State::new();
    let mut s2 = State::new();
    for t in &ts {
        s1 = t.clone().apply(s1);
        s2 = t.clone().apply(s2);
    }
    assert_eq!(s1.hash(), s2.hash());
    assert_eq!(s1.clock, 5);
}

#[test]
fn digest_depends_on_contents() {
    let mut a = State::new();
    a = Transition::Write { key: "k".to_string(), value: b"1".to_vec() }.apply(a);
    let mut b = State::new();
    b = Transition::Write { key: "k".to_string(), value: b"2".to_vec() }.apply(b);
    assert_ne!(a.hash(), b.hash());
}

#[test]
fn digest_ignores_member_insertion_order() {
    // members serialize in ascending order, so the digest sees the set
    let mut a = State::new();
    a.members = vec![3, 1, 2];
    a.clock = 3;
    let mut b = State::new();
    b.members = vec![1, 2, 3];
    b.clock = 3;
    assert_eq!(a.hash(), b.hash());
}

#[test]
fn state_hash_is_copyable_value() {
    let h = StateHash([42u8; 32]);
    let h2 = h;
    assert_eq!(h, h2);
    assert!(h.equals(&h2));
}

#[test]
fn clock_increases_by_one_per_transition() {
    let mut state = State::new();
    for i in 0..10u64 {
        assert_eq!(state.clock, i);
        state = Transition::AddMember { node_id: i }.apply(state);
    }
    assert_eq!(state.clock, 10);
}

#[test]
fn benchmark_verification_latency() {
    let mut vsm = VerifiedStateMachine::new(true);

    let iterations = 1000u128;
    let start = std::time::Instant::now();

    for i in 0..iterations {
        let t = Transition::Write { key: format!("k{}", i), value: vec![i as u8] };
        vsm.execute(t).unwrap();
    }

    let elapsed = start.elapsed();
    let avg_us = elapsed.as_micros() / iterations;

    println!("Average verification latency: {}us", avg_us);
    assert!(avg_us < 1000);  // <1ms target
}

#[test]
fn benchmark_throughput() {
    let mut vsm = VerifiedStateMachine::new(true);

    let start = std::time::Instant::now();
    let mut count = 0u64;

    while start.elapsed() < std::time::Duration::from_secs(1) {
        let t = Transition::Write { key: format!("k{}", count), value: vec![count as u8] };
        vsm.execute(t).unwrap();
        count += 1;
    }

    println!("Throughput: {} tx/sec", count);
    assert!(count > 1000);  // >1k tx/sec
}
