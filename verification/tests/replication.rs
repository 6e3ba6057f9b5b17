//! The consensus protocol: elections, replication, commit and apply.

use lattice::raft::{LogEntry, MessagePayload, RaftConfig, RaftNode, Role};
use lattice::recovery::RecoveryManager;
use lattice::storage::{WALConfig, WALEntry, WAL};
use lattice::Transition;

fn config(peers: Vec<u64>) -> RaftConfig {
    RaftConfig {
        peers,
        election_timeout_min: 150,
        election_timeout_max: 300,
        heartbeat_interval: 50,
    }
}

#[test]
fn test_raft_election() {
    let config = RaftConfig {
        peers: vec![1, 2, 3],
        election_timeout_min: 150,
        election_timeout_max: 300,
        heartbeat_interval: 50,
    };

    let mut node = RaftNode::new(1, config);

    // Simulate election: the timer fires well past the timeout
    let out = node.tick(10_000);

    // Should send RequestVote
    assert!(!out.messages.is_empty());
    assert_eq!(node.role(), Role::Candidate);
    assert_eq!(node.current_term(), 1);
}

#[test]
fn election_persists_term_and_vote_before_asking() {
    let mut node = RaftNode::new(1, config(vec![1, 2, 3]));
    let out = node.tick(10_000);
    // the new term and the self-vote are durable before any vote request
    assert!(!out.to_persist.is_empty());
    match &out.to_persist[0] {
        WALEntry::Metadata { current_term, voted_for } => {
            assert_eq!(*current_term, 1);
            assert_eq!(*voted_for, Some(1));
        },
        other => panic!("unexpected record: {:?}", other),
    }
}

#[test]
fn election_with_exact_majority_succeeds() {
    // cluster of 3: the majority is 2; the self-vote plus one grant elects
    let mut node = RaftNode::new(1, config(vec![1, 2, 3]));
    node.tick(10_000);
    assert_eq!(node.role(), Role::Candidate);

    // one vote short: still a candidate
    assert_eq!(node.role(), Role::Candidate);
    node.handle_vote_response(2, 1, true);
    assert_eq!(node.role(), Role::Leader);
}

#[test]
fn election_one_vote_short_does_not_succeed() {
    // cluster of 5: the majority is 3; self plus one grant is one short
    let mut node = RaftNode::new(1, config(vec![1, 2, 3, 4, 5]));
    node.tick(10_000);
    node.handle_vote_response(2, 1, true);
    assert_eq!(node.role(), Role::Candidate);
    // a duplicate grant from the same voter counts once
    node.handle_vote_response(2, 1, true);
    assert_eq!(node.role(), Role::Candidate);
    // the third distinct voter tips it
    node.handle_vote_response(3, 1, true);
    assert_eq!(node.role(), Role::Leader);
}

#[test]
fn single_node_cluster_elects_itself() {
    let mut node = RaftNode::new(1, config(vec![1]));
    node.tick(10_000);
    assert_eq!(node.role(), Role::Leader);
}

#[test]
fn vote_granted_once_per_term() {
    let mut node = RaftNode::new(3, config(vec![1, 2, 3]));
    // candidate 1 asks first and gets the vote
    let out = node.handle_request_vote(1, 1, 1, 0, 0, 100);
    match &out.messages[0].payload {
        MessagePayload::RequestVoteResponse { vote_granted, .. } => assert!(*vote_granted),
        other => panic!("unexpected reply: {:?}", other),
    }
    // candidate 2 in the same term is refused
    let out = node.handle_request_vote(2, 1, 2, 0, 0, 101);
    match &out.messages[0].payload {
        MessagePayload::RequestVoteResponse { vote_granted, .. } => assert!(!*vote_granted),
        other => panic!("unexpected reply: {:?}", other),
    }
}

#[test]
fn vote_granted_only_to_up_to_date_log() {
    let mut node = RaftNode::new(2, config(vec![1, 2, 3]));
    // give this node one entry at term 1 by accepting it from a leader
    let entry = LogEntry {
        term: 1,
        index: 1,
        transition: Transition::AddMember { node_id: 1 },
    };
    node.handle_append_entries(1, 1, 1, 0, 0, vec![entry], 0, 50);
    assert_eq!(node.log_len(), 1);

    // a candidate with an empty log at the same last term is behind
    let out = node.handle_request_vote(3, 2, 3, 0, 1, 100);
    match &out.messages[0].payload {
        MessagePayload::RequestVoteResponse { vote_granted, .. } => assert!(!*vote_granted),
        other => panic!("unexpected reply: {:?}", other),
    }
    // a candidate with a newer last term is ahead
    let out = node.handle_request_vote(3, 3, 3, 0, 2, 110);
    match &out.messages[0].payload {
        MessagePayload::RequestVoteResponse { vote_granted, .. } => assert!(*vote_granted),
        other => panic!("unexpected reply: {:?}", other),
    }
}

#[test]
fn append_entries_with_prev_zero_accepted_by_empty_follower() {
    let mut follower = RaftNode::new(2, config(vec![1, 2, 3]));
    let entry = LogEntry {
        term: 1,
        index: 1,
        transition: Transition::Write { key: "x".to_string(), value: b"1".to_vec() },
    };
    let out = follower.handle_append_entries(1, 1, 1, 0, 0, vec![entry], 1, 50);
    match &out.messages[0].payload {
        MessagePayload::AppendEntriesResponse { success, match_index, .. } => {
            assert!(*success);
            assert_eq!(*match_index, 1);
        },
        other => panic!("unexpected reply: {:?}", other),
    }
    assert_eq!(follower.commit_index(), 1);
}

#[test]
fn append_entries_rejects_stale_term() {
    let mut follower = RaftNode::new(2, config(vec![1, 2, 3]));
    // move the follower to term 2
    follower.handle_request_vote(1, 2, 1, 0, 0, 10);
    // a leader stuck at term 1 is refused
    let out = follower.handle_append_entries(3, 1, 3, 0, 0, Vec::new(), 0, 50);
    match &out.messages[0].payload {
        MessagePayload::AppendEntriesResponse { success, .. } => assert!(!*success),
        other => panic!("unexpected reply: {:?}", other),
    }
}

#[test]
fn append_entries_rejects_missing_prev() {
    let mut follower = RaftNode::new(2, config(vec![1, 2, 3]));
    // the follower's log is empty, but the leader claims an entry at 5
    let entry = LogEntry {
        term: 1,
        index: 6,
        transition: Transition::AddMember { node_id: 9 },
    };
    let out = follower.handle_append_entries(1, 1, 1, 5, 1, vec![entry], 0, 50);
    match &out.messages[0].payload {
        MessagePayload::AppendEntriesResponse { success, .. } => assert!(!*success),
        other => panic!("unexpected reply: {:?}", other),
    }
}

#[test]
fn accepted_entries_are_durable_before_acknowledgment() {
    let mut follower = RaftNode::new(2, config(vec![1, 2, 3]));
    let entries = vec![
        LogEntry { term: 1, index: 1, transition: Transition::AddMember { node_id: 1 } },
        LogEntry { term: 1, index: 2, transition: Transition::AddMember { node_id: 2 } },
    ];
    let out = follower.handle_append_entries(1, 1, 1, 0, 0, entries, 0, 50);
    // every accepted entry has a record ahead of the reply
    let mut log_records = 0;
    for r in &out.to_persist {
        if let WALEntry::LogEntry { .. } = r {
            log_records += 1;
        }
    }
    assert_eq!(log_records, 2);
    match &out.messages[0].payload {
        MessagePayload::AppendEntriesResponse { success, .. } => assert!(*success),
        other => panic!("unexpected reply: {:?}", other),
    }
}

#[test]
fn leader_commits_after_majority_acknowledges() {
    let mut leader = RaftNode::new(1, config(vec![1, 2, 3]));
    leader.tick(10_000);
    leader.handle_vote_response(2, 1, true);
    assert_eq!(leader.role(), Role::Leader);

    let out = leader.propose(Transition::Write { key: "x".to_string(), value: b"1".to_vec() })
        .unwrap();
    assert_eq!(out.to_persist.len(), 1);
    assert_eq!(leader.commit_index(), 0);

    // one follower acknowledges index 1: with the leader, that is 2 of 3
    leader.handle_append_entries_response(2, 1, true, 1);
    assert_eq!(leader.commit_index(), 1);
}

#[test]
fn proposals_refused_by_non_leader() {
    let mut follower = RaftNode::new(2, config(vec![1, 2, 3]));
    let r = follower.propose(Transition::AddMember { node_id: 4 });
    assert!(r.is_err());
}

#[test]
fn apply_rule_delivers_each_index_once() {
    let mut node = RaftNode::new(2, config(vec![1, 2, 3]));
    let entries = vec![
        LogEntry { term: 1, index: 1, transition: Transition::AddMember { node_id: 1 } },
        LogEntry { term: 1, index: 2, transition: Transition::AddMember { node_id: 2 } },
    ];
    node.handle_append_entries(1, 1, 1, 0, 0, entries, 2, 50);
    assert_eq!(node.commit_index(), 2);

    let first = node.next_to_apply().unwrap();
    assert_eq!(first.index, 1);
    let second = node.next_to_apply().unwrap();
    assert_eq!(second.index, 2);
    assert!(node.next_to_apply().is_none());
}

#[test]
fn greater_term_forces_step_down() {
    let mut node = RaftNode::new(1, config(vec![1, 2, 3]));
    node.tick(10_000);
    node.handle_vote_response(2, 1, true);
    assert_eq!(node.role(), Role::Leader);

    // a message from a newer term forces a follower role and a durable term
    let out = node.handle_append_entries(3, 5, 3, 0, 0, Vec::new(), 0, 60);
    assert_eq!(node.role(), Role::Follower);
    assert_eq!(node.current_term(), 5);
    match &out.to_persist[0] {
        WALEntry::Metadata { current_term, .. } => assert_eq!(*current_term, 5),
        other => panic!("unexpected record: {:?}", other),
    }
}

#[test]
fn conflicting_suffix_is_replaced() {
    let mut follower = RaftNode::new(2, config(vec![1, 2, 3]));
    // entries at terms 1,1 from the old leader
    let old = vec![
        LogEntry { term: 1, index: 1, transition: Transition::AddMember { node_id: 1 } },
        LogEntry { term: 1, index: 2, transition: Transition::AddMember { node_id: 2 } },
    ];
    follower.handle_append_entries(1, 1, 1, 0, 0, old, 0, 50);
    assert_eq!(follower.log_len(), 2);

    // a newer leader overwrites the uncommitted second entry
    let newer = vec![
        LogEntry { term: 2, index: 2, transition: Transition::AddMember { node_id: 9 } },
    ];
    let out = follower.handle_append_entries(3, 2, 3, 1, 1, newer, 0, 60);
    match &out.messages[0].payload {
        MessagePayload::AppendEntriesResponse { success, match_index, .. } => {
            assert!(*success);
            assert_eq!(*match_index, 2);
        },
        other => panic!("unexpected reply: {:?}", other),
    }
    assert_eq!(follower.log_len(), 2);
}

#[test]
fn commit_advance_is_durable_on_follower() {
    // a follower that advances its commit index persists a commit record
    let mut follower = RaftNode::new(2, config(vec![1, 2, 3]));
    let entry = LogEntry {
        term: 1,
        index: 1,
        transition: Transition::Write { key: "x".to_string(), value: b"1".to_vec() },
    };
    let out = follower.handle_append_entries(1, 1, 1, 0, 0, vec![entry], 1, 50);
    assert_eq!(follower.commit_index(), 1);
    let mut commits = 0;
    for r in &out.to_persist {
        if let WALEntry::Commit { index } = r {
            assert_eq!(*index, 1);
            commits += 1;
        }
    }
    assert_eq!(commits, 1);
}

#[test]
fn commit_advance_is_durable_on_leader() {
    let mut leader = RaftNode::new(1, config(vec![1, 2, 3]));
    leader.tick(10_000);
    leader.handle_vote_response(2, 1, true);
    leader.propose(Transition::AddMember { node_id: 9 }).unwrap();
    let out = leader.handle_append_entries_response(2, 1, true, 1);
    assert_eq!(leader.commit_index(), 1);
    assert_eq!(out.to_persist.len(), 1);
    match &out.to_persist[0] {
        WALEntry::Commit { index } => assert_eq!(*index, 1),
        other => panic!("unexpected record: {:?}", other),
    }
}

#[test]
fn solo_replica_survives_restart() {
    // a single-node cluster: three committed writes, a crash, a restart;
    // the recovered state holds exactly the committed effects
    let mut node = RaftNode::new(1, config(vec![1]));
    let mut wal = WAL::create(WALConfig::default());
    let out = node.tick(10_000);
    for r in out.to_persist {
        wal.append(r).unwrap();
    }
    assert_eq!(node.role(), Role::Leader);

    let proposals = vec![
        Transition::Write { key: "k".to_string(), value: b"v1".to_vec() },
        Transition::Write { key: "k".to_string(), value: b"v2".to_vec() },
        Transition::Delete { key: "k".to_string() },
    ];
    for t in proposals {
        let out = node.propose(t).unwrap();
        for r in out.to_persist {
            wal.append(r).unwrap();
        }
    }
    assert_eq!(node.commit_index(), 3);

    // the process dies here; a fresh one reads the records back
    let entries = wal.read_all();
    let mut recovery = RecoveryManager::new(1);
    let state = recovery.recover(None, &entries).unwrap();
    assert!(state.data.get("k").is_none());
    assert_eq!(state.clock, 3);
}

#[test]
fn failed_replication_backs_next_index_off() {
    let mut leader = RaftNode::new(1, config(vec![1, 2, 3]));
    leader.tick(10_000);
    leader.handle_vote_response(2, 1, true);
    leader.propose(Transition::AddMember { node_id: 4 }).unwrap();
    leader.propose(Transition::AddMember { node_id: 5 }).unwrap();
    // a rejection moves the peer's next index back, so the retry reaches
    // further into the past of the log
    leader.handle_append_entries_response(2, 1, false, 0);
    let out = leader.tick(20_000);
    let mut saw_earlier_prev = false;
    for m in &out.messages {
        if m.to == 2 {
            if let MessagePayload::AppendEntries { prev_log_index, entries, .. } = &m.payload {
                assert!(*prev_log_index <= 2);
                assert!(!entries.is_empty());
                saw_earlier_prev = true;
            }
        }
    }
    assert!(saw_earlier_prev);
}
