//! Crash recovery: rebuild a replica's state from its snapshot and log.
//!
//! Recovery loads the latest snapshot, folds the write-ahead records over it
//! — log records rebuild the in-memory log, metadata records restore term and
//! vote, commit records move the commit index, snapshot records reset the
//! state — and then re-applies the committed but unapplied log suffix.
//! The whole procedure is a function of the persistent input alone.

use crate::codec::{spec_apply, StateModel, WalRecordAbs};
use crate::raft::{log_views, log_wf, LogEntry, LogEntryModel};
use crate::storage::{Snapshot, WALEntry};
use crate::{NodeId, State};
use vstd::prelude::*;

verus! {

/// The phase the recovery manager is in.
#[derive(Debug, Clone, Copy, PartialEq, Eq, Structural)]
pub enum RecoveryState {
    Normal,
    Recovering,
    Replaying,
    Repairing,
    Failed,
}

/// Errors of recovery.
#[derive(Debug)]
pub enum RecoveryError {
    /// The record store reported corruption.
    WALError(crate::storage::WalError),
    /// A snapshot file failed to decode.
    SnapshotError,
    /// The records contradict themselves.
    CorruptedData(String),
    /// No consistent state can be rebuilt.
    UnrecoverableState,
}

/// Everything recovery rebuilds, as one mathematical value.
pub ghost struct RecoveredModel {
    pub state: StateModel,
    pub current_term: u64,
    pub voted_for: Option<u64>,
    pub commit_index: usize,
    pub last_applied: usize,
    pub log: Seq<LogEntryModel>,
}

/// The starting point of recovery: the snapshot state, or the empty state.
pub open spec fn spec_recover_init(snapshot: Option<crate::codec::SnapshotModel>) -> RecoveredModel {
    match snapshot {
        Some(s) => RecoveredModel {
            state: s.state.model(),
            current_term: 0,
            voted_for: None,
            commit_index: s.last_index,
            last_applied: s.last_index,
            log: Seq::empty(),
        },
        None => RecoveredModel {
            state: StateModel::init(),
            current_term: 0,
            voted_for: None,
            commit_index: 0,
            last_applied: 0,
            log: Seq::empty(),
        },
    }
}

/// Folding one durable record into the recovered value.
pub open spec fn spec_recover_step(m: RecoveredModel, r: WalRecordAbs) -> RecoveredModel {
    match r {
        WalRecordAbs::LogEntry { index, term, transition } => if 1 <= index <= m.log.len() + 1 {
            RecoveredModel {
                log: m.log.take(index - 1).push(LogEntryModel { term, index, transition }),
                ..m
            }
        } else {
            m
        },
        WalRecordAbs::Snapshot { index, term, state } => RecoveredModel {
            state,
            commit_index: if index > m.commit_index {
                index
            } else {
                m.commit_index
            },
            last_applied: index,
            ..m
        },
        WalRecordAbs::Metadata { current_term, voted_for } => RecoveredModel {
            current_term,
            voted_for,
            ..m
        },
        WalRecordAbs::Commit { index } => RecoveredModel { commit_index: index, ..m },
    }
}

/// Folding all records, in order.
pub open spec fn spec_recover_scan(rs: Seq<WalRecordAbs>, init: RecoveredModel) -> RecoveredModel
    decreases rs.len(),
{
    if rs.len() == 0 {
        init
    } else {
        spec_recover_step(spec_recover_scan(rs.drop_last(), init), rs.last())
    }
}

/// Re-applying log entries `(from, to]` to the state.
pub open spec fn spec_replay(log: Seq<LogEntryModel>, from: int, to: int, s: StateModel) -> StateModel
    decreases to - from,
{
    if from >= to {
        s
    } else {
        spec_replay(log, from + 1, to, spec_apply(log[from].transition, s))
    }
}

/// Whether re-applying log entries `(from, to]` stays within the clock's
/// range: the one way recovery can fail.
pub open spec fn spec_replay_ok(log: Seq<LogEntryModel>, from: int, to: int, s: StateModel) -> bool
    decreases to - from,
{
    if from >= to {
        true
    } else {
        s.clock < u64::MAX && spec_replay_ok(log, from + 1, to, spec_apply(log[from].transition, s))
    }
}

/// Extending the checked range by one entry.
proof fn lemma_replay_ok_snoc(log: Seq<LogEntryModel>, from: int, k: int, s: StateModel)
    requires
        from <= k,
    ensures
        spec_replay_ok(log, from, k + 1, s) == (spec_replay_ok(log, from, k, s) && spec_replay(
            log,
            from,
            k,
            s,
        ).clock < u64::MAX),
    decreases k - from,
{
    if from == k {
        assert(spec_replay_ok(log, from, from, s));
        assert(spec_replay(log, from, from, s) == s);
        assert(spec_replay_ok(log, from + 1, from + 1, spec_apply(log[from].transition, s)));
        assert(spec_replay_ok(log, from, from + 1, s) == (s.clock < u64::MAX));
    } else {
        lemma_replay_ok_snoc(log, from + 1, k, spec_apply(log[from].transition, s));
    }
}

/// A checked range stays checked on every prefix.
proof fn lemma_replay_ok_prefix(log: Seq<LogEntryModel>, from: int, k: int, to: int, s: StateModel)
    requires
        from <= k <= to,
        spec_replay_ok(log, from, to, s),
    ensures
        spec_replay_ok(log, from, k, s),
    decreases k - from,
{
    if from < k {
        lemma_replay_ok_prefix(log, from + 1, k, to, spec_apply(log[from].transition, s));
    }
}

/// The committed but unapplied range of a recovered value.
pub open spec fn spec_apply_bound(m: RecoveredModel) -> int {
    if m.commit_index <= m.log.len() {
        m.commit_index as int
    } else {
        m.log.len() as int
    }
}

/// The recovery fold keeps log indexes dense.
pub proof fn lemma_recover_scan_log_wf(rs: Seq<WalRecordAbs>, init: RecoveredModel)
    requires
        log_wf(init.log),
    ensures
        log_wf(spec_recover_scan(rs, init).log),
    decreases rs.len(),
{
    if rs.len() > 0 {
        lemma_recover_scan_log_wf(rs.drop_last(), init);
        let m = spec_recover_scan(rs.drop_last(), init);
        match rs.last() {
            WalRecordAbs::LogEntry { index, term, transition } => {
                if 1 <= index <= m.log.len() + 1 {
                    let newlog = m.log.take(index - 1).push(
                        LogEntryModel { term, index, transition },
                    );
                    assert forall|i: int| 0 <= i < newlog.len() implies (
                    #[trigger] newlog[i]).index == i + 1 by {
                        if i < index - 1 {
                            assert(newlog[i] == m.log[i]);
                        }
                    }
                }
            },
            _ => {},
        }
    }
}

/// Recovery is idempotent: a snapshot taken of a recovered state, reopened
/// with no record suffix, recovers to exactly the same state — and the
/// recovered value is a function of the persistent input alone, so running
/// recovery twice on the same snapshot and records gives the same result.
pub proof fn lemma_recovery_idempotent(m: RecoveredModel, snap: crate::codec::SnapshotModel)
    requires
        snap.state.model() == spec_replay(m.log, m.last_applied as int, spec_apply_bound(m), m.state),
    ensures
        ({
            let again = spec_recover_scan(Seq::empty(), spec_recover_init(Some(snap)));
            spec_replay(again.log, again.last_applied as int, spec_apply_bound(again), again.state)
                == spec_replay(m.log, m.last_applied as int, spec_apply_bound(m), m.state)
        }),
{
    let again = spec_recover_scan(Seq::empty(), spec_recover_init(Some(snap)));
    assert(again == spec_recover_init(Some(snap)));
    assert(spec_apply_bound(again) == snap.last_index as int || spec_apply_bound(again) == 0);
}

/// Rebuilds a replica from its snapshot and durable records.
pub struct RecoveryManager {
    /// This node.
    node_id: NodeId,
    /// The phase the manager is in.
    state: RecoveryState,
}

/// Everything recovery rebuilds.
pub struct RecoveredState {
    /// The state after re-applying the committed suffix.
    pub state: State,
    /// Persistent term and vote.
    pub current_term: u64,
    pub voted_for: Option<NodeId>,
    /// The rebuilt log.
    pub log: Vec<LogEntry>,
    /// Volatile indexes.
    pub commit_index: usize,
    pub last_applied: usize,
}

impl RecoveryManager {
    pub closed spec fn spec_phase(self) -> RecoveryState {
        self.state
    }

    pub closed spec fn spec_node_id(self) -> NodeId {
        self.node_id
    }

    pub fn new(node_id: NodeId) -> (r: RecoveryManager)
        ensures
            r.spec_phase() == RecoveryState::Normal,
    {
        RecoveryManager { node_id, state: RecoveryState::Normal }
    }

    /// Recover the full replica value from the latest snapshot and the
    /// record suffix, per the crash-recovery procedure. Pure in its inputs:
    /// the same snapshot and records always rebuild the same value.
    pub fn recover_full(&mut self, snapshot: Option<Snapshot>, entries: &Vec<WALEntry>) -> (r:
        Result<RecoveredState, RecoveryError>)
        ensures
            ({
                let init = spec_recover_init(
                    match snapshot {
                        Some(s) => Some(s@),
                        None => None,
                    },
                );
                let scanned = spec_recover_scan(
                    entries@.map(|_i: int, e: WALEntry| crate::codec::record_abs(e@)),
                    init,
                );
                &&& (r is Ok <==> spec_replay_ok(
                    scanned.log,
                    scanned.last_applied as int,
                    spec_apply_bound(scanned),
                    scanned.state,
                ))
                &&& match r {
                    Ok(rec) => {
                        &&& rec.state@ == spec_replay(
                            scanned.log,
                            scanned.last_applied as int,
                            spec_apply_bound(scanned),
                            scanned.state,
                        )
                        &&& rec.current_term == scanned.current_term
                        &&& rec.voted_for == scanned.voted_for
                        &&& log_views(rec.log@) == scanned.log
                        &&& rec.commit_index == scanned.commit_index
                        &&& rec.last_applied == spec_apply_bound(scanned)
                        &&& final(self).spec_phase() == RecoveryState::Normal
                    },
                    Err(e) => e is UnrecoverableState && final(self).spec_phase()
                        == RecoveryState::Failed,
                }
            }),
    {
        self.state = RecoveryState::Recovering;
        let ghost init_model = spec_recover_init(
            match &snapshot {
                Some(s) => Some(s@),
                None => None,
            },
        );
        let (mut state, mut commit_index, mut last_applied): (State, usize, usize) = match snapshot {
            Some(snap) => {
                let idx = snap.last_index;
                (snap.state, idx, idx)
            },
            None => (State::new(), 0, 0),
        };
        let mut current_term: u64 = 0;
        let mut voted_for: Option<NodeId> = None;
        let mut log: Vec<LogEntry> = Vec::new();
        let ghost mut folded: Seq<WalRecordAbs> = Seq::empty();
        proof {
            assert(log_views(log@) =~= Seq::<LogEntryModel>::empty());
            assert(spec_recover_scan(folded, init_model) == init_model);
        }
        self.state = RecoveryState::Replaying;
        let n = entries.len();
        let mut i: usize = 0;
        while i < n
            invariant
                0 <= i <= n,
                n == entries@.len(),
                folded.len() == i,
                forall|j: int|
                    0 <= j < i ==> folded[j] == crate::codec::record_abs(
                        #[trigger] entries@[j]@,
                    ),
                ({
                    let m = spec_recover_scan(folded, init_model);
                    &&& state@ == m.state
                    &&& current_term == m.current_term
                    &&& voted_for == m.voted_for
                    &&& commit_index == m.commit_index
                    &&& last_applied == m.last_applied
                    &&& log_views(log@) == m.log
                }),
            decreases n - i,
        {
            let ghost m_before = spec_recover_scan(folded, init_model);
            let ghost this_abs = crate::codec::record_abs(entries@[i as int]@);
            proof {
                assert(folded.push(this_abs).drop_last() =~= folded);
                assert(spec_recover_scan(folded.push(this_abs), init_model) == spec_recover_step(
                    m_before,
                    this_abs,
                ));
            }
            match &entries[i] {
                WALEntry::LogEntry { index, term, transition } => {
                    let idx = *index;
                    if 1 <= idx && idx - 1 <= log.len() {
                        let ghost pre = log@;
                        log.truncate(idx - 1);
                        log.push(
                            LogEntry { term: *term, index: idx, transition: transition.clone() },
                        );
                        proof {
                            assert(log@ =~= pre.subrange(0, idx - 1).push(log@.last()));
                            assert forall|j: int| 0 <= j < log@.len() implies (
                            #[trigger] log_views(log@)[j]) == m_before.log.take(idx - 1).push(
                                LogEntryModel {
                                    term: *term,
                                    index: idx,
                                    transition: transition@,
                                },
                            )[j] by {
                                if j < idx - 1 {
                                    assert(log@[j] == pre[j]);
                                    assert(log_views(pre)[j] == m_before.log[j]);
                                }
                            }
                            assert(log_views(log@) =~= m_before.log.take(idx - 1).push(
                                LogEntryModel {
                                    term: *term,
                                    index: idx,
                                    transition: transition@,
                                },
                            ));
                        }
                    }
                },
                WALEntry::Snapshot { index, term, state: snap_state } => {
                    state = snap_state.clone();
                    last_applied = *index;
                    if *index > commit_index {
                        commit_index = *index;
                    }
                },
                WALEntry::Metadata { current_term: ct, voted_for: vf } => {
                    current_term = *ct;
                    voted_for = *vf;
                },
                WALEntry::Commit { index } => {
                    commit_index = *index;
                },
            }
            proof {
                folded = folded.push(this_abs);
            }
            i = i + 1;
        }
        proof {
            assert(folded =~= entries@.map(|_i: int, e: WALEntry| crate::codec::record_abs(e@)));
        }
        // re-apply the committed but unapplied suffix
        let ghost scanned = spec_recover_scan(folded, init_model);
        let bound = if commit_index <= log.len() {
            commit_index
        } else {
            log.len()
        };
        let mut k: usize = last_applied;
        proof {
            if last_applied as int >= bound {
                assert(spec_replay_ok(
                    scanned.log,
                    scanned.last_applied as int,
                    spec_apply_bound(scanned),
                    scanned.state,
                ));
            }
        }
        while k < bound
            invariant
                scanned == spec_recover_scan(folded, init_model),
                folded.len() == entries@.len(),
                forall|j: int|
                    0 <= j < folded.len() ==> folded[j] == crate::codec::record_abs(
                        #[trigger] entries@[j]@,
                    ),
                init_model == spec_recover_init(
                    match snapshot {
                        Some(s) => Some(s@),
                        None => None,
                    },
                ),
                bound == spec_apply_bound(scanned),
                bound <= log@.len(),
                log_views(log@) == scanned.log,
                scanned.last_applied <= k <= bound || k == last_applied,
                k >= scanned.last_applied || k == bound,
                state@ == spec_replay(
                    scanned.log,
                    scanned.last_applied as int,
                    k as int,
                    scanned.state,
                ) || (k == last_applied && k >= bound && state@ == scanned.state),
                k < bound ==> spec_replay_ok(
                    scanned.log,
                    scanned.last_applied as int,
                    k as int,
                    scanned.state,
                ),
                k >= bound && k > last_applied ==> spec_replay_ok(
                    scanned.log,
                    scanned.last_applied as int,
                    k as int,
                    scanned.state,
                ),
                last_applied == scanned.last_applied,
            decreases bound - k,
        {
            proof {
                assert(spec_replay(scanned.log, scanned.last_applied as int, k as int, scanned.state)
                    == state@);
                lemma_replay_ok_snoc(scanned.log, scanned.last_applied as int, k as int, scanned.state);
            }
            if state.clock == u64::MAX {
                proof {
                    assert(folded =~= entries@.map(
                        |_i: int, e: WALEntry| crate::codec::record_abs(e@),
                    ));
                    // the failed prefix refutes the whole range
                    if spec_replay_ok(
                        scanned.log,
                        scanned.last_applied as int,
                        spec_apply_bound(scanned),
                        scanned.state,
                    ) {
                        lemma_replay_ok_prefix(
                            scanned.log,
                            scanned.last_applied as int,
                            k + 1 as int,
                            spec_apply_bound(scanned),
                            scanned.state,
                        );
                    }
                }
                self.state = RecoveryState::Failed;
                return Err(RecoveryError::UnrecoverableState);
            }
            proof {
                lemma_replay_snoc(scanned.log, scanned.last_applied as int, k as int, scanned.state);
            }
            state = log[k].transition.apply(state);
            k = k + 1;
        }
        proof {
            if last_applied >= bound {
                assert(spec_replay(
                    scanned.log,
                    scanned.last_applied as int,
                    spec_apply_bound(scanned),
                    scanned.state,
                ) == scanned.state);
            }
            assert(spec_replay_ok(
                scanned.log,
                scanned.last_applied as int,
                spec_apply_bound(scanned),
                scanned.state,
            ));
        }
        self.state = RecoveryState::Normal;
        Ok(
            RecoveredState {
                state,
                current_term,
                voted_for,
                log,
                commit_index,
                last_applied: bound,
            },
        )
    }

    /// Recover just the state, per the crash-recovery procedure.
    pub fn recover(&mut self, snapshot: Option<Snapshot>, entries: &Vec<WALEntry>) -> (r: Result<
        State,
        RecoveryError,
    >)
        ensures
            ({
                let init = spec_recover_init(
                    match snapshot {
                        Some(s) => Some(s@),
                        None => None,
                    },
                );
                let scanned = spec_recover_scan(
                    entries@.map(|_i: int, e: WALEntry| crate::codec::record_abs(e@)),
                    init,
                );
                &&& (r is Ok <==> spec_replay_ok(
                    scanned.log,
                    scanned.last_applied as int,
                    spec_apply_bound(scanned),
                    scanned.state,
                ))
                &&& match r {
                    Ok(s) => s@ == spec_replay(
                        scanned.log,
                        scanned.last_applied as int,
                        spec_apply_bound(scanned),
                        scanned.state,
                    ) && final(self).spec_phase() == RecoveryState::Normal,
                    Err(e) => e is UnrecoverableState && final(self).spec_phase()
                        == RecoveryState::Failed,
                }
            }),
    {
        match self.recover_full(snapshot, entries) {
            Ok(rec) => Ok(rec.state),
            Err(e) => Err(e),
        }
    }

    /// Repair: fall back to the latest snapshot, discarding the live state;
    /// with no snapshot, rebuild from the records alone.
    pub fn repair(&mut self, snapshot: Option<Snapshot>, entries: &Vec<WALEntry>) -> (r: Result<
        State,
        RecoveryError,
    >)
        ensures
            (snapshot matches Some(snap) ==> (r matches Ok(st) && st == snap.state
                && final(self).spec_phase() == RecoveryState::Normal)),
            snapshot is None ==> ({
                let scanned = spec_recover_scan(
                    entries@.map(|_i: int, e: WALEntry| crate::codec::record_abs(e@)),
                    spec_recover_init(None),
                );
                &&& (r is Ok <==> spec_replay_ok(
                    scanned.log,
                    scanned.last_applied as int,
                    spec_apply_bound(scanned),
                    scanned.state,
                ))
                &&& (r matches Ok(s) ==> s@ == spec_replay(
                    scanned.log,
                    scanned.last_applied as int,
                    spec_apply_bound(scanned),
                    scanned.state,
                ) && final(self).spec_phase() == RecoveryState::Normal)
            }),
    {
        match snapshot {
            Some(snap) => {
                self.state = RecoveryState::Normal;
                Ok(snap.state)
            },
            None => self.recover(None, entries),
        }
    }

    /// A health summary of this node.
    pub fn health_check(&self, state: &State) -> (r: HealthStatus)
        ensures
            r.node_id == self.spec_node_id(),
            r.recovery_state == self.spec_phase(),
            r.clock == state@.clock,
            r.term == state@.term,
            r.members == state@.members.len(),
            r.healthy == (self.spec_phase() == RecoveryState::Normal),
    {
        HealthStatus {
            node_id: self.node_id,
            recovery_state: self.state,
            clock: state.clock,
            term: state.term,
            members: state.members.len(),
            healthy: matches!(self.state, RecoveryState::Normal),
        }
    }
}

/// Extending the replayed range by one entry.
proof fn lemma_replay_snoc(log: Seq<LogEntryModel>, from: int, k: int, s: StateModel)
    requires
        from <= k < log.len(),
    ensures
        spec_replay(log, from, k + 1, s) == spec_apply(
            log[k].transition,
            spec_replay(log, from, k, s),
        ),
    decreases k - from,
{
    if from == k {
        assert(spec_replay(log, from, k, s) == s);
    } else {
        lemma_replay_snoc(log, from + 1, k, spec_apply(log[from].transition, s));
    }
}

/// The delay before a retry: the initial delay doubled per attempt, never
/// past the cap; at or beyond the attempt limit, the cap itself.
pub open spec fn spec_backoff(initial_ms: u64, cap_ms: u64, attempt: nat) -> u64
    decreases attempt,
{
    if attempt == 0 {
        if initial_ms > cap_ms {
            cap_ms
        } else {
            initial_ms
        }
    } else {
        let p = spec_backoff(initial_ms, cap_ms, (attempt - 1) as nat);
        if p > cap_ms / 2 {
            cap_ms
        } else {
            (2 * p) as u64
        }
    }
}

/// Retry pacing with exponential back-off, in whole milliseconds.
pub struct RetryPolicy {
    initial_delay_ms: u64,
    max_delay_ms: u64,
    max_attempts: usize,
}

impl RetryPolicy {
    pub closed spec fn spec_initial(self) -> u64 {
        self.initial_delay_ms
    }

    pub closed spec fn spec_cap(self) -> u64 {
        self.max_delay_ms
    }

    pub closed spec fn spec_attempts(self) -> usize {
        self.max_attempts
    }

    /// Doubling back-off from the given initial delay, capped at one minute.
    pub fn exponential(initial_ms: u64, max_attempts: usize) -> (r: RetryPolicy)
        ensures
            r.spec_initial() == initial_ms,
            r.spec_cap() == 60000,
            r.spec_attempts() == max_attempts,
    {
        RetryPolicy { initial_delay_ms: initial_ms, max_delay_ms: 60000, max_attempts }
    }

    /// The delay before the given attempt, milliseconds.
    pub fn delay_for_attempt(&self, attempt: usize) -> (r: u64)
        ensures
            attempt >= self.spec_attempts() ==> r == self.spec_cap(),
            attempt < self.spec_attempts() ==> r == spec_backoff(
                self.spec_initial(),
                self.spec_cap(),
                attempt as nat,
            ),
    {
        if attempt >= self.max_attempts {
            return self.max_delay_ms;
        }
        let mut d: u64 = if self.initial_delay_ms > self.max_delay_ms {
            self.max_delay_ms
        } else {
            self.initial_delay_ms
        };
        let mut i: usize = 0;
        while i < attempt
            invariant
                0 <= i <= attempt,
                d == spec_backoff(self.spec_initial(), self.spec_cap(), i as nat),
            decreases attempt - i,
        {
            if d > self.max_delay_ms / 2 {
                d = self.max_delay_ms;
            } else {
                d = 2 * d;
            }
            i = i + 1;
        }
        d
    }
}

/// A node's health, as reported to the operator.
#[derive(Debug, Clone)]
pub struct HealthStatus {
    pub node_id: NodeId,
    pub recovery_state: RecoveryState,
    pub clock: u64,
    pub term: u64,
    pub members: usize,
    pub healthy: bool,
}


// ---------------------------------------------------------------------------
// Partition detection, failover and fault isolation.
// ---------------------------------------------------------------------------
/// Tracks when each peer was last heard from and reports partitions.
pub struct PartitionDetector {
    node_id: NodeId,
    /// Last contact time per peer, milliseconds.
    last_contact: Vec<(NodeId, u64)>,
    /// Silence longer than this counts a peer unreachable.
    timeout_ms: u64,
    /// Partitions seen so far.
    partitions: Vec<Partition>,
}

/// A detected partition: who answered recently and who did not.
#[derive(Debug, Clone)]
pub struct Partition {
    pub detected_at: u64,
    pub unreachable_nodes: Vec<NodeId>,
    pub reachable_nodes: Vec<NodeId>,
}

impl PartitionDetector {
    /// How many distinct peers have ever been heard from.
    pub closed spec fn spec_contacts(self) -> Seq<(NodeId, u64)> {
        self.last_contact@
    }

    pub fn new(node_id: NodeId, timeout_ms: u64) -> (r: PartitionDetector)
        ensures
            r.spec_contacts().len() == 0,
    {
        PartitionDetector {
            node_id,
            last_contact: Vec::new(),
            timeout_ms,
            partitions: Vec::new(),
        }
    }

    /// Record that a peer answered now.
    pub fn update_contact(&mut self, peer: NodeId, now_ms: u64)
        ensures
            final(self).spec_contacts().len() >= old(self).spec_contacts().len(),
            exists|i: int|
                0 <= i < final(self).spec_contacts().len() && (
                #[trigger] final(self).spec_contacts()[i]) == (peer, now_ms),
    {
        let n = self.last_contact.len();
        let mut i: usize = 0;
        while i < n
            invariant
                0 <= i <= n,
                n == self.last_contact@.len(),
                self.last_contact@ == old(self).last_contact@,
                self.timeout_ms == old(self).timeout_ms,
            decreases n - i,
        {
            if self.last_contact[i].0 == peer {
                self.last_contact[i] = (peer, now_ms);
                proof {
                    assert(self.last_contact@[i as int] == (peer, now_ms));
                }
                return ;
            }
            i = i + 1;
        }
        self.last_contact.push((peer, now_ms));
        proof {
            assert(self.last_contact@.last() == (peer, now_ms));
        }
    }

    /// Check which peers have been silent beyond the timeout; a non-empty
    /// set of silent peers is a partition.
    pub fn detect_partitions(&mut self, all_peers: &Vec<NodeId>, now_ms: u64) -> (r: Option<
        Partition,
    >)
        ensures
            match r {
                Some(p) => p.unreachable_nodes@.len() > 0 && p.detected_at == now_ms,
                None => true,
            },
    {
        let mut unreachable: Vec<NodeId> = Vec::new();
        let mut reachable: Vec<NodeId> = Vec::new();
        let n = all_peers.len();
        let mut i: usize = 0;
        while i < n
            invariant
                0 <= i <= n,
                n == all_peers@.len(),
            decreases n - i,
        {
            let peer = all_peers[i];
            if peer != self.node_id {
                let mut seen: Option<u64> = None;
                let m = self.last_contact.len();
                let mut j: usize = 0;
                while j < m
                    invariant
                        0 <= j <= m,
                        m == self.last_contact@.len(),
                    decreases m - j,
                {
                    if self.last_contact[j].0 == peer {
                        seen = Some(self.last_contact[j].1);
                    }
                    j = j + 1;
                }
                match seen {
                    Some(last_time) => {
                        if now_ms >= last_time && now_ms - last_time > self.timeout_ms {
                            unreachable.push(peer);
                        } else {
                            reachable.push(peer);
                        }
                    },
                    None => {
                        unreachable.push(peer);
                    },
                }
            }
            i = i + 1;
        }
        if unreachable.len() > 0 {
            let p = Partition {
                detected_at: now_ms,
                unreachable_nodes: unreachable,
                reachable_nodes: reachable,
            };
            self.partitions.push(
                Partition {
                    detected_at: p.detected_at,
                    unreachable_nodes: crate::clone_vec_u64(&p.unreachable_nodes),
                    reachable_nodes: crate::clone_vec_u64(&p.reachable_nodes),
                },
            );
            Some(p)
        } else {
            None
        }
    }

    /// Whether this node can still reach a strict majority of the cluster.
    pub fn in_majority(&self, total_nodes: usize) -> (r: bool)
        ensures
            r == (self.spec_contacts().len() + 1 > total_nodes as int / 2),
    {
        self.last_contact.len() >= total_nodes / 2
    }
}

/// Chooses a new primary from an ordered list of backups.
pub struct FailoverManager {
    primary: Option<NodeId>,
    backups: Vec<NodeId>,
    history: Vec<FailoverEvent>,
}

/// One failover that happened.
#[derive(Debug, Clone)]
pub struct FailoverEvent {
    pub timestamp: u64,
    pub from: Option<NodeId>,
    pub to: NodeId,
    pub reason: FailoverReason,
}

/// Why a failover was initiated.
#[derive(Debug, Clone)]
pub enum FailoverReason {
    PrimaryUnreachable,
    HealthCheckFailed,
    ManualFailover,
    StateCorruption,
}

impl FailoverManager {
    pub closed spec fn spec_primary(self) -> Option<NodeId> {
        self.primary
    }

    pub closed spec fn spec_backups(self) -> Seq<NodeId> {
        self.backups@
    }

    pub fn new(backups: Vec<NodeId>) -> (r: FailoverManager)
        ensures
            r.spec_primary() is None,
            r.spec_backups() == backups@,
    {
        FailoverManager { primary: None, backups, history: Vec::new() }
    }

    /// Promote the first backup; the deposed primary, if any, goes to the
    /// back of the line.
    pub fn failover(&mut self, reason: FailoverReason, now_ms: u64) -> (r: Option<NodeId>)
        ensures
            match r {
                Some(new_primary) => old(self).spec_backups().len() > 0 && new_primary == old(
                    self,
                ).spec_backups()[0] && final(self).spec_primary() == Some(new_primary),
                None => old(self).spec_backups().len() == 0 && final(self).spec_primary() == old(
                    self,
                ).spec_primary(),
            },
    {
        let old_primary = self.primary;
        if self.backups.len() == 0 {
            return None;
        }
        let new_primary = self.backups[0];
        self.primary = Some(new_primary);
        match old_primary {
            Some(old_p) => {
                let mut kept: Vec<NodeId> = Vec::new();
                let n = self.backups.len();
                let mut i: usize = 0;
                while i < n
                    invariant
                        0 <= i <= n,
                        n == self.backups@.len(),
                    decreases n - i,
                {
                    if self.backups[i] != new_primary {
                        kept.push(self.backups[i]);
                    }
                    i = i + 1;
                }
                kept.push(old_p);
                self.backups = kept;
            },
            None => {
                self.backups.remove(0);
            },
        }
        self.history.push(
            FailoverEvent { timestamp: now_ms, from: old_primary, to: new_primary, reason },
        );
        Some(new_primary)
    }

    /// Current primary.
    pub fn current_primary(&self) -> (r: Option<NodeId>)
        ensures
            r == self.spec_primary(),
    {
        self.primary
    }

    /// All failovers so far.
    pub fn get_history(&self) -> (r: &Vec<FailoverEvent>)
    {
        &self.history
    }
}

/// Fault isolation: an operation that keeps failing is cut off until a
/// timeout passes, then probed again.
pub struct CircuitBreaker {
    state: CircuitState,
    failures: usize,
    threshold: usize,
    timeout_ms: u64,
    last_failure: Option<u64>,
}

/// The breaker's mode.
#[derive(Debug, Clone, Copy, PartialEq, Eq, Structural)]
pub enum CircuitState {
    /// Normal operation.
    Closed,
    /// Failing: requests are rejected.
    Open,
    /// Probing whether the fault has cleared.
    HalfOpen,
}

impl CircuitBreaker {
    pub closed spec fn spec_state(self) -> CircuitState {
        self.state
    }

    pub closed spec fn spec_failures(self) -> usize {
        self.failures
    }

    pub closed spec fn spec_threshold(self) -> usize {
        self.threshold
    }

    pub closed spec fn spec_timeout_ms(self) -> u64 {
        self.timeout_ms
    }

    pub closed spec fn spec_last_failure(self) -> Option<u64> {
        self.last_failure
    }

    pub fn new(threshold: usize, timeout_ms: u64) -> (r: CircuitBreaker)
        ensures
            r.spec_state() == CircuitState::Closed,
            r.spec_failures() == 0,
            r.spec_threshold() == threshold,
    {
        CircuitBreaker {
            state: CircuitState::Closed,
            failures: 0,
            threshold,
            timeout_ms,
            last_failure: None,
        }
    }

    /// A success closes a probing breaker and clears the failure count.
    pub fn record_success(&mut self)
        ensures
            final(self).spec_state() == if old(self).spec_state() == CircuitState::Open {
                CircuitState::Open
            } else {
                CircuitState::Closed
            },
            old(self).spec_state() != CircuitState::Open ==> final(self).spec_failures() == 0,
    {
        match self.state {
            CircuitState::Closed => {
                self.failures = 0;
            },
            CircuitState::HalfOpen => {
                self.state = CircuitState::Closed;
                self.failures = 0;
            },
            CircuitState::Open => {},
        }
    }

    /// A failure past the threshold opens the breaker.
    pub fn record_failure(&mut self, now_ms: u64)
        ensures
            final(self).spec_threshold() == old(self).spec_threshold(),
            final(self).spec_timeout_ms() == old(self).spec_timeout_ms(),
            final(self).spec_last_failure() == Some(now_ms),
            final(self).spec_failures() == if old(self).spec_failures() < usize::MAX {
                (old(self).spec_failures() + 1) as usize
            } else {
                old(self).spec_failures()
            },
            final(self).spec_state() == (if final(self).spec_failures()
                >= final(self).spec_threshold() {
                CircuitState::Open
            } else {
                old(self).spec_state()
            }),
    {
        if self.failures < usize::MAX {
            self.failures = self.failures + 1;
        }
        self.last_failure = Some(now_ms);
        if self.failures >= self.threshold {
            self.state = CircuitState::Open;
        }
    }

    /// Whether a request may go through: always when closed or probing;
    /// when open, only once the timeout has passed, which starts a probe.
    pub fn allow_request(&mut self, now_ms: u64) -> (r: bool)
        ensures
            final(self).spec_failures() == old(self).spec_failures(),
            final(self).spec_threshold() == old(self).spec_threshold(),
            final(self).spec_timeout_ms() == old(self).spec_timeout_ms(),
            final(self).spec_last_failure() == old(self).spec_last_failure(),
            old(self).spec_state() == CircuitState::Closed ==> r && final(self).spec_state()
                == CircuitState::Closed,
            old(self).spec_state() == CircuitState::HalfOpen ==> r && final(self).spec_state()
                == CircuitState::HalfOpen,
            old(self).spec_state() == CircuitState::Open ==> ({
                &&& r == (old(self).spec_last_failure() matches Some(last) && now_ms >= last
                    && now_ms - last > old(self).spec_timeout_ms())
                &&& final(self).spec_state() == (if r {
                    CircuitState::HalfOpen
                } else {
                    CircuitState::Open
                })
            }),
    {
        match self.state {
            CircuitState::Closed => true,
            CircuitState::HalfOpen => true,
            CircuitState::Open => {
                match self.last_failure {
                    Some(last) => {
                        if now_ms >= last && now_ms - last > self.timeout_ms {
                            self.state = CircuitState::HalfOpen;
                            true
                        } else {
                            false
                        }
                    },
                    None => false,
                }
            },
        }
    }

    /// The breaker's current mode.
    pub fn state(&self) -> (r: CircuitState)
        ensures
            r == self.spec_state(),
    {
        self.state
    }
}


} // verus!
