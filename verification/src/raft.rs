//! Leader election and log replication.
//!
//! A node is a pure state machine: timers and randomness live outside, so
//! every handler is a function from the node's state and one event to the
//! next state, the records that must become durable, and the messages to
//! send. The embedding driver persists the records of a step's output
//! *before* it sends the step's messages; every contract that promises a
//! record in `to_persist` for a message in `messages` is a durability-before-
//! acknowledgment guarantee.

use crate::codec::TransitionModel;
use crate::storage::WALEntry;
use crate::{NodeId, Transition};
use vstd::prelude::*;

verus! {

/// The role a node currently plays.
#[derive(Debug, Clone, Copy, PartialEq, Eq, Structural)]
pub enum Role {
    Follower,
    Candidate,
    Leader,
}

/// Mathematical value of one log entry.
pub ghost struct LogEntryModel {
    pub term: u64,
    pub index: usize,
    pub transition: TransitionModel,
}

/// One entry of the replicated log.
#[derive(Debug)]
pub struct LogEntry {
    /// Term in which the entry was created by a leader.
    pub term: u64,
    /// Position in the log, 1-based and dense.
    pub index: usize,
    /// The state machine command.
    pub transition: Transition,
}

impl View for LogEntry {
    type V = LogEntryModel;

    open spec fn view(&self) -> LogEntryModel {
        LogEntryModel { term: self.term, index: self.index, transition: self.transition@ }
    }
}

impl Clone for LogEntry {
    fn clone(&self) -> (r: Self)
        ensures
            r@ == self@,
    {
        LogEntry { term: self.term, index: self.index, transition: self.transition.clone() }
    }
}

/// State that must be durable before any response that references it.
#[derive(Debug)]
pub struct PersistentState {
    /// Latest term this node has seen.
    pub current_term: u64,
    /// Who received this node's vote in the current term, if anyone.
    pub voted_for: Option<NodeId>,
    /// The replicated log.
    pub log: Vec<LogEntry>,
}

/// State every node keeps in memory only.
#[derive(Debug, Clone)]
pub struct VolatileState {
    /// Highest log index known committed.
    pub commit_index: usize,
    /// Highest log index delivered to the state machine.
    pub last_applied: usize,
}

/// Per-peer progress a leader tracks; rebuilt on election.
#[derive(Debug, Clone)]
pub struct LeaderState {
    /// For each peer (in configuration order): next log index to send.
    pub next_index: Vec<usize>,
    /// For each peer (in configuration order): highest index known replicated.
    pub match_index: Vec<usize>,
}

/// Static configuration of a node.
#[derive(Debug, Clone)]
pub struct RaftConfig {
    /// All nodes of the cluster, this one included.
    pub peers: Vec<NodeId>,
    /// Election timeout range, milliseconds.
    pub election_timeout_min: u64,
    pub election_timeout_max: u64,
    /// Heartbeat interval, milliseconds.
    pub heartbeat_interval: u64,
}

/// A message between nodes.
#[derive(Debug)]
pub struct RaftMessage {
    pub from: NodeId,
    pub to: NodeId,
    pub payload: MessagePayload,
}

/// The protocol's message variants.
#[derive(Debug)]
pub enum MessagePayload {
    RequestVote { term: u64, candidate_id: NodeId, last_log_index: usize, last_log_term: u64 },
    RequestVoteResponse { term: u64, vote_granted: bool },
    AppendEntries {
        term: u64,
        leader_id: NodeId,
        prev_log_index: usize,
        prev_log_term: u64,
        entries: Vec<LogEntry>,
        leader_commit: usize,
    },
    AppendEntriesResponse { term: u64, success: bool, match_index: usize },
}

impl MessagePayload {
    /// The term a message carries.
    pub fn term(&self) -> (t: u64)
        ensures
            t == self.spec_term(),
    {
        match self {
            MessagePayload::RequestVote { term, .. } => *term,
            MessagePayload::RequestVoteResponse { term, .. } => *term,
            MessagePayload::AppendEntries { term, .. } => *term,
            MessagePayload::AppendEntriesResponse { term, .. } => *term,
        }
    }

    pub open spec fn spec_term(self) -> u64 {
        match self {
            MessagePayload::RequestVote { term, .. } => term,
            MessagePayload::RequestVoteResponse { term, .. } => term,
            MessagePayload::AppendEntries { term, .. } => term,
            MessagePayload::AppendEntriesResponse { term, .. } => term,
        }
    }
}

/// What one protocol step asks of the outside world. The driver makes every
/// record of `to_persist` durable before it sends any message of `messages`:
/// that order is the durability-before-acknowledgment rule.
pub struct StepOutput {
    /// Records that must be durable before the messages go out.
    pub to_persist: Vec<WALEntry>,
    /// Messages to send once the records are durable.
    pub messages: Vec<RaftMessage>,
}

impl StepOutput {
    fn empty() -> (r: StepOutput)
        ensures
            r.to_persist@.len() == 0,
            r.messages@.len() == 0,
    {
        StepOutput { to_persist: Vec::new(), messages: Vec::new() }
    }
}

// ---------------------------------------------------------------------------
// Specification helpers.
// ---------------------------------------------------------------------------
/// Log indexes are dense and 1-based.
pub open spec fn log_wf(log: Seq<LogEntryModel>) -> bool {
    forall|i: int| 0 <= i < log.len() ==> (#[trigger] log[i]).index == i + 1
}

/// Term of the last log entry, 0 for an empty log.
pub open spec fn last_log_term(log: Seq<LogEntryModel>) -> u64 {
    if log.len() == 0 {
        0
    } else {
        log.last().term
    }
}

/// The candidate's log is at least as up-to-date as ours.
pub open spec fn candidate_up_to_date(
    last_index: usize,
    last_term: u64,
    log: Seq<LogEntryModel>,
) -> bool {
    ||| last_term > last_log_term(log)
    ||| (last_term == last_log_term(log) && last_index >= log.len())
}

/// The consistency check on the entry before the appended ones.
pub open spec fn prev_ok(log: Seq<LogEntryModel>, prev_index: usize, prev_term: u64) -> bool {
    prev_index == 0 || (prev_index <= log.len() && log[prev_index - 1].term == prev_term)
}

/// A strict majority of a cluster of `n` voters.
pub open spec fn spec_majority(n: int) -> int {
    n / 2 + 1
}

/// The peers other than `id`, in configuration order.
pub open spec fn others_of(peers: Seq<NodeId>, id: NodeId) -> Seq<NodeId>
    decreases peers.len(),
{
    if peers.len() == 0 {
        Seq::empty()
    } else {
        let p = others_of(peers.drop_last(), id);
        if peers.last() == id {
            p
        } else {
            p.push(peers.last())
        }
    }
}

/// A step-down's new term is durable as the output's first record.
pub open spec fn step_down_recorded(term: u64, out: StepOutput) -> bool {
    out.to_persist@.len() >= 1 && out.to_persist@[0]@ == (crate::codec::WalRecordModel::Metadata {
        current_term: term,
        voted_for: None,
    })
}

/// The messages a leader sends on a tick: one replication request per other
/// peer, in configuration order, each carrying the leader's term and commit
/// index and the log suffix that peer still needs.
pub open spec fn heartbeat_messages(n: RaftNode, msgs: Seq<RaftMessage>) -> bool {
    let others = others_of(n.spec_peers(), n.spec_id());
    &&& msgs.len() == others.len()
    &&& forall|k: int|
        0 <= k < msgs.len() ==> ((#[trigger] msgs[k]).from == n.spec_id() && msgs[k].to
            == others[k] && (msgs[k].payload matches MessagePayload::AppendEntries {
            term,
            leader_id,
            prev_log_index,
            prev_log_term: _,
            entries,
            leader_commit,
        } && term == n.spec_term() && leader_id == n.spec_id() && leader_commit == n.spec_commit()
            && prev_log_index <= n.spec_log().len() && log_views(entries@) == n.spec_log().skip(
            prev_log_index as int,
        )))
}

/// The output of starting an election: a fresh term with a durable
/// self-vote, the timer reset, and one vote request per other peer carrying
/// this node's log position.
pub open spec fn election_step(pre: RaftNode, post: RaftNode, now_ms: u64, out: StepOutput) -> bool {
    let others = others_of(pre.spec_peers(), pre.spec_id());
    &&& post.inv()
    &&& post.spec_id() == pre.spec_id()
    &&& post.spec_peers() == pre.spec_peers()
    &&& post.spec_term() == pre.spec_term() + 1
    &&& post.spec_voted_for() == Some(pre.spec_id())
    &&& post.spec_log() == pre.spec_log()
    &&& post.spec_commit() == pre.spec_commit()
    &&& post.spec_last_applied() == pre.spec_last_applied()
    &&& post.spec_last_heartbeat() == now_ms
    &&& out.to_persist@.len() == 1
    &&& out.to_persist@[0]@ == (crate::codec::WalRecordModel::Metadata {
        current_term: post.spec_term(),
        voted_for: Some(post.spec_id()),
    })
    &&& out.messages@.len() == others.len()
    &&& forall|k: int|
        0 <= k < out.messages@.len() ==> ((#[trigger] out.messages@[k]).from == post.spec_id()
            && out.messages@[k].to == others[k] && (out.messages@[k].payload
            matches MessagePayload::RequestVote { term, candidate_id, last_log_index, last_log_term }
            && term == post.spec_term() && candidate_id == post.spec_id() && last_log_index
            == pre.spec_log().len() && last_log_term == crate::raft::last_log_term(pre.spec_log())))
    &&& (post.spec_role() == Role::Candidate || post.spec_role() == Role::Leader)
    &&& (post.spec_role() == Role::Leader ==> spec_majority(pre.spec_peers().len() as int) <= 1)
}

/// The follower's log after accepting entries at `prev`: keep entries that
/// already match, delete a conflicting suffix, append the rest.
pub open spec fn merge_log(
    log: Seq<LogEntryModel>,
    prev: int,
    entries: Seq<LogEntryModel>,
) -> Seq<LogEntryModel>
    decreases entries.len(),
{
    if entries.len() == 0 {
        log
    } else if prev >= log.len() {
        log + entries
    } else if log[prev].term == entries[0].term {
        merge_log(log, prev + 1, entries.drop_first())
    } else {
        log.take(prev) + entries
    }
}

/// Merging never shortens the log below `prev + entries.len()`, and the
/// merged log carries exactly the leader's entries at those positions.
pub proof fn lemma_merge_log_entries(
    log: Seq<LogEntryModel>,
    prev: int,
    entries: Seq<LogEntryModel>,
)
    requires
        0 <= prev <= log.len(),
        log_wf(log),
        forall|k: int| 0 <= k < entries.len() ==> (#[trigger] entries[k]).index == prev + 1 + k,
    ensures
        merge_log(log, prev, entries).len() >= prev + entries.len(),
        merge_log(log, prev, entries).len() >= log.len() || merge_log(log, prev, entries).len()
            == prev + entries.len(),
        log_wf(merge_log(log, prev, entries)),
        forall|i: int| 0 <= i < prev ==> (#[trigger] merge_log(log, prev, entries)[i]) == log[i],
        forall|k: int|
            0 <= k < entries.len() ==> (#[trigger] merge_log(log, prev, entries)[prev + k]).term
                == entries[k].term,
        forall|k: int|
            0 <= k < entries.len() ==> (#[trigger] merge_log(log, prev, entries)[prev + k])
                == entries[k] || (prev + k < log.len() && merge_log(log, prev, entries)[prev + k]
                == log[prev + k]),
        merge_log(log, prev, entries).len() <= log.len() || merge_log(log, prev, entries).len()
            == prev + entries.len(),
        forall|i: int|
            prev + entries.len() <= i < merge_log(log, prev, entries).len() ==> (
            #[trigger] merge_log(log, prev, entries)[i]) == log[i],
    decreases entries.len(),
{
    let merged = merge_log(log, prev, entries);
    if entries.len() == 0 {
        assert(merged == log);
    } else if prev >= log.len() {
        assert(merged == log + entries);
        assert forall|i: int| 0 <= i < merged.len() implies (#[trigger] merged[i]).index == i
            + 1 by {
            if i < log.len() {
                assert(merged[i] == log[i]);
            } else {
                assert(merged[i] == entries[i - log.len()]);
            }
        }
        assert forall|k: int| 0 <= k < entries.len() implies (#[trigger] merged[prev + k])
            == entries[k] || (prev + k < log.len() && merged[prev + k] == log[prev + k]) by {
            assert(prev == log.len());
            assert(merged[prev + k] == entries[k]);
        }
        assert(merged.len() == prev + entries.len());
    } else if log[prev].term == entries[0].term {
        assert(forall|k: int|
            0 <= k < entries.drop_first().len() ==> (#[trigger] entries.drop_first()[k]) == entries[
                k + 1
            ]);
        lemma_merge_log_entries(log, prev + 1, entries.drop_first());
        assert(merged == merge_log(log, prev + 1, entries.drop_first()));
        assert forall|k: int| 0 <= k < entries.len() implies ((#[trigger] merged[prev + k]).term
            == entries[k].term && (merged[prev + k] == entries[k] || (prev + k < log.len() && merged[
            prev + k
        ] == log[prev + k]))) by {
            if k == 0 {
                assert(merged[prev] == log[prev]);
            } else {
                assert(merged[(prev + 1) + (k - 1)].term == entries.drop_first()[k - 1].term);
                assert(merged[(prev + 1) + (k - 1)] == entries.drop_first()[k - 1] || ((prev + 1) +
                    (k - 1) < log.len() && merged[(prev + 1) + (k - 1)] == log[(prev + 1) + (k
                    - 1)]));
            }
        }
        assert forall|i: int| prev + entries.len() <= i < merged.len() implies (
        #[trigger] merged[i]) == log[i] by {
            assert((prev + 1) + entries.drop_first().len() <= i);
            assert(merge_log(log, prev + 1, entries.drop_first())[i] == log[i]);
        }
    } else {
        assert(merged == log.take(prev) + entries);
        assert forall|i: int| 0 <= i < merged.len() implies (#[trigger] merged[i]).index == i
            + 1 by {
            if i < prev {
                assert(merged[i] == log[i]);
            } else {
                assert(merged[i] == entries[i - prev]);
            }
        }
        assert(merged.len() == prev + entries.len());
    }
}

// ---------------------------------------------------------------------------
// The node.
// ---------------------------------------------------------------------------
/// A node of the consensus protocol: a pure role machine over persistent
/// term, vote and log, with volatile commit and apply indexes.
pub struct RaftNode {
    id: NodeId,
    role: Role,
    persistent: PersistentState,
    volatile: VolatileState,
    leader_state: Option<LeaderState>,
    votes: Vec<NodeId>,
    config: RaftConfig,
    election_timeout: u64,
    last_heartbeat: u64,
}

impl RaftNode {
    pub closed spec fn spec_id(self) -> NodeId {
        self.id
    }

    pub closed spec fn spec_role(self) -> Role {
        self.role
    }

    pub closed spec fn spec_term(self) -> u64 {
        self.persistent.current_term
    }

    pub closed spec fn spec_voted_for(self) -> Option<NodeId> {
        self.persistent.voted_for
    }

    pub closed spec fn spec_log(self) -> Seq<LogEntryModel> {
        self.persistent.log@.map(|_i: int, e: LogEntry| e@)
    }

    pub closed spec fn spec_commit(self) -> usize {
        self.volatile.commit_index
    }

    pub closed spec fn spec_last_applied(self) -> usize {
        self.volatile.last_applied
    }

    pub closed spec fn spec_votes(self) -> Seq<NodeId> {
        self.votes@
    }

    pub closed spec fn spec_peers(self) -> Seq<NodeId> {
        self.config.peers@
    }

    pub closed spec fn spec_match_index(self) -> Seq<usize> {
        match self.leader_state {
            Some(ls) => ls.match_index@,
            None => Seq::empty(),
        }
    }

    pub closed spec fn spec_next_index(self) -> Seq<usize> {
        match self.leader_state {
            Some(ls) => ls.next_index@,
            None => Seq::empty(),
        }
    }

    /// When this node last heard from a valid leader or granted a vote.
    pub closed spec fn spec_last_heartbeat(self) -> u64 {
        self.last_heartbeat
    }

    /// The currently drawn election timeout.
    pub closed spec fn spec_timeout(self) -> u64 {
        self.election_timeout
    }

    /// The node's structural invariant: dense log indexes, commit and apply
    /// indexes within the log, leader bookkeeping sized to the cluster, and
    /// distinct recorded votes.
    pub closed spec fn inv(self) -> bool {
        &&& log_wf(self.spec_log())
        &&& self.volatile.last_applied <= self.volatile.commit_index
        &&& self.volatile.commit_index <= self.persistent.log@.len()
        &&& (self.role == Role::Leader ==> (self.leader_state matches Some(ls)
            && ls.next_index@.len() == self.config.peers@.len() && ls.match_index@.len()
            == self.config.peers@.len()))
        &&& crate::codec::members_unique(self.votes@)
        &&& forall|i: int| 0 <= i < self.votes@.len() ==> self.config.peers@.contains(#[trigger] self.votes@[i])
    }

    /// Create a new node. The election timeout starts at the configured
    /// minimum; the driver draws a fresh one from the configured range after
    /// every reset (randomness lives outside the state machine).
    pub fn new(id: NodeId, config: RaftConfig) -> (r: RaftNode)
        ensures
            r.inv(),
            r.spec_id() == id,
            r.spec_role() == Role::Follower,
            r.spec_term() == 0,
            r.spec_voted_for() is None,
            r.spec_log().len() == 0,
            r.spec_commit() == 0,
            r.spec_last_applied() == 0,
    {
        let timeout = config.election_timeout_min;
        let r = RaftNode {
            id,
            role: Role::Follower,
            persistent: PersistentState { current_term: 0, voted_for: None, log: Vec::new() },
            volatile: VolatileState { commit_index: 0, last_applied: 0 },
            leader_state: None,
            votes: Vec::new(),
            config,
            election_timeout: timeout,
            last_heartbeat: 0,
        };
        proof {
            assert(r.spec_log() =~= Seq::<LogEntryModel>::empty());
        }
        r
    }

    /// Install a freshly drawn election timeout.
    pub fn reset_election_timeout(&mut self, timeout: u64)
        requires
            old(self).inv(),
        ensures
            final(self).inv(),
            final(self).spec_role() == old(self).spec_role(),
            final(self).spec_term() == old(self).spec_term(),
            final(self).spec_log() == old(self).spec_log(),
    {
        self.election_timeout = timeout;
    }

    /// Restore persistent state recovered from storage.
    pub fn restore(&mut self, current_term: u64, voted_for: Option<NodeId>, log: Vec<LogEntry>, commit_index: usize, last_applied: usize)
        requires
            old(self).inv(),
            log_wf(log@.map(|_i: int, e: LogEntry| e@)),
            last_applied <= commit_index,
            commit_index <= log@.len(),
        ensures
            final(self).inv(),
            final(self).spec_term() == current_term,
            final(self).spec_voted_for() == voted_for,
            final(self).spec_log() == log@.map(|_i: int, e: LogEntry| e@),
            final(self).spec_commit() == commit_index,
            final(self).spec_last_applied() == last_applied,
            final(self).spec_role() == Role::Follower,
    {
        self.persistent = PersistentState { current_term, voted_for, log };
        self.volatile = VolatileState { commit_index, last_applied };
        self.role = Role::Follower;
        self.leader_state = None;
        self.votes = Vec::new();
        proof {
            assert(self.votes@ =~= Seq::<NodeId>::empty());
        }
    }

    /// Whether a majority of the cluster has granted this candidacy.
    fn has_majority(&self) -> (r: bool)
        ensures
            r == (self.spec_votes().len() >= spec_majority(self.spec_peers().len() as int)),
    {
        self.votes.len() >= self.config.peers.len() / 2 + 1
    }

    /// Become leader: reinitialize the per-peer progress optimistically.
    fn become_leader(&mut self)
        requires
            old(self).inv(),
            old(self).persistent.log@.len() < usize::MAX,
        ensures
            final(self).inv(),
            final(self).spec_role() == Role::Leader,
            final(self).spec_id() == old(self).spec_id(),
            final(self).spec_term() == old(self).spec_term(),
            final(self).spec_voted_for() == old(self).spec_voted_for(),
            final(self).spec_peers() == old(self).spec_peers(),
            final(self).spec_votes() == old(self).spec_votes(),
            final(self).spec_log() == old(self).spec_log(),
            final(self).spec_commit() == old(self).spec_commit(),
            final(self).spec_last_applied() == old(self).spec_last_applied(),
            final(self).spec_last_heartbeat() == old(self).spec_last_heartbeat(),
            final(self).spec_timeout() == old(self).spec_timeout(),
            final(self).spec_match_index().len() == final(self).spec_peers().len(),
            forall|i: int|
                0 <= i < final(self).spec_match_index().len() ==> (
                #[trigger] final(self).spec_match_index()[i]) == 0,
    {
        let n = self.config.peers.len();
        let next = self.persistent.log.len() + 1;
        let mut next_index: Vec<usize> = Vec::new();
        let mut match_index: Vec<usize> = Vec::new();
        let mut i: usize = 0;
        while i < n
            invariant
                0 <= i <= n,
                next_index@.len() == i,
                match_index@.len() == i,
                forall|j: int| 0 <= j < i ==> (#[trigger] match_index@[j]) == 0,
            decreases n - i,
        {
            next_index.push(next);
            match_index.push(0);
            i = i + 1;
        }
        self.role = Role::Leader;
        self.leader_state = Some(LeaderState { next_index, match_index });
    }

    /// The heartbeat messages a leader sends: for each peer, the entries
    /// from that peer's next index on (possibly none).
    fn send_heartbeats(&self) -> (msgs: Vec<RaftMessage>)
        requires
            self.inv(),
            self.spec_role() == Role::Leader,
            self.spec_log().len() < usize::MAX,
        ensures
            heartbeat_messages(*self, msgs@),
    {
        let n = self.config.peers.len();
        let mut msgs: Vec<RaftMessage> = Vec::new();
        let mut i: usize = 0;
        while i < n
            invariant
                0 <= i <= n,
                self.inv(),
                self.spec_role() == Role::Leader,
                self.spec_log().len() < usize::MAX,
                n == self.config.peers@.len(),
                msgs@.len() == others_of(self.spec_peers().subrange(0, i as int), self.spec_id()).len(),
                forall|k: int|
                    0 <= k < msgs@.len() ==> ((#[trigger] msgs@[k]).from == self.spec_id()
                        && msgs@[k].to == others_of(
                        self.spec_peers().subrange(0, i as int),
                        self.spec_id(),
                    )[k] && (msgs@[k].payload matches MessagePayload::AppendEntries {
                        term,
                        leader_id,
                        prev_log_index,
                        prev_log_term: _,
                        entries,
                        leader_commit,
                    } && term == self.spec_term() && leader_id == self.spec_id() && leader_commit
                        == self.spec_commit() && prev_log_index <= self.spec_log().len()
                        && log_views(entries@) == self.spec_log().skip(prev_log_index as int))),
            decreases n - i,
        {
            let ghost prefix = self.spec_peers().subrange(0, i as int);
            let ghost prefix1 = self.spec_peers().subrange(0, i + 1 as int);
            proof {
                assert(prefix1.drop_last() =~= prefix);
                assert(prefix1.last() == self.spec_peers()[i as int]);
            }
            let peer = self.config.peers[i];
            if peer != self.id {
                let next = match &self.leader_state {
                    Some(ls) => {
                        if i < ls.next_index.len() {
                            ls.next_index[i]
                        } else {
                            self.persistent.log.len() + 1
                        }
                    },
                    None => self.persistent.log.len() + 1,
                };
                let next = if next == 0 {
                    1
                } else {
                    next
                };
                let loglen = self.persistent.log.len();
                let start = if next > loglen + 1 {
                    loglen + 1
                } else {
                    next
                };
                let prev_log_index = start - 1;
                let prev_log_term = if prev_log_index == 0 {
                    0u64
                } else {
                    self.persistent.log[prev_log_index - 1].term
                };
                let mut entries: Vec<LogEntry> = Vec::new();
                let mut k: usize = start;
                proof {
                    assert(1 <= start <= loglen + 1);
                    assert(log_views(entries@) =~= self.spec_log().subrange(
                        start - 1 as int,
                        k - 1 as int,
                    ));
                }
                while k <= loglen
                    invariant
                        1 <= start <= k,
                        k <= loglen + 1,
                        loglen < usize::MAX,
                        loglen == self.persistent.log@.len(),
                        self.inv(),
                        log_views(entries@) =~= self.spec_log().subrange(
                            start - 1 as int,
                            k - 1 as int,
                        ),
                    decreases loglen + 1 - k,
                {
                    let ghost pre_entries = entries@;
                    let cl = self.persistent.log[k - 1].clone();
                    let ghost gcl = cl;
                    proof {
                        assert(gcl@ == self.spec_log()[k - 1 as int]);
                    }
                    entries.push(cl);
                    proof {
                        assert(entries@ == pre_entries.push(gcl));
                        assert(log_views(pre_entries).len() == pre_entries.len());
                        assert(pre_entries.len() == k - start);
                        assert forall|j: int| 0 <= j < entries@.len() implies (
                        #[trigger] log_views(entries@)[j]) == self.spec_log().subrange(
                            start - 1 as int,
                            k as int,
                        )[j] by {
                            if j < pre_entries.len() {
                                assert(entries@[j] == pre_entries[j]);
                                assert(log_views(pre_entries)[j] == self.spec_log().subrange(
                                    start - 1 as int,
                                    k - 1 as int,
                                )[j]);
                            } else {
                                assert(entries@[j] == gcl);
                            }
                        }
                        assert(log_views(entries@) =~= self.spec_log().subrange(
                            start - 1 as int,
                            k as int,
                        ));
                    }
                    k = k + 1;
                }
                proof {
                    assert(self.spec_log().subrange(start - 1 as int, loglen as int)
                        =~= self.spec_log().skip(prev_log_index as int));
                }
                msgs.push(
                    RaftMessage {
                        from: self.id,
                        to: peer,
                        payload: MessagePayload::AppendEntries {
                            term: self.persistent.current_term,
                            leader_id: self.id,
                            prev_log_index,
                            prev_log_term,
                            entries,
                            leader_commit: self.volatile.commit_index,
                        },
                    },
                );
                proof {
                    assert(others_of(prefix1, self.spec_id()) =~= others_of(
                        prefix,
                        self.spec_id(),
                    ).push(peer));
                }
            } else {
                proof {
                    assert(others_of(prefix1, self.spec_id()) =~= others_of(
                        prefix,
                        self.spec_id(),
                    ));
                }
            }
            i = i + 1;
        }
        proof {
            assert(self.spec_peers().subrange(0, n as int) =~= self.spec_peers());
        }
        msgs
    }

    /// Drive timers. A leader sends one replication request per other peer
    /// and changes nothing; a follower or candidate whose election timer has
    /// fired starts a new election, with the fresh term and self-vote in
    /// `to_persist` ahead of the vote requests they justify; otherwise the
    /// tick does nothing at all.
    pub fn tick(&mut self, now_ms: u64) -> (out: StepOutput)
        requires
            old(self).inv(),
            old(self).spec_term() < u64::MAX,
            old(self).spec_log().len() < usize::MAX,
        ensures
            final(self).inv(),
            // a leader's tick changes nothing and sends the heartbeats
            old(self).spec_role() == Role::Leader ==> *final(self) == *old(self)
                && heartbeat_messages(*old(self), out.messages@) && out.to_persist@.len() == 0,
            // a quiet timer means a do-nothing tick
            (old(self).spec_role() != Role::Leader && !(now_ms >= old(self).spec_last_heartbeat()
                && now_ms - old(self).spec_last_heartbeat() > old(self).spec_timeout())) ==> (
            *final(self) == *old(self) && out.to_persist@.len() == 0 && out.messages@.len() == 0),
            // a fired timer means an election happened
            (old(self).spec_role() != Role::Leader && now_ms >= old(self).spec_last_heartbeat()
                && now_ms - old(self).spec_last_heartbeat() > old(self).spec_timeout())
                ==> election_step(*old(self), *final(self), now_ms, out),
    {
        match self.role {
            Role::Leader => {
                let msgs = self.send_heartbeats();
                StepOutput { to_persist: Vec::new(), messages: msgs }
            },
            _ => {
                if now_ms >= self.last_heartbeat && now_ms - self.last_heartbeat
                    > self.election_timeout {
                    self.start_election(now_ms)
                } else {
                    StepOutput::empty()
                }
            },
        }
    }

    /// Begin a candidacy: advance the term, vote for this node, persist
    /// both, and ask every peer for its vote. In a single-node cluster the
    /// self-vote is already a majority.
    fn start_election(&mut self, now_ms: u64) -> (out: StepOutput)
        requires
            old(self).inv(),
            old(self).spec_term() < u64::MAX,
            old(self).spec_log().len() < usize::MAX,
        ensures
            election_step(*old(self), *final(self), now_ms, out),
    {
        self.persistent.current_term = self.persistent.current_term + 1;
        self.role = Role::Candidate;
        self.persistent.voted_for = Some(self.id);
        self.last_heartbeat = now_ms;
        let mut votes: Vec<NodeId> = Vec::new();
        votes.push(self.id);
        self.votes = votes;
        proof {
            assert(self.votes@ =~= seq![self.id]);
            assert(crate::codec::members_unique(self.votes@));
        }
        let mut to_persist: Vec<WALEntry> = Vec::new();
        to_persist.push(
            WALEntry::Metadata {
                current_term: self.persistent.current_term,
                voted_for: Some(self.id),
            },
        );
        // only a configured member's ballot counts, this node's included
        let self_is_peer = crate::vec_contains_u64(&self.config.peers, self.id);
        if !self_is_peer {
            // a node outside its own configured cluster records no votes
            self.votes = Vec::new();
            proof {
                assert(self.votes@ =~= Seq::<NodeId>::empty());
            }
        }
        let last_log_index = self.persistent.log.len();
        let last_term = if last_log_index == 0 {
            0u64
        } else {
            self.persistent.log[last_log_index - 1].term
        };
        let ghost pre = *self;
        proof {
            assert(last_log_index == pre.spec_log().len());
            assert(last_term == last_log_term(pre.spec_log()));
        }
        let n = self.config.peers.len();
        let mut messages: Vec<RaftMessage> = Vec::new();
        let mut i: usize = 0;
        while i < n
            invariant
                0 <= i <= n,
                n == self.config.peers@.len(),
                *self == pre,
                self.inv(),
                last_log_index == pre.spec_log().len(),
                last_term == last_log_term(pre.spec_log()),
                messages@.len() == others_of(
                    self.spec_peers().subrange(0, i as int),
                    self.spec_id(),
                ).len(),
                forall|k: int|
                    0 <= k < messages@.len() ==> ((#[trigger] messages@[k]).from == self.spec_id()
                        && messages@[k].to == others_of(
                        self.spec_peers().subrange(0, i as int),
                        self.spec_id(),
                    )[k] && (messages@[k].payload matches MessagePayload::RequestVote {
                        term,
                        candidate_id,
                        last_log_index: lli,
                        last_log_term: llt,
                    } && term == self.spec_term() && candidate_id == self.spec_id() && lli
                        == last_log_index && llt == last_term)),
            decreases n - i,
        {
            let ghost prefix = self.spec_peers().subrange(0, i as int);
            let ghost prefix1 = self.spec_peers().subrange(0, i + 1 as int);
            proof {
                assert(prefix1.drop_last() =~= prefix);
                assert(prefix1.last() == self.spec_peers()[i as int]);
            }
            let peer = self.config.peers[i];
            if peer != self.id {
                messages.push(
                    RaftMessage {
                        from: self.id,
                        to: peer,
                        payload: MessagePayload::RequestVote {
                            term: self.persistent.current_term,
                            candidate_id: self.id,
                            last_log_index,
                            last_log_term: last_term,
                        },
                    },
                );
                proof {
                    assert(others_of(prefix1, self.spec_id()) =~= others_of(
                        prefix,
                        self.spec_id(),
                    ).push(peer));
                }
            } else {
                proof {
                    assert(others_of(prefix1, self.spec_id()) =~= others_of(
                        prefix,
                        self.spec_id(),
                    ));
                }
            }
            i = i + 1;
        }
        proof {
            assert(self.spec_peers().subrange(0, n as int) =~= self.spec_peers());
        }
        if self_is_peer && self.persistent.log.len() < usize::MAX && self.votes.len()
            >= self.config.peers.len() / 2 + 1 {
            // a single-node cluster elects itself at once
            self.become_leader();
        }
        proof {
            assert(self.spec_peers() == old(self).spec_peers());
            assert(self.spec_id() == old(self).spec_id());
        }
        StepOutput { to_persist, messages }
    }
}


/// The models of a vector of log entries.
pub open spec fn log_views(s: Seq<LogEntry>) -> Seq<LogEntryModel> {
    s.map(|_i: int, e: LogEntry| e@)
}

/// The vote-granting rule: the request's term is current or newer, this node
/// has not already voted for someone else in that term, and the candidate's
/// log is at least as up-to-date.
pub open spec fn grants_vote(
    cur_term: u64,
    voted: Option<NodeId>,
    term: u64,
    candidate: NodeId,
    last_index: usize,
    last_term: u64,
    log: Seq<LogEntryModel>,
) -> bool {
    &&& term >= cur_term
    &&& (term > cur_term || voted is None || voted == Some(candidate))
    &&& candidate_up_to_date(last_index, last_term, log)
}

/// Entries carry dense indexes continuing right after `prev`.
pub open spec fn entries_dense(entries: Seq<LogEntryModel>, prev: usize) -> bool {
    forall|k: int| 0 <= k < entries.len() ==> (#[trigger] entries[k]).index == prev + 1 + k
}

/// No received entry contradicts a committed one: below the commit index,
/// every overlapping entry matches the log's term.
pub open spec fn no_committed_conflict(
    log: Seq<LogEntryModel>,
    commit: usize,
    prev: usize,
    entries: Seq<LogEntryModel>,
) -> bool {
    forall|k: int|
        0 <= k < entries.len() && prev + k < commit ==> prev + k < log.len() && (
        #[trigger] entries[k]).term == log[prev + k].term
}

/// How many of the first `upto` peers, other than the leader itself, have a
/// match index at least `n`.
pub open spec fn count_matches_upto(
    peers: Seq<NodeId>,
    matches: Seq<usize>,
    leader: NodeId,
    n: usize,
    upto: int,
) -> int
    decreases upto,
{
    if upto <= 0 {
        0
    } else {
        count_matches_upto(peers, matches, leader, n, upto - 1) + (if peers[upto - 1] != leader
            && matches[upto - 1] >= n {
            1int
        } else {
            0int
        })
    }
}

/// What handling a vote request does: the reply's grant follows
/// `grants_vote` exactly, a newer term steps the node down with the term
/// durable first, and a granted vote is durable and resets the timer.
pub open spec fn vote_request_step(
    pre: RaftNode,
    post: RaftNode,
    from: NodeId,
    term: u64,
    candidate_id: NodeId,
    last_log_index: usize,
    last_log_term_arg: u64,
    now_ms: u64,
    out: StepOutput,
) -> bool {
    let granted = grants_vote(
        pre.spec_term(),
        pre.spec_voted_for(),
        term,
        candidate_id,
        last_log_index,
        last_log_term_arg,
        pre.spec_log(),
    );
    &&& post.inv()
    &&& post.spec_id() == pre.spec_id()
    &&& post.spec_peers() == pre.spec_peers()
    &&& post.spec_log() == pre.spec_log()
    &&& post.spec_commit() == pre.spec_commit()
    &&& post.spec_last_applied() == pre.spec_last_applied()
    &&& post.spec_term() == (if term > pre.spec_term() {
        term
    } else {
        pre.spec_term()
    })
    &&& post.spec_role() == (if term > pre.spec_term() {
        Role::Follower
    } else {
        pre.spec_role()
    })
    &&& post.spec_voted_for() == (if granted {
        Some(candidate_id)
    } else if term > pre.spec_term() {
        None::<NodeId>
    } else {
        pre.spec_voted_for()
    })
    &&& post.spec_last_heartbeat() == (if granted {
        now_ms
    } else {
        pre.spec_last_heartbeat()
    })
    &&& (term > pre.spec_term() ==> step_down_recorded(term, out))
    &&& (!(term > pre.spec_term()) && !granted ==> out.to_persist@.len() == 0)
    &&& out.messages@.len() == 1
    &&& out.messages@[0].from == pre.spec_id()
    &&& out.messages@[0].to == from
    &&& (out.messages@[0].payload matches MessagePayload::RequestVoteResponse {
        term: t,
        vote_granted: g,
    } && t == post.spec_term() && g == granted)
    &&& (granted ==> exists|j: int|
        0 <= j < out.to_persist@.len() && (#[trigger] out.to_persist@[j])@
            == (crate::codec::WalRecordModel::Metadata {
            current_term: post.spec_term(),
            voted_for: Some(candidate_id),
        }))
}

/// What handling a replication request does: acceptance follows the
/// consistency rule exactly; accepted entries and any commit advance are
/// durable ahead of the acknowledgment; a stale term changes nothing.
pub open spec fn append_entries_step(
    pre: RaftNode,
    post: RaftNode,
    from: NodeId,
    term: u64,
    prev_log_index: usize,
    prev_log_term: u64,
    es: Seq<LogEntryModel>,
    leader_commit: usize,
    now_ms: u64,
    out: StepOutput,
) -> bool {
    let accepted = term >= pre.spec_term() && entries_dense(es, prev_log_index) && prev_ok(
        pre.spec_log(),
        prev_log_index,
        prev_log_term,
    ) && no_committed_conflict(pre.spec_log(), pre.spec_commit(), prev_log_index, es)
        && prev_log_index <= pre.spec_log().len();
    let last_new = prev_log_index + es.len();
    &&& post.inv()
    &&& post.spec_id() == pre.spec_id()
    &&& post.spec_peers() == pre.spec_peers()
    &&& post.spec_last_applied() == pre.spec_last_applied()
    &&& post.spec_term() == (if term > pre.spec_term() {
        term
    } else {
        pre.spec_term()
    })
    &&& (term > pre.spec_term() ==> step_down_recorded(term, out))
    &&& (term < pre.spec_term() ==> post == pre && out.to_persist@.len() == 0)
    &&& (term >= pre.spec_term() ==> post.spec_role() == Role::Follower
        && post.spec_last_heartbeat() == now_ms && post.spec_voted_for() == (if term
        > pre.spec_term() {
        None::<NodeId>
    } else {
        pre.spec_voted_for()
    }))
    &&& out.messages@.len() == 1
    &&& out.messages@[0].from == pre.spec_id()
    &&& out.messages@[0].to == from
    &&& (out.messages@[0].payload matches MessagePayload::AppendEntriesResponse {
        term: t,
        success: s,
        match_index: mi,
    } && t == post.spec_term() && s == accepted && (accepted ==> mi == last_new) && (!accepted
        ==> mi == 0))
    &&& (accepted ==> {
        &&& post.spec_log() == merge_log(pre.spec_log(), prev_log_index as int, es)
        &&& post.spec_commit() == ({
            let advanced = if leader_commit <= last_new {
                leader_commit as int
            } else {
                last_new
            };
            if advanced > pre.spec_commit() {
                advanced
            } else {
                pre.spec_commit() as int
            }
        })
        &&& (forall|k: int|
            #![trigger es[k]]
            0 <= k < es.len() ==> exists|j: int|
                0 <= j < out.to_persist@.len() && (#[trigger] out.to_persist@[j])@
                    == (crate::codec::WalRecordModel::LogEntry {
                    index: (prev_log_index + 1 + k) as usize,
                    term: es[k].term,
                    transition: es[k].transition,
                }))
        &&& (post.spec_commit() > pre.spec_commit() ==> exists|j: int|
            0 <= j < out.to_persist@.len() && (#[trigger] out.to_persist@[j])@
                == (crate::codec::WalRecordModel::Commit { index: post.spec_commit() }))
    })
    &&& (!accepted ==> post.spec_log() == pre.spec_log() && post.spec_commit()
        == pre.spec_commit())
}

impl RaftNode {
    /// Term of this node's last log entry.
    fn last_term_exec(&self) -> (t: u64)
        requires
            self.inv(),
        ensures
            t == last_log_term(self.spec_log()),
    {
        let n = self.persistent.log.len();
        if n == 0 {
            0
        } else {
            self.persistent.log[n - 1].term
        }
    }

    /// Handle a vote request; see `vote_request_step`.
    pub fn handle_request_vote(
        &mut self,
        from: NodeId,
        term: u64,
        candidate_id: NodeId,
        last_log_index: usize,
        last_log_term_arg: u64,
        now_ms: u64,
    ) -> (out: StepOutput)
        requires
            old(self).inv(),
        ensures
            vote_request_step(
                *old(self),
                *final(self),
                from,
                term,
                candidate_id,
                last_log_index,
                last_log_term_arg,
                now_ms,
                out,
            ),
    {
        let ghost granted_spec = grants_vote(
            self.persistent.current_term,
            self.persistent.voted_for,
            term,
            candidate_id,
            last_log_index,
            last_log_term_arg,
            self.spec_log(),
        );
        let ghost mut grant_slot: int = 0;
        let mut to_persist: Vec<WALEntry> = Vec::new();
        if term > self.persistent.current_term {
            // a newer term always forces a step-down and clears the vote
            self.persistent.current_term = term;
            self.role = Role::Follower;
            self.persistent.voted_for = None;
            to_persist.push(WALEntry::Metadata { current_term: term, voted_for: None });
        }
        let up_to_date = {
            let our_last_term = self.last_term_exec();
            last_log_term_arg > our_last_term || (last_log_term_arg == our_last_term
                && last_log_index >= self.persistent.log.len())
        };
        let vote_free = match self.persistent.voted_for {
            None => true,
            Some(v) => v == candidate_id,
        };
        let granted = term == self.persistent.current_term && vote_free && up_to_date;
        if granted {
            self.persistent.voted_for = Some(candidate_id);
            self.last_heartbeat = now_ms;
            to_persist.push(
                WALEntry::Metadata {
                    current_term: self.persistent.current_term,
                    voted_for: Some(candidate_id),
                },
            );
            proof {
                grant_slot = to_persist@.len() - 1;
                assert(to_persist@[grant_slot]@ == (crate::codec::WalRecordModel::Metadata {
                    current_term: self.persistent.current_term,
                    voted_for: Some(candidate_id),
                }));
            }
        }
        proof {
            assert(granted == granted_spec);
        }
        let mut messages: Vec<RaftMessage> = Vec::new();
        messages.push(
            RaftMessage {
                from: self.id,
                to: from,
                payload: MessagePayload::RequestVoteResponse {
                    term: self.persistent.current_term,
                    vote_granted: granted,
                },
            },
        );
        let out = StepOutput { to_persist, messages };
        proof {
            if granted {
                assert(out.to_persist@[grant_slot]@ == (crate::codec::WalRecordModel::Metadata {
                    current_term: self.persistent.current_term,
                    voted_for: Some(candidate_id),
                }));
            }
        }
        out
    }

    /// Handle a vote response; see `vote_response_step`.
    pub fn handle_vote_response(&mut self, from: NodeId, term: u64, vote_granted: bool) -> (out:
        StepOutput)
        requires
            old(self).inv(),
            old(self).spec_log().len() < usize::MAX,
        ensures
            vote_response_step(*old(self), *final(self), from, term, vote_granted, out),
    {
        if !(matches!(self.role, Role::Candidate)) || term != self.persistent.current_term {
            return StepOutput::empty();
        }
        if vote_granted && crate::vec_contains_u64(&self.config.peers, from)
            && !crate::vec_contains_u64(&self.votes, from) {
            let ghost old_votes = self.votes@;
            self.votes.push(from);
            proof {
                assert forall|i: int, j: int| 0 <= i < j < self.votes@.len() implies self.votes@[i]
                    != self.votes@[j] by {
                    if j == self.votes@.len() - 1 {
                        assert(self.votes@[i] == old_votes[i]);
                        if old_votes[i] == from {
                            assert(old_votes.contains(from));
                        }
                    }
                }
            }
        }
        if self.has_majority() {
            self.become_leader();
            let msgs = self.send_heartbeats();
            return StepOutput { to_persist: Vec::new(), messages: msgs };
        }
        StepOutput::empty()
    }

    /// Handle a replication request; see `append_entries_step`.
    #[verifier::rlimit(100)]
    pub fn handle_append_entries(
        &mut self,
        from: NodeId,
        term: u64,
        leader_id: NodeId,
        prev_log_index: usize,
        prev_log_term: u64,
        entries: Vec<LogEntry>,
        leader_commit: usize,
        now_ms: u64,
    ) -> (out: StepOutput)
        requires
            old(self).inv(),
        ensures
            append_entries_step(
                *old(self),
                *final(self),
                from,
                term,
                prev_log_index,
                prev_log_term,
                log_views(entries@),
                leader_commit,
                now_ms,
                out,
            ),
    {
        let ghost old_log = self.spec_log();
        let ghost es = log_views(entries@);
        let mut to_persist: Vec<WALEntry> = Vec::new();
        if term > self.persistent.current_term {
            self.persistent.current_term = term;
            self.role = Role::Follower;
            self.persistent.voted_for = None;
            to_persist.push(WALEntry::Metadata { current_term: term, voted_for: None });
        }
        if term < self.persistent.current_term {
            let mut messages: Vec<RaftMessage> = Vec::new();
            messages.push(
                RaftMessage {
                    from: self.id,
                    to: from,
                    payload: MessagePayload::AppendEntriesResponse {
                        term: self.persistent.current_term,
                        success: false,
                        match_index: 0,
                    },
                },
            );
            return StepOutput { to_persist, messages };
        }
        // a message from the current term's leader: step down and reset the timer
        self.role = Role::Follower;
        self.last_heartbeat = now_ms;
        let loglen = self.persistent.log.len();
        let ecount = entries.len();
        // validate the request's shape: the previous entry must exist and
        // match, and the entries must continue densely after it
        let mut reject = false;
        if prev_log_index > loglen {
            reject = true;
        } else if prev_log_index > 0 && !(self.persistent.log[prev_log_index - 1].term
            == prev_log_term) {
            reject = true;
        }
        let mut dense = true;
        if !reject {
            let mut k: usize = 0;
            while k < ecount
                invariant
                    0 <= k <= ecount,
                    ecount == entries@.len(),
                    es == log_views(entries@),
                    prev_log_index <= usize::MAX,
                    dense ==> forall|j: int|
                        0 <= j < k ==> (#[trigger] es[j]).index == prev_log_index + 1 + j,
                    !dense ==> !entries_dense(es, prev_log_index),
                decreases ecount - k,
            {
                let idx = entries[k].index;
                if !(idx >= 1 && idx - 1 >= prev_log_index && idx - 1 - prev_log_index == k) {
                    proof {
                        if entries_dense(es, prev_log_index) {
                            assert(es[k as int].index == prev_log_index + 1 + k);
                        }
                    }
                    dense = false;
                }
                k = k + 1;
            }
            if !dense {
                reject = true;
            }
        }
        proof {
            if !reject {
                assert(prev_ok(old_log, prev_log_index, prev_log_term));
                assert(entries_dense(es, prev_log_index));
            }
        }
        // no accepted entry may contradict a committed one
        let commit = self.volatile.commit_index;
        let mut safe = true;
        if !reject {
            let limit = if commit > prev_log_index {
                let d = commit - prev_log_index;
                if d < ecount {
                    d
                } else {
                    ecount
                }
            } else {
                0
            };
            proof {
                assert(commit <= loglen);
            }
            let mut k2: usize = 0;
            while k2 < limit
                invariant
                    0 <= k2 <= limit,
                    limit <= ecount,
                    ecount == entries@.len(),
                    es == log_views(entries@),
                    commit > prev_log_index ==> limit == (if commit - prev_log_index < ecount {
                        commit - prev_log_index
                    } else {
                        ecount as int
                    }),
                    commit <= prev_log_index ==> limit == 0,
                    commit <= loglen,
                    loglen == self.spec_log().len(),
                    self.spec_log() == old_log,
                    safe ==> forall|j: int|
                        0 <= j < k2 ==> prev_log_index + j < old_log.len() && (
                        #[trigger] es[j]).term == old_log[prev_log_index + j].term,
                    !safe ==> !no_committed_conflict(old_log, commit, prev_log_index, es),
                decreases limit - k2,
            {
                proof {
                    assert(prev_log_index + k2 < commit);
                }
                if !(entries[k2].term == self.persistent.log[prev_log_index + k2].term) {
                    proof {
                        if no_committed_conflict(old_log, commit, prev_log_index, es) {
                            assert(es[k2 as int].term == old_log[prev_log_index + k2].term);
                        }
                    }
                    safe = false;
                }
                k2 = k2 + 1;
            }
            if !safe {
                reject = true;
            }
            proof {
                if safe {
                    assert forall|j: int|
                        0 <= j < es.len() && prev_log_index + j < commit implies prev_log_index + j
                        < old_log.len() && (#[trigger] es[j]).term == old_log[prev_log_index
                        + j].term by {
                        assert(j < limit);
                        assert(j < k2);
                    }
                    assert(no_committed_conflict(old_log, commit, prev_log_index, es));
                }
            }
        }
        let ghost accepted_spec = term >= old(self).spec_term() && entries_dense(
            es,
            prev_log_index,
        ) && prev_ok(old_log, prev_log_index, prev_log_term) && no_committed_conflict(
            old_log,
            commit,
            prev_log_index,
            es,
        ) && prev_log_index <= old_log.len();
        if reject {
            let mut messages: Vec<RaftMessage> = Vec::new();
            messages.push(
                RaftMessage {
                    from: self.id,
                    to: from,
                    payload: MessagePayload::AppendEntriesResponse {
                        term: self.persistent.current_term,
                        success: false,
                        match_index: 0,
                    },
                },
            );
            return StepOutput { to_persist, messages };
        }
        proof {
            assert(accepted_spec);
            if ecount > 0 {
                assert(es[ecount - 1].index == prev_log_index + ecount);
            }
        }
        // merge the entries into the log
        proof {
            assert(es.skip(0) =~= es);
            assert(self.spec_log() == old_log);
        }
        let mut i: usize = 0;
        while i < ecount && prev_log_index + i < loglen && self.persistent.log[prev_log_index
            + i].term == entries[i].term
            invariant
                0 <= i <= ecount,
                ecount == entries@.len(),
                es == log_views(entries@),
                self.inv(),
                loglen == self.spec_log().len(),
                prev_log_index <= loglen,
                entries_dense(es, prev_log_index),
                merge_log(old_log, prev_log_index as int, es) == merge_log(
                    self.spec_log(),
                    prev_log_index + i,
                    es.skip(i as int),
                ),
                self.spec_log() == old_log,
            decreases ecount - i,
        {
            proof {
                assert(es.skip(i as int)[0] == es[i as int]);
                assert(es.skip(i as int).drop_first() =~= es.skip(i + 1 as int));
            }
            i = i + 1;
        }
        proof {
            assert(merge_log(old_log, prev_log_index as int, es) == merge_log(
                old_log,
                prev_log_index + i,
                es.skip(i as int),
            ));
        }
        if i < ecount {
            // a conflicting or missing suffix: truncate and append the rest
            let ghost conflict = prev_log_index + i < loglen;
            proof {
                if conflict {
                    // the conflicting entry cannot lie below the commit index
                    assert(es[i as int].term != old_log[prev_log_index + i].term);
                    if prev_log_index + i < commit {
                        assert(es[i as int].term == old_log[prev_log_index + i].term);
                    }
                    assert(prev_log_index + i >= commit);
                }
            }
            let ghost kept = if conflict {
                old_log.take((prev_log_index + i) as int)
            } else {
                old_log
            };
            proof {
                assert(es.skip(i as int).len() > 0);
                if conflict {
                    assert(es.skip(i as int)[0] == es[i as int]);
                    assert(merge_log(old_log, prev_log_index + i, es.skip(i as int)) == kept
                        + es.skip(i as int));
                } else {
                    assert(merge_log(old_log, prev_log_index + i, es.skip(i as int)) == kept
                        + es.skip(i as int));
                }
            }
            let mut log: Vec<LogEntry> = Vec::new();
            core::mem::swap(&mut log, &mut self.persistent.log);
            let ghost oldvec = log@;
            proof {
                assert(log_views(oldvec) == old_log);
            }
            log.truncate(prev_log_index + i);
            let mut k3: usize = i;
            proof {
                if prev_log_index + i <= oldvec.len() {
                    assert(log@ == oldvec.subrange(0, (prev_log_index + i) as int));
                } else {
                    assert(log@ == oldvec);
                }
                assert forall|j: int| 0 <= j < log@.len() implies (#[trigger] log_views(log@)[j])
                    == kept[j] by {
                    assert(log@[j] == oldvec[j]);
                    assert(log_views(oldvec)[j] == old_log[j]);
                    if conflict {
                        assert(kept[j] == old_log[j]);
                    }
                }
                assert(log_views(log@) =~= kept);
            }
            while k3 < ecount
                invariant
                    i <= k3 <= ecount,
                    ecount == entries@.len(),
                    es == log_views(entries@),
                    log_views(log@) =~= kept + es.subrange(i as int, k3 as int),
                decreases ecount - k3,
            {
                let ghost before = log@;
                let cl = entries[k3].clone();
                let ghost gcl = cl;
                proof {
                    assert(gcl@ == es[k3 as int]);
                }
                log.push(cl);
                proof {
                    assert(log@ == before.push(gcl));
                    assert(log_views(before).len() == before.len());
                    assert(log_views(before).len() == (kept + es.subrange(
                        i as int,
                        k3 as int,
                    )).len());
                    assert(before.len() == kept.len() + (k3 - i));
                    assert forall|j: int| 0 <= j < log@.len() implies (#[trigger] log_views(
                        log@,
                    )[j]) == (kept + es.subrange(i as int, k3 + 1 as int))[j] by {
                        if j < before.len() {
                            assert(log@[j] == before[j]);
                            assert(log_views(before)[j] == (kept + es.subrange(
                                i as int,
                                k3 as int,
                            ))[j]);
                            if j >= kept.len() {
                                assert(es.subrange(i as int, k3 as int)[j - kept.len()] == es[i + j
                                    - kept.len()]);
                                assert(es.subrange(i as int, k3 + 1 as int)[j - kept.len()] == es[i
                                    + j - kept.len()]);
                            }
                        } else {
                            assert(log@[j] == gcl);
                            assert(log_views(log@)[j] == gcl@);
                            assert(es.subrange(i as int, k3 + 1 as int)[j - kept.len()] == es[
                                k3 as int
                            ]);
                        }
                    }
                    assert(log_views(log@) =~= kept + es.subrange(i as int, k3 + 1 as int));
                }
                k3 = k3 + 1;
            }
            self.persistent.log = log;
            proof {
                assert(es.subrange(i as int, ecount as int) =~= es.skip(i as int));
                assert(self.spec_log() =~= kept + es.skip(i as int));
            }
        } else {
            proof {
                assert(es.skip(i as int).len() == 0);
                assert(merge_log(old_log, prev_log_index + i, es.skip(i as int)) == old_log);
            }
        }
        let ghost merged = merge_log(old_log, prev_log_index as int, es);
        proof {
            assert(self.spec_log() == merged);
            lemma_merge_log_entries(old_log, prev_log_index as int, es);
            // the merged log still covers every committed entry
            assert(merged.len() >= commit) by {
                if i < ecount {
                    assert(merged.len() >= prev_log_index + ecount);
                    if prev_log_index + i < loglen {
                        assert(prev_log_index + i >= commit);
                    } else {
                        assert(commit <= loglen <= prev_log_index + i);
                    }
                } else {
                    assert(merged == old_log);
                }
            }
        }
        // the accepted entries become durable before the acknowledgment
        let mut k4: usize = 0;
        while k4 < ecount
            invariant
                0 <= k4 <= ecount,
                ecount == entries@.len(),
                es == log_views(entries@),
                entries_dense(es, prev_log_index),
                prev_log_index + ecount <= usize::MAX,
                term > old(self).spec_term() ==> to_persist@.len() >= 1 && to_persist@[0]@
                    == (crate::codec::WalRecordModel::Metadata {
                    current_term: term,
                    voted_for: None,
                }),
                forall|k: int|
                    #![trigger es[k]]
                    0 <= k < k4 ==> exists|j: int|
                        0 <= j < to_persist@.len() && (#[trigger] to_persist@[j])@
                            == (crate::codec::WalRecordModel::LogEntry {
                            index: (prev_log_index + 1 + k) as usize,
                            term: es[k].term,
                            transition: es[k].transition,
                        }),
            decreases ecount - k4,
        {
            let ghost tp_before = to_persist@;
            let e = &entries[k4];
            to_persist.push(
                WALEntry::LogEntry {
                    index: e.index,
                    term: e.term,
                    transition: e.transition.clone(),
                },
            );
            proof {
                let jn = to_persist@.len() - 1;
                assert(to_persist@[jn]@ == (crate::codec::WalRecordModel::LogEntry {
                    index: (prev_log_index + 1 + k4) as usize,
                    term: es[k4 as int].term,
                    transition: es[k4 as int].transition,
                }));
                assert forall|k: int| #![trigger es[k]] 0 <= k < k4 + 1 implies exists|j: int|
                    0 <= j < to_persist@.len() && (#[trigger] to_persist@[j])@
                        == (crate::codec::WalRecordModel::LogEntry {
                        index: (prev_log_index + 1 + k) as usize,
                        term: es[k].term,
                        transition: es[k].transition,
                    }) by {
                    if k < k4 {
                        let j0 = choose|j: int|
                            0 <= j < tp_before.len() && (#[trigger] tp_before[j])@
                                == (crate::codec::WalRecordModel::LogEntry {
                                index: (prev_log_index + 1 + k) as usize,
                                term: es[k].term,
                                transition: es[k].transition,
                            });
                        assert(to_persist@[j0] == tp_before[j0]);
                    } else {
                        assert(to_persist@[jn]@ == (crate::codec::WalRecordModel::LogEntry {
                            index: (prev_log_index + 1 + k) as usize,
                            term: es[k].term,
                            transition: es[k].transition,
                        }));
                    }
                }
            }
            k4 = k4 + 1;
        }
        let ghost tp_entries = to_persist@;
        // advance the commit index as far as the leader's, within the log;
        // an advance is made durable along with the entries it covers
        let last_new = prev_log_index + ecount;
        let advanced = if leader_commit <= last_new {
            leader_commit
        } else {
            last_new
        };
        if advanced > self.volatile.commit_index {
            self.volatile.commit_index = advanced;
            to_persist.push(WALEntry::Commit { index: advanced });
            proof {
                let j = to_persist@.len() - 1;
                assert(to_persist@[j]@ == (crate::codec::WalRecordModel::Commit {
                    index: advanced,
                }));
            }
        }
        proof {
            assert(merged.len() >= prev_log_index + ecount);
            assert(merged.len() >= old_log.len() || merged.len() == prev_log_index + ecount);
        }
        let mut messages: Vec<RaftMessage> = Vec::new();
        messages.push(
            RaftMessage {
                from: self.id,
                to: from,
                payload: MessagePayload::AppendEntriesResponse {
                    term: self.persistent.current_term,
                    success: true,
                    match_index: last_new,
                },
            },
        );
        let out = StepOutput { to_persist, messages };
        proof {
            assert forall|k: int| #![trigger es[k]] 0 <= k < es.len() implies exists|j: int|
                0 <= j < out.to_persist@.len() && (#[trigger] out.to_persist@[j])@
                    == (crate::codec::WalRecordModel::LogEntry {
                    index: (prev_log_index + 1 + k) as usize,
                    term: es[k].term,
                    transition: es[k].transition,
                }) by {
                let j0 = choose|j: int|
                    0 <= j < tp_entries.len() && (#[trigger] tp_entries[j])@
                        == (crate::codec::WalRecordModel::LogEntry {
                        index: (prev_log_index + 1 + k) as usize,
                        term: es[k].term,
                        transition: es[k].transition,
                    });
                assert(out.to_persist@[j0] == tp_entries[j0]);
                assert(out.to_persist@[j0]@ == (crate::codec::WalRecordModel::LogEntry {
                    index: (prev_log_index + 1 + k) as usize,
                    term: es[k].term,
                    transition: es[k].transition,
                }));
            }
        }
        out
    }
}


/// A response from a strictly greater term forces a step-down: the node
/// becomes a follower of that term with its vote cleared, the new term is
/// durable, and nothing is sent.
pub open spec fn response_step_down(pre: RaftNode, post: RaftNode, term: u64, out: StepOutput) -> bool {
    &&& post.inv()
    &&& post.spec_term() == term
    &&& post.spec_role() == Role::Follower
    &&& post.spec_voted_for() is None
    &&& post.spec_log() == pre.spec_log()
    &&& post.spec_commit() == pre.spec_commit()
    &&& post.spec_last_applied() == pre.spec_last_applied()
    &&& post.spec_id() == pre.spec_id()
    &&& post.spec_peers() == pre.spec_peers()
    &&& step_down_recorded(term, out)
    &&& out.to_persist@.len() == 1
    &&& out.messages@.len() == 0
}

/// What handling a vote response does: a response that is stale, from
/// another term, or negative changes nothing; a fresh grant from a distinct
/// cluster member joins the tally, and leadership comes exactly when the
/// tally reaches a strict majority, announced at once by heartbeats.
pub open spec fn vote_response_step(
    pre: RaftNode,
    post: RaftNode,
    from: NodeId,
    term: u64,
    vote_granted: bool,
    out: StepOutput,
) -> bool {
    let stale = pre.spec_role() != Role::Candidate || term != pre.spec_term();
    let tally = if !stale && vote_granted && pre.spec_peers().contains(from)
        && !pre.spec_votes().contains(from) {
        pre.spec_votes().push(from)
    } else {
        pre.spec_votes()
    };
    let elected = !stale && tally.len() >= spec_majority(pre.spec_peers().len() as int);
    &&& post.inv()
    &&& out.to_persist@.len() == 0
    &&& (stale ==> post == pre && out.messages@.len() == 0)
    &&& post.spec_log() == pre.spec_log()
    &&& post.spec_term() == pre.spec_term()
    &&& post.spec_voted_for() == pre.spec_voted_for()
    &&& post.spec_commit() == pre.spec_commit()
    &&& post.spec_last_applied() == pre.spec_last_applied()
    &&& post.spec_id() == pre.spec_id()
    &&& post.spec_peers() == pre.spec_peers()
    &&& (!stale ==> post.spec_votes() == tally)
    &&& (post.spec_role() == Role::Leader <==> (pre.spec_role() == Role::Leader || elected))
    &&& (elected ==> heartbeat_messages(post, out.messages@))
    &&& (!elected ==> out.messages@.len() == 0)
}

/// How a leader's per-peer progress moves on an acknowledgment: a success
/// raises the peer's match index (capped at the log) and sets its next index
/// one past it; a failure backs the next index off by one, to retry earlier.
pub open spec fn progress_updated(
    pre: RaftNode,
    post: RaftNode,
    slot: int,
    success: bool,
    match_index: usize,
) -> bool {
    let capped = if match_index <= pre.spec_log().len() {
        match_index as int
    } else {
        pre.spec_log().len() as int
    };
    let newm = if capped > pre.spec_match_index()[slot] {
        capped
    } else {
        pre.spec_match_index()[slot] as int
    };
    &&& (success ==> post.spec_match_index() == pre.spec_match_index().update(slot, newm as usize)
        && post.spec_next_index() == pre.spec_next_index().update(
        slot,
        (if newm < usize::MAX {
            newm + 1
        } else {
            pre.spec_next_index()[slot] as int
        }) as usize,
    ))
    &&& (!success ==> post.spec_match_index() == pre.spec_match_index() && post.spec_next_index()
        == pre.spec_next_index().update(
        slot,
        (if pre.spec_next_index()[slot] > 1 {
            pre.spec_next_index()[slot] - 1
        } else {
            pre.spec_next_index()[slot] as int
        }) as usize,
    ))
}

/// What handling a replication acknowledgment does: a stale or unknown
/// sender changes nothing; otherwise the sender's first progress slot is
/// updated, and the commit index moves only to a majority-matched index of
/// the leader's own term, with the advance durable in `to_persist`.
pub open spec fn append_response_step(
    pre: RaftNode,
    post: RaftNode,
    from: NodeId,
    term: u64,
    success: bool,
    match_index: usize,
    out: StepOutput,
) -> bool {
    let stale = pre.spec_role() != Role::Leader || term != pre.spec_term();
    &&& post.inv()
    &&& out.messages@.len() == 0
    &&& (stale ==> post == pre && out.to_persist@.len() == 0)
    &&& (!stale && !pre.spec_peers().contains(from) ==> post == pre && out.to_persist@.len() == 0)
    &&& (!stale && pre.spec_peers().contains(from) ==> ({
        &&& post.spec_log() == pre.spec_log()
        &&& post.spec_term() == pre.spec_term()
        &&& post.spec_role() == pre.spec_role()
        &&& post.spec_voted_for() == pre.spec_voted_for()
        &&& post.spec_id() == pre.spec_id()
        &&& post.spec_peers() == pre.spec_peers()
        &&& post.spec_last_applied() == pre.spec_last_applied()
        &&& (exists|slot: int|
            {
                &&& 0 <= slot < pre.spec_peers().len()
                &&& (#[trigger] pre.spec_peers()[slot]) == from
                &&& (forall|j: int| 0 <= j < slot ==> pre.spec_peers()[j] != from)
                &&& progress_updated(pre, post, slot, success, match_index)
            })
        &&& post.spec_commit() >= pre.spec_commit()
        &&& (post.spec_commit() > pre.spec_commit() ==> ({
            &&& success
            &&& post.spec_log()[post.spec_commit() - 1].term == post.spec_term()
            &&& 1 + count_matches_upto(
                post.spec_peers(),
                post.spec_match_index(),
                post.spec_id(),
                post.spec_commit(),
                post.spec_peers().len() as int,
            ) >= spec_majority(post.spec_peers().len() as int)
            &&& out.to_persist@.len() == 1
            &&& out.to_persist@[0]@ == (crate::codec::WalRecordModel::Commit {
                index: post.spec_commit(),
            })
        }))
        &&& (post.spec_commit() == pre.spec_commit() ==> out.to_persist@.len() == 0)
    }))
}

impl RaftNode {
    /// Handle an acknowledgment of replication. On success the peer's
    /// progress advances; the commit index then moves to the highest index
    /// replicated on a strict majority whose entry is from the leader's own
    /// term — earlier-term entries commit only transitively.
    pub fn handle_append_entries_response(
        &mut self,
        from: NodeId,
        term: u64,
        success: bool,
        match_index: usize,
    ) -> (out: StepOutput)
        requires
            old(self).inv(),
        ensures
            append_response_step(*old(self), *final(self), from, term, success, match_index, out),
    {
        if !(matches!(self.role, Role::Leader)) || term != self.persistent.current_term {
            return StepOutput::empty();
        }
        // locate the sender's first progress slot
        let n = self.config.peers.len();
        let mut slot_opt: Option<usize> = None;
        let mut i: usize = 0;
        while i < n
            invariant
                0 <= i <= n,
                n == self.config.peers@.len(),
                *self == *old(self),
                self.inv(),
                match slot_opt {
                    Some(s) => s < i && self.spec_peers()[s as int] == from && (forall|j: int|
                        0 <= j < s ==> self.spec_peers()[j] != from),
                    None => forall|j: int| 0 <= j < i ==> self.spec_peers()[j] != from,
                },
            decreases n - i,
        {
            if slot_opt.is_none() && self.config.peers[i] == from {
                slot_opt = Some(i);
            }
            i = i + 1;
        }
        let slot = match slot_opt {
            Some(s) => s,
            None => {
                proof {
                    if old(self).spec_peers().contains(from) {
                        let j = choose|j: int|
                            0 <= j < old(self).spec_peers().len() && old(self).spec_peers()[j]
                                == from;
                    }
                }
                return StepOutput::empty();
            },
        };
        proof {
            assert(old(self).spec_peers().contains(from)) by {
                assert(old(self).spec_peers()[slot as int] == from);
            }
        }
        let ghost pre_match = self.spec_match_index();
        let ghost pre_next = self.spec_next_index();
        let mut taken: Option<LeaderState> = None;
        core::mem::swap(&mut taken, &mut self.leader_state);
        let mut ls = match taken {
            Some(ls) => ls,
            None => {
                proof {
                    assert(false);
                }
                return StepOutput::empty();
            },
        };
        proof {
            assert(ls.match_index@ == pre_match);
            assert(ls.next_index@ == pre_next);
        }
        if success {
            let cur = ls.match_index[slot];
            let capped = if match_index > self.persistent.log.len() {
                self.persistent.log.len()
            } else {
                match_index
            };
            if capped > cur {
                ls.match_index[slot] = capped;
            }
            proof {
                if !(capped > cur) {
                    assert(ls.match_index@ =~= pre_match.update(slot as int, cur));
                }
            }
            let nm = ls.match_index[slot];
            if nm < usize::MAX {
                ls.next_index[slot] = nm + 1;
            }
            proof {
                if !(nm < usize::MAX) {
                    assert(ls.next_index@ =~= pre_next.update(
                        slot as int,
                        pre_next[slot as int],
                    ));
                }
            }
        } else {
            let cur = ls.next_index[slot];
            if cur > 1 {
                ls.next_index[slot] = cur - 1;
            }
            proof {
                if !(cur > 1) {
                    assert(ls.next_index@ =~= pre_next.update(slot as int, cur));
                }
            }
        }
        self.leader_state = Some(ls);
        proof {
            assert(progress_updated(*old(self), *self, slot as int, success, match_index));
        }
        let old_commit = self.volatile.commit_index;
        if success {
            self.advance_commit();
        }
        let mut to_persist: Vec<WALEntry> = Vec::new();
        if self.volatile.commit_index > old_commit {
            // the commit advance becomes durable before anything references it
            to_persist.push(WALEntry::Commit { index: self.volatile.commit_index });
            proof {
                assert(to_persist@[0]@ == (crate::codec::WalRecordModel::Commit {
                    index: self.volatile.commit_index,
                }));
            }
        }
        StepOutput { to_persist, messages: Vec::new() }
    }

    /// Move the commit index to the highest majority-replicated index whose
    /// entry carries the current term.
    fn advance_commit(&mut self)
        requires
            old(self).inv(),
            old(self).spec_role() == Role::Leader,
        ensures
            final(self).inv(),
            final(self).spec_log() == old(self).spec_log(),
            final(self).spec_term() == old(self).spec_term(),
            final(self).spec_role() == old(self).spec_role(),
            final(self).spec_peers() == old(self).spec_peers(),
            final(self).spec_match_index() == old(self).spec_match_index(),
            final(self).spec_next_index() == old(self).spec_next_index(),
            final(self).spec_voted_for() == old(self).spec_voted_for(),
            final(self).spec_last_applied() == old(self).spec_last_applied(),
            final(self).spec_last_heartbeat() == old(self).spec_last_heartbeat(),
            final(self).spec_id() == old(self).spec_id(),
            final(self).spec_commit() >= old(self).spec_commit(),
            final(self).spec_commit() > old(self).spec_commit() ==> {
                &&& final(self).spec_log()[final(self).spec_commit() - 1].term == final(self).spec_term()
                &&& 1 + count_matches_upto(
                    final(self).spec_peers(),
                    final(self).spec_match_index(),
                    final(self).spec_id(),
                    final(self).spec_commit(),
                    final(self).spec_peers().len() as int,
                ) >= spec_majority(final(self).spec_peers().len() as int)
            },
    {
        let loglen = self.persistent.log.len();
        let maj = self.config.peers.len() / 2 + 1;
        let mut n: usize = loglen;
        while n > self.volatile.commit_index
            invariant
                self.inv(),
                *self == *old(self),
                self.spec_role() == Role::Leader,
                n <= loglen,
                loglen == self.spec_log().len(),
                maj == spec_majority(self.spec_peers().len() as int),
            decreases n,
        {
            if self.persistent.log[n - 1].term == self.persistent.current_term {
                let count = self.count_matches(n);
                if count >= maj - 1 {
                    self.volatile.commit_index = n;
                    return ;
                }
            }
            n = n - 1;
        }
    }

    /// How many peers other than this node have acknowledged index `n`.
    fn count_matches(&self, n: usize) -> (c: usize)
        requires
            self.inv(),
            self.spec_role() == Role::Leader,
        ensures
            c == count_matches_upto(
                self.spec_peers(),
                self.spec_match_index(),
                self.spec_id(),
                n,
                self.spec_peers().len() as int,
            ),
    {
        let total = self.config.peers.len();
        let mut c: usize = 0;
        let mut i: usize = 0;
        while i < total
            invariant
                0 <= i <= total,
                self.inv(),
                self.spec_role() == Role::Leader,
                total == self.spec_peers().len(),
                c <= i,
                c == count_matches_upto(
                    self.spec_peers(),
                    self.spec_match_index(),
                    self.spec_id(),
                    n,
                    i as int,
                ),
            decreases total - i,
        {
            let matched = match &self.leader_state {
                Some(ls) => self.config.peers[i] != self.id && ls.match_index[i] >= n,
                None => false,
            };
            if matched {
                c = c + 1;
            }
            i = i + 1;
        }
        c
    }

    /// Dispatch one inbound message to its variant's handler. A response
    /// from a strictly greater term is not dispatched: it forces a step-down
    /// with the new term durable and nothing sent; requests carry their own
    /// step-down inside their handlers.
    pub fn handle_message(&mut self, msg: RaftMessage, now_ms: u64) -> (out: StepOutput)
        requires
            old(self).inv(),
            old(self).spec_log().len() < usize::MAX,
        ensures
            final(self).inv(),
            final(self).spec_term() >= old(self).spec_term(),
            (msg.payload matches MessagePayload::RequestVote {
                term,
                candidate_id,
                last_log_index,
                last_log_term,
            } ==> vote_request_step(
                *old(self),
                *final(self),
                msg.from,
                term,
                candidate_id,
                last_log_index,
                last_log_term,
                now_ms,
                out,
            )),
            (msg.payload matches MessagePayload::AppendEntries {
                term,
                leader_id: _,
                prev_log_index,
                prev_log_term,
                entries,
                leader_commit,
            } ==> append_entries_step(
                *old(self),
                *final(self),
                msg.from,
                term,
                prev_log_index,
                prev_log_term,
                log_views(entries@),
                leader_commit,
                now_ms,
                out,
            )),
            (msg.payload matches MessagePayload::RequestVoteResponse { term, vote_granted } ==> (
            if term > old(self).spec_term() {
                response_step_down(*old(self), *final(self), term, out)
            } else {
                vote_response_step(*old(self), *final(self), msg.from, term, vote_granted, out)
            })),
            (msg.payload matches MessagePayload::AppendEntriesResponse {
                term,
                success,
                match_index,
            } ==> (if term > old(self).spec_term() {
                response_step_down(*old(self), *final(self), term, out)
            } else {
                append_response_step(
                    *old(self),
                    *final(self),
                    msg.from,
                    term,
                    success,
                    match_index,
                    out,
                )
            })),
    {
        match msg.payload {
            MessagePayload::RequestVote { term, candidate_id, last_log_index, last_log_term } => {
                self.handle_request_vote(
                    msg.from,
                    term,
                    candidate_id,
                    last_log_index,
                    last_log_term,
                    now_ms,
                )
            },
            MessagePayload::RequestVoteResponse { term, vote_granted } => {
                if term > self.persistent.current_term {
                    self.persistent.current_term = term;
                    self.role = Role::Follower;
                    self.persistent.voted_for = None;
                    let mut to_persist: Vec<WALEntry> = Vec::new();
                    to_persist.push(WALEntry::Metadata { current_term: term, voted_for: None });
                    return StepOutput { to_persist, messages: Vec::new() };
                }
                self.handle_vote_response(msg.from, term, vote_granted)
            },
            MessagePayload::AppendEntries {
                term,
                leader_id,
                prev_log_index,
                prev_log_term,
                entries,
                leader_commit,
            } => {
                self.handle_append_entries(
                    msg.from,
                    term,
                    leader_id,
                    prev_log_index,
                    prev_log_term,
                    entries,
                    leader_commit,
                    now_ms,
                )
            },
            MessagePayload::AppendEntriesResponse { term, success, match_index } => {
                if term > self.persistent.current_term {
                    self.persistent.current_term = term;
                    self.role = Role::Follower;
                    self.persistent.voted_for = None;
                    let mut to_persist: Vec<WALEntry> = Vec::new();
                    to_persist.push(WALEntry::Metadata { current_term: term, voted_for: None });
                    return StepOutput { to_persist, messages: Vec::new() };
                }
                self.handle_append_entries_response(msg.from, term, success, match_index)
            },
        }
    }

    /// Propose a transition. Only the leader accepts; the new entry is
    /// appended to the local log with the leader's term and the next dense
    /// index, and its durable record is handed back.
    pub fn propose(&mut self, transition: Transition) -> (r: Result<StepOutput, String>)
        requires
            old(self).inv(),
            old(self).spec_log().len() < usize::MAX,
        ensures
            final(self).inv(),
            final(self).spec_term() == old(self).spec_term(),
            final(self).spec_role() == old(self).spec_role(),
            final(self).spec_voted_for() == old(self).spec_voted_for(),
            final(self).spec_commit() >= old(self).spec_commit(),
            old(self).spec_role() == Role::Leader <==> r is Ok,
            match r {
                Ok(out) => {
                    &&& final(self).spec_log() == old(self).spec_log().push(
                        LogEntryModel {
                            term: old(self).spec_term(),
                            index: (old(self).spec_log().len() + 1) as usize,
                            transition: transition@,
                        },
                    )
                    &&& out.messages@.len() == 0
                    &&& out.to_persist@.len() >= 1
                    &&& out.to_persist@[0]@ == (crate::codec::WalRecordModel::LogEntry {
                        index: (old(self).spec_log().len() + 1) as usize,
                        term: old(self).spec_term(),
                        transition: transition@,
                    })
                    // alone in its cluster, the leader commits at once
                    &&& (final(self).spec_commit() > old(self).spec_commit() ==> ({
                        &&& final(self).spec_log()[final(self).spec_commit() - 1].term
                            == final(self).spec_term()
                        &&& 1 + count_matches_upto(
                            final(self).spec_peers(),
                            final(self).spec_match_index(),
                            final(self).spec_id(),
                            final(self).spec_commit(),
                            final(self).spec_peers().len() as int,
                        ) >= spec_majority(final(self).spec_peers().len() as int)
                        &&& out.to_persist@.len() == 2
                        &&& out.to_persist@[1]@ == (crate::codec::WalRecordModel::Commit {
                            index: final(self).spec_commit(),
                        })
                    }))
                    &&& (final(self).spec_commit() == old(self).spec_commit()
                        ==> out.to_persist@.len() == 1)
                },
                Err(e) => *final(self) == *old(self),
            },
    {
        if !(matches!(self.role, Role::Leader)) {
            return Err(String::from_str("Not the leader"));
        }
        let index = self.persistent.log.len() + 1;
        let term = self.persistent.current_term;
        let rec = WALEntry::LogEntry { index, term, transition: transition.clone() };
        let entry = LogEntry { term, index, transition };
        let ghost before = self.persistent.log@;
        self.persistent.log.push(entry);
        proof {
            assert forall|i: int| 0 <= i < self.spec_log().len() implies (
            #[trigger] self.spec_log()[i]).index == i + 1 by {
                if i < before.len() {
                    assert(self.persistent.log@[i] == before[i]);
                    assert(log_views(before)[i].index == i + 1);
                }
            }
            assert(self.spec_log() =~= log_views(before).push(
                LogEntryModel { term, index, transition: self.persistent.log@.last().transition@ },
            ));
        }
        let mut to_persist: Vec<WALEntry> = Vec::new();
        to_persist.push(rec);
        // a cluster this node can carry alone commits the entry at once
        let old_commit = self.volatile.commit_index;
        self.advance_commit();
        if self.volatile.commit_index > old_commit {
            to_persist.push(WALEntry::Commit { index: self.volatile.commit_index });
            proof {
                assert(to_persist@[1]@ == (crate::codec::WalRecordModel::Commit {
                    index: self.volatile.commit_index,
                }));
            }
        }
        Ok(StepOutput { to_persist, messages: Vec::new() })
    }

    /// The apply rule: while entries are committed but not yet applied, the
    /// next one is delivered exactly once — `last_applied` advances strictly,
    /// so no index is ever delivered twice by this replica.
    pub fn next_to_apply(&mut self) -> (r: Option<LogEntry>)
        requires
            old(self).inv(),
        ensures
            final(self).inv(),
            final(self).spec_log() == old(self).spec_log(),
            final(self).spec_commit() == old(self).spec_commit(),
            r is Some <==> old(self).spec_commit() > old(self).spec_last_applied(),
            match r {
                Some(e) => {
                    &&& final(self).spec_last_applied() == old(self).spec_last_applied() + 1
                    &&& e@ == old(self).spec_log()[old(self).spec_last_applied() as int]
                    &&& e@.index == final(self).spec_last_applied()
                },
                None => final(self).spec_last_applied() == old(self).spec_last_applied(),
            },
    {
        if self.volatile.commit_index > self.volatile.last_applied {
            let idx = self.volatile.last_applied;
            self.volatile.last_applied = idx + 1;
            let e = self.persistent.log[idx].clone();
            proof {
                assert(self.spec_log()[idx as int] == self.persistent.log@[idx as int]@);
                assert(self.spec_log()[idx as int].index == idx + 1);
            }
            Some(e)
        } else {
            None
        }
    }

    /// Current log length.
    pub fn log_len(&self) -> (r: usize)
        ensures
            r == self.spec_log().len(),
    {
        self.persistent.log.len()
    }

    /// Current commit index.
    pub fn commit_index(&self) -> (r: usize)
        ensures
            r == self.spec_commit(),
    {
        self.volatile.commit_index
    }

    /// Current role.
    pub fn role(&self) -> (r: Role)
        ensures
            r == self.spec_role(),
    {
        self.role
    }

    /// Current term.
    pub fn current_term(&self) -> (r: u64)
        ensures
            r == self.spec_term(),
    {
        self.persistent.current_term
    }
}


// ---------------------------------------------------------------------------
// Protocol laws.
// ---------------------------------------------------------------------------
/// Two sequences agree on every position up to `i`.
pub open spec fn agree_upto(a: Seq<LogEntryModel>, b: Seq<LogEntryModel>, i: int) -> bool {
    forall|j: int| 0 <= j <= i ==> a[j] == b[j]
}

/// The log matching property: wherever two logs hold an entry of the same
/// term at the same index, they agree on everything up to that index.
pub open spec fn log_matching(a: Seq<LogEntryModel>, b: Seq<LogEntryModel>) -> bool {
    forall|i: int|
        0 <= i < a.len() && i < b.len() && (#[trigger] a[i]).term == (#[trigger] b[i]).term
            ==> agree_upto(a, b, i)
}

/// A disjoint union of finite sets has the sum of their sizes.
proof fn lemma_disjoint_union_len(a: Set<NodeId>, b: Set<NodeId>)
    requires
        a.finite(),
        b.finite(),
        forall|x: NodeId| !(a.contains(x) && b.contains(x)),
    ensures
        a.union(b).len() == a.len() + b.len(),
    decreases a.len(),
{
    if a.len() == 0 {
        assert(a =~= Set::empty());
        assert(a.union(b) =~= b);
    } else {
        let x = a.choose();
        assert(a.contains(x));
        assert(!b.contains(x));
        lemma_disjoint_union_len(a.remove(x), b);
        assert(a.remove(x).union(b) =~= a.union(b).remove(x));
        assert(a.union(b).contains(x));
        assert(a.union(b).len() == a.union(b).remove(x).len() + 1) by {
            vstd::set_lib::lemma_set_remove_finite_iff(a.union(b), x);
        }
    }
}

/// Election safety: at most one node can gather a strict majority of votes
/// in one term. Each member votes for at most one candidate per term (the
/// vote map), so two majority quorums would have to share a voter whose one
/// vote elected both — the two candidates are the same node.
pub proof fn lemma_election_safety(
    members: Set<NodeId>,
    votes: Map<NodeId, NodeId>,
    c1: NodeId,
    c2: NodeId,
    q1: Set<NodeId>,
    q2: Set<NodeId>,
)
    requires
        members.finite(),
        q1.subset_of(members),
        q2.subset_of(members),
        q1.len() >= spec_majority(members.len() as int),
        q2.len() >= spec_majority(members.len() as int),
        forall|v: NodeId| q1.contains(v) ==> votes.contains_key(v) && votes[v] == c1,
        forall|v: NodeId| q2.contains(v) ==> votes.contains_key(v) && votes[v] == c2,
    ensures
        c1 == c2,
{
    vstd::set_lib::lemma_len_subset(q1, members);
    vstd::set_lib::lemma_len_subset(q2, members);
    if c1 != c2 {
        assert(forall|x: NodeId| !(q1.contains(x) && q2.contains(x)));
        lemma_disjoint_union_len(q1, q2);
        assert(q1.union(q2).subset_of(members));
        vstd::set_lib::lemma_len_subset(q1.union(q2), members);
        let n = members.len() as int;
        assert(q1.len() + q2.len() >= 2 * (n / 2 + 1));
        assert(2 * (n / 2 + 1) > n);
        assert(false);
    }
}

/// The log matching step: when a follower accepts entries that a leader took
/// from its own log, with the consistency check on the preceding entry, the
/// merged follower log again satisfies log matching with the leader's log.
pub proof fn lemma_log_matching_step(
    follower: Seq<LogEntryModel>,
    leader: Seq<LogEntryModel>,
    prev: usize,
    entries: Seq<LogEntryModel>,
)
    requires
        log_wf(follower),
        log_wf(leader),
        log_matching(follower, leader),
        prev + entries.len() <= leader.len(),
        prev <= follower.len(),
        forall|k: int| 0 <= k < entries.len() ==> (#[trigger] entries[k]) == leader[prev + k],
        prev_ok(follower, prev, if prev == 0 {
            0u64
        } else {
            leader[prev - 1].term
        }),
    ensures
        log_matching(merge_log(follower, prev as int, entries), leader),
{
    let merged = merge_log(follower, prev as int, entries);
    let k = entries.len() as int;
    assert(forall|j: int| 0 <= j < entries.len() ==> (#[trigger] entries[j]).index == prev + 1 + j)
        by {
        assert(forall|j: int|
            0 <= j < entries.len() ==> (#[trigger] entries[j]) == leader[prev + j]);
    }
    lemma_merge_log_entries(follower, prev as int, entries);
    // entries of the follower kept below `prev` agree with the leader's
    assert(forall|j: int| 0 <= j < prev ==> (#[trigger] merged[j]) == follower[j]);
    if prev > 0 {
        assert(follower[prev - 1].term == leader[prev - 1].term);
        assert(agree_upto(follower, leader, prev - 1));
    }
    // at the replicated positions the merged log carries the leader's entries
    assert forall|j: int| 0 <= j < k implies (#[trigger] merged[prev + j]) == leader[prev + j] by {
        if merged[prev + j] == entries[j] {
        } else {
            assert(prev + j < follower.len() && merged[prev + j] == follower[prev + j]);
            assert(follower[prev + j].term == entries[j].term);
            assert(follower[prev + j].term == leader[prev + j].term);
            assert(agree_upto(follower, leader, prev + j));
        }
    }
    assert forall|i: int|
        0 <= i < merged.len() && i < leader.len() && (#[trigger] merged[i]).term == (
        #[trigger] leader[i]).term implies agree_upto(merged, leader, i) by {
        if i < prev {
            assert(merged[i] == follower[i]);
            assert(agree_upto(follower, leader, i));
            assert forall|j: int| 0 <= j <= i implies merged[j] == leader[j] by {
                assert(merged[j] == follower[j]);
            }
        } else if i < prev + k {
            assert forall|j: int| 0 <= j <= i implies merged[j] == leader[j] by {
                if j < prev {
                    assert(merged[j] == follower[j]);
                    assert(follower[j] == leader[j]);
                } else {
                    assert(merged[prev + (j - prev)] == leader[prev + (j - prev)]);
                    assert(merged[j] == leader[j]);
                }
            }
        } else {
            assert(merged.len() <= follower.len()) by {
                if merged.len() == prev + k {
                    assert(false);
                }
            }
            assert(i < follower.len() && merged[i] == follower[i]);
            assert(follower[i].term == leader[i].term);
            assert(agree_upto(follower, leader, i));
            assert forall|j: int| 0 <= j <= i implies merged[j] == leader[j] by {
                if j < prev {
                    assert(merged[j] == follower[j]);
                } else if j < prev + k {
                    assert(merged[prev + (j - prev)] == leader[prev + (j - prev)]);
                    assert(merged[j] == leader[j]);
                } else {
                    assert(merged[j] == follower[j]);
                }
            }
        }
    }
}

/// State machine safety across replicas: under log matching, two logs that
/// hold an entry of the same term at one index hold the very same entry, so
/// no two replicas can deliver different transitions at that index.
pub proof fn lemma_state_machine_safety(
    a: Seq<LogEntryModel>,
    b: Seq<LogEntryModel>,
    i: int,
)
    requires
        log_matching(a, b),
        0 <= i < a.len(),
        i < b.len(),
        a[i].term == b[i].term,
    ensures
        a[i] == b[i],
{
    assert(agree_upto(a, b, i));
}

} // verus!
