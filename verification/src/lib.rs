//! A replicated state machine with runtime self-checking.
//!
//! Every state-changing operation is applied both to the live state and to an
//! independent shadow model; the digests of the two results are compared
//! before the change may persist or propagate. Replicas order operations with
//! a leader-based log-replication protocol and make them durable through a
//! write-ahead log with periodic snapshots.

pub mod chaos;
pub mod codec;
pub mod compression;
pub mod config;
pub mod distributed;
pub mod storage;
pub mod text;
pub mod tla;
pub mod trace;
pub mod digest;
pub mod invariants;
pub mod kv;
pub mod ml_anomaly;
pub mod monitoring;
pub mod multi_region;
pub mod network;
pub mod optimization;
pub mod raft;
pub mod recovery;
pub mod security;

use crate::codec::{
    digest_repr, enc_state, spec_apply, state_inv, StateModel, StateRepr, TransitionModel,
};
use crate::digest::digest_of;
use crate::kv::KvMap;
use vstd::prelude::*;

verus! {

/// Unique identifier for a node in the cluster.
pub type NodeId = u64;

/// The replicated value: a logical clock, a key-value store, the cluster
/// membership, and the leadership term.
#[derive(Debug, PartialEq, Eq)]
pub struct State {
    /// Logical clock; increases by one on every applied transition.
    pub clock: u64,
    /// The key-value data, kept in canonical (sorted) order.
    pub data: KvMap,
    /// Cluster members, in the stable order they were added.
    pub members: Vec<NodeId>,
    /// Leadership term.
    pub term: u64,
    /// Current leader, if one is known.
    pub leader: Option<NodeId>,
}

impl View for State {
    type V = StateModel;

    open spec fn view(&self) -> StateModel {
        StateModel {
            clock: self.clock,
            term: self.term,
            leader: self.leader,
            members: self.members@,
            data: self.data@,
        }
    }
}

impl State {
    /// The canonical concrete form: the data map as its sorted pair sequence.
    pub open spec fn repr(self) -> StateRepr {
        StateRepr {
            clock: self.clock,
            term: self.term,
            leader: self.leader,
            members: self.members@,
            data: self.data.kv_seq(),
        }
    }

    /// Create a new empty state.
    pub fn new() -> (s: State)
        ensures
            s@ == StateModel::init(),
            s@.clock == 0,
    {
        let s = State {
            clock: 0,
            data: KvMap::new(),
            members: Vec::new(),
            term: 0,
            leader: None,
        };
        proof {
            assert(s@.members =~= Seq::<u64>::empty());
            assert(s@.data =~= Map::<Seq<char>, Seq<u8>>::empty());
        }
        s
    }

    /// Compute the digest of the state: a collision-resistant hash over the
    /// canonical serialization, with members in ascending order and data in
    /// ascending key order. This is the equality oracle between replicas.
    pub fn hash(&self) -> (h: StateHash)
        ensures
            h@ == digest_of(enc_state(digest_repr(self.repr()))),
    {
        let bytes = crate::codec::state_digest_bytes(self);
        StateHash(crate::digest::blake3_hash32(&bytes))
    }
}

impl Clone for State {
    fn clone(&self) -> (r: Self)
        ensures
            r@ == self@,
            r.repr() == self.repr(),
    {
        let r = State {
            clock: self.clock,
            data: self.data.clone(),
            members: clone_vec_u64(&self.members),
            term: self.term,
            leader: self.leader,
        };
        r
    }
}

/// Copies a vector of node identifiers.
pub fn clone_vec_u64(v: &Vec<u64>) -> (r: Vec<u64>)
    ensures
        r@ == v@,
{
    let n = v.len();
    let mut r: Vec<u64> = Vec::new();
    let mut i: usize = 0;
    while i < n
        invariant
            0 <= i <= n,
            n == v@.len(),
            r@ =~= v@.subrange(0, i as int),
        decreases n - i,
    {
        r.push(v[i]);
        proof {
            assert(r@ =~= v@.subrange(0, i + 1 as int));
        }
        i = i + 1;
    }
    proof {
        assert(v@.subrange(0, n as int) =~= v@);
    }
    r
}

/// Whether a vector of node identifiers contains a value.
pub fn vec_contains_u64(v: &Vec<u64>, x: u64) -> (r: bool)
    ensures
        r == v@.contains(x),
{
    let n = v.len();
    let mut i: usize = 0;
    while i < n
        invariant
            0 <= i <= n,
            n == v@.len(),
            forall|j: int| 0 <= j < i ==> v@[j] != x,
        decreases n - i,
    {
        if v[i] == x {
            return true;
        }
        i = i + 1;
    }
    proof {
        if v@.contains(x) {
            let j = choose|j: int| 0 <= j < v@.len() && v@[j] == x;
        }
    }
    false
}

/// Removes every occurrence of a value from the vector, keeping the order of
/// the rest.
pub fn remove_all_u64(v: &mut Vec<u64>, x: u64)
    ensures
        final(v)@ == crate::codec::seq_remove_all(old(v)@, x),
{
    let n = v.len();
    let mut r: Vec<u64> = Vec::new();
    let mut i: usize = 0;
    while i < n
        invariant
            0 <= i <= n,
            n == v@.len(),
            v@ == old(v)@,
            r@ == crate::codec::seq_remove_all(old(v)@.subrange(0, i as int), x),
        decreases n - i,
    {
        let ghost pre = old(v)@.subrange(0, i as int);
        proof {
            assert(old(v)@.subrange(0, i + 1 as int).drop_last() =~= pre);
            assert(old(v)@.subrange(0, i + 1 as int).last() == old(v)@[i as int]);
        }
        if v[i] != x {
            r.push(v[i]);
        }
        i = i + 1;
    }
    proof {
        assert(old(v)@.subrange(0, n as int) =~= old(v)@);
    }
    *v = r;
}

/// A 256-bit digest of a state's canonical serialization. Two states with
/// the same digest are treated as equal.
#[derive(Debug, Clone, Copy, PartialEq, Eq, Hash)]
pub struct StateHash(pub [u8; 32]);

impl View for StateHash {
    type V = Seq<u8>;

    open spec fn view(&self) -> Seq<u8> {
        self.0@
    }
}

impl StateHash {
    /// Compare two digests byte for byte.
    pub fn equals(&self, other: &StateHash) -> (r: bool)
        ensures
            r == (self@ == other@),
    {
        let mut i: usize = 0;
        while i < 32
            invariant
                0 <= i <= 32,
                forall|j: int| 0 <= j < i ==> self.0@[j] == other.0@[j],
            decreases 32 - i,
        {
            if self.0[i] != other.0[i] {
                proof {
                    if self@ == other@ {
                        assert(self.0@[i as int] == other.0@[i as int]);
                    }
                }
                return false;
            }
            i = i + 1;
        }
        proof {
            assert(self.0@ =~= other.0@);
        }
        true
    }
}

/// A state change: the only way the replicated value moves.
#[derive(Debug)]
pub enum Transition {
    /// Write a value.
    Write { key: String, value: Vec<u8> },
    /// Delete a value.
    Delete { key: String },
    /// Add a node to the cluster.
    AddMember { node_id: NodeId },
    /// Remove a node from the cluster.
    RemoveMember { node_id: NodeId },
    /// Elect a new leader, if the proposed term is newer.
    ElectLeader { node_id: NodeId, term: u64 },
}

impl View for Transition {
    type V = TransitionModel;

    open spec fn view(&self) -> TransitionModel {
        match self {
            Transition::Write { key, value } => TransitionModel::Write {
                key: key@,
                value: value@,
            },
            Transition::Delete { key } => TransitionModel::Delete { key: key@ },
            Transition::AddMember { node_id } => TransitionModel::AddMember { node_id: *node_id },
            Transition::RemoveMember { node_id } => TransitionModel::RemoveMember {
                node_id: *node_id,
            },
            Transition::ElectLeader { node_id, term } => TransitionModel::ElectLeader {
                node_id: *node_id,
                term: *term,
            },
        }
    }
}

impl Clone for Transition {
    fn clone(&self) -> (r: Self)
        ensures
            r@ == self@,
    {
        match self {
            Transition::Write { key, value } => Transition::Write {
                key: key.clone(),
                value: crate::kv::clone_bytes(value),
            },
            Transition::Delete { key } => Transition::Delete { key: key.clone() },
            Transition::AddMember { node_id } => Transition::AddMember { node_id: *node_id },
            Transition::RemoveMember { node_id } => Transition::RemoveMember {
                node_id: *node_id,
            },
            Transition::ElectLeader { node_id, term } => Transition::ElectLeader {
                node_id: *node_id,
                term: *term,
            },
        }
    }
}

impl Transition {
    /// Apply this transition to a state, producing the next state. Pure and
    /// deterministic: the result is a function of the inputs alone, and the
    /// logical clock always advances by exactly one.
    pub fn apply(&self, state: State) -> (r: State)
        requires
            state.clock < u64::MAX,
        ensures
            r@ == spec_apply(self@, state@),
            r@.clock == state@.clock + 1,
    {
        let mut state = state;
        state.clock = state.clock + 1;
        match self {
            Transition::Write { key, value } => {
                state.data.insert(key.clone(), crate::kv::clone_bytes(value));
            },
            Transition::Delete { key } => {
                state.data.remove(key.as_str());
            },
            Transition::AddMember { node_id } => {
                if !vec_contains_u64(&state.members, *node_id) {
                    state.members.push(*node_id);
                }
            },
            Transition::RemoveMember { node_id } => {
                remove_all_u64(&mut state.members, *node_id);
            },
            Transition::ElectLeader { node_id, term } => {
                if *term > state.term {
                    state.term = *term;
                    state.leader = Some(*node_id);
                }
            },
        }
        state
    }
}

/// The shadow comparator: an independent copy of the state, advanced in
/// lockstep with the live state, whose digest is the expected value.
pub struct ShadowModel {
    /// Current state according to the reference model.
    pub state: State,
    /// History of state digests, for diagnosis.
    pub history: Vec<StateHash>,
}

impl ShadowModel {
    pub fn new() -> (r: ShadowModel)
        ensures
            r.state@ == StateModel::init(),
            r.history@.len() == 0,
    {
        ShadowModel { state: State::new(), history: Vec::new() }
    }

    /// Apply a transition to the shadow model and return the expected digest.
    pub fn apply(&mut self, transition: &Transition) -> (h: StateHash)
        requires
            old(self).state.clock < u64::MAX,
        ensures
            final(self).state@ == spec_apply(transition@, old(self).state@),
            h@ == digest_of(enc_state(digest_repr(final(self).state.repr()))),
            final(self).history@ == old(self).history@.push(h),
    {
        self.state = transition.apply(self.state.clone());
        let hash = self.state.hash();
        self.history.push(hash);
        hash
    }

    /// Digest of the shadow model's current state.
    pub fn current_hash(&self) -> (h: StateHash)
        ensures
            h@ == digest_of(enc_state(digest_repr(self.state.repr()))),
    {
        self.state.hash()
    }
}

/// What happens when the live state diverges from the shadow model.
#[derive(Debug)]
pub enum VerificationError {
    /// Live state diverged from the shadow model: the replica must halt
    /// before the divergent state persists or propagates.
    StateDivergence { expected: StateHash, actual: StateHash, transition: Box<Transition> },
}

/// The live state paired with its shadow model; every transition is applied
/// to both and the digests compared before it takes effect.
pub struct VerifiedStateMachine {
    runtime_state: State,
    shadow_model: ShadowModel,
    verification_enabled: bool,
    halted: bool,
}

impl VerifiedStateMachine {
    /// The live state's mathematical value.
    pub closed spec fn model(self) -> StateModel {
        self.runtime_state@
    }

    /// The live state's canonical concrete form.
    pub closed spec fn spec_repr(self) -> StateRepr {
        self.runtime_state.repr()
    }

    /// Shadow and live state agree whenever checking is on.
    pub closed spec fn synced(self) -> bool {
        self.verification_enabled ==> self.shadow_model.state@ == self.runtime_state@
    }

    /// A halted machine accepts no further transitions.
    pub closed spec fn spec_halted(self) -> bool {
        self.halted
    }

    pub closed spec fn spec_enabled(self) -> bool {
        self.verification_enabled
    }

    pub fn new(verification_enabled: bool) -> (r: VerifiedStateMachine)
        ensures
            r.model() == StateModel::init(),
            r.synced(),
            !r.spec_halted(),
            r.spec_enabled() == verification_enabled,
    {
        VerifiedStateMachine {
            runtime_state: State::new(),
            shadow_model: ShadowModel::new(),
            verification_enabled,
            halted: false,
        }
    }

    /// Whether the machine has entered the terminal halted mode.
    pub fn is_halted(&self) -> (r: bool)
        ensures
            r == self.spec_halted(),
    {
        self.halted
    }

    /// Execute a transition: apply it to the shadow model, then to the live
    /// state, and compare the digests of the two results. Any mismatch is a
    /// divergence fault: the machine halts, the transition does not take
    /// effect. Under the verified semantics the digests always agree, so a
    /// non-halted machine accepts every transition.
    pub fn execute(&mut self, transition: Transition) -> (r: Result<(), VerificationError>)
        requires
            old(self).model().clock < u64::MAX,
            old(self).synced(),
            !old(self).spec_halted(),
        ensures
            r is Ok,
            final(self).model() == spec_apply(transition@, old(self).model()),
            final(self).synced(),
            !final(self).spec_halted(),
            final(self).spec_enabled() == old(self).spec_enabled(),
    {
        if !self.verification_enabled {
            // Fast path: no checking.
            let next = transition.apply(self.runtime_state.clone());
            self.runtime_state = next;
            return Ok(());
        }
        // Step 1: apply to the shadow model; this is the expected digest.
        let expected_hash = self.shadow_model.apply(&transition);

        // Step 2: apply to the live state.
        let next = transition.apply(self.runtime_state.clone());

        // Step 3: compare the digests.
        let actual_hash = next.hash();
        if !expected_hash.equals(&actual_hash) {
            proof {
                // Both digests are of the same canonical bytes: the shadow and
                // live successors have equal views, hence equal canonical
                // forms.
                use_type_invariant(&self.shadow_model.state.data);
                use_type_invariant(&next.data);
                assert(self.shadow_model.state@ == next@);
                crate::codec::lemma_repr_determined(
                    self.shadow_model.state.repr(),
                    next.repr(),
                );
            }
            // Divergence: halt; the transition does not take effect.
            self.halted = true;
            return Err(VerificationError::StateDivergence {
                expected: expected_hash,
                actual: actual_hash,
                transition: Box::new(transition),
            });
        }
        self.runtime_state = next;
        Ok(())
    }

    /// Digest of the current live state.
    pub fn state_hash(&self) -> (h: StateHash)
        ensures
            h@ == digest_of(enc_state(digest_repr(self.spec_repr()))),
    {
        self.runtime_state.hash()
    }

    /// A copy of the current live state, for inspection. The copy has the
    /// same canonical form, so its digest is the machine's digest.
    pub fn state(&self) -> (s: State)
        ensures
            s@ == self.model(),
            s.repr() == self.spec_repr(),
    {
        self.runtime_state.clone()
    }
}

// ---------------------------------------------------------------------------
// Laws of the transition algebra.
// ---------------------------------------------------------------------------
/// Determinism of apply: two states that are equal as mathematical values
/// have, for any one transition, equal successors, equal canonical
/// serializations, and therefore equal digests.
pub proof fn lemma_apply_deterministic(r1: StateRepr, r2: StateRepr, t: TransitionModel)
    requires
        crate::kv::kv_sorted(r1.data),
        crate::kv::kv_sorted(r2.data),
        r1.model() == r2.model(),
    ensures
        spec_apply(t, r1.model()) == spec_apply(t, r2.model()),
        enc_state(digest_repr(r1)) == enc_state(digest_repr(r2)),
        digest_of(enc_state(digest_repr(r1))) == digest_of(enc_state(digest_repr(r2))),
{
    crate::codec::lemma_repr_determined(r1, r2);
}

/// Equal canonical digest inputs come only from equal states: the canonical
/// serialization is injective up to the order members were added in (the
/// digest sorts members, so it sees the member set). A digest collision can
/// therefore only come from the hash function itself.
pub proof fn lemma_digest_input_injective(r1: StateRepr, r2: StateRepr)
    requires
        crate::kv::kv_sorted(r1.data),
        crate::kv::kv_sorted(r2.data),
        r1.wf(),
        r2.wf(),
        enc_state(digest_repr(r1)) == enc_state(digest_repr(r2)),
    ensures
        r1.clock == r2.clock,
        r1.term == r2.term,
        r1.leader == r2.leader,
        r1.model().data == r2.model().data,
        forall|x: u64| r1.members.contains(x) <==> r2.members.contains(x),
{
    crate::codec::lemma_sort_u64_len(r1.members);
    crate::codec::lemma_sort_u64_len(r2.members);
    crate::codec::lemma_enc_state_injective(digest_repr(r1), digest_repr(r2));
    assert(digest_repr(r1).data == digest_repr(r2).data);
    assert(r1.data == r2.data);
    assert(crate::codec::sort_u64(r1.members) == crate::codec::sort_u64(r2.members));
    assert forall|x: u64| r1.members.contains(x) <==> r2.members.contains(x) by {
        crate::codec::lemma_sort_u64_contains(r1.members, x);
        crate::codec::lemma_sort_u64_contains(r2.members, x);
    }
}

/// The result of applying a sequence of transitions in order.
pub open spec fn spec_apply_all(ts: Seq<TransitionModel>, m: StateModel) -> StateModel
    decreases ts.len(),
{
    if ts.len() == 0 {
        m
    } else {
        spec_apply_all(ts.drop_first(), spec_apply(ts[0], m))
    }
}

/// Clock monotonicity: across any sequence of applied transitions that stays
/// within the clock's range, the clock increases by exactly one per
/// transition, and in particular never decreases.
pub proof fn lemma_clock_monotonic(ts: Seq<TransitionModel>, m: StateModel)
    requires
        m.clock + ts.len() <= u64::MAX,
    ensures
        spec_apply_all(ts, m).clock == m.clock + ts.len(),
    decreases ts.len(),
{
    if ts.len() > 0 {
        lemma_clock_monotonic(ts.drop_first(), spec_apply(ts[0], m));
    }
}

/// No duplicates in a member list.
pub open spec fn members_unique(members: Seq<u64>) -> bool {
    forall|i: int, j: int| 0 <= i < j < members.len() ==> members[i] != members[j]
}

/// Members uniqueness: no transition introduces a duplicate member.
pub proof fn lemma_apply_members_unique(t: TransitionModel, m: StateModel)
    requires
        members_unique(m.members),
    ensures
        members_unique(spec_apply(t, m).members),
{
    match t {
        TransitionModel::AddMember { node_id } => {
            if !m.members.contains(node_id) {
                let after = m.members.push(node_id);
                assert forall|i: int, j: int| 0 <= i < j < after.len() implies after[i]
                    != after[j] by {
                    if j == after.len() - 1 {
                        assert(after[i] == m.members[i]);
                        if m.members[i] == node_id {
                            assert(m.members.contains(node_id));
                        }
                    }
                }
            }
        },
        TransitionModel::RemoveMember { node_id } => {
            lemma_remove_all_unique(m.members, node_id);
        },
        _ => {},
    }
}

/// Removing a value keeps a duplicate-free sequence duplicate-free, and the
/// result holds exactly the other values.
pub proof fn lemma_remove_all_unique(s: Seq<u64>, x: u64)
    requires
        members_unique(s),
    ensures
        members_unique(crate::codec::seq_remove_all(s, x)),
        forall|y: u64| #[trigger] crate::codec::seq_remove_all(s, x).contains(y) <==> s.contains(y)
            && y != x,
    decreases s.len(),
{
    let res = crate::codec::seq_remove_all(s, x);
    if s.len() > 0 {
        let t = s.drop_last();
        let tr = crate::codec::seq_remove_all(t, x);
        assert(members_unique(t)) by {
            assert(forall|i: int| 0 <= i < t.len() ==> t[i] == s[i]);
        }
        lemma_remove_all_unique(t, x);
        let lastv = s.last();
        assert forall|y: u64| #[trigger] t.contains(y) implies s.contains(y) by {
            let i = choose|i: int| 0 <= i < t.len() && t[i] == y;
            assert(s[i] == y);
        }
        assert(!t.contains(lastv)) by {
            if t.contains(lastv) {
                let i = choose|i: int| 0 <= i < t.len() && t[i] == lastv;
                assert(s[i] == s[s.len() - 1]);
            }
        }
        if lastv == x {
            assert(res == tr);
            assert forall|y: u64| #[trigger] res.contains(y) <==> s.contains(y) && y != x by {
                if s.contains(y) && y != x {
                    let i = choose|i: int| 0 <= i < s.len() && s[i] == y;
                    assert(i < s.len() - 1);
                    assert(t[i] == y);
                    assert(t.contains(y));
                }
            }
        } else {
            let r = tr.push(lastv);
            assert(res == r);
            assert forall|i: int, j: int| 0 <= i < j < r.len() implies r[i] != r[j] by {
                if j == r.len() - 1 {
                    assert(tr.contains(r[i])) by {
                        assert(r[i] == tr[i]);
                    }
                }
            }
            assert forall|y: u64| #[trigger] r.contains(y) <==> s.contains(y) && y != x by {
                if r.contains(y) {
                    let i = choose|i: int| 0 <= i < r.len() && r[i] == y;
                    if i < r.len() - 1 {
                        assert(tr[i] == y);
                        assert(tr.contains(y));
                    } else {
                        assert(s[s.len() - 1] == y);
                    }
                }
                if s.contains(y) && y != x {
                    let i = choose|i: int| 0 <= i < s.len() && s[i] == y;
                    if i < s.len() - 1 {
                        assert(t[i] == y);
                        assert(t.contains(y));
                        assert(tr.contains(y));
                        let j = choose|j: int| 0 <= j < tr.len() && tr[j] == y;
                        assert(r[j] == y);
                    } else {
                        assert(r[r.len() - 1] == y);
                    }
                }
            }
        }
    }
}

/// Leader-in-members: every transition that neither elects a non-member nor
/// removes the sitting leader preserves the invariant that the leader, when
/// set, is a member. Electing a node that is not a member, or removing the
/// leader itself, are the two inputs that can break it; the runtime rule
/// `invariants::InvariantRule::LeaderInMembers` catches them after the apply
/// and halts the replica, as the error-handling design directs.
pub proof fn lemma_apply_leader_in_members(t: TransitionModel, m: StateModel)
    requires
        state_inv(m),
        t matches TransitionModel::ElectLeader { node_id, term } ==> (term > m.term
            ==> m.members.contains(node_id)),
        t matches TransitionModel::RemoveMember { node_id } ==> m.leader != Some(node_id),
    ensures
        spec_apply(t, m).leader matches Some(l) ==> spec_apply(t, m).members.contains(l),
{
    let after = spec_apply(t, m);
    match t {
        TransitionModel::RemoveMember { node_id } => {
            lemma_remove_all_unique(m.members, node_id);
            match after.leader {
                Some(l) => {
                    assert(m.leader == Some(l));
                    assert(m.members.contains(l));
                },
                None => {},
            }
        },
        TransitionModel::AddMember { node_id } => {
            match after.leader {
                Some(l) => {
                    assert(m.members.contains(l));
                    if !m.members.contains(node_id) {
                        let i = choose|i: int| 0 <= i < m.members.len() && m.members[i] == l;
                        assert(after.members[i] == l);
                    }
                },
                None => {},
            }
        },
        _ => {},
    }
}

/// Deleting a key twice leaves the data exactly as after the first delete;
/// only the clock moves.
pub proof fn lemma_delete_idempotent(key: Seq<char>, m: StateModel)
    ensures
        ({
            let once = spec_apply(TransitionModel::Delete { key }, m);
            let twice = spec_apply(TransitionModel::Delete { key }, once);
            twice.data == once.data && twice.members == once.members && twice.term == once.term
                && twice.leader == once.leader
        }),
{
    let once = spec_apply(TransitionModel::Delete { key }, m);
    assert(once.data.remove(key) =~= m.data.remove(key));
}

/// Adding a member twice equals adding it once, up to the clock.
pub proof fn lemma_add_member_idempotent(node_id: u64, m: StateModel)
    ensures
        ({
            let once = spec_apply(TransitionModel::AddMember { node_id }, m);
            let twice = spec_apply(TransitionModel::AddMember { node_id }, once);
            twice.data == once.data && twice.members == once.members && twice.term == once.term
                && twice.leader == once.leader
        }),
{
    let once = spec_apply(TransitionModel::AddMember { node_id }, m);
    if !m.members.contains(node_id) {
        assert(once.members == m.members.push(node_id));
        assert(once.members[m.members.len() as int] == node_id);
        assert(once.members.contains(node_id));
    }
}


/// Decides equality of two node-identifier vectors.
pub fn vec_u64_eq(a: &Vec<u64>, b: &Vec<u64>) -> (r: bool)
    ensures
        r == (a@ == b@),
{
    let n = a.len();
    if n != b.len() {
        return false;
    }
    let mut i: usize = 0;
    while i < n
        invariant
            0 <= i <= n,
            n == a@.len(),
            n == b@.len(),
            forall|j: int| 0 <= j < i ==> a@[j] == b@[j],
        decreases n - i,
    {
        if a[i] != b[i] {
            return false;
        }
        i = i + 1;
    }
    proof {
        assert(a@ =~= b@);
    }
    true
}

/// Decides equality of two states as mathematical values.
pub fn state_eq(a: &State, b: &State) -> (r: bool)
    ensures
        r == (a@ == b@),
{
    let clocks = a.clock == b.clock;
    let terms = a.term == b.term;
    let leaders = match (a.leader, b.leader) {
        (None, None) => true,
        (Some(x), Some(y)) => x == y,
        _ => false,
    };
    let members = vec_u64_eq(&a.members, &b.members);
    let data = a.data.equals(&b.data);
    let r = clocks && terms && leaders && members && data;
    proof {
        if r {
            assert(a@ =~= b@);
        }
    }
    r
}


} // verus!
