//! Incremental digests: hash only what changed.
//!
//! The state digest is split by component — data, members, metadata — and
//! the root combines the three. A transition that touches one component only
//! re-hashes that component.

use crate::digest::digest_of;
use crate::kv::KvMap;
use vstd::prelude::*;

verus! {

/// The bytes hashed for the data component: the canonical pair encoding.
pub open spec fn data_digest_input(m: KvMap) -> Seq<u8> {
    crate::codec::enc_pairs(m.kv_seq())
}

/// The bytes hashed for the members component: the identifiers in ascending
/// order.
pub open spec fn members_digest_input(members: Seq<u64>) -> Seq<u8> {
    crate::codec::enc_u64_seq(crate::codec::sort_u64(members))
}

/// The bytes hashed for the metadata component.
pub open spec fn meta_digest_input(clock: u64, term: u64, leader: Option<u64>) -> Seq<u8> {
    crate::codec::enc_u64(clock) + crate::codec::enc_u64(term) + crate::codec::enc_opt_u64(leader)
}

/// The root: the three component digests, concatenated and hashed again.
pub open spec fn root_digest_input(data: Seq<u8>, members: Seq<u8>, meta: Seq<u8>) -> Seq<u8> {
    data + members + meta
}

/// A state digest maintained by component, so that only changed components
/// are re-hashed.
pub struct CompressedState {
    root: [u8; 32],
    data_hash: [u8; 32],
    members_hash: [u8; 32],
    meta_hash: [u8; 32],
    data_dirty: bool,
    members_dirty: bool,
    meta_dirty: bool,
}

impl CompressedState {
    pub closed spec fn spec_root(self) -> Seq<u8> {
        self.root@
    }

    pub closed spec fn spec_dirty(self) -> (bool, bool, bool) {
        (self.data_dirty, self.members_dirty, self.meta_dirty)
    }

    /// All components of the digest tree hold the digests of the state.
    pub open spec fn tracks(self, m: crate::codec::StateModel, km: KvMap) -> bool {
        &&& km@ == m.data
        &&& self.spec_root() == digest_of(
            root_digest_input(
                digest_of(data_digest_input(km)),
                digest_of(members_digest_input(m.members)),
                digest_of(meta_digest_input(m.clock, m.term, m.leader)),
            ),
        )
    }

    /// A fresh tree: everything dirty, nothing computed yet.
    pub fn new() -> (r: CompressedState)
        ensures
            r.spec_dirty() == (true, true, true),
    {
        CompressedState {
            root: [0u8; 32],
            data_hash: [0u8; 32],
            members_hash: [0u8; 32],
            meta_hash: [0u8; 32],
            data_dirty: true,
            members_dirty: true,
            meta_dirty: true,
        }
    }

    /// Mark the data component changed.
    pub fn mark_data_dirty(&mut self)
        ensures
            final(self).spec_dirty().0,
    {
        self.data_dirty = true;
    }

    /// Mark the members component changed.
    pub fn mark_members_dirty(&mut self)
        ensures
            final(self).spec_dirty().1,
    {
        self.members_dirty = true;
    }

    /// Mark the metadata component changed.
    pub fn mark_meta_dirty(&mut self)
        ensures
            final(self).spec_dirty().2,
    {
        self.meta_dirty = true;
    }

    /// Re-hash exactly the dirty components and recombine the root. If every
    /// component was marked dirty, the result tracks the state exactly.
    pub fn recompute(&mut self, state: &crate::State)
        ensures
            final(self).spec_dirty() == (false, false, false),
            (old(self).spec_dirty() == (true, true, true)) ==> final(self).tracks(
                state@,
                state.data,
            ),
    {
        if self.data_dirty {
            let mut bytes: Vec<u8> = Vec::new();
            crate::codec::enc_pairs_exec(&mut bytes, &state.data);
            self.data_hash = crate::digest::blake3_hash32(&bytes);
            self.data_dirty = false;
        }
        if self.members_dirty {
            let sorted = crate::codec::sorted_copy_u64(&state.members);
            let mut bytes: Vec<u8> = Vec::new();
            crate::codec::enc_u64_seq_exec(&mut bytes, &sorted);
            self.members_hash = crate::digest::blake3_hash32(&bytes);
            self.members_dirty = false;
        }
        if self.meta_dirty {
            let mut bytes: Vec<u8> = Vec::new();
            crate::codec::enc_u64_exec(&mut bytes, state.clock);
            crate::codec::enc_u64_exec(&mut bytes, state.term);
            crate::codec::enc_opt_u64_exec(&mut bytes, state.leader);
            self.meta_hash = crate::digest::blake3_hash32(&bytes);
            self.meta_dirty = false;
        }
        let mut combined: Vec<u8> = Vec::new();
        push_array32(&mut combined, &self.data_hash);
        push_array32(&mut combined, &self.members_hash);
        push_array32(&mut combined, &self.meta_hash);
        self.root = crate::digest::blake3_hash32(&combined);
    }

    /// Which components are marked changed: data, members, metadata.
    pub fn dirty_flags(&self) -> (r: (bool, bool, bool))
        ensures
            r == self.spec_dirty(),
    {
        (self.data_dirty, self.members_dirty, self.meta_dirty)
    }

    /// The current root digest.
    pub fn root_hash(&self) -> (r: [u8; 32])
        ensures
            r@ == self.spec_root(),
    {
        let mut out: Vec<u8> = Vec::new();
        push_array32(&mut out, &self.root);
        let mut r = [0u8; 32];
        let mut i: usize = 0;
        while i < 32
            invariant
                0 <= i <= 32,
                out@.len() == 32,
                out@ == self.spec_root(),
                forall|j: int| 0 <= j < i ==> r@[j] == self.spec_root()[j],
            decreases 32 - i,
        {
            r[i] = out[i];
            i = i + 1;
        }
        proof {
            assert(r@ =~= self.spec_root());
        }
        r
    }
}

/// Appends a 32-byte digest to a buffer.
fn push_array32(out: &mut Vec<u8>, a: &[u8; 32])
    ensures
        final(out)@ == old(out)@ + a@,
{
    let mut i: usize = 0;
    while i < 32
        invariant
            0 <= i <= 32,
            out@ =~= old(out)@ + a@.subrange(0, i as int),
        decreases 32 - i,
    {
        out.push(a[i]);
        proof {
            assert(out@ =~= old(out)@ + a@.subrange(0, i + 1 as int));
        }
        i = i + 1;
    }
    proof {
        assert(a@.subrange(0, 32) =~= a@);
    }
}

/// Which component of the state a transition touched.
#[derive(Debug, Clone, Copy)]
pub enum Component {
    Data,
    Members,
    Meta,
}

/// Digest checking through the incremental tree.
pub struct OptimizedVerification {
    compressed: CompressedState,
}

impl OptimizedVerification {
    /// The current root digest's value.
    pub closed spec fn spec_root(self) -> Seq<u8> {
        self.compressed.spec_root()
    }

    pub fn new() -> (r: OptimizedVerification)
    {
        OptimizedVerification { compressed: CompressedState::new() }
    }

    /// Mark the changed component and recompute the digest tree.
    pub fn update(&mut self, state: &crate::State, changed_component: Component)
    {
        match changed_component {
            Component::Data => self.compressed.mark_data_dirty(),
            Component::Members => self.compressed.mark_members_dirty(),
            Component::Meta => self.compressed.mark_meta_dirty(),
        }
        self.compressed.recompute(state);
    }

    /// The current root digest.
    pub fn hash(&self) -> (r: [u8; 32])
        ensures
            r@ == self.spec_root(),
    {
        self.compressed.root_hash()
    }
}

} // verus!
