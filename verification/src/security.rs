//! Authentication, authorization, auditing and rate limiting.

use crate::digest::digest_of;
use crate::NodeId;
use vstd::prelude::*;

verus! {

pub type PublicKey = [u8; 32];

pub type PrivateKey = [u8; 32];

pub type Signature = [u8; 64];

/// A node's key material.
#[derive(Debug, Clone)]
pub struct Credentials {
    pub node_id: NodeId,
    pub public_key: PublicKey,
    pub private_key: PrivateKey,
}

/// The signing input: the private key, then the message.
pub open spec fn signing_input(key: Seq<u8>, message: Seq<u8>) -> Seq<u8> {
    key + message
}

impl Credentials {
    /// Derive a keypair deterministically from the node identifier.
    pub fn generate(node_id: NodeId) -> (r: Credentials)
        ensures
            r.node_id == node_id,
    {
        let mut public_key = [0u8; 32];
        let mut private_key = [0u8; 32];
        let seed = crate::codec::u64_bytes(node_id);
        let mut i: usize = 0;
        while i < 32
            invariant
                0 <= i <= 32,
                seed@.len() == 8,
            decreases 32 - i,
        {
            let b = seed[i % 8];
            public_key[i] = b.wrapping_add(i as u8);
            private_key[i] = b.wrapping_add(i as u8).wrapping_mul(2);
            i = i + 1;
        }
        Credentials { node_id, public_key, private_key }
    }

    /// Sign a message: the digest of key-then-message, followed by the
    /// public key.
    pub fn sign(&self, message: &Vec<u8>) -> (sig: Signature)
        ensures
            sig@.subrange(0, 32) == digest_of(signing_input(self.private_key@, message@)),
            sig@.subrange(32, 64) == self.public_key@,
    {
        let mut input: Vec<u8> = Vec::new();
        let mut i: usize = 0;
        while i < 32
            invariant
                0 <= i <= 32,
                input@ =~= self.private_key@.subrange(0, i as int),
            decreases 32 - i,
        {
            input.push(self.private_key[i]);
            proof {
                assert(input@ =~= self.private_key@.subrange(0, i + 1 as int));
            }
            i = i + 1;
        }
        proof {
            assert(self.private_key@.subrange(0, 32) =~= self.private_key@);
        }
        crate::codec::push_all(&mut input, message);
        let hash = crate::digest::blake3_hash32(&input);
        let mut sig = [0u8; 64];
        let mut j: usize = 0;
        while j < 32
            invariant
                0 <= j <= 32,
                hash@ == digest_of(signing_input(self.private_key@, message@)),
                forall|k: int| 0 <= k < j ==> sig@[k] == hash@[k],
            decreases 32 - j,
        {
            sig[j] = hash[j];
            j = j + 1;
        }
        let mut k: usize = 0;
        while k < 32
            invariant
                0 <= k <= 32,
                hash@ == digest_of(signing_input(self.private_key@, message@)),
                forall|q: int| 0 <= q < 32 ==> sig@[q] == hash@[q],
                forall|q: int| 0 <= q < k ==> sig@[32 + q] == self.public_key@[q],
            decreases 32 - k,
        {
            sig[32 + k] = self.public_key[k];
            k = k + 1;
        }
        proof {
            assert(sig@.subrange(0, 32) =~= hash@);
            assert(sig@.subrange(32, 64) =~= self.public_key@);
        }
        sig
    }

    /// Verify a signature: true exactly when the embedded key is the claimed
    /// key and the digest is the one this node's key produces for the
    /// message.
    pub fn verify(&self, message: &Vec<u8>, signature: &Signature, public_key: &PublicKey) -> (r:
        bool)
        ensures
            r == (signature@.subrange(32, 64) == public_key@ && signature@.subrange(0, 32)
                == digest_of(signing_input(self.private_key@, message@))),
    {
        // the embedded key must match the claimed key
        let mut i: usize = 0;
        while i < 32
            invariant
                0 <= i <= 32,
                forall|q: int| 0 <= q < i ==> signature@[32 + q] == public_key@[q],
            decreases 32 - i,
        {
            if signature[32 + i] != public_key[i] {
                proof {
                    if signature@.subrange(32, 64) == public_key@ {
                        assert(signature@.subrange(32, 64)[i as int] == public_key@[i as int]);
                    }
                }
                return false;
            }
            i = i + 1;
        }
        proof {
            assert(signature@.subrange(32, 64) =~= public_key@);
        }
        // recompute the digest with this node's private key
        let expected = self.sign(message);
        let mut j: usize = 0;
        while j < 32
            invariant
                0 <= j <= 32,
                expected@.subrange(0, 32) == digest_of(signing_input(self.private_key@, message@)),
                signature@.subrange(32, 64) == public_key@,
                forall|q: int| 0 <= q < j ==> signature@[q] == expected@[q],
            decreases 32 - j,
        {
            if signature[j] != expected[j] {
                proof {
                    if signature@.subrange(0, 32) == digest_of(
                        signing_input(self.private_key@, message@),
                    ) {
                        assert(signature@.subrange(0, 32)[j as int] == expected@.subrange(
                            0,
                            32,
                        )[j as int]);
                    }
                }
                return false;
            }
            j = j + 1;
        }
        proof {
            assert(signature@.subrange(0, 32) =~= expected@.subrange(0, 32));
        }
        true
    }
}

/// What a node may do.
#[derive(Debug, Clone)]
pub struct Permissions {
    pub can_propose: bool,
    pub can_vote: bool,
    pub can_read: bool,
    pub can_admin: bool,
}

impl Default for Permissions {
    /// Ordinary nodes propose, vote and read, but do not administer.
    fn default() -> (r: Permissions)
        ensures
            r.can_propose && r.can_vote && r.can_read && !r.can_admin,
    {
        Permissions { can_propose: true, can_vote: true, can_read: true, can_admin: false }
    }
}

/// The actions access control distinguishes.
#[derive(Debug, Clone, Copy)]
pub enum Action {
    Propose,
    Vote,
    Read,
    Admin,
}

/// Per-node permissions with a set of administrators.
pub struct AccessControl {
    permissions: Vec<(NodeId, Permissions)>,
    admins: Vec<NodeId>,
}

/// What a permission set allows for an action.
pub open spec fn permits(p: Permissions, action: Action) -> bool {
    match action {
        Action::Propose => p.can_propose,
        Action::Vote => p.can_vote,
        Action::Read => p.can_read,
        Action::Admin => p.can_admin,
    }
}

impl AccessControl {
    pub closed spec fn spec_admins(self) -> Seq<NodeId> {
        self.admins@
    }

    pub closed spec fn spec_grants(self) -> Seq<(NodeId, Permissions)> {
        self.permissions@
    }

    pub fn new(admins: Vec<NodeId>) -> (r: AccessControl)
        ensures
            r.spec_admins() == admins@,
            r.spec_grants().len() == 0,
    {
        AccessControl { permissions: Vec::new(), admins }
    }

    /// Whether the node may perform the action: administrators may do
    /// anything; others get their granted permissions, or the defaults.
    pub fn check(&self, node_id: NodeId, action: Action) -> (r: bool)
        ensures
            self.spec_admins().contains(node_id) ==> r,
    {
        if crate::vec_contains_u64(&self.admins, node_id) {
            return true;
        }
        let n = self.permissions.len();
        let mut i: usize = 0;
        while i < n
            invariant
                0 <= i <= n,
                n == self.spec_grants().len(),
                !self.spec_admins().contains(node_id),
            decreases n - i,
        {
            if self.permissions[i].0 == node_id {
                let p = &self.permissions[i].1;
                return match action {
                    Action::Propose => p.can_propose,
                    Action::Vote => p.can_vote,
                    Action::Read => p.can_read,
                    Action::Admin => p.can_admin,
                };
            }
            i = i + 1;
        }
        match action {
            Action::Propose => true,
            Action::Vote => true,
            Action::Read => true,
            Action::Admin => false,
        }
    }

    /// Grant a node explicit permissions.
    pub fn grant(&mut self, node_id: NodeId, permissions: Permissions)
        ensures
            final(self).spec_grants().len() >= old(self).spec_grants().len(),
    {
        let n = self.permissions.len();
        let mut i: usize = 0;
        while i < n
            invariant
                0 <= i <= n,
                n == self.permissions@.len(),
                self.permissions@.len() == old(self).permissions@.len(),
                self.admins@ == old(self).admins@,
            decreases n - i,
        {
            if self.permissions[i].0 == node_id {
                self.permissions[i] = (node_id, permissions);
                return ;
            }
            i = i + 1;
        }
        self.permissions.push((node_id, permissions));
    }

    /// Revoke a node's explicit permissions, back to the defaults.
    pub fn revoke(&mut self, node_id: NodeId)
        ensures
            final(self).spec_grants().len() <= old(self).spec_grants().len(),
    {
        let n = self.permissions.len();
        let mut i: usize = 0;
        while i < n
            invariant
                0 <= i <= n,
                n == self.permissions@.len(),
                self.permissions@.len() == old(self).permissions@.len(),
                self.admins@ == old(self).admins@,
            decreases n - i,
        {
            if self.permissions[i].0 == node_id {
                self.permissions.remove(i);
                return ;
            }
            i = i + 1;
        }
    }
}

/// One audited event.
#[derive(Debug, Clone)]
pub struct AuditEntry {
    pub timestamp: u64,
    pub node_id: NodeId,
    pub action: String,
    pub result: AuditResult,
    pub details: String,
}

/// How an audited request ended.
#[derive(Debug, Clone)]
pub enum AuditResult {
    Allowed,
    Denied,
    Error,
}

/// A bounded log of security events.
pub struct AuditLog {
    entries: Vec<AuditEntry>,
    max_entries: usize,
}

impl AuditLog {
    pub closed spec fn spec_entries(self) -> Seq<AuditEntry> {
        self.entries@
    }

    pub closed spec fn spec_max(self) -> usize {
        self.max_entries
    }

    pub fn new(max_entries: usize) -> (r: AuditLog)
        ensures
            r.spec_entries().len() == 0,
            r.spec_max() == max_entries,
    {
        AuditLog { entries: Vec::new(), max_entries }
    }

    /// Record an event, dropping the oldest past the bound.
    pub fn log(&mut self, entry: AuditEntry)
        ensures
            final(self).spec_entries().len() >= 1,
            final(self).spec_entries().last() == entry,
            final(self).spec_entries().len() <= if old(self).spec_max() > 0 {
                old(self).spec_max() as int
            } else {
                1int
            },
    {
        self.entries.push(entry);
        while self.entries.len() > self.max_entries && self.entries.len() > 1
            invariant
                self.entries@.len() >= 1,
                self.entries@.last() == entry,
                self.max_entries == old(self).spec_max(),
            decreases self.entries@.len(),
        {
            let ghost pre = self.entries@;
            self.entries.remove(0);
            proof {
                assert(self.entries@ =~= pre.skip(1));
            }
        }
    }

    /// The most recent events, newest first.
    pub fn recent(&self, count: usize) -> (r: Vec<AuditEntry>)
        ensures
            r@.len() <= count,
            r@.len() <= self.spec_entries().len(),
    {
        let n = self.entries.len();
        let mut out: Vec<AuditEntry> = Vec::new();
        let mut i: usize = n;
        while i > 0 && out.len() < count
            invariant
                0 <= i <= n,
                n == self.entries@.len(),
                out@.len() <= count,
                out@.len() == n - i,
            decreases i,
        {
            i = i - 1;
            out.push(self.entries[i].clone());
        }
        out
    }
}

/// Bounds how many requests a node may make inside a sliding window.
pub struct RateLimiter {
    requests: Vec<(NodeId, Vec<u64>)>,
    max_requests: usize,
    window_seconds: u64,
}

impl RateLimiter {
    pub closed spec fn spec_max(self) -> usize {
        self.max_requests
    }

    pub fn new(max_requests: usize, window_seconds: u64) -> (r: RateLimiter)
        ensures
            r.spec_max() == max_requests,
    {
        RateLimiter { requests: Vec::new(), max_requests, window_seconds }
    }

    /// Whether one more request from the node is allowed now; an allowed
    /// request is recorded. At most `max_requests` are allowed per node
    /// within any window.
    pub fn allow(&mut self, node_id: NodeId, now_s: u64) -> (r: bool)
    {
        let cutoff = if now_s >= self.window_seconds {
            now_s - self.window_seconds
        } else {
            0
        };
        let n = self.requests.len();
        let mut i: usize = 0;
        let mut slot: Option<usize> = None;
        while i < n
            invariant
                0 <= i <= n,
                n == self.requests@.len(),
                slot matches Some(s) ==> s < n,
            decreases n - i,
        {
            if self.requests[i].0 == node_id {
                slot = Some(i);
            }
            i = i + 1;
        }
        match slot {
            Some(s) => {
                // keep only timestamps inside the window
                let old_ts = &self.requests[s].1;
                let m = old_ts.len();
                let mut kept: Vec<u64> = Vec::new();
                let mut j: usize = 0;
                while j < m
                    invariant
                        0 <= j <= m,
                        s < n,
                        n == self.requests@.len(),
                        m == self.requests@[s as int].1@.len(),
                        kept@.len() <= j,
                    decreases m - j,
                {
                    let ts = self.requests[s].1[j];
                    if ts > cutoff {
                        kept.push(ts);
                    }
                    j = j + 1;
                }
                if kept.len() >= self.max_requests {
                    self.requests[s] = (node_id, kept);
                    false
                } else {
                    kept.push(now_s);
                    self.requests[s] = (node_id, kept);
                    true
                }
            },
            None => {
                if self.max_requests == 0 {
                    return false;
                }
                let mut ts: Vec<u64> = Vec::new();
                ts.push(now_s);
                self.requests.push((node_id, ts));
                true
            },
        }
    }
}

/// Everything security: credentials, access control, auditing, rate limits.
pub struct SecurityContext {
    pub credentials: Credentials,
    pub access_control: AccessControl,
    pub audit_log: AuditLog,
    pub rate_limiter: RateLimiter,
}

impl SecurityContext {
    pub fn new(node_id: NodeId, admins: Vec<NodeId>) -> (r: SecurityContext)
        ensures
            r.credentials.node_id == node_id,
    {
        SecurityContext {
            credentials: Credentials::generate(node_id),
            access_control: AccessControl::new(admins),
            audit_log: AuditLog::new(10000),
            rate_limiter: RateLimiter::new(1000, 60),
        }
    }

    /// Authorize an action: rate limit first, then permissions; every
    /// decision is audited.
    pub fn authorize(&mut self, node_id: NodeId, action: Action, now_s: u64) -> (r: bool)
    {
        let action_name = match action {
            Action::Propose => "Propose",
            Action::Vote => "Vote",
            Action::Read => "Read",
            Action::Admin => "Admin",
        };
        if !self.rate_limiter.allow(node_id, now_s) {
            self.audit_log.log(
                AuditEntry {
                    timestamp: now_s,
                    node_id,
                    action: String::from_str(action_name),
                    result: AuditResult::Denied,
                    details: String::from_str("Rate limit exceeded"),
                },
            );
            return false;
        }
        if !self.access_control.check(node_id, action) {
            self.audit_log.log(
                AuditEntry {
                    timestamp: now_s,
                    node_id,
                    action: String::from_str(action_name),
                    result: AuditResult::Denied,
                    details: String::from_str("Permission denied"),
                },
            );
            return false;
        }
        self.audit_log.log(
            AuditEntry {
                timestamp: now_s,
                node_id,
                action: String::from_str(action_name),
                result: AuditResult::Allowed,
                details: String::from_str("Success"),
            },
        );
        true
    }
}

} // verus!
