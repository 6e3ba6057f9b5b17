//! Geo-distributed deployment: regions, leaderless ordering, and replicated
//! registers.
//!
//! Cross-region agreement orders commands by conflict dependencies instead
//! of through a single leader, so a round trip to one far region is not on
//! every path.

use crate::codec::TransitionModel;
use crate::{NodeId, State, Transition};
use vstd::prelude::*;

verus! {

/// A geographic region.
#[derive(Debug, Clone, Copy, PartialEq, Eq, Structural)]
pub enum Region {
    USEast,
    USWest,
    EUWest,
    APSoutheast,
    APNortheast,
    SAEast,
}

/// The nominal latency between two regions, milliseconds.
pub open spec fn spec_latency(a: Region, b: Region) -> u64 {
    if a == b {
        1
    } else if (a == Region::USEast && b == Region::USWest) || (a == Region::USWest && b
        == Region::USEast) {
        60
    } else if (a == Region::USEast && b == Region::EUWest) || (a == Region::EUWest && b
        == Region::USEast) {
        80
    } else if (a == Region::EUWest && b == Region::APSoutheast) || (a == Region::APSoutheast && b
        == Region::EUWest) {
        160
    } else if (a == Region::USWest && b == Region::APNortheast) || (a == Region::APNortheast && b
        == Region::USWest) {
        100
    } else {
        200
    }
}

impl Region {
    /// Estimated latency to another region, milliseconds.
    pub fn latency_to(&self, other: Region) -> (r: u64)
        ensures
            r == spec_latency(*self, other),
    {
        let a = *self;
        if a == other {
            1
        } else if (a == Region::USEast && other == Region::USWest) || (a == Region::USWest && other
            == Region::USEast) {
            60
        } else if (a == Region::USEast && other == Region::EUWest) || (a == Region::EUWest && other
            == Region::USEast) {
            80
        } else if (a == Region::EUWest && other == Region::APSoutheast) || (a
            == Region::APSoutheast && other == Region::EUWest) {
            160
        } else if (a == Region::USWest && other == Region::APNortheast) || (a
            == Region::APNortheast && other == Region::USWest) {
            100
        } else {
            200
        }
    }

    /// Coarse proximity for routing: same region first, then close pairs.
    pub fn proximity(&self, other: Region) -> (r: usize)
        ensures
            *self == other ==> r == 0,
            *self != other ==> r >= 1,
    {
        let a = *self;
        if a == other {
            0
        } else if (a == Region::USEast && other == Region::USWest) || (a == Region::USWest && other
            == Region::USEast) {
            1
        } else if a == Region::EUWest && other == Region::APNortheast {
            2
        } else {
            3
        }
    }
}

/// The layout of a multi-region cluster.
#[derive(Debug, Clone)]
pub struct MultiRegionConfig {
    /// Nodes per region.
    pub regions: Vec<(Region, Vec<NodeId>)>,
    /// Where writes go.
    pub replication: ReplicationStrategy,
    /// What readers may observe.
    pub consistency: ConsistencyLevel,
    /// Batch and compress wide-area traffic.
    pub wan_optimization: bool,
}

/// Where writes are replicated.
#[derive(Debug, Clone, Copy)]
pub enum ReplicationStrategy {
    /// Every region.
    Global,
    /// The nearest few regions.
    NearestN(usize),
    /// A fixed set.
    Custom,
}

/// What readers may observe.
#[derive(Debug, Clone, Copy)]
pub enum ConsistencyLevel {
    Strong,
    Causal,
    Eventual,
}

/// A command instance's progress through agreement.
#[derive(Debug, Clone, Copy, PartialEq, Eq, Structural)]
pub enum InstanceStatus {
    PreAccepted,
    Accepted,
    Committed,
    Executed,
}

/// One command with its conflict dependencies.
pub struct Instance {
    pub id: (NodeId, u64),
    pub command: Transition,
    pub status: InstanceStatus,
    pub deps: Vec<(NodeId, u64)>,
    pub seq: u64,
}

/// Whether two commands conflict: they touch the same key.
pub open spec fn spec_conflicts(a: TransitionModel, b: TransitionModel) -> bool {
    match (a, b) {
        (TransitionModel::Write { key: k1, .. }, TransitionModel::Write { key: k2, .. }) => k1
            == k2,
        (TransitionModel::Write { key: k1, .. }, TransitionModel::Delete { key: k2 }) => k1 == k2,
        (TransitionModel::Delete { key: k1 }, TransitionModel::Write { key: k2, .. }) => k1 == k2,
        (TransitionModel::Delete { key: k1 }, TransitionModel::Delete { key: k2 }) => k1 == k2,
        _ => false,
    }
}

/// Decides `spec_conflicts`.
pub fn conflicts(a: &Transition, b: &Transition) -> (r: bool)
    ensures
        r == spec_conflicts(a@, b@),
{
    match (a, b) {
        (Transition::Write { key: k1, .. }, Transition::Write { key: k2, .. }) => crate::kv::str_eq(
            k1.as_str(),
            k2.as_str(),
        ),
        (Transition::Write { key: k1, .. }, Transition::Delete { key: k2 }) => crate::kv::str_eq(
            k1.as_str(),
            k2.as_str(),
        ),
        (Transition::Delete { key: k1 }, Transition::Write { key: k2, .. }) => crate::kv::str_eq(
            k1.as_str(),
            k2.as_str(),
        ),
        (Transition::Delete { key: k1 }, Transition::Delete { key: k2 }) => crate::kv::str_eq(
            k1.as_str(),
            k2.as_str(),
        ),
        _ => false,
    }
}

/// A message of the leaderless agreement protocol.
#[derive(Debug)]
pub struct EPaxosMessage {
    pub from: NodeId,
    pub to: NodeId,
    pub payload: EPaxosPayload,
}

/// The protocol's phases.
#[derive(Debug)]
pub enum EPaxosPayload {
    PreAccept { instance_id: (NodeId, u64), command: Transition, deps: Vec<(NodeId, u64)>, seq: u64 },
    PreAcceptOk { instance_id: (NodeId, u64), deps: Vec<(NodeId, u64)>, seq: u64 },
    Accept { instance_id: (NodeId, u64), deps: Vec<(NodeId, u64)>, seq: u64 },
    AcceptOk { instance_id: (NodeId, u64) },
    Commit { instance_id: (NodeId, u64), deps: Vec<(NodeId, u64)>, seq: u64 },
}

/// A node of the leaderless protocol: any node may propose; conflicting
/// commands order through explicit dependencies.
pub struct EPaxosNode {
    id: NodeId,
    region: Region,
    state: State,
    instances: Vec<Instance>,
    config: MultiRegionConfig,
}

impl EPaxosNode {
    pub closed spec fn spec_instances(self) -> Seq<Instance> {
        self.instances@
    }

    pub fn new(id: NodeId, region: Region, config: MultiRegionConfig) -> (r: EPaxosNode)
        ensures
            r.spec_instances().len() == 0,
    {
        EPaxosNode { id, region, state: State::new(), instances: Vec::new(), config }
    }

    /// Propose a command: record it pre-accepted with its conflict
    /// dependencies and ask the fast quorum. No leader is involved.
    pub fn propose(&mut self, command: Transition) -> (msgs: Vec<EPaxosMessage>)
        ensures
            final(self).spec_instances().len() == old(self).spec_instances().len() + 1,
    {
        let instance_id = (self.id, self.instances.len() as u64);
        // dependencies: every recorded instance whose command touches the
        // same key
        let n = self.instances.len();
        let mut deps: Vec<(NodeId, u64)> = Vec::new();
        let mut i: usize = 0;
        while i < n
            invariant
                0 <= i <= n,
                n == self.instances@.len(),
            decreases n - i,
        {
            if conflicts(&command, &self.instances[i].command) {
                deps.push(self.instances[i].id);
            }
            i = i + 1;
        }
        let quorum = self.fast_quorum();
        let mut msgs: Vec<EPaxosMessage> = Vec::new();
        let qn = quorum.len();
        let mut q: usize = 0;
        while q < qn
            invariant
                0 <= q <= qn,
                qn == quorum@.len(),
                msgs@.len() == q,
            decreases qn - q,
        {
            let mut deps_copy: Vec<(NodeId, u64)> = Vec::new();
            let dn = deps.len();
            let mut d: usize = 0;
            while d < dn
                invariant
                    0 <= d <= dn,
                    dn == deps@.len(),
                decreases dn - d,
            {
                deps_copy.push(deps[d]);
                d = d + 1;
            }
            msgs.push(
                EPaxosMessage {
                    from: self.id,
                    to: quorum[q],
                    payload: EPaxosPayload::PreAccept {
                        instance_id,
                        command: command.clone(),
                        deps: deps_copy,
                        seq: 0,
                    },
                },
            );
            q = q + 1;
        }
        self.instances.push(
            Instance { id: instance_id, command, status: InstanceStatus::PreAccepted, deps, seq: 0 },
        );
        msgs
    }

    /// The nearest peers forming a fast quorum: every other node, nearest
    /// regions first, up to one failure bound and a half.
    fn fast_quorum(&self) -> (r: Vec<NodeId>)
    {
        // collect all peers with their regions
        let mut peers: Vec<(NodeId, Region)> = Vec::new();
        let mut total: usize = 0;
        let rn = self.config.regions.len();
        let mut ri: usize = 0;
        while ri < rn
            invariant
                0 <= ri <= rn,
                rn == self.config.regions@.len(),
            decreases rn - ri,
        {
            let nn = self.config.regions[ri].1.len();
            let region = self.config.regions[ri].0;
            let mut ni: usize = 0;
            while ni < nn
                invariant
                    0 <= ni <= nn,
                    ri < rn,
                    rn == self.config.regions@.len(),
                    nn == self.config.regions@[ri as int].1@.len(),
                decreases nn - ni,
            {
                let id = self.config.regions[ri].1[ni];
                if total < usize::MAX {
                    total = total + 1;
                }
                if id != self.id {
                    peers.push((id, region));
                }
                ni = ni + 1;
            }
            ri = ri + 1;
        }
        let f = if total > 0 {
            (total - 1) / 2
        } else {
            0
        };
        let quorum_size = f + (f + 1) / 2;
        // pick the nearest peers, one at a time
        let mut out: Vec<NodeId> = Vec::new();
        while out.len() < quorum_size && peers.len() > 0
            invariant
                true,
            decreases peers@.len(),
        {
            let m = peers.len();
            let mut best: usize = 0;
            let mut best_prox = self.region.proximity(peers[0].1);
            let mut j: usize = 1;
            while j < m
                invariant
                    1 <= j <= m,
                    m == peers@.len(),
                    m > 0,
                    best < m,
                decreases m - j,
            {
                let prox = self.region.proximity(peers[j].1);
                if prox < best_prox {
                    best = j;
                    best_prox = prox;
                }
                j = j + 1;
            }
            let chosen = peers.remove(best);
            out.push(chosen.0);
        }
        out
    }
}

/// A last-write-wins replicated register: concurrent updates merge without
/// coordination, the newer stamp winning, node identifier breaking ties.
#[derive(Debug, Clone)]
pub struct LWWRegister<T> {
    value: T,
    timestamp: u64,
    node_id: NodeId,
}

impl<T> LWWRegister<T> {
    pub closed spec fn spec_value(self) -> T {
        self.value
    }

    pub closed spec fn spec_stamp(self) -> (u64, NodeId) {
        (self.timestamp, self.node_id)
    }

    /// A fresh register; its stamp starts at zero and advances on update.
    pub fn new(value: T, node_id: NodeId) -> (r: LWWRegister<T>)
        ensures
            r.spec_value() == value,
            r.spec_stamp().0 == 0,
    {
        LWWRegister { value, timestamp: 0, node_id }
    }

    /// Write a new value with a fresh stamp.
    pub fn update(&mut self, value: T)
        ensures
            final(self).spec_value() == value,
            final(self).spec_stamp().0 >= old(self).spec_stamp().0,
    {
        self.value = value;
        if self.timestamp < u64::MAX {
            self.timestamp = self.timestamp + 1;
        }
    }

    /// Read the current value.
    pub fn get(&self) -> (r: &T)
        ensures
            *r == self.spec_value(),
    {
        &self.value
    }

    /// Whether this replica's write wins over the other's.
    pub fn dominates(&self, other: &LWWRegister<T>) -> (r: bool)
        ensures
            r == (self.spec_stamp().0 > other.spec_stamp().0 || (self.spec_stamp().0
                == other.spec_stamp().0 && self.spec_stamp().1 > other.spec_stamp().1)),
    {
        self.timestamp > other.timestamp || (self.timestamp == other.timestamp && self.node_id
            > other.node_id)
    }

    /// Merge another replica's register into this one: the dominant write
    /// survives on both sides, so merging is commutative and idempotent.
    pub fn merge(&mut self, other: &LWWRegister<T>) where T: Clone
        ensures
            final(self).spec_stamp() == if (other.spec_stamp().0 > old(self).spec_stamp().0 || (
                other.spec_stamp().0 == old(self).spec_stamp().0 && other.spec_stamp().1 > old(
                self,
            ).spec_stamp().1)) {
                other.spec_stamp()
            } else {
                old(self).spec_stamp()
            },
    {
        if other.timestamp > self.timestamp || (other.timestamp == self.timestamp && other.node_id
            > self.node_id) {
            self.value = other.value.clone();
            self.timestamp = other.timestamp;
            self.node_id = other.node_id;
        }
    }
}

/// Routes client requests to the closest region.
pub struct GeoRouter {
}

impl GeoRouter {
    pub fn new() -> (r: GeoRouter)
    {
        GeoRouter {  }
    }

    /// The region with the lowest latency from the client.
    pub fn route(&self, client_region: Region, regions: &Vec<Region>) -> (r: Option<Region>)
        ensures
            regions@.len() > 0 ==> (r matches Some(best) && forall|i: int|
                0 <= i < regions@.len() ==> spec_latency(client_region, best) <= spec_latency(
                    client_region,
                    #[trigger] regions@[i],
                )),
            regions@.len() == 0 ==> r is None,
    {
        let n = regions.len();
        if n == 0 {
            return None;
        }
        let mut best = regions[0];
        let mut best_lat = client_region.latency_to(regions[0]);
        let mut i: usize = 1;
        while i < n
            invariant
                1 <= i <= n,
                n == regions@.len(),
                best_lat == spec_latency(client_region, best),
                forall|j: int|
                    0 <= j < i ==> best_lat <= spec_latency(client_region, #[trigger] regions@[j]),
            decreases n - i,
        {
            let lat = client_region.latency_to(regions[i]);
            if lat < best_lat {
                best = regions[i];
                best_lat = lat;
            }
            i = i + 1;
        }
        Some(best)
    }

    /// The closest `num_reads` regions, nearest first.
    pub fn multi_region_read(
        &self,
        client_region: Region,
        regions: &Vec<Region>,
        num_reads: usize,
    ) -> (r: Vec<Region>)
        ensures
            r@.len() <= num_reads,
            r@.len() <= regions@.len(),
    {
        // selection sort over a copy, by latency
        let n = regions.len();
        let mut pool: Vec<Region> = Vec::new();
        let mut i: usize = 0;
        while i < n
            invariant
                0 <= i <= n,
                n == regions@.len(),
                pool@.len() == i,
            decreases n - i,
        {
            pool.push(regions[i]);
            i = i + 1;
        }
        let mut out: Vec<Region> = Vec::new();
        while out.len() < num_reads && pool.len() > 0
            invariant
                out@.len() <= num_reads,
                out@.len() + pool@.len() == n,
            decreases pool@.len(),
        {
            // pick the closest remaining region
            let m = pool.len();
            let mut best: usize = 0;
            let mut best_lat = client_region.latency_to(pool[0]);
            let mut j: usize = 1;
            while j < m
                invariant
                    1 <= j <= m,
                    m == pool@.len(),
                    m > 0,
                    best < m,
                decreases m - j,
            {
                let lat = client_region.latency_to(pool[j]);
                if lat < best_lat {
                    best = j;
                    best_lat = lat;
                }
                j = j + 1;
            }
            let chosen = pool.remove(best);
            out.push(chosen);
        }
        out
    }
}

/// Batches wide-area messages per destination region.
pub struct WANOptimizer {
    compression: bool,
    batch_window_ms: u64,
    pending: Vec<(Region, Vec<Vec<u8>>)>,
}

impl WANOptimizer {
    pub closed spec fn spec_pending(self) -> Seq<(Region, Vec<Vec<u8>>)> {
        self.pending@
    }

    pub fn new() -> (r: WANOptimizer)
        ensures
            r.spec_pending().len() == 0,
    {
        WANOptimizer { compression: true, batch_window_ms: 10, pending: Vec::new() }
    }

    /// Queue a message for its region; batches are released by `flush`.
    pub fn optimize(&mut self, dest_region: Region, message: Vec<u8>) -> (r: Option<Vec<u8>>)
        ensures
            r is None,
            final(self).spec_pending().len() >= 1,
    {
        let mut pending: Vec<(Region, Vec<Vec<u8>>)> = Vec::new();
        core::mem::swap(&mut pending, &mut self.pending);
        let n = pending.len();
        let mut i: usize = 0;
        let mut slot: Option<usize> = None;
        while i < n
            invariant
                0 <= i <= n,
                n == pending@.len(),
                slot matches Some(s) ==> s < n,
            decreases n - i,
        {
            if pending[i].0 == dest_region {
                slot = Some(i);
            }
            i = i + 1;
        }
        match slot {
            Some(s) => {
                let (region, mut msgs) = pending.remove(s);
                msgs.push(message);
                pending.insert(s, (region, msgs));
            },
            None => {
                let mut msgs: Vec<Vec<u8>> = Vec::new();
                msgs.push(message);
                pending.push((dest_region, msgs));
            },
        }
        self.pending = pending;
        None
    }

    /// Concatenate a region's pending batch into one wire buffer.
    pub fn flush(&mut self, dest_region: Region) -> (r: Vec<u8>)
    {
        let n = self.pending.len();
        let mut out: Vec<u8> = Vec::new();
        let mut i: usize = 0;
        while i < n
            invariant
                0 <= i <= n,
                n == self.pending@.len(),
            decreases n - i,
        {
            if self.pending[i].0 == dest_region {
                let m = self.pending[i].1.len();
                let mut j: usize = 0;
                while j < m
                    invariant
                        0 <= j <= m,
                        i < n,
                        n == self.pending@.len(),
                        m == self.pending@[i as int].1@.len(),
                    decreases m - j,
                {
                    let b = crate::kv::clone_bytes(&self.pending[i].1[j]);
                    crate::codec::push_all(&mut out, &b);
                    j = j + 1;
                }
                self.pending.remove(i);
                return out;
            }
            i = i + 1;
        }
        out
    }
}

} // verus!
