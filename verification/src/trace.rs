//! Causal tracing: the chain of events leading to any state change.
//!
//! When the digest comparison ever fails, the causal chain is what explains
//! why; the trace keeps a bounded ring of recent events with their causal
//! parents and Lamport ordering.

use vstd::prelude::*;

verus! {

/// One event in the causal chain.
#[derive(Debug)]
pub struct TraceEvent {
    /// Unique event identifier.
    pub id: u64,
    /// Lamport timestamp, for causal ordering.
    pub lamport_clock: u64,
    /// Wall-clock time (supplied by the embedding driver), for reading.
    pub timestamp: u64,
    /// Node that generated the event.
    pub node_id: u64,
    /// What happened.
    pub event_type: EventType,
    /// The events that caused this one.
    pub parents: Vec<u64>,
    /// State digest before the event, once known.
    pub state_before: Option<[u8; 32]>,
    /// State digest after the event, once known.
    pub state_after: Option<[u8; 32]>,
}

/// The kinds of events a trace records.
#[derive(Debug, Clone)]
pub enum EventType {
    /// A state transition, rendered as text.
    Transition { transition: String },
    /// A message arrived.
    NetworkReceive { from: u64, message_type: String },
    /// A message was sent.
    NetworkSend { to: u64, message_type: String },
    /// A digest comparison.
    Verification { passed: bool, expected_hash: [u8; 32], actual_hash: [u8; 32] },
    /// A timer fired.
    TimerTick { timer_id: String },
}

impl Clone for TraceEvent {
    /// A copy with the same identity, ordering and origin.
    fn clone(&self) -> (r: Self)
        ensures
            r.id == self.id,
            r.lamport_clock == self.lamport_clock,
            r.timestamp == self.timestamp,
            r.node_id == self.node_id,
    {
        TraceEvent {
            id: self.id,
            lamport_clock: self.lamport_clock,
            timestamp: self.timestamp,
            node_id: self.node_id,
            event_type: self.event_type.clone(),
            parents: crate::clone_vec_u64(&self.parents),
            state_before: self.state_before,
            state_after: self.state_after,
        }
    }
}

/// A bounded ring of recent events.
pub struct CausalTrace {
    /// The retained events, oldest first.
    pub events: Vec<TraceEvent>,
    /// Bound on the ring.
    max_events: usize,
    next_id: u64,
    /// Current Lamport clock.
    pub lamport_clock: u64,
    node_id: u64,
    /// Wall-clock time of the next recorded event, set by the driver.
    now_us: u64,
}

impl CausalTrace {
    pub closed spec fn spec_events(self) -> Seq<TraceEvent> {
        self.events@
    }

    pub closed spec fn spec_max(self) -> usize {
        self.max_events
    }

    pub closed spec fn spec_clock(self) -> u64 {
        self.lamport_clock
    }

    pub fn new(node_id: u64, max_events: usize) -> (r: CausalTrace)
        ensures
            r.spec_events().len() == 0,
            r.spec_clock() == 0,
            r.spec_max() == max_events,
    {
        CausalTrace {
            events: Vec::new(),
            max_events,
            next_id: 0,
            lamport_clock: 0,
            node_id,
            now_us: 0,
        }
    }

    /// Tell the trace the current wall-clock time, for the next events.
    pub fn set_now(&mut self, now_us: u64)
        ensures
            final(self).spec_events() == old(self).spec_events(),
            final(self).spec_clock() == old(self).spec_clock(),
    {
        self.now_us = now_us;
    }

    /// Record an event, advancing the Lamport clock; the oldest event falls
    /// out once the ring is full. Returns the event's identifier.
    pub fn record(&mut self, event_type: EventType, parents: Vec<u64>) -> (id: u64)
        requires
            old(self).spec_clock() < u64::MAX,
        ensures
            final(self).spec_clock() == old(self).spec_clock() + 1,
            final(self).spec_events().len() >= 1,
            final(self).spec_events().len() <= if old(self).spec_max() > 0 {
                old(self).spec_max() as int
            } else {
                1int
            },
            final(self).spec_events().last().id == id,
            final(self).spec_events().last().lamport_clock == final(self).spec_clock(),
    {
        self.lamport_clock = self.lamport_clock + 1;
        let event = TraceEvent {
            id: self.next_id,
            lamport_clock: self.lamport_clock,
            timestamp: self.now_us,
            node_id: self.node_id,
            event_type,
            parents,
            state_before: None,
            state_after: None,
        };
        let id = self.next_id;
        if self.next_id < u64::MAX {
            self.next_id = self.next_id + 1;
        }
        while self.events.len() >= self.max_events && self.events.len() > 0
            invariant
                self.max_events == old(self).spec_max(),
                self.lamport_clock == old(self).spec_clock() + 1,
            decreases self.events@.len(),
        {
            self.events.remove(0);
        }
        self.events.push(event);
        id
    }

    /// Attach the before/after digests to a recorded event.
    pub fn set_state_hashes(&mut self, event_id: u64, before: [u8; 32], after: [u8; 32])
        ensures
            final(self).spec_events().len() == old(self).spec_events().len(),
    {
        let n = self.events.len();
        let mut i: usize = n;
        while i > 0
            invariant
                0 <= i <= n,
                n == self.events@.len(),
                self.events@.len() == old(self).spec_events().len(),
            decreases i,
        {
            i = i - 1;
            if self.events[i].id == event_id {
                let mut e = self.events[i].clone();
                e.state_before = Some(before);
                e.state_after = Some(after);
                self.events[i] = e;
                return ;
            }
        }
    }

    /// All retained ancestors of an event, in Lamport order.
    pub fn get_causal_chain(&self, event_id: u64) -> (chain: Vec<TraceEvent>)
    {
        let mut chain: Vec<TraceEvent> = Vec::new();
        let mut visited: Vec<u64> = Vec::new();
        let mut stack: Vec<u64> = Vec::new();
        stack.push(event_id);
        let cap: u64 = u64::MAX;
        let mut iters: u64 = 0;
        loop
            invariant
                iters <= cap,
            decreases cap - iters,
        {
            if iters >= cap {
                break ;
            }
            iters = iters + 1;
            let id = match stack.pop() {
                Some(x) => x,
                None => {
                    break ;
                },
            };
            if crate::vec_contains_u64(&visited, id) {
                continue ;
            }
            visited.push(id);
            let n = self.events.len();
            let mut i: usize = 0;
            while i < n
                invariant
                    0 <= i <= n,
                    n == self.events@.len(),
                decreases n - i,
            {
                if self.events[i].id == id {
                    chain.push(self.events[i].clone());
                    let m = self.events[i].parents.len();
                    let mut j: usize = 0;
                    while j < m
                        invariant
                            0 <= j <= m,
                            i < n,
                            n == self.events@.len(),
                            m == self.events@[i as int].parents@.len(),
                        decreases m - j,
                    {
                        let p = self.events[i].parents[j];
                        if !crate::vec_contains_u64(&visited, p) {
                            stack.push(p);
                        }
                        j = j + 1;
                    }
                }
                i = i + 1;
            }
        }
        sort_by_lamport(chain)
    }

    /// The most recent failed digest comparison, if one is retained.
    pub fn find_divergence(&self) -> (r: Option<&TraceEvent>)
        ensures
            match r {
                Some(e) => e.event_type matches EventType::Verification { passed, .. } && !passed,
                None => true,
            },
    {
        let n = self.events.len();
        let mut i: usize = n;
        while i > 0
            invariant
                0 <= i <= n,
                n == self.events@.len(),
            decreases i,
        {
            i = i - 1;
            match &self.events[i].event_type {
                EventType::Verification { passed, .. } => {
                    if !*passed {
                        return Some(&self.events[i]);
                    }
                },
                _ => {},
            }
        }
        None
    }

    /// A copy of every retained event, in order.
    pub fn export(&self) -> (r: Vec<TraceEvent>)
        ensures
            r@.len() == self.spec_events().len(),
    {
        let n = self.events.len();
        let mut out: Vec<TraceEvent> = Vec::new();
        let mut i: usize = 0;
        while i < n
            invariant
                0 <= i <= n,
                n == self.events@.len(),
                out@.len() == i,
            decreases n - i,
        {
            out.push(self.events[i].clone());
            i = i + 1;
        }
        out
    }
}

/// Orders events by Lamport clock, ascending (insertion sort).
pub fn sort_by_lamport(events: Vec<TraceEvent>) -> (r: Vec<TraceEvent>)
    ensures
        r@.len() == events@.len(),
        forall|i: int, j: int|
            0 <= i < j < r@.len() ==> (#[trigger] r@[i]).lamport_clock <= (
            #[trigger] r@[j]).lamport_clock,
{
    let n = events.len();
    let mut out: Vec<TraceEvent> = Vec::new();
    let mut events = events;
    let mut i: usize = 0;
    while i < n
        invariant
            0 <= i <= n,
            n == events@.len(),
            out@.len() == i,
            forall|p: int, q: int|
                0 <= p < q < out@.len() ==> (#[trigger] out@[p]).lamport_clock <= (
                #[trigger] out@[q]).lamport_clock,
        decreases n - i,
    {
        let e = events[i].clone();
        // find the insertion point
        let m = out.len();
        let mut p: usize = 0;
        while p < m && out[p].lamport_clock <= e.lamport_clock
            invariant
                0 <= p <= m,
                m == out@.len(),
                forall|q: int| 0 <= q < p ==> (#[trigger] out@[q]).lamport_clock
                    <= e.lamport_clock,
            decreases m - p,
        {
            p = p + 1;
        }
        let ghost before = out@;
        out.insert(p, e);
        proof {
            assert forall|a: int, b: int| 0 <= a < b < out@.len() implies (
            #[trigger] out@[a]).lamport_clock <= (#[trigger] out@[b]).lamport_clock by {
                if a < p {
                    assert(out@[a] == before[a]);
                }
                if a > p {
                    assert(out@[a] == before[a - 1]);
                }
                if b < p {
                    assert(out@[b] == before[b]);
                }
                if b > p {
                    assert(out@[b] == before[b - 1]);
                }
            }
        }
        i = i + 1;
    }
    out
}

/// Traces from several nodes, merged by Lamport order.
pub struct DistributedTrace {
    node_traces: Vec<(u64, Vec<TraceEvent>)>,
}

impl DistributedTrace {
    pub closed spec fn spec_traces(self) -> Seq<(u64, Vec<TraceEvent>)> {
        self.node_traces@
    }

    pub fn new() -> (r: DistributedTrace)
        ensures
            r.spec_traces().len() == 0,
    {
        DistributedTrace { node_traces: Vec::new() }
    }

    /// Add one node's exported trace.
    pub fn add_node_trace(&mut self, node_id: u64, trace: Vec<TraceEvent>)
        ensures
            final(self).spec_traces().len() == old(self).spec_traces().len() + 1,
    {
        self.node_traces.push((node_id, trace));
    }

    /// Every node's events in one Lamport-ordered sequence.
    pub fn merge(&self) -> (r: Vec<TraceEvent>)
        ensures
            forall|i: int, j: int|
                0 <= i < j < r@.len() ==> (#[trigger] r@[i]).lamport_clock <= (
                #[trigger] r@[j]).lamport_clock,
    {
        let n = self.node_traces.len();
        let mut all: Vec<TraceEvent> = Vec::new();
        let mut i: usize = 0;
        while i < n
            invariant
                0 <= i <= n,
                n == self.node_traces@.len(),
            decreases n - i,
        {
            let m = self.node_traces[i].1.len();
            let mut j: usize = 0;
            while j < m
                invariant
                    0 <= j <= m,
                    i < n,
                    n == self.node_traces@.len(),
                    m == self.node_traces@[i as int].1@.len(),
                decreases m - j,
            {
                all.push(self.node_traces[i].1[j].clone());
                j = j + 1;
            }
            i = i + 1;
        }
        sort_by_lamport(all)
    }

    /// Pairs of events with the same Lamport clock on different nodes:
    /// concurrent work, the potential races.
    pub fn find_races(&self) -> (r: Vec<(TraceEvent, TraceEvent)>)
        ensures
            forall|k: int|
                0 <= k < r@.len() ==> (#[trigger] r@[k]).0.lamport_clock == r@[k].1.lamport_clock
                    && r@[k].0.node_id != r@[k].1.node_id,
    {
        let merged = self.merge();
        let n = merged.len();
        let mut races: Vec<(TraceEvent, TraceEvent)> = Vec::new();
        let mut i: usize = 0;
        while i < n
            invariant
                0 <= i <= n,
                n == merged@.len(),
                forall|k: int|
                    0 <= k < races@.len() ==> (#[trigger] races@[k]).0.lamport_clock
                        == races@[k].1.lamport_clock && races@[k].0.node_id != races@[k].1.node_id,
            decreases n - i,
        {
            let mut j: usize = i + 1;
            while j < n
                invariant
                    i < j <= n,
                    i < n,
                    n == merged@.len(),
                    forall|k: int|
                        0 <= k < races@.len() ==> (#[trigger] races@[k]).0.lamport_clock
                            == races@[k].1.lamport_clock && races@[k].0.node_id
                            != races@[k].1.node_id,
                decreases n - j,
            {
                if merged[i].lamport_clock == merged[j].lamport_clock && merged[i].node_id
                    != merged[j].node_id {
                    let ghost pre = races@;
                    let a = merged[i].clone();
                    let b = merged[j].clone();
                    let ghost ga = a;
                    let ghost gb = b;
                    races.push((a, b));
                    proof {
                        assert(races@ == pre.push((ga, gb)));
                        assert forall|k: int|
                            0 <= k < races@.len() implies (#[trigger] races@[k]).0.lamport_clock
                            == races@[k].1.lamport_clock && races@[k].0.node_id
                            != races@[k].1.node_id by {
                            if k < pre.len() {
                                assert(races@[k] == pre[k]);
                            } else {
                                assert(races@[k] == (ga, gb));
                            }
                        }
                    }
                }
                j = j + 1;
            }
            i = i + 1;
        }
        races
    }
}

} // verus!
