//! Throughput machinery: batching, caching, pipelining.

use crate::{StateHash, Transition};
use vstd::prelude::*;

verus! {

/// Collects transitions into batches of a fixed size.
pub struct BatchProcessor {
    pending: Vec<Transition>,
    batch_size: usize,
    max_wait_ms: u64,
    last_flush_ms: u64,
}

impl BatchProcessor {
    pub closed spec fn spec_pending(self) -> Seq<Transition> {
        self.pending@
    }

    pub closed spec fn spec_batch_size(self) -> usize {
        self.batch_size
    }

    pub fn new(batch_size: usize, max_wait_ms: u64) -> (r: BatchProcessor)
        ensures
            r.spec_pending().len() == 0,
            r.spec_batch_size() == batch_size,
    {
        BatchProcessor { pending: Vec::new(), batch_size, max_wait_ms, last_flush_ms: 0 }
    }

    /// Add a transition; a full batch is handed back.
    pub fn add(&mut self, transition: Transition) -> (r: Option<Vec<Transition>>)
        ensures
            match r {
                Some(batch) => {
                    &&& batch@ == old(self).spec_pending().push(transition)
                    &&& batch@.len() >= old(self).spec_batch_size()
                    &&& final(self).spec_pending().len() == 0
                },
                None => {
                    &&& final(self).spec_pending() == old(self).spec_pending().push(transition)
                    &&& final(self).spec_pending().len() < old(self).spec_batch_size()
                },
            },
    {
        self.pending.push(transition);
        if self.pending.len() >= self.batch_size {
            self.flush()
        } else {
            None
        }
    }

    /// Hand back whatever is pending.
    pub fn flush(&mut self) -> (r: Option<Vec<Transition>>)
        ensures
            match r {
                Some(batch) => batch@ == old(self).spec_pending() && batch@.len() > 0 && final(self).spec_pending().len() == 0,
                None => old(self).spec_pending().len() == 0 && final(self).spec_pending().len()
                    == 0,
            },
    {
        if self.pending.len() == 0 {
            return None;
        }
        let mut batch: Vec<Transition> = Vec::new();
        core::mem::swap(&mut batch, &mut self.pending);
        Some(batch)
    }
}

/// Remembers recently computed state digests by clock value.
pub struct StateCache {
    entries: Vec<(u64, StateHash)>,
    max_entries: usize,
}

impl StateCache {
    pub closed spec fn spec_entries(self) -> Seq<(u64, StateHash)> {
        self.entries@
    }

    pub fn new(max_entries: usize) -> (r: StateCache)
        ensures
            r.spec_entries().len() == 0,
    {
        StateCache { entries: Vec::new(), max_entries }
    }

    /// Look a digest up by clock.
    pub fn get(&self, clock: u64) -> (r: Option<StateHash>)
        ensures
            match r {
                Some(h) => exists|i: int|
                    0 <= i < self.spec_entries().len() && (#[trigger] self.spec_entries()[i]) == (
                    clock,
                    h,
                ),
                None => forall|i: int|
                    0 <= i < self.spec_entries().len() ==> (#[trigger] self.spec_entries()[i]).0
                        != clock,
            },
    {
        let n = self.entries.len();
        let mut i: usize = 0;
        while i < n
            invariant
                0 <= i <= n,
                n == self.spec_entries().len(),
                forall|j: int| 0 <= j < i ==> (#[trigger] self.spec_entries()[j]).0 != clock,
            decreases n - i,
        {
            if self.entries[i].0 == clock {
                return Some(self.entries[i].1);
            }
            i = i + 1;
        }
        None
    }

    /// Remember a digest, evicting the oldest entry when full.
    pub fn put(&mut self, clock: u64, hash: StateHash)
        ensures
            final(self).spec_entries().len() >= 1,
            final(self).spec_entries().last() == (clock, hash),
    {
        if self.entries.len() >= self.max_entries && self.entries.len() > 0 {
            self.entries.remove(0);
        }
        self.entries.push((clock, hash));
    }

    /// Forget everything.
    pub fn clear(&mut self)
        ensures
            final(self).spec_entries().len() == 0,
    {
        self.entries.clear();
    }
}

/// One stage of a byte-processing pipeline.
pub trait PipelineStage {
    /// Process one buffer into the next.
    fn process(&self, input: Vec<u8>) -> Vec<u8>;
}

/// A chain of processing stages applied in order.
pub struct Pipeline<S> {
    stages: Vec<S>,
}

impl<S: PipelineStage> Pipeline<S> {
    pub closed spec fn spec_len(self) -> int {
        self.stages@.len() as int
    }

    pub fn new() -> (r: Pipeline<S>)
        ensures
            r.spec_len() == 0,
    {
        Pipeline { stages: Vec::new() }
    }

    pub fn add_stage(&mut self, stage: S)
        ensures
            final(self).spec_len() == old(self).spec_len() + 1,
    {
        self.stages.push(stage);
    }

    /// Run the input through every stage in order.
    pub fn process(&self, input: Vec<u8>) -> Vec<u8> {
        let n = self.stages.len();
        let mut cur = input;
        let mut i: usize = 0;
        while i < n
            invariant
                0 <= i <= n,
                n == self.stages@.len(),
            decreases n - i,
        {
            cur = self.stages[i].process(cur);
            i = i + 1;
        }
        cur
    }
}

/// Applies a chunk of transitions in order, recording each digest; the
/// embedding driver may run several of these over disjoint chunks.
pub struct ParallelVerifier {
    threads: usize,
}

impl ParallelVerifier {
    pub fn new(threads: usize) -> (r: ParallelVerifier)
    {
        ParallelVerifier { threads }
    }

    /// Apply the transitions in order to the state, returning each step's
    /// digest next to its transition.
    pub fn verify_chunk(&self, transitions: Vec<Transition>, initial_state: crate::State) -> (r:
        Option<Vec<(Transition, StateHash)>>)
        ensures
            r is Some ==> r.unwrap()@.len() == transitions@.len(),
    {
        let n = transitions.len();
        let mut state = initial_state;
        let mut out: Vec<(Transition, StateHash)> = Vec::new();
        let mut transitions = transitions;
        let mut i: usize = 0;
        while i < n
            invariant
                0 <= i <= n,
                n == transitions@.len(),
                out@.len() == i,
            decreases n - i,
        {
            if state.clock == u64::MAX {
                return None;
            }
            let t = transitions[i].clone();
            let next = t.apply(state);
            let hash = next.hash();
            out.push((t, hash));
            state = next;
            i = i + 1;
        }
        Some(out)
    }
}

/// Adjusts the batch size to the observed latency.
pub struct AdaptiveBatcher {
    current_size: usize,
    min_size: usize,
    max_size: usize,
    latencies_us: Vec<u64>,
    window: usize,
}

impl AdaptiveBatcher {
    pub closed spec fn spec_size(self) -> usize {
        self.current_size
    }

    pub closed spec fn spec_min(self) -> usize {
        self.min_size
    }

    pub closed spec fn spec_max(self) -> usize {
        self.max_size
    }

    pub fn new(min_size: usize, max_size: usize) -> (r: AdaptiveBatcher)
        ensures
            r.spec_size() == min_size,
            r.spec_min() == min_size,
            r.spec_max() == max_size,
    {
        AdaptiveBatcher {
            current_size: min_size,
            min_size,
            max_size,
            latencies_us: Vec::new(),
            window: 10,
        }
    }

    /// Record one batch's latency and adjust: low latency grows the batch,
    /// high latency shrinks it, always within the configured bounds.
    pub fn record_latency(&mut self, latency_us: u64)
        requires
            old(self).spec_min() <= old(self).spec_size() <= old(self).spec_max()
                || old(self).spec_min() > old(self).spec_max(),
        ensures
            old(self).spec_min() <= old(self).spec_max() ==> old(self).spec_min() <= final(self).spec_size() <= old(self).spec_max(),
    {
        self.latencies_us.push(latency_us);
        if self.latencies_us.len() > self.window {
            self.latencies_us.remove(0);
        }
        if self.latencies_us.len() < self.window {
            return ;
        }
        // average over the window
        let n = self.latencies_us.len();
        let mut sum: u64 = 0;
        let mut i: usize = 0;
        while i < n
            invariant
                0 <= i <= n,
                n == self.latencies_us@.len(),
            decreases n - i,
        {
            let v = self.latencies_us[i];
            if sum <= u64::MAX - v {
                sum = sum + v;
            } else {
                sum = u64::MAX;
            }
            i = i + 1;
        }
        if n == 0 {
            return ;
        }
        let avg = sum / (n as u64);
        if avg < 10000 && self.current_size < self.max_size {
            let grown = if self.current_size <= usize::MAX / 12 {
                self.current_size * 12 / 10
            } else {
                self.max_size
            };
            self.current_size = if grown > self.max_size {
                self.max_size
            } else if grown < self.min_size {
                self.min_size
            } else {
                grown
            };
        } else if avg > 50000 && self.current_size > self.min_size {
            let shrunk = self.current_size - self.current_size / 5;
            self.current_size = if shrunk < self.min_size {
                self.min_size
            } else {
                shrunk
            };
        }
    }

    /// The current batch size.
    pub fn batch_size(&self) -> (r: usize)
        ensures
            r == self.spec_size(),
    {
        self.current_size
    }
}

/// Latency summary of one profiled operation, in microseconds.
#[derive(Debug, Clone)]
pub struct ProfileStats {
    pub count: usize,
    pub avg_us: u64,
    pub p50_us: u64,
    pub p95_us: u64,
    pub p99_us: u64,
    pub max_us: u64,
}

} // verus!
