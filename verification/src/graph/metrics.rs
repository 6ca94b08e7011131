//! Per-element execution counters.
use vstd::prelude::*;
use vstd::wrapping::u64_specs::wrapping_add;

verus! {

/// A point-in-time copy of one element's counters.
#[derive(Clone, Copy, Debug, PartialEq, Eq, Structural)]
pub struct ElementMetricsSnapshot {
    pub packets_processed: u64,
    pub packets_received: u64,
    pub packets_sent: u64,
    pub processing_latency_ns: u64,
    pub processing_latency_avg_ns: u64,
    pub processing_latency_max_ns: u64,
    pub queue_depth: usize,
    pub max_queue_depth: usize,
    pub drop_count: u64,
    pub backpressure_count: u64,
}

impl Default for ElementMetricsSnapshot {
    fn default() -> (r: Self)
        ensures
            r == (ElementMetricsSnapshot {
                packets_processed: 0,
                packets_received: 0,
                packets_sent: 0,
                processing_latency_ns: 0,
                processing_latency_avg_ns: 0,
                processing_latency_max_ns: 0,
                queue_depth: 0,
                max_queue_depth: 0,
                drop_count: 0,
                backpressure_count: 0,
            }),
    {
        ElementMetricsSnapshot {
            packets_processed: 0,
            packets_received: 0,
            packets_sent: 0,
            processing_latency_ns: 0,
            processing_latency_avg_ns: 0,
            processing_latency_max_ns: 0,
            queue_depth: 0,
            max_queue_depth: 0,
            drop_count: 0,
            backpressure_count: 0,
        }
    }
}

/// Receives per-node snapshots for exporters.
pub trait MetricsSink {
    fn record(&self, node: &str, metrics: &ElementMetricsSnapshot);
}

/// Running counters of one element. Counters wrap around on overflow;
/// maxima only grow.
pub struct ElementMetrics {
    packets_processed: u64,
    packets_received: u64,
    packets_sent: u64,
    processing_latency_ns: u64,
    processing_latency_max_ns: u64,
    queue_depth: usize,
    max_queue_depth: usize,
    drop_count: u64,
    backpressure_count: u64,
}

/// The raw counters of an [`ElementMetrics`].
pub ghost struct MetricsCounters {
    pub processed: u64,
    pub received: u64,
    pub sent: u64,
    pub latency_ns: u64,
    pub latency_max_ns: u64,
    pub queue_depth: usize,
    pub max_queue_depth: usize,
    pub drops: u64,
    pub backpressure: u64,
}

/// A latency in nanoseconds, saturated to `u64`.
pub open spec fn saturated_nanos(nanos: u128) -> u64 {
    if nanos <= u64::MAX {
        nanos as u64
    } else {
        u64::MAX
    }
}

/// The snapshot of a set of counters; the average is zero before any packet.
pub open spec fn snapshot_of(c: MetricsCounters) -> ElementMetricsSnapshot {
    ElementMetricsSnapshot {
        packets_processed: c.processed,
        packets_received: c.received,
        packets_sent: c.sent,
        processing_latency_ns: c.latency_ns,
        processing_latency_avg_ns: if c.processed == 0 {
            0
        } else {
            (c.latency_ns / c.processed) as u64
        },
        processing_latency_max_ns: c.latency_max_ns,
        queue_depth: c.queue_depth,
        max_queue_depth: c.max_queue_depth,
        drop_count: c.drops,
        backpressure_count: c.backpressure,
    }
}

impl View for ElementMetrics {
    type V = MetricsCounters;

    closed spec fn view(&self) -> MetricsCounters {
        MetricsCounters {
            processed: self.packets_processed,
            received: self.packets_received,
            sent: self.packets_sent,
            latency_ns: self.processing_latency_ns,
            latency_max_ns: self.processing_latency_max_ns,
            queue_depth: self.queue_depth,
            max_queue_depth: self.max_queue_depth,
            drops: self.drop_count,
            backpressure: self.backpressure_count,
        }
    }
}

impl ElementMetrics {
    pub fn new() -> (r: Self)
        ensures
            r@ == (MetricsCounters {
                processed: 0,
                received: 0,
                sent: 0,
                latency_ns: 0,
                latency_max_ns: 0,
                queue_depth: 0,
                max_queue_depth: 0,
                drops: 0,
                backpressure: 0,
            }),
    {
        ElementMetrics {
            packets_processed: 0,
            packets_received: 0,
            packets_sent: 0,
            processing_latency_ns: 0,
            processing_latency_max_ns: 0,
            queue_depth: 0,
            max_queue_depth: 0,
            drop_count: 0,
            backpressure_count: 0,
        }
    }

    /// A packet arrived on an input: counts as received and as processed.
    pub fn record_received(&mut self)
        ensures
            final(self)@ == (MetricsCounters {
                received: wrapping_add(old(self)@.received, 1),
                processed: wrapping_add(old(self)@.processed, 1),
                ..old(self)@
            }),
    {
        self.packets_received = self.packets_received.wrapping_add(1);
        self.packets_processed = self.packets_processed.wrapping_add(1);
    }

    /// A source produced a packet: counts as processed.
    pub fn record_source_packet(&mut self)
        ensures
            final(self)@ == (MetricsCounters {
                processed: wrapping_add(old(self)@.processed, 1),
                ..old(self)@
            }),
    {
        self.packets_processed = self.packets_processed.wrapping_add(1);
    }

    pub fn record_sent(&mut self)
        ensures
            final(self)@ == (MetricsCounters { sent: wrapping_add(old(self)@.sent, 1), ..old(self)@ }),
    {
        self.packets_sent = self.packets_sent.wrapping_add(1);
    }

    /// Adds one processing latency (nanoseconds, saturated to `u64`) to the
    /// total and raises the maximum.
    pub fn record_latency(&mut self, nanos: u128)
        ensures
            final(self)@ == (MetricsCounters {
                latency_ns: wrapping_add(old(self)@.latency_ns, saturated_nanos(nanos)),
                latency_max_ns: if saturated_nanos(nanos) > old(self)@.latency_max_ns {
                    saturated_nanos(nanos)
                } else {
                    old(self)@.latency_max_ns
                },
                ..old(self)@
            }),
    {
        let nanos: u64 = if nanos <= u64::MAX as u128 {
            nanos as u64
        } else {
            u64::MAX
        };
        self.processing_latency_ns = self.processing_latency_ns.wrapping_add(nanos);
        if nanos > self.processing_latency_max_ns {
            self.processing_latency_max_ns = nanos;
        }
    }

    /// Records the current queue depth and raises the maximum.
    pub fn record_queue_depth(&mut self, depth: usize)
        ensures
            final(self)@ == with_queue_depth(old(self)@, depth),
    {
        self.queue_depth = depth;
        if depth > self.max_queue_depth {
            self.max_queue_depth = depth;
        }
    }

    pub fn record_drop(&mut self)
        ensures
            final(self)@ == (MetricsCounters { drops: wrapping_add(old(self)@.drops, 1), ..old(self)@ }),
    {
        self.drop_count = self.drop_count.wrapping_add(1);
    }

    pub fn record_backpressure(&mut self)
        ensures
            final(self)@ == (MetricsCounters {
                backpressure: wrapping_add(old(self)@.backpressure, 1),
                ..old(self)@
            }),
    {
        self.backpressure_count = self.backpressure_count.wrapping_add(1);
    }

    pub fn snapshot(&self) -> (r: ElementMetricsSnapshot)
        ensures
            r == snapshot_of(self@),
    {
        let packets_processed = self.packets_processed;
        let processing_latency_ns = self.processing_latency_ns;
        let avg = match processing_latency_ns.checked_div(packets_processed) {
            Some(v) => v,
            None => 0,
        };
        ElementMetricsSnapshot {
            packets_processed,
            packets_received: self.packets_received,
            packets_sent: self.packets_sent,
            processing_latency_ns,
            processing_latency_avg_ns: avg,
            processing_latency_max_ns: self.processing_latency_max_ns,
            queue_depth: self.queue_depth,
            max_queue_depth: self.max_queue_depth,
            drop_count: self.drop_count,
            backpressure_count: self.backpressure_count,
        }
    }
}

/// The counters after a queue depth is recorded.
pub open spec fn with_queue_depth(c: MetricsCounters, depth: usize) -> MetricsCounters {
    MetricsCounters {
        queue_depth: depth,
        max_queue_depth: if depth > c.max_queue_depth {
            depth
        } else {
            c.max_queue_depth
        },
        ..c
    }
}

/// The counters after a sequence of queue depths is recorded, in order.
pub open spec fn with_queue_depths(c: MetricsCounters, depths: Seq<usize>) -> MetricsCounters
    decreases depths.len(),
{
    if depths.len() == 0 {
        c
    } else {
        with_queue_depths(with_queue_depth(c, depths[0]), depths.drop_first())
    }
}

/// The recorded maximum queue depth never falls, is at least every depth
/// recorded, and is one of them or the maximum before.
pub proof fn lemma_max_queue_depth_is_running_max(c: MetricsCounters, depths: Seq<usize>)
    ensures
        with_queue_depths(c, depths).max_queue_depth >= c.max_queue_depth,
        forall|i: int| 0 <= i < depths.len() ==> with_queue_depths(c, depths).max_queue_depth >= #[trigger] depths[i],
        with_queue_depths(c, depths).max_queue_depth == c.max_queue_depth || exists|i: int|
            0 <= i < depths.len() && with_queue_depths(c, depths).max_queue_depth == #[trigger] depths[i],
    decreases depths.len(),
{
    if depths.len() > 0 {
        let next = with_queue_depth(c, depths[0]);
        let rest = depths.drop_first();
        lemma_max_queue_depth_is_running_max(next, rest);
        let m = with_queue_depths(c, depths).max_queue_depth;
        assert(m == with_queue_depths(next, rest).max_queue_depth);
        assert forall|i: int| 0 <= i < depths.len() implies m >= #[trigger] depths[i] by {
            if i > 0 {
                assert(depths[i] == rest[i - 1]);
            }
        }
        if m != c.max_queue_depth {
            if m == next.max_queue_depth {
                assert(m == depths[0]);
            } else {
                let k = choose|k: int| 0 <= k < rest.len() && m == #[trigger] rest[k];
                assert(depths[k + 1] == rest[k]);
            }
        }
    }
}

} // verus!
