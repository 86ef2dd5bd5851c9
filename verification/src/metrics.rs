//! The metrics data model and the sampler: periodic counter readings
//! become immutable snapshots, appended to a bounded history with FIFO
//! eviction. Percentages are carried as integers in hundredths of a
//! percent, so 100% is 10000.

use vstd::prelude::*;
use vstd::arithmetic::div_mod::{lemma_div_is_ordered, lemma_div_by_multiple};
use crate::ring::{BoundedRing, ring_push_spec};

verus! {

/// Usage of one disk, in bytes.
#[derive(Clone, Debug)]
pub struct DiskMetrics {
    pub name: String,
    pub total: u64,
    pub available: u64,
}

/// Cumulative traffic of one network interface, in bytes.
#[derive(Clone, Debug)]
pub struct NetInterfaceStats {
    pub name: String,
    pub rx: u64,
    pub tx: u64,
}

/// One immutable snapshot of the host's metrics.
///
/// `timestamp` is in milliseconds on whatever clock the caller samples;
/// `cpu_usage` holds one entry per core and `cpu_total` their mean,
/// both in hundredths of a percent; `net_rx` and `net_tx` are byte
/// deltas since the previous sample, never cumulative counters.
#[derive(Clone, Debug)]
pub struct Metrics {
    pub timestamp: u64,
    pub cpu_usage: Vec<u32>,
    pub cpu_total: u32,
    pub mem_total: u64,
    pub mem_used: u64,
    pub disks: Vec<DiskMetrics>,
    pub net_rx: u64,
    pub net_tx: u64,
    pub selected_interface: Option<String>,
    pub interfaces: Vec<String>,
    pub net_per_interface: Vec<NetInterfaceStats>,
}

/// A snapshot with everything at zero or empty.
pub open spec fn is_empty_snapshot(m: Metrics) -> bool {
    &&& m.timestamp == 0
    &&& m.cpu_usage@.len() == 0
    &&& m.cpu_total == 0
    &&& m.mem_total == 0
    &&& m.mem_used == 0
    &&& m.disks@.len() == 0
    &&& m.net_rx == 0
    &&& m.net_tx == 0
    &&& m.selected_interface is None
    &&& m.interfaces@.len() == 0
    &&& m.net_per_interface@.len() == 0
}

impl Default for Metrics {
    fn default() -> (r: Metrics)
        ensures
            is_empty_snapshot(r),
    {
        Metrics {
            timestamp: 0,
            cpu_usage: Vec::new(),
            cpu_total: 0,
            mem_total: 0,
            mem_used: 0,
            disks: Vec::new(),
            net_rx: 0,
            net_tx: 0,
            selected_interface: None,
            interfaces: Vec::new(),
            net_per_interface: Vec::new(),
        }
    }
}

/// The sum of per-core readings.
pub open spec fn sum_of(s: Seq<u32>) -> nat
    decreases s.len(),
{
    if s.len() == 0 {
        0
    } else {
        sum_of(s.drop_last()) + s.last() as nat
    }
}

/// The mean of per-core readings, rounded down; zero when no cores
/// were reported.
pub open spec fn mean_of(s: Seq<u32>) -> nat {
    if s.len() == 0 {
        0
    } else {
        sum_of(s) / s.len()
    }
}

proof fn lemma_sum_bounded(s: Seq<u32>)
    ensures
        sum_of(s) <= s.len() * (u32::MAX as nat),
    decreases s.len(),
{
    if s.len() > 0 {
        lemma_sum_bounded(s.drop_last());
    }
}

/// The mean of the per-core readings, as the sampler computes it.
pub fn cpu_mean(v: &Vec<u32>) -> (r: u32)
    requires
        v@.len() <= u32::MAX as nat,
    ensures
        r as nat == mean_of(v@),
{
    if v.len() == 0 {
        return 0;
    }
    let mut sum: u64 = 0;
    let mut i: usize = 0;
    while i < v.len()
        invariant
            i <= v.len(),
            v@.len() <= u32::MAX as nat,
            sum as nat == sum_of(v@.subrange(0, i as int)),
            sum as nat <= (i as nat) * (u32::MAX as nat),
        decreases v.len() - i,
    {
        proof {
            let pre = v@.subrange(0, i as int + 1);
            assert(pre.drop_last() =~= v@.subrange(0, i as int));
            assert(pre.last() == v@[i as int]);
        }
        sum = sum + v[i] as u64;
        i = i + 1;
    }
    proof {
        assert(v@.subrange(0, i as int) =~= v@);
        lemma_sum_bounded(v@);
        lemma_div_is_ordered(
            sum as int,
            v@.len() as int * (u32::MAX as int),
            v@.len() as int,
        );
        lemma_div_by_multiple(u32::MAX as int, v@.len() as int);
    }
    let len = v.len() as u64;
    (sum / len) as u32
}

/// The raw cumulative counters read from the host on one tick.
pub struct CounterReading {
    pub timestamp: u64,
    pub cpu_usage: Vec<u32>,
    pub mem_total: u64,
    pub mem_used: u64,
    pub disks: Vec<DiskMetrics>,
    pub net_rx_cumulative: u64,
    pub net_tx_cumulative: u64,
}

/// The byte delta between a cumulative counter and its previous
/// reading: zero on the very first observation, whatever the counter
/// says, and clamped to zero if the counter ever runs backwards, so a
/// delta is never negative and never a spurious spike from an unset
/// baseline.
pub open spec fn delta_spec(baseline: Option<u64>, current: u64) -> u64 {
    match baseline {
        Option::None => 0,
        Option::Some(prev) => if current >= prev {
            (current - prev) as u64
        } else {
            0
        },
    }
}

fn delta_from(baseline: Option<u64>, current: u64) -> (r: u64)
    ensures
        r == delta_spec(baseline, current),
{
    match baseline {
        None => 0,
        Some(prev) => if current >= prev {
            current - prev
        } else {
            0
        },
    }
}

/// How a published snapshot relates to the reading it was built from.
pub open spec fn snapshot_matches(
    m: Metrics,
    r: CounterReading,
    rx_delta: u64,
    tx_delta: u64,
) -> bool {
    &&& m.timestamp == r.timestamp
    &&& m.cpu_usage == r.cpu_usage
    &&& m.cpu_total as nat == mean_of(r.cpu_usage@)
    &&& m.mem_total == r.mem_total
    &&& m.mem_used == r.mem_used
    &&& m.disks == r.disks
    &&& m.net_rx == rx_delta
    &&& m.net_tx == tx_delta
    &&& m.selected_interface is None
    &&& m.interfaces@.len() == 0
    &&& m.net_per_interface@.len() == 0
}

/// How many snapshots the history retains.
pub const HISTORY_CAPACITY: usize = 300;

/// The sampler: turns successive counter readings into snapshots and
/// keeps the bounded history. It owns the history exclusively; readers
/// get it through `history` and `latest`.
pub struct MetricsSampler {
    pub rx_baseline: Option<u64>,
    pub tx_baseline: Option<u64>,
    pub history: BoundedRing<Metrics>,
}

impl MetricsSampler {
    /// A sampler with an empty history and no counter baseline, so the
    /// first tick reports zero deltas.
    pub fn new() -> (r: MetricsSampler)
        ensures
            r.rx_baseline is None,
            r.tx_baseline is None,
            r.history@ == Seq::<Metrics>::empty(),
            r.history.cap() == HISTORY_CAPACITY,
    {
        MetricsSampler {
            rx_baseline: None,
            tx_baseline: None,
            history: BoundedRing::new(HISTORY_CAPACITY),
        }
    }

    /// One sampler tick: builds the snapshot for this reading and
    /// appends it to the history, evicting the oldest entry once the
    /// history is full. The network deltas are the clamped difference
    /// against the previous reading, zero on the first tick.
    pub fn tick(&mut self, r: CounterReading)
        requires
            r.cpu_usage@.len() <= u32::MAX as nat,
        ensures
            final(self).history@ == ring_push_spec(
                old(self).history@,
                old(self).history.cap(),
                final(self).history@.last(),
            ),
            snapshot_matches(
                final(self).history@.last(),
                r,
                delta_spec(old(self).rx_baseline, r.net_rx_cumulative),
                delta_spec(old(self).tx_baseline, r.net_tx_cumulative),
            ),
            final(self).rx_baseline == Some(r.net_rx_cumulative),
            final(self).tx_baseline == Some(r.net_tx_cumulative),
            final(self).history.cap() == old(self).history.cap(),
            final(self).history@.len() <= final(self).history.cap(),
    {
        let cpu_total = cpu_mean(&r.cpu_usage);
        let net_rx = delta_from(self.rx_baseline, r.net_rx_cumulative);
        let net_tx = delta_from(self.tx_baseline, r.net_tx_cumulative);
        let snapshot = Metrics {
            timestamp: r.timestamp,
            cpu_usage: r.cpu_usage,
            cpu_total,
            mem_total: r.mem_total,
            mem_used: r.mem_used,
            disks: r.disks,
            net_rx,
            net_tx,
            selected_interface: None,
            interfaces: Vec::new(),
            net_per_interface: Vec::new(),
        };
        self.rx_baseline = Some(r.net_rx_cumulative);
        self.tx_baseline = Some(r.net_tx_cumulative);
        self.history.push(snapshot);
    }

    /// The most recent snapshot, if any tick has happened yet.
    pub fn latest(&self) -> (r: Option<&Metrics>)
        ensures
            match r {
                Some(m) => self.history@.len() > 0 && *m == self.history@.last(),
                None => self.history@.len() == 0,
            },
    {
        self.history.last()
    }
}

} // verus!
