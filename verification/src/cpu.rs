//! CPU usage bookkeeping over the cumulative times of `/proc/stat`.

use crate::text::sat_sub;
use vstd::prelude::*;

verus! {

/// CPU times for calculating deltas.
#[derive(Debug, Clone, Copy)]
pub struct CpuTimes {
    pub user: u64,
    pub nice: u64,
    pub system: u64,
    pub idle: u64,
    pub iowait: u64,
    pub irq: u64,
    pub softirq: u64,
    pub steal: u64,
}

/// All time spent, in ticks.
pub open spec fn total_time(t: CpuTimes) -> int {
    t.user + t.nice + t.system + t.idle + t.iowait + t.irq + t.softirq + t.steal
}

/// Time spent doing work: everything but idle and I/O wait.
pub open spec fn active_time(t: CpuTimes) -> int {
    t.user + t.nice + t.system + t.irq + t.softirq + t.steal
}

/// The times add up without overflowing a `u64`.
pub open spec fn fits(t: CpuTimes) -> bool {
    total_time(t) <= u64::MAX
}

impl CpuTimes {
    /// All zero.
    pub fn zero() -> (t: Self)
        ensures
            total_time(t) == 0,
            active_time(t) == 0,
    {
        CpuTimes { user: 0, nice: 0, system: 0, idle: 0, iowait: 0, irq: 0, softirq: 0, steal: 0 }
    }

    /// Total time.
    pub fn total(&self) -> (r: u64)
        requires
            fits(*self),
        ensures
            r == total_time(*self),
            r == self.user + self.nice + self.system + self.idle + self.iowait + self.irq + self.softirq
                + self.steal,
    {
        self.user + self.nice + self.system + self.idle + self.iowait + self.irq + self.softirq
            + self.steal
    }

    /// Active (non-idle) time.
    pub fn active(&self) -> (r: u64)
        requires
            fits(*self),
        ensures
            r == active_time(*self),
            r == self.user + self.nice + self.system + self.irq + self.softirq + self.steal,
    {
        self.user + self.nice + self.system + self.irq + self.softirq + self.steal
    }
}

/// Growth of the active and of the total time between two readings (zero
/// where a counter went backwards). Usage is `active / total`, or zero when
/// no time passed.
#[derive(Debug, Clone, Copy)]
pub struct CpuDelta {
    pub active: u64,
    pub total: u64,
}

/// The growth from `prev` to `curr`.
pub open spec fn delta_of(curr: CpuTimes, prev: CpuTimes) -> CpuDelta {
    CpuDelta {
        active: sat_sub(active_time(curr) as u64, active_time(prev) as u64),
        total: sat_sub(total_time(curr) as u64, total_time(prev) as u64),
    }
}

/// Between two readings with the same times no time passed and nothing
/// ran: both deltas are zero.
pub proof fn law_cpu_no_change(t: CpuTimes)
    requires
        fits(t),
    ensures
        delta_of(t, t).active == 0,
        delta_of(t, t).total == 0,
{
}

/// Usage never exceeds 100%: active time is part of total time, so as long
/// as the idle and I/O-wait time did not go backwards between two readings,
/// the active delta never exceeds the total delta.
pub proof fn law_cpu_active_within_total(t: CpuTimes, z: CpuTimes)
    requires
        fits(t),
        fits(z),
        z.idle + z.iowait <= t.idle + t.iowait,
    ensures
        delta_of(t, z).active <= delta_of(t, z).total,
{
}

/// Busy and total time, counter by counter: against a reading of all zeros,
/// the active delta of a reading is its user, nice, system, irq, softirq and
/// steal time, and the total delta adds idle and I/O-wait time. Nice time
/// counts as busy time.
pub proof fn law_cpu_counters(t: CpuTimes, z: CpuTimes)
    requires
        fits(t),
        z.user == 0 && z.nice == 0 && z.system == 0 && z.idle == 0,
        z.iowait == 0 && z.irq == 0 && z.softirq == 0 && z.steal == 0,
    ensures
        delta_of(t, z).active == t.user + t.nice + t.system + t.irq + t.softirq + t.steal,
        delta_of(t, z).total == t.user + t.nice + t.system + t.irq + t.softirq + t.steal + t.idle + t.iowait,
{
}

/// Growth between two readings, counter by counter: when no counter went
/// backwards, the active delta is the growth of user, nice, system, irq,
/// softirq and steal time, and the total delta also counts the growth of
/// idle and I/O-wait time.
pub proof fn law_cpu_growth(t: CpuTimes, p: CpuTimes)
    requires
        fits(t),
        fits(p),
        p.user <= t.user && p.nice <= t.nice && p.system <= t.system && p.idle <= t.idle,
        p.iowait <= t.iowait && p.irq <= t.irq && p.softirq <= t.softirq && p.steal <= t.steal,
    ensures
        delta_of(t, p).active == (t.user - p.user) + (t.nice - p.nice) + (t.system - p.system) + (t.irq
            - p.irq) + (t.softirq - p.softirq) + (t.steal - p.steal),
        delta_of(t, p).total == delta_of(t, p).active + (t.idle - p.idle) + (t.iowait - p.iowait),
{
}

/// The result of one sample: overall growth, growth per core, and the
/// number of cores the collector tracks.
#[derive(Debug, Clone)]
pub struct CpuSample {
    pub overall: CpuDelta,
    pub per_core: Vec<CpuDelta>,
    pub core_count: usize,
}

/// CPU collector with state for delta calculations.
pub struct CpuCollector {
    prev_total: CpuTimes,
    prev_per_core: Vec<CpuTimes>,
    core_count: usize,
}

impl CpuCollector {
    #[verifier::type_invariant]
    closed spec fn well_formed(&self) -> bool {
        &&& self.core_count >= 1
        &&& self.prev_per_core@.len() == self.core_count
        &&& fits(self.prev_total)
        &&& forall|i: int| 0 <= i < self.prev_per_core@.len() ==> fits(#[trigger] self.prev_per_core@[i])
    }

    /// The times of the previous sample.
    pub closed spec fn prev_total(&self) -> CpuTimes {
        self.prev_total
    }

    /// The times of each core at the previous sample.
    pub closed spec fn prev_cores(&self) -> Seq<CpuTimes> {
        self.prev_per_core@
    }

    /// Number of cores tracked.
    pub closed spec fn cores(&self) -> nat {
        self.core_count as nat
    }

    /// Create a new CPU collector for a machine that reports `cpu_count`
    /// cores (at least one core is tracked).
    pub fn new(cpu_count: usize) -> (r: Self)
        ensures
            r.cores() == (if cpu_count == 0 { 1 } else { cpu_count as nat }),
            total_time(r.prev_total()) == 0,
            r.prev_cores().len() == r.cores(),
            forall|i: int| 0 <= i < r.prev_cores().len() ==> total_time(#[trigger] r.prev_cores()[i]) == 0 && active_time(r.prev_cores()[i]) == 0,
    {
        let core_count = if cpu_count == 0 { 1 } else { cpu_count };
        let mut prev_per_core: Vec<CpuTimes> = Vec::new();
        while prev_per_core.len() < core_count
            invariant
                prev_per_core@.len() <= core_count,
                forall|i: int| 0 <= i < prev_per_core@.len() ==> total_time(#[trigger] prev_per_core@[i]) == 0 && active_time(prev_per_core@[i]) == 0,
            decreases core_count - prev_per_core@.len(),
        {
            prev_per_core.push(CpuTimes::zero());
        }
        CpuCollector { prev_total: CpuTimes::zero(), prev_per_core, core_count }
    }

    /// Takes the current times (overall and per core, in the order
    /// `/proc/stat` lists them), returns their growth since the previous
    /// sample and records them. Cores past the tracked count are ignored.
    pub fn collect(&mut self, total: CpuTimes, per_core: &Vec<CpuTimes>) -> (r: CpuSample)
        requires
            fits(total),
            forall|i: int| 0 <= i < per_core@.len() ==> fits(#[trigger] per_core@[i]),
        ensures
            old(self).prev_cores().len() == old(self).cores(),
            final(self).prev_cores().len() == final(self).cores(),
            r.overall == delta_of(total, old(self).prev_total()),
            r.core_count == old(self).cores(),
            final(self).cores() == old(self).cores(),
            final(self).prev_total() == total,
            r.per_core@.len() == (if per_core@.len() < old(self).cores() { per_core@.len() } else { old(self).cores() }),
            forall|i: int| 0 <= i < r.per_core@.len() ==> #[trigger] r.per_core@[i] == delta_of(per_core@[i], old(self).prev_cores()[i]),
            final(self).prev_cores().len() == old(self).prev_cores().len(),
            forall|i: int| 0 <= i < final(self).prev_cores().len() ==> #[trigger] final(self).prev_cores()[i] == (if i < r.per_core@.len() { per_core@[i] } else { old(self).prev_cores()[i] }),
    {
        proof {
            use_type_invariant(&*self);
        }
        let overall = CpuDelta {
            active: total.active().saturating_sub(self.prev_total.active()),
            total: total.total().saturating_sub(self.prev_total.total()),
        };
        let n = if per_core.len() < self.core_count { per_core.len() } else { self.core_count };
        let mut out: Vec<CpuDelta> = Vec::new();
        let mut next: Vec<CpuTimes> = Vec::new();
        let mut i: usize = 0;
        while i < self.core_count
            invariant
                n <= per_core@.len(),
                n <= self.core_count,
                self.prev_per_core@.len() == self.core_count,
                i <= self.core_count,
                forall|j: int| 0 <= j < per_core@.len() ==> fits(#[trigger] per_core@[j]),
                forall|j: int| 0 <= j < self.prev_per_core@.len() ==> fits(#[trigger] self.prev_per_core@[j]),
                out@.len() == (if i < n { i } else { n }),
                forall|j: int| 0 <= j < out@.len() ==> #[trigger] out@[j] == delta_of(per_core@[j], self.prev_per_core@[j]),
                next@.len() == i,
                forall|j: int| 0 <= j < i ==> #[trigger] next@[j] == (if j < n { per_core@[j] } else { self.prev_per_core@[j] }),
            decreases self.core_count - i,
        {
            let p = self.prev_per_core[i];
            if i < n {
                let curr = per_core[i];
                out.push(CpuDelta {
                    active: curr.active().saturating_sub(p.active()),
                    total: curr.total().saturating_sub(p.total()),
                });
                next.push(curr);
            } else {
                next.push(p);
            }
            i = i + 1;
        }
        let core_count = self.core_count;
        *self = CpuCollector { prev_total: total, prev_per_core: next, core_count };
        CpuSample { overall, per_core: out, core_count }
    }
}

} // verus!
