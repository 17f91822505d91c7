//! Memory usage from the values of `/proc/meminfo`.

use crate::text::sat_sub;
use vstd::prelude::*;

verus! {

/// The `/proc/meminfo` values the collector reads, in bytes.
#[derive(Debug, Clone, Copy)]
pub struct MemInfo {
    pub mem_total: u64,
    pub mem_free: u64,
    pub buffers: u64,
    pub cached: u64,
    /// `MemAvailable`, which kernels before 3.14 do not report.
    pub mem_available: Option<u64>,
    pub swap_total: u64,
    pub swap_free: u64,
}

/// Memory figures in bytes. The usage percentage is `used / total`, or zero
/// when the total is zero.
#[derive(Debug, Clone, Copy)]
pub struct MemorySample {
    pub total: u64,
    pub used: u64,
    pub free: u64,
    pub available: u64,
    pub swap_total: u64,
    pub swap_used: u64,
}

/// Available memory: `MemAvailable` when the kernel reports it, else free
/// plus buffers plus cache.
pub open spec fn available_of(m: MemInfo) -> u64 {
    match m.mem_available {
        Some(a) => a,
        None => (m.mem_free + m.buffers + m.cached) as u64,
    }
}

/// Usage stays within 100%: used memory never exceeds the total, nor used
/// swap the swap total.
pub proof fn law_memory_used_within_total(m: MemInfo)
    requires
        m.mem_free + m.buffers + m.cached <= u64::MAX,
    ensures
        sat_sub(m.mem_total, available_of(m)) <= m.mem_total,
        sat_sub(m.swap_total, m.swap_free) <= m.swap_total,
{
}

/// Available memory is what the kernel reports as `MemAvailable`, or on
/// kernels that do not report it free memory plus buffers plus page cache;
/// used memory is the rest of the total.
pub proof fn law_memory_available(m: MemInfo)
    requires
        m.mem_free + m.buffers + m.cached <= u64::MAX,
    ensures
        m.mem_available matches Some(a) ==> available_of(m) == a,
        m.mem_available is None ==> available_of(m) == m.mem_free + m.buffers + m.cached,
        available_of(m) <= m.mem_total ==> sat_sub(m.mem_total, available_of(m)) + available_of(m) == m.mem_total,
        available_of(m) > m.mem_total ==> sat_sub(m.mem_total, available_of(m)) == 0,
{
}

/// Memory collector.
pub struct MemoryCollector;

impl MemoryCollector {
    /// Create a new memory collector.
    pub fn new() -> (r: Self) {
        MemoryCollector
    }

    /// Memory statistics from the `/proc/meminfo` values: used memory is the
    /// total less the available memory, swap used is the swap total less the
    /// free swap (both zero rather than negative).
    pub fn collect(&self, m: MemInfo) -> (r: MemorySample)
        requires
            m.mem_free + m.buffers + m.cached <= u64::MAX,
        ensures
            r.total == m.mem_total,
            r.free == m.mem_free,
            r.available == available_of(m),
            r.used == sat_sub(m.mem_total, available_of(m)),
            r.swap_total == m.swap_total,
            r.swap_used == sat_sub(m.swap_total, m.swap_free),
    {
        let fallback = m.mem_free + m.buffers + m.cached;
        let available = match m.mem_available {
            Some(a) => a,
            None => fallback,
        };
        MemorySample {
            total: m.mem_total,
            used: m.mem_total.saturating_sub(available),
            free: m.mem_free,
            available,
            swap_total: m.swap_total,
            swap_used: m.swap_total.saturating_sub(m.swap_free),
        }
    }
}

} // verus!
