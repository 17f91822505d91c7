//! Daemon configuration.

use vstd::prelude::*;

verus! {

/// Daemon configuration.
#[derive(Debug, Clone)]
pub struct DaemonConfig {
    /// Sample interval in milliseconds.
    pub sample_interval_ms: u64,
    /// History buffer size (number of samples to keep).
    pub history_size: usize,
    /// Maximum number of processes to track.
    pub max_processes: usize,
}

impl Default for DaemonConfig {
    /// One sample a second, five minutes of history, up to 100 processes.
    fn default() -> (r: Self)
        ensures
            r.sample_interval_ms == 1000,
            r.history_size == 300,
            r.max_processes == 100,
    {
        DaemonConfig { sample_interval_ms: 1000, history_size: 300, max_processes: 100 }
    }
}

} // verus!
