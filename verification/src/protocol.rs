//! The IPC protocol between the daemon and its clients (the control tool and
//! the GUI): commands, responses and the values they carry.

use crate::text::chars_of;
use vstd::prelude::*;

verus! {

/// serde_json's JSON value, carried in responses.
#[verifier::external_type_specification]
#[verifier::external_body]
pub struct ExJsonValue(serde_json::Value);

/// Sort field for process list.
#[derive(Debug, Clone, Copy, PartialEq, Eq, Structural)]
pub enum SortField {
    Cpu,
    Memory,
    DiskRead,
    DiskWrite,
    DiskTotal,
    NetConnections,
    NetTcp,
    NetBandwidth,
    Pid,
    Name,
}

impl Default for SortField {
    /// Processes sort by CPU usage unless told otherwise.
    fn default() -> (r: Self)
        ensures
            r == SortField::Cpu,
    {
        SortField::Cpu
    }
}

/// IPC commands sent to the gartop daemon.
#[derive(Debug, Clone)]
pub enum Command {
    /// Get daemon status.
    Status,
    /// Get current CPU stats.
    GetCpu,
    /// Get current memory stats.
    GetMemory,
    /// Get CPU history.
    GetCpuHistory { count: Option<usize> },
    /// Get memory history.
    GetMemoryHistory { count: Option<usize> },
    /// Get current network stats.
    GetNetwork,
    /// Get network history.
    GetNetworkHistory { count: Option<usize> },
    /// Get current disk I/O stats.
    GetDisk,
    /// Get disk I/O history.
    GetDiskHistory { count: Option<usize> },
    /// Get running processes.
    GetProcesses { sort_by: Option<SortField>, limit: Option<usize> },
    /// Kill a process by PID.
    KillProcess { pid: i32, signal: Option<i32> },
    /// Subscribe to real-time updates.
    Subscribe { events: Vec<String> },
    /// Unsubscribe from events.
    Unsubscribe { events: Vec<String> },
    /// Reload configuration.
    Reload,
    /// Quit the daemon.
    Quit,
}

/// Daemon status information.
#[derive(Debug, Clone)]
pub struct StatusInfo {
    /// Daemon version.
    pub version: String,
    /// Uptime in seconds.
    pub uptime_secs: u64,
    /// Sample interval in milliseconds.
    pub sample_interval_ms: u64,
    /// History buffer size.
    pub history_size: usize,
}

/// IPC response from gartop daemon.
#[derive(Debug, Clone)]
pub struct Response {
    pub success: bool,
    pub data: Option<serde_json::Value>,
    pub error: Option<String>,
}

impl Response {
    /// Create a successful response with no data.
    pub fn ok() -> (r: Self)
        ensures
            r.success,
            r.data is None,
            r.error is None,
    {
        Response { success: true, data: None, error: None }
    }

    /// Create a successful response carrying `data`, the JSON form of the
    /// payload (`None` when the payload did not serialise).
    pub fn ok_with_data(data: Option<serde_json::Value>) -> (r: Self)
        ensures
            r.success,
            r.data == data,
            r.error is None,
    {
        Response { success: true, data, error: None }
    }

    /// Create an error response.
    pub fn err(message: String) -> (r: Self)
        ensures
            !r.success,
            r.data is None,
            r.error == Some(message),
    {
        Response { success: false, data: None, error: Some(message) }
    }
}

/// The sort field a name given on the command line asks for: `memory` or
/// `mem`, `pid`, `name`; anything else sorts by CPU.
pub open spec fn sort_field_named(name: Seq<char>) -> SortField {
    if name == seq!['m', 'e', 'm', 'o', 'r', 'y'] || name == seq!['m', 'e', 'm'] {
        SortField::Memory
    } else if name == seq!['p', 'i', 'd'] {
        SortField::Pid
    } else if name == seq!['n', 'a', 'm', 'e'] {
        SortField::Name
    } else {
        SortField::Cpu
    }
}

/// Whether `v` holds exactly the characters `lit`.
fn chars_equal(v: &Vec<char>, lit: &Vec<char>) -> (r: bool)
    ensures
        r == (v@ == lit@),
{
    if v.len() != lit.len() {
        return false;
    }
    let mut i: usize = 0;
    while i < v.len()
        invariant
            v@.len() == lit@.len(),
            i <= v@.len(),
            forall|k: int| 0 <= k < i ==> v@[k] == lit@[k],
        decreases v@.len() - i,
    {
        if v[i] != lit[i] {
            return false;
        }
        i = i + 1;
    }
    proof {
        assert(v@ =~= lit@);
    }
    true
}

/// The sort field a name given on the command line asks for.
pub fn sort_field_from_name(name: &str) -> (r: SortField)
    ensures
        r == sort_field_named(name@),
{
    let v = chars_of(name);
    if chars_equal(&v, &vec!['m', 'e', 'm', 'o', 'r', 'y']) || chars_equal(&v, &vec!['m', 'e', 'm']) {
        SortField::Memory
    } else if chars_equal(&v, &vec!['p', 'i', 'd']) {
        SortField::Pid
    } else if chars_equal(&v, &vec!['n', 'a', 'm', 'e']) {
        SortField::Name
    } else {
        SortField::Cpu
    }
}

} // verus!
