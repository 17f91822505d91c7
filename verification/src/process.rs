//! Per-process bookkeeping: CPU and I/O growth between samples, memory,
//! state, owner and network use of each process.

use crate::cpu::{fits, total_time, CpuTimes};
use crate::error::Error;
use crate::socket::{
    bandwidth_of, net_stats_of, recorded_bytes, BandwidthPart, InetRecord, SocketCollector,
    SocketInfo, SocketTable, apply_replies, insert_tables, PrevSocketBytes,
};
use crate::text::{chars_of, push_all, push_decimal, push_signed_decimal, sat_sub, signed_decimal, decimal, string_from_chars};
use nix::errno::Errno;
use nix::sys::signal::Signal;
use std::collections::HashMap;
use vstd::prelude::*;

verus! {

/// nix's signal type.
#[verifier::external_type_specification]
#[verifier::external_body]
pub struct ExSignal(Signal);

/// nix's errno type.
#[verifier::external_type_specification]
#[verifier::external_body]
pub struct ExErrno(Errno);

/// The signal nix's `Signal::try_from` gives for the number `signal`, or
/// `None` where the number is not a signal of the platform.
pub uninterp spec fn signal_from(signal: i32) -> Option<Signal>;

/// Trusted: calls nix's `Signal::try_from(signal)`, which matches the number
/// against the platform's signal constants and fails with `EINVAL` for any
/// other number. The platform's list is named, not written out: the contract
/// says that the call gives the named signal exactly when there is one.
#[verifier::external_body]
fn signal_try_from(signal: i32) -> (r: Result<Signal, Errno>)
    ensures
        r is Ok <==> signal_from(signal) is Some,
        r matches Ok(s) ==> signal_from(signal) == Some(s),
{
    Signal::try_from(signal)
}

/// The message for a signal number that is not a signal.
pub open spec fn invalid_signal_message(signal: i32) -> Seq<char> {
    seq!['I', 'n', 'v', 'a', 'l', 'i', 'd', ' ', 's', 'i', 'g', 'n', 'a', 'l', ':', ' '] + signed_decimal(signal as int)
}

/// The message for a process that may not be signalled.
pub open spec fn cannot_kill_message(pid: i32) -> Seq<char> {
    seq!['C', 'a', 'n', 'n', 'o', 't', ' ', 'k', 'i', 'l', 'l', ' ', 'P', 'I', 'D', ' '] + signed_decimal(pid as int)
}

/// `ESRCH`, "no such process" (3 on every Unix).
pub const ESRCH: i32 = 3;

/// `EPERM`, "operation not permitted" (1 on every Unix).
pub const EPERM: i32 = 1;

/// The words joined with single spaces, as `[String]::join(" ")` does.
pub open spec fn joined(words: Seq<Seq<char>>) -> Seq<char>
    decreases words.len(),
{
    if words.len() == 0 {
        Seq::empty()
    } else if words.len() == 1 {
        words[0]
    } else {
        joined(words.drop_last()) + seq![' '] + words.last()
    }
}

/// The name of a process state letter.
pub open spec fn state_name(c: char) -> Seq<char> {
    if c == 'R' {
        seq!['r', 'u', 'n', 'n', 'i', 'n', 'g']
    } else if c == 'S' {
        seq!['s', 'l', 'e', 'e', 'p', 'i', 'n', 'g']
    } else if c == 'D' {
        seq!['d', 'i', 's', 'k', ' ', 's', 'l', 'e', 'e', 'p']
    } else if c == 'Z' {
        seq!['z', 'o', 'm', 'b', 'i', 'e']
    } else if c == 'T' {
        seq!['s', 't', 'o', 'p', 'p', 'e', 'd']
    } else if c == 't' {
        seq!['t', 'r', 'a', 'c', 'i', 'n', 'g', ' ', 's', 't', 'o', 'p']
    } else if c == 'X' || c == 'x' {
        seq!['d', 'e', 'a', 'd']
    } else {
        seq!['u', 'n', 'k', 'n', 'o', 'w', 'n']
    }
}

/// Whether `c` is a state letter the kernel reports.
pub open spec fn known_state(c: char) -> bool {
    c == 'R' || c == 'S' || c == 'D' || c == 'Z' || c == 'T' || c == 't' || c == 'X' || c == 'x'
}

/// Process states are told apart: two letters of different states have
/// different names (`X` and `x` both mean a dead process), an unknown letter
/// is named differently from every known one, and the name `disk sleep`
/// belongs to `D` alone, `sleeping` to `S` alone.
pub proof fn law_state_names_distinct(a: char, b: char)
    ensures
        known_state(a) && known_state(b) && a != b && !((a == 'X' || a == 'x') && (b == 'X' || b == 'x'))
            ==> state_name(a) != state_name(b),
        known_state(a) && !known_state(b) ==> state_name(a) != state_name(b),
        state_name(a) == seq!['d', 'i', 's', 'k', ' ', 's', 'l', 'e', 'e', 'p'] <==> a == 'D',
        state_name(a) == seq!['s', 'l', 'e', 'e', 'p', 'i', 'n', 'g'] <==> a == 'S',
{
    let na = state_name(a);
    let nb = state_name(b);
    if na == nb {
        assert(na.len() == nb.len());
        assert(na[0] == nb[0]);
        if na.len() > 1 {
            assert(na[1] == nb[1]);
        }
    }
}

/// The name of a process state letter.
pub fn state_name_of(c: char) -> (r: String)
    ensures
        r@ == state_name(c),
{
    let v: Vec<char> = if c == 'R' {
        vec!['r', 'u', 'n', 'n', 'i', 'n', 'g']
    } else if c == 'S' {
        vec!['s', 'l', 'e', 'e', 'p', 'i', 'n', 'g']
    } else if c == 'D' {
        vec!['d', 'i', 's', 'k', ' ', 's', 'l', 'e', 'e', 'p']
    } else if c == 'Z' {
        vec!['z', 'o', 'm', 'b', 'i', 'e']
    } else if c == 'T' {
        vec!['s', 't', 'o', 'p', 'p', 'e', 'd']
    } else if c == 't' {
        vec!['t', 'r', 'a', 'c', 'i', 'n', 'g', ' ', 's', 't', 'o', 'p']
    } else if c == 'X' || c == 'x' {
        vec!['d', 'e', 'a', 'd']
    } else {
        vec!['u', 'n', 'k', 'n', 'o', 'w', 'n']
    };
    string_from_chars(&v)
}

/// The words joined with single spaces.
pub fn join_words(words: &Vec<String>) -> (r: String)
    ensures
        r@ == joined(words@.map_values(|w: String| w@)),
{
    let ghost ws = words@.map_values(|w: String| w@);
    let mut out: Vec<char> = Vec::new();
    let mut i: usize = 0;
    proof {
        assert(ws.take(0) =~= Seq::<Seq<char>>::empty());
    }
    while i < words.len()
        invariant
            i <= words@.len(),
            ws == words@.map_values(|w: String| w@),
            out@ == joined(ws.take(i as int)),
        decreases words@.len() - i,
    {
        let w = chars_of(words[i].as_str());
        proof {
            assert(ws.take(i + 1).drop_last() =~= ws.take(i as int));
            assert(ws[i as int] == words@[i as int]@);
        }
        if i > 0 {
            out.push(' ');
        }
        push_all(&mut out, &w);
        i = i + 1;
        proof {
            if i == 1 {
                assert(out@ =~= joined(ws.take(i as int)));
            } else {
                assert(out@ =~= joined(ws.take(i as int)));
            }
        }
    }
    proof {
        assert(ws.take(words@.len() as int) =~= ws);
    }
    string_from_chars(&out)
}

/// The `signal` to send, or the error for a number that is not a signal of
/// the platform.
pub fn kill_signal(signal: i32) -> (r: Result<Signal, Error>)
    ensures
        r is Ok <==> signal_from(signal) is Some,
        r matches Ok(s) ==> signal_from(signal) == Some(s),
        r matches Err(e) ==> (e matches Error::Ipc(m) && m@ == invalid_signal_message(signal)),
{
    match signal_try_from(signal) {
        Ok(sig) => Ok(sig),
        Err(_) => {
            let mut msg: Vec<char> = vec!['I', 'n', 'v', 'a', 'l', 'i', 'd', ' ', 's', 'i', 'g', 'n', 'a', 'l', ':', ' '];
            push_signed_decimal(&mut msg, signal as i64);
            Err(Error::Ipc(string_from_chars(&msg)))
        },
    }
}

/// The error for a failed `kill(pid, …)` with OS error number `errno`: no
/// such process, not permitted, or the I/O error itself.
pub fn kill_error(pid: i32, errno: i32) -> (r: Error)
    ensures
        errno == ESRCH ==> r == Error::ProcessNotFound(pid),
        errno != ESRCH && errno == EPERM ==> (r matches Error::PermissionDenied(m) && m@ == cannot_kill_message(pid)),
        errno != ESRCH && errno != EPERM ==> r == Error::Io(errno),
{
    if errno == ESRCH {
        Error::ProcessNotFound(pid)
    } else if errno == EPERM {
        let mut msg: Vec<char> = vec!['C', 'a', 'n', 'n', 'o', 't', ' ', 'k', 'i', 'l', 'l', ' ', 'P', 'I', 'D', ' '];
        push_signed_decimal(&mut msg, pid as i64);
        Error::PermissionDenied(string_from_chars(&msg))
    } else {
        Error::Io(errno)
    }
}

/// Previous process stats for delta calculations.
#[derive(Debug, Clone, Copy)]
pub struct PrevProcessStats {
    /// Previous CPU time (utime + stime).
    pub cpu_time: u64,
    /// Previous system total CPU time.
    pub system_time: u64,
    /// Previous I/O read bytes.
    pub io_read_bytes: u64,
    /// Previous I/O write bytes.
    pub io_write_bytes: u64,
    /// Time of the sample, in nanoseconds on the caller's monotonic clock.
    pub timestamp: u64,
}

/// What the caller read of one process from `/proc/[pid]/`.
#[derive(Debug, Clone)]
pub struct ProcessReading {
    pub pid: i32,
    /// The command name (`comm`).
    pub comm: String,
    /// The command line, when it could be read.
    pub cmdline: Option<Vec<String>>,
    /// Bytes read and written, when `/proc/[pid]/io` could be read.
    pub io: Option<(u64, u64)>,
    /// User and system CPU time, in ticks.
    pub utime: u64,
    pub stime: u64,
    /// Resident set size, in pages.
    pub rss_pages: u64,
    /// Virtual memory size, in bytes.
    pub vsize: u64,
    /// The state letter.
    pub state: char,
    /// The real user ID, and the name of that user when known.
    pub ruid: u32,
    pub user_name: Option<String>,
    /// The inodes of the sockets among the process's open files.
    pub socket_inodes: Vec<u64>,
}

/// What the collector makes of one process. The CPU usage is
/// `cpu_delta / system_delta`, or zero when the system time did not grow;
/// the I/O rates are the deltas over the elapsed time, or zero when no time
/// passed. All growth is zero for a process seen for the first time.
#[derive(Debug, Clone)]
pub struct ProcessRecord {
    pub pid: i32,
    pub name: String,
    pub cmdline: String,
    pub cpu_delta: u64,
    pub system_delta: u64,
    /// Resident set size, in bytes.
    pub rss: u64,
    pub vsize: u64,
    pub io_read_bytes: u64,
    pub io_write_bytes: u64,
    pub io_read_delta: u64,
    pub io_write_delta: u64,
    pub io_elapsed_ns: u64,
    /// Number of open sockets.
    pub net_connections: u32,
    pub net: crate::socket::ProcessNetStats,
    pub bandwidth: Vec<BandwidthPart>,
    pub state: String,
    pub user: String,
}

/// The command line shown for a process: its words joined with spaces, or
/// its name when the command line could not be read.
pub open spec fn cmdline_of(p: ProcessReading) -> Seq<char> {
    match p.cmdline {
        Some(words) => joined(words@.map_values(|w: String| w@)),
        None => p.comm@,
    }
}

/// The owner shown for a process: the user's name, or the user ID.
pub open spec fn user_of(p: ProcessReading) -> Seq<char> {
    match p.user_name {
        Some(n) => n@,
        None => decimal(p.ruid as nat),
    }
}

/// The I/O counters of a reading (zero when they could not be read).
pub open spec fn io_of(p: ProcessReading) -> (u64, u64) {
    match p.io {
        Some(io) => io,
        None => (0, 0),
    }
}

/// A reading whose counters fit the arithmetic of `process_info`: CPU time
/// and resident bytes within a `u64`, socket count within a `u32`.
pub open spec fn reading_fits(p: ProcessReading) -> bool {
    &&& p.utime + p.stime <= u64::MAX
    &&& p.rss_pages * 4096 <= u64::MAX
    &&& p.socket_inodes@.len() <= u32::MAX
}

/// The stats `process_info` records for a process, for the next sample.
pub open spec fn mark_of(p: ProcessReading, system_total: u64, now: u64) -> PrevProcessStats {
    PrevProcessStats {
        cpu_time: (p.utime + p.stime) as u64,
        system_time: system_total,
        io_read_bytes: io_of(p).0,
        io_write_bytes: io_of(p).1,
        timestamp: now,
    }
}

/// Whether `r` is the record of reading `p`, given the per-process stats
/// `prev` recorded before it, the socket table `cache`, and the socket byte
/// counts `sock_prev` recorded before it: growth since the recorded stats
/// (none for a process seen for the first time), memory, state, owner and
/// network use, whose bandwidth shares measure the growth of each socket's
/// byte counts since they were recorded.
pub open spec fn record_of(
    r: ProcessRecord,
    p: ProcessReading,
    prev: Map<i32, PrevProcessStats>,
    cache: Map<u64, SocketInfo>,
    sock_prev: Map<u64, PrevSocketBytes>,
    system_total: u64,
    now: u64,
) -> bool {
    &&& r.pid == p.pid
    &&& r.name@ == p.comm@
    &&& r.cmdline@ == cmdline_of(p)
    &&& r.io_read_bytes == io_of(p).0
    &&& r.io_write_bytes == io_of(p).1
    &&& prev.contains_key(p.pid) ==> {
        let m = prev[p.pid];
        &&& r.cpu_delta == sat_sub((p.utime + p.stime) as u64, m.cpu_time)
        &&& r.system_delta == sat_sub(system_total, m.system_time)
        &&& r.io_read_delta == sat_sub(io_of(p).0, m.io_read_bytes)
        &&& r.io_write_delta == sat_sub(io_of(p).1, m.io_write_bytes)
        &&& r.io_elapsed_ns == sat_sub(now, m.timestamp)
    }
    &&& !prev.contains_key(p.pid) ==> r.cpu_delta == 0 && r.system_delta == 0 && r.io_read_delta == 0
        && r.io_write_delta == 0 && r.io_elapsed_ns == 0
    &&& r.rss == p.rss_pages * 4096
    &&& r.vsize == p.vsize
    &&& r.state@ == state_name(p.state)
    &&& r.user@ == user_of(p)
    &&& r.net_connections == p.socket_inodes@.len()
    &&& r.net == net_stats_of(cache, p.socket_inodes@)
    &&& r.bandwidth@ == bandwidth_of(cache, sock_prev, p.socket_inodes@, now)
}

/// One process of the process table: its PID, and what could be read of it
/// (`None` where its stat or status could not be read).
#[derive(Debug, Clone)]
pub struct ProcessEntry {
    pub pid: i32,
    pub reading: Option<ProcessReading>,
}

/// The readings of the entries that could be read, in order.
pub open spec fn readings_of(entries: Seq<ProcessEntry>) -> Seq<ProcessReading>
    decreases entries.len(),
{
    if entries.len() == 0 {
        Seq::empty()
    } else {
        match entries.last().reading {
            Some(p) => readings_of(entries.drop_last()).push(p),
            None => readings_of(entries.drop_last()),
        }
    }
}

/// The PIDs of the entries.
pub open spec fn pids_of(entries: Seq<ProcessEntry>) -> Seq<i32> {
    entries.map_values(|e: ProcessEntry| e.pid)
}

/// The per-process stats once the readings were taken, in order.
pub open spec fn marks_after(
    prev: Map<i32, PrevProcessStats>,
    rs: Seq<ProcessReading>,
    system_total: u64,
    now: u64,
) -> Map<i32, PrevProcessStats>
    decreases rs.len(),
{
    if rs.len() == 0 {
        prev
    } else {
        marks_after(prev, rs.drop_last(), system_total, now).insert(rs.last().pid, mark_of(rs.last(), system_total, now))
    }
}

/// The socket byte counts once the sockets of the readings were recorded,
/// in order.
pub open spec fn socket_marks_after(
    sock_prev: Map<u64, PrevSocketBytes>,
    cache: Map<u64, SocketInfo>,
    rs: Seq<ProcessReading>,
    now: u64,
) -> Map<u64, PrevSocketBytes>
    decreases rs.len(),
{
    if rs.len() == 0 {
        sock_prev
    } else {
        socket_marks_after(sock_prev, cache, rs.drop_last(), now).union_prefer_right(
            recorded_bytes(cache, rs.last().socket_inodes@, now),
        )
    }
}

/// Process collector with previous stats for rate calculations.
pub struct ProcessCollector {
    prev_stats: HashMap<i32, PrevProcessStats>,
    total_memory: u64,
    socket_collector: SocketCollector,
}

impl ProcessCollector {
    /// The stats recorded per PID at the previous sample.
    pub closed spec fn prev(&self) -> Map<i32, PrevProcessStats> {
        self.prev_stats@
    }

    /// Total memory in bytes, for memory percentages.
    pub closed spec fn total_memory_spec(&self) -> u64 {
        self.total_memory
    }

    /// The socket tables.
    pub closed spec fn sockets(&self) -> SocketCollector {
        self.socket_collector
    }

    /// Create a new process collector for a machine with `total_memory`
    /// bytes of memory.
    pub fn new(total_memory: u64) -> (r: Self)
        ensures
            r.prev() == Map::<i32, PrevProcessStats>::empty(),
            r.total_memory_spec() == total_memory,
            r.sockets().cache() == Map::<u64, SocketInfo>::empty(),
            r.sockets().prev() == Map::<u64, PrevSocketBytes>::empty(),
    {
        ProcessCollector { prev_stats: HashMap::new(), total_memory, socket_collector: SocketCollector::new() }
    }

    /// Total memory in bytes.
    pub fn total_memory(&self) -> (r: u64)
        ensures
            r == self.total_memory_spec(),
    {
        self.total_memory
    }

    /// Refresh the socket tables (see `SocketCollector::refresh`).
    pub fn refresh_sockets(&mut self, tables: &Vec<SocketTable>, replies: &Vec<InetRecord>)
        ensures
            final(self).sockets().cache() == apply_replies(insert_tables(Map::empty(), tables@), replies@),
            final(self).sockets().prev() == old(self).sockets().prev().restrict(final(self).sockets().cache().dom()),
            final(self).prev() == old(self).prev(),
            final(self).total_memory_spec() == old(self).total_memory_spec(),
    {
        self.socket_collector.refresh(tables, replies);
    }

    /// Get info for a single process from what was read of it, with the
    /// system's total CPU time `system_total` and the time `now`
    /// (nanoseconds on a monotonic clock); records its counters for the next
    /// sample.
    pub fn process_info(&mut self, p: &ProcessReading, system_total: u64, now: u64) -> (r: ProcessRecord)
        requires
            reading_fits(*p),
        ensures
            record_of(r, *p, old(self).prev(), old(self).sockets().cache(), old(self).sockets().prev(), system_total, now),
            final(self).prev() == old(self).prev().insert(p.pid, mark_of(*p, system_total, now)),
            final(self).sockets().cache() == old(self).sockets().cache(),
            final(self).sockets().prev() == old(self).sockets().prev().union_prefer_right(
                recorded_bytes(old(self).sockets().cache(), p.socket_inodes@, now),
            ),
            final(self).total_memory_spec() == old(self).total_memory_spec(),
    {
        broadcast use vstd::std_specs::hash::group_hash_axioms;

        let name = p.comm.clone();
        let cmdline = match &p.cmdline {
            Some(words) => join_words(words),
            None => name.clone(),
        };
        let (io_read_bytes, io_write_bytes) = match p.io {
            Some(io) => io,
            None => (0, 0),
        };
        let proc_time = p.utime + p.stime;
        let (cpu_delta, system_delta, io_read_delta, io_write_delta, io_elapsed_ns) = match self.prev_stats.get(&p.pid) {
            Some(prev) => (
                proc_time.saturating_sub(prev.cpu_time),
                system_total.saturating_sub(prev.system_time),
                io_read_bytes.saturating_sub(prev.io_read_bytes),
                io_write_bytes.saturating_sub(prev.io_write_bytes),
                now.saturating_sub(prev.timestamp),
            ),
            None => (0, 0, 0, 0, 0),
        };
        self.prev_stats.insert(p.pid, PrevProcessStats {
            cpu_time: proc_time,
            system_time: system_total,
            io_read_bytes,
            io_write_bytes,
            timestamp: now,
        });
        let rss = p.rss_pages * 4096;
        let state = state_name_of(p.state);
        let user = match &p.user_name {
            Some(n) => n.clone(),
            None => {
                let mut d: Vec<char> = Vec::new();
                push_decimal(&mut d, p.ruid as u64);
                string_from_chars(&d)
            },
        };
        let net_connections = p.socket_inodes.len() as u32;
        let bandwidth = self.socket_collector.get_process_bandwidth(p.socket_inodes.as_slice(), now);
        let net = self.socket_collector.get_process_stats(p.socket_inodes.as_slice(), now);
        ProcessRecord {
            pid: p.pid,
            name,
            cmdline,
            cpu_delta,
            system_delta,
            rss,
            vsize: p.vsize,
            io_read_bytes,
            io_write_bytes,
            io_read_delta,
            io_write_delta,
            io_elapsed_ns,
            net_connections,
            net,
            bandwidth,
            state,
            user,
        }
    }

    /// One sample of the process table: refreshes the socket table from the
    /// `/proc/net` tables and INET_DIAG replies, makes a record of each entry
    /// that could be read (in order, each against the stats recorded before
    /// it), and keeps the recorded stats of the listed PIDs only. `system` is
    /// the machine's CPU times, `now` the time in nanoseconds on a monotonic
    /// clock. The records come in table order; `order::order_processes` orders
    /// and limits them by PID, name or socket counts.
    pub fn collect(
        &mut self,
        tables: &Vec<SocketTable>,
        replies: &Vec<InetRecord>,
        system: CpuTimes,
        entries: &Vec<ProcessEntry>,
        now: u64,
    ) -> (r: Vec<ProcessRecord>)
        requires
            fits(system),
            forall|i: int| 0 <= i < entries@.len() ==> ((#[trigger] entries@[i]).reading matches Some(p) ==> reading_fits(p)),
        ensures
            ({
                let cache = apply_replies(insert_tables(Map::empty(), tables@), replies@);
                let sock_prev = old(self).sockets().prev().restrict(cache.dom());
                let rs = readings_of(entries@);
                let st = total_time(system) as u64;
                &&& final(self).sockets().cache() == cache
                &&& r@.len() == rs.len()
                &&& forall|i: int| 0 <= i < rs.len() ==> record_of(
                    #[trigger] r@[i],
                    rs[i],
                    marks_after(old(self).prev(), rs.take(i), st, now),
                    cache,
                    socket_marks_after(sock_prev, cache, rs.take(i), now),
                    st,
                    now,
                )
                &&& final(self).prev() == marks_after(old(self).prev(), rs, st, now).restrict(pids_of(entries@).to_set())
                &&& final(self).sockets().prev() == socket_marks_after(sock_prev, cache, rs, now)
                &&& final(self).total_memory_spec() == old(self).total_memory_spec()
            }),
    {
        let ghost prev0 = self.prev();
        self.refresh_sockets(tables, replies);
        let ghost cache = self.sockets().cache();
        let ghost sp0 = self.sockets().prev();
        let system_total = system.total();
        let ghost st = total_time(system) as u64;
        let mut records: Vec<ProcessRecord> = Vec::new();
        let mut pids: Vec<i32> = Vec::new();
        let mut i: usize = 0;
        proof {
            assert(entries@.take(0) =~= Seq::<ProcessEntry>::empty());
            assert(pids@ =~= pids_of(entries@.take(0)));
        }
        while i < entries.len()
            invariant
                i <= entries@.len(),
                system_total == st,
                forall|k: int| 0 <= k < entries@.len() ==> ((#[trigger] entries@[k]).reading matches Some(p) ==> reading_fits(p)),
                self.sockets().cache() == cache,
                self.total_memory_spec() == old(self).total_memory_spec(),
                pids@ == pids_of(entries@.take(i as int)),
                records@.len() == readings_of(entries@.take(i as int)).len(),
                forall|j: int| 0 <= j < records@.len() ==> record_of(
                    #[trigger] records@[j],
                    readings_of(entries@.take(i as int))[j],
                    marks_after(prev0, readings_of(entries@.take(i as int)).take(j), st, now),
                    cache,
                    socket_marks_after(sp0, cache, readings_of(entries@.take(i as int)).take(j), now),
                    st,
                    now,
                ),
                self.prev() == marks_after(prev0, readings_of(entries@.take(i as int)), st, now),
                self.sockets().prev() == socket_marks_after(sp0, cache, readings_of(entries@.take(i as int)), now),
            decreases entries@.len() - i,
        {
            let ghost rs_old = readings_of(entries@.take(i as int));
            let e = &entries[i];
            pids.push(e.pid);
            proof {
                assert(entries@.take(i + 1).drop_last() =~= entries@.take(i as int));
                assert(entries@.take(i + 1).last() == entries@[i as int]);
                assert(pids@ =~= pids_of(entries@.take(i + 1)));
            }
            match &e.reading {
                Some(p) => {
                    let ghost before = *self;
                    let rec = self.process_info(p, system_total, now);
                    records.push(rec);
                    proof {
                        let rs_new = readings_of(entries@.take(i + 1));
                        assert(rs_new == rs_old.push(*p));
                        assert(rs_new.drop_last() =~= rs_old);
                        assert(rs_new.take(rs_old.len() as int) =~= rs_old);
                        assert forall|j: int| 0 <= j < records@.len() implies record_of(
                            #[trigger] records@[j],
                            rs_new[j],
                            marks_after(prev0, rs_new.take(j), st, now),
                            cache,
                            socket_marks_after(sp0, cache, rs_new.take(j), now),
                            st,
                            now,
                        ) by {
                            if j < rs_old.len() {
                                assert(rs_new.take(j) =~= rs_old.take(j));
                                assert(rs_new[j] == rs_old[j]);
                            } else {
                                assert(rs_new[j] == *p);
                            }
                        }
                    }
                },
                None => {
                    proof {
                        assert(readings_of(entries@.take(i + 1)) == rs_old);
                    }
                },
            }
            i = i + 1;
        }
        proof {
            assert(entries@.take(entries@.len() as int) =~= entries@);
        }
        self.retain_pids(&pids);
        records
    }

    /// Forget the recorded stats of processes that are gone: keeps those of
    /// the PIDs in `current_pids`.
    pub fn retain_pids(&mut self, current_pids: &Vec<i32>)
        ensures
            final(self).prev() == old(self).prev().restrict(current_pids@.to_set()),
            final(self).sockets() == old(self).sockets(),
            final(self).total_memory_spec() == old(self).total_memory_spec(),
    {
        broadcast use vstd::std_specs::hash::group_hash_axioms;

        let mut r: HashMap<i32, PrevProcessStats> = HashMap::new();
        let mut i: usize = 0;
        proof {
            assert(current_pids@.take(0).to_set() =~= Set::<i32>::empty());
            assert(r@ =~= self.prev_stats@.restrict(current_pids@.take(0).to_set()));
        }
        while i < current_pids.len()
            invariant
                i <= current_pids@.len(),
                r@ == self.prev_stats@.restrict(current_pids@.take(i as int).to_set()),
            decreases current_pids@.len() - i,
        {
            let k = current_pids[i];
            proof {
                let t = current_pids@.take(i + 1);
                let s = current_pids@.take(i as int);
                assert(t =~= s.push(k));
                assert forall|y: i32| t.contains(y) <==> s.contains(y) || y == k by {
                    if t.contains(y) {
                        let j = choose|j: int| 0 <= j < t.len() && t[j] == y;
                        if j < s.len() {
                            assert(s[j] == y);
                        }
                    }
                    if s.contains(y) {
                        let j = choose|j: int| 0 <= j < s.len() && s[j] == y;
                        assert(t[j] == y);
                    }
                    if y == k {
                        assert(t[s.len() as int] == y);
                    }
                }
            }
            match self.prev_stats.get(&k) {
                Some(v) => {
                    r.insert(k, *v);
                },
                None => {},
            }
            proof {
                assert(r@ =~= self.prev_stats@.restrict(current_pids@.take(i + 1).to_set()));
            }
            i = i + 1;
        }
        proof {
            assert(current_pids@.take(current_pids@.len() as int) =~= current_pids@);
        }
        self.prev_stats = r;
    }
}

} // verus!
