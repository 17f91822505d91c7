//! Per-process network statistics: the socket tables of `/proc/net/*`, the
//! socket records of the kernel's INET_DIAG replies, and the sockets a
//! process holds.

use crate::text::{
    char_pos, chars_of, fields, find_char, line_spans, lines, parse_unsigned, parse_unsigned_at,
    spans_are_lines, split_fields, views,
};
use std::collections::HashMap;
use vstd::prelude::*;

verus! {

/// TCP connection states (from kernel include/net/tcp_states.h).
#[derive(Debug, Clone, Copy, PartialEq, Eq, Structural)]
pub enum TcpState {
    Established,
    SynSent,
    SynRecv,
    FinWait1,
    FinWait2,
    TimeWait,
    Close,
    CloseWait,
    LastAck,
    Listen,
    Closing,
    Unknown,
}

/// The state the kernel numbers `n` (1 to 11); any other number is
/// `Unknown`.
pub open spec fn tcp_state_of(n: u8) -> TcpState {
    if n == 1 {
        TcpState::Established
    } else if n == 2 {
        TcpState::SynSent
    } else if n == 3 {
        TcpState::SynRecv
    } else if n == 4 {
        TcpState::FinWait1
    } else if n == 5 {
        TcpState::FinWait2
    } else if n == 6 {
        TcpState::TimeWait
    } else if n == 7 {
        TcpState::Close
    } else if n == 8 {
        TcpState::CloseWait
    } else if n == 9 {
        TcpState::LastAck
    } else if n == 10 {
        TcpState::Listen
    } else if n == 11 {
        TcpState::Closing
    } else {
        TcpState::Unknown
    }
}

impl From<u8> for TcpState {
    /// The state the kernel numbers `state`.
    fn from(state: u8) -> (r: TcpState) {
        match state {
            1 => TcpState::Established,
            2 => TcpState::SynSent,
            3 => TcpState::SynRecv,
            4 => TcpState::FinWait1,
            5 => TcpState::FinWait2,
            6 => TcpState::TimeWait,
            7 => TcpState::Close,
            8 => TcpState::CloseWait,
            9 => TcpState::LastAck,
            10 => TcpState::Listen,
            11 => TcpState::Closing,
            _ => TcpState::Unknown,
        }
    }
}

impl vstd::std_specs::convert::FromSpecImpl<u8> for TcpState {
    open spec fn obeys_from_spec() -> bool {
        true
    }

    open spec fn from_spec(state: u8) -> TcpState {
        tcp_state_of(state)
    }
}

impl TcpState {
    /// The kernel's number for the state (0 for `Unknown`).
    pub fn code(&self) -> (r: u8)
        ensures
            r <= 11,
            1 <= r ==> tcp_state_of(r) == *self,
            r == 0 <==> *self == TcpState::Unknown,
    {
        match self {
            TcpState::Established => 1,
            TcpState::SynSent => 2,
            TcpState::SynRecv => 3,
            TcpState::FinWait1 => 4,
            TcpState::FinWait2 => 5,
            TcpState::TimeWait => 6,
            TcpState::Close => 7,
            TcpState::CloseWait => 8,
            TcpState::LastAck => 9,
            TcpState::Listen => 10,
            TcpState::Closing => 11,
            TcpState::Unknown => 0,
        }
    }
}

/// Socket protocol type.
#[derive(Debug, Clone, Copy, PartialEq, Eq, Structural)]
pub enum SocketProtocol {
    Tcp,
    Udp,
}

/// Information about a network socket.
#[derive(Debug, Clone, Copy)]
pub struct SocketInfo {
    pub protocol: SocketProtocol,
    pub state: TcpState,
    pub local_port: u16,
    pub remote_port: u16,
    pub tx_queue: u32,
    pub rx_queue: u32,
    /// Bytes received (from netlink, if available).
    pub rx_bytes: u64,
    /// Bytes transmitted (from netlink, if available).
    pub tx_bytes: u64,
}

/// The port of an `ADDRESS:PORT` field of `/proc/net/tcp`: the field must
/// hold exactly one `':'`, and the port is hexadecimal.
pub open spec fn parse_addr_port_spec(a: Seq<char>) -> Option<u16> {
    let k = char_pos(a, ':');
    if k < a.len() && char_pos(a.skip(k + 1 as int), ':') == a.len() - (k + 1) {
        match parse_unsigned(a.skip(k + 1 as int), 16, 0xffff) {
            Some(v) => Some(v as u16),
            None => None,
        }
    } else {
        None
    }
}

/// A hexadecimal field read as a `u32`, or zero when it does not parse.
pub open spec fn hex_u32_or_zero(t: Seq<char>) -> u32 {
    match parse_unsigned(t, 16, 0xffff_ffff) {
        Some(v) => v as u32,
        None => 0,
    }
}

/// A line of a `/proc/net/{tcp,tcp6,udp,udp6}` table: the socket's inode and
/// what the line says of it. Lines with fewer than ten fields, with an
/// address, state, queue or inode field that does not read, or with inode 0
/// give nothing. A queue size that does not read counts as zero.
pub open spec fn parse_socket_line_spec(line: Seq<char>, protocol: SocketProtocol) -> Option<(u64, SocketInfo)> {
    let p = fields(line);
    if p.len() < 10 {
        None
    } else {
        let q = p[4];
        let k = char_pos(q, ':');
        let rest = q.skip(k + 1 as int);
        match (parse_addr_port_spec(p[1]), parse_addr_port_spec(p[2]), parse_unsigned(p[3], 16, 0xff), parse_unsigned(p[9], 10, 0xffff_ffff_ffff_ffff)) {
            (Some(lp), Some(rp), Some(st), Some(inode)) => {
                if k < q.len() && inode != 0 {
                    Some((inode as u64, SocketInfo {
                        protocol,
                        state: tcp_state_of(st as u8),
                        local_port: lp,
                        remote_port: rp,
                        tx_queue: hex_u32_or_zero(q.take(k as int)),
                        rx_queue: hex_u32_or_zero(rest.take(char_pos(rest, ':') as int)),
                        rx_bytes: 0,
                        tx_bytes: 0,
                    }))
                } else {
                    None
                }
            },
            _ => None,
        }
    }
}

/// Reads the hexadecimal `s[start..end]` as a `u32`, or zero.
fn hex_u32_at(s: &Vec<char>, start: usize, end: usize) -> (r: u32)
    requires
        start <= end <= s@.len(),
    ensures
        r == hex_u32_or_zero(s@.subrange(start as int, end as int)),
{
    match parse_unsigned_at(s, start, end, 16, 0xffff_ffff) {
        Some(v) => v as u32,
        None => 0,
    }
}

/// The port of the `ADDRESS:PORT` field `s[start..end]`.
fn addr_port_at(s: &Vec<char>, start: usize, end: usize) -> (r: Option<u16>)
    requires
        start <= end <= s@.len(),
    ensures
        r == parse_addr_port_spec(s@.subrange(start as int, end as int)),
{
    let ghost a = s@.subrange(start as int, end as int);
    let k = find_char(s, start, end, ':');
    if k == end {
        return None;
    }
    let k2 = find_char(s, k + 1, end, ':');
    proof {
        assert(a.skip(k - start + 1) =~= s@.subrange(k + 1, end as int));
    }
    if k2 != end {
        return None;
    }
    match parse_unsigned_at(s, k + 1, end, 16, 0xffff) {
        Some(v) => Some(v as u16),
        None => None,
    }
}

/// The socket described by the line `s[start..end]` of a `/proc/net` table.
fn socket_line_at(s: &Vec<char>, start: usize, end: usize, protocol: SocketProtocol) -> (r: Option<(u64, SocketInfo)>)
    requires
        start <= end <= s@.len(),
    ensures
        r == parse_socket_line_spec(s@.subrange(start as int, end as int), protocol),
{
    let parts = split_fields(s, start, end);
    let ghost p = views(parts@);
    if parts.len() < 10 {
        return None;
    }
    proof {
        assert(p[1] == parts@[1]@);
        assert(p[2] == parts@[2]@);
        assert(p[3] == parts@[3]@);
        assert(p[4] == parts@[4]@);
        assert(p[9] == parts@[9]@);
        assert(parts@[1]@.subrange(0, parts@[1]@.len() as int) =~= parts@[1]@);
        assert(parts@[2]@.subrange(0, parts@[2]@.len() as int) =~= parts@[2]@);
        assert(parts@[3]@.subrange(0, parts@[3]@.len() as int) =~= parts@[3]@);
        assert(parts@[4]@.subrange(0, parts@[4]@.len() as int) =~= parts@[4]@);
        assert(parts@[9]@.subrange(0, parts@[9]@.len() as int) =~= parts@[9]@);
    }
    let local_port = addr_port_at(&parts[1], 0, parts[1].len());
    let remote_port = addr_port_at(&parts[2], 0, parts[2].len());
    let st = parse_unsigned_at(&parts[3], 0, parts[3].len(), 16, 0xff);
    let q = &parts[4];
    let k = find_char(q, 0, q.len(), ':');
    let inode = parse_unsigned_at(&parts[9], 0, parts[9].len(), 10, 0xffff_ffff_ffff_ffff);
    match (local_port, remote_port, st) {
        (Some(lp), Some(rp), Some(state_code)) => {
            if k == q.len() {
                return None;
            }
            let tx_queue = hex_u32_at(q, 0, k);
            let k2 = find_char(q, k + 1, q.len(), ':');
            let rx_queue = hex_u32_at(q, k + 1, k2);
            proof {
                let rest = q@.skip(k + 1);
                assert(rest =~= q@.subrange(k + 1, q@.len() as int));
                assert(rest.take(k2 - (k + 1)) =~= q@.subrange(k + 1, k2 as int));
                assert(q@.take(k as int) =~= q@.subrange(0, k as int));
            }
            match inode {
                Some(ino) => {
                    if ino == 0 {
                        return None;
                    }
                    Some((ino, SocketInfo {
                        protocol,
                        state: TcpState::from(state_code as u8),
                        local_port: lp,
                        remote_port: rp,
                        tx_queue,
                        rx_queue,
                        rx_bytes: 0,
                        tx_bytes: 0,
                    }))
                },
                None => None,
            }
        },
        _ => None,
    }
}

/// The lines of a `/proc/net` table after its header line.
pub open spec fn table_lines(s: Seq<char>) -> Seq<Seq<char>> {
    if lines(s).len() >= 1 {
        lines(s).skip(1)
    } else {
        Seq::empty()
    }
}

/// The sockets of the table lines `ls`, recorded into `m` line by line (a
/// later line for the same inode replaces an earlier one).
pub open spec fn insert_lines(m: Map<u64, SocketInfo>, ls: Seq<Seq<char>>, protocol: SocketProtocol) -> Map<u64, SocketInfo>
    decreases ls.len(),
{
    if ls.len() == 0 {
        m
    } else {
        let m1 = insert_lines(m, ls.drop_last(), protocol);
        match parse_socket_line_spec(ls.last(), protocol) {
            Some((inode, info)) => m1.insert(inode, info),
            None => m1,
        }
    }
}

/// A `/proc/net` socket table that was read: its text and its protocol.
#[derive(Debug, Clone)]
pub struct SocketTable {
    pub contents: String,
    pub protocol: SocketProtocol,
}

/// The sockets of the tables, recorded into `m` table by table.
pub open spec fn insert_tables(m: Map<u64, SocketInfo>, ts: Seq<SocketTable>) -> Map<u64, SocketInfo>
    decreases ts.len(),
{
    if ts.len() == 0 {
        m
    } else {
        let m1 = insert_tables(m, ts.drop_last());
        insert_lines(m1, table_lines(ts.last().contents@), ts.last().protocol)
    }
}

/// What an INET_DIAG reply says of one socket.
#[derive(Debug, Clone, Copy)]
pub struct InetRecord {
    pub inode: u64,
    pub state: u8,
    pub source_port: u16,
    pub destination_port: u16,
    pub send_queue: u32,
    pub recv_queue: u32,
    /// The protocol the request asked about.
    pub protocol: SocketProtocol,
}

/// What a reply does to the recorded sockets: a known socket takes the
/// reply's queue sizes as its byte counts; an unknown one is recorded from
/// the reply. Inode 0 is ignored.
pub open spec fn apply_reply(m: Map<u64, SocketInfo>, r: InetRecord) -> Map<u64, SocketInfo> {
    if r.inode == 0 {
        m
    } else if m.contains_key(r.inode) {
        m.insert(r.inode, SocketInfo { rx_bytes: r.recv_queue as u64, tx_bytes: r.send_queue as u64, ..m[r.inode] })
    } else {
        m.insert(r.inode, SocketInfo {
            protocol: r.protocol,
            state: tcp_state_of(r.state),
            local_port: r.source_port,
            remote_port: r.destination_port,
            tx_queue: r.send_queue,
            rx_queue: r.recv_queue,
            rx_bytes: r.recv_queue as u64,
            tx_bytes: r.send_queue as u64,
        })
    }
}

/// The replies applied in order.
pub open spec fn apply_replies(m: Map<u64, SocketInfo>, rs: Seq<InetRecord>) -> Map<u64, SocketInfo>
    decreases rs.len(),
{
    if rs.len() == 0 {
        m
    } else {
        apply_reply(apply_replies(m, rs.drop_last()), rs.last())
    }
}

/// Byte counts of the recorded sockets for rate calculation.
#[derive(Debug, Clone, Copy)]
pub struct PrevSocketBytes {
    pub rx_bytes: u64,
    pub tx_bytes: u64,
    /// Time of the sample, in nanoseconds on the caller's monotonic clock.
    pub timestamp: u64,
}

/// Per-process network statistics.
#[derive(Debug, Clone, Copy)]
pub struct ProcessNetStats {
    pub tcp_count: u32,
    pub udp_count: u32,
    pub listen_count: u32,
    pub established_count: u32,
    pub total_tx_queue: u64,
    pub total_rx_queue: u64,
    pub total_rx_bytes: u64,
    pub total_tx_bytes: u64,
}

impl ProcessNetStats {
    /// All counts zero.
    pub fn zero() -> (r: Self)
        ensures
            r == net_stats_of(Map::empty(), Seq::empty()),
    {
        ProcessNetStats {
            tcp_count: 0,
            udp_count: 0,
            listen_count: 0,
            established_count: 0,
            total_tx_queue: 0,
            total_rx_queue: 0,
            total_rx_bytes: 0,
            total_tx_bytes: 0,
        }
    }
}

/// The statistics of the sockets `inodes` (an inode listed twice counts
/// twice; inodes not recorded are not counted): TCP and UDP sockets, TCP
/// sockets listening and established, and the sums of the queue sizes and
/// byte counts.
pub open spec fn net_stats_of(cache: Map<u64, SocketInfo>, inodes: Seq<u64>) -> ProcessNetStats
    decreases inodes.len(),
{
    if inodes.len() == 0 {
        ProcessNetStats {
            tcp_count: 0,
            udp_count: 0,
            listen_count: 0,
            established_count: 0,
            total_tx_queue: 0,
            total_rx_queue: 0,
            total_rx_bytes: 0,
            total_tx_bytes: 0,
        }
    } else {
        let s = net_stats_of(cache, inodes.drop_last());
        let k = inodes.last();
        if cache.contains_key(k) {
            let info = cache[k];
            let tcp = info.protocol == SocketProtocol::Tcp;
            ProcessNetStats {
                tcp_count: (if tcp { s.tcp_count + 1 } else { s.tcp_count as int }) as u32,
                udp_count: (if tcp { s.udp_count as int } else { s.udp_count + 1 }) as u32,
                listen_count: (if tcp && info.state == TcpState::Listen { s.listen_count + 1 } else { s.listen_count as int }) as u32,
                established_count: (if tcp && info.state == TcpState::Established { s.established_count + 1 } else { s.established_count as int }) as u32,
                total_tx_queue: (s.total_tx_queue + info.tx_queue) as u64,
                total_rx_queue: (s.total_rx_queue + info.rx_queue) as u64,
                total_rx_bytes: (s.total_rx_bytes + info.rx_bytes) as u64,
                total_tx_bytes: (s.total_tx_bytes + info.tx_bytes) as u64,
            }
        } else {
            s
        }
    }
}

/// One socket's share of a process's bandwidth: the growth of its byte
/// counts since they were recorded, and the time that passed (more than
/// zero). The rate is the growth divided by the time.
#[derive(Debug, Clone, Copy)]
pub struct BandwidthPart {
    pub rx_delta: u64,
    pub tx_delta: u64,
    pub elapsed_ns: u64,
}

/// The bandwidth shares of the sockets `inodes` at time `now`: one for each
/// listed inode that is recorded, has recorded byte counts, and whose counts
/// were recorded before `now`.
pub open spec fn bandwidth_of(cache: Map<u64, SocketInfo>, prev: Map<u64, PrevSocketBytes>, inodes: Seq<u64>, now: u64) -> Seq<BandwidthPart>
    decreases inodes.len(),
{
    if inodes.len() == 0 {
        Seq::empty()
    } else {
        let b = bandwidth_of(cache, prev, inodes.drop_last(), now);
        let k = inodes.last();
        if cache.contains_key(k) && prev.contains_key(k) && sat_sub_u64(now, prev[k].timestamp) > 0 {
            b.push(BandwidthPart {
                rx_delta: sat_sub_u64(cache[k].rx_bytes, prev[k].rx_bytes),
                tx_delta: sat_sub_u64(cache[k].tx_bytes, prev[k].tx_bytes),
                elapsed_ns: sat_sub_u64(now, prev[k].timestamp),
            })
        } else {
            b
        }
    }
}

/// `a - b`, or zero when `b` is larger.
pub open spec fn sat_sub_u64(a: u64, b: u64) -> u64 {
    if a >= b { (a - b) as u64 } else { 0 }
}

/// Socket collector: the sockets of the last refresh by inode, and the byte
/// counts recorded for rate calculation.
pub struct SocketCollector {
    socket_cache: HashMap<u64, SocketInfo>,
    prev_bytes: HashMap<u64, PrevSocketBytes>,
}

/// The byte counts of every recorded socket fit in a `u32` (they come from
/// queue sizes).
pub open spec fn counts_bounded(m: Map<u64, SocketInfo>) -> bool {
    forall|k: u64| #[trigger] m.contains_key(k) ==> m[k].rx_bytes <= u32::MAX && m[k].tx_bytes <= u32::MAX
}

proof fn lemma_insert_lines_bounded(m: Map<u64, SocketInfo>, ls: Seq<Seq<char>>, protocol: SocketProtocol)
    requires
        counts_bounded(m),
    ensures
        counts_bounded(insert_lines(m, ls, protocol)),
    decreases ls.len(),
{
    if ls.len() > 0 {
        lemma_insert_lines_bounded(m, ls.drop_last(), protocol);
    }
}

impl SocketCollector {
    #[verifier::type_invariant]
    closed spec fn bounded(&self) -> bool {
        counts_bounded(self.socket_cache@)
    }

    /// The sockets of the last refresh, by inode.
    pub closed spec fn cache(&self) -> Map<u64, SocketInfo> {
        self.socket_cache@
    }

    /// The byte counts recorded for rate calculation, by inode.
    pub closed spec fn prev(&self) -> Map<u64, PrevSocketBytes> {
        self.prev_bytes@
    }

    /// Create a new socket collector.
    pub fn new() -> (r: Self)
        ensures
            r.cache() == Map::<u64, SocketInfo>::empty(),
            r.prev() == Map::<u64, PrevSocketBytes>::empty(),
    {
        SocketCollector { socket_cache: HashMap::new(), prev_bytes: HashMap::new() }
    }

    /// Parse port from address string (IP:PORT in hex).
    pub fn parse_addr_port(&self, addr: &str) -> (r: Option<u16>)
        ensures
            r == parse_addr_port_spec(addr@),
    {
        let a = chars_of(addr);
        proof {
            assert(a@.subrange(0, a@.len() as int) =~= a@);
        }
        addr_port_at(&a, 0, a.len())
    }

    /// Parse a single line from /proc/net/tcp or /proc/net/udp.
    pub fn parse_socket_line(&self, line: &str, protocol: SocketProtocol) -> (r: Option<(u64, SocketInfo)>)
        ensures
            r == parse_socket_line_spec(line@, protocol),
    {
        let a = chars_of(line);
        proof {
            assert(a@.subrange(0, a@.len() as int) =~= a@);
        }
        socket_line_at(&a, 0, a.len(), protocol)
    }

    /// Get the number of cached sockets.
    pub fn socket_count(&self) -> (r: usize)
        ensures
            r == self.cache().len(),
    {
        broadcast use vstd::std_specs::hash::group_hash_axioms;
        self.socket_cache.len()
    }
}

proof fn lemma_to_set_push(s: Seq<u64>, x: u64)
    ensures
        s.push(x).to_set() == s.to_set().insert(x),
{
    let t = s.push(x);
    assert forall|y: u64| t.contains(y) <==> s.contains(y) || y == x by {
        if t.contains(y) {
            let j = choose|j: int| 0 <= j < t.len() && t[j] == y;
            if j < s.len() {
                assert(s[j] == y);
            }
        }
        if s.contains(y) {
            let j = choose|j: int| 0 <= j < s.len() && s[j] == y;
            assert(t[j] == y);
        }
        if y == x {
            assert(t[s.len() as int] == y);
        }
    }
    assert(t.to_set() =~= s.to_set().insert(x));
}

/// Records the sockets of a `/proc/net` table into `cache`, noting each
/// inode recorded in `keys`.
fn parse_proc_net(cache: &mut HashMap<u64, SocketInfo>, keys: &mut Vec<u64>, contents: &str, protocol: SocketProtocol)
    requires
        old(cache)@.dom() == old(keys)@.to_set(),
    ensures
        final(cache)@ == insert_lines(old(cache)@, table_lines(contents@), protocol),
        final(cache)@.dom() == final(keys)@.to_set(),
{
    broadcast use vstd::std_specs::hash::group_hash_axioms;

    let text = chars_of(contents);
    let spans = line_spans(&text);
    let ghost ls = lines(text@);
    let ghost tl = table_lines(text@);
    if spans.len() == 0 {
        proof {
            assert(tl =~= Seq::<Seq<char>>::empty());
        }
        return;
    }
    let mut k: usize = 1;
    proof {
        assert(tl =~= ls.skip(1));
        assert(tl.take(0) =~= Seq::<Seq<char>>::empty());
    }
    while k < spans.len()
        invariant
            1 <= k <= spans@.len(),
            ls == lines(text@),
            tl == ls.skip(1),
            text@ == contents@,
            spans_are_lines(text@, spans@, ls),
            cache@ == insert_lines(old(cache)@, tl.take(k - 1), protocol),
            cache@.dom() == keys@.to_set(),
        decreases spans@.len() - k,
    {
        let (a, b) = spans[k];
        proof {
            assert(spans@[k as int] == (a, b));
            assert(tl[k - 1] == ls[k as int]);
            assert(tl.take(k as int).drop_last() =~= tl.take(k - 1));
            assert(tl.take(k as int).last() == ls[k as int]);
        }
        match socket_line_at(&text, a, b, protocol) {
            Some((inode, info)) => {
                let ghost before = keys@;
                cache.insert(inode, info);
                keys.push(inode);
                proof {
                    lemma_to_set_push(before, inode);
                }
            },
            None => {},
        }
        k = k + 1;
    }
    proof {
        assert(tl.take(spans@.len() - 1) =~= tl);
    }
}

/// Applies the INET_DIAG replies to `cache`, noting each inode recorded in
/// `keys`.
fn process_inet_responses(cache: &mut HashMap<u64, SocketInfo>, keys: &mut Vec<u64>, replies: &Vec<InetRecord>)
    requires
        old(cache)@.dom() == old(keys)@.to_set(),
    ensures
        final(cache)@ == apply_replies(old(cache)@, replies@),
        final(cache)@.dom() == final(keys)@.to_set(),
{
    broadcast use vstd::std_specs::hash::group_hash_axioms;

    let mut i: usize = 0;
    proof {
        assert(replies@.take(0) =~= Seq::<InetRecord>::empty());
    }
    while i < replies.len()
        invariant
            i <= replies@.len(),
            cache@ == apply_replies(old(cache)@, replies@.take(i as int)),
            cache@.dom() == keys@.to_set(),
        decreases replies@.len() - i,
    {
        let r = replies[i];
        proof {
            assert(replies@.take(i + 1).drop_last() =~= replies@.take(i as int));
            assert(replies@.take(i + 1).last() == r);
        }
        if r.inode != 0 {
            let ghost before = keys@;
            let existing = match cache.get(&r.inode) {
                Some(info) => Some(*info),
                None => None,
            };
            match existing {
                Some(info) => {
                    cache.insert(r.inode, SocketInfo { rx_bytes: r.recv_queue as u64, tx_bytes: r.send_queue as u64, ..info });
                },
                None => {
                    cache.insert(r.inode, SocketInfo {
                        protocol: r.protocol,
                        state: TcpState::from(r.state),
                        local_port: r.source_port,
                        remote_port: r.destination_port,
                        tx_queue: r.send_queue,
                        rx_queue: r.recv_queue,
                        rx_bytes: r.recv_queue as u64,
                        tx_bytes: r.send_queue as u64,
                    });
                },
            }
            keys.push(r.inode);
            proof {
                lemma_to_set_push(before, r.inode);
            }
        }
        i = i + 1;
    }
    proof {
        assert(replies@.take(replies@.len() as int) =~= replies@);
    }
}

/// The recorded byte counts of the inodes in `keys`.
fn restrict_prev(prev: &HashMap<u64, PrevSocketBytes>, keys: &Vec<u64>) -> (r: HashMap<u64, PrevSocketBytes>)
    ensures
        r@ == prev@.restrict(keys@.to_set()),
{
    broadcast use vstd::std_specs::hash::group_hash_axioms;

    let mut r: HashMap<u64, PrevSocketBytes> = HashMap::new();
    let mut i: usize = 0;
    proof {
        assert(keys@.take(0).to_set() =~= Set::<u64>::empty());
        assert(r@ =~= prev@.restrict(keys@.take(0).to_set()));
    }
    while i < keys.len()
        invariant
            i <= keys@.len(),
            r@ == prev@.restrict(keys@.take(i as int).to_set()),
        decreases keys@.len() - i,
    {
        let k = keys[i];
        proof {
            assert(keys@.take(i + 1) =~= keys@.take(i as int).push(k));
            lemma_to_set_push(keys@.take(i as int), k);
        }
        match prev.get(&k) {
            Some(v) => {
                r.insert(k, *v);
                proof {
                    assert(r@ =~= prev@.restrict(keys@.take(i + 1).to_set()));
                }
            },
            None => {
                proof {
                    assert(r@ =~= prev@.restrict(keys@.take(i + 1).to_set()));
                }
            },
        }
        i = i + 1;
    }
    proof {
        assert(keys@.take(keys@.len() as int) =~= keys@);
    }
    r
}

proof fn lemma_apply_replies_bounded(m: Map<u64, SocketInfo>, rs: Seq<InetRecord>)
    requires
        counts_bounded(m),
    ensures
        counts_bounded(apply_replies(m, rs)),
    decreases rs.len(),
{
    if rs.len() > 0 {
        lemma_apply_replies_bounded(m, rs.drop_last());
    }
}

proof fn lemma_insert_tables_bounded(m: Map<u64, SocketInfo>, ts: Seq<SocketTable>)
    requires
        counts_bounded(m),
    ensures
        counts_bounded(insert_tables(m, ts)),
    decreases ts.len(),
{
    if ts.len() > 0 {
        lemma_insert_tables_bounded(m, ts.drop_last());
        lemma_insert_lines_bounded(insert_tables(m, ts.drop_last()), table_lines(ts.last().contents@), ts.last().protocol);
    }
}

/// Counting a process's sockets: TCP and UDP sockets together are no more
/// than the inodes listed; listening and established sockets are among the
/// TCP ones; each sum is at most one `u32` per listed inode.
pub proof fn law_net_stats_counts(c: Map<u64, SocketInfo>, s: Seq<u64>)
    requires
        counts_bounded(c),
        s.len() <= u32::MAX,
    ensures
        net_stats_of(c, s).tcp_count + net_stats_of(c, s).udp_count <= s.len(),
        net_stats_of(c, s).listen_count + net_stats_of(c, s).established_count <= net_stats_of(c, s).tcp_count,
        net_stats_of(c, s).total_tx_queue <= s.len() * 0xffff_ffff,
        net_stats_of(c, s).total_rx_queue <= s.len() * 0xffff_ffff,
{
    lemma_net_stats_bounded(c, s);
}

/// The kernel's state numbers and the states correspond one to one: the
/// state read from a number in 1 to 11 gives that number back.
pub proof fn law_tcp_state_code(n: u8)
    requires
        1 <= n <= 11,
    ensures
        tcp_state_of(n) != TcpState::Unknown,
{
}

/// Bandwidth is measured against byte counts recorded earlier: right after
/// the counts of some sockets were recorded at time `now`, those sockets
/// have no bandwidth share at `now`.
pub proof fn law_bandwidth_after_recording(
    cache: Map<u64, SocketInfo>,
    prev: Map<u64, PrevSocketBytes>,
    inodes: Seq<u64>,
    now: u64,
)
    ensures
        bandwidth_of(cache, prev.union_prefer_right(recorded_bytes(cache, inodes, now)), inodes, now)
            == Seq::<BandwidthPart>::empty(),
{
    let p = prev.union_prefer_right(recorded_bytes(cache, inodes, now));
    assert forall|k: u64| #[trigger] inodes.contains(k) && cache.contains_key(k) implies p.contains_key(k)
        && p[k].timestamp == now by {
        assert(recorded_bytes(cache, inodes, now).contains_key(k));
    }
    lemma_bandwidth_all_recorded_now(cache, p, inodes, inodes, now);
}

/// A socket whose received bytes grew since its counts were recorded, at an
/// earlier time, has a bandwidth share with that growth over that time.
pub proof fn law_bandwidth_growth(
    cache: Map<u64, SocketInfo>,
    prev: Map<u64, PrevSocketBytes>,
    inode: u64,
    now: u64,
)
    requires
        cache.contains_key(inode),
        prev.contains_key(inode),
        prev[inode].timestamp < now,
        prev[inode].rx_bytes < cache[inode].rx_bytes,
    ensures
        bandwidth_of(cache, prev, seq![inode], now) == seq![
            BandwidthPart {
                rx_delta: (cache[inode].rx_bytes - prev[inode].rx_bytes) as u64,
                tx_delta: sat_sub_u64(cache[inode].tx_bytes, prev[inode].tx_bytes),
                elapsed_ns: (now - prev[inode].timestamp) as u64,
            },
        ],
        bandwidth_of(cache, prev, seq![inode], now)[0].rx_delta > 0,
{
    let s = seq![inode];
    assert(s.drop_last() =~= Seq::<u64>::empty());
    assert(bandwidth_of(cache, prev, s.drop_last(), now) == Seq::<BandwidthPart>::empty());
    assert(s.last() == inode);
    assert(bandwidth_of(cache, prev, s, now) =~= seq![
        BandwidthPart {
            rx_delta: (cache[inode].rx_bytes - prev[inode].rx_bytes) as u64,
            tx_delta: sat_sub_u64(cache[inode].tx_bytes, prev[inode].tx_bytes),
            elapsed_ns: (now - prev[inode].timestamp) as u64,
        },
    ]);
}

/// Bandwidth across two samples: when a process's sockets `inodes` were
/// recorded at `t1` from the socket table `cache1`, and socket `k` among them
/// is still in the table `cache2` of the next refresh with more received
/// bytes at `t2`, the next sample measures that growth over `t2 - t1`. The
/// recorded counts are those `get_process_stats` leaves (`recorded_bytes`),
/// restricted by `refresh` to the sockets of the new table.
pub proof fn law_bandwidth_across_samples(
    cache1: Map<u64, SocketInfo>,
    cache2: Map<u64, SocketInfo>,
    prev0: Map<u64, PrevSocketBytes>,
    inodes: Seq<u64>,
    k: u64,
    t1: u64,
    t2: u64,
)
    requires
        inodes.contains(k),
        cache1.contains_key(k),
        cache2.contains_key(k),
        t1 < t2,
        cache1[k].rx_bytes < cache2[k].rx_bytes,
    ensures
        ({
            let prev2 = prev0.union_prefer_right(recorded_bytes(cache1, inodes, t1)).restrict(cache2.dom());
            &&& bandwidth_of(cache2, prev2, seq![k], t2) == seq![
                BandwidthPart {
                    rx_delta: (cache2[k].rx_bytes - cache1[k].rx_bytes) as u64,
                    tx_delta: sat_sub_u64(cache2[k].tx_bytes, cache1[k].tx_bytes),
                    elapsed_ns: (t2 - t1) as u64,
                },
            ]
            &&& bandwidth_of(cache2, prev2, seq![k], t2)[0].rx_delta > 0
        }),
{
    let rec = recorded_bytes(cache1, inodes, t1);
    let prev2 = prev0.union_prefer_right(rec).restrict(cache2.dom());
    assert(rec.contains_key(k));
    assert(prev2.contains_key(k));
    assert(prev2[k] == rec[k]);
    law_bandwidth_growth(cache2, prev2, k, t2);
}

proof fn lemma_bandwidth_all_recorded_now(
    cache: Map<u64, SocketInfo>,
    p: Map<u64, PrevSocketBytes>,
    all: Seq<u64>,
    s: Seq<u64>,
    now: u64,
)
    requires
        forall|k: u64| #[trigger] all.contains(k) && cache.contains_key(k) ==> p.contains_key(k) && p[k].timestamp == now,
        forall|i: int| 0 <= i < s.len() ==> all.contains(#[trigger] s[i]),
    ensures
        bandwidth_of(cache, p, s, now) == Seq::<BandwidthPart>::empty(),
    decreases s.len(),
{
    if s.len() > 0 {
        let t = s.drop_last();
        assert forall|i: int| 0 <= i < t.len() implies all.contains(#[trigger] t[i]) by {
            assert(t[i] == s[i]);
        }
        lemma_bandwidth_all_recorded_now(cache, p, all, t, now);
        assert(all.contains(s[s.len() - 1]));
    }
}

/// The kernel's TCP state numbers: `1` is an established connection and
/// `10` a listening socket, and no other number means either; different
/// numbers from 1 to 11 are different states.
pub proof fn law_tcp_state_numbers(n: u8, m: u8)
    ensures
        tcp_state_of(n) == TcpState::Established <==> n == 1,
        tcp_state_of(n) == TcpState::Listen <==> n == 10,
        1 <= n <= 11 && 1 <= m <= 11 && n != m ==> tcp_state_of(n) != tcp_state_of(m),
{
}

proof fn lemma_net_stats_bounded(c: Map<u64, SocketInfo>, s: Seq<u64>)
    requires
        counts_bounded(c),
        s.len() <= u32::MAX,
    ensures
        net_stats_of(c, s).tcp_count + net_stats_of(c, s).udp_count <= s.len(),
        net_stats_of(c, s).listen_count + net_stats_of(c, s).established_count <= net_stats_of(c, s).tcp_count,
        net_stats_of(c, s).total_tx_queue <= s.len() * 0xffff_ffff,
        net_stats_of(c, s).total_rx_queue <= s.len() * 0xffff_ffff,
        net_stats_of(c, s).total_rx_bytes <= s.len() * 0xffff_ffff,
        net_stats_of(c, s).total_tx_bytes <= s.len() * 0xffff_ffff,
    decreases s.len(),
{
    if s.len() > 0 {
        lemma_net_stats_bounded(c, s.drop_last());
    }
}

/// The byte counts `get_process_stats` records for the sockets `inodes`
/// at time `now`: one entry per listed inode that is recorded.
pub open spec fn recorded_bytes(cache: Map<u64, SocketInfo>, inodes: Seq<u64>, now: u64) -> Map<u64, PrevSocketBytes> {
    Map::new(
        |k: u64| inodes.contains(k) && cache.contains_key(k),
        |k: u64| PrevSocketBytes { rx_bytes: cache[k].rx_bytes, tx_bytes: cache[k].tx_bytes, timestamp: now },
    )
}

impl SocketCollector {
    /// Rebuilds the socket table from the `/proc/net` tables that could be
    /// read (in the order tcp, tcp6, udp, udp6) and then the INET_DIAG
    /// replies received, and drops the byte counts of sockets that are gone.
    pub fn refresh(&mut self, tables: &Vec<SocketTable>, replies: &Vec<InetRecord>)
        ensures
            final(self).cache() == apply_replies(insert_tables(Map::empty(), tables@), replies@),
            final(self).prev() == old(self).prev().restrict(final(self).cache().dom()),
    {
        broadcast use vstd::std_specs::hash::group_hash_axioms;

        let mut cache: HashMap<u64, SocketInfo> = HashMap::new();
        let mut keys: Vec<u64> = Vec::new();
        let mut t: usize = 0;
        proof {
            assert(keys@.to_set() =~= Set::<u64>::empty());
            assert(cache@ =~= Map::<u64, SocketInfo>::empty());
            assert(tables@.take(0) =~= Seq::<SocketTable>::empty());
        }
        while t < tables.len()
            invariant
                t <= tables@.len(),
                cache@ == insert_tables(Map::empty(), tables@.take(t as int)),
                cache@.dom() == keys@.to_set(),
            decreases tables@.len() - t,
        {
            proof {
                assert(tables@.take(t + 1).drop_last() =~= tables@.take(t as int));
                assert(tables@.take(t + 1).last() == tables@[t as int]);
            }
            parse_proc_net(&mut cache, &mut keys, tables[t].contents.as_str(), tables[t].protocol);
            t = t + 1;
        }
        proof {
            assert(tables@.take(tables@.len() as int) =~= tables@);
        }
        process_inet_responses(&mut cache, &mut keys, replies);
        let prev = restrict_prev(&self.prev_bytes, &keys);
        proof {
            assert(counts_bounded(Map::<u64, SocketInfo>::empty()));
            lemma_insert_tables_bounded(Map::empty(), tables@);
            lemma_apply_replies_bounded(insert_tables(Map::empty(), tables@), replies@);
        }
        *self = SocketCollector { socket_cache: cache, prev_bytes: prev };
    }

    /// Get network stats for a process given its socket inodes, and record
    /// the byte counts of those sockets at time `now` for rate calculation.
    pub fn get_process_stats(&mut self, socket_inodes: &[u64], now: u64) -> (r: ProcessNetStats)
        requires
            socket_inodes@.len() <= u32::MAX,
        ensures
            r == net_stats_of(old(self).cache(), socket_inodes@),
            final(self).cache() == old(self).cache(),
            final(self).prev() == old(self).prev().union_prefer_right(recorded_bytes(old(self).cache(), socket_inodes@, now)),
    {
        broadcast use vstd::std_specs::hash::group_hash_axioms;
        proof {
            use_type_invariant(&*self);
        }
        let ghost c = self.socket_cache@;
        let ghost s = socket_inodes@;
        let mut stats = ProcessNetStats::zero();
        let mut i: usize = 0;
        proof {
            assert(s.take(0) =~= Seq::<u64>::empty());
        }
        while i < socket_inodes.len()
            invariant
                i <= s.len(),
                s == socket_inodes@,
                s.len() <= u32::MAX,
                c == self.socket_cache@,
                counts_bounded(c),
                stats == net_stats_of(c, s.take(i as int)),
            decreases s.len() - i,
        {
            let k = socket_inodes[i];
            proof {
                assert(s.take(i + 1).drop_last() =~= s.take(i as int));
                assert(s.take(i + 1).last() == k);
                lemma_net_stats_bounded(c, s.take(i as int));
            }
            match self.socket_cache.get(&k) {
                Some(info) => {
                    proof {
                        assert(c.contains_key(k));
                    }
                    match info.protocol {
                        SocketProtocol::Tcp => {
                            stats.tcp_count = stats.tcp_count + 1;
                            if info.state == TcpState::Listen {
                                stats.listen_count = stats.listen_count + 1;
                            } else if info.state == TcpState::Established {
                                stats.established_count = stats.established_count + 1;
                            }
                        },
                        SocketProtocol::Udp => {
                            stats.udp_count = stats.udp_count + 1;
                        },
                    }
                    stats.total_tx_queue = stats.total_tx_queue + info.tx_queue as u64;
                    stats.total_rx_queue = stats.total_rx_queue + info.rx_queue as u64;
                    stats.total_rx_bytes = stats.total_rx_bytes + info.rx_bytes;
                    stats.total_tx_bytes = stats.total_tx_bytes + info.tx_bytes;
                },
                None => {},
            }
            i = i + 1;
        }
        proof {
            assert(s.take(s.len() as int) =~= s);
        }
        let mut prev: HashMap<u64, PrevSocketBytes> = HashMap::new();
        std::mem::swap(&mut prev, &mut self.prev_bytes);
        let mut j: usize = 0;
        let ghost p0 = prev@;
        proof {
            assert(p0 =~= p0.union_prefer_right(recorded_bytes(c, s.take(0), now)));
        }
        while j < socket_inodes.len()
            invariant
                j <= s.len(),
                s == socket_inodes@,
                c == self.socket_cache@,
                counts_bounded(self.socket_cache@),
                prev@ == p0.union_prefer_right(recorded_bytes(c, s.take(j as int), now)),
            decreases s.len() - j,
        {
            let k = socket_inodes[j];
            proof {
                assert(s.take(j + 1) =~= s.take(j as int).push(k));
            }
            match self.socket_cache.get(&k) {
                Some(info) => {
                    let rec = PrevSocketBytes { rx_bytes: info.rx_bytes, tx_bytes: info.tx_bytes, timestamp: now };
                    prev.insert(k, rec);
                },
                None => {},
            }
            proof {
                let m = p0.union_prefer_right(recorded_bytes(c, s.take(j + 1), now));
                assert forall|x: u64| #[trigger] s.take(j + 1).contains(x) <==> s.take(j as int).contains(x) || x == k by {
                    if s.take(j + 1).contains(x) {
                        let q = choose|q: int| 0 <= q < j + 1 && #[trigger] s.take(j + 1)[q] == x;
                        if q < j {
                            assert(s.take(j as int)[q] == x);
                        }
                    }
                    if s.take(j as int).contains(x) {
                        let q = choose|q: int| 0 <= q < j && #[trigger] s.take(j as int)[q] == x;
                        assert(s.take(j + 1)[q] == x);
                    }
                    if x == k {
                        assert(s.take(j + 1)[j as int] == x);
                    }
                }
                assert(prev@ =~= m);
            }
            j = j + 1;
        }
        proof {
            assert(s.take(s.len() as int) =~= s);
        }
        self.prev_bytes = prev;
        stats
    }

    /// The bandwidth shares of a process's sockets at time `now` (see
    /// `bandwidth_of`); the process's receive and transmit rates are the sums
    /// of the shares' rates.
    pub fn get_process_bandwidth(&self, socket_inodes: &[u64], now: u64) -> (r: Vec<BandwidthPart>)
        ensures
            r@ == bandwidth_of(self.cache(), self.prev(), socket_inodes@, now),
    {
        broadcast use vstd::std_specs::hash::group_hash_axioms;

        let ghost s = socket_inodes@;
        let mut parts: Vec<BandwidthPart> = Vec::new();
        let mut i: usize = 0;
        proof {
            assert(s.take(0) =~= Seq::<u64>::empty());
        }
        while i < socket_inodes.len()
            invariant
                i <= s.len(),
                s == socket_inodes@,
                parts@ == bandwidth_of(self.socket_cache@, self.prev_bytes@, s.take(i as int), now),
            decreases s.len() - i,
        {
            let k = socket_inodes[i];
            proof {
                assert(s.take(i + 1).drop_last() =~= s.take(i as int));
                assert(s.take(i + 1).last() == k);
            }
            match (self.socket_cache.get(&k), self.prev_bytes.get(&k)) {
                (Some(info), Some(prev)) => {
                    let elapsed = now.saturating_sub(prev.timestamp);
                    if elapsed > 0 {
                        parts.push(BandwidthPart {
                            rx_delta: info.rx_bytes.saturating_sub(prev.rx_bytes),
                            tx_delta: info.tx_bytes.saturating_sub(prev.tx_bytes),
                            elapsed_ns: elapsed,
                        });
                    }
                },
                _ => {},
            }
            i = i + 1;
        }
        proof {
            assert(s.take(s.len() as int) =~= s);
        }
        parts
    }
}

} // verus!
