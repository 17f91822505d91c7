//! Network interface statistics from the text of `/proc/net/dev`.

use crate::marks::Marks;
use crate::text::{
    chars_of, field_u64, fields, has_prefix_at, line_spans, lines, parse_u64_or_zero,
    sample_views, sat_sub, spans_are_lines, split_fields, starts_with, string_from_chars, trim,
    trim_span, views,
};
use vstd::prelude::*;

verus! {

/// `s` without its trailing `':'` characters.
pub open spec fn strip_colons(s: Seq<char>) -> Seq<char>
    decreases s.len(),
{
    if s.len() > 0 && s.last() == ':' {
        strip_colons(s.drop_last())
    } else {
        s
    }
}

/// Interfaces left out of the statistics: loopback and virtual ones.
pub open spec fn skipped_interface(name: Seq<char>) -> bool {
    name == seq!['l', 'o'] || starts_with(name, seq!['v', 'e', 't', 'h']) || starts_with(
        name,
        seq!['d', 'o', 'c', 'k', 'e', 'r'],
    )
}

/// The lines after the two header lines.
pub open spec fn body_lines(s: Seq<char>) -> Seq<Seq<char>> {
    let ls = lines(s);
    if ls.len() >= 2 {
        ls.skip(2)
    } else {
        Seq::empty()
    }
}

/// A line on which reading the counters would index past the fields: an
/// interface that is not skipped, with exactly ten fields.
pub open spec fn line_too_short(line: Seq<char>) -> bool {
    let p = fields(trim(line));
    p.len() == 10 && !skipped_interface(strip_colons(p[0]))
}

/// Every body line of the file can be read.
pub open spec fn net_dev_readable(s: Seq<char>) -> bool {
    forall|i: int| 0 <= i < body_lines(s).len() ==> !line_too_short(#[trigger] body_lines(s)[i])
}

/// A line of `/proc/net/dev`: the interface name, bytes and packets
/// received, bytes and packets sent. Empty lines, lines with fewer than ten
/// fields and skipped interfaces give nothing.
pub open spec fn parse_net_line(line: Seq<char>) -> Option<(Seq<char>, u64, u64, u64, u64)> {
    let p = fields(trim(line));
    if p.len() < 10 || skipped_interface(strip_colons(p[0])) {
        None
    } else {
        Some(
            (strip_colons(p[0]), field_u64(p[1]), field_u64(p[2]), field_u64(p[9]), field_u64(p[10])),
        )
    }
}

/// The counters recorded for an interface at the previous sample.
#[derive(Debug, Clone, Copy)]
pub struct InterfaceMark {
    pub rx_bytes: u64,
    pub tx_bytes: u64,
    pub rx_packets: u64,
    pub tx_packets: u64,
    /// Time of the sample, in nanoseconds on the caller's monotonic clock.
    pub timestamp: u64,
}

/// One interface's reading: its counters, and the growth of its byte
/// counters since the previous sample together with the time that passed (all
/// zero when the interface had no previous sample).
#[derive(Debug, Clone)]
pub struct NetSample {
    pub interface: String,
    pub rx_bytes: u64,
    pub tx_bytes: u64,
    pub rx_packets: u64,
    pub tx_packets: u64,
    pub rx_delta: u64,
    pub tx_delta: u64,
    pub elapsed_ns: u64,
}

/// An interface reading as plain values, in the order of the fields of
/// `NetSample`.
pub type NetRow = (Seq<char>, u64, u64, u64, u64, u64, u64, u64);

impl View for NetSample {
    type V = NetRow;

    open spec fn view(&self) -> NetRow {
        (
            self.interface@,
            self.rx_bytes,
            self.tx_bytes,
            self.rx_packets,
            self.tx_packets,
            self.rx_delta,
            self.tx_delta,
            self.elapsed_ns,
        )
    }
}

/// What one line read at time `now` does to the recorded counters, and the
/// reading it gives.
pub open spec fn net_step(prev: Map<Seq<char>, InterfaceMark>, line: Seq<char>, now: u64) -> (Map<
    Seq<char>,
    InterfaceMark,
>, Seq<NetRow>) {
    match parse_net_line(line) {
        None => (prev, Seq::empty()),
        Some((name, rxb, rxp, txb, txp)) => {
            let (rd, td, el) = if prev.contains_key(name) {
                let m = prev[name];
                (sat_sub(rxb, m.rx_bytes), sat_sub(txb, m.tx_bytes), sat_sub(now, m.timestamp))
            } else {
                (0u64, 0u64, 0u64)
            };
            (
                prev.insert(
                    name,
                    InterfaceMark {
                        rx_bytes: rxb,
                        tx_bytes: txb,
                        rx_packets: rxp,
                        tx_packets: txp,
                        timestamp: now,
                    },
                ),
                seq![(name, rxb, txb, rxp, txp, rd, td, el)],
            )
        },
    }
}

/// Rates come from the previous sample: reading the same interface line
/// again later gives zero growth and the time between the two readings.
pub proof fn law_net_same_line_twice(prev: Map<Seq<char>, InterfaceMark>, line: Seq<char>, t1: u64, t2: u64)
    requires
        parse_net_line(line) is Some,
        t1 <= t2,
    ensures
        ({
            let (p1, _) = net_step(prev, line, t1);
            let (_, rows) = net_step(p1, line, t2);
            &&& rows.len() == 1
            &&& rows[0].5 == 0
            &&& rows[0].6 == 0
            &&& rows[0].7 == t2 - t1
        }),
{
}

/// An interface seen for the first time has no rate yet: its growth and
/// elapsed time are zero.
pub proof fn law_net_first_sample(prev: Map<Seq<char>, InterfaceMark>, line: Seq<char>, now: u64)
    requires
        parse_net_line(line) matches Some(r) && !prev.contains_key(r.0),
    ensures
        ({
            let (_, rows) = net_step(prev, line, now);
            &&& rows.len() == 1
            &&& rows[0].5 == 0 && rows[0].6 == 0 && rows[0].7 == 0
        }),
{
}

proof fn lemma_strip_keeps_prefix(f: Seq<char>, p: Seq<char>)
    requires
        starts_with(f, p),
        p.len() > 0,
        p.last() != ':',
    ensures
        starts_with(strip_colons(f), p),
    decreases f.len(),
{
    if f.len() > 0 && f.last() == ':' {
        if f.len() == p.len() {
            assert(f.take(p.len() as int)[p.len() - 1] == f.last());
        }
        assert(f.drop_last().take(p.len() as int) =~= f.take(p.len() as int));
        lemma_strip_keeps_prefix(f.drop_last(), p);
    }
}

/// Loopback and virtual interfaces give no sample and leave the recorded
/// counters alone: a line whose interface field (without its colon) is `lo`,
/// or starts with `veth` or `docker`, is passed over whatever its counters.
pub proof fn law_net_virtual_skipped(prev: Map<Seq<char>, InterfaceMark>, line: Seq<char>, now: u64)
    requires
        fields(trim(line)).len() > 0,
        ({
            let f = fields(trim(line))[0];
            ||| strip_colons(f) == seq!['l', 'o']
            ||| starts_with(f, seq!['v', 'e', 't', 'h'])
            ||| starts_with(f, seq!['d', 'o', 'c', 'k', 'e', 'r'])
        }),
    ensures
        net_step(prev, line, now) == (prev, Seq::<NetRow>::empty()),
{
    let f = fields(trim(line))[0];
    if starts_with(f, seq!['v', 'e', 't', 'h']) {
        lemma_strip_keeps_prefix(f, seq!['v', 'e', 't', 'h']);
    }
    if starts_with(f, seq!['d', 'o', 'c', 'k', 'e', 'r']) {
        lemma_strip_keeps_prefix(f, seq!['d', 'o', 'c', 'k', 'e', 'r']);
    }
}

/// Any other interface with a full line of counters gives one sample, under
/// its name without the colon: bytes and packets received are the first two
/// counters, bytes and packets sent the ninth and tenth.
pub proof fn law_net_interface_sampled(prev: Map<Seq<char>, InterfaceMark>, line: Seq<char>, now: u64)
    requires
        fields(trim(line)).len() >= 11,
        ({
            let name = strip_colons(fields(trim(line))[0]);
            &&& name != seq!['l', 'o']
            &&& !starts_with(name, seq!['v', 'e', 't', 'h'])
            &&& !starts_with(name, seq!['d', 'o', 'c', 'k', 'e', 'r'])
        }),
    ensures
        ({
            let p = fields(trim(line));
            let (_, rows) = net_step(prev, line, now);
            &&& rows.len() == 1
            &&& rows[0].0 == strip_colons(p[0])
            &&& rows[0].1 == field_u64(p[1])
            &&& rows[0].2 == field_u64(p[9])
            &&& rows[0].3 == field_u64(p[2])
            &&& rows[0].4 == field_u64(p[10])
        }),
{
}

/// What the lines read at time `now` do to the recorded counters, and the
/// readings they give, line by line.
pub open spec fn net_collect(prev: Map<Seq<char>, InterfaceMark>, ls: Seq<Seq<char>>, now: u64) -> (Map<
    Seq<char>,
    InterfaceMark,
>, Seq<NetRow>)
    decreases ls.len(),
{
    if ls.len() == 0 {
        (prev, Seq::empty())
    } else {
        let (p, o) = net_collect(prev, ls.drop_last(), now);
        let (p2, o2) = net_step(p, ls.last(), now);
        (p2, o + o2)
    }
}

/// The name in `t` without trailing colons.
fn strip_colons_of(t: &Vec<char>) -> (r: Vec<char>)
    ensures
        r@ == strip_colons(t@),
{
    let mut r = t.clone();
    while r.len() > 0 && r[r.len() - 1] == ':'
        invariant
            strip_colons(r@) == strip_colons(t@),
        decreases r@.len(),
    {
        let _ = r.pop();
    }
    r
}

/// Whether an interface is loopback or virtual.
fn is_skipped_interface(name: &Vec<char>) -> (r: bool)
    ensures
        r == skipped_interface(name@),
{
    let n = name.len();
    proof {
        assert(name@.subrange(0, n as int) =~= name@);
    }
    let lo = vec!['l', 'o'];
    let veth = vec!['v', 'e', 't', 'h'];
    let docker = vec!['d', 'o', 'c', 'k', 'e', 'r'];
    let is_lo = n == 2 && name[0] == 'l' && name[1] == 'o';
    proof {
        if is_lo {
            assert(name@ =~= lo@);
        } else if name@ == lo@ {
            assert(name@[0] == 'l');
        }
    }
    is_lo || has_prefix_at(name, 0, n, &veth) || has_prefix_at(name, 0, n, &docker)
}

/// Whether every body line of the text can be read (see `net_dev_readable`).
pub fn net_dev_is_readable(contents: &str) -> (r: bool)
    ensures
        r == net_dev_readable(contents@),
{
    let text = chars_of(contents);
    let spans = line_spans(&text);
    let ghost ls = lines(text@);
    let mut k: usize = 2;
    while k < spans.len()
        invariant
            2 <= k,
            text@ == contents@,
            ls == lines(text@),
            spans_are_lines(text@, spans@, ls),
            forall|i: int| 2 <= i < k && i < ls.len() ==> !line_too_short(#[trigger] ls[i]),
        decreases spans@.len() - k,
    {
        let (a, b) = spans[k];
        proof {
            assert(spans@[k as int] == (a, b));
            assert(ls[k as int] == text@.subrange(a as int, b as int));
        }
        let (ta, tb) = trim_span(&text, a, b);
        let parts = split_fields(&text, ta, tb);
        if parts.len() == 10 {
            let name = strip_colons_of(&parts[0]);
            proof {
                assert(views(parts@)[0] == parts@[0]@);
            }
            if !is_skipped_interface(&name) {
                proof {
                    assert(text@.subrange(ta as int, tb as int) == trim(ls[k as int]));
                    assert(fields(trim(ls[k as int])) == views(parts@));
                    assert(fields(trim(ls[k as int])).len() == 10);
                    assert(fields(trim(ls[k as int]))[0] == parts@[0]@);
                    assert(line_too_short(ls[k as int]));
                    assert(body_lines(text@)[k - 2] == ls[k as int]);
                    assert(!net_dev_readable(text@));
                    assert(text@ == contents@);
                }
                return false;
            }
        }
        k = k + 1;
    }
    proof {
        assert forall|i: int| 0 <= i < body_lines(text@).len() implies !line_too_short(
            #[trigger] body_lines(text@)[i],
        ) by {
            assert(body_lines(text@)[i] == ls[i + 2]);
        }
    }
    true
}

/// Network statistics collector.
pub struct NetworkCollector {
    prev_data: Marks<InterfaceMark>,
}

impl View for NetworkCollector {
    type V = Map<Seq<char>, InterfaceMark>;

    closed spec fn view(&self) -> Map<Seq<char>, InterfaceMark> {
        self.prev_data@
    }
}

impl NetworkCollector {
    /// Create a new network collector.
    pub fn new() -> (r: Self)
        ensures
            r@ == Map::<Seq<char>, InterfaceMark>::empty(),
    {
        NetworkCollector { prev_data: Marks::new() }
    }

    /// Collect interface statistics from the text of `/proc/net/dev`, read at
    /// time `now` (nanoseconds on a monotonic clock).
    pub fn collect(&mut self, contents: &str, now: u64) -> (r: Vec<NetSample>)
        requires
            net_dev_readable(contents@),
        ensures
            (final(self)@, sample_views(r@)) == net_collect(old(self)@, body_lines(contents@), now),
    {
        let text = chars_of(contents);
        let spans = line_spans(&text);
        let ghost ls = lines(text@);
        let ghost body = body_lines(text@);
        let mut stats: Vec<NetSample> = Vec::new();
        if spans.len() < 2 {
            proof {
                assert(body =~= Seq::<Seq<char>>::empty());
            }
            return stats;
        }
        let mut k: usize = 2;
        proof {
            assert(body.take(0) =~= Seq::<Seq<char>>::empty());
        }
        while k < spans.len()
            invariant
                2 <= k <= spans@.len(),
                ls == lines(text@),
                body == body_lines(text@),
                body == ls.skip(2),
                net_dev_readable(text@),
                spans_are_lines(text@, spans@, ls),
                (self@, sample_views(stats@)) == net_collect(old(self)@, body.take(k - 2), now),
            decreases spans@.len() - k,
        {
            let (a, b) = spans[k];
            let ghost line = ls[k as int];
            proof {
                assert(body[k - 2] == line);
                assert(body.take(k - 1).drop_last() =~= body.take(k - 2));
                assert(body.take(k - 1).last() == line);
                assert(!line_too_short(body[k - 2]));
            }
            let (ta, tb) = trim_span(&text, a, b);
            let parts = split_fields(&text, ta, tb);
            let ghost before = sample_views(stats@);
            if parts.len() >= 10 {
                let name_chars = strip_colons_of(&parts[0]);
                proof {
                    assert(views(parts@)[0] == parts@[0]@);
                }
                if !is_skipped_interface(&name_chars) {
                    let interface = string_from_chars(&name_chars);
                    let rx_bytes = parse_u64_or_zero(&parts[1]);
                    let rx_packets = parse_u64_or_zero(&parts[2]);
                    let tx_bytes = parse_u64_or_zero(&parts[9]);
                    let tx_packets = parse_u64_or_zero(&parts[10]);
                    proof {
                        assert(views(parts@)[1] == parts@[1]@);
                        assert(views(parts@)[2] == parts@[2]@);
                        assert(views(parts@)[9] == parts@[9]@);
                        assert(views(parts@)[10] == parts@[10]@);
                    }
                    let (rx_delta, tx_delta, elapsed_ns) = match self.prev_data.get(&interface) {
                        Some(m) => (
                            rx_bytes.saturating_sub(m.rx_bytes),
                            tx_bytes.saturating_sub(m.tx_bytes),
                            now.saturating_sub(m.timestamp),
                        ),
                        None => (0, 0, 0),
                    };
                    self.prev_data.insert(
                        interface.clone(),
                        InterfaceMark { rx_bytes, tx_bytes, rx_packets, tx_packets, timestamp: now },
                    );
                    stats.push(
                        NetSample {
                            interface,
                            rx_bytes,
                            tx_bytes,
                            rx_packets,
                            tx_packets,
                            rx_delta,
                            tx_delta,
                            elapsed_ns,
                        },
                    );
                    proof {
                        assert(sample_views(stats@) =~= before + sample_views(stats@).subrange(
                            before.len() as int,
                            stats@.len() as int,
                        ));
                    }
                }
            }
            k = k + 1;
        }
        proof {
            assert(body.take(spans@.len() - 2) =~= body);
        }
        stats
    }
}

} // verus!
