//! Disk I/O statistics from the text of `/proc/diskstats`.

use crate::marks::Marks;
use crate::text::{
    chars_of, contains_char_at, field_u64, fields, has_prefix_at, line_spans, lines,
    parse_u64_or_zero, sample_views, sat_sub, spans_are_lines, split_fields, starts_with,
    string_from_chars, views,
};
use vstd::prelude::*;

verus! {

/// Whether `c` is an ASCII decimal digit.
pub open spec fn is_digit(c: char) -> bool {
    '0' <= c && c <= '9'
}

/// Number of decimal digits at the end of `s`.
pub open spec fn trailing_digits(s: Seq<char>) -> nat
    decreases s.len(),
{
    if s.len() > 0 && is_digit(s.last()) {
        1 + trailing_digits(s.drop_last())
    } else {
        0
    }
}

/// Whether `p` occurs in `s` as a run of consecutive characters.
pub open spec fn contains_seq(s: Seq<char>, p: Seq<char>) -> bool {
    exists|i: int| 0 <= i && i + p.len() <= s.len() && #[trigger] s.subrange(i, i + p.len()) == p
}

/// Whether a block device name is a physical disk: loop devices, device-mapper
/// devices and ram disks are not, nor are partitions (`sda1`, `nvme0n1p1`,
/// `mmcblk0p1`). For `sd`, `hd` and `vd` names ending in digits, the name is a
/// partition when more than two characters come before the digits; an NVMe or
/// eMMC/SD name ending in digits is a partition when it holds a `p`.
pub open spec fn is_physical_disk_spec(d: Seq<char>) -> bool {
    if starts_with(d, seq!['l', 'o', 'o', 'p']) || starts_with(d, seq!['d', 'm', '-'])
        || starts_with(d, seq!['r', 'a', 'm']) {
        false
    } else if d.len() > 0 && is_digit(d.last()) {
        if (starts_with(d, seq!['s', 'd']) || starts_with(d, seq!['h', 'd']) || starts_with(
            d,
            seq!['v', 'd'],
        )) && d.len() - trailing_digits(d) > 2 {
            false
        } else {
            !((contains_seq(d, seq!['n', 'v', 'm', 'e']) || starts_with(d, seq!['m', 'm', 'c', 'b', 'l', 'k']))
                && d.contains('p'))
        }
    } else {
        true
    }
}

proof fn lemma_trailing_digits(s: Seq<char>, j: int)
    requires
        0 <= j <= s.len(),
        forall|k: int| s.len() - j <= k < s.len() ==> is_digit(#[trigger] s[k]),
        j == s.len() || !is_digit(s[s.len() - j - 1]),
    ensures
        trailing_digits(s) == j,
    decreases j,
{
    if j > 0 {
        let t = s.drop_last();
        assert forall|k: int| t.len() - (j - 1) <= k < t.len() implies is_digit(#[trigger] t[k]) by {
            assert(t[k] == s[k]);
        }
        if j - 1 < t.len() {
            assert(t[t.len() - (j - 1) - 1] == s[s.len() - j - 1]);
        }
        lemma_trailing_digits(t, j - 1);
    }
}

/// Whether `s` is a non-empty run of lowercase ASCII letters.
pub open spec fn lowercase_word(s: Seq<char>) -> bool {
    s.len() > 0 && forall|i: int| 0 <= i < s.len() ==> 'a' <= #[trigger] s[i] && s[i] <= 'z'
}

/// Whether `s` is a non-empty run of decimal digits.
pub open spec fn number_text(s: Seq<char>) -> bool {
    s.len() > 0 && forall|i: int| 0 <= i < s.len() ==> is_digit(#[trigger] s[i])
}

proof fn lemma_name_parts(a: Seq<char>, n: Seq<char>)
    requires
        a.len() > 0,
        !is_digit(a.last()),
        number_text(n),
    ensures
        trailing_digits(a + n) == n.len(),
        (a + n).len() > 0 && is_digit((a + n).last()),
{
    let d = a + n;
    assert forall|k: int| d.len() - n.len() <= k < d.len() implies is_digit(#[trigger] d[k]) by {
        assert(d[k] == n[k - a.len()]);
    }
    assert(d[d.len() - n.len() - 1] == a.last());
    lemma_trailing_digits(d, n.len() as int);
    assert(d.last() == n.last());
}

/// Partitions of SCSI/SATA (`sd`), IDE (`hd`) and virtio (`vd`) disks are
/// not physical disks: a disk name such as `vda` is one, and the same name
/// followed by a partition number (`vda1`, `sdb12`) is not.
pub proof fn law_disk_letter_partitions(x: Seq<char>, n: Seq<char>)
    requires
        lowercase_word(x),
        number_text(n),
    ensures
        is_physical_disk_spec(seq!['s', 'd'] + x),
        is_physical_disk_spec(seq!['h', 'd'] + x),
        is_physical_disk_spec(seq!['v', 'd'] + x),
        !is_physical_disk_spec(seq!['s', 'd'] + x + n),
        !is_physical_disk_spec(seq!['h', 'd'] + x + n),
        !is_physical_disk_spec(seq!['v', 'd'] + x + n),
{
    let ps = seq![seq!['s', 'd'], seq!['h', 'd'], seq!['v', 'd']];
    assert forall|k: int| 0 <= k < 3 implies is_physical_disk_spec(#[trigger] ps[k] + x)
        && !is_physical_disk_spec(ps[k] + x + n) by {
        let pre = ps[k];
        let a = pre + x;
        assert(a[0] == pre[0] && a[1] == 'd');
        assert(a.last() == x.last());
        assert(!is_digit(a.last()));
        assert(!starts_with(a, seq!['l', 'o', 'o', 'p']));
        assert(!starts_with(a, seq!['d', 'm', '-']));
        assert(!starts_with(a, seq!['r', 'a', 'm']));
        let d = a + n;
        lemma_name_parts(a, n);
        assert(d.take(2) =~= pre);
        assert(d[0] == pre[0] && d[1] == 'd');
        assert(!starts_with(d, seq!['l', 'o', 'o', 'p']));
        assert(!starts_with(d, seq!['d', 'm', '-']));
        assert(!starts_with(d, seq!['r', 'a', 'm']));
        assert(starts_with(d, pre));
        assert(d.len() - trailing_digits(d) == 2 + x.len());
    }
    assert(ps[0] + x + n == seq!['s', 'd'] + x + n);
    assert(ps[1] + x + n == seq!['h', 'd'] + x + n);
    assert(ps[2] + x + n == seq!['v', 'd'] + x + n);
    assert(ps[0] + x == seq!['s', 'd'] + x);
    assert(ps[1] + x == seq!['h', 'd'] + x);
    assert(ps[2] + x == seq!['v', 'd'] + x);
}

/// Partitions of eMMC/SD cards are not physical disks: `mmcblk0` is one,
/// `mmcblk0p1` is not.
pub proof fn law_disk_mmc_partitions(n: Seq<char>, m: Seq<char>)
    requires
        number_text(n),
        number_text(m),
    ensures
        is_physical_disk_spec(seq!['m', 'm', 'c', 'b', 'l', 'k'] + n),
        !is_physical_disk_spec(seq!['m', 'm', 'c', 'b', 'l', 'k'] + n + seq!['p'] + m),
{
    let pre = seq!['m', 'm', 'c', 'b', 'l', 'k'];
    let d = pre + n;
    lemma_name_parts(pre, n);
    assert(d[0] == 'm');
    assert(!starts_with(d, seq!['l', 'o', 'o', 'p']));
    assert(!starts_with(d, seq!['d', 'm', '-']));
    assert(!starts_with(d, seq!['r', 'a', 'm']));
    assert(!starts_with(d, seq!['s', 'd']) && !starts_with(d, seq!['h', 'd']) && !starts_with(d, seq!['v', 'd']));
    assert(!d.contains('p')) by {
        if d.contains('p') {
            let i = choose|i: int| 0 <= i < d.len() && d[i] == 'p';
            if i < 6 {
                assert(d[i] == pre[i]);
            } else {
                assert(d[i] == n[i - 6]);
            }
        }
    }
    let a = d + seq!['p'];
    let e = a + m;
    lemma_name_parts(a, m);
    assert(e[0] == 'm');
    assert(e.take(6) =~= pre);
    assert(!starts_with(e, seq!['l', 'o', 'o', 'p']));
    assert(!starts_with(e, seq!['d', 'm', '-']));
    assert(!starts_with(e, seq!['r', 'a', 'm']));
    assert(!starts_with(e, seq!['s', 'd']) && !starts_with(e, seq!['h', 'd']) && !starts_with(e, seq!['v', 'd']));
    assert(e[d.len() as int] == 'p');
    assert(e.contains('p'));
    assert(starts_with(e, pre));
    assert(e == seq!['m', 'm', 'c', 'b', 'l', 'k'] + n + seq!['p'] + m);
}

/// Partitions of NVMe namespaces are not physical disks: `nvme0n1` is one,
/// `nvme0n1p1` is not.
pub proof fn law_disk_nvme_partitions(c: Seq<char>, ns: Seq<char>, m: Seq<char>)
    requires
        number_text(c),
        number_text(ns),
        number_text(m),
    ensures
        is_physical_disk_spec(seq!['n', 'v', 'm', 'e'] + c + seq!['n'] + ns),
        !is_physical_disk_spec(seq!['n', 'v', 'm', 'e'] + c + seq!['n'] + ns + seq!['p'] + m),
{
    let pre = seq!['n', 'v', 'm', 'e'];
    let b = pre + c + seq!['n'];
    let d = b + ns;
    lemma_name_parts(b, ns);
    assert(d[0] == 'n');
    assert(!starts_with(d, seq!['l', 'o', 'o', 'p']));
    assert(!starts_with(d, seq!['d', 'm', '-']));
    assert(!starts_with(d, seq!['r', 'a', 'm']));
    assert(!starts_with(d, seq!['s', 'd']) && !starts_with(d, seq!['h', 'd']) && !starts_with(d, seq!['v', 'd']));
    assert(!d.contains('p')) by {
        if d.contains('p') {
            let i = choose|i: int| 0 <= i < d.len() && d[i] == 'p';
            if i < 4 {
                assert(d[i] == pre[i]);
            } else if i < 4 + c.len() {
                assert(d[i] == c[i - 4]);
            } else if i == 4 + c.len() {
                assert(d[i] == 'n');
            } else {
                assert(d[i] == ns[i - 5 - c.len()]);
            }
        }
    }
    let a = d + seq!['p'];
    let e = a + m;
    lemma_name_parts(a, m);
    assert(e[0] == 'n');
    assert(!starts_with(e, seq!['l', 'o', 'o', 'p']));
    assert(!starts_with(e, seq!['d', 'm', '-']));
    assert(!starts_with(e, seq!['r', 'a', 'm']));
    assert(!starts_with(e, seq!['s', 'd']) && !starts_with(e, seq!['h', 'd']) && !starts_with(e, seq!['v', 'd']));
    assert(e.subrange(0int, 0int + pre.len()) =~= pre);
    assert(contains_seq(e, pre));
    assert(e[d.len() as int] == 'p');
    assert(e.contains('p'));
    assert(e == seq!['n', 'v', 'm', 'e'] + c + seq!['n'] + ns + seq!['p'] + m);
}

/// Whether `p` occurs in `s`.
fn contains_run(s: &Vec<char>, p: &Vec<char>) -> (r: bool)
    ensures
        r == contains_seq(s@, p@),
{
    if p.len() > s.len() {
        return false;
    }
    if p.len() == 0 {
        proof {
            assert(s@.subrange(0int, 0int + p@.len()) =~= p@);
        }
        return true;
    }
    let mut i: usize = 0;
    while i <= s.len() - p.len()
        invariant
            0 < p@.len() <= s@.len(),
            i <= s@.len() - p@.len() + 1,
            forall|k: int|
                0 <= k < i ==> #[trigger] s@.subrange(k, k + p@.len()) != p@,
        decreases s@.len() + 1 - i,
    {
        if has_prefix_at(s, i, s.len(), p) {
            proof {
                assert(s@.subrange(i as int, s@.len() as int).take(p@.len() as int) =~= s@.subrange(
                    i as int,
                    i + p@.len(),
                ));
            }
            return true;
        }
        proof {
            assert(s@.subrange(i as int, s@.len() as int).take(p@.len() as int) =~= s@.subrange(
                i as int,
                i + p@.len(),
            ));
        }
        i = i + 1;
    }
    false
}

/// Check if a device name is a physical disk (not a partition or virtual
/// device).
pub fn is_physical_disk(device: &str) -> (r: bool)
    ensures
        r == is_physical_disk_spec(device@),
{
    let d = chars_of(device);
    let n = d.len();
    let lp = vec!['l', 'o', 'o', 'p'];
    let dm = vec!['d', 'm', '-'];
    let ram = vec!['r', 'a', 'm'];
    if has_prefix_at(&d, 0, n, &lp) || has_prefix_at(&d, 0, n, &dm) || has_prefix_at(&d, 0, n, &ram) {
        proof {
            assert(d@.subrange(0, n as int) =~= d@);
        }
        return false;
    }
    proof {
        assert(d@.subrange(0, n as int) =~= d@);
    }
    if n > 0 && '0' <= d[n - 1] && d[n - 1] <= '9' {
        let sd = vec!['s', 'd'];
        let hd = vec!['h', 'd'];
        let vd = vec!['v', 'd'];
        if has_prefix_at(&d, 0, n, &sd) || has_prefix_at(&d, 0, n, &hd) || has_prefix_at(
            &d,
            0,
            n,
            &vd,
        ) {
            let mut k = n;
            while k > 0 && '0' <= d[k - 1] && d[k - 1] <= '9'
                invariant
                    k <= n == d@.len(),
                    forall|m: int| k <= m < n ==> is_digit(#[trigger] d@[m]),
                decreases k,
            {
                k = k - 1;
            }
            proof {
                lemma_trailing_digits(d@, n - k);
            }
            if k > 2 {
                return false;
            }
        }
        let nvme = vec!['n', 'v', 'm', 'e'];
        let mmcblk = vec!['m', 'm', 'c', 'b', 'l', 'k'];
        if (contains_run(&d, &nvme) || has_prefix_at(&d, 0, n, &mmcblk)) && contains_char_at(&d, 0, n, 'p') {
            return false;
        }
    }
    true
}

/// Bytes in the given number of 512-byte sectors (where they fit a `u64`,
/// see `diskstats_fit`).
pub open spec fn sectors_to_bytes(sectors: u64) -> u64 {
    (sectors * 512) as u64
}

/// Whether the byte counts of a line that describes a physical disk fit a
/// `u64`.
pub open spec fn disk_line_fits(line: Seq<char>) -> bool {
    let p = fields(line);
    p.len() >= 14 && is_physical_disk_spec(p[2]) ==> field_u64(p[5]) * 512 <= u64::MAX && field_u64(p[9])
        * 512 <= u64::MAX
}

/// Whether the byte counts of every physical disk of a `/proc/diskstats`
/// text fit a `u64`.
pub open spec fn diskstats_fit(text: Seq<char>) -> bool {
    forall|i: int| 0 <= i < lines(text).len() ==> disk_line_fits(#[trigger] lines(text)[i])
}

/// Whether the byte counts of every physical disk of the text fit a `u64`
/// (see `diskstats_fit`).
pub fn diskstats_fit_check(contents: &str) -> (r: bool)
    ensures
        r == diskstats_fit(contents@),
{
    let text = chars_of(contents);
    let spans = line_spans(&text);
    let ghost ls = lines(text@);
    let mut k: usize = 0;
    while k < spans.len()
        invariant
            k <= spans@.len(),
            text@ == contents@,
            ls == lines(text@),
            spans_are_lines(text@, spans@, ls),
            forall|i: int| 0 <= i < k ==> disk_line_fits(#[trigger] ls[i]),
        decreases spans@.len() - k,
    {
        let (a, b) = spans[k];
        let ghost line = ls[k as int];
        let parts = split_fields(&text, a, b);
        if parts.len() >= 14 {
            let device = string_from_chars(&parts[2]);
            proof {
                assert(views(parts@)[2] == parts@[2]@);
            }
            if is_physical_disk(device.as_str()) {
                let read_sectors = parse_u64_or_zero(&parts[5]);
                let write_sectors = parse_u64_or_zero(&parts[9]);
                proof {
                    assert(views(parts@)[5] == parts@[5]@);
                    assert(views(parts@)[9] == parts@[9]@);
                }
                if read_sectors > u64::MAX / 512 || write_sectors > u64::MAX / 512 {
                    proof {
                        assert(!disk_line_fits(line));
                    }
                    return false;
                }
            }
        }
        k = k + 1;
    }
    true
}

/// A line of `/proc/diskstats` that describes a physical disk: its name,
/// reads completed, bytes read, writes completed and bytes written.
/// Lines with fewer than 14 fields, and devices that are not physical disks,
/// give nothing.
pub open spec fn parse_disk_line(line: Seq<char>) -> Option<(Seq<char>, u64, u64, u64, u64)> {
    let p = fields(line);
    if p.len() < 14 || !is_physical_disk_spec(p[2]) {
        None
    } else {
        Some(
            (
                p[2],
                field_u64(p[3]),
                sectors_to_bytes(field_u64(p[5])),
                field_u64(p[7]),
                sectors_to_bytes(field_u64(p[9])),
            ),
        )
    }
}

/// The counters recorded for a disk at the previous sample.
#[derive(Debug, Clone, Copy)]
pub struct DiskMark {
    pub read_bytes: u64,
    pub write_bytes: u64,
    pub reads: u64,
    pub writes: u64,
    /// Time of the sample, in nanoseconds on the caller's monotonic clock.
    pub timestamp: u64,
}

/// One disk's reading: its counters, and the growth of its byte counters
/// since the previous sample together with the time that passed (all zero
/// when the disk had no previous sample). A rate is the growth divided by the
/// time, or zero when no time passed.
#[derive(Debug, Clone)]
pub struct DiskSample {
    pub device: String,
    pub read_bytes: u64,
    pub write_bytes: u64,
    pub reads: u64,
    pub writes: u64,
    pub read_delta: u64,
    pub write_delta: u64,
    pub elapsed_ns: u64,
}

/// A disk reading as plain values, in the order of the fields of `DiskSample`.
pub type DiskRow = (Seq<char>, u64, u64, u64, u64, u64, u64, u64);

impl View for DiskSample {
    type V = DiskRow;

    open spec fn view(&self) -> DiskRow {
        (
            self.device@,
            self.read_bytes,
            self.write_bytes,
            self.reads,
            self.writes,
            self.read_delta,
            self.write_delta,
            self.elapsed_ns,
        )
    }
}

/// What one line of `/proc/diskstats` read at time `now` does to the recorded
/// counters, and the reading it gives.
pub open spec fn disk_step(prev: Map<Seq<char>, DiskMark>, line: Seq<char>, now: u64) -> (Map<
    Seq<char>,
    DiskMark,
>, Seq<DiskRow>) {
    match parse_disk_line(line) {
        None => (prev, Seq::empty()),
        Some((dev, reads, rb, writes, wb)) => {
            let (rd, wd, el) = if prev.contains_key(dev) {
                let m = prev[dev];
                (sat_sub(rb, m.read_bytes), sat_sub(wb, m.write_bytes), sat_sub(now, m.timestamp))
            } else {
                (0u64, 0u64, 0u64)
            };
            (
                prev.insert(
                    dev,
                    DiskMark { read_bytes: rb, write_bytes: wb, reads, writes, timestamp: now },
                ),
                seq![(dev, rb, wb, reads, writes, rd, wd, el)],
            )
        },
    }
}

/// Rates come from the previous sample: reading the same disk line again
/// later gives zero growth and the time between the two readings.
pub proof fn law_disk_same_line_twice(prev: Map<Seq<char>, DiskMark>, line: Seq<char>, t1: u64, t2: u64)
    requires
        parse_disk_line(line) is Some,
        t1 <= t2,
    ensures
        ({
            let (p1, _) = disk_step(prev, line, t1);
            let (_, rows) = disk_step(p1, line, t2);
            &&& rows.len() == 1
            &&& rows[0].5 == 0
            &&& rows[0].6 == 0
            &&& rows[0].7 == t2 - t1
        }),
{
}

/// A disk seen for the first time has no rate: zero growth and no time.
pub proof fn law_disk_first_sample(prev: Map<Seq<char>, DiskMark>, line: Seq<char>, now: u64)
    requires
        parse_disk_line(line) matches Some(r) && !prev.contains_key(r.0),
    ensures
        ({
            let (_, rows) = disk_step(prev, line, now);
            &&& rows.len() == 1
            &&& rows[0].5 == 0 && rows[0].6 == 0 && rows[0].7 == 0
        }),
{
}

/// What the lines of `/proc/diskstats` read at time `now` do to the recorded
/// counters, and the readings they give, line by line.
pub open spec fn disk_collect(prev: Map<Seq<char>, DiskMark>, ls: Seq<Seq<char>>, now: u64) -> (Map<
    Seq<char>,
    DiskMark,
>, Seq<DiskRow>)
    decreases ls.len(),
{
    if ls.len() == 0 {
        (prev, Seq::empty())
    } else {
        let (p, o) = disk_collect(prev, ls.drop_last(), now);
        let (p2, o2) = disk_step(p, ls.last(), now);
        (p2, o + o2)
    }
}

/// Disk I/O statistics collector.
pub struct DiskCollector {
    prev_data: Marks<DiskMark>,
}

impl View for DiskCollector {
    type V = Map<Seq<char>, DiskMark>;

    closed spec fn view(&self) -> Map<Seq<char>, DiskMark> {
        self.prev_data@
    }
}

impl DiskCollector {
    /// Create a new disk collector.
    pub fn new() -> (r: Self)
        ensures
            r@ == Map::<Seq<char>, DiskMark>::empty(),
    {
        DiskCollector { prev_data: Marks::new() }
    }

    /// Collect disk I/O statistics from the text of `/proc/diskstats`, read
    /// at time `now` (nanoseconds on a monotonic clock).
    pub fn collect(&mut self, contents: &str, now: u64) -> (r: Vec<DiskSample>)
        requires
            diskstats_fit(contents@),
        ensures
            (final(self)@, sample_views(r@)) == disk_collect(old(self)@, lines(contents@), now),
    {
        let text = chars_of(contents);
        let spans = line_spans(&text);
        let ghost ls = lines(text@);
        let mut stats: Vec<DiskSample> = Vec::new();
        let mut k: usize = 0;
        proof {
            assert(ls.take(0) =~= Seq::<Seq<char>>::empty());
        }
        while k < spans.len()
            invariant
                k <= spans@.len(),
                ls == lines(text@),
                spans_are_lines(text@, spans@, ls),
                (self@, sample_views(stats@)) == disk_collect(old(self)@, ls.take(k as int), now),
                forall|i: int| 0 <= i < ls.len() ==> disk_line_fits(#[trigger] ls[i]),
            decreases spans@.len() - k,
        {
            let (a, b) = spans[k];
            let ghost line = ls[k as int];
            proof {
                assert(ls.take(k + 1).drop_last() =~= ls.take(k as int));
                assert(ls.take(k + 1).last() == line);
            }
            let parts = split_fields(&text, a, b);
            let ghost before = sample_views(stats@);
            if parts.len() >= 14 {
                let device = string_from_chars(&parts[2]);
                proof {
                    assert(views(parts@)[2] == parts@[2]@);
                }
                if is_physical_disk(device.as_str()) {
                    let reads = parse_u64_or_zero(&parts[3]);
                    let read_sectors = parse_u64_or_zero(&parts[5]);
                    let writes = parse_u64_or_zero(&parts[7]);
                    let write_sectors = parse_u64_or_zero(&parts[9]);
                    proof {
                        assert(views(parts@)[3] == parts@[3]@);
                        assert(views(parts@)[5] == parts@[5]@);
                        assert(views(parts@)[7] == parts@[7]@);
                        assert(views(parts@)[9] == parts@[9]@);
                    }
                    proof {
                        assert(disk_line_fits(line));
                    }
                    let read_bytes = read_sectors * 512;
                    let write_bytes = write_sectors * 512;
                    let (read_delta, write_delta, elapsed_ns) = match self.prev_data.get(&device) {
                        Some(m) => (
                            read_bytes.saturating_sub(m.read_bytes),
                            write_bytes.saturating_sub(m.write_bytes),
                            now.saturating_sub(m.timestamp),
                        ),
                        None => (0, 0, 0),
                    };
                    self.prev_data.insert(
                        device.clone(),
                        DiskMark { read_bytes, write_bytes, reads, writes, timestamp: now },
                    );
                    stats.push(
                        DiskSample {
                            device,
                            read_bytes,
                            write_bytes,
                            reads,
                            writes,
                            read_delta,
                            write_delta,
                            elapsed_ns,
                        },
                    );
                    proof {
                        assert(sample_views(stats@) =~= before + sample_views(stats@).subrange(
                            before.len() as int,
                            stats@.len() as int,
                        ));
                    }
                }
            }
            k = k + 1;
        }
        proof {
            assert(ls.take(spans@.len() as int) =~= ls);
        }
        stats
    }
}

} // verus!
