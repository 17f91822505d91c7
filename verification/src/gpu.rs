//! GPU readings from the DRM devices of sysfs: the values each file holds,
//! and the model name of a card.

use crate::error::Error;
use crate::text::{
    chars_of, contains_char_at, fields, has_prefix_at, line_spans, lines, parse_i64_at,
    parse_i64_spec, parse_unsigned, parse_unsigned_at, push_all, spans_are_lines, split_fields,
    starts_with, string_from_chars, trim, trim_span, views,
};
use vstd::prelude::*;

verus! {

/// A file's text read as a `u64` once trimmed.
pub open spec fn file_u64(content: Option<Seq<char>>) -> Option<u64> {
    match content {
        Some(t) => match parse_unsigned(trim(t), 10, 0xffff_ffff_ffff_ffff) {
            Some(v) => Some(v as u64),
            None => None,
        },
        None => None,
    }
}

/// A file's text read as an `i64` once trimmed.
pub open spec fn file_i64(content: Option<Seq<char>>) -> Option<i64> {
    match content {
        Some(t) => match parse_i64_spec(trim(t)) {
            Some(v) => Some(v as i64),
            None => None,
        },
        None => None,
    }
}

/// The text of an optional string.
pub open spec fn opt_view(s: Option<&str>) -> Option<Seq<char>> {
    match s {
        Some(t) => Some(t@),
        None => None,
    }
}

/// The text of an optional string.
pub open spec fn opt_string_view(s: Option<String>) -> Option<Seq<char>> {
    match s {
        Some(t) => Some(t@),
        None => None,
    }
}

/// GPU information collector.
#[derive(Debug)]
pub struct GpuCollector;

impl GpuCollector {
    /// Create a new GPU collector.
    pub fn new() -> (r: Result<Self, Error>)
        ensures
            r is Ok,
    {
        Ok(GpuCollector)
    }

    /// The text of a file (`None` when it could not be read) as a `u64`.
    pub fn read_file_u64(content: Option<&str>) -> (r: Option<u64>)
        ensures
            r == file_u64(opt_view(content)),
    {
        match content {
            Some(text) => {
                let t = chars_of(text);
                let (a, b) = trim_span(&t, 0, t.len());
                proof {
                    assert(t@.subrange(0, t@.len() as int) =~= t@);
                }
                parse_unsigned_at(&t, a, b, 10, 0xffff_ffff_ffff_ffff)
            },
            None => None,
        }
    }

    /// The text of a file (`None` when it could not be read) as an `i64`.
    pub fn read_file_i64(content: Option<&str>) -> (r: Option<i64>)
        ensures
            r == file_i64(opt_view(content)),
    {
        match content {
            Some(text) => {
                let t = chars_of(text);
                let (a, b) = trim_span(&t, 0, t.len());
                proof {
                    assert(t@.subrange(0, t@.len() as int) =~= t@);
                }
                parse_i64_at(&t, a, b)
            },
            None => None,
        }
    }
}

/// The driver named by the first `DRIVER=` line, if any.
pub open spec fn driver_in(ls: Seq<Seq<char>>) -> Option<Seq<char>>
    decreases ls.len(),
{
    if ls.len() == 0 {
        None
    } else if starts_with(ls[0], seq!['D', 'R', 'I', 'V', 'E', 'R', '=']) {
        Some(ls[0].skip(7))
    } else {
        driver_in(ls.skip(1))
    }
}

/// The model name of a card from its `uevent`, `product_name`, `vendor` and
/// `device` files (each `None` when it could not be read): the driver named
/// in `uevent`; else the product name; else vendor and device IDs; else
/// `Unknown GPU`.
pub open spec fn gpu_model(uevent: Option<Seq<char>>, product: Option<Seq<char>>, vendor: Option<Seq<char>>, device: Option<Seq<char>>) -> Seq<char> {
    let from_uevent = match uevent {
        Some(u) => driver_in(lines(u)),
        None => None,
    };
    if from_uevent is Some {
        from_uevent->0
    } else if product is Some {
        trim(product->0)
    } else {
        let v = match vendor { Some(t) => trim(t), None => Seq::empty() };
        let d = match device { Some(t) => trim(t), None => Seq::empty() };
        if v.len() > 0 && d.len() > 0 {
            v + seq![' '] + d
        } else {
            seq!['U', 'n', 'k', 'n', 'o', 'w', 'n', ' ', 'G', 'P', 'U']
        }
    }
}

/// The trimmed text of an optional string.
fn trimmed(content: Option<&str>) -> (r: Vec<char>)
    ensures
        r@ == (match opt_view(content) { Some(t) => trim(t), None => Seq::empty() }),
{
    match content {
        Some(text) => {
            let t = chars_of(text);
            let (a, b) = trim_span(&t, 0, t.len());
            proof {
                assert(t@.subrange(0, t@.len() as int) =~= t@);
            }
            let mut r: Vec<char> = Vec::new();
            let mut i = a;
            while i < b
                invariant
                    a <= i <= b <= t@.len(),
                    r@ == t@.subrange(a as int, i as int),
                decreases b - i,
            {
                r.push(t[i]);
                i = i + 1;
                proof {
                    assert(r@ =~= t@.subrange(a as int, i as int));
                }
            }
            r
        },
        None => Vec::new(),
    }
}

/// The driver named by the first `DRIVER=` line of `u`, if any.
fn driver_of(u: &str) -> (r: Option<Vec<char>>)
    ensures
        match driver_in(lines(u@)) {
            Some(d) => r is Some && r->0@ == d,
            None => r is None,
        },
{
    let t = chars_of(u);
    let spans = line_spans(&t);
    let ghost ls = lines(t@);
    let prefix = vec!['D', 'R', 'I', 'V', 'E', 'R', '='];
    let mut k: usize = 0;
    proof {
        assert(ls.skip(0) =~= ls);
    }
    while k < spans.len()
        invariant
            k <= spans@.len(),
            t@ == u@,
            ls == lines(t@),
            spans_are_lines(t@, spans@, ls),
            prefix@ == seq!['D', 'R', 'I', 'V', 'E', 'R', '='],
            driver_in(ls) == driver_in(ls.skip(k as int)),
        decreases spans@.len() - k,
    {
        let (a, b) = spans[k];
        proof {
            assert(spans@[k as int] == (a, b));
            assert(ls[k as int] == t@.subrange(a as int, b as int));
            assert(ls.skip(k as int)[0] == ls[k as int]);
            assert(ls.skip(k as int).skip(1) =~= ls.skip(k + 1));
        }
        if has_prefix_at(&t, a, b, &prefix) {
            let mut r: Vec<char> = Vec::new();
            let mut i = a + 7;
            while i < b
                invariant
                    a + 7 <= i <= b <= t@.len(),
                    r@ == t@.subrange(a + 7, i as int),
                decreases b - i,
            {
                r.push(t[i]);
                i = i + 1;
                proof {
                    assert(r@ =~= t@.subrange(a + 7, i as int));
                }
            }
            proof {
                assert(ls[k as int].skip(7) =~= r@);
            }
            return Some(r);
        }
        k = k + 1;
    }
    proof {
        assert(ls.skip(spans@.len() as int) =~= Seq::<Seq<char>>::empty());
    }
    None
}

impl GpuCollector {
    /// Read GPU model name from the card's `uevent`, `product_name`,
    /// `vendor` and `device` files.
    pub fn read_gpu_model(uevent: Option<&str>, product_name: Option<&str>, vendor: Option<&str>, device: Option<&str>) -> (r: String)
        ensures
            r@ == gpu_model(opt_view(uevent), opt_view(product_name), opt_view(vendor), opt_view(device)),
    {
        if let Some(u) = uevent {
            if let Some(d) = driver_of(u) {
                return string_from_chars(&d);
            }
        }
        if product_name.is_some() {
            let p = trimmed(product_name);
            return string_from_chars(&p);
        }
        let v = trimmed(vendor);
        let d = trimmed(device);
        if v.len() > 0 && d.len() > 0 {
            let mut out = v.clone();
            out.push(' ');
            push_all(&mut out, &d);
            proof {
                assert(out@ =~= v@ + seq![' '] + d@);
            }
            return string_from_chars(&out);
        }
        let unknown = vec!['U', 'n', 'k', 'n', 'o', 'w', 'n', ' ', 'G', 'P', 'U'];
        string_from_chars(&unknown)
    }
}

/// Whether `t` ends with `s`, as `str::ends_with` tells.
pub open spec fn ends_with(t: Seq<char>, s: Seq<char>) -> bool {
    s.len() <= t.len() && t.skip(t.len() - s.len()) == s
}

/// The clock of an AMD `pp_dpm_sclk` line: on the line marked `*`, the
/// second field, such as `500Mhz` or `500MHz`, read as MHz.
pub open spec fn sclk_line(line: Seq<char>) -> Option<u32> {
    if !line.contains('*') {
        None
    } else {
        let p = fields(line);
        if p.len() < 2 {
            None
        } else {
            let t = p[1];
            let num = if ends_with(t, seq!['M', 'h', 'z']) || ends_with(t, seq!['M', 'H', 'z']) {
                Some(t.take(t.len() - 3))
            } else {
                None
            };
            match num {
                Some(n) => match parse_unsigned(n, 10, 0xffff_ffff) {
                    Some(v) => Some(v as u32),
                    None => None,
                },
                None => None,
            }
        }
    }
}

/// The clock of the first `pp_dpm_sclk` line that gives one.
pub open spec fn sclk_mhz(ls: Seq<Seq<char>>) -> Option<u32>
    decreases ls.len(),
{
    if ls.len() == 0 {
        None
    } else if sclk_line(ls[0]) is Some {
        sclk_line(ls[0])
    } else {
        sclk_mhz(ls.skip(1))
    }
}

/// The GPU clock from the `freq1_input` file of each hwmon directory (in
/// Hz) and the card's `pp_dpm_sclk` file: going through the directories in
/// order, the first one whose frequency reads gives it in MHz; after a
/// directory whose frequency does not read, the `pp_dpm_sclk` clock is
/// taken when it reads.
pub open spec fn gpu_clock(freqs: Seq<Option<Seq<char>>>, sclk: Option<u32>) -> Option<u32>
    decreases freqs.len(),
{
    if freqs.len() == 0 {
        None
    } else {
        match file_u64(freqs[0]) {
            Some(hz) => Some((hz / 1_000_000) as u32),
            None => if sclk is Some {
                sclk
            } else {
                gpu_clock(freqs.skip(1), sclk)
            },
        }
    }
}

/// The first of the files that reads as an `i64`.
pub open spec fn first_i64(files: Seq<Option<Seq<char>>>) -> Option<i64>
    decreases files.len(),
{
    if files.len() == 0 {
        None
    } else if file_i64(files[0]) is Some {
        file_i64(files[0])
    } else {
        first_i64(files.skip(1))
    }
}

/// The first of the files that reads as a `u64`.
pub open spec fn first_u64(files: Seq<Option<Seq<char>>>) -> Option<u64>
    decreases files.len(),
{
    if files.len() == 0 {
        None
    } else if file_u64(files[0]) is Some {
        file_u64(files[0])
    } else {
        first_u64(files.skip(1))
    }
}

/// The texts of a vector of optional strings.
pub open spec fn opt_views(v: Seq<Option<String>>) -> Seq<Option<Seq<char>>> {
    v.map_values(|x: Option<String>| opt_string_view(x))
}

/// Whether `t` ends with `s`.
fn ends_with_at(t: &Vec<char>, s: &Vec<char>) -> (r: bool)
    ensures
        r == ends_with(t@, s@),
{
    if s.len() > t.len() {
        return false;
    }
    let start = t.len() - s.len();
    let r = has_prefix_at(t, start, t.len(), s);
    proof {
        assert(t@.subrange(start as int, t@.len() as int).take(s@.len() as int) =~= t@.skip(start as int));
    }
    r
}

/// The clock given by one `pp_dpm_sclk` line `t[a..b]`.
fn sclk_line_at(t: &Vec<char>, a: usize, b: usize) -> (r: Option<u32>)
    requires
        a <= b <= t@.len(),
    ensures
        r == sclk_line(t@.subrange(a as int, b as int)),
{
    if !contains_char_at(t, a, b, '*') {
        return None;
    }
    let parts = split_fields(t, a, b);
    if parts.len() < 2 {
        return None;
    }
    let tok = &parts[1];
    proof {
        assert(views(parts@)[1] == tok@);
    }
    let mhz1 = vec!['M', 'h', 'z'];
    let mhz2 = vec!['M', 'H', 'z'];
    if ends_with_at(tok, &mhz1) || ends_with_at(tok, &mhz2) {
        let n = tok.len() - 3;
        proof {
            assert(tok@.take(n as int) =~= tok@.subrange(0, n as int));
        }
        match parse_unsigned_at(tok, 0, n, 10, 0xffff_ffff) {
            Some(v) => Some(v as u32),
            None => None,
        }
    } else {
        None
    }
}

/// The clock of the first `pp_dpm_sclk` line that gives one.
fn sclk_of(content: &str) -> (r: Option<u32>)
    ensures
        r == sclk_mhz(lines(content@)),
{
    let t = chars_of(content);
    let spans = line_spans(&t);
    let ghost ls = lines(t@);
    let mut k: usize = 0;
    proof {
        assert(ls.skip(0) =~= ls);
    }
    while k < spans.len()
        invariant
            k <= spans@.len(),
            t@ == content@,
            ls == lines(t@),
            spans_are_lines(t@, spans@, ls),
            sclk_mhz(ls) == sclk_mhz(ls.skip(k as int)),
        decreases spans@.len() - k,
    {
        let (a, b) = spans[k];
        proof {
            assert(spans@[k as int] == (a, b));
            assert(ls[k as int] == t@.subrange(a as int, b as int));
            assert(ls.skip(k as int)[0] == ls[k as int]);
            assert(ls.skip(k as int).skip(1) =~= ls.skip(k + 1));
        }
        let r = sclk_line_at(&t, a, b);
        if r.is_some() {
            return r;
        }
        k = k + 1;
    }
    proof {
        assert(ls.skip(spans@.len() as int) =~= Seq::<Seq<char>>::empty());
    }
    None
}

/// The text of an optional string, borrowed.
fn as_opt_str(s: &Option<String>) -> (r: Option<&str>)
    ensures
        opt_view(r) == opt_string_view(*s),
{
    match s {
        Some(t) => Some(t.as_str()),
        None => None,
    }
}

impl GpuCollector {
    /// Find GPU clock frequency (MHz) from the `freq1_input` file of each
    /// hwmon directory of the card (`None` for one that could not be read)
    /// and the card's `pp_dpm_sclk` file.
    pub fn find_gpu_clock(freq_inputs: &Vec<Option<String>>, pp_dpm_sclk: Option<&str>) -> (r: Option<u32>)
        ensures
            r == gpu_clock(opt_views(freq_inputs@), match opt_view(pp_dpm_sclk) {
                Some(c) => sclk_mhz(lines(c)),
                None => None,
            }),
    {
        let ghost fs = opt_views(freq_inputs@);
        let ghost sc = match opt_view(pp_dpm_sclk) {
            Some(c) => sclk_mhz(lines(c)),
            None => None,
        };
        let mut k: usize = 0;
        proof {
            assert(fs.skip(0) =~= fs);
        }
        while k < freq_inputs.len()
            invariant
                k <= freq_inputs@.len(),
                fs == opt_views(freq_inputs@),
                sc == (match opt_view(pp_dpm_sclk) {
                    Some(c) => sclk_mhz(lines(c)),
                    None => None,
                }),
                gpu_clock(fs, sc) == gpu_clock(fs.skip(k as int), sc),
            decreases freq_inputs@.len() - k,
        {
            proof {
                assert(fs.skip(k as int)[0] == fs[k as int]);
                assert(fs[k as int] == opt_string_view(freq_inputs@[k as int]));
                assert(fs.skip(k as int).skip(1) =~= fs.skip(k + 1));
            }
            if let Some(hz) = Self::read_file_u64(as_opt_str(&freq_inputs[k])) {
                return Some((hz / 1_000_000) as u32);
            }
            if let Some(sclk) = pp_dpm_sclk {
                if let Some(mhz) = sclk_of(sclk) {
                    return Some(mhz);
                }
            }
            k = k + 1;
        }
        proof {
            assert(fs.skip(freq_inputs@.len() as int) =~= Seq::<Option<Seq<char>>>::empty());
        }
        None
    }

    /// Find GPU temperature (millidegrees Celsius) from the `temp1_input`
    /// file of each hwmon directory: the first one that reads.
    pub fn find_gpu_temp(temp_inputs: &Vec<Option<String>>) -> (r: Option<i64>)
        ensures
            r == first_i64(opt_views(temp_inputs@)),
    {
        let ghost fs = opt_views(temp_inputs@);
        let mut k: usize = 0;
        proof {
            assert(fs.skip(0) =~= fs);
        }
        while k < temp_inputs.len()
            invariant
                k <= temp_inputs@.len(),
                fs == opt_views(temp_inputs@),
                first_i64(fs) == first_i64(fs.skip(k as int)),
            decreases temp_inputs@.len() - k,
        {
            proof {
                assert(fs.skip(k as int)[0] == fs[k as int]);
                assert(fs[k as int] == opt_string_view(temp_inputs@[k as int]));
                assert(fs.skip(k as int).skip(1) =~= fs.skip(k + 1));
            }
            let v = Self::read_file_i64(as_opt_str(&temp_inputs[k]));
            if v.is_some() {
                return v;
            }
            k = k + 1;
        }
        proof {
            assert(fs.skip(temp_inputs@.len() as int) =~= Seq::<Option<Seq<char>>>::empty());
        }
        None
    }

    /// Find GPU power usage (microwatts) from the `power1_average` file of
    /// each hwmon directory: the first one that reads.
    pub fn find_gpu_power(power_inputs: &Vec<Option<String>>) -> (r: Option<u64>)
        ensures
            r == first_u64(opt_views(power_inputs@)),
    {
        let ghost fs = opt_views(power_inputs@);
        let mut k: usize = 0;
        proof {
            assert(fs.skip(0) =~= fs);
        }
        while k < power_inputs.len()
            invariant
                k <= power_inputs@.len(),
                fs == opt_views(power_inputs@),
                first_u64(fs) == first_u64(fs.skip(k as int)),
            decreases power_inputs@.len() - k,
        {
            proof {
                assert(fs.skip(k as int)[0] == fs[k as int]);
                assert(fs[k as int] == opt_string_view(power_inputs@[k as int]));
                assert(fs.skip(k as int).skip(1) =~= fs.skip(k + 1));
            }
            let v = Self::read_file_u64(as_opt_str(&power_inputs[k]));
            if v.is_some() {
                return v;
            }
            k = k + 1;
        }
        proof {
            assert(fs.skip(power_inputs@.len() as int) =~= Seq::<Option<Seq<char>>>::empty());
        }
        None
    }

    /// Whether a `/sys/class/drm` entry is a card (`card0`), not a
    /// connector (`card0-DP-1`) or a render node.
    pub fn is_card(name: &str) -> (r: bool)
        ensures
            r == (starts_with(name@, seq!['c', 'a', 'r', 'd']) && !name@.contains('-')),
    {
        let t = chars_of(name);
        proof {
            assert(t@.subrange(0, t@.len() as int) =~= t@);
        }
        let card = vec!['c', 'a', 'r', 'd'];
        has_prefix_at(&t, 0, t.len(), &card) && !contains_char_at(&t, 0, t.len(), '-')
    }
}

} // verus!
