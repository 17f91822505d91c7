//! Character-level text handling shared by the parsers: splitting into lines
//! and whitespace-separated fields, trimming, number parsing and decimal
//! rendering, each stated over `Seq<char>`.

use vstd::prelude::*;
use vstd::string::StringSliceAdditionalSpecFns;
use vstd::utf8::{decode_utf8, is_char_boundary};

verus! {

/// Unicode `White_Space`, the set that `char::is_whitespace` tests.
pub open spec fn is_ws(c: char) -> bool {
    ||| c == '\t' || c == '\n' || c == '\x0B' || c == '\x0C' || c == '\r' || c == ' '
    ||| c == '\u{85}' || c == '\u{A0}' || c == '\u{1680}'
    ||| ('\u{2000}' <= c && c <= '\u{200A}')
    ||| c == '\u{2028}' || c == '\u{2029}' || c == '\u{202F}' || c == '\u{205F}'
    ||| c == '\u{3000}'
}

/// Whether `c` is whitespace.
pub fn is_whitespace(c: char) -> (r: bool)
    ensures
        r == is_ws(c),
{
    c == '\t' || c == '\n' || c == '\x0B' || c == '\x0C' || c == '\r' || c == ' ' || c == '\u{85}'
        || c == '\u{A0}' || c == '\u{1680}' || ('\u{2000}' <= c && c <= '\u{200A}') || c
        == '\u{2028}' || c == '\u{2029}' || c == '\u{202F}' || c == '\u{205F}' || c == '\u{3000}'
}

/// The characters of `s`, in order.
pub fn chars_of(s: &str) -> (v: Vec<char>)
    ensures
        v@ == s@,
{
    let mut v: Vec<char> = Vec::new();
    for c in it: s.chars()
        invariant
            v@ == it.seq().take(it.index() as int),
            it.seq() == s@,
    {
        v.push(c);
        proof {
            assert(it.seq().take(it.index() + 1) =~= v@);
        }
    }
    proof {
        assert(s@.take(s@.len() as int) =~= s@);
    }
    v
}

/// A `String` made of the given characters.
///
/// Trusted: calls `String::from_iter` on the characters; its documentation
/// says the string holds the iterator's characters in order.
#[verifier::external_body]
pub(crate) fn string_from_chars(v: &Vec<char>) -> (s: String)
    ensures
        s@ == v@,
{
    String::from_iter(v.iter())
}

/// Length of the run of non-whitespace characters at the start of `s`.
pub open spec fn run_len(s: Seq<char>) -> nat
    decreases s.len(),
{
    if s.len() == 0 || is_ws(s[0]) {
        0
    } else {
        1 + run_len(s.skip(1))
    }
}

/// The whitespace-separated fields of `s`, as `str::split_whitespace` yields
/// them: the maximal runs of non-whitespace characters, in order.
pub open spec fn fields(s: Seq<char>) -> Seq<Seq<char>>
    decreases s.len(),
{
    if s.len() == 0 {
        Seq::empty()
    } else if is_ws(s[0]) {
        fields(s.skip(1))
    } else {
        let k = run_len(s);
        if 0 < k <= s.len() {
            seq![s.take(k as int)] + fields(s.skip(k as int))
        } else {
            Seq::empty()
        }
    }
}

proof fn lemma_run_len(s: Seq<char>, j: int)
    requires
        0 <= j <= s.len(),
        forall|k: int| 0 <= k < j ==> !is_ws(#[trigger] s[k]),
        j == s.len() || is_ws(s[j]),
    ensures
        run_len(s) == j,
    decreases j,
{
    if j > 0 {
        let t = s.skip(1);
        assert forall|k: int| 0 <= k < j - 1 implies !is_ws(#[trigger] t[k]) by {
            assert(t[k] == s[k + 1]);
        }
        if j - 1 < t.len() {
            assert(t[j - 1] == s[j]);
        }
        lemma_run_len(t, j - 1);
    }
}

/// The views of a vector of character vectors.
pub open spec fn views(v: Seq<Vec<char>>) -> Seq<Seq<char>> {
    v.map_values(|x: Vec<char>| x@)
}

/// The characters `s[start..end]`.
pub fn slice_chars(s: &Vec<char>, start: usize, end: usize) -> (r: Vec<char>)
    requires
        start <= end <= s@.len(),
    ensures
        r@ == s@.subrange(start as int, end as int),
{
    let mut r: Vec<char> = Vec::new();
    let mut i = start;
    while i < end
        invariant
            start <= i <= end <= s@.len(),
            r@ == s@.subrange(start as int, i as int),
        decreases end - i,
    {
        r.push(s[i]);
        i = i + 1;
        proof {
            assert(r@ =~= s@.subrange(start as int, i as int));
        }
    }
    r
}

/// The whitespace-separated fields of `s[start..end]`.
pub fn split_fields(s: &Vec<char>, start: usize, end: usize) -> (r: Vec<Vec<char>>)
    requires
        start <= end <= s@.len(),
    ensures
        views(r@) == fields(s@.subrange(start as int, end as int)),
{
    let ghost whole = s@.subrange(start as int, end as int);
    let mut r: Vec<Vec<char>> = Vec::new();
    let mut i = start;
    proof {
        assert(whole.skip(0) =~= whole);
    }
    while i < end
        invariant
            start <= i <= end <= s@.len(),
            whole == s@.subrange(start as int, end as int),
            fields(whole) == views(r@) + fields(whole.skip(i - start)),
        decreases end - i,
    {
        let ghost rest = whole.skip(i - start);
        if is_whitespace(s[i]) {
            proof {
                assert(rest[0] == s@[i as int]);
                assert(rest.skip(1) =~= whole.skip(i + 1 - start));
            }
            i = i + 1;
        } else {
            let mut j = i;
            while j < end && !is_whitespace(s[j])
                invariant
                    i <= j <= end <= s@.len(),
                    forall|k: int| i <= k < j ==> !is_ws(#[trigger] s@[k]),
                decreases end - j,
            {
                j = j + 1;
            }
            let token = slice_chars(s, i, j);
            proof {
                assert forall|k: int| 0 <= k < j - i implies !is_ws(#[trigger] rest[k]) by {
                    assert(rest[k] == s@[i + k]);
                }
                if j < end {
                    assert(rest[j - i] == s@[j as int]);
                }
                lemma_run_len(rest, j - i);
                assert(rest[0] == s@[i as int]);
                assert(rest.take(j - i) =~= token@);
                assert(rest.skip(j - i) =~= whole.skip(j - start));
            }
            let ghost before = views(r@);
            r.push(token);
            proof {
                assert(views(r@) =~= before.push(token@));
                assert(views(r@) + fields(whole.skip(j - start)) =~= before + (seq![token@] + fields(whole.skip(j - start))));
            }
            i = j;
        }
    }
    proof {
        assert(views(r@) + fields(whole.skip(end - start)) =~= views(r@));
    }
    r
}

/// Position of the first `'\n'` in `s`, or its length when there is none.
pub open spec fn nl_pos(s: Seq<char>) -> nat
    decreases s.len(),
{
    if s.len() == 0 || s[0] == '\n' {
        0
    } else {
        1 + nl_pos(s.skip(1))
    }
}

/// A line without the `'\r'` that came before its `'\n'`.
pub open spec fn strip_cr(l: Seq<char>) -> Seq<char> {
    if l.len() > 0 && l.last() == '\r' {
        l.drop_last()
    } else {
        l
    }
}

/// The lines of `s`, as `str::lines` yields them: split at each `'\n'`, a
/// `'\r'` just before it removed, no empty line after a final `'\n'`.
pub open spec fn lines(s: Seq<char>) -> Seq<Seq<char>>
    decreases s.len(),
{
    if s.len() == 0 {
        Seq::empty()
    } else {
        let k = nl_pos(s);
        if k < s.len() {
            seq![strip_cr(s.take(k as int))] + lines(s.skip(k + 1 as int))
        } else {
            seq![s]
        }
    }
}

proof fn lemma_nl_pos(s: Seq<char>, j: int)
    requires
        0 <= j <= s.len(),
        forall|k: int| 0 <= k < j ==> #[trigger] s[k] != '\n',
        j == s.len() || s[j] == '\n',
    ensures
        nl_pos(s) == j,
    decreases j,
{
    if j > 0 {
        let t = s.skip(1);
        assert forall|k: int| 0 <= k < j - 1 implies #[trigger] t[k] != '\n' by {
            assert(t[k] == s[k + 1]);
        }
        if j - 1 < t.len() {
            assert(t[j - 1] == s[j]);
        }
        lemma_nl_pos(t, j - 1);
    }
}

/// Where each line of `s` lies in it: `s[span.0..span.1]` is the line.
pub open spec fn spans_are_lines(s: Seq<char>, spans: Seq<(usize, usize)>, ls: Seq<Seq<char>>) -> bool {
    &&& spans.len() == ls.len()
    &&& forall|i: int|
        #![trigger spans[i]]
        0 <= i < spans.len() ==> {
            &&& spans[i].0 <= spans[i].1 <= s.len()
            &&& s.subrange(spans[i].0 as int, spans[i].1 as int) == ls[i]
        }
}

/// The spans of the lines of `s`.
pub fn line_spans(s: &Vec<char>) -> (r: Vec<(usize, usize)>)
    ensures
        spans_are_lines(s@, r@, lines(s@)),
{
    let n = s.len();
    let mut r: Vec<(usize, usize)> = Vec::new();
    let mut i: usize = 0;
    let ghost done: Seq<Seq<char>> = Seq::empty();
    proof {
        assert(s@.skip(0) =~= s@);
    }
    while i < n
        invariant
            i <= n == s@.len(),
            lines(s@) == done + lines(s@.skip(i as int)),
            spans_are_lines(s@, r@, done),
        decreases n - i,
    {
        let ghost rest = s@.skip(i as int);
        let mut j = i;
        while j < n && s[j] != '\n'
            invariant
                i <= j <= n == s@.len(),
                forall|k: int| i <= k < j ==> #[trigger] s@[k] != '\n',
            decreases n - j,
        {
            j = j + 1;
        }
        proof {
            assert forall|k: int| 0 <= k < j - i implies #[trigger] rest[k] != '\n' by {
                assert(rest[k] == s@[i + k]);
            }
            if j < n {
                assert(rest[j - i] == s@[j as int]);
            }
            lemma_nl_pos(rest, j - i);
        }
        if j < n {
            let end = if j > i && s[j - 1] == '\r' { j - 1 } else { j };
            proof {
                let l = rest.take(j - i);
                assert(l =~= s@.subrange(i as int, j as int));
                if j > i && s@[j - 1] == '\r' {
                    assert(l.last() == s@[j - 1]);
                    assert(strip_cr(l) =~= s@.subrange(i as int, end as int));
                } else {
                    if l.len() > 0 {
                        assert(l.last() == s@[j - 1]);
                    }
                    assert(strip_cr(l) =~= s@.subrange(i as int, end as int));
                }
                assert(rest.skip(j - i + 1) =~= s@.skip(j + 1));
                done = done.push(strip_cr(l));
                assert(lines(s@) =~= done + lines(s@.skip(j + 1)));
            }
            r.push((i, end));
            i = j + 1;
        } else {
            proof {
                assert(rest =~= s@.subrange(i as int, n as int));
                assert(s@.skip(n as int) =~= Seq::<char>::empty());
                done = done.push(rest);
                assert(lines(s@) =~= done + lines(s@.skip(n as int)));
            }
            r.push((i, n));
            i = n;
        }
    }
    proof {
        assert(s@.skip(n as int) =~= Seq::<char>::empty());
        assert(lines(s@) =~= done);
    }
    r
}

/// The value of digit `c` in the given radix (10 or 16), as `char::to_digit`
/// gives it.
pub open spec fn digit_val(c: char, radix: nat) -> Option<nat> {
    if '0' <= c && c <= '9' {
        Some((c as nat - '0' as nat) as nat)
    } else if radix == 16 && 'a' <= c && c <= 'f' {
        Some((c as nat - 'a' as nat + 10) as nat)
    } else if radix == 16 && 'A' <= c && c <= 'F' {
        Some((c as nat - 'A' as nat + 10) as nat)
    } else {
        None
    }
}

/// Every character of `d` is a digit of the radix.
pub open spec fn all_digits(d: Seq<char>, radix: nat) -> bool {
    forall|i: int| 0 <= i < d.len() ==> (#[trigger] digit_val(d[i], radix)) is Some
}

/// The number the digits `d` denote in the radix.
pub open spec fn digits_value(d: Seq<char>, radix: nat) -> nat
    decreases d.len(),
{
    if d.len() == 0 {
        0
    } else {
        digits_value(d.drop_last(), radix) * radix + digit_val(d.last(), radix).unwrap_or(0)
    }
}

/// The digits of an unsigned number: `s` without a leading `'+'`.
pub open spec fn unsigned_digits(s: Seq<char>) -> Seq<char> {
    if s.len() > 0 && s[0] == '+' {
        s.skip(1)
    } else {
        s
    }
}

/// What `from_str_radix` of an unsigned type whose largest value is `max`
/// gives for `s`: an optional `'+'`, then one or more digits of the radix,
/// denoting a number no larger than `max`.
pub open spec fn parse_unsigned(s: Seq<char>, radix: nat, max: nat) -> Option<nat> {
    let d = unsigned_digits(s);
    if d.len() > 0 && all_digits(d, radix) && digits_value(d, radix) <= max {
        Some(digits_value(d, radix))
    } else {
        None
    }
}

/// What `i64::from_str` gives for `s`: an optional sign, then one or more
/// decimal digits, denoting a number in the range of `i64`.
pub open spec fn parse_i64_spec(s: Seq<char>) -> Option<int> {
    if s.len() > 0 && s[0] == '-' {
        let d = s.skip(1);
        if d.len() > 0 && all_digits(d, 10) && digits_value(d, 10) <= 0x8000_0000_0000_0000 {
            Some(-digits_value(d, 10))
        } else {
            None
        }
    } else {
        let d = unsigned_digits(s);
        if d.len() > 0 && all_digits(d, 10) && digits_value(d, 10) <= 0x7fff_ffff_ffff_ffff {
            Some(digits_value(d, 10) as int)
        } else {
            None
        }
    }
}

proof fn lemma_digits_prefix_le(d: Seq<char>, radix: nat, i: int)
    requires
        0 <= i <= d.len(),
        radix >= 1,
    ensures
        digits_value(d.take(i), radix) <= digits_value(d, radix),
    decreases d.len(),
{
    if i < d.len() {
        let p = d.drop_last();
        assert(p.take(i) =~= d.take(i));
        lemma_digits_prefix_le(p, radix, i);
        let v = digits_value(p, radix);
        assert(v <= v * radix) by (nonlinear_arith)
            requires
                radix >= 1,
        ;
    } else {
        assert(d.take(i) =~= d);
    }
}

/// Reads the digits `s[start..end]` in the radix, giving up as soon as the
/// value passes `max`.
fn digits_at(s: &Vec<char>, start: usize, end: usize, radix: u32, max: u64) -> (r: Option<u64>)
    requires
        start <= end <= s@.len(),
        radix == 10 || radix == 16,
    ensures
        ({
            let d = s@.subrange(start as int, end as int);
            match r {
                Some(v) => all_digits(d, radix as nat) && digits_value(d, radix as nat) == v && v
                    <= max,
                None => !all_digits(d, radix as nat) || digits_value(d, radix as nat) > max,
            }
        }),
{
    let ghost d = s@.subrange(start as int, end as int);
    let mut v: u64 = 0;
    let mut i = start;
    proof {
        assert(d.take(0) =~= Seq::<char>::empty());
    }
    while i < end
        invariant
            start <= i <= end <= s@.len(),
            d == s@.subrange(start as int, end as int),
            radix == 10 || radix == 16,
            v <= max,
            all_digits(d.take(i - start), radix as nat),
            digits_value(d.take(i - start), radix as nat) == v,
        decreases end - i,
    {
        let c = s[i];
        let dv: u32 = if '0' <= c && c <= '9' {
            (c as u32) - ('0' as u32)
        } else if radix == 16 && 'a' <= c && c <= 'f' {
            (c as u32) - ('a' as u32) + 10
        } else if radix == 16 && 'A' <= c && c <= 'F' {
            (c as u32) - ('A' as u32) + 10
        } else {
            proof {
                assert(d[i - start] == c);
                assert(digit_val(d[i - start], radix as nat) is None);
            }
            return None;
        };
        proof {
            assert(d[i - start] == c);
            assert(digit_val(c, radix as nat) == Some(dv as nat));
            assert((v as int) * (radix as int) <= 0xffff_ffff_ffff_ffffint * 16) by (nonlinear_arith)
                requires
                    v <= 0xffff_ffff_ffff_ffffu64,
                    radix <= 16,
            ;
        }
        let nv: u128 = (v as u128) * (radix as u128) + (dv as u128);
        let ghost p = d.take(i - start + 1);
        proof {
            assert(p.drop_last() =~= d.take(i - start));
            assert(p.last() == c);
            assert(digits_value(p, radix as nat) == nv);
            assert forall|k: int| 0 <= k < p.len() implies (#[trigger] digit_val(p[k], radix as nat)) is Some by {
                if k < p.len() - 1 {
                    assert(p[k] == d.take(i - start)[k]);
                }
            }
        }
        if nv > max as u128 {
            proof {
                lemma_digits_prefix_le(d, radix as nat, i - start + 1);
            }
            return None;
        }
        v = nv as u64;
        i = i + 1;
    }
    proof {
        assert(d.take(end - start) =~= d);
    }
    Some(v)
}

/// `s[start..end]` read as an unsigned number of the radix no larger than
/// `max`, as `from_str_radix` reads it.
pub fn parse_unsigned_at(s: &Vec<char>, start: usize, end: usize, radix: u32, max: u64) -> (r:
    Option<u64>)
    requires
        start <= end <= s@.len(),
        radix == 10 || radix == 16,
    ensures
        match parse_unsigned(s@.subrange(start as int, end as int), radix as nat, max as nat) {
            Some(v) => r == Some(v as u64),
            None => r is None,
        },
{
    let ghost t = s@.subrange(start as int, end as int);
    let mut first = start;
    if start < end && s[start] == '+' {
        first = start + 1;
    }
    proof {
        if start < end && s@[start as int] == '+' {
            assert(t[0] == s@[start as int]);
            assert(unsigned_digits(t) =~= s@.subrange(first as int, end as int));
        } else {
            if start < end {
                assert(t[0] == s@[start as int]);
            }
            assert(unsigned_digits(t) =~= s@.subrange(first as int, end as int));
        }
    }
    if first == end {
        return None;
    }
    digits_at(s, first, end, radix, max)
}

/// `s[start..end]` read as an `i64`, as `i64::from_str` reads it.
pub fn parse_i64_at(s: &Vec<char>, start: usize, end: usize) -> (r: Option<i64>)
    requires
        start <= end <= s@.len(),
    ensures
        match parse_i64_spec(s@.subrange(start as int, end as int)) {
            Some(v) => r == Some(v as i64),
            None => r is None,
        },
{
    let ghost t = s@.subrange(start as int, end as int);
    if start < end && s[start] == '-' {
        proof {
            assert(t[0] == s@[start as int]);
            assert(t.skip(1) =~= s@.subrange(start + 1, end as int));
        }
        if start + 1 == end {
            return None;
        }
        match digits_at(s, start + 1, end, 10, 0x8000_0000_0000_0000u64) {
            Some(v) => {
                if v == 0x8000_0000_0000_0000u64 {
                    Some(i64::MIN)
                } else {
                    let w = v as i64;
                    Some(-w)
                }
            },
            None => None,
        }
    } else {
        proof {
            if start < end {
                assert(t[0] == s@[start as int]);
            }
        }
        let r = parse_unsigned_at(s, start, end, 10, 0x7fff_ffff_ffff_ffffu64);
        match r {
            Some(v) => Some(v as i64),
            None => None,
        }
    }
}

/// Number of whitespace characters at the start of `s`.
pub open spec fn lead_ws(s: Seq<char>) -> nat
    decreases s.len(),
{
    if s.len() > 0 && is_ws(s[0]) {
        1 + lead_ws(s.skip(1))
    } else {
        0
    }
}

/// Number of whitespace characters at the end of `s`.
pub open spec fn trail_ws(s: Seq<char>) -> nat
    decreases s.len(),
{
    if s.len() > 0 && is_ws(s.last()) {
        1 + trail_ws(s.drop_last())
    } else {
        0
    }
}

/// `s` without leading and trailing whitespace, as `str::trim` gives it.
pub open spec fn trim(s: Seq<char>) -> Seq<char> {
    let t = s.skip(lead_ws(s) as int);
    t.take(t.len() - trail_ws(t))
}

proof fn lemma_lead_ws(s: Seq<char>, j: int)
    requires
        0 <= j <= s.len(),
        forall|k: int| 0 <= k < j ==> is_ws(#[trigger] s[k]),
        j == s.len() || !is_ws(s[j]),
    ensures
        lead_ws(s) == j,
    decreases j,
{
    if j > 0 {
        let t = s.skip(1);
        assert forall|k: int| 0 <= k < j - 1 implies is_ws(#[trigger] t[k]) by {
            assert(t[k] == s[k + 1]);
        }
        if j - 1 < t.len() {
            assert(t[j - 1] == s[j]);
        }
        lemma_lead_ws(t, j - 1);
    }
}

proof fn lemma_trail_ws(s: Seq<char>, j: int)
    requires
        0 <= j <= s.len(),
        forall|k: int| s.len() - j <= k < s.len() ==> is_ws(#[trigger] s[k]),
        j == s.len() || !is_ws(s[s.len() - j - 1]),
    ensures
        trail_ws(s) == j,
    decreases j,
{
    if j > 0 {
        let t = s.drop_last();
        assert forall|k: int| t.len() - (j - 1) <= k < t.len() implies is_ws(#[trigger] t[k]) by {
            assert(t[k] == s[k]);
        }
        if j - 1 < t.len() {
            assert(t[t.len() - (j - 1) - 1] == s[s.len() - j - 1]);
        }
        lemma_trail_ws(t, j - 1);
    }
}

/// The span of `s[start..end]` with surrounding whitespace removed.
pub fn trim_span(s: &Vec<char>, start: usize, end: usize) -> (r: (usize, usize))
    requires
        start <= end <= s@.len(),
    ensures
        start <= r.0 <= r.1 <= end,
        s@.subrange(r.0 as int, r.1 as int) == trim(s@.subrange(start as int, end as int)),
{
    let ghost w = s@.subrange(start as int, end as int);
    let mut a = start;
    while a < end && is_whitespace(s[a])
        invariant
            start <= a <= end <= s@.len(),
            forall|k: int| start <= k < a ==> is_ws(#[trigger] s@[k]),
        decreases end - a,
    {
        a = a + 1;
    }
    proof {
        assert forall|k: int| 0 <= k < a - start implies is_ws(#[trigger] w[k]) by {
            assert(w[k] == s@[start + k]);
        }
        if a < end {
            assert(w[a - start] == s@[a as int]);
        }
        lemma_lead_ws(w, a - start);
    }
    let ghost t = w.skip(a - start);
    let mut b = end;
    while b > a && is_whitespace(s[b - 1])
        invariant
            start <= a <= b <= end <= s@.len(),
            forall|k: int| b <= k < end ==> is_ws(#[trigger] s@[k]),
        decreases b - a,
    {
        b = b - 1;
    }
    proof {
        assert(t.len() == end - a);
        assert forall|k: int| t.len() - (end - b) <= k < t.len() implies is_ws(#[trigger] t[k]) by {
            assert(t[k] == s@[a + k]);
        }
        if end - b < t.len() {
            assert(t[t.len() - (end - b) - 1] == s@[b - 1]);
        }
        lemma_trail_ws(t, end - b);
        assert(t.take(t.len() - trail_ws(t)) =~= s@.subrange(a as int, b as int));
    }
    (a, b)
}

/// Whether `w` begins with `p`, as `str::starts_with` tells.
pub open spec fn starts_with(w: Seq<char>, p: Seq<char>) -> bool {
    p.len() <= w.len() && w.take(p.len() as int) == p
}

/// Whether `s[start..end]` begins with `p`.
pub fn has_prefix_at(s: &Vec<char>, start: usize, end: usize, p: &Vec<char>) -> (r: bool)
    requires
        start <= end <= s@.len(),
    ensures
        r == starts_with(s@.subrange(start as int, end as int), p@),
{
    let ghost w = s@.subrange(start as int, end as int);
    if end - start < p.len() {
        return false;
    }
    let mut i: usize = 0;
    while i < p.len()
        invariant
            start <= end <= s@.len(),
            end - start >= p@.len(),
            w == s@.subrange(start as int, end as int),
            i <= p@.len(),
            forall|k: int| 0 <= k < i ==> s@[start + k] == #[trigger] p@[k],
        decreases p@.len() - i,
    {
        if s[start + i] != p[i] {
            proof {
                assert(w.take(p@.len() as int)[i as int] == s@[start + i]);
            }
            return false;
        }
        i = i + 1;
    }
    proof {
        assert(w.take(p@.len() as int) =~= p@);
    }
    true
}

/// Whether `c` occurs in `s[start..end]`.
pub fn contains_char_at(s: &Vec<char>, start: usize, end: usize, c: char) -> (r: bool)
    requires
        start <= end <= s@.len(),
    ensures
        r == s@.subrange(start as int, end as int).contains(c),
{
    let ghost w = s@.subrange(start as int, end as int);
    let mut i = start;
    while i < end
        invariant
            start <= i <= end <= s@.len(),
            w == s@.subrange(start as int, end as int),
            forall|k: int| start <= k < i ==> s@[k] != c,
        decreases end - i,
    {
        if s[i] == c {
            proof {
                assert(w[i - start] == c);
            }
            return true;
        }
        i = i + 1;
    }
    proof {
        assert forall|k: int| 0 <= k < w.len() implies w[k] != c by {
            assert(w[k] == s@[start + k]);
        }
    }
    false
}

/// The decimal digit for `d < 10`.
pub open spec fn digit_char(d: nat) -> char {
    (('0' as nat) + d) as char
}

/// The decimal representation of `n`, without leading zeros.
pub open spec fn decimal(n: nat) -> Seq<char>
    decreases n,
{
    if n < 10 {
        seq![digit_char(n)]
    } else {
        decimal(n / 10).push(digit_char(n % 10))
    }
}

/// The decimal representation of an integer, with `'-'` before a negative one.
pub open spec fn signed_decimal(n: int) -> Seq<char> {
    if n < 0 {
        seq!['-'] + decimal((-n) as nat)
    } else {
        decimal(n as nat)
    }
}

/// The digit character for `d`.
fn digit_to_char(d: u64) -> (c: char)
    requires
        d < 10,
    ensures
        c == digit_char(d as nat),
{
    match d {
        0 => '0',
        1 => '1',
        2 => '2',
        3 => '3',
        4 => '4',
        5 => '5',
        6 => '6',
        7 => '7',
        8 => '8',
        _ => '9',
    }
}

/// Appends the decimal representation of `n`.
pub fn push_decimal(out: &mut Vec<char>, n: u64)
    ensures
        final(out)@ == old(out)@ + decimal(n as nat),
    decreases n,
{
    if n >= 10 {
        push_decimal(out, n / 10);
    }
    let c = digit_to_char(n % 10);
    out.push(c);
    proof {
        if n >= 10 {
            assert(old(out)@ + decimal(n as nat) =~= old(out)@ + decimal((n / 10) as nat) + seq![digit_char((n % 10) as nat)]);
        } else {
            assert(n % 10 == n);
        }
    }
}

/// Appends the decimal representation of `n`, with a sign when negative.
pub fn push_signed_decimal(out: &mut Vec<char>, n: i64)
    ensures
        final(out)@ == old(out)@ + signed_decimal(n as int),
{
    if n < 0 {
        out.push('-');
        let m: u64 = if n == i64::MIN {
            0x8000_0000_0000_0000u64
        } else {
            (-n) as u64
        };
        push_decimal(out, m);
        proof {
            assert(final(out)@ =~= old(out)@ + signed_decimal(n as int));
        }
    } else {
        push_decimal(out, n as u64);
    }
}

/// Appends the characters of `s`.
pub fn push_all(out: &mut Vec<char>, s: &Vec<char>)
    ensures
        final(out)@ == old(out)@ + s@,
{
    let mut i: usize = 0;
    while i < s.len()
        invariant
            i <= s@.len(),
            out@ == old(out)@ + s@.take(i as int),
        decreases s@.len() - i,
    {
        out.push(s[i]);
        i = i + 1;
        proof {
            assert(out@ =~= old(out)@ + s@.take(i as int));
        }
    }
    proof {
        assert(s@.take(s@.len() as int) =~= s@);
    }
}

/// A field read as a `u64`, or zero when it does not parse.
pub open spec fn field_u64(t: Seq<char>) -> u64 {
    match parse_unsigned(t, 10, 0xffff_ffff_ffff_ffff) {
        Some(v) => v as u64,
        None => 0,
    }
}

/// Reads the whole of `t` as a `u64`, or zero when it does not parse.
pub fn parse_u64_or_zero(t: &Vec<char>) -> (r: u64)
    ensures
        r == field_u64(t@),
{
    proof {
        assert(t@.subrange(0, t@.len() as int) =~= t@);
    }
    match parse_unsigned_at(t, 0, t.len(), 10, 0xffff_ffff_ffff_ffff) {
        Some(v) => v,
        None => 0,
    }
}

/// `a - b`, or zero when `b` is larger.
pub open spec fn sat_sub(a: u64, b: u64) -> u64 {
    if a >= b { (a - b) as u64 } else { 0 }
}

/// The views of a sequence of samples.
pub open spec fn sample_views<T: View>(s: Seq<T>) -> Seq<T::V> {
    s.map_values(|x: T| x@)
}

/// Position of the first `c` in `s`, or its length when there is none.
pub open spec fn char_pos(s: Seq<char>, c: char) -> nat
    decreases s.len(),
{
    if s.len() == 0 || s[0] == c {
        0
    } else {
        1 + char_pos(s.skip(1), c)
    }
}

proof fn lemma_char_pos(s: Seq<char>, c: char, j: int)
    requires
        0 <= j <= s.len(),
        forall|k: int| 0 <= k < j ==> #[trigger] s[k] != c,
        j == s.len() || s[j] == c,
    ensures
        char_pos(s, c) == j,
    decreases j,
{
    if j > 0 {
        let t = s.skip(1);
        assert forall|k: int| 0 <= k < j - 1 implies #[trigger] t[k] != c by {
            assert(t[k] == s[k + 1]);
        }
        if j - 1 < t.len() {
            assert(t[j - 1] == s[j]);
        }
        lemma_char_pos(t, c, j - 1);
    }
}

/// The index of the first `c` in `s[start..end]`, or `end` when there is none.
pub fn find_char(s: &Vec<char>, start: usize, end: usize, c: char) -> (r: usize)
    requires
        start <= end <= s@.len(),
    ensures
        start <= r <= end,
        r - start == char_pos(s@.subrange(start as int, end as int), c),
{
    let ghost w = s@.subrange(start as int, end as int);
    let mut i = start;
    while i < end && s[i] != c
        invariant
            start <= i <= end <= s@.len(),
            forall|k: int| start <= k < i ==> #[trigger] s@[k] != c,
        decreases end - i,
    {
        i = i + 1;
    }
    proof {
        assert forall|k: int| 0 <= k < i - start implies #[trigger] w[k] != c by {
            assert(w[k] == s@[start + k]);
        }
        if i < end {
            assert(w[i - start] == s@[i as int]);
        }
        lemma_char_pos(w, c, i - start);
    }
    i
}

/// A column's text for `s`: `s` itself when it is at most `max` bytes long
/// (`len` counts UTF-8 bytes), else its first `keep` bytes followed by `...`.
pub fn shortened(s: &str, max: usize, keep: usize) -> (r: String)
    requires
        s.len() > max ==> is_char_boundary(s.spec_bytes(), keep as int),
    ensures
        s.len() <= max ==> r@ == s@,
        s.len() > max ==> r@ == decode_utf8(s.spec_bytes().subrange(0, keep as int)) + seq!['.', '.', '.'],
{
    broadcast use vstd::utf8::encode_utf8_decode_utf8, vstd::utf8::encode_utf8_valid_utf8;

    if s.len() > max {
        let (head, _) = s.split_at(keep);
        let mut out = chars_of(head);
        out.push('.');
        out.push('.');
        out.push('.');
        proof {
            assert(head@ == decode_utf8(s.spec_bytes().subrange(0, keep as int)));
            assert(out@ =~= head@ + seq!['.', '.', '.']);
        }
        string_from_chars(&out)
    } else {
        let out = chars_of(s);
        string_from_chars(&out)
    }
}

} // verus!
