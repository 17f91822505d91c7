//! Human-readable renderings of durations.

use crate::text::{decimal, push_decimal, string_from_chars};
use vstd::prelude::*;

verus! {

/// Uptime as text: seconds under a minute (`42s`), minutes and seconds under
/// an hour (`5m 3s`), hours and minutes under a day (`2h 10m`), else days and
/// hours (`3d 4h`).
pub open spec fn uptime_text(secs: nat) -> Seq<char> {
    if secs < 60 {
        decimal(secs) + seq!['s']
    } else if secs < 3600 {
        decimal(secs / 60) + seq!['m', ' '] + decimal(secs % 60) + seq!['s']
    } else if secs < 86400 {
        decimal(secs / 3600) + seq!['h', ' '] + decimal((secs % 3600) / 60) + seq!['m']
    } else {
        decimal(secs / 86400) + seq!['d', ' '] + decimal((secs % 86400) / 3600) + seq!['h']
    }
}

/// Format uptime seconds to human-readable string.
pub fn format_uptime(secs: u64) -> (r: String)
    ensures
        r@ == uptime_text(secs as nat),
{
    let mut out: Vec<char> = Vec::new();
    if secs < 60 {
        push_decimal(&mut out, secs);
        out.push('s');
    } else if secs < 3600 {
        push_decimal(&mut out, secs / 60);
        out.push('m');
        out.push(' ');
        push_decimal(&mut out, secs % 60);
        out.push('s');
    } else if secs < 86400 {
        push_decimal(&mut out, secs / 3600);
        out.push('h');
        out.push(' ');
        push_decimal(&mut out, (secs % 3600) / 60);
        out.push('m');
    } else {
        push_decimal(&mut out, secs / 86400);
        out.push('d');
        out.push(' ');
        push_decimal(&mut out, (secs % 86400) / 3600);
        out.push('h');
    }
    proof {
        assert(out@ =~= uptime_text(secs as nat));
    }
    string_from_chars(&out)
}

} // verus!
