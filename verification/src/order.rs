//! Ordering the process list by an integer or a name key: a stable sort,
//! then the requested number of records from the top.

use crate::process::ProcessRecord;
use crate::protocol::SortField;
use crate::text::chars_of;
use vstd::prelude::*;

verus! {

/// Whether `a` comes before `b` in lexicographic order of characters by code
/// point (the order of `String`'s comparison, since UTF-8 keeps code-point
/// order byte by byte).
pub open spec fn lex_less(a: Seq<char>, b: Seq<char>) -> bool
    decreases a.len(),
{
    if b.len() == 0 {
        false
    } else if a.len() == 0 {
        true
    } else if a[0] != b[0] {
        a[0] < b[0]
    } else {
        lex_less(a.drop_first(), b.drop_first())
    }
}

/// Name order is lexicographic: where two names first differ at a position
/// both reach, the one with the smaller character there goes first, whatever
/// the lengths of the names.
pub proof fn law_name_first_difference(a: Seq<char>, b: Seq<char>, i: int)
    requires
        0 <= i < a.len(),
        i < b.len(),
        a.take(i) == b.take(i),
        a[i] != b[i],
    ensures
        lex_less(a, b) <==> a[i] < b[i],
    decreases i,
{
    if i > 0 {
        assert(a[0] == a.take(i)[0] && b[0] == b.take(i)[0]);
        assert(a.drop_first().take(i - 1) =~= a.take(i).drop_first());
        assert(b.drop_first().take(i - 1) =~= b.take(i).drop_first());
        law_name_first_difference(a.drop_first(), b.drop_first(), i - 1);
    }
}

/// A name goes before every longer name it begins, and no name goes before
/// itself or before one of its own beginnings.
pub proof fn law_name_prefix(a: Seq<char>, b: Seq<char>)
    requires
        a.len() <= b.len(),
        b.take(a.len() as int) == a,
    ensures
        lex_less(a, b) <==> a.len() < b.len(),
        !lex_less(b, a),
    decreases a.len(),
{
    if a.len() > 0 {
        assert(b[0] == a[0]);
        assert(b.drop_first().take(a.len() - 1) =~= a.drop_first());
        law_name_prefix(a.drop_first(), b.drop_first());
    }
}

/// Whether `a` is strictly less than `b` by characters.
pub fn name_less(a: &str, b: &str) -> (r: bool)
    ensures
        r == lex_less(a@, b@),
{
    let x = chars_of(a);
    let y = chars_of(b);
    let mut i: usize = 0;
    proof {
        assert(x@.skip(0) =~= x@);
        assert(y@.skip(0) =~= y@);
    }
    while i < x.len() && i < y.len()
        invariant
            x@ == a@,
            y@ == b@,
            i <= x@.len(),
            i <= y@.len(),
            lex_less(x@, y@) == lex_less(x@.skip(i as int), y@.skip(i as int)),
        decreases x@.len() - i,
    {
        let cx = x[i];
        let cy = y[i];
        proof {
            assert(x@.skip(i as int).len() > 0 && x@.skip(i as int)[0] == cx);
            assert(y@.skip(i as int).len() > 0 && y@.skip(i as int)[0] == cy);
        }
        if cx != cy {
            proof {
                let xs = x@.skip(i as int);
                let ys = y@.skip(i as int);
                assert(ys.len() != 0 && xs.len() != 0 && xs[0] != ys[0]);
                assert(lex_less(xs, ys) == (xs[0] < ys[0]));
            }
            return cx < cy;
        }
        proof {
            assert(x@.skip(i as int).drop_first() =~= x@.skip(i + 1));
            assert(y@.skip(i as int).drop_first() =~= y@.skip(i + 1));
        }
        i = i + 1;
    }
    i < y.len()
}

/// The keys the library orders by: PID and name ascending, socket and TCP
/// connection counts descending.
pub open spec fn integer_key(by: SortField) -> bool {
    by == SortField::Pid || by == SortField::Name || by == SortField::NetConnections || by
        == SortField::NetTcp
}

/// Whether record `a` goes strictly before record `b` when ordering by `by`.
pub open spec fn ahead_of(a: ProcessRecord, b: ProcessRecord, by: SortField) -> bool {
    match by {
        SortField::Pid => a.pid < b.pid,
        SortField::Name => lex_less(a.name@, b.name@),
        SortField::NetConnections => a.net_connections > b.net_connections,
        SortField::NetTcp => a.net.tcp_count > b.net.tcp_count,
        _ => false,
    }
}

/// `x` placed into the ordered `s` after every record it does not go
/// strictly before, so that records with equal keys keep their order.
pub open spec fn inserted(s: Seq<ProcessRecord>, x: ProcessRecord, by: SortField) -> Seq<ProcessRecord>
    decreases s.len(),
{
    if s.len() == 0 {
        seq![x]
    } else if ahead_of(x, s.last(), by) {
        inserted(s.drop_last(), x, by).push(s.last())
    } else {
        s.push(x)
    }
}

/// The stable sort of `s` by `by`: records ordered by the key, and records
/// with equal keys in the order they had in `s`.
pub open spec fn stable_sorted(s: Seq<ProcessRecord>, by: SortField) -> Seq<ProcessRecord>
    decreases s.len(),
{
    if s.len() == 0 {
        Seq::empty()
    } else {
        inserted(stable_sorted(s.drop_last(), by), s.last(), by)
    }
}

/// The first `limit` records of `s` (all of them when there is no limit or
/// fewer records).
pub open spec fn limited(s: Seq<ProcessRecord>, limit: Option<usize>) -> Seq<ProcessRecord> {
    match limit {
        Some(n) => if n < s.len() { s.take(n as int) } else { s },
        None => s,
    }
}

/// Whether `a` goes strictly before `b` when ordering by `by`.
fn goes_ahead(a: &ProcessRecord, b: &ProcessRecord, by: SortField) -> (r: bool)
    requires
        integer_key(by),
    ensures
        r == ahead_of(*a, *b, by),
{
    match by {
        SortField::Pid => a.pid < b.pid,
        SortField::Name => name_less(a.name.as_str(), b.name.as_str()),
        SortField::NetConnections => a.net_connections > b.net_connections,
        _ => a.net.tcp_count > b.net.tcp_count,
    }
}

proof fn lemma_inserted_at(s: Seq<ProcessRecord>, x: ProcessRecord, by: SortField, j: int)
    requires
        0 <= j <= s.len(),
        forall|k: int| j <= k < s.len() ==> ahead_of(x, #[trigger] s[k], by),
        j == 0 || !ahead_of(x, s[j - 1], by),
    ensures
        inserted(s, x, by) == s.insert(j, x),
    decreases s.len(),
{
    if s.len() == 0 {
        assert(s.insert(j, x) =~= seq![x]);
    } else if j == s.len() {
        assert(!ahead_of(x, s.last(), by));
        assert(s.insert(j, x) =~= s.push(x));
    } else {
        let t = s.drop_last();
        assert(ahead_of(x, s[s.len() - 1], by));
        assert forall|k: int| j <= k < t.len() implies ahead_of(x, #[trigger] t[k], by) by {
            assert(t[k] == s[k]);
        }
        if j > 0 {
            assert(t[j - 1] == s[j - 1]);
        }
        lemma_inserted_at(t, x, by, j);
        assert(t.insert(j, x).push(s.last()) =~= s.insert(j, x));
    }
}

/// Whether `s` is ordered by `by`: no record goes strictly before one that
/// comes earlier.
pub open spec fn ordered_by(s: Seq<ProcessRecord>, by: SortField) -> bool {
    forall|i: int, j: int| 0 <= i < j < s.len() ==> !ahead_of(#[trigger] s[j], #[trigger] s[i], by)
}

proof fn lemma_lex_irreflexive(a: Seq<char>)
    ensures
        !lex_less(a, a),
    decreases a.len(),
{
    if a.len() > 0 {
        lemma_lex_irreflexive(a.drop_first());
    }
}

proof fn lemma_lex_transitive(a: Seq<char>, b: Seq<char>, c: Seq<char>)
    requires
        lex_less(a, b),
        lex_less(b, c),
    ensures
        lex_less(a, c),
    decreases a.len(),
{
    if a.len() > 0 && b.len() > 0 && c.len() > 0 && a[0] == b[0] && b[0] == c[0] {
        lemma_lex_transitive(a.drop_first(), b.drop_first(), c.drop_first());
    }
}

proof fn lemma_lex_total(a: Seq<char>, b: Seq<char>)
    ensures
        lex_less(a, b) || lex_less(b, a) || a == b,
    decreases a.len(),
{
    if a.len() > 0 && b.len() > 0 && a[0] == b[0] {
        lemma_lex_total(a.drop_first(), b.drop_first());
        if a.drop_first() == b.drop_first() {
            assert(a =~= seq![a[0]] + a.drop_first());
            assert(b =~= seq![b[0]] + b.drop_first());
        }
    } else if a.len() == 0 && b.len() == 0 {
        assert(a =~= b);
    }
}

/// Going ahead is a strict weak order: never both ways, and "not ahead"
/// carries over from one record to the next.
proof fn lemma_ahead_order(x: ProcessRecord, y: ProcessRecord, z: ProcessRecord, by: SortField)
    requires
        integer_key(by),
    ensures
        ahead_of(x, y, by) ==> !ahead_of(y, x, by),
        !ahead_of(x, y, by) && !ahead_of(y, z, by) ==> !ahead_of(x, z, by),
{
    if by == SortField::Name {
        lemma_lex_irreflexive(x.name@);
        lemma_lex_irreflexive(z.name@);
        if lex_less(x.name@, y.name@) && lex_less(y.name@, x.name@) {
            lemma_lex_transitive(x.name@, y.name@, x.name@);
        }
        if !lex_less(x.name@, y.name@) && !lex_less(y.name@, z.name@) && lex_less(x.name@, z.name@) {
            lemma_lex_total(x.name@, y.name@);
            lemma_lex_total(y.name@, z.name@);
            if lex_less(y.name@, x.name@) {
                lemma_lex_transitive(y.name@, x.name@, z.name@);
                if lex_less(z.name@, y.name@) {
                    lemma_lex_transitive(y.name@, z.name@, y.name@);
                    lemma_lex_irreflexive(y.name@);
                }
            } else {
                assert(y.name@ == x.name@);
            }
        }
    }
}

proof fn lemma_inserted(s: Seq<ProcessRecord>, x: ProcessRecord, by: SortField)
    requires
        integer_key(by),
        ordered_by(s, by),
    ensures
        ordered_by(inserted(s, x, by), by),
        inserted(s, x, by).to_multiset() == s.to_multiset().insert(x),
    decreases s.len(),
{
    broadcast use vstd::seq_lib::group_to_multiset_ensures;

    if s.len() == 0 {
        assert(seq![x] =~= Seq::<ProcessRecord>::empty().push(x));
    } else {
        let t = s.drop_last();
        let l = s.last();
        assert(s =~= t.push(l));
        assert forall|i: int, j: int| 0 <= i < j < t.len() implies !ahead_of(#[trigger] t[j], #[trigger] t[i], by) by {
            assert(t[i] == s[i] && t[j] == s[j]);
        }
        if ahead_of(x, l, by) {
            lemma_inserted(t, x, by);
            let u = inserted(t, x, by);
            let r = u.push(l);
            assert forall|i: int| 0 <= i < u.len() implies !ahead_of(l, #[trigger] u[i], by) by {
                assert(u.to_multiset().count(u[i]) > 0);
                if u[i] == x {
                    lemma_ahead_order(x, l, l, by);
                } else {
                    assert(t.to_multiset().count(u[i]) > 0);
                    assert(t.contains(u[i]));
                    let k = choose|k: int| 0 <= k < t.len() && t[k] == u[i];
                    assert(s[k] == u[i] && s[s.len() - 1] == l);
                }
            }
            assert forall|i: int, j: int| 0 <= i < j < r.len() implies !ahead_of(#[trigger] r[j], #[trigger] r[i], by) by {
                if j == u.len() {
                    assert(r[j] == l && r[i] == u[i]);
                } else {
                    assert(r[j] == u[j] && r[i] == u[i]);
                }
            }
            assert(r.to_multiset() =~= s.to_multiset().insert(x));
        } else {
            let r = s.push(x);
            assert forall|i: int, j: int| 0 <= i < j < r.len() implies !ahead_of(#[trigger] r[j], #[trigger] r[i], by) by {
                if j == s.len() {
                    if i < s.len() - 1 {
                        assert(!ahead_of(s[s.len() - 1], s[i], by));
                        lemma_ahead_order(x, l, s[i], by);
                    }
                    assert(r[j] == x && r[i] == s[i]);
                } else {
                    assert(r[j] == s[j] && r[i] == s[i]);
                }
            }
        }
    }
}

proof fn lemma_stable_sorted(s: Seq<ProcessRecord>, by: SortField)
    requires
        integer_key(by),
    ensures
        ordered_by(stable_sorted(s, by), by),
        stable_sorted(s, by).to_multiset() == s.to_multiset(),
    decreases s.len(),
{
    broadcast use vstd::seq_lib::group_to_multiset_ensures;

    if s.len() > 0 {
        lemma_stable_sorted(s.drop_last(), by);
        lemma_inserted(stable_sorted(s.drop_last(), by), s.last(), by);
        assert(s =~= s.drop_last().push(s.last()));
    }
}

/// The ordered process list is the first `min(limit, len)` records of an
/// ordering of all of them: the ordering holds exactly the given records (as
/// a multiset), and no record of the result goes strictly before one placed
/// ahead of it.
pub proof fn law_order_processes(records: Seq<ProcessRecord>, by: SortField, limit: Option<usize>)
    requires
        integer_key(by),
    ensures
        ordered_by(limited(stable_sorted(records, by), limit), by),
        stable_sorted(records, by).to_multiset() == records.to_multiset(),
        limited(stable_sorted(records, by), limit).len() == (match limit {
            Some(n) => if n < records.len() { n as int } else { records.len() as int },
            None => records.len() as int,
        }),
{
    broadcast use vstd::seq_lib::group_to_multiset_ensures;

    lemma_stable_sorted(records, by);
    let s = stable_sorted(records, by);
    assert(s.len() == s.to_multiset().len());
    assert(records.len() == records.to_multiset().len());
    let r = limited(s, limit);
    assert forall|i: int, j: int| 0 <= i < j < r.len() implies !ahead_of(#[trigger] r[j], #[trigger] r[i], by) by {
        assert(r[i] == s[i] && r[j] == s[j]);
    }
}

/// Order the records by `sort_by` with a stable sort (records with equal
/// keys keep their order), and keep the first `limit` of them.
pub fn order_processes(records: Vec<ProcessRecord>, sort_by: SortField, limit: Option<usize>) -> (r: Vec<ProcessRecord>)
    requires
        integer_key(sort_by),
    ensures
        r@ == limited(stable_sorted(records@, sort_by), limit),
{
    let ghost orig = records@;
    let mut rest = records;
    let mut out: Vec<ProcessRecord> = Vec::new();
    proof {
        assert(orig.take(0) =~= Seq::<ProcessRecord>::empty());
        assert(orig.skip(0) =~= orig);
    }
    while rest.len() > 0
        invariant
            integer_key(sort_by),
            rest@.len() <= orig.len(),
            rest@ == orig.skip(orig.len() - rest@.len()),
            out@ == stable_sorted(orig.take(orig.len() - rest@.len()), sort_by),
        decreases rest@.len(),
    {
        let ghost done = (orig.len() - rest@.len()) as int;
        let x = rest.remove(0);
        proof {
            assert(x == orig[done]);
            assert(rest@ =~= orig.skip(done + 1));
            assert(orig.take(done + 1).drop_last() =~= orig.take(done));
            assert(orig.take(done + 1).last() == x);
        }
        let mut j = out.len();
        while j > 0 && goes_ahead(&x, &out[j - 1], sort_by)
            invariant
                integer_key(sort_by),
                j <= out@.len(),
                forall|k: int| j <= k < out@.len() ==> ahead_of(x, #[trigger] out@[k], sort_by),
            decreases j,
        {
            j = j - 1;
        }
        proof {
            lemma_inserted_at(out@, x, sort_by, j as int);
        }
        out.insert(j, x);
    }
    proof {
        assert(orig.take(orig.len() as int) =~= orig);
    }
    match limit {
        Some(n) => {
            out.truncate(n);
        },
        None => {},
    }
    out
}

} // verus!
