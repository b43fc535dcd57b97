//! The prefix-stripping report: the longest common prefix of a set of
//! lines (a trailing dot dropped), printed once, followed by every line
//! re-indented with that prefix removed.

use vstd::prelude::*;
use crate::flatten::line_views;

verus! {

/// The longest common prefix of two byte sequences.
pub open spec fn cp2(a: Seq<u8>, b: Seq<u8>) -> Seq<u8>
    decreases a.len(),
{
    if a.len() == 0 || b.len() == 0 || a[0] != b[0] {
        Seq::empty()
    } else {
        seq![a[0]] + cp2(a.skip(1), b.skip(1))
    }
}

/// `acc` folded with `cp2` over the lines from `i` on.
pub open spec fn lcp_from(lines: Seq<Seq<u8>>, acc: Seq<u8>, i: int) -> Seq<u8>
    decreases lines.len() - i,
{
    if i < 0 || i >= lines.len() {
        acc
    } else {
        lcp_from(lines, cp2(acc, lines[i]), i + 1)
    }
}

/// The indent put before each stripped line.
pub open spec fn indent() -> Seq<u8> {
    seq![32u8, 32u8, 32u8, 32u8]
}

/// The report's body from line `i` on: each line indented, with its first
/// `plen` bytes removed.
pub open spec fn report_lines(lines: Seq<Seq<u8>>, plen: int, i: int) -> Seq<u8>
    decreases lines.len() - i,
{
    if i < 0 || i >= lines.len() {
        Seq::empty()
    } else {
        indent() + lines[i].skip(plen) + seq![10u8] + report_lines(lines, plen, i + 1)
    }
}

/// The whole report: nothing for no lines; otherwise the common prefix
/// (its trailing dot dropped), a newline, and the stripped lines.
pub open spec fn spec_strip_report(lines: Seq<Seq<u8>>) -> Seq<u8> {
    if lines.len() == 0 {
        Seq::empty()
    } else {
        let p0 = lcp_from(lines, lines[0], 1);
        let p = if p0.len() > 0 && p0.last() == 46 {
            p0.drop_last()
        } else {
            p0
        };
        p + seq![10u8] + report_lines(lines, p.len() as int, 0)
    }
}

/// The position where `a` and `b` first differ is exactly where `cp2`
/// ends.
proof fn lemma_cp2_is(a: Seq<u8>, b: Seq<u8>, k: int)
    requires
        0 <= k <= a.len(),
        k <= b.len(),
        forall|j: int| 0 <= j < k ==> a[j] == b[j],
        k == a.len() || k == b.len() || a[k] != b[k],
    ensures
        cp2(a, b) == a.take(k),
    decreases a.len(),
{
    if a.len() == 0 || b.len() == 0 || a[0] != b[0] {
        assert(k == 0);
        assert(cp2(a, b) =~= a.take(0));
    } else {
        assert(k >= 1);
        assert forall|j: int| 0 <= j < k - 1 implies a.skip(1)[j] == b.skip(1)[j] by {
            assert(a.skip(1)[j] == a[j + 1]);
            assert(b.skip(1)[j] == b[j + 1]);
        }
        if k < a.len() && k < b.len() {
            assert(a.skip(1)[k - 1] == a[k]);
            assert(b.skip(1)[k - 1] == b[k]);
        }
        lemma_cp2_is(a.skip(1), b.skip(1), k - 1);
        assert(cp2(a, b) =~= a.take(k));
    }
}

/// `cp2` is a prefix of both of its arguments.
proof fn lemma_cp2_prefix(a: Seq<u8>, b: Seq<u8>)
    ensures
        cp2(a, b).len() <= a.len(),
        cp2(a, b).len() <= b.len(),
        cp2(a, b) == a.take(cp2(a, b).len() as int),
        cp2(a, b) == b.take(cp2(a, b).len() as int),
    decreases a.len(),
{
    if !(a.len() == 0 || b.len() == 0 || a[0] != b[0]) {
        lemma_cp2_prefix(a.skip(1), b.skip(1));
        assert(cp2(a, b) =~= a.take(cp2(a, b).len() as int));
        assert(cp2(a, b) =~= b.take(cp2(a, b).len() as int));
    }
}

/// The fold's result is a prefix of the accumulator and of every line it
/// folded over.
proof fn lemma_lcp_from_prefix(lines: Seq<Seq<u8>>, acc: Seq<u8>, i: int)
    requires
        0 <= i,
    ensures
        lcp_from(lines, acc, i).len() <= acc.len(),
        lcp_from(lines, acc, i) == acc.take(lcp_from(lines, acc, i).len() as int),
        forall|j: int| i <= j < lines.len() ==> lcp_from(lines, acc, i).len() <= lines[j].len()
            && lcp_from(lines, acc, i) == lines[j].take(lcp_from(lines, acc, i).len() as int),
    decreases lines.len() - i,
{
    if 0 <= i < lines.len() {
        let c = cp2(acc, lines[i]);
        lemma_cp2_prefix(acc, lines[i]);
        lemma_lcp_from_prefix(lines, c, i + 1);
        let r = lcp_from(lines, acc, i);
        assert(r == lcp_from(lines, c, i + 1));
        assert(r =~= acc.take(r.len() as int));
        assert forall|j: int| i <= j < lines.len() implies r.len() <= lines[j].len() && r
            == lines[j].take(r.len() as int) by {
            if j == i {
                assert(r =~= lines[i].take(r.len() as int));
            }
        }
    }
}

/// The longest common prefix of two byte slices.
pub fn common_prefix2(a: &[u8], b: &[u8]) -> (r: Vec<u8>)
    ensures
        r@ == cp2(a@, b@),
{
    let mut i: usize = 0;
    let mut r: Vec<u8> = Vec::new();
    while i < a.len() && i < b.len() && a[i] == b[i]
        invariant
            0 <= i <= a@.len(),
            i <= b@.len(),
            r@ == a@.take(i as int),
            forall|j: int| 0 <= j < i ==> a@[j] == b@[j],
        decreases a@.len() - i,
    {
        r.push(a[i]);
        proof {
            assert(r@ =~= a@.take(i as int + 1));
        }
        i = i + 1;
    }
    proof {
        lemma_cp2_is(a@, b@, i as int);
    }
    r
}

/// Builds the whole report for `lines`.
pub fn strip_report(lines: &Vec<Vec<u8>>) -> (r: Vec<u8>)
    ensures
        r@ == spec_strip_report(line_views(lines@)),
{
    let ghost lv = line_views(lines@);
    if lines.len() == 0 {
        return Vec::new();
    }
    let mut prefix: Vec<u8> = Vec::new();
    prefix.extend_from_slice(lines[0].as_slice());
    proof {
        assert(prefix@ =~= lv[0]);
    }
    let mut i: usize = 1;
    while i < lines.len()
        invariant
            1 <= i <= lines@.len(),
            lines@.len() == lv.len(),
            lv == line_views(lines@),
            lcp_from(lv, prefix@, i as int) == lcp_from(lv, lv[0], 1),
        decreases lines@.len() - i,
    {
        let next = common_prefix2(prefix.as_slice(), lines[i].as_slice());
        prefix = next;
        i = i + 1;
    }
    let ghost p0 = lcp_from(lv, lv[0], 1);
    proof {
        assert(prefix@ == p0);
        lemma_lcp_from_prefix(lv, lv[0], 1);
    }
    if prefix.len() > 0 && prefix[prefix.len() - 1] == 46 {
        prefix.pop();
        proof {
            assert(prefix@ =~= p0.drop_last());
        }
    }
    let ghost p = prefix@;
    let plen = prefix.len();
    let mut out: Vec<u8> = Vec::new();
    out.append(&mut prefix);
    out.push(10);
    let ghost hdr = out@;
    proof {
        assert(hdr =~= p + seq![10u8]);
    }
    let mut j: usize = 0;
    while j < lines.len()
        invariant
            0 <= j <= lines@.len(),
            lines@.len() == lv.len(),
            lv == line_views(lines@),
            plen == p.len(),
            forall|k: int| 0 <= k < lv.len() ==> plen <= lv[k].len(),
            out@ + report_lines(lv, plen as int, j as int) == hdr + report_lines(
                lv,
                plen as int,
                0,
            ),
        decreases lines@.len() - j,
    {
        let ghost o0 = out@;
        out.push(32);
        out.push(32);
        out.push(32);
        out.push(32);
        let line = &lines[j];
        out.extend_from_slice(&line.as_slice()[plen..line.len()]);
        out.push(10);
        proof {
            assert(out@ =~= o0 + indent() + lv[j as int].skip(plen as int) + seq![10u8]);
            assert(out@ + report_lines(lv, plen as int, j as int + 1) =~= o0 + report_lines(
                lv,
                plen as int,
                j as int,
            ));
        }
        j = j + 1;
    }
    proof {
        assert(report_lines(lv, plen as int, lv.len() as int) =~= Seq::<u8>::empty());
        assert(out@ =~= hdr + report_lines(lv, plen as int, 0));
        assert(out@ =~= spec_strip_report(lv));
    }
    out
}

} // verus!
