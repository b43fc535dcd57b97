//! Byte-sequence helpers shared by the stream, the flattener and the driver:
//! first occurrence of a byte, ASCII whitespace tests, and decimal rendering.

use vstd::prelude::*;

verus! {

/// Index of the first occurrence of `b` in `s`, or `s.len()` if `b` is absent.
pub open spec fn seq_find(s: Seq<u8>, b: u8) -> int
    decreases s.len(),
{
    if s.len() == 0 {
        0
    } else if s[0] == b {
        0
    } else {
        1 + seq_find(s.skip(1), b)
    }
}

/// `seq_find` lands in range, on an occurrence of `b` if one exists,
/// and nothing before it is an occurrence.
pub proof fn lemma_seq_find(s: Seq<u8>, b: u8)
    ensures
        0 <= seq_find(s, b) <= s.len(),
        seq_find(s, b) < s.len() ==> s[seq_find(s, b)] == b,
        forall|j: int| 0 <= j < seq_find(s, b) ==> s[j] != b,
    decreases s.len(),
{
    if s.len() != 0 && s[0] != b {
        let t = s.skip(1);
        lemma_seq_find(t, b);
        assert forall|j: int| 0 <= j < seq_find(s, b) implies s[j] != b by {
            if j > 0 {
                assert(t[j - 1] == s[j]);
            }
        }
        if seq_find(s, b) < s.len() {
            assert(t[seq_find(t, b)] == s[seq_find(s, b)]);
        }
    }
}

/// Any position that is an occurrence of `b` with no earlier occurrence
/// is exactly `seq_find`.
pub proof fn lemma_seq_find_is(s: Seq<u8>, b: u8, i: int)
    requires
        0 <= i < s.len(),
        s[i] == b,
        forall|j: int| 0 <= j < i ==> s[j] != b,
    ensures
        seq_find(s, b) == i,
    decreases i,
{
    if i > 0 {
        let t = s.skip(1);
        assert(t[i - 1] == s[i]);
        assert forall|j: int| 0 <= j < i - 1 implies t[j] != b by {
            assert(t[j] == s[j + 1]);
        }
        lemma_seq_find_is(t, b, i - 1);
    }
}

/// If no position holds `b`, `seq_find` is the length.
pub proof fn lemma_seq_find_absent(s: Seq<u8>, b: u8)
    requires
        forall|j: int| 0 <= j < s.len() ==> s[j] != b,
    ensures
        seq_find(s, b) == s.len(),
    decreases s.len(),
{
    if s.len() != 0 {
        let t = s.skip(1);
        assert forall|j: int| 0 <= j < t.len() implies t[j] != b by {
            assert(t[j] == s[j + 1]);
        }
        lemma_seq_find_absent(t, b);
    }
}

/// First occurrence of `b` in `s`, as executable code.
pub fn find_byte(s: &[u8], b: u8) -> (r: Option<usize>)
    ensures
        match r {
            Some(i) => i == seq_find(s@, b) && i < s@.len(),
            None => seq_find(s@, b) == s@.len(),
        },
{
    let mut i: usize = 0;
    while i < s.len()
        invariant
            0 <= i <= s@.len(),
            forall|j: int| 0 <= j < i ==> s@[j] != b,
        decreases s@.len() - i,
    {
        if s[i] == b {
            proof {
                lemma_seq_find_is(s@, b, i as int);
            }
            return Some(i);
        }
        i = i + 1;
    }
    proof {
        lemma_seq_find_absent(s@, b);
    }
    None
}

/// ASCII whitespace: tab through carriage return, and space.
pub open spec fn is_ws(b: u8) -> bool {
    (9 <= b && b <= 13) || b == 32
}

/// Every byte of `s` is ASCII whitespace.
pub open spec fn all_ws(s: Seq<u8>) -> bool {
    forall|i: int| 0 <= i < s.len() ==> is_ws(s[i])
}

/// Whether the whole slice is ASCII whitespace, as executable code.
pub fn bytes_all_ws(s: &[u8]) -> (r: bool)
    ensures
        r == all_ws(s@),
{
    let mut i: usize = 0;
    while i < s.len()
        invariant
            0 <= i <= s@.len(),
            forall|j: int| 0 <= j < i ==> is_ws(s@[j]),
        decreases s@.len() - i,
    {
        let c = s[i];
        if !((9 <= c && c <= 13) || c == 32) {
            return false;
        }
        i = i + 1;
    }
    true
}

/// Decimal digits of `n`, most significant first.
pub open spec fn dec_digits(n: nat) -> Seq<u8>
    decreases n,
{
    if n < 10 {
        seq![(48 + n) as u8]
    } else {
        dec_digits(n / 10).push((48 + n % 10) as u8)
    }
}

/// Decimal rendering of `n`, appended to `out`.
pub fn push_decimal(out: &mut Vec<u8>, n: usize)
    ensures
        final(out)@ == old(out)@ + dec_digits(n as nat),
    decreases n,
{
    if n < 10 {
        out.push(48 + n as u8);
    } else {
        push_decimal(out, n / 10);
        out.push(48 + (n % 10) as u8);
    }
}

} // verus!
