//! Byte-level text helpers for the ASCII footer: decimal numbers, whitespace
//! trimming and searching.
use vstd::prelude::*;

verus! {

pub open spec fn is_digit(b: u8) -> bool {
    48 <= b <= 57
}

/// ASCII whitespace: space, tab, line feed, vertical tab, form feed, carriage return.
pub open spec fn is_space(b: u8) -> bool {
    b == 32 || (9 <= b && b <= 13)
}

/// The decimal representation of `n`, most significant digit first, no leading zeros.
pub open spec fn decimal(n: nat) -> Seq<u8>
    decreases n,
{
    if n < 10 {
        seq![(48 + n) as u8]
    } else {
        decimal(n / 10).push((48 + n % 10) as u8)
    }
}

pub open spec fn all_digits(s: Seq<u8>) -> bool {
    forall|i: int| 0 <= i < s.len() ==> is_digit(#[trigger] s[i])
}

/// The number that a string of decimal digits denotes.
pub open spec fn digits_value(s: Seq<u8>) -> nat
    decreases s.len(),
{
    if s.len() == 0 {
        0
    } else {
        digits_value(s.drop_last()) * 10 + (s.last() - 48) as nat
    }
}

/// A non-empty run of decimal digits whose value fits in a `u32`.
pub open spec fn parse_u32(s: Seq<u8>) -> Option<u32> {
    if s.len() > 0 && all_digits(s) && digits_value(s) <= u32::MAX {
        Some(digits_value(s) as u32)
    } else {
        None
    }
}

pub open spec fn trim_start(s: Seq<u8>) -> Seq<u8>
    decreases s.len(),
{
    if s.len() > 0 && is_space(s[0]) {
        trim_start(s.drop_first())
    } else {
        s
    }
}

pub open spec fn trim_end(s: Seq<u8>) -> Seq<u8>
    decreases s.len(),
{
    if s.len() > 0 && is_space(s.last()) {
        trim_end(s.drop_last())
    } else {
        s
    }
}

/// `s` without leading and trailing whitespace.
pub open spec fn trim(s: Seq<u8>) -> Seq<u8> {
    trim_end(trim_start(s))
}

/// Index of the first `b` in `s` at or after `i`, or `s.len()` if there is none.
pub open spec fn find_from(s: Seq<u8>, b: u8, i: int) -> int
    decreases s.len() - i,
{
    if i >= s.len() {
        s.len() as int
    } else if s[i] == b {
        i
    } else {
        find_from(s, b, i + 1)
    }
}

/// Index of the last `b` in `s` before position `j`, or -1 if there is none.
pub open spec fn last_before(s: Seq<u8>, b: u8, j: int) -> int
    decreases j,
{
    if j <= 0 {
        -1
    } else if s[j - 1] == b {
        j - 1
    } else {
        last_before(s, b, j - 1)
    }
}

pub open spec fn occurs_at(s: Seq<u8>, m: Seq<u8>, i: int) -> bool {
    0 <= i && i + m.len() <= s.len() && s.subrange(i, i + m.len()) == m
}

/// `m` occurs in `s` as a contiguous run.
pub open spec fn contains(s: Seq<u8>, m: Seq<u8>) -> bool {
    exists|i: int| occurs_at(s, m, i)
}

pub proof fn lemma_decimal_digits(n: nat)
    ensures
        decimal(n).len() > 0,
        all_digits(decimal(n)),
        digits_value(decimal(n)) == n,
    decreases n,
{
    if n >= 10 {
        lemma_decimal_digits(n / 10);
        let d = decimal(n);
        let q = decimal(n / 10);
        assert(d.drop_last() =~= q);
        assert(d.last() == (48 + n % 10) as u8);
        assert forall|i: int| 0 <= i < d.len() implies is_digit(#[trigger] d[i]) by {
            if i < q.len() {
                assert(d[i] == q[i]);
            }
        }
        assert(d.last() - 48 == n % 10);
        assert(digits_value(d) == digits_value(q) * 10 + n % 10);
        assert(n == (n / 10) * 10 + n % 10);
    } else {
        let d = decimal(n);
        assert(d.drop_last().len() == 0);
        assert(d.last() - 48 == n);
        assert(digits_value(d.drop_last()) == 0);
        assert(digits_value(d) == n);
    }
}

pub proof fn lemma_decimal_no_space(n: nat)
    ensures
        trim(decimal(n)) == decimal(n),
{
    lemma_decimal_digits(n);
    let d = decimal(n);
    assert(!is_space(d[0]));
    assert(!is_space(d.last()));
}

/// A value read from a prefix of a run of digits never exceeds the value of the whole run.
proof fn lemma_digits_value_mono(s: Seq<u8>, i: int)
    requires
        0 <= i <= s.len(),
        all_digits(s),
    ensures
        digits_value(s.subrange(0, i)) <= digits_value(s),
    decreases s.len() - i,
{
    if i < s.len() {
        lemma_digits_value_mono(s, i + 1);
        assert(s.subrange(0, i + 1).drop_last() =~= s.subrange(0, i));
    } else {
        assert(s.subrange(0, i) =~= s);
    }
}

pub proof fn lemma_find_from(s: Seq<u8>, b: u8, i: int, k: int)
    requires
        0 <= i <= k <= s.len(),
        k == s.len() || s[k] == b,
        forall|t: int| i <= t < k ==> s[t] != b,
    ensures
        find_from(s, b, i) == k,
    decreases k - i,
{
    if i < k {
        lemma_find_from(s, b, i + 1, k);
    }
}

pub proof fn lemma_last_before(s: Seq<u8>, b: u8, j: int, k: int)
    requires
        -1 <= k < j <= s.len(),
        k == -1 || s[k] == b,
        forall|t: int| k < t < j ==> s[t] != b,
    ensures
        last_before(s, b, j) == k,
    decreases j,
{
    if j > 0 && k < j - 1 {
        lemma_last_before(s, b, j - 1, k);
    }
}

pub proof fn lemma_last_before_range(s: Seq<u8>, b: u8, j: int)
    requires
        j <= s.len(),
    ensures
        -1 <= last_before(s, b, j) < j || (j <= 0 && last_before(s, b, j) == -1),
        last_before(s, b, j) >= 0 ==> s[last_before(s, b, j)] == b,
    decreases j,
{
    if j > 0 && s[j - 1] != b {
        lemma_last_before_range(s, b, j - 1);
    }
}

pub proof fn lemma_find_from_range(s: Seq<u8>, b: u8, i: int)
    requires
        0 <= i,
    ensures
        i <= find_from(s, b, i) <= s.len() || (i > s.len() && find_from(s, b, i) == s.len()),
        find_from(s, b, i) < s.len() ==> s[find_from(s, b, i)] == b,
    decreases s.len() - i,
{
    if i < s.len() && s[i] != b {
        lemma_find_from_range(s, b, i + 1);
    }
}

/// A copy of `s[lo..hi]`.
pub fn copy_range(s: &[u8], lo: usize, hi: usize) -> (r: Vec<u8>)
    requires
        lo <= hi <= s@.len(),
    ensures
        r@ == s@.subrange(lo as int, hi as int),
{
    let mut r: Vec<u8> = Vec::new();
    let mut i = lo;
    while i < hi
        invariant
            lo <= i <= hi <= s@.len(),
            r@ == s@.subrange(lo as int, i as int),
        decreases hi - i,
    {
        r.push(s[i]);
        assert(r@ =~= s@.subrange(lo as int, i + 1));
        i = i + 1;
    }
    r
}

/// The decimal digits of `n`.
pub fn decimal_bytes(n: u32) -> (r: Vec<u8>)
    ensures
        r@ == decimal(n as nat),
    decreases n,
{
    if n < 10 {
        let mut r: Vec<u8> = Vec::new();
        r.push(48u8 + n as u8);
        assert(r@ =~= decimal(n as nat));
        r
    } else {
        let mut r = decimal_bytes(n / 10);
        r.push(48u8 + (n % 10) as u8);
        r
    }
}

/// Reads a run of decimal digits as a `u32`; `None` if `s` is empty, holds
/// anything but digits, or denotes a value above `u32::MAX`.
pub fn parse_decimal(s: &[u8]) -> (r: Option<u32>)
    ensures
        r == parse_u32(s@),
{
    if s.len() == 0 {
        return None;
    }
    let mut acc: u64 = 0;
    let mut i: usize = 0;
    while i < s.len()
        invariant
            0 <= i <= s@.len(),
            all_digits(s@.subrange(0, i as int)),
            acc == digits_value(s@.subrange(0, i as int)),
            acc <= u32::MAX,
        decreases s@.len() - i,
    {
        let c = s[i];
        if c < 48 || c > 57 {
            assert(!is_digit(s@[i as int]));
            return None;
        }
        let next = acc * 10 + (c - 48) as u64;
        assert(s@.subrange(0, i + 1).drop_last() =~= s@.subrange(0, i as int));
        if next > u32::MAX as u64 {
            proof {
                let p = s@.subrange(0, i + 1);
                assert forall|t: int| 0 <= t < p.len() implies is_digit(#[trigger] p[t]) by {
                    if t < i {
                        assert(p[t] == s@.subrange(0, i as int)[t]);
                    }
                }
                if all_digits(s@) {
                    lemma_digits_value_mono(s@, i + 1);
                }
            }
            return None;
        }
        proof {
            let p = s@.subrange(0, i + 1);
            assert forall|t: int| 0 <= t < p.len() implies is_digit(#[trigger] p[t]) by {
                if t < i {
                    assert(p[t] == s@.subrange(0, i as int)[t]);
                }
            }
        }
        acc = next;
        i = i + 1;
    }
    assert(s@.subrange(0, i as int) =~= s@);
    Some(acc as u32)
}

/// The bounds `(lo, hi)` of `s` with leading and trailing whitespace removed.
pub fn trim_bounds(s: &[u8]) -> (r: (usize, usize))
    ensures
        r.0 <= r.1 <= s@.len(),
        s@.subrange(r.0 as int, r.1 as int) == trim(s@),
{
    let mut lo: usize = 0;
    assert(s@.subrange(0, s@.len() as int) =~= s@);
    while lo < s.len() && (s[lo] == 32 || (9 <= s[lo] && s[lo] <= 13))
        invariant
            lo <= s@.len(),
            trim_start(s@.subrange(lo as int, s@.len() as int)) == trim_start(s@),
        decreases s@.len() - lo,
    {
        assert(s@.subrange(lo as int, s@.len() as int).drop_first() =~= s@.subrange(
            lo + 1,
            s@.len() as int,
        ));
        lo = lo + 1;
    }
    assert(s@.subrange(0, s@.len() as int) =~= s@);
    let ghost t = trim_start(s@);
    assert(t == s@.subrange(lo as int, s@.len() as int));
    let mut hi: usize = s.len();
    while hi > lo && (s[hi - 1] == 32 || (9 <= s[hi - 1] && s[hi - 1] <= 13))
        invariant
            lo <= hi <= s@.len(),
            trim_end(s@.subrange(lo as int, hi as int)) == trim_end(t),
        decreases hi,
    {
        assert(s@.subrange(lo as int, hi as int).drop_last() =~= s@.subrange(
            lo as int,
            hi - 1,
        ));
        hi = hi - 1;
    }
    (lo, hi)
}

/// Index of the first `b` in `s` at or after `start`, or `s.len()`.
pub fn find_byte(s: &[u8], b: u8, start: usize) -> (r: usize)
    requires
        start <= s@.len(),
    ensures
        r as int == find_from(s@, b, start as int),
{
    let mut i = start;
    while i < s.len() && s[i] != b
        invariant
            start <= i <= s@.len(),
            find_from(s@, b, i as int) == find_from(s@, b, start as int),
        decreases s@.len() - i,
    {
        i = i + 1;
    }
    i
}

/// Index of the last `b` in `s` before position `end`, if any.
pub fn last_byte_before(s: &[u8], b: u8, end: usize) -> (r: Option<usize>)
    requires
        end <= s@.len(),
    ensures
        match r {
            Some(k) => k as int == last_before(s@, b, end as int),
            None => last_before(s@, b, end as int) == -1,
        },
{
    let mut j = end;
    while j > 0 && s[j - 1] != b
        invariant
            j <= end,
            end <= s@.len(),
            last_before(s@, b, j as int) == last_before(s@, b, end as int),
        decreases j,
    {
        j = j - 1;
    }
    if j == 0 {
        None
    } else {
        Some(j - 1)
    }
}

fn occurs_at_exec(s: &[u8], m: &[u8], i: usize) -> (r: bool)
    requires
        i + m@.len() <= s@.len(),
    ensures
        r == occurs_at(s@, m@, i as int),
{
    let mut k: usize = 0;
    while k < m.len()
        invariant
            i + m@.len() <= s.len(),
            k <= m@.len(),
            forall|t: int| 0 <= t < k ==> s@[i + t] == m@[t],
        decreases m@.len() - k,
    {
        if s[i + k] != m[k] {
            assert(s@.subrange(i as int, i + m@.len())[k as int] != m@[k as int]);
            return false;
        }
        k = k + 1;
    }
    assert(s@.subrange(i as int, i + m@.len()) =~= m@);
    true
}

/// Whether `m` occurs in `s` as a contiguous run.
pub fn contains_bytes(s: &[u8], m: &[u8]) -> (r: bool)
    ensures
        r == contains(s@, m@),
{
    if m.len() > s.len() {
        return false;
    }
    let last = s.len() - m.len();
    let mut i: usize = 0;
    while i < last
        invariant
            last + m@.len() == s@.len(),
            i <= last,
            forall|t: int| 0 <= t < i ==> !occurs_at(s@, m@, t),
        decreases last - i,
    {
        if occurs_at_exec(s, m, i) {
            return true;
        }
        i = i + 1;
    }
    let r = occurs_at_exec(s, m, last);
    proof {
        if !r {
            assert forall|t: int| !occurs_at(s@, m@, t) by {
                if 0 <= t < last {
                } else if t == last {
                } else {
                }
            }
        }
    }
    r
}

} // verus!
