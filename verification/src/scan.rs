//! Byte-level scanning primitives shared by the request grammar parser:
//! digit runs, bounded integer values, exact decimals, and comparison of
//! byte slices against token literals.
//!
//! Every scanner has a spec-level twin that defines exactly which inputs
//! it accepts and what it yields; the grammar specs in `api::image` are
//! built from those twins.

use vstd::prelude::*;

use crate::decimal::{Decimal, MAX_PLACES};

verus! {

/// ASCII `'0'..='9'`.
pub open spec fn is_digit(c: u8) -> bool {
    ('0' as u8) <= c && c <= ('9' as u8)
}

/// ASCII letter or digit, as the grammar's `alnum` production.
pub open spec fn is_alnum(c: u8) -> bool {
    is_digit(c) || (('a' as u8) <= c && c <= ('z' as u8)) || (('A' as u8) <= c && c <= (
    'Z' as u8))
}

/// ASCII lowercasing of one byte.
pub open spec fn lower_byte(c: u8) -> u8 {
    if ('A' as u8) <= c && c <= ('Z' as u8) {
        (c + 32) as u8
    } else {
        c
    }
}

/// ASCII lowercasing of a byte sequence.
pub open spec fn lower_seq(s: Seq<u8>) -> Seq<u8> {
    s.map_values(|c: u8| lower_byte(c))
}

/// The first position at or after `from` that does not hold a digit
/// (`s.len()` if the digits run to the end).
pub open spec fn digits_end(s: Seq<u8>, from: int) -> int
    decreases s.len() - from,
{
    if from < 0 || from >= s.len() {
        s.len() as int
    } else if !is_digit(s[from]) {
        from
    } else {
        digits_end(s, from + 1)
    }
}

pub proof fn lemma_digits_end(s: Seq<u8>, from: int)
    requires
        0 <= from <= s.len(),
    ensures
        from <= digits_end(s, from) <= s.len(),
        forall|j: int| from <= j < digits_end(s, from) ==> is_digit(#[trigger] s[j]),
        digits_end(s, from) < s.len() ==> !is_digit(s[digits_end(s, from)]),
    decreases s.len() - from,
{
    if from < s.len() && is_digit(s[from]) {
        lemma_digits_end(s, from + 1);
    }
}

/// The numeric value of a digit run, most significant digit first.
pub open spec fn uint_val(s: Seq<u8>) -> int
    decreases s.len(),
{
    if s.len() == 0 {
        0
    } else {
        uint_val(s.drop_last()) * 10 + (s.last() - ('0' as u8))
    }
}

pub proof fn lemma_uint_val_nonneg(s: Seq<u8>)
    requires
        forall|j: int| 0 <= j < s.len() ==> is_digit(#[trigger] s[j]),
    ensures
        uint_val(s) >= 0,
    decreases s.len(),
{
    if s.len() > 0 {
        lemma_uint_val_nonneg(s.drop_last());
    }
}

/// Extending a digit run to the right can only grow its value.
pub proof fn lemma_uint_val_prefix_le(s: Seq<u8>, i: int)
    requires
        forall|j: int| 0 <= j < s.len() ==> is_digit(#[trigger] s[j]),
        0 <= i <= s.len(),
    ensures
        uint_val(s.subrange(0, i)) <= uint_val(s),
    decreases s.len() - i,
{
    if i < s.len() {
        lemma_uint_val_prefix_le(s, i + 1);
        let p = s.subrange(0, i);
        let q = s.subrange(0, i + 1);
        assert(q.drop_last() =~= p);
        assert(q.last() == s[i]);
        lemma_uint_val_nonneg(p);
    } else {
        assert(s.subrange(0, i) =~= s);
    }
}

/// Result of scanning a digit run for a bounded integer: the value and
/// the position after the run, or `None` if the run is empty or its
/// value exceeds `max`.
pub open spec fn spec_scan_uint(s: Seq<u8>, from: int, max: int) -> Option<(int, int)> {
    let end = digits_end(s, from);
    if end == from {
        None
    } else if uint_val(s.subrange(from, end)) > max {
        None
    } else {
        Some((uint_val(s.subrange(from, end)), end))
    }
}

/// Scan a run of digits starting at `from` and return its value as a
/// `u64` together with the position after the run. Fails on an empty run
/// and on a run whose value exceeds `max`.
pub fn scan_uint(s: &[u8], from: usize, max: u64) -> (r: Option<(u64, usize)>)
    requires
        from <= s@.len(),
    ensures
        match r {
            Some((v, end)) => {
                &&& spec_scan_uint(s@, from as int, max as int) == Some((v as int, end as int))
                &&& from < end <= s@.len()
            },
            None => spec_scan_uint(s@, from as int, max as int) is None,
        },
{
    proof {
        lemma_digits_end(s@, from as int);
    }
    let ghost gend = digits_end(s@, from as int);
    if from == s.len() || !(('0' as u8) <= s[from] && s[from] <= ('9' as u8)) {
        return None;
    }
    let mut i: usize = from;
    let mut acc: u64 = 0;
    while i < s.len() && ('0' as u8) <= s[i] && s[i] <= ('9' as u8)
        invariant
            from <= i <= s@.len(),
            gend == digits_end(s@, from as int),
            i <= gend,
            forall|j: int| from <= j < i ==> is_digit(#[trigger] s@[j]),
            acc <= max,
            acc == uint_val(s@.subrange(from as int, i as int)),
        decreases s@.len() - i,
    {
        proof {
            assert(digits_end(s@, i as int) == digits_end(s@, i + 1)) by {
                assert(is_digit(s@[i as int]));
            };
            lemma_digits_end(s@, from as int);
            lemma_digits_end_split(s@, from as int, i as int);
        }
        let d = s[i] - ('0' as u8);
        proof {
            let p = s@.subrange(from as int, i as int);
            let q = s@.subrange(from as int, i + 1);
            assert(q.drop_last() =~= p);
            assert(q.last() == s@[i as int]);
            lemma_uint_val_nonneg(p);
        }
        if acc > max / 10 || (acc == max / 10 && (d as u64) > max % 10) {
            // The full run is at least this prefix's value, so it is out
            // of range whatever follows.
            proof {
                let run = s@.subrange(from as int, gend);
                lemma_digits_end_run(s@, from as int);
                assert(s@.subrange(from as int, i + 1) =~= run.subrange(0, i + 1 - from));
                lemma_uint_val_prefix_le(run, i + 1 - from);
                assert(uint_val(s@.subrange(from as int, i + 1)) > max);
            }
            return None;
        }
        acc = acc * 10 + (d as u64);
        i = i + 1;
    }
    proof {
        assert(i == gend) by {
            if i < s@.len() {
                assert(!is_digit(s@[i as int]));
                lemma_digits_end_split(s@, from as int, i as int);
            } else {
                lemma_digits_end_split(s@, from as int, i as int);
            }
        };
    }
    Some((acc, i))
}

/// `digits_end` is unchanged by skipping past digits already scanned.
proof fn lemma_digits_end_split(s: Seq<u8>, from: int, mid: int)
    requires
        0 <= from <= mid <= s.len(),
        forall|j: int| from <= j < mid ==> is_digit(#[trigger] s[j]),
    ensures
        digits_end(s, from) == digits_end(s, mid),
    decreases mid - from,
{
    if from < mid {
        lemma_digits_end_split(s, from + 1, mid);
    }
}

/// Every position of the digit run holds a digit.
proof fn lemma_digits_end_run(s: Seq<u8>, from: int)
    requires
        0 <= from <= s.len(),
    ensures
        forall|j: int|
            0 <= j < digits_end(s, from) - from ==> is_digit(
                #[trigger] s.subrange(from, digits_end(s, from))[j],
            ),
{
    lemma_digits_end(s, from);
}

/// Result of scanning the grammar's `float` production at `from`:
/// `digit+` or `digit* '.' digit+`, yielding an exact decimal and the
/// position after it. Rejected: an empty integer part with no point, a
/// point with no digits after it, a mantissa beyond `u64`, and more than
/// `MAX_PLACES` fractional digits (machine limits).
pub open spec fn spec_scan_dec(s: Seq<u8>, from: int) -> Option<(Decimal, int)> {
    let e1 = digits_end(s, from);
    if e1 < s.len() && s[e1] == ('.' as u8) {
        let e2 = digits_end(s, e1 + 1);
        let digits = s.subrange(from, e1) + s.subrange(e1 + 1, e2);
        if e2 == e1 + 1 {
            None
        } else if uint_val(digits) > u64::MAX || e2 - e1 - 1 > MAX_PLACES {
            None
        } else {
            Some(
                (
                    Decimal {
                        mantissa: uint_val(digits) as u64,
                        places: (e2 - e1 - 1) as u32,
                    },
                    e2,
                ),
            )
        }
    } else if e1 == from {
        None
    } else if uint_val(s.subrange(from, e1)) > u64::MAX {
        None
    } else {
        Some((Decimal { mantissa: uint_val(s.subrange(from, e1)) as u64, places: 0 }, e1))
    }
}

/// Scan the grammar's `float` production: `digit+` or `digit* '.'
/// digit+`. Yields the value as an exact decimal and the position after
/// the last digit.
pub fn scan_dec(s: &[u8], from: usize) -> (r: Option<(Decimal, usize)>)
    requires
        from <= s@.len(),
    ensures
        match r {
            Some((d, end)) => {
                &&& spec_scan_dec(s@, from as int) == Some((d, end as int))
                &&& from < end <= s@.len()
                &&& d.wf()
            },
            None => spec_scan_dec(s@, from as int) is None,
        },
{
    proof {
        lemma_digits_end(s@, from as int);
    }
    let mut i: usize = from;
    while i < s.len() && ('0' as u8) <= s[i] && s[i] <= ('9' as u8)
        invariant
            from <= i <= s@.len(),
            i <= digits_end(s@, from as int),
            forall|j: int| from <= j < i ==> is_digit(#[trigger] s@[j]),
        decreases s@.len() - i,
    {
        proof {
            lemma_digits_end(s@, from as int);
            lemma_digits_end_split(s@, from as int, i as int);
            assert(digits_end(s@, i as int) == digits_end(s@, i + 1)) by {
                assert(is_digit(s@[i as int]));
            };
        }
        i = i + 1;
    }
    proof {
        lemma_digits_end_split(s@, from as int, i as int);
        assert(i == digits_end(s@, from as int));
    }
    let e1 = i;
    if e1 < s.len() && s[e1] == ('.' as u8) {
        match scan_uint(s, e1 + 1, u64::MAX) {
            None => {
                proof {
                    lemma_digits_end(s@, e1 + 1);
                }
                // Either no digit follows the point, or the combined
                // mantissa is out of range; both reject the literal.
                let ghost e2 = digits_end(s@, e1 + 1);
                proof {
                    if e2 > e1 + 1 {
                        let digits = s@.subrange(from as int, e1 as int) + s@.subrange(
                            e1 + 1,
                            e2,
                        );
                        lemma_uint_val_concat_ge(
                            s@.subrange(from as int, e1 as int),
                            s@.subrange(e1 + 1, e2),
                        );
                    }
                }
                None
            },
            Some((_, _)) => {
                // Re-scan the full mantissa: integer digits followed by
                // fractional digits, as one combined digit run value.
                scan_dec_with_point(s, from, e1)
            },
        }
    } else if e1 == from {
        None
    } else {
        match scan_uint(s, from, u64::MAX) {
            None => None,
            Some((v, end)) => Some((Decimal { mantissa: v, places: 0 }, end)),
        }
    }
}

/// Combined value of integer and fractional digit runs around a point.
fn scan_dec_with_point(s: &[u8], from: usize, e1: usize) -> (r: Option<(Decimal, usize)>)
    requires
        from <= e1 < s@.len(),
        s@[e1 as int] == ('.' as u8),
        e1 == digits_end(s@, from as int),
        digits_end(s@, e1 + 1) > e1 + 1,
        forall|j: int| from <= j < e1 ==> is_digit(#[trigger] s@[j]),
    ensures
        match r {
            Some((d, end)) => {
                &&& spec_scan_dec(s@, from as int) == Some((d, end as int))
                &&& from < end <= s@.len()
                &&& d.wf()
            },
            None => spec_scan_dec(s@, from as int) is None,
        },
{
    let slen = s.len();
    proof {
        lemma_digits_end(s@, e1 + 1);
    }
    let ghost e2 = digits_end(s@, e1 + 1);
    let ghost digits = s@.subrange(from as int, e1 as int) + s@.subrange(e1 + 1, e2);
    let mut i: usize = e1 + 1;
    let mut acc: u64 = 0;
    proof {
        assert(s@.subrange(from as int, from as int) =~= Seq::<u8>::empty());
    }
    // Accumulate the integer digits first.
    let mut k: usize = from;
    while k < e1
        invariant
            from <= k <= e1 < s@.len(),
            s@.len() == slen,
            forall|j: int| from <= j < e1 ==> is_digit(#[trigger] s@[j]),
            forall|j: int| e1 + 1 <= j < e2 ==> is_digit(#[trigger] s@[j]),
            acc <= u64::MAX,
            acc == uint_val(s@.subrange(from as int, k as int)),
            e1 == digits_end(s@, from as int),
            s@[e1 as int] == ('.' as u8),
            e2 == digits_end(s@, e1 + 1),
            e1 + 1 < e2 <= s@.len(),
            digits == s@.subrange(from as int, e1 as int) + s@.subrange(e1 + 1, e2),
        decreases e1 - k,
    {
        let d = s[k] - ('0' as u8);
        proof {
            let p = s@.subrange(from as int, k as int);
            let q = s@.subrange(from as int, k + 1);
            assert(q.drop_last() =~= p);
            assert(q.last() == s@[k as int]);
            lemma_uint_val_nonneg(p);
        }
        if acc > u64::MAX / 10 || (acc == u64::MAX / 10 && (d as u64) > u64::MAX % 10) {
            proof {
                lemma_val_exceeds_via_prefix(s@, from as int, e1 as int, e2, k + 1);
            }
            return None;
        }
        acc = acc * 10 + (d as u64);
        k = k + 1;
    }
    // Then the fractional digits.
    proof {
        assert(s@.subrange(from as int, e1 as int) =~= s@.subrange(from as int, k as int));
        lemma_digits_end(s@, e1 + 1);
    }
    while i < s.len() && ('0' as u8) <= s[i] && s[i] <= ('9' as u8)
        invariant
            e1 + 1 <= i <= s@.len(),
            from <= e1 < s@.len(),
            s@.len() == slen,
            i <= e2,
            e2 == digits_end(s@, e1 + 1),
            e1 + 1 < e2 <= s@.len(),
            e1 == digits_end(s@, from as int),
            s@[e1 as int] == ('.' as u8),
            forall|j: int| from <= j < e1 ==> is_digit(#[trigger] s@[j]),
            forall|j: int| e1 + 1 <= j < i ==> is_digit(#[trigger] s@[j]),
            digits == s@.subrange(from as int, e1 as int) + s@.subrange(e1 + 1, e2),
            acc <= u64::MAX,
            acc == uint_val(
                s@.subrange(from as int, e1 as int) + s@.subrange(e1 + 1, i as int),
            ),
        decreases s@.len() - i,
    {
        proof {
            lemma_digits_end_split(s@, e1 + 1, i as int);
            assert(is_digit(s@[i as int]));
            lemma_digits_end(s@, i + 1);
            assert(digits_end(s@, i as int) == digits_end(s@, i + 1));
            assert(i < e2);
        }
        let d = s[i] - ('0' as u8);
        proof {
            let p = s@.subrange(from as int, e1 as int) + s@.subrange(e1 + 1, i as int);
            let q = s@.subrange(from as int, e1 as int) + s@.subrange(e1 + 1, i + 1);
            assert(q.drop_last() =~= p);
            assert(q.last() == s@[i as int]);
            lemma_uint_val_digits_nonneg(p);
        }
        if acc > u64::MAX / 10 || (acc == u64::MAX / 10 && (d as u64) > u64::MAX % 10) {
            proof {
                lemma_val_exceeds_combined(s@, from as int, e1 as int, e2, i + 1);
            }
            return None;
        }
        acc = acc * 10 + (d as u64);
        i = i + 1;
    }
    proof {
        lemma_digits_end_split(s@, e1 + 1, i as int);
        assert(i == e2);
    }
    if i - e1 - 1 > MAX_PLACES as usize {
        return None;
    }
    let places: u32 = (i - e1 - 1) as u32;
    Some((Decimal { mantissa: acc, places }, i))
}

/// `uint_val` is non-negative over any all-digit sequence.
proof fn lemma_uint_val_digits_nonneg(s: Seq<u8>)
    requires
        forall|j: int| 0 <= j < s.len() ==> is_digit(#[trigger] s[j]),
    ensures
        uint_val(s) >= 0,
{
    lemma_uint_val_nonneg(s);
}

/// If already the value of `s[from..cut]` exceeds `u64::MAX`, so does the
/// value of the full combined digit run.
proof fn lemma_val_exceeds_via_prefix(s: Seq<u8>, from: int, e1: int, e2: int, cut: int)
    requires
        0 <= from <= cut <= e1 < s.len(),
        e1 + 1 <= e2 <= s.len(),
        forall|j: int| from <= j < e1 ==> is_digit(#[trigger] s[j]),
        forall|j: int| e1 + 1 <= j < e2 ==> is_digit(#[trigger] s[j]),
        uint_val(s.subrange(from, cut)) > u64::MAX,
    ensures
        uint_val(s.subrange(from, e1) + s.subrange(e1 + 1, e2)) > u64::MAX,
{
    let digits = s.subrange(from, e1) + s.subrange(e1 + 1, e2);
    assert(forall|j: int| 0 <= j < digits.len() ==> is_digit(#[trigger] digits[j]));
    assert(s.subrange(from, cut) =~= digits.subrange(0, cut - from));
    lemma_uint_val_prefix_le(digits, cut - from);
}

/// If the value of the combined run up to fractional position `cut`
/// exceeds `u64::MAX`, so does the full combined run's value.
proof fn lemma_val_exceeds_combined(s: Seq<u8>, from: int, e1: int, e2: int, cut: int)
    requires
        0 <= from <= e1 < s.len(),
        e1 + 1 <= cut <= e2 <= s.len(),
        forall|j: int| from <= j < e1 ==> is_digit(#[trigger] s[j]),
        forall|j: int| e1 + 1 <= j < e2 ==> is_digit(#[trigger] s[j]),
        uint_val(s.subrange(from, e1) + s.subrange(e1 + 1, cut)) > u64::MAX,
    ensures
        uint_val(s.subrange(from, e1) + s.subrange(e1 + 1, e2)) > u64::MAX,
{
    let digits = s.subrange(from, e1) + s.subrange(e1 + 1, e2);
    assert(forall|j: int| 0 <= j < digits.len() ==> is_digit(#[trigger] digits[j]));
    let pre = s.subrange(from, e1) + s.subrange(e1 + 1, cut);
    assert(pre =~= digits.subrange(0, e1 - from + cut - e1 - 1));
    lemma_uint_val_prefix_le(digits, e1 - from + cut - e1 - 1);
}

/// A combined digit run is worth at least nothing; used to show that a
/// failed fractional scan means a failed decimal scan.
proof fn lemma_uint_val_concat_ge(a: Seq<u8>, b: Seq<u8>)
    requires
        forall|j: int| 0 <= j < a.len() ==> is_digit(#[trigger] a[j]),
        forall|j: int| 0 <= j < b.len() ==> is_digit(#[trigger] b[j]),
    ensures
        uint_val(a + b) >= uint_val(b),
    decreases b.len(),
{
    if b.len() == 0 {
        assert((a + b) =~= a);
        lemma_uint_val_nonneg(a);
    } else {
        lemma_uint_val_concat_ge(a, b.drop_last());
        assert((a + b).drop_last() =~= a + b.drop_last());
        assert((a + b).last() == b.last());
        lemma_uint_val_nonneg(a + b.drop_last());
        lemma_uint_val_nonneg(b.drop_last());
    }
}

/// Where a digit run bracketed by a non-digit (or the end) stops.
pub proof fn lemma_digits_end_at(s: Seq<u8>, from: int, to: int)
    requires
        0 <= from <= to <= s.len(),
        forall|j: int| from <= j < to ==> is_digit(#[trigger] s[j]),
        to == s.len() || !is_digit(s[to]),
    ensures
        digits_end(s, from) == to,
    decreases to - from,
{
    if from < to {
        lemma_digits_end_at(s, from + 1, to);
    }
}

/// The decimal digit string of a non-negative number, most significant
/// digit first.
pub open spec fn uint_str(n: int) -> Seq<u8>
    decreases n,
{
    if n <= 9 {
        seq![(n + ('0' as u8)) as u8]
    } else {
        uint_str(n / 10).push(((n % 10) + ('0' as u8)) as u8)
    }
}

pub proof fn lemma_uint_str_digits(n: int)
    requires
        n >= 0,
    ensures
        uint_str(n).len() >= 1,
        forall|j: int| 0 <= j < uint_str(n).len() ==> is_digit(#[trigger] uint_str(n)[j]),
    decreases n,
{
    if n > 9 {
        lemma_uint_str_digits(n / 10);
        assert forall|j: int| 0 <= j < uint_str(n).len() implies is_digit(
            #[trigger] uint_str(n)[j],
        ) by {
            if j < uint_str(n).len() - 1 {
                assert(uint_str(n)[j] == uint_str(n / 10)[j]);
            }
        };
    }
}

/// Writing a number out and reading it back yields the number.
pub proof fn lemma_uint_val_uint_str(n: int)
    requires
        n >= 0,
    ensures
        uint_val(uint_str(n)) == n,
    decreases n,
{
    if n <= 9 {
        assert(uint_str(n) == seq![(n + ('0' as u8)) as u8]);
        assert(uint_str(n).drop_last() =~= Seq::<u8>::empty());
        assert(uint_str(n).last() == (n + ('0' as u8)) as u8);
        assert(uint_val(uint_str(n)) == uint_val(Seq::<u8>::empty()) * 10 + ((n + (
        '0' as u8)) as u8 - ('0' as u8)));
    } else {
        lemma_uint_val_uint_str(n / 10);
        assert(uint_str(n).drop_last() =~= uint_str(n / 10));
        assert(uint_str(n).last() == ((n % 10) + ('0' as u8)) as u8);
        assert(uint_val(uint_str(n)) == uint_val(uint_str(n / 10)) * 10 + (((n % 10) + (
        '0' as u8)) as u8 - ('0' as u8)));
        vstd::arithmetic::div_mod::lemma_fundamental_div_mod(n, 10);
        assert(n == 10 * (n / 10) + n % 10);
    }
}

/// The decimal digit string of a number, as bytes.
pub fn u32_digits(n: u32) -> (r: Vec<u8>)
    ensures
        r@ == uint_str(n as int),
    decreases n,
{
    if n <= 9 {
        let mut v: Vec<u8> = Vec::new();
        v.push((n as u8) + ('0' as u8));
        proof {
            assert(v@ =~= uint_str(n as int));
        }
        v
    } else {
        let mut v = u32_digits(n / 10);
        v.push(((n % 10) as u8) + ('0' as u8));
        v
    }
}

/// The last position of `c` in `s`, or `-1`.
pub open spec fn last_pos(s: Seq<u8>, c: u8) -> int
    decreases s.len(),
{
    if s.len() == 0 {
        -1
    } else if s.last() == c {
        s.len() - 1
    } else {
        last_pos(s.drop_last(), c)
    }
}

pub proof fn lemma_last_pos_bound(s: Seq<u8>, c: u8)
    ensures
        -1 <= last_pos(s, c) < s.len(),
    decreases s.len(),
{
    if s.len() > 0 && s.last() != c {
        lemma_last_pos_bound(s.drop_last(), c);
    }
}

/// Find the last occurrence of `c` in `s`.
pub fn rfind(s: &[u8], c: u8) -> (r: Option<usize>)
    ensures
        match r {
            Some(i) => last_pos(s@, c) == i as int,
            None => last_pos(s@, c) == -1,
        },
{
    let mut e: usize = s.len();
    proof {
        assert(s@.subrange(0, s@.len() as int) =~= s@);
    }
    while e > 0
        invariant
            0 <= e <= s@.len(),
            last_pos(s@, c) == last_pos(s@.subrange(0, e as int), c),
        decreases e,
    {
        proof {
            let cur = s@.subrange(0, e as int);
            assert(cur.last() == s@[e - 1]);
            assert(cur.drop_last() =~= s@.subrange(0, e - 1));
        }
        if s[e - 1] == c {
            return Some(e - 1);
        }
        e = e - 1;
    }
    None
}

/// Byte-slice equality, as sequence equality of the views.
pub fn bytes_eq(a: &[u8], b: &[u8]) -> (r: bool)
    ensures
        r == (a@ == b@),
{
    if a.len() != b.len() {
        proof {
            assert(a@.len() != b@.len());
        }
        return false;
    }
    let mut i: usize = 0;
    while i < a.len()
        invariant
            0 <= i <= a@.len(),
            a@.len() == b@.len(),
            forall|j: int| 0 <= j < i ==> a@[j] == b@[j],
        decreases a@.len() - i,
    {
        if a[i] != b[i] {
            proof {
                assert(!(a@ =~= b@));
            }
            return false;
        }
        i = i + 1;
    }
    proof {
        assert(a@ =~= b@);
    }
    true
}

/// Is the tail of `s` from `from` exactly `lit`?
pub fn tail_is(s: &[u8], from: usize, lit: &[u8]) -> (r: bool)
    requires
        from <= s@.len(),
    ensures
        r == (s@.subrange(from as int, s@.len() as int) == lit@),
{
    let n = s.len();
    if n - from != lit.len() {
        proof {
            assert(s@.subrange(from as int, s@.len() as int).len() != lit@.len());
        }
        return false;
    }
    let r = starts_with_at(s, from, lit);
    proof {
        assert(s@.subrange(from as int, s@.len() as int) =~= s@.subrange(
            from as int,
            from + lit@.len(),
        ));
    }
    r
}

/// Does `s` start with `p` at offset `from`?
pub fn starts_with_at(s: &[u8], from: usize, p: &[u8]) -> (r: bool)
    requires
        from <= s@.len(),
    ensures
        r == (from + p@.len() <= s@.len() && s@.subrange(
            from as int,
            from + p@.len(),
        ) == p@),
{
    let slen = s.len();
    if p.len() > slen - from {
        return false;
    }
    let mut i: usize = 0;
    while i < p.len()
        invariant
            0 <= i <= p@.len(),
            from + p@.len() <= s@.len(),
            s@.len() == slen,
            forall|j: int| 0 <= j < i ==> s@[from + j] == p@[j],
        decreases p@.len() - i,
    {
        if s[from + i] != p[i] {
            proof {
                assert(!(s@.subrange(from as int, from + p@.len()) =~= p@)) by {
                    assert(s@.subrange(from as int, from + p@.len())[i as int] != p@[
                        i as int]);
                };
            }
            return false;
        }
        i = i + 1;
    }
    proof {
        assert(s@.subrange(from as int, from + p@.len()) =~= p@);
    }
    true
}

} // verus!
