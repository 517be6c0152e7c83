//! Exact decimal numbers for the grammar's non-negative `float` production
//! (`digit+` or `digit* '.' digit+`, no sign, no exponent, no Inf/NaN).
//!
//! A parsed number is held exactly as `mantissa / 10^places`. A literal
//! whose digits do not fit these fields is rejected at parse time as a
//! machine limit; the grammar itself puts no bound on digit count.

use vstd::prelude::*;

verus! {

/// The most fractional digits a parsed decimal may carry. Keeping the
/// exponent this small lets percent scaling run exactly in 128-bit
/// integer arithmetic.
pub const MAX_PLACES: u32 = 19;

/// A non-negative decimal number with value `mantissa / 10^places`.
#[derive(Clone, Copy, Debug, PartialEq, Eq, Structural)]
pub struct Decimal {
    pub mantissa: u64,
    pub places: u32,
}

/// `10^n`.
pub open spec fn pow10(n: nat) -> nat
    decreases n,
{
    if n == 0 {
        1
    } else {
        10 * pow10((n - 1) as nat)
    }
}

impl Decimal {
    /// Structural bound that every parsed decimal satisfies.
    pub open spec fn wf(self) -> bool {
        self.places <= MAX_PLACES
    }

}

proof fn lemma_pow10_pos(n: nat)
    ensures
        pow10(n) >= 1,
    decreases n,
{
    if n > 0 {
        lemma_pow10_pos((n - 1) as nat);
    }
}

/// `10^n` for `n <= MAX_PLACES`, exactly.
pub fn pow10_u64(n: u32) -> (r: u64)
    requires
        n <= MAX_PLACES,
    ensures
        r == pow10(n as nat),
{
    let mut i: u32 = 0;
    let mut acc: u64 = 1;
    proof {
        lemma_pow10_fits(n as nat);
    }
    while i < n
        invariant
            0 <= i <= n <= MAX_PLACES,
            acc == pow10(i as nat),
            pow10(n as nat) <= u64::MAX,
        decreases n - i,
    {
        proof {
            lemma_pow10_mono(i as nat + 1, n as nat);
        }
        assert(pow10((i + 1) as nat) == 10 * pow10(i as nat));
        acc = acc * 10;
        i = i + 1;
    }
    acc
}

proof fn lemma_pow10_mono(a: nat, b: nat)
    requires
        a <= b,
    ensures
        pow10(a) <= pow10(b),
    decreases b,
{
    if a < b {
        lemma_pow10_mono(a, (b - 1) as nat);
        lemma_pow10_pos((b - 1) as nat);
    }
}

proof fn lemma_pow10_fits(n: nat)
    requires
        n <= MAX_PLACES,
    ensures
        pow10(n) <= u64::MAX,
{
    lemma_pow10_mono(n, MAX_PLACES as nat);
    reveal_with_fuel(pow10, 20);
    assert(pow10(19) == 10000000000000000000);
}

/// Rounded percent scaling: `round(dim * d / 100)` with round-half-up,
/// saturating at `u32::MAX`. `d` is a percentage, so the divisor is
/// `100 * 10^places`.
pub open spec fn spec_scale_pct(dim: nat, d: Decimal) -> nat {
    let half = (50 * pow10(d.places as nat)) as int;
    let den = (100 * pow10(d.places as nat)) as int;
    let q = (dim * d.mantissa + half) / den;
    if q > u32::MAX {
        u32::MAX as nat
    } else {
        q as nat
    }
}

/// Scale a pixel dimension by a percentage, rounding half up and
/// saturating at `u32::MAX`.
pub fn scale_by_pct(dim: u32, d: &Decimal) -> (r: u32)
    requires
        d.wf(),
    ensures
        r == spec_scale_pct(dim as nat, *d),
{
    let p = pow10_u64(d.places);
    proof {
        lemma_pow10_pos(d.places as nat);
    }
    let half: u128 = 50u128 * (p as u128);
    let den: u128 = half * 2;
    assert(den == 100 * pow10(d.places as nat));
    proof {
        vstd::arithmetic::mul::lemma_mul_upper_bound(
            dim as int,
            u32::MAX as int,
            d.mantissa as int,
            u64::MAX as int,
        );
    }
    let n: u128 = (dim as u128) * (d.mantissa as u128);
    let q: u128 = (n + half) / den;
    if q > u32::MAX as u128 {
        u32::MAX
    } else {
        q as u32
    }
}

} // verus!
