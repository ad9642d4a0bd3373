//! Integer arithmetic for the fixed-point layout engine: integer square
//! root, clamping, and the bounded force accumulation steps.

use vstd::prelude::*;

verus! {

/// Magnitude of a mathematical integer.
pub open spec fn abs_i(x: int) -> int {
    if x < 0 {
        -x
    } else {
        x
    }
}

/// Integer square root: the largest `r` with `r * r <= x`.
pub fn isqrt(x: u64) -> (r: u64)
    ensures
        r * r <= x,
        x < (r + 1) * (r + 1),
{
    let mut lo: u64 = 0;
    let mut hi: u64 = 0xFFFF_FFFF;
    while lo < hi
        invariant
            lo <= hi <= 0xFFFF_FFFF,
            lo * lo <= x,
            x < (hi + 1) * (hi + 1),
        decreases hi - lo,
    {
        let mid: u64 = lo + (hi - lo + 1) / 2;
        proof {
            assert(mid * mid <= 0xFFFF_FFFF * 0xFFFF_FFFF) by (nonlinear_arith)
                requires
                    mid <= 0xFFFF_FFFF,
            ;
        }
        if mid * mid <= x {
            lo = mid;
        } else {
            hi = mid - 1;
        }
    }
    lo
}

/// Clamp `x` into `lo ..= hi`.
pub fn clamp_u64(x: u64, lo: u64, hi: u64) -> (r: u64)
    requires
        lo <= hi,
    ensures
        lo <= r <= hi,
        x < lo ==> r == lo,
        x > hi ==> r == hi,
        lo <= x <= hi ==> r == x,
{
    if x < lo {
        lo
    } else if x > hi {
        hi
    } else {
        x
    }
}

/// Magnitude and direction of `p - q`: the magnitude, and whether
/// `p >= q`.
pub fn diff_mag(p: u64, q: u64) -> (r: (u64, bool))
    ensures
        r.0 == abs_i(p - q),
        r.1 == (p >= q),
        r.0 <= p || r.0 <= q,
{
    if p >= q {
        (p - q, true)
    } else {
        (q - p, false)
    }
}

/// Move a coordinate by a signed displacement, then clamp it into
/// `lo ..= hi`.
pub fn move_and_clamp(x: u64, d: i64, lo: u64, hi: u64) -> (r: u64)
    requires
        lo <= hi <= crate::types::MAX_DIM,
        x <= crate::types::MAX_DIM,
        -5_000_000_000 <= d <= 5_000_000_000,
    ensures
        lo <= r <= hi,
        lo <= x + d <= hi ==> r == x + d,
{
    let v: i64 = x as i64 + d;
    if v < lo as i64 {
        lo
    } else if v > hi as i64 {
        hi
    } else {
        v as u64
    }
}

/// Largest magnitude a per-round displacement accumulator may reach.
pub const DISP_MAX: i64 = 2_000_000_000;

/// Largest magnitude of a single force term fed into the accumulator.
pub const TERM_MAX: i64 = 200_000_000_000_000;

/// Add a bounded force term to a displacement accumulator, clamping the
/// result into `-DISP_MAX ..= DISP_MAX` so that a round's total
/// displacement stays bounded whatever the node count.
pub fn acc_force(acc: i64, delta: i64) -> (r: i64)
    requires
        -DISP_MAX <= acc <= DISP_MAX,
        -TERM_MAX <= delta <= TERM_MAX,
    ensures
        -DISP_MAX <= r <= DISP_MAX,
        -DISP_MAX <= acc + delta <= DISP_MAX ==> r == acc + delta,
{
    let s: i64 = acc + delta;
    if s < -DISP_MAX {
        -DISP_MAX
    } else if s > DISP_MAX {
        DISP_MAX
    } else {
        s
    }
}

/// `d * maxd / m`, the share of `maxd` that a component `d` of a vector of
/// magnitude `m` receives when the vector is shrunk to length `maxd`.
/// The result never exceeds `maxd`.
pub fn scale_toward(d: u64, maxd: u64, m: u64) -> (r: u64)
    requires
        1 <= m <= 3_000_000_000,
        d <= m,
        maxd <= 5_000_000_000,
    ensures
        r == d * maxd / (m as int),
        r <= maxd,
{
    proof {
        lemma_mul_div_le(d as int, maxd as int, m as int);
        assert(d * maxd <= 3_000_000_000 * 5_000_000_000) by (nonlinear_arith)
            requires
                d <= 3_000_000_000,
                maxd <= 5_000_000_000,
        ;
    }
    (d * maxd) / m
}

/// For nonnegative `a <= m` and `m > 0`: `a * b / m <= b`.
pub proof fn lemma_mul_div_le(a: int, b: int, m: int)
    requires
        0 < m,
        0 <= a <= m,
        0 <= b,
    ensures
        a * b / m <= b,
{
    assert(a * b <= m * b) by (nonlinear_arith)
        requires
            0 <= a <= m,
            0 <= b,
    ;
    vstd::arithmetic::div_mod::lemma_div_is_ordered(a * b, m * b, m);
    vstd::arithmetic::div_mod::lemma_div_by_multiple(b, m);
    vstd::arithmetic::mul::lemma_mul_is_commutative(m, b);
}

/// For nonnegative integers, `a * a <= s < (b + 1) * (b + 1)` forces
/// `a <= b`: a component of a vector is no longer than the vector's
/// integer-square-root magnitude.
pub proof fn lemma_component_le_magnitude(a: int, b: int, s: int)
    requires
        0 <= a,
        0 <= b,
        a * a <= s,
        s < (b + 1) * (b + 1),
    ensures
        a <= b,
{
    assert(a <= b) by (nonlinear_arith)
        requires
            0 <= a,
            0 <= b,
            a * a <= s,
            s < (b + 1) * (b + 1),
    ;
}

} // verus!
