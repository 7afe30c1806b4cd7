//! Integer arithmetic helpers: truncating division, saturation, and the
//! integer square root used to normalize direction vectors.

use vstd::prelude::*;

verus! {

/// Quotient of `a / b` rounded toward zero, as Rust's integer division does.
pub open spec fn div_to_zero(a: int, b: int) -> int
    recommends
        b > 0,
{
    if a >= 0 {
        a / b
    } else {
        -((-a) / b)
    }
}

/// `v` pulled into `[-lim, lim]`.
pub open spec fn clamp_spec(v: int, lim: int) -> int
    recommends
        lim >= 0,
{
    if v > lim {
        lim
    } else if v < -lim {
        -lim
    } else {
        v
    }
}

/// `r` is the integer square root of `x` rounded down.
pub open spec fn is_sqrt_floor(x: nat, r: nat) -> bool {
    r * r <= x < (r + 1) * (r + 1)
}

/// The integer square root of `x`, rounded down.
pub open spec fn sqrt_floor(x: nat) -> nat {
    choose|r: nat| is_sqrt_floor(x, r)
}

pub proof fn lemma_sqrt_floor_exists(x: nat)
    ensures
        is_sqrt_floor(x, sqrt_floor(x)),
    decreases x,
{
    if x == 0 {
        assert(is_sqrt_floor(0, 0)) by (nonlinear_arith);
    } else {
        lemma_sqrt_floor_exists((x - 1) as nat);
        let r = sqrt_floor((x - 1) as nat);
        if x < (r + 1) * (r + 1) {
            assert(is_sqrt_floor(x, r));
        } else {
            assert(x == (r + 1) * (r + 1));
            assert((r + 1) * (r + 1) < (r + 2) * (r + 2)) by (nonlinear_arith);
            assert(is_sqrt_floor(x, r + 1));
        }
        assert(exists|q: nat| is_sqrt_floor(x, q));
        let q = choose|q: nat| is_sqrt_floor(x, q);
        lemma_sqrt_floor_unique(x, q, sqrt_floor(x));
    }
}

pub proof fn lemma_sqrt_floor_unique(x: nat, r1: nat, r2: nat)
    requires
        is_sqrt_floor(x, r1),
        is_sqrt_floor(x, r2),
    ensures
        r1 == r2,
{
    if r1 < r2 {
        assert((r1 + 1) * (r1 + 1) <= r2 * r2) by (nonlinear_arith)
            requires
                r1 + 1 <= r2,
        ;
    }
    if r2 < r1 {
        assert((r2 + 1) * (r2 + 1) <= r1 * r1) by (nonlinear_arith)
            requires
                r2 + 1 <= r1,
        ;
    }
}

/// Truncating division by a positive divisor.
pub fn div_trunc(a: i64, b: i64) -> (q: i64)
    requires
        b > 0,
        a > i64::MIN,
    ensures
        q == div_to_zero(a as int, b as int),
{
    if a >= 0 {
        a / b
    } else {
        -((-a) / b)
    }
}

/// `v` pulled into `[-lim, lim]`.
pub fn clamp_to(v: i64, lim: i64) -> (r: i64)
    requires
        0 < lim,
    ensures
        r == clamp_spec(v as int, lim as int),
{
    if v > lim {
        lim
    } else if v < -lim {
        -lim
    } else {
        v
    }
}

/// Integer square root, rounded down.
pub fn isqrt(x: u64) -> (r: u64)
    ensures
        is_sqrt_floor(x as nat, r as nat),
        r as nat == sqrt_floor(x as nat),
{
    let mut lo: u64 = 0;
    let mut hi: u64 = 0x1_0000_0000;
    assert((hi * hi) as nat > x as nat) by (nonlinear_arith)
        requires
            hi == 0x1_0000_0000u64,
            x <= u64::MAX,
    ;
    while lo + 1 < hi
        invariant
            lo < hi <= 0x1_0000_0000,
            (lo * lo) as nat <= x as nat,
            (hi as nat) * (hi as nat) > x as nat,
        decreases hi - lo,
    {
        let mid = lo + (hi - lo) / 2;
        assert(lo < mid < hi);
        assert(mid * mid <= 0xffff_ffffu64 * 0xffff_ffffu64) by (nonlinear_arith)
            requires
                mid <= 0xffff_ffffu64,
        ;
        if mid * mid <= x {
            lo = mid;
        } else {
            hi = mid;
        }
    }
    assert(is_sqrt_floor(x as nat, lo as nat));
    proof {
        lemma_sqrt_floor_exists(x as nat);
        lemma_sqrt_floor_unique(x as nat, lo as nat, sqrt_floor(x as nat));
    }
    lo
}

/// A value no larger than `b * d` divides by `b` to at most `d`.
pub proof fn lemma_div_bound(a: int, b: int, d: int)
    requires
        0 <= a,
        a <= b * d,
        b >= 1,
        d >= 0,
    ensures
        0 <= a / b <= d,
{
    assert(0 <= a / b <= d) by (nonlinear_arith)
        requires
            0 <= a,
            a <= b * d,
            b >= 1,
            d >= 0,
    ;
}

/// Squared Euclidean distance between two points given by coordinates.
pub open spec fn dist_sq(ax: int, ay: int, bx: int, by: int) -> int {
    (ax - bx) * (ax - bx) + (ay - by) * (ay - by)
}

} // verus!
