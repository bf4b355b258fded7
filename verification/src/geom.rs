//! Euclidean distance between fixed-point points, through an exact integer
//! square root.

use vstd::prelude::*;

verus! {

/// Square of an integer.
pub open spec fn sq(x: int) -> int {
    x * x
}

/// Integer square root (floor), defined recursively so that it is total.
pub open spec fn sqrt_floor(n: int) -> int
    decreases n,
{
    if n <= 0 {
        0
    } else {
        let r = sqrt_floor(n - 1);
        if sq(r + 1) <= n {
            r + 1
        } else {
            r
        }
    }
}

/// `sqrt_floor(n)` is the greatest integer whose square is at most `n`.
pub proof fn lemma_sqrt_floor_props(n: int)
    requires
        n >= 0,
    ensures
        sqrt_floor(n) >= 0,
        sq(sqrt_floor(n)) <= n,
        sq(sqrt_floor(n) + 1) > n,
    decreases n,
{
    if n > 0 {
        lemma_sqrt_floor_props(n - 1);
        let r = sqrt_floor(n - 1);
        assert(sq(r + 2) > sq(r + 1)) by (nonlinear_arith)
            requires r >= 0,
        ;
    }
}

/// Any integer satisfying the floor-square-root bounds is `sqrt_floor`.
pub proof fn lemma_sqrt_floor_unique(n: int, r: int)
    requires
        n >= 0,
        r >= 0,
        sq(r) <= n,
        sq(r + 1) > n,
    ensures
        r == sqrt_floor(n),
{
    lemma_sqrt_floor_props(n);
    let s = sqrt_floor(n);
    assert(r == s) by (nonlinear_arith)
        requires
            r >= 0,
            s >= 0,
            r * r <= n,
            (r + 1) * (r + 1) > n,
            s * s <= n,
            (s + 1) * (s + 1) > n,
    ;
}

/// Binary-search integer square root.
fn isqrt64(n: u64) -> (r: u64)
    ensures
        r as int == sqrt_floor(n as int),
        r <= 0xFFFF_FFFF,
{
    let mut lo: u64 = 0;
    let mut hi: u64 = 0x1_0000_0000;
    proof {
        assert(sq(hi as int) > n as int);
    }
    while lo + 1 < hi
        invariant
            lo < hi <= 0x1_0000_0000,
            sq(lo as int) <= n as int,
            sq(hi as int) > n as int,
        decreases hi - lo,
    {
        let mid: u64 = lo + (hi - lo) / 2;
        proof {
            assert(mid * mid <= 0xFFFF_FFFF * 0xFFFF_FFFF) by (nonlinear_arith)
                requires mid <= 0xFFFF_FFFF,
            ;
        }
        if mid * mid <= n {
            lo = mid;
        } else {
            hi = mid;
        }
    }
    proof {
        lemma_sqrt_floor_unique(n as int, lo as int);
    }
    lo
}

/// Mathematical distance between two fixed-point points: the floor of the
/// Euclidean length of their difference.
pub open spec fn dist_fp(ax: int, ay: int, bx: int, by: int) -> int {
    sqrt_floor(sq(bx - ax) + sq(by - ay))
}

/// Bound on coordinates the distance computation accepts.
pub const COORD_LIMIT: i64 = 0x4000_0000;

/// Euclidean distance between two points, truncated to an integer number
/// of fixed-point units.
pub fn distance(ax: i64, ay: i64, bx: i64, by: i64) -> (r: i64)
    requires
        -COORD_LIMIT <= ax <= COORD_LIMIT,
        -COORD_LIMIT <= ay <= COORD_LIMIT,
        -COORD_LIMIT <= bx <= COORD_LIMIT,
        -COORD_LIMIT <= by <= COORD_LIMIT,
    ensures
        r == dist_fp(ax as int, ay as int, bx as int, by as int),
        0 <= r <= 0x1_0000_0000,
{
    let dx: i64 = bx - ax;
    let dy: i64 = by - ay;
    proof {
        assert(dx * dx <= 0x8000_0000i64 * 0x8000_0000i64) by (nonlinear_arith)
            requires -0x8000_0000i64 <= dx <= 0x8000_0000i64,
        ;
        assert(dy * dy <= 0x8000_0000i64 * 0x8000_0000i64) by (nonlinear_arith)
            requires -0x8000_0000i64 <= dy <= 0x8000_0000i64,
        ;
        assert(dx * dx >= 0) by (nonlinear_arith);
        assert(dy * dy >= 0) by (nonlinear_arith);
    }
    let n: u64 = ((dx * dx) as u64) + ((dy * dy) as u64);
    let r: u64 = isqrt64(n);
    r as i64
}

} // verus!
