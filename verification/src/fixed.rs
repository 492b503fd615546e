use vstd::prelude::*;

verus! {

/// One world unit in signed 16.16 fixed-point representation.
pub const FP: i64 = 65536;

/// `FP * FP`, the fixed-point representation of one squared unit.
pub const FP_SQ: i64 = 65536 * 65536;

/// Sentinel standing in for an infinite ray-march step: larger than any
/// accumulated side distance a bounded walk can reach, so the axis that
/// carries it never wins a step comparison.
pub const SENTINEL: i64 = 0x1000_0000_0000_0000;

/// Largest magnitude allowed for a camera position coordinate
/// (4096 world units in fixed-point).
pub const POS_MAX: i64 = 65536 * 4096;

/// Largest magnitude allowed for a ray direction component
/// (8 world units in fixed-point).
pub const RAY_MAX: i64 = 65536 * 8;

/// Largest grid extent, in cells, along either axis.
pub const GRID_MAX: usize = 4096;

/// Absolute value, in the mathematical integers.
pub open spec fn spec_abs(a: int) -> int {
    if a < 0 {
        -a
    } else {
        a
    }
}

/// Division rounding up; meaningful for `a >= 0`, `b > 0`.
pub open spec fn spec_div_up(a: int, b: int) -> int {
    (a + b - 1) / b
}

/// The grid cell index a fixed-point coordinate falls in: the floor of
/// `a / FP`.
pub open spec fn spec_cell_of(a: int) -> int {
    a / (FP as int)
}

/// The fixed-point offset of `a` within its grid cell, in `[0, FP)`.
pub open spec fn spec_frac_of(a: int) -> int {
    a % (FP as int)
}

/// The grid cell a fixed-point coordinate falls in.
///
/// Rust's `/` truncates toward zero, so negative coordinates are adjusted
/// to give the mathematical floor.
pub fn cell_of(a: i64) -> (r: i64)
    requires
        -POS_MAX <= a <= POS_MAX,
    ensures
        r == spec_cell_of(a as int),
        -4096 <= r <= 4096,
        r * (FP as int) <= a < (r + 1) * (FP as int),
{
    if a >= 0 {
        a / FP
    } else {
        -((-a + FP - 1) / FP)
    }
}

/// The fixed-point offset of a coordinate within its grid cell.
pub fn frac_of(a: i64) -> (r: i64)
    requires
        -POS_MAX <= a <= POS_MAX,
    ensures
        r == spec_frac_of(a as int),
        0 <= r < FP,
        a == spec_cell_of(a as int) * (FP as int) + r,
{
    let c = cell_of(a);
    a - c * FP
}

/// Fixed-point product: `a * b / FP`, truncated toward zero as Rust's
/// integer division is.
pub open spec fn spec_fp_mul(a: int, b: int) -> int {
    if a * b >= 0 {
        a * b / (FP as int)
    } else {
        -((-(a * b)) / (FP as int))
    }
}

/// Multiplies two fixed-point values.
pub fn fp_mul(a: i64, b: i64) -> (r: i64)
    requires
        -0x4000_0000 <= a <= 0x4000_0000,
        -0x4000_0000 <= b <= 0x4000_0000,
    ensures
        r == spec_fp_mul(a as int, b as int),
        spec_abs(r as int) == spec_abs(a as int * b as int) / (FP as int),
{
    proof {
        assert(-0x1000_0000_0000_0000 <= a as int * b as int <= 0x1000_0000_0000_0000)
            by (nonlinear_arith)
            requires
                -0x4000_0000 <= a <= 0x4000_0000,
                -0x4000_0000 <= b <= 0x4000_0000,
        {}
    }
    let p = a * b;
    if p >= 0 {
        p / FP
    } else {
        -((-p) / FP)
    }
}

/// Integer square root: the greatest `r` with `r * r <= n`.
pub fn isqrt(n: u64) -> (r: u64)
    ensures
        r * r <= n,
        (r + 1) * (r + 1) > n,
{
    if n == 0 {
        return 0;
    }
    let mut lo: u64 = 0;
    let mut hi: u64 = 0x1_0000_0000;
    while lo + 1 < hi
        invariant
            lo < hi <= 0x1_0000_0000,
            lo * lo <= n,
            (hi as int) * (hi as int) > n,
        decreases hi - lo,
    {
        let mid = lo + (hi - lo) / 2;
        proof {
            assert(mid < 0x1_0000_0000);
            assert((mid as int) * (mid as int) < 0x1_0000_0000_0000_0000) by (nonlinear_arith)
                requires
                    0 <= mid < 0x1_0000_0000,
            {}
        }
        if mid * mid <= n {
            lo = mid;
        } else {
            hi = mid;
        }
    }
    lo
}

} // verus!
