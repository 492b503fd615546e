use vstd::prelude::*;
use crate::fixed::{FP, FP_SQ, spec_fp_mul, isqrt};

verus! {

/// A 2-dimensional vector in signed 16.16 fixed-point, used both for
/// world positions and for direction / view-plane vectors.
#[derive(Clone, Copy, Debug, PartialEq, Eq, Structural)]
pub struct Vector2D {
    pub x: i64,
    pub y: i64,
}

/// The rotated x component, before scaling back by `FP`:
/// `x cos - y sin`.
pub open spec fn spec_rot_x(x: int, y: int, c: int, s: int) -> int {
    x * c - y * s
}

/// The rotated y component, before scaling back by `FP`:
/// `x sin + y cos`.
pub open spec fn spec_rot_y(x: int, y: int, c: int, s: int) -> int {
    x * s + y * c
}

impl Vector2D {
    /// The squared Euclidean length, in the mathematical integers.
    pub open spec fn spec_norm_sq(self) -> int {
        self.x * self.x + self.y * self.y
    }

    /// Creates a new vector.
    pub fn new(x: i64, y: i64) -> (r: Vector2D)
        ensures
            r.x == x,
            r.y == y,
    {
        Vector2D { x, y }
    }

    /// Componentwise sum.
    pub fn plus(self, other: Vector2D) -> (r: Vector2D)
        requires
            -0x1000_0000_0000 <= self.x + other.x <= 0x1000_0000_0000,
            -0x1000_0000_0000 <= self.y + other.y <= 0x1000_0000_0000,
        ensures
            r.x == self.x + other.x,
            r.y == self.y + other.y,
    {
        Vector2D { x: self.x + other.x, y: self.y + other.y }
    }

    /// Componentwise difference.
    pub fn minus(self, other: Vector2D) -> (r: Vector2D)
        requires
            -0x1000_0000_0000 <= self.x - other.x <= 0x1000_0000_0000,
            -0x1000_0000_0000 <= self.y - other.y <= 0x1000_0000_0000,
        ensures
            r.x == self.x - other.x,
            r.y == self.y - other.y,
    {
        Vector2D { x: self.x - other.x, y: self.y - other.y }
    }

    /// Uniform scaling by a fixed-point factor.
    pub fn scale(self, factor: i64) -> (r: Vector2D)
        requires
            -0x4000_0000 <= self.x <= 0x4000_0000,
            -0x4000_0000 <= self.y <= 0x4000_0000,
            -0x4000_0000 <= factor <= 0x4000_0000,
        ensures
            r.x == spec_fp_mul(self.x as int, factor as int),
            r.y == spec_fp_mul(self.y as int, factor as int),
    {
        Vector2D { x: crate::fixed::fp_mul(self.x, factor), y: crate::fixed::fp_mul(self.y, factor) }
    }

    /// The Euclidean length, in fixed-point, rounded down: the greatest
    /// `r` whose square does not exceed the squared length.
    pub fn magnitude(&self) -> (r: i64)
        requires
            -0x4000_0000 <= self.x <= 0x4000_0000,
            -0x4000_0000 <= self.y <= 0x4000_0000,
        ensures
            0 <= r,
            r * r <= self.spec_norm_sq(),
            (r + 1) * (r + 1) > self.spec_norm_sq(),
    {
        proof {
            assert(0 <= self.x * self.x <= 0x1000_0000_0000_0000 && 0 <= self.y * self.y
                <= 0x1000_0000_0000_0000) by (nonlinear_arith)
                requires
                    -0x4000_0000 <= self.x <= 0x4000_0000,
                    -0x4000_0000 <= self.y <= 0x4000_0000,
            {}
        }
        let xx = (self.x * self.x) as u64;
        let yy = (self.y * self.y) as u64;
        let r = isqrt(xx + yy);
        proof {
            assert(r * r <= self.spec_norm_sq() < 0x7FFF_FFFF_FFFF_FFFF);
            assert(r < 0x7FFF_FFFF_FFFF_FFFF) by (nonlinear_arith)
                requires
                    0 <= r,
                    r * r <= 0x7FFF_FFFF_FFFF_FFFF,
            {}
        }
        r as i64
    }

    /// Rotates the vector by an angle given as its fixed-point cosine and
    /// sine, returning a new vector. A rotation never grows the squared
    /// length beyond what the (at most unit) cosine/sine pair allows.
    pub fn rotate(&self, cos_fx: i64, sin_fx: i64) -> (r: Vector2D)
        requires
            self.spec_norm_sq() <= 4 * FP_SQ,
            -FP <= cos_fx <= FP,
            -FP <= sin_fx <= FP,
            cos_fx * cos_fx + sin_fx * sin_fx <= FP_SQ,
        ensures
            ({
                let px = spec_rot_x(self.x as int, self.y as int, cos_fx as int, sin_fx as int);
                let py = spec_rot_y(self.x as int, self.y as int, cos_fx as int, sin_fx as int);
                r.x == (if px >= 0 { px / (FP as int) } else { -((-px) / (FP as int)) })
                && r.y == (if py >= 0 { py / (FP as int) } else { -((-py) / (FP as int)) })
            }),
            r.spec_norm_sq() <= 4 * FP_SQ,
    {
        proof {
            assert(self.x * self.x <= 4 * FP_SQ && self.y * self.y <= 4 * FP_SQ)
                by (nonlinear_arith)
                requires
                    self.x * self.x + self.y * self.y <= 4 * FP_SQ,
            {}
            assert(-2 * FP <= self.x <= 2 * FP && -2 * FP <= self.y <= 2 * FP)
                by (nonlinear_arith)
                requires
                    self.x * self.x <= 4 * FP_SQ,
                    self.y * self.y <= 4 * FP_SQ,
                    FP_SQ == FP * FP,
                    FP == 65536,
            {}
            assert(-0x2_0000_0000 <= self.x * cos_fx <= 0x2_0000_0000 && -0x2_0000_0000 <= self.y
                * sin_fx <= 0x2_0000_0000 && -0x2_0000_0000 <= self.x * sin_fx <= 0x2_0000_0000
                && -0x2_0000_0000 <= self.y * cos_fx <= 0x2_0000_0000) by (nonlinear_arith)
                requires
                    -2 * FP <= self.x <= 2 * FP,
                    -2 * FP <= self.y <= 2 * FP,
                    -FP <= cos_fx <= FP,
                    -FP <= sin_fx <= FP,
                    FP == 65536,
            {}
        }
        let px = self.x * cos_fx - self.y * sin_fx;
        let py = self.x * sin_fx + self.y * cos_fx;
        let nx = if px >= 0 {
            px / FP
        } else {
            -((-px) / FP)
        };
        let ny = if py >= 0 {
            py / FP
        } else {
            -((-py) / FP)
        };
        proof {
            lemma_rotation_norm(
                self.x as int,
                self.y as int,
                cos_fx as int,
                sin_fx as int,
                nx as int,
                ny as int,
            );
        }
        Vector2D { x: nx, y: ny }
    }
}

impl Default for Vector2D {
    /// The zero vector.
    fn default() -> (r: Vector2D)
        ensures
            r.x == 0,
            r.y == 0,
    {
        Vector2D { x: 0, y: 0 }
    }
}

/// The rotation of a vector of squared length at most `(2 FP)^2` by a
/// cosine/sine pair of squared length at most `FP^2` again has squared
/// length at most `(2 FP)^2`: truncation toward zero only shrinks each
/// component, and the exact rotation preserves `x^2 + y^2` up to the
/// pair's length.
proof fn lemma_rotation_norm(x: int, y: int, c: int, s: int, nx: int, ny: int)
    requires
        x * x + y * y <= 4 * FP_SQ,
        c * c + s * s <= FP_SQ,
        nx == (if x * c - y * s >= 0 {
            (x * c - y * s) / (FP as int)
        } else {
            -((-(x * c - y * s)) / (FP as int))
        }),
        ny == (if x * s + y * c >= 0 {
            (x * s + y * c) / (FP as int)
        } else {
            -((-(x * s + y * c)) / (FP as int))
        }),
    ensures
        nx * nx + ny * ny <= 4 * FP_SQ,
{
    let u = x * c - y * s;
    let w = x * s + y * c;
    let a = x * c;
    let b = y * s;
    let d = x * s;
    let e = y * c;
    assert(u * u == a * a - 2 * (a * b) + b * b) by (nonlinear_arith)
        requires
            u == a - b,
    {}
    assert(w * w == d * d + 2 * (d * e) + e * e) by (nonlinear_arith)
        requires
            w == d + e,
    {}
    assert(a * b == d * e && a * a == (x * x) * (c * c) && b * b == (y * y) * (s * s) && d * d == (
    x * x) * (s * s) && e * e == (y * y) * (c * c)) by (nonlinear_arith)
        requires
            a == x * c,
            b == y * s,
            d == x * s,
            e == y * c,
    {}
    assert((x * x + y * y) * (c * c + s * s) == (x * x) * (c * c) + (x * x) * (s * s) + (y * y) * (
    c * c) + (y * y) * (s * s)) by (nonlinear_arith);
    assert(u * u + w * w == (x * x + y * y) * (c * c + s * s));
    assert(0 <= x * x + y * y && 0 <= c * c + s * s) by (nonlinear_arith);
    assert(u * u + w * w <= (4 * FP_SQ) * FP_SQ) by (nonlinear_arith)
        requires
            u * u + w * w == (x * x + y * y) * (c * c + s * s),
            x * x + y * y <= 4 * FP_SQ,
            c * c + s * s <= FP_SQ,
            0 <= x * x + y * y,
            0 <= c * c + s * s,
    {}
    lemma_trunc_div_sq_bound(u, nx);
    lemma_trunc_div_sq_bound(w, ny);
    assert((nx * nx + ny * ny) * FP_SQ <= u * u + w * w) by (nonlinear_arith)
        requires
            nx * nx * FP_SQ <= u * u,
            ny * ny * FP_SQ <= w * w,
    {}
    assert(nx * nx + ny * ny <= 4 * FP_SQ) by (nonlinear_arith)
        requires
            (nx * nx + ny * ny) * FP_SQ <= (4 * FP_SQ) * FP_SQ,
            FP_SQ > 0,
    {}
}

/// Squaring a value truncated by `FP` stays below the square of the
/// original divided by `FP^2`.
proof fn lemma_trunc_div_sq_bound(u: int, n: int)
    requires
        n == (if u >= 0 {
            u / (FP as int)
        } else {
            -((-u) / (FP as int))
        }),
    ensures
        n * n * FP_SQ <= u * u,
{
    let a = if u >= 0 { u } else { -u };
    let m = a / (FP as int);
    vstd::arithmetic::div_mod::lemma_div_pos_is_pos(a, FP as int);
    vstd::arithmetic::div_mod::lemma_fundamental_div_mod(a, FP as int);
    vstd::arithmetic::div_mod::lemma_mod_division_less_than_divisor(a, FP as int);
    assert(m * (FP as int) <= a);
    assert(m * m * FP_SQ <= a * a) by (nonlinear_arith)
        requires
            0 <= m,
            0 <= a,
            m * (FP as int) <= a,
            FP_SQ == (FP as int) * (FP as int),
    {}
    assert(n * n == m * m && a * a == u * u) by (nonlinear_arith)
        requires
            n == m || n == -m,
            a == u || a == -u,
    {}
}

} // verus!
