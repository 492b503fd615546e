use vstd::prelude::*;
use crate::fixed::{
    FP, FP_SQ, SENTINEL, POS_MAX, RAY_MAX, spec_abs, spec_div_up, spec_cell_of, spec_frac_of,
    cell_of, frac_of,
};
use crate::grid::{Grid, GridView};
use crate::material::Material;

verus! {

/// The outcome of one DDA walk, in the mathematical model: the cell the
/// ray stopped in, which kind of grid line was crossed last (`side` 0 for
/// a vertical line, 1 for a horizontal one), and the material found there.
pub ghost struct WalkHit {
    pub map_x: int,
    pub map_y: int,
    pub side: int,
    pub material: Material,
}

/// The step direction along one axis, from the sign of the ray component.
pub open spec fn spec_step_of(ray: int) -> int {
    if ray < 0 {
        -1
    } else {
        1
    }
}

/// The fixed-point distance the ray travels between two grid lines of one
/// axis: `|1 / ray|`, or the sentinel when the component is zero, which
/// keeps that axis from ever winning a step comparison.
pub open spec fn spec_delta_of(ray: int) -> int {
    if ray == 0 {
        SENTINEL as int
    } else {
        FP_SQ as int / spec_abs(ray)
    }
}

/// The fixed-point distance from the start position to the first grid
/// line of one axis in the step direction.
pub open spec fn spec_side_init(ray: int, frac: int) -> int {
    if ray == 0 {
        SENTINEL as int
    } else if ray < 0 {
        frac * spec_delta_of(ray) / (FP as int)
    } else {
        (FP as int - frac) * spec_delta_of(ray) / (FP as int)
    }
}

/// How many cells a coordinate can still move in its step direction
/// before it leaves `[0, extent)`; zero once it is outside on that side.
/// Every step of the walk from an in-bounds cell strictly lowers the sum
/// of the two axes' counts, which bounds the walk.
pub open spec fn remaining(c: int, step: int, extent: int) -> nat {
    if step == 1 {
        if c >= extent {
            0
        } else {
            (extent - c) as nat
        }
    } else {
        if c < 0 {
            0
        } else {
            (c + 1) as nat
        }
    }
}

/// The DDA walk itself: advance whichever axis has the smaller
/// accumulated side distance, then stop as soon as the entered cell is
/// opaque. It always stops: the grid answers `OutOfBounds`, which is
/// opaque, outside its extent, and each step moves one coordinate
/// monotonically toward that border.
pub open spec fn dda_walk(
    g: GridView,
    map_x: int,
    map_y: int,
    sdx: int,
    sdy: int,
    ddx: int,
    ddy: int,
    step_x: int,
    step_y: int,
) -> WalkHit
    decreases remaining(map_x, step_x, g.width) + remaining(map_y, step_y, g.height),
        when g.wf() && (step_x == 1 || step_x == -1) && (step_y == 1 || step_y == -1)
{
    if sdx < sdy {
        let nx = map_x + step_x;
        let m = g.at(nx, map_y);
        if m != Material::Empty {
            WalkHit { map_x: nx, map_y: map_y, side: 0, material: m }
        } else {
            dda_walk(g, nx, map_y, sdx + ddx, sdy, ddx, ddy, step_x, step_y)
        }
    } else {
        let ny = map_y + step_y;
        let m = g.at(map_x, ny);
        if m != Material::Empty {
            WalkHit { map_x: map_x, map_y: ny, side: 1, material: m }
        } else {
            dda_walk(g, map_x, ny, sdx, sdy + ddy, ddx, ddy, step_x, step_y)
        }
    }
}

/// The walk a ray cast from `(pos_x, pos_y)` toward `(ray_x, ray_y)`
/// performs, all in fixed-point.
pub open spec fn cast_model(g: GridView, pos_x: int, pos_y: int, ray_x: int, ray_y: int) -> WalkHit {
    dda_walk(
        g,
        spec_cell_of(pos_x),
        spec_cell_of(pos_y),
        spec_side_init(ray_x, spec_frac_of(pos_x)),
        spec_side_init(ray_y, spec_frac_of(pos_y)),
        spec_delta_of(ray_x),
        spec_delta_of(ray_y),
        spec_step_of(ray_x),
        spec_step_of(ray_y),
    )
}

/// The distance from the position to the crossed grid line along one
/// axis, in fixed-point, nonnegative at a hit: the wall face sits at
/// `map_c` for a positive step and at `map_c + 1` for a negative one.
pub open spec fn spec_perp_num(map_c: int, pos_c: int, step: int) -> int {
    if step == 1 {
        map_c * (FP as int) - pos_c
    } else {
        pos_c - map_c * (FP as int) - FP
    }
}

/// The perpendicular wall distance of a cast, in fixed-point: the
/// distance to the crossed grid line divided by the matching ray
/// component, which projects the hit onto the camera's forward axis and
/// avoids the fisheye artifact of a Euclidean distance. The division
/// rounds up, so a hit beyond the crossed line is never reported at
/// distance zero.
pub open spec fn cast_dist(g: GridView, pos_x: int, pos_y: int, ray_x: int, ray_y: int) -> int {
    let h = cast_model(g, pos_x, pos_y, ray_x, ray_y);
    if h.side == 0 {
        spec_div_up(spec_perp_num(h.map_x, pos_x, spec_step_of(ray_x)) * (FP as int), spec_abs(ray_x))
    } else {
        spec_div_up(spec_perp_num(h.map_y, pos_y, spec_step_of(ray_y)) * (FP as int), spec_abs(ray_y))
    }
}

/// Per-column hit data: perpendicular wall distance (fixed-point), the
/// material hit, which kind of grid line was crossed (0 vertical, 1
/// horizontal), and the step directions the walk used.
pub struct RayHit {
    pub perp_dist: i64,
    pub material: Material,
    pub side: u8,
    pub step_x: i64,
    pub step_y: i64,
}

/// `a * b <= c * d` for nonnegative factors bounded factor-wise.
proof fn lemma_mul_le(a: int, b: int, c: int, d: int)
    requires
        0 <= a <= c,
        0 <= b <= d,
    ensures
        a * b <= c * d,
{
    assert(a * b <= c * d) by (nonlinear_arith)
        requires
            0 <= a <= c,
            0 <= b <= d,
    {}
}

/// Bounds of the initial side distance: at most one full per-axis step.
proof fn lemma_side_init_bound(ray: int, frac: int)
    requires
        ray != 0,
        1 <= spec_abs(ray) <= RAY_MAX,
        0 <= frac < FP,
    ensures
        0 <= spec_side_init(ray, frac) <= spec_delta_of(ray),
        1 <= spec_delta_of(ray) <= FP_SQ,
{
    let a = spec_abs(ray);
    let dd = FP_SQ as int / a;
    vstd::arithmetic::div_mod::lemma_div_nonincreasing(FP_SQ as int, a);
    vstd::arithmetic::div_mod::lemma_div_is_ordered_by_denominator(FP_SQ as int, a, RAY_MAX as int);
    assert(FP_SQ as int / (RAY_MAX as int) == 8192);
    let num = if ray < 0 { frac } else { FP as int - frac };
    assert(0 <= num <= FP);
    lemma_mul_le(num, dd, FP as int, dd);
    vstd::arithmetic::div_mod::lemma_div_is_ordered(num * dd, (FP as int) * dd, FP as int);
    vstd::arithmetic::mul::lemma_mul_is_commutative(FP as int, dd);
    vstd::arithmetic::div_mod::lemma_div_multiples_vanish(dd, FP as int);
    vstd::arithmetic::mul::lemma_mul_nonnegative(num, dd);
    vstd::arithmetic::div_mod::lemma_div_pos_is_pos(num * dd, FP as int);
}

/// A walk whose ray points exactly along the positive y axis advances y
/// alone, stops at the first opaque cell of the start column, and never
/// moves in x.
proof fn lemma_walk_pos_y(g: GridView, mx: int, my: int, sdy: int)
    requires
        g.wf(),
        0 <= sdy,
        sdy + remaining(my, 1, g.height) * (FP as int) < SENTINEL,
    ensures
        ({
            let w = dda_walk(g, mx, my, SENTINEL as int, sdy, SENTINEL as int, FP as int, 1, 1);
            &&& w.side == 1
            &&& w.map_x == mx
            &&& w.map_y > my
            &&& w.material == g.at(mx, w.map_y)
            &&& w.material != Material::Empty
            &&& forall|j: int| my < j < w.map_y ==> g.at(mx, j) == Material::Empty
        }),
    decreases remaining(my, 1, g.height),
{
    let w = dda_walk(g, mx, my, SENTINEL as int, sdy, SENTINEL as int, FP as int, 1, 1);
    assert(remaining(my, 1, g.height) * (FP as int) >= 0) by (nonlinear_arith)
        requires
            remaining(my, 1, g.height) >= 0,
    {}
    let m = g.at(mx, my + 1);
    if m != Material::Empty {
    } else {
        assert(remaining(my, 1, g.height) == remaining(my + 1, 1, g.height) + 1);
        assert(remaining(my, 1, g.height) * (FP as int) == remaining(my + 1, 1, g.height) * (
        FP as int) + FP) by (nonlinear_arith)
            requires
                remaining(my, 1, g.height) == remaining(my + 1, 1, g.height) + 1,
        {}
        lemma_walk_pos_y(g, mx, my + 1, sdy + FP);
    }
}

/// A ray aimed exactly along the positive y axis (the unit direction
/// `(0, 1)` in fixed-point) reports, with no rounding and no fisheye
/// correction error, exactly the distance from the start position to the
/// near face of the first opaque cell above it in its column.
pub proof fn lemma_axis_ray_exact(g: GridView, pos_x: int, pos_y: int)
    requires
        g.wf(),
        -POS_MAX <= pos_x <= POS_MAX,
        -POS_MAX <= pos_y <= POS_MAX,
    ensures
        ({
            let h = cast_model(g, pos_x, pos_y, 0, FP as int);
            &&& h.side == 1
            &&& h.map_x == spec_cell_of(pos_x)
            &&& h.material == g.at(h.map_x, h.map_y)
            &&& h.material != Material::Empty
            &&& forall|j: int| spec_cell_of(pos_y) < j < h.map_y ==> g.at(h.map_x, j)
                == Material::Empty
            &&& cast_dist(g, pos_x, pos_y, 0, FP as int) == h.map_y * (FP as int) - pos_y
        }),
{
    let mx = spec_cell_of(pos_x);
    let my = spec_cell_of(pos_y);
    let frac = spec_frac_of(pos_y);
    assert(FP_SQ as int == (FP as int) * (FP as int));
    vstd::arithmetic::div_mod::lemma_div_multiples_vanish(FP as int, FP as int);
    assert(spec_delta_of(FP as int) == FP);
    assert(spec_side_init(FP as int, frac) == ((FP as int) - frac) * (FP as int) / (FP as int));
    vstd::arithmetic::div_mod::lemma_div_multiples_vanish((FP as int) - frac, FP as int);
    vstd::arithmetic::mul::lemma_mul_is_commutative((FP as int) - frac, FP as int);
    assert(spec_side_init(FP as int, frac) == (FP as int) - frac);
    assert(remaining(my, 1, g.height) <= 8193);
    assert(remaining(my, 1, g.height) * (FP as int) <= 8193 * (FP as int)) by (nonlinear_arith)
        requires
            0 <= remaining(my, 1, g.height) <= 8193,
    {}
    lemma_walk_pos_y(g, mx, my, (FP as int) - frac);
    let h = cast_model(g, pos_x, pos_y, 0, FP as int);
    assert(h.map_y > my);
    let num = spec_perp_num(h.map_y, pos_y, 1);
    assert(num == h.map_y * (FP as int) - pos_y);
    vstd::arithmetic::div_mod::lemma_div_multiples_vanish_fancy(num, (FP as int) - 1, FP as int);
    assert((FP as int) * num == num * (FP as int)) by (nonlinear_arith);
    assert(spec_div_up(num * (FP as int), FP as int) == num);
}

/// A walk whose ray points exactly along the negative x axis advances x
/// alone, downward, stops at the first opaque cell of the start row, and
/// never moves in y.
proof fn lemma_walk_neg_x(g: GridView, mx: int, my: int, sdx: int)
    requires
        g.wf(),
        0 <= sdx,
        sdx + remaining(mx, -1, g.width) * (FP as int) < SENTINEL,
    ensures
        ({
            let w = dda_walk(g, mx, my, sdx, SENTINEL as int, FP as int, SENTINEL as int, -1, 1);
            &&& w.side == 0
            &&& w.map_y == my
            &&& w.map_x < mx
            &&& w.material == g.at(w.map_x, my)
            &&& w.material != Material::Empty
            &&& forall|j: int| w.map_x < j < mx ==> g.at(j, my) == Material::Empty
        }),
    decreases remaining(mx, -1, g.width),
{
    let w = dda_walk(g, mx, my, sdx, SENTINEL as int, FP as int, SENTINEL as int, -1, 1);
    assert(remaining(mx, -1, g.width) * (FP as int) >= 0) by (nonlinear_arith)
        requires
            remaining(mx, -1, g.width) >= 0,
    {}
    let m = g.at(mx - 1, my);
    if m != Material::Empty {
    } else {
        assert(remaining(mx, -1, g.width) == remaining(mx - 1, -1, g.width) + 1);
        assert(remaining(mx, -1, g.width) * (FP as int) == remaining(mx - 1, -1, g.width) * (
        FP as int) + FP) by (nonlinear_arith)
            requires
                remaining(mx, -1, g.width) == remaining(mx - 1, -1, g.width) + 1,
        {}
        lemma_walk_neg_x(g, mx - 1, my, sdx + FP);
    }
}

/// A ray aimed exactly along the negative x axis (the unit direction
/// `(-1, 0)` in fixed-point) reports, with no rounding and no fisheye
/// correction error, exactly the distance from the start position to the
/// near face of the first opaque cell on its left in its row.
pub proof fn lemma_axis_ray_exact_neg_x(g: GridView, pos_x: int, pos_y: int)
    requires
        g.wf(),
        -POS_MAX <= pos_x <= POS_MAX,
        -POS_MAX <= pos_y <= POS_MAX,
    ensures
        ({
            let h = cast_model(g, pos_x, pos_y, -(FP as int), 0);
            &&& h.side == 0
            &&& h.map_y == spec_cell_of(pos_y)
            &&& h.map_x < spec_cell_of(pos_x)
            &&& h.material == g.at(h.map_x, h.map_y)
            &&& h.material != Material::Empty
            &&& forall|j: int| h.map_x < j < spec_cell_of(pos_x) ==> g.at(j, h.map_y)
                == Material::Empty
            &&& cast_dist(g, pos_x, pos_y, -(FP as int), 0) == pos_x - (h.map_x + 1) * (FP as int)
        }),
{
    let mx = spec_cell_of(pos_x);
    let my = spec_cell_of(pos_y);
    let frac = spec_frac_of(pos_x);
    assert(FP_SQ as int == (FP as int) * (FP as int));
    vstd::arithmetic::div_mod::lemma_div_multiples_vanish(FP as int, FP as int);
    assert(spec_abs(-(FP as int)) == FP);
    assert(spec_delta_of(-(FP as int)) == FP);
    vstd::arithmetic::div_mod::lemma_div_multiples_vanish(frac, FP as int);
    vstd::arithmetic::mul::lemma_mul_is_commutative(frac, FP as int);
    assert(spec_side_init(-(FP as int), frac) == frac);
    vstd::arithmetic::div_mod::lemma_fundamental_div_mod(pos_x, FP as int);
    vstd::arithmetic::div_mod::lemma_mod_division_less_than_divisor(pos_x, FP as int);
    assert(remaining(mx, -1, g.width) <= 4097);
    assert(remaining(mx, -1, g.width) * (FP as int) <= 4097 * (FP as int)) by (nonlinear_arith)
        requires
            0 <= remaining(mx, -1, g.width) <= 4097,
    {}
    lemma_walk_neg_x(g, mx, my, frac);
    let h = cast_model(g, pos_x, pos_y, -(FP as int), 0);
    assert(h.map_x < mx);
    let num = spec_perp_num(h.map_x, pos_x, -1);
    assert(num == pos_x - h.map_x * (FP as int) - FP);
    assert(num >= 0);
    vstd::arithmetic::div_mod::lemma_div_multiples_vanish_fancy(num, (FP as int) - 1, FP as int);
    assert((FP as int) * num == num * (FP as int)) by (nonlinear_arith);
    assert(spec_div_up(num * (FP as int), FP as int) == num);
}

/// Casts one ray through the grid with the DDA walk and returns the hit.
///
/// The returned fields are exactly those of the mathematical walk
/// `cast_model` / `cast_dist`, the material is never `Empty`, the
/// distance is never negative, and it is strictly positive whenever the
/// start position does not sit exactly on a grid line.
#[verifier::loop_isolation(false)]
#[verifier::rlimit(100)]
pub fn cast_ray(grid: &Grid, pos_x: i64, pos_y: i64, ray_x: i64, ray_y: i64) -> (r: RayHit)
    requires
        grid@.wf(),
        -POS_MAX <= pos_x <= POS_MAX,
        -POS_MAX <= pos_y <= POS_MAX,
        -RAY_MAX <= ray_x <= RAY_MAX,
        -RAY_MAX <= ray_y <= RAY_MAX,
        ray_x != 0 || ray_y != 0,
    ensures
        r.material == cast_model(grid@, pos_x as int, pos_y as int, ray_x as int, ray_y as int).material,
        r.side == cast_model(grid@, pos_x as int, pos_y as int, ray_x as int, ray_y as int).side,
        r.material != Material::Empty,
        r.perp_dist == cast_dist(grid@, pos_x as int, pos_y as int, ray_x as int, ray_y as int),
        0 <= r.perp_dist,
        spec_frac_of(pos_x as int) != 0 && spec_frac_of(pos_y as int) != 0 ==> r.perp_dist >= 1,
        r.step_x == spec_step_of(ray_x as int),
        r.step_y == spec_step_of(ray_y as int),
{
    let ghost g = grid@;
    let mx0 = cell_of(pos_x);
    let my0 = cell_of(pos_y);
    let fx = frac_of(pos_x);
    let fy = frac_of(pos_y);

    let step_x: i64;
    let ddx: i64;
    let mut sdx: i64;
    if ray_x == 0 {
        step_x = 1;
        ddx = SENTINEL;
        sdx = SENTINEL;
    } else {
        let ar = if ray_x < 0 { -ray_x } else { ray_x };
        proof { lemma_side_init_bound(ray_x as int, fx as int); }
        ddx = FP_SQ / ar;
        if ray_x < 0 {
            step_x = -1;
            sdx = fx * ddx / FP;
        } else {
            step_x = 1;
            sdx = (FP - fx) * ddx / FP;
        }
    }

    let step_y: i64;
    let ddy: i64;
    let mut sdy: i64;
    if ray_y == 0 {
        step_y = 1;
        ddy = SENTINEL;
        sdy = SENTINEL;
    } else {
        let ar = if ray_y < 0 { -ray_y } else { ray_y };
        proof { lemma_side_init_bound(ray_y as int, fy as int); }
        ddy = FP_SQ / ar;
        if ray_y < 0 {
            step_y = -1;
            sdy = fy * ddy / FP;
        } else {
            step_y = 1;
            sdy = (FP - fy) * ddy / FP;
        }
    }

    let ghost target = cast_model(g, pos_x as int, pos_y as int, ray_x as int, ray_y as int);
    let ghost sdx0 = sdx as int;
    let ghost sdy0 = sdy as int;
    let ghost r0 = remaining(mx0 as int, step_x as int, g.width) + remaining(
        my0 as int,
        step_y as int,
        g.height,
    );

    let mut map_x = mx0;
    let mut map_y = my0;
    let mut hit = false;
    let mut side: u8 = 0;
    let mut mat = Material::Empty;
    let ghost mut steps: int = 0;

    proof {
        assert(r0 <= 16386) by {
            assert(remaining(mx0 as int, step_x as int, g.width) <= 8193);
            assert(remaining(my0 as int, step_y as int, g.height) <= 8193);
        }
    }

    while !hit
        invariant
            step_x == spec_step_of(ray_x as int),
            step_y == spec_step_of(ray_y as int),
            ddx == spec_delta_of(ray_x as int),
            ddy == spec_delta_of(ray_y as int),
            ray_x == 0 ==> sdx == SENTINEL,
            ray_y == 0 ==> sdy == SENTINEL,
            ray_x != 0 ==> 1 <= ddx <= FP_SQ && 0 <= sdx0 <= ddx && 0 <= sdx <= sdx0 + steps * ddx,
            ray_y != 0 ==> 1 <= ddy <= FP_SQ && 0 <= sdy0 <= ddy && 0 <= sdy <= sdy0 + steps * ddy,
            side == 0 || side == 1,
            0 <= steps <= r0 + 1,
            !hit ==> remaining(map_x as int, step_x as int, g.width) + remaining(
                map_y as int,
                step_y as int,
                g.height,
            ) + steps == r0,
            step_x == 1 ==> mx0 <= map_x <= mx0 + steps,
            step_x == -1 ==> mx0 - steps <= map_x <= mx0,
            step_y == 1 ==> my0 <= map_y <= my0 + steps,
            step_y == -1 ==> my0 - steps <= map_y <= my0,
            !hit ==> dda_walk(
                g,
                map_x as int,
                map_y as int,
                sdx as int,
                sdy as int,
                ddx as int,
                ddy as int,
                step_x as int,
                step_y as int,
            ) == target,
            hit ==> map_x == target.map_x && map_y == target.map_y && side == target.side && mat
                == target.material && mat != Material::Empty,
            hit && side == 0 ==> ray_x != 0 && (step_x == 1 ==> map_x > mx0) && (step_x == -1
                ==> map_x < mx0),
            hit && side == 1 ==> ray_y != 0 && (step_y == 1 ==> map_y > my0) && (step_y == -1
                ==> map_y < my0),
        decreases (if hit { 0int } else { 1int }) + remaining(map_x as int, step_x as int, g.width)
            + remaining(map_y as int, step_y as int, g.height),
    {
        let ghost omx = map_x as int;
        let ghost omy = map_y as int;
        let ghost osdx = sdx as int;
        let ghost osdy = sdy as int;
        proof {
            if ray_x != 0 {
                lemma_mul_le(steps, ddx as int, 16386, FP_SQ as int);
            }
            if ray_y != 0 {
                lemma_mul_le(steps, ddy as int, 16386, FP_SQ as int);
            }
        }
        if sdx < sdy {
            proof {
                assert(ray_x != 0);
            }
            sdx = sdx + ddx;
            map_x = map_x + step_x;
            side = 0;
        } else {
            proof {
                assert(ray_y != 0);
            }
            sdy = sdy + ddy;
            map_y = map_y + step_y;
            side = 1;
        }
        proof {
            steps = steps + 1;
            assert(steps * ddx == (steps - 1) * ddx + ddx) by (nonlinear_arith);
            assert(steps * ddy == (steps - 1) * ddy + ddy) by (nonlinear_arith);
        }
        let m = grid.get(map_x, map_y);
        if m.is_opaque() {
            hit = true;
            mat = m;
        }
        proof {
            assert(dda_walk(
                g,
                omx,
                omy,
                osdx,
                osdy,
                ddx as int,
                ddy as int,
                step_x as int,
                step_y as int,
            ) == target);
        }
    }

    let aray: i64;
    let num: i64;
    if side == 0 {
        num = if step_x == 1 {
            map_x * FP - pos_x
        } else {
            pos_x - map_x * FP - FP
        };
        aray = if ray_x < 0 { -ray_x } else { ray_x };
    } else {
        num = if step_y == 1 {
            map_y * FP - pos_y
        } else {
            pos_y - map_y * FP - FP
        };
        aray = if ray_y < 0 { -ray_y } else { ray_y };
    }
    proof {
        if fx != 0 && fy != 0 {
            assert(num >= 1);
            assert(num * FP >= FP) by (nonlinear_arith)
                requires
                    num >= 1,
            {}
            vstd::arithmetic::div_mod::lemma_div_is_ordered(
                aray as int,
                num * FP + aray - 1,
                aray as int,
            );
            vstd::arithmetic::div_mod::lemma_div_by_self(aray as int);
        }
    }
    let dist = (num * FP + aray - 1) / aray;

    RayHit { perp_dist: dist, material: mat, side, step_x, step_y }
}

/// The camera-space x coordinate of a screen column, in fixed-point:
/// `2 * column / width - 1`, running from -1 at the left edge toward 1.
pub open spec fn spec_camera_x(col: int, width: int) -> int {
    2 * (FP as int) * col / width - FP
}

/// The x component of the ray cast for a screen column: the facing
/// direction plus the camera plane scaled by the column's camera-space
/// coordinate.
pub open spec fn spec_ray_x(p: crate::player::Player, col: int, width: int) -> int {
    p.direction.x + crate::fixed::spec_fp_mul(p.camera_plane.x as int, spec_camera_x(col, width))
}

/// The y component of the ray cast for a screen column.
pub open spec fn spec_ray_y(p: crate::player::Player, col: int, width: int) -> int {
    p.direction.y + crate::fixed::spec_fp_mul(p.camera_plane.y as int, spec_camera_x(col, width))
}

/// A vector of squared length at most `(2 FP)^2` has components of
/// magnitude at most `2 FP`.
proof fn lemma_component_bound(v: crate::math::Vector2D)
    requires
        v.spec_norm_sq() <= 4 * FP_SQ,
    ensures
        -2 * FP <= v.x <= 2 * FP,
        -2 * FP <= v.y <= 2 * FP,
{
    assert(v.x * v.x <= 4 * FP_SQ && v.y * v.y <= 4 * FP_SQ) by (nonlinear_arith)
        requires
            v.x * v.x + v.y * v.y <= 4 * FP_SQ,
    {}
    assert(-2 * FP <= v.x <= 2 * FP && -2 * FP <= v.y <= 2 * FP) by (nonlinear_arith)
        requires
            v.x * v.x <= 4 * FP_SQ,
            v.y * v.y <= 4 * FP_SQ,
            FP_SQ == FP * FP,
            FP == 65536,
    {}
}

/// Derives the ray for one screen column and casts it. Returns `None`
/// exactly when the derived ray has no nonzero component, which a camera
/// with a plane independent of its direction never produces.
pub fn cast_column(grid: &Grid, player: &crate::player::Player, column: usize, width: usize) -> (r:
    Option<RayHit>)
    requires
        grid@.wf(),
        player.wf(),
        0 < width <= 4096,
        column < width,
    ensures
        ({
            let rx = spec_ray_x(*player, column as int, width as int);
            let ry = spec_ray_y(*player, column as int, width as int);
            let px = player.position.x as int;
            let py = player.position.y as int;
            match r {
                None => rx == 0 && ry == 0,
                Some(h) => {
                    &&& (rx != 0 || ry != 0)
                    &&& h.material == cast_model(grid@, px, py, rx, ry).material
                    &&& h.side == cast_model(grid@, px, py, rx, ry).side
                    &&& h.material != Material::Empty
                    &&& h.perp_dist == cast_dist(grid@, px, py, rx, ry)
                    &&& 0 <= h.perp_dist
                    &&& spec_frac_of(px) != 0 && spec_frac_of(py) != 0 ==> h.perp_dist >= 1
                },
            }
        }),
{
    proof {
        vstd::arithmetic::div_mod::lemma_div_pos_is_pos(
            2 * (FP as int) * (column as int),
            width as int,
        );
        assert(2 * (FP as int) * (column as int) < (width as int) * (2 * (FP as int)))
            by (nonlinear_arith)
            requires
                column < width,
                FP == 65536,
        {}
        assert(0 <= 2 * (FP as int) * (column as int) <= 0x2000_0000_0000) by (nonlinear_arith)
            requires
                0 <= column <= 4096,
                FP == 65536,
        {}
        vstd::arithmetic::div_mod::lemma_multiply_divide_lt(
            2 * (FP as int) * (column as int),
            width as int,
            2 * (FP as int),
        );
        lemma_component_bound(player.direction);
        lemma_component_bound(player.camera_plane);
    }
    let cx = 2 * FP * (column as i64) / (width as i64) - FP;
    proof {
        assert(-FP <= cx < FP);
        assert(spec_abs(player.camera_plane.x as int * cx as int) <= 2 * FP_SQ && spec_abs(
            player.camera_plane.y as int * cx as int,
        ) <= 2 * FP_SQ) by (nonlinear_arith)
            requires
                -2 * FP <= player.camera_plane.x <= 2 * FP,
                -2 * FP <= player.camera_plane.y <= 2 * FP,
                -FP <= cx <= FP,
                FP_SQ == FP * FP,
                FP == 65536,
        {}
    }
    let ox = crate::fixed::fp_mul(player.camera_plane.x, cx);
    let oy = crate::fixed::fp_mul(player.camera_plane.y, cx);
    proof {
        vstd::arithmetic::div_mod::lemma_div_is_ordered(
            spec_abs(player.camera_plane.x as int * cx as int),
            2 * FP_SQ,
            FP as int,
        );
        vstd::arithmetic::div_mod::lemma_div_is_ordered(
            spec_abs(player.camera_plane.y as int * cx as int),
            2 * FP_SQ,
            FP as int,
        );
        assert(2 * FP_SQ / (FP as int) == 2 * FP);
    }
    let ray_x = player.direction.x + ox;
    let ray_y = player.direction.y + oy;
    if ray_x == 0 && ray_y == 0 {
        None
    } else {
        Some(cast_ray(grid, player.position.x, player.position.y, ray_x, ray_y))
    }
}

/// What one frame cell holds after the raycast pass: within the wall
/// stripe of its column it holds that column's shaded wall glyph over a
/// default background; everywhere else it keeps what the pass found
/// there (the cleared two-tone backdrop).
pub open spec fn spec_frame_cell(
    p: crate::player::Player,
    g: GridView,
    w: int,
    h: int,
    x: int,
    y: int,
    base: crate::buffer::Cell,
) -> crate::buffer::Cell {
    let rx = spec_ray_x(p, x, w);
    let ry = spec_ray_y(p, x, w);
    if rx == 0 && ry == 0 {
        base
    } else {
        let hit = cast_model(g, p.position.x as int, p.position.y as int, rx, ry);
        let dist = cast_dist(g, p.position.x as int, p.position.y as int, rx, ry);
        let span = crate::shade::spec_stripe(h, dist);
        if span.0 <= y < span.1 {
            let c = hit.material.spec_base_color();
            crate::buffer::Cell {
                glyph: crate::shade::spec_glyph(dist),
                fg: crate::buffer::Color::Rgb(
                    crate::shade::spec_shade_channel(c.0 as int, hit.side, dist) as u8,
                    crate::shade::spec_shade_channel(c.1 as int, hit.side, dist) as u8,
                    crate::shade::spec_shade_channel(c.2 as int, hit.side, dist) as u8,
                ),
                bg: crate::buffer::Color::Reset,
            }
        } else {
            base
        }
    }
}

/// Renders one full frame: casts a ray for every screen column and draws
/// the shaded vertical wall stripe it hits into the frame surface, whose
/// extent is preserved. Every cell afterward is exactly what the
/// pipeline model prescribes for it, over whatever `clear` painted.
pub fn render_frame(
    player: &crate::player::Player,
    grid: &Grid,
    frame: &mut crate::buffer::FrameBuffer,
)
    requires
        player.wf(),
        grid@.wf(),
        old(frame)@.wf(),
        0 < old(frame)@.width <= 4096,
    ensures
        final(frame)@.wf(),
        final(frame)@.width == old(frame)@.width,
        final(frame)@.height == old(frame)@.height,
        forall|i: int, j: int|
            0 <= i < final(frame)@.width && 0 <= j < final(frame)@.height ==> final(frame)@.cell(
                i,
                j,
            ) == spec_frame_cell(
                *player,
                grid@,
                final(frame)@.width,
                final(frame)@.height,
                i,
                j,
                old(frame)@.cell(i, j),
            ),
{
    let ghost p = *player;
    let ghost g = grid@;
    let ghost v0 = old(frame)@;
    let (width, height) = frame.size();
    let mut x: usize = 0;
    while x < width
        invariant
            player.wf(),
            grid@.wf(),
            p == *player,
            g == grid@,
            frame@.wf(),
            frame@.width == width,
            frame@.height == height,
            v0.width == width,
            v0.height == height,
            0 < width <= 4096,
            x <= width,
            forall|i: int, j: int|
                0 <= i < width && 0 <= j < height && i < x ==> frame@.cell(i, j)
                    == spec_frame_cell(p, g, width as int, height as int, i, j, v0.cell(i, j)),
            forall|i: int, j: int|
                0 <= i < width && 0 <= j < height && i >= x ==> frame@.cell(i, j) == v0.cell(i, j),
        decreases width - x,
    {
        match cast_column(grid, player, x, width) {
            None => {},
            Some(hit) => {
                let (lo, hi) = crate::shade::stripe(height, hit.perp_dist);
                let (cr, cg, cb) = crate::shade::shade_color(hit.material, hit.side, hit.perp_dist);
                let glyph = crate::shade::glyph_for(hit.perp_dist);
                let color = crate::buffer::Color::Rgb(cr, cg, cb);
                let mut y = lo;
                while y < hi
                    invariant
                        frame@.wf(),
                        frame@.width == width,
                        frame@.height == height,
                        x < width,
                        lo <= y <= hi,
                        hi <= height,
                        lo == crate::shade::spec_stripe(
                            height as int,
                            hit.perp_dist as int,
                        ).0,
                        hi == crate::shade::spec_stripe(
                            height as int,
                            hit.perp_dist as int,
                        ).1,
                        ({
                            let rx = spec_ray_x(p, x as int, width as int);
                            let ry = spec_ray_y(p, x as int, width as int);
                            &&& !(rx == 0 && ry == 0)
                            &&& hit.side == cast_model(
                                g,
                                p.position.x as int,
                                p.position.y as int,
                                rx,
                                ry,
                            ).side
                            &&& hit.material == cast_model(
                                g,
                                p.position.x as int,
                                p.position.y as int,
                                rx,
                                ry,
                            ).material
                            &&& hit.perp_dist == cast_dist(
                                g,
                                p.position.x as int,
                                p.position.y as int,
                                rx,
                                ry,
                            )
                        }),
                        glyph == crate::shade::spec_glyph(hit.perp_dist as int),
                        color == (crate::buffer::Color::Rgb(
                            crate::shade::spec_shade_channel(
                                hit.material.spec_base_color().0 as int,
                                hit.side as int,
                                hit.perp_dist as int,
                            ) as u8,
                            crate::shade::spec_shade_channel(
                                hit.material.spec_base_color().1 as int,
                                hit.side as int,
                                hit.perp_dist as int,
                            ) as u8,
                            crate::shade::spec_shade_channel(
                                hit.material.spec_base_color().2 as int,
                                hit.side as int,
                                hit.perp_dist as int,
                            ) as u8,
                        )),
                        forall|i: int, j: int|
                            0 <= i < width && 0 <= j < height && i < x ==> frame@.cell(i, j)
                                == spec_frame_cell(
                                p,
                                g,
                                width as int,
                                height as int,
                                i,
                                j,
                                v0.cell(i, j),
                            ),
                        forall|j: int|
                            0 <= j < height && lo <= j < y ==> frame@.cell(x as int, j)
                                == (crate::buffer::Cell {
                                glyph,
                                fg: color,
                                bg: crate::buffer::Color::Reset,
                            }),
                        forall|j: int|
                            0 <= j < height && !(lo <= j < y) ==> frame@.cell(x as int, j)
                                == v0.cell(x as int, j),
                        forall|i: int, j: int|
                            0 <= i < width && 0 <= j < height && i > x ==> frame@.cell(i, j)
                                == v0.cell(i, j),
                    decreases hi - y,
                {
                    let ghost pre = frame@;
                    frame.set(x, y, glyph, color, crate::buffer::Color::Reset);
                    proof {
                        crate::buffer::lemma_cell_update(
                            pre,
                            x as int,
                            y as int,
                            crate::buffer::Cell {
                                glyph,
                                fg: color,
                                bg: crate::buffer::Color::Reset,
                            },
                        );
                        assert forall|i: int, j: int|
                            0 <= i < width && 0 <= j < height && !(i == x as int && j
                                == y as int) implies frame@.cell(i, j) == pre.cell(i, j) by {}
                        let c = crate::buffer::Cell {
                            glyph,
                            fg: color,
                            bg: crate::buffer::Color::Reset,
                        };
                        assert(frame@.cell(x as int, y as int) == c);
                        assert forall|j: int|
                            0 <= j < height && lo <= j < y + 1 implies frame@.cell(x as int, j)
                            == c by {
                            if j < y {
                                assert(pre.cell(x as int, j) == c);
                                assert(frame@.cell(x as int, j) == pre.cell(x as int, j));
                            }
                        }
                    }
                    y = y + 1;
                }
            },
        }
        proof {
            assert forall|i: int, j: int|
                0 <= i < width && 0 <= j < height && i < x + 1 implies frame@.cell(i, j)
                == spec_frame_cell(p, g, width as int, height as int, i, j, v0.cell(i, j)) by {}
        }
        x = x + 1;
    }
}

} // verus!
