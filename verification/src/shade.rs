use vstd::prelude::*;
use crate::fixed::FP;
use crate::material::Material;

verus! {

/// The fixed-point dimming factor for the crossed grid-line kind: walls
/// hit through a horizontal line are drawn darker (about 0.7) than walls
/// hit through a vertical one (1.0), a cheap directional shading.
pub const AXIS_DIM: i64 = 45875;

/// The fixed-point floor of the distance dimming factor (about 0.1), so
/// distant walls never go fully black.
pub const DIM_FLOOR: i64 = 6554;

/// The distance dimming factor: a linear falloff `1 - distance / 20`,
/// floored, all in fixed-point.
pub open spec fn spec_dist_dim(dist: int) -> int {
    let lin = FP - dist / 20;
    if lin < DIM_FLOOR {
        DIM_FLOOR as int
    } else {
        lin
    }
}

/// The combined dimming factor of a hit: the distance falloff, further
/// scaled by the axis factor for horizontal-line hits.
pub open spec fn spec_dim(side: int, dist: int) -> int {
    if side == 1 {
        (AXIS_DIM as int) * spec_dist_dim(dist) / (FP as int)
    } else {
        spec_dist_dim(dist)
    }
}

/// One shaded color channel: the base value scaled by the combined
/// dimming factor.
pub open spec fn spec_shade_channel(base: int, side: int, dist: int) -> int {
    base * spec_dim(side, dist) / (FP as int)
}

/// The glyph drawn for a wall at a distance: four density bands, denser
/// when nearer, a cheap depth cue.
pub open spec fn spec_glyph(dist: int) -> char {
    if dist <= 2 * FP {
        '\u{2588}'
    } else if dist <= 4 * FP {
        '\u{2593}'
    } else if dist <= 8 * FP {
        '\u{2592}'
    } else {
        '\u{2591}'
    }
}

/// The vertical stripe a hit covers on a surface of the given height:
/// the projected wall height is `height / distance`, centered on the
/// middle row and clamped to the surface. The stripe is the half-open
/// row range `[start, end)`.
pub open spec fn spec_stripe(height: int, dist: int) -> (int, int) {
    let lh = if dist < 1 {
        2 * height
    } else {
        height * (FP as int) / dist
    };
    let lo = height / 2 - lh / 2;
    let hi = height / 2 + lh / 2;
    (if lo < 0 { 0 } else { lo }, if hi > height { height } else { hi })
}

/// Shades one color channel of a wall at a distance.
pub fn shade_channel(base: u8, side: u8, dist: i64) -> (r: u8)
    requires
        0 <= dist,
    ensures
        r == spec_shade_channel(base as int, side as int, dist as int),
        r <= base,
{
    let lin_raw = dist / 20;
    let lin = if FP - lin_raw < DIM_FLOOR {
        DIM_FLOOR
    } else {
        FP - lin_raw
    };
    proof {
        vstd::arithmetic::div_mod::lemma_div_pos_is_pos(dist as int, 20);
        assert(lin == spec_dist_dim(dist as int));
        assert(0 < lin <= FP);
    }
    let dim = if side == 1 {
        proof {
            vstd::arithmetic::mul::lemma_mul_inequality(lin as int, FP as int, AXIS_DIM as int);
            vstd::arithmetic::mul::lemma_mul_is_commutative(lin as int, AXIS_DIM as int);
            vstd::arithmetic::div_mod::lemma_div_is_ordered(
                (AXIS_DIM as int) * lin,
                (FP as int) * (AXIS_DIM as int),
                FP as int,
            );
            vstd::arithmetic::div_mod::lemma_div_multiples_vanish(AXIS_DIM as int, FP as int);
            vstd::arithmetic::mul::lemma_mul_nonnegative(AXIS_DIM as int, lin as int);
            vstd::arithmetic::div_mod::lemma_div_pos_is_pos((AXIS_DIM as int) * lin, FP as int);
        }
        AXIS_DIM * lin / FP
    } else {
        lin
    };
    proof {
        assert(dim == spec_dim(side as int, dist as int));
        assert(0 <= dim <= FP);
        vstd::arithmetic::mul::lemma_mul_inequality(dim as int, FP as int, base as int);
        vstd::arithmetic::mul::lemma_mul_is_commutative(dim as int, base as int);
        vstd::arithmetic::div_mod::lemma_div_is_ordered(
            (base as int) * dim,
            (FP as int) * (base as int),
            FP as int,
        );
        vstd::arithmetic::div_mod::lemma_div_multiples_vanish(base as int, FP as int);
        vstd::arithmetic::mul::lemma_mul_nonnegative(base as int, dim as int);
        vstd::arithmetic::div_mod::lemma_div_pos_is_pos((base as int) * dim, FP as int);
    }
    let shaded = (base as i64) * dim / FP;
    shaded as u8
}

/// Shades a material's full color for a hit: each channel of the base
/// color scaled by the combined dimming factor.
pub fn shade_color(material: Material, side: u8, dist: i64) -> (r: (u8, u8, u8))
    requires
        0 <= dist,
    ensures
        r.0 == spec_shade_channel(material.spec_base_color().0 as int, side as int, dist as int),
        r.1 == spec_shade_channel(material.spec_base_color().1 as int, side as int, dist as int),
        r.2 == spec_shade_channel(material.spec_base_color().2 as int, side as int, dist as int),
{
    let (br, bg, bb) = material.base_color();
    (shade_channel(br, side, dist), shade_channel(bg, side, dist), shade_channel(bb, side, dist))
}

/// Picks the glyph for a wall at a distance.
pub fn glyph_for(dist: i64) -> (r: char)
    ensures
        r == spec_glyph(dist as int),
{
    if dist <= 2 * FP {
        '\u{2588}'
    } else if dist <= 4 * FP {
        '\u{2593}'
    } else if dist <= 8 * FP {
        '\u{2592}'
    } else {
        '\u{2591}'
    }
}

/// Computes the vertical stripe a hit covers, as a half-open row range.
pub fn stripe(height: usize, dist: i64) -> (r: (usize, usize))
    requires
        0 <= dist,
        height <= 4096,
    ensures
        r.0 == spec_stripe(height as int, dist as int).0,
        r.1 == spec_stripe(height as int, dist as int).1,
        r.0 <= r.1 <= height,
{
    let h = height as i64;
    let lh: i64 = if dist < 1 {
        2 * h
    } else {
        proof {
            vstd::arithmetic::div_mod::lemma_div_pos_is_pos(h * (FP as int), dist as int);
        }
        h * FP / dist
    };
    let lo = h / 2 - lh / 2;
    let hi = h / 2 + lh / 2;
    proof {
        vstd::arithmetic::div_mod::lemma_div_pos_is_pos(lh as int, 2);
        vstd::arithmetic::div_mod::lemma_div_pos_is_pos(h as int, 2);
    }
    let lo_c = if lo < 0 {
        0
    } else {
        lo
    };
    let hi_c = if hi > h {
        h
    } else {
        hi
    };
    proof {
        assert(lo_c <= hi_c);
    }
    (lo_c as usize, hi_c as usize)
}

/// Shading never brightens with distance: holding the material and the
/// crossed-line kind fixed, a larger distance never yields a larger
/// channel value.
pub proof fn lemma_shading_monotonic(base: int, side: int, d1: int, d2: int)
    requires
        0 <= base <= 255,
        0 <= d1 <= d2,
    ensures
        spec_shade_channel(base, side, d2) <= spec_shade_channel(base, side, d1),
{
    vstd::arithmetic::div_mod::lemma_div_is_ordered(d1, d2, 20);
    assert(spec_dist_dim(d2) <= spec_dist_dim(d1));
    vstd::arithmetic::div_mod::lemma_div_pos_is_pos(d1, 20);
    assert(0 <= spec_dist_dim(d2));
    if side == 1 {
        vstd::arithmetic::mul::lemma_mul_inequality(spec_dist_dim(d2), spec_dist_dim(d1), AXIS_DIM as int);
        vstd::arithmetic::mul::lemma_mul_is_commutative(spec_dist_dim(d2), AXIS_DIM as int);
        vstd::arithmetic::mul::lemma_mul_is_commutative(spec_dist_dim(d1), AXIS_DIM as int);
        vstd::arithmetic::div_mod::lemma_div_is_ordered(
            (AXIS_DIM as int) * spec_dist_dim(d2),
            (AXIS_DIM as int) * spec_dist_dim(d1),
            FP as int,
        );
        vstd::arithmetic::mul::lemma_mul_nonnegative(AXIS_DIM as int, spec_dist_dim(d2));
        vstd::arithmetic::div_mod::lemma_div_pos_is_pos(
            (AXIS_DIM as int) * spec_dist_dim(d2),
            FP as int,
        );
    }
    assert(0 <= spec_dim(side, d2) && spec_dim(side, d2) <= spec_dim(side, d1));
    vstd::arithmetic::mul::lemma_mul_inequality(spec_dim(side, d2), spec_dim(side, d1), base);
    vstd::arithmetic::mul::lemma_mul_is_commutative(spec_dim(side, d2), base);
    vstd::arithmetic::mul::lemma_mul_is_commutative(spec_dim(side, d1), base);
    vstd::arithmetic::div_mod::lemma_div_is_ordered(
        base * spec_dim(side, d2),
        base * spec_dim(side, d1),
        FP as int,
    );
}

} // verus!
