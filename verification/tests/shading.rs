use gridcaster::fixed::FP;
use gridcaster::material::Material;
use gridcaster::shade::{glyph_for, shade_channel, shade_color, stripe};

#[test]
fn shading_at_zero_distance_keeps_the_base_color() {
    assert_eq!(shade_channel(180, 0, 0), 180);
    assert_eq!(shade_channel(255, 0, 0), 255);
}

#[test]
fn horizontal_line_hits_are_dimmed_by_the_axis_factor() {
    // 180 * 0.7 (as 45875/65536), truncated.
    assert_eq!(shade_channel(180, 1, 0), 125);
}

#[test]
fn distance_dimming_is_floored_so_walls_never_go_black() {
    // At twenty units the linear falloff reaches zero and the floor takes
    // over: 180 * (6554/65536), truncated.
    assert_eq!(shade_channel(180, 0, 20 * FP), 18);
    // Far beyond, the value stays at the floor.
    assert_eq!(shade_channel(180, 0, 100 * FP), 18);
}

#[test]
fn shading_is_monotonic_in_distance() {
    for side in [0u8, 1u8] {
        let mut prev = 255u8;
        for k in 0..40 {
            let d = k * FP / 2;
            let v = shade_channel(200, side, d);
            assert!(v <= prev, "distance {} side {}", d, side);
            prev = v;
        }
    }
}

#[test]
fn one_unit_hit_shades_exactly() {
    // dist = 1.0: falloff 1 - 1/20 = 62260/65536; 180 * 62260 / 65536.
    assert_eq!(shade_channel(180, 0, FP), 171);
    assert_eq!(shade_color(Material::SolidWall, 0, FP), (171, 0, 0));
    assert_eq!(shade_color(Material::StoneWall, 0, FP), (0, 0, 171));
}

#[test]
fn materials_have_distinct_base_colors() {
    assert_eq!(Material::SolidWall.base_color(), (180, 0, 0));
    assert_eq!(Material::BrickWall.base_color(), (0, 180, 0));
    assert_eq!(Material::StoneWall.base_color(), (0, 0, 180));
    assert_eq!(Material::WoodWall.base_color(), (180, 180, 180));
    assert_eq!(Material::OutOfBounds.base_color(), (50, 50, 50));
}

#[test]
fn glyph_bands_by_distance() {
    assert_eq!(glyph_for(FP), '\u{2588}');
    assert_eq!(glyph_for(2 * FP), '\u{2588}');
    assert_eq!(glyph_for(3 * FP), '\u{2593}');
    assert_eq!(glyph_for(6 * FP), '\u{2592}');
    assert_eq!(glyph_for(20 * FP), '\u{2591}');
}

#[test]
fn stripe_is_centered_and_clamped() {
    // Distance 1: the wall fills the whole surface.
    assert_eq!(stripe(8, FP), (0, 8));
    // Distance 2: half the surface, centered.
    assert_eq!(stripe(8, 2 * FP), (2, 6));
    // Distance 0 (wall flush with the camera): clamped to everything.
    assert_eq!(stripe(8, 0), (0, 8));
    // Far away: an empty-or-thin stripe around the middle row.
    let (lo, hi) = stripe(8, 100 * FP);
    assert!(lo <= hi && hi <= 8);
    assert!(hi - lo <= 1);
}
