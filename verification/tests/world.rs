use gridcaster::buffer::{Color, FrameBuffer};
use gridcaster::fixed::{FP, fp_mul, isqrt};
use gridcaster::grid::Grid;
use gridcaster::material::Material;
use gridcaster::math::Vector2D;
use gridcaster::player::Player;
use gridcaster::raycaster::render_frame;

#[test]
fn grid_answers_out_of_bounds_everywhere_outside_its_extent() {
    let g = Grid::new(4, 4, Material::Empty);
    assert_eq!(g.get(-1, 0), Material::OutOfBounds);
    assert_eq!(g.get(0, -1), Material::OutOfBounds);
    assert_eq!(g.get(4, 0), Material::OutOfBounds);
    assert_eq!(g.get(0, 4), Material::OutOfBounds);
    assert_eq!(g.get(1000000, -1000000), Material::OutOfBounds);
    assert_eq!(g.get(2, 2), Material::Empty);
}

#[test]
fn set_cell_updates_one_cell_and_ignores_the_outside() {
    let mut g = Grid::new(4, 4, Material::Empty);
    g.set_cell(1, 2, Material::WoodWall);
    g.set_cell(9, 9, Material::WoodWall);
    assert_eq!(g.get(1, 2), Material::WoodWall);
    assert_eq!(g.get(2, 1), Material::Empty);
    assert_eq!(g.get(3, 3), Material::Empty);
}

#[test]
fn vector_arithmetic_is_exact() {
    let a = Vector2D::new(3 * FP, -2 * FP);
    let b = Vector2D::new(FP, FP);
    let s = a.plus(b);
    assert_eq!((s.x, s.y), (4 * FP, -FP));
    let d = a.minus(b);
    assert_eq!((d.x, d.y), (2 * FP, -3 * FP));
    let h = b.scale(FP / 2);
    assert_eq!((h.x, h.y), (FP / 2, FP / 2));
}

#[test]
fn magnitude_of_a_pythagorean_vector_is_exact() {
    let v = Vector2D::new(3 * FP, 4 * FP);
    assert_eq!(v.magnitude(), 5 * FP);
    let z = Vector2D::new(0, 0);
    assert_eq!(z.magnitude(), 0);
}

#[test]
fn isqrt_brackets_its_argument() {
    for n in [0u64, 1, 2, 3, 4, 15, 16, 17, 1 << 40, u64::MAX] {
        let r = isqrt(n);
        assert!(r * r <= n);
        assert!(r.checked_add(1).and_then(|s| s.checked_mul(s)).map_or(true, |sq| sq > n));
    }
}

#[test]
fn fp_mul_truncates_toward_zero() {
    assert_eq!(fp_mul(FP, FP), FP);
    assert_eq!(fp_mul(FP / 2, FP / 2), FP / 4);
    assert_eq!(fp_mul(-FP, FP / 2), -FP / 2);
    assert_eq!(fp_mul(3, 3), 0);
    assert_eq!(fp_mul(-3, 3), 0);
}

#[test]
fn quarter_turn_rotates_the_direction_exactly() {
    let v = Vector2D::new(FP, 0);
    let r = v.rotate(0, FP);
    assert_eq!((r.x, r.y), (0, FP));
    let back = r.rotate(0, -FP);
    assert_eq!((back.x, back.y), (FP, 0));
}

#[test]
fn player_starts_at_the_standard_pose() {
    let p = Player::new();
    assert_eq!((p.position.x, p.position.y), (22 * FP, 12 * FP));
    assert_eq!((p.direction.x, p.direction.y), (-FP, 0));
    assert_eq!((p.camera_plane.x, p.camera_plane.y), (0, 43253));
    assert_eq!(p.move_speed, 5 * FP);
    assert_eq!(p.rot_speed, 3 * FP);
}

#[test]
fn player_rotation_turns_direction_and_plane_together() {
    let mut p = Player::new();
    // A quarter turn: direction (-1,0) -> (0,-1), plane (0,0.66) -> (-0.66,0).
    p.rotate(0, FP);
    assert_eq!((p.direction.x, p.direction.y), (0, -FP));
    assert_eq!((p.camera_plane.x, p.camera_plane.y), (-43253, 0));
    // Position and speeds are untouched by a rotation.
    assert_eq!((p.position.x, p.position.y), (22 * FP, 12 * FP));
    assert_eq!(p.move_speed, 5 * FP);
    assert_eq!(p.rot_speed, 3 * FP);
    // Three more quarter turns come back around exactly.
    p.rotate(0, FP);
    p.rotate(0, FP);
    p.rotate(0, FP);
    assert_eq!((p.direction.x, p.direction.y), (-FP, 0));
    assert_eq!((p.camera_plane.x, p.camera_plane.y), (0, 43253));
}

#[test]
fn movement_slides_along_walls_and_stops_at_them() {
    let mut g = Grid::new(4, 4, Material::Empty);
    for y in 0..4 {
        g.set_cell(0, y, Material::SolidWall);
    }
    let mut p = Player::new();
    p.position = Vector2D::new(FP + FP / 2, 2 * FP);
    p.direction = Vector2D::new(-FP, 0);
    // Walking toward the wall in cell column 0: x may only advance while
    // it stays in an Empty cell.
    p.step_move(&g, true, FP / 4);
    assert_eq!(p.position.x, FP + FP / 4);
    p.step_move(&g, true, FP / 4);
    assert_eq!(p.position.x, FP);
    // The next quarter step would land inside the wall: blocked.
    p.step_move(&g, true, FP / 4);
    assert_eq!(p.position.x, FP);
    // Backward movement away from the wall works again.
    p.step_move(&g, false, FP / 2);
    assert_eq!(p.position.x, FP + FP / 2);
    assert_eq!(p.position.y, 2 * FP);
}

#[test]
fn full_frame_draws_the_wall_stripe_over_the_background() {
    let mut g = Grid::new(4, 4, Material::Empty);
    for x in 0..4 {
        g.set_cell(x, 0, Material::SolidWall);
        g.set_cell(x, 3, Material::SolidWall);
    }
    for y in 0..4 {
        g.set_cell(0, y, Material::SolidWall);
        g.set_cell(3, y, Material::SolidWall);
    }
    let mut p = Player::new();
    p.position = Vector2D::new(2 * FP, 2 * FP);
    p.direction = Vector2D::new(-FP, 0);
    p.camera_plane = Vector2D::new(0, 43253);
    let mut fb = FrameBuffer::new(8, 8);
    fb.clear();
    render_frame(&p, &g, &mut fb);
    // Every column hits the wall one unit away: full-height stripes of
    // the nearest-band glyph in the shaded wall color.
    for x in 0..8 {
        for y in 0..8 {
            let c = fb.get_cell(x, y).unwrap();
            assert_eq!(c.glyph, '\u{2588}', "column {} row {}", x, y);
            assert_eq!(c.fg, Color::Rgb(171, 0, 0));
            assert_eq!(c.bg, Color::Reset);
        }
    }
}
