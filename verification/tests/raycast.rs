use gridcaster::fixed::FP;
use gridcaster::grid::Grid;
use gridcaster::material::Material;
use gridcaster::player::Player;
use gridcaster::raycaster::cast_column;
use gridcaster::raycaster::cast_ray;

/// A 4x4 grid whose border cells are SolidWall and whose interior is Empty.
fn bordered_grid(w: usize, h: usize) -> Grid {
    let mut g = Grid::new(w, h, Material::Empty);
    for x in 0..w {
        g.set_cell(x, 0, Material::SolidWall);
        g.set_cell(x, h - 1, Material::SolidWall);
    }
    for y in 0..h {
        g.set_cell(0, y, Material::SolidWall);
        g.set_cell(w - 1, y, Material::SolidWall);
    }
    g
}

#[test]
fn every_nonzero_ray_hits_an_opaque_wall_at_positive_distance() {
    let g = bordered_grid(6, 6);
    // Camera strictly inside a cell, away from every grid line.
    let px = 2 * FP + FP / 2;
    let py = 3 * FP + FP / 3;
    let dirs = [
        (FP, 0),
        (-FP, 0),
        (0, FP),
        (0, -FP),
        (FP, FP),
        (-FP, FP),
        (FP, -FP),
        (-FP, -FP),
        (1, 0),
        (0, -1),
        (12345, -54321),
    ];
    for (rx, ry) in dirs {
        let hit = cast_ray(&g, px, py, rx, ry);
        assert_ne!(hit.material, Material::Empty);
        assert!(hit.perp_dist > 0);
    }
}

#[test]
fn axis_aligned_ray_reports_exact_integer_distance() {
    // A wall three units away along +y from a camera on a grid line.
    let mut g = Grid::new(8, 8, Material::Empty);
    for x in 0..8 {
        g.set_cell(x, 4, Material::SolidWall);
    }
    let hit = cast_ray(&g, 2 * FP, FP, 0, FP);
    assert_eq!(hit.material, Material::SolidWall);
    assert_eq!(hit.side, 1);
    assert_eq!(hit.perp_dist, 3 * FP);
}

#[test]
fn axis_aligned_ray_from_cell_center_has_no_fisheye_error() {
    // Centered in its cell, the face of the wall two cells up is exactly
    // one and a half units away.
    let mut g = Grid::new(8, 8, Material::Empty);
    for x in 0..8 {
        g.set_cell(x, 4, Material::BrickWall);
    }
    let hit = cast_ray(&g, 2 * FP + FP / 2, 2 * FP + FP / 2, 0, FP);
    assert_eq!(hit.material, Material::BrickWall);
    assert_eq!(hit.perp_dist, FP + FP / 2);
}

#[test]
fn bordered_grid_scene_reports_solid_walls_symmetrically() {
    // 4x4 bordered grid, camera at (2,2) facing (-1,0), eight columns:
    // every column sees the SolidWall border, the distances mirror around
    // the screen center, and the central columns sit exactly one unit
    // from the wall face.
    let g = bordered_grid(4, 4);
    let mut p = Player::new();
    p.position = gridcaster::math::Vector2D::new(2 * FP, 2 * FP);
    p.direction = gridcaster::math::Vector2D::new(-FP, 0);
    p.camera_plane = gridcaster::math::Vector2D::new(0, 43253);
    let mut dists = Vec::new();
    for col in 0..8 {
        let hit = cast_column(&g, &p, col, 8).expect("camera ray is never zero");
        assert_eq!(hit.material, Material::SolidWall);
        assert!(hit.perp_dist > 0);
        dists.push(hit.perp_dist);
    }
    for i in 1..8 {
        assert_eq!(dists[i], dists[8 - i]);
    }
    assert_eq!(dists[3], FP);
    assert_eq!(dists[4], FP);
}

#[test]
fn ray_backward_along_an_axis_hits_the_wall_behind() {
    let g = bordered_grid(4, 4);
    let hit = cast_ray(&g, 2 * FP + FP / 2, 2 * FP + FP / 2, 0, -FP);
    assert_eq!(hit.material, Material::SolidWall);
    assert_eq!(hit.side, 1);
    assert_eq!(hit.step_y, -1);
    // Face of cell (..,0) is at y == 1: one and a half units below.
    assert_eq!(hit.perp_dist, FP + FP / 2);
}

#[test]
fn degenerate_camera_yields_no_hit_only_for_the_cancelled_column() {
    // A camera plane parallel to the facing direction can cancel the ray
    // exactly for one column; every other column still casts.
    let g = bordered_grid(6, 6);
    let mut p = Player::new();
    p.position = gridcaster::math::Vector2D::new(2 * FP + FP / 2, 2 * FP + FP / 2);
    p.direction = gridcaster::math::Vector2D::new(FP, 0);
    p.camera_plane = gridcaster::math::Vector2D::new(-2 * FP, 0);
    // Column 6 of 8 has camera-space x = 1/2, so the ray is (0, 0).
    assert!(cast_column(&g, &p, 6, 8).is_none());
    assert!(cast_column(&g, &p, 0, 8).is_some());
    assert!(cast_column(&g, &p, 7, 8).is_some());
}

#[test]
fn out_of_grid_camera_still_terminates_on_the_border() {
    let g = bordered_grid(4, 4);
    // Far outside the grid, aimed away from it: the walk exits and stops
    // on the OutOfBounds border material.
    let hit = cast_ray(&g, -20 * FP + FP / 2, -20 * FP + FP / 2, -FP, -FP);
    assert_eq!(hit.material, Material::OutOfBounds);
    assert!(hit.perp_dist > 0);
}
