use vstd::prelude::*;
use crate::fixed::{FP, FP_SQ, POS_MAX, spec_fp_mul, spec_cell_of, fp_mul, cell_of};
use crate::grid::Grid;
use crate::material::Material;
use crate::math::{Vector2D, spec_rot_x, spec_rot_y};

verus! {

/// The player entity navigating the map: a world position, a facing
/// direction of about unit length, and the camera plane perpendicular to
/// it whose length sets the field of view.
pub struct Player {
    /// The absolute position of the player in the map grid.
    pub position: Vector2D,
    /// The direction vector the player is currently facing.
    pub direction: Vector2D,
    /// The camera plane vector, perpendicular to the direction, dictating FOV.
    pub camera_plane: Vector2D,
    /// Movement speed in units per second, fixed-point.
    pub move_speed: i64,
    /// Rotation speed in radians per second, fixed-point.
    pub rot_speed: i64,
}

impl Player {
    /// The position stays within the supported world range, and the
    /// direction and plane vectors within twice unit length, which every
    /// rotation preserves.
    pub open spec fn wf(self) -> bool {
        &&& -POS_MAX <= self.position.x <= POS_MAX
        &&& -POS_MAX <= self.position.y <= POS_MAX
        &&& self.direction.spec_norm_sq() <= 4 * FP_SQ
        &&& self.camera_plane.spec_norm_sq() <= 4 * FP_SQ
    }

    /// Creates a new player at the standard starting position with
    /// default speeds: at (22, 12), facing negative x, with a plane of
    /// length 0.66 for a roughly 66 degree field of view.
    pub fn new() -> (r: Player)
        ensures
            r.wf(),
            r.position.x == 22 * FP && r.position.y == 12 * FP,
            r.direction.x == -FP && r.direction.y == 0,
            r.camera_plane.x == 0 && r.camera_plane.y == 43253,
            r.move_speed == 5 * FP,
            r.rot_speed == 3 * FP,
    {
        Player {
            position: Vector2D::new(22 * FP, 12 * FP),
            direction: Vector2D::new(-FP, 0),
            camera_plane: Vector2D::new(0, 43253),
            move_speed: 5 * FP,
            rot_speed: 3 * FP,
        }
    }

    /// Rotates the facing direction and the camera plane together by an
    /// angle given as its fixed-point cosine and sine. A positive sine
    /// turns counterclockwise in the map's coordinates.
    pub fn rotate(&mut self, cos_fx: i64, sin_fx: i64)
        requires
            old(self).wf(),
            -FP <= cos_fx <= FP,
            -FP <= sin_fx <= FP,
            cos_fx * cos_fx + sin_fx * sin_fx <= FP_SQ,
        ensures
            final(self).wf(),
            final(self).position == old(self).position,
            final(self).move_speed == old(self).move_speed,
            final(self).rot_speed == old(self).rot_speed,
            ({
                let px = spec_rot_x(
                    old(self).direction.x as int,
                    old(self).direction.y as int,
                    cos_fx as int,
                    sin_fx as int,
                );
                final(self).direction.x == (if px >= 0 {
                    px / (FP as int)
                } else {
                    -((-px) / (FP as int))
                })
            }),
            ({
                let py = spec_rot_y(
                    old(self).direction.x as int,
                    old(self).direction.y as int,
                    cos_fx as int,
                    sin_fx as int,
                );
                final(self).direction.y == (if py >= 0 {
                    py / (FP as int)
                } else {
                    -((-py) / (FP as int))
                })
            }),
            ({
                let qx = spec_rot_x(
                    old(self).camera_plane.x as int,
                    old(self).camera_plane.y as int,
                    cos_fx as int,
                    sin_fx as int,
                );
                final(self).camera_plane.x == (if qx >= 0 {
                    qx / (FP as int)
                } else {
                    -((-qx) / (FP as int))
                })
            }),
            ({
                let qy = spec_rot_y(
                    old(self).camera_plane.x as int,
                    old(self).camera_plane.y as int,
                    cos_fx as int,
                    sin_fx as int,
                );
                final(self).camera_plane.y == (if qy >= 0 {
                    qy / (FP as int)
                } else {
                    -((-qy) / (FP as int))
                })
            }),
    {
        self.direction = self.direction.rotate(cos_fx, sin_fx);
        self.camera_plane = self.camera_plane.rotate(cos_fx, sin_fx);
    }

    /// Moves the player along its facing direction by `amount` world
    /// units (fixed-point), forward or backward, sliding along walls:
    /// each axis moves only if the cell the new coordinate falls in is
    /// `Empty`, the x axis first, exactly as the map collision rule asks.
    pub fn step_move(&mut self, grid: &Grid, forward: bool, amount: i64)
        requires
            old(self).wf(),
            grid@.wf(),
            0 <= amount <= 4 * FP,
        ensures
            final(self).wf(),
            final(self).direction == old(self).direction,
            final(self).camera_plane == old(self).camera_plane,
            final(self).move_speed == old(self).move_speed,
            final(self).rot_speed == old(self).rot_speed,
            ({
                let mx = spec_fp_mul(old(self).direction.x as int, amount as int);
                let nx = if forward {
                    old(self).position.x + mx
                } else {
                    old(self).position.x - mx
                };
                let move_x = grid@.at(
                    spec_cell_of(nx),
                    spec_cell_of(old(self).position.y as int),
                ) == Material::Empty;
                let px = if move_x { nx } else { old(self).position.x as int };
                let my = spec_fp_mul(old(self).direction.y as int, amount as int);
                let ny = if forward {
                    old(self).position.y + my
                } else {
                    old(self).position.y - my
                };
                let move_y = grid@.at(spec_cell_of(px), spec_cell_of(ny)) == Material::Empty;
                final(self).position.x == px && final(self).position.y == (if move_y {
                    ny
                } else {
                    old(self).position.y as int
                })
            }),
    {
        proof {
            assert(self.direction.x * self.direction.x <= 4 * FP_SQ && self.direction.y
                * self.direction.y <= 4 * FP_SQ) by (nonlinear_arith)
                requires
                    self.direction.spec_norm_sq() <= 4 * FP_SQ,
            {}
            assert(-2 * FP <= self.direction.x <= 2 * FP && -2 * FP <= self.direction.y <= 2 * FP)
                by (nonlinear_arith)
                requires
                    self.direction.x * self.direction.x <= 4 * FP_SQ,
                    self.direction.y * self.direction.y <= 4 * FP_SQ,
                    FP_SQ == FP * FP,
                    FP == 65536,
            {}
        }
        let dx = fp_mul(self.direction.x, amount);
        let dy = fp_mul(self.direction.y, amount);
        proof {
            lemma_fp_step_bound(self.direction.x as int, amount as int);
            lemma_fp_step_bound(self.direction.y as int, amount as int);
        }
        let nx = if forward {
            self.position.x + dx
        } else {
            self.position.x - dx
        };
        let qx = if nx > POS_MAX {
            POS_MAX
        } else if nx < -POS_MAX {
            -POS_MAX
        } else {
            nx
        };
        proof {
            lemma_clamped_cell_agrees(grid@, nx as int, qx as int);
            assert(grid@.at(spec_cell_of(qx as int), spec_cell_of(self.position.y as int))
                == grid@.at(spec_cell_of(nx as int), spec_cell_of(self.position.y as int)));
        }
        if grid.get(cell_of(qx), cell_of(self.position.y)) == Material::Empty {
            self.position.x = nx;
        }
        let ny = if forward {
            self.position.y + dy
        } else {
            self.position.y - dy
        };
        let qy = if ny > POS_MAX {
            POS_MAX
        } else if ny < -POS_MAX {
            -POS_MAX
        } else {
            ny
        };
        proof {
            lemma_clamped_cell_agrees(grid@, ny as int, qy as int);
            assert(grid@.at(spec_cell_of(self.position.x as int), spec_cell_of(qy as int))
                == grid@.at(spec_cell_of(self.position.x as int), spec_cell_of(ny as int)));
        }
        if grid.get(cell_of(self.position.x), cell_of(qy)) == Material::Empty {
            self.position.y = ny;
        }
    }
}

impl Default for Player {
    /// The standard starting player.
    fn default() -> (r: Player)
        ensures
            r.wf(),
    {
        Player::new()
    }
}

/// Clamping a coordinate to the supported world range does not change
/// which material its cell query answers: a coordinate beyond the range
/// is out of the grid extent on that axis, and so is its clamped cell.
proof fn lemma_clamped_cell_agrees(g: crate::grid::GridView, n: int, q: int)
    requires
        g.wf(),
        q == (if n > POS_MAX {
            POS_MAX as int
        } else if n < -POS_MAX {
            -(POS_MAX as int)
        } else {
            n
        }),
    ensures
        forall|j: int| g.at(spec_cell_of(q), j) == g.at(spec_cell_of(n), j),
        forall|i: int| g.at(i, spec_cell_of(q)) == g.at(i, spec_cell_of(n)),
        0 <= spec_cell_of(n) < g.width ==> 0 <= n < POS_MAX,
        0 <= spec_cell_of(n) < g.height ==> 0 <= n < POS_MAX,
{
    vstd::arithmetic::div_mod::lemma_fundamental_div_mod(n, FP as int);
    vstd::arithmetic::div_mod::lemma_mod_division_less_than_divisor(n, FP as int);
    assert(spec_cell_of(POS_MAX as int) == 4096);
    assert(spec_cell_of(-(POS_MAX as int)) == -4096);
    if n > POS_MAX {
        vstd::arithmetic::div_mod::lemma_div_is_ordered(POS_MAX as int, n, FP as int);
        assert(spec_cell_of(n) >= 4096);
    } else if n < -POS_MAX {
        vstd::arithmetic::div_mod::lemma_div_is_ordered(n, -(POS_MAX as int), FP as int);
        assert(spec_cell_of(n) <= -4096);
    }
}

/// One movement step is at most eight world units, so a step from a
/// supported position cannot leave the supported coordinate range by
/// more than a safe margin.
proof fn lemma_fp_step_bound(d: int, amount: int)
    requires
        -2 * FP <= d <= 2 * FP,
        0 <= amount <= 4 * FP,
    ensures
        -(8 * FP_SQ) <= d * amount <= 8 * FP_SQ,
        -(8 * FP) <= spec_fp_mul(d, amount) <= 8 * FP,
{
    assert(-(8 * FP_SQ) <= d * amount <= 8 * FP_SQ) by (nonlinear_arith)
        requires
            -2 * FP <= d <= 2 * FP,
            0 <= amount <= 4 * FP,
            FP_SQ == FP * FP,
    {}
    let p = d * amount;
    if p >= 0 {
        vstd::arithmetic::div_mod::lemma_div_is_ordered(p, 8 * FP_SQ, FP as int);
        vstd::arithmetic::div_mod::lemma_div_pos_is_pos(p, FP as int);
        assert(8 * FP_SQ / (FP as int) == 8 * FP);
    } else {
        vstd::arithmetic::div_mod::lemma_div_is_ordered(-p, 8 * FP_SQ, FP as int);
        vstd::arithmetic::div_mod::lemma_div_pos_is_pos(-p, FP as int);
        assert(8 * FP_SQ / (FP as int) == 8 * FP);
    }
}

} // verus!
