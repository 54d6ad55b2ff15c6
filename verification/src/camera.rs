//! The camera pose that the world queries consume, and the ray-based
//! block-targeting query.
//!
//! Yaw and pitch, and the trigonometry that derives a direction vector from
//! them, live with the embedding application; the core holds the pose as a
//! fixed-point position plus the derived forward vector, which is everything
//! the targeting raycast reads.

use vstd::prelude::*;
use crate::block::BlockPos;
use crate::coords::{Vec3, cell_trunc, div5_trunc, COORD_ONE, div5};
use crate::game::Game;
use crate::world::in_rendered_world_bounds;

verus! {

/// Bound on a camera position coordinate.
pub const CAMERA_POS_LIMIT: i64 = 1_000_000_000;

/// Bound on a forward-vector component: the vector is derived from a unit
/// direction, so one block edge is its natural scale.
pub const CAMERA_DIR_LIMIT: i64 = 1_000_000;

/// The camera pose: a fixed-point world-space position and the forward
/// direction derived from the current yaw and pitch.
pub struct Camera {
    pub position: Vec3,
    pub forward: Vec3,
}

impl Camera {
    /// A camera at the origin looking along +z.
    pub fn new() -> (r: Camera)
        ensures
            r.position == (Vec3 { x: 0, y: 0, z: 0 }),
            r.forward == (Vec3 { x: 0, y: 0, z: COORD_ONE as i64 }),
    {
        Camera { position: Vec3 { x: 0, y: 0, z: 0 }, forward: Vec3 { x: 0, y: 0, z: COORD_ONE } }
    }

    /// Moves the camera by a fixed-point displacement.
    pub fn translate(&mut self, translation: Vec3)
        requires
            -CAMERA_POS_LIMIT <= old(self).position.x + translation.x <= CAMERA_POS_LIMIT,
            -CAMERA_POS_LIMIT <= old(self).position.y + translation.y <= CAMERA_POS_LIMIT,
            -CAMERA_POS_LIMIT <= old(self).position.z + translation.z <= CAMERA_POS_LIMIT,
            -CAMERA_POS_LIMIT <= old(self).position.x <= CAMERA_POS_LIMIT,
            -CAMERA_POS_LIMIT <= old(self).position.y <= CAMERA_POS_LIMIT,
            -CAMERA_POS_LIMIT <= old(self).position.z <= CAMERA_POS_LIMIT,
        ensures
            final(self).position.x == old(self).position.x + translation.x,
            final(self).position.y == old(self).position.y + translation.y,
            final(self).position.z == old(self).position.z + translation.z,
            final(self).forward == old(self).forward,
    {
        self.position = Vec3 {
            x: self.position.x + translation.x,
            y: self.position.y + translation.y,
            z: self.position.z + translation.z,
        };
    }

    /// Steps from the camera position along the forward vector in increments
    /// of a fifth of it, ten steps in all, and returns the first sampled cell
    /// that lies within rendered world bounds and holds a solid block; the
    /// stepping is monotone along the ray, so the first hit is the nearest
    /// sampled hit. Returns nothing when no solid block falls within the
    /// step budget.
    pub fn get_targeted_block(&self, game: &Game) -> (r: Option<BlockPos>)
        requires
            game.wf(),
            -CAMERA_POS_LIMIT <= self.position.x <= CAMERA_POS_LIMIT,
            -CAMERA_POS_LIMIT <= self.position.y <= CAMERA_POS_LIMIT,
            -CAMERA_POS_LIMIT <= self.position.z <= CAMERA_POS_LIMIT,
            -CAMERA_DIR_LIMIT <= self.forward.x <= CAMERA_DIR_LIMIT,
            -CAMERA_DIR_LIMIT <= self.forward.y <= CAMERA_DIR_LIMIT,
            -CAMERA_DIR_LIMIT <= self.forward.z <= CAMERA_DIR_LIMIT,
        ensures
            r == targeted_block_spec(*game, self.position, self.forward),
    {
        let sx = div5(self.forward.x);
        let sy = div5(self.forward.y);
        let sz = div5(self.forward.z);
        let mut jump = self.position;
        let ghost px = self.position.x as int;
        let ghost py = self.position.y as int;
        let ghost pz = self.position.z as int;
        let mut i: u8 = 0;
        while i < 10
            invariant
                game.wf(),
                i <= 10,
                sx == div5_trunc(self.forward.x as int),
                sy == div5_trunc(self.forward.y as int),
                sz == div5_trunc(self.forward.z as int),
                -CAMERA_DIR_LIMIT <= sx <= CAMERA_DIR_LIMIT,
                -CAMERA_DIR_LIMIT <= sy <= CAMERA_DIR_LIMIT,
                -CAMERA_DIR_LIMIT <= sz <= CAMERA_DIR_LIMIT,
                -CAMERA_POS_LIMIT <= px <= CAMERA_POS_LIMIT,
                -CAMERA_POS_LIMIT <= py <= CAMERA_POS_LIMIT,
                -CAMERA_POS_LIMIT <= pz <= CAMERA_POS_LIMIT,
                px == self.position.x as int,
                py == self.position.y as int,
                pz == self.position.z as int,
                jump.x == px + i * (sx as int),
                jump.y == py + i * (sy as int),
                jump.z == pz + i * (sz as int),
                first_hit_from(*game, px, py, pz, sx as int, sy as int, sz as int, 0)
                    == first_hit_from(*game, px, py, pz, sx as int, sy as int, sz as int, i as int),
            decreases 10 - i,
        {
            proof {
                assert(-10_000_000 <= i as int * (sx as int) <= 10_000_000) by (nonlinear_arith)
                    requires
                        0 <= i as int <= 10,
                        -1_000_000 <= sx as int <= 1_000_000,
                ;
                assert(-10_000_000 <= i as int * (sy as int) <= 10_000_000) by (nonlinear_arith)
                    requires
                        0 <= i as int <= 10,
                        -1_000_000 <= sy as int <= 1_000_000,
                ;
                assert(-10_000_000 <= i as int * (sz as int) <= 10_000_000) by (nonlinear_arith)
                    requires
                        0 <= i as int <= 10,
                        -1_000_000 <= sz as int <= 1_000_000,
                ;
            }
            let cx = crate::coords::trunc_cell(jump.x);
            let cy = crate::coords::trunc_cell(jump.y);
            let cz = crate::coords::trunc_cell(jump.z);
            let rd16 = (game.render_distance as i64) * 16;
            if cx >= 0 && cz >= 0 && cy >= 0 && cy <= 255 && cx < rd16 - 1 && cz < rd16 - 1 {
                let id = game.world.get_block_id(cx as u32, cy as u8, cz as u32);
                if id != 0 {
                    proof {
                        assert(sample_hits(
                            *game,
                            px,
                            py,
                            pz,
                            sx as int,
                            sy as int,
                            sz as int,
                            i as int,
                        ));
                        assert(first_hit_from(
                            *game,
                            px,
                            py,
                            pz,
                            sx as int,
                            sy as int,
                            sz as int,
                            i as int,
                        ) == Some(
                            BlockPos {
                                x: cx as u32,
                                y: cy as u8,
                                z: cz as u32,
                                block_id: id,
                            },
                        ));
                    }
                    return Some(BlockPos::new(cx as u32, cy as u8, cz as u32, id));
                }
            }
            proof {
                assert(!sample_hits(*game, px, py, pz, sx as int, sy as int, sz as int, i as int));
                assert(first_hit_from(*game, px, py, pz, sx as int, sy as int, sz as int, i as int)
                    == first_hit_from(
                    *game,
                    px,
                    py,
                    pz,
                    sx as int,
                    sy as int,
                    sz as int,
                    i as int + 1,
                ));
                assert((i as int + 1) * (sx as int) == i as int * (sx as int) + sx as int)
                    by (nonlinear_arith);
                assert((i as int + 1) * (sy as int) == i as int * (sy as int) + sy as int)
                    by (nonlinear_arith);
                assert((i as int + 1) * (sz as int) == i as int * (sz as int) + sz as int)
                    by (nonlinear_arith);
            }
            jump = Vec3 { x: jump.x + sx, y: jump.y + sy, z: jump.z + sz };
            i += 1;
        }
        proof {
            assert(first_hit_from(*game, px, py, pz, sx as int, sy as int, sz as int, 10)
                == None::<BlockPos>);
        }
        None
    }
}

/// Whether the `i`-th ray sample lies in rendered world bounds on a solid
/// block.
pub open spec fn sample_hits(g: Game, px: int, py: int, pz: int, sx: int, sy: int, sz: int, i: int) -> bool {
    let cx = cell_trunc(px + i * sx);
    let cy = cell_trunc(py + i * sy);
    let cz = cell_trunc(pz + i * sz);
    &&& in_rendered_world_bounds(g.render_distance as int, cx, cy, cz)
    &&& g.world.in_grid(cx, cy, cz)
    &&& g.world.id_at(cx, cy, cz) != 0
}

/// The first hit of the fixed-step raycast from sample `i` on, with its cell
/// position and the id found there.
pub open spec fn first_hit_from(
    g: Game,
    px: int,
    py: int,
    pz: int,
    sx: int,
    sy: int,
    sz: int,
    i: int,
) -> Option<BlockPos>
    decreases 10 - i when 0 <= i <= 10
{
    if i >= 10 {
        None
    } else if sample_hits(g, px, py, pz, sx, sy, sz, i) {
        let cx = cell_trunc(px + i * sx);
        let cy = cell_trunc(py + i * sy);
        let cz = cell_trunc(pz + i * sz);
        Some(
            BlockPos {
                x: cx as u32,
                y: cy as u8,
                z: cz as u32,
                block_id: g.world.id_at(cx, cy, cz),
            },
        )
    } else {
        first_hit_from(g, px, py, pz, sx, sy, sz, i + 1)
    }
}

/// What `get_targeted_block` returns: the nearest of ten fixed-step ray
/// samples that lands in rendered world bounds on a solid block.
pub open spec fn targeted_block_spec(g: Game, pos: Vec3, fwd: Vec3) -> Option<BlockPos> {
    first_hit_from(
        g,
        pos.x as int,
        pos.y as int,
        pos.z as int,
        div5_trunc(fwd.x as int),
        div5_trunc(fwd.y as int),
        div5_trunc(fwd.z as int),
        0,
    )
}

} // verus!
