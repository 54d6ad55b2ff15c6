//! The swept axis-aligned collision resolver.
//!
//! Given the player's old position and a proposed new position, the resolver
//! samples the eight corners of an axis-aligned capsule around the old
//! position and clamps the displacement corner by corner, in a strict
//! per-axis order: a corner whose x-only displaced sample is solid loses its
//! x component, then z with the already-adjusted x, then y with both; losing
//! y at a lower corner makes the player grounded. Each corner works on the
//! carry-over of the previous one, so the clamping shrinks monotonically and
//! the last corner's result becomes the movement — a conservative sequential
//! fold, not an exact swept solver, kept as the observed behavior of the
//! simulation.

use vstd::prelude::*;
use crate::coords::{Vec3, cell_trunc, COORD_LIMIT};
use crate::world::{World, in_rendered_world_bounds};

verus! {

/// Horizontal half-extent of the player capsule, in fixed-point units.
pub const CAPSULE_RADIUS: i64 = 400;

/// Vertical offset of the foot corners from the capsule origin.
pub const CAPSULE_FOOT: i64 = -1500;

/// Vertical offset of the head corners from the capsule origin.
pub const CAPSULE_HEAD: i64 = 300;

/// The offset of the `k`-th capsule corner: the four foot corners first,
/// then the four head corners, each at the four horizontal diagonals.
pub open spec fn corner_offset_spec(k: int) -> (int, int, int) {
    let dx: int = if k % 2 == 0 {
        -400
    } else {
        400
    };
    let dz: int = if k == 0 || k == 1 || k == 4 || k == 5 {
        -400
    } else {
        400
    };
    let dy: int = if k < 4 {
        -1500
    } else {
        300
    };
    (dx, dy, dz)
}

/// The per-corner clamp: cancel x if the x-displaced sample is solid, then z
/// with the adjusted x, then y with both; the last component also reports
/// whether y was cancelled.
pub open spec fn clamp_corner(
    w: World,
    ox: int,
    oy: int,
    oz: int,
    vx: int,
    vy: int,
    vz: int,
) -> (int, int, int, bool) {
    let vx1: int = if w.solid_at(ox + vx, oy, oz) {
        0
    } else {
        vx
    };
    let vz1: int = if w.solid_at(ox + vx1, oy, oz + vz) {
        0
    } else {
        vz
    };
    let hit_y = w.solid_at(ox + vx1, oy + vy, oz + vz1);
    let vy1: int = if hit_y {
        0
    } else {
        vy
    };
    (vx1, vy1, vz1, hit_y)
}

/// The sequential fold over the capsule corners from corner `k` on: each
/// corner clamps the current displacement `(nx, ny, nz) - (ox, oy, oz)` and
/// overwrites the proposed position with its clamped result.
pub open spec fn resolve_from(
    w: World,
    ox: int,
    oy: int,
    oz: int,
    nx: int,
    ny: int,
    nz: int,
    grounded: bool,
    k: int,
) -> (int, int, int, bool)
    decreases 8 - k when 0 <= k <= 8
{
    if k < 0 || k >= 8 {
        (nx, ny, nz, grounded)
    } else {
        let (dx, dy, dz) = corner_offset_spec(k);
        let (vx1, vy1, vz1, hit) = clamp_corner(
            w,
            ox + dx,
            oy + dy,
            oz + dz,
            nx - ox,
            ny - oy,
            nz - oz,
        );
        resolve_from(
            w,
            ox,
            oy,
            oz,
            ox + vx1,
            oy + vy1,
            oz + vz1,
            grounded || (k < 4 && hit),
            k + 1,
        )
    }
}

/// What the resolver returns: the proposed position untouched when the
/// pre-move position is outside rendered world bounds (the player falls
/// without collision beyond the loaded region), and the corner fold
/// otherwise.
pub open spec fn resolve_outcome(w: World, rd: int, op: Vec3, np: Vec3) -> (int, int, int, bool) {
    if !in_rendered_world_bounds(
        rd,
        cell_trunc(op.x as int),
        cell_trunc(op.y as int),
        cell_trunc(op.z as int),
    ) {
        (np.x as int, np.y as int, np.z as int, false)
    } else {
        resolve_from(
            w,
            op.x as int,
            op.y as int,
            op.z as int,
            np.x as int,
            np.y as int,
            np.z as int,
            false,
            0,
        )
    }
}

/// The capsule corner offsets in evaluation order.
fn corner_offset(k: usize) -> (r: (i64, i64, i64))
    requires
        k < 8,
    ensures
        (r.0 as int, r.1 as int, r.2 as int) == corner_offset_spec(k as int),
{
    let dx: i64 = if k % 2 == 0 {
        -CAPSULE_RADIUS
    } else {
        CAPSULE_RADIUS
    };
    let dz: i64 = if k == 0 || k == 1 || k == 4 || k == 5 {
        -CAPSULE_RADIUS
    } else {
        CAPSULE_RADIUS
    };
    let dy: i64 = if k < 4 {
        CAPSULE_FOOT
    } else {
        CAPSULE_HEAD
    };
    (dx, dy, dz)
}

/// Finds the constrained new position of the player capsule and whether the
/// move grounded the player. The resolver is skipped entirely when the
/// pre-move position lies outside rendered world bounds.
pub fn resolve_collision(world: &World, render_distance: u8, old_pos: Vec3, new_pos: Vec3) -> (r: (
    Vec3,
    bool,
))
    requires
        world.storage_wf(),
        -COORD_LIMIT <= old_pos.x <= COORD_LIMIT,
        -COORD_LIMIT <= old_pos.y <= COORD_LIMIT,
        -COORD_LIMIT <= old_pos.z <= COORD_LIMIT,
        -COORD_LIMIT <= new_pos.x <= COORD_LIMIT,
        -COORD_LIMIT <= new_pos.y <= COORD_LIMIT,
        -COORD_LIMIT <= new_pos.z <= COORD_LIMIT,
    ensures
        ({
            let (rx, ry, rz, g) = resolve_outcome(
                *world,
                render_distance as int,
                old_pos,
                new_pos,
            );
            r.0.x == rx && r.0.y == ry && r.0.z == rz && r.1 == g
        }),
{
    let ocx = crate::coords::trunc_cell(old_pos.x);
    let ocy = crate::coords::trunc_cell(old_pos.y);
    let ocz = crate::coords::trunc_cell(old_pos.z);
    let rd16 = (render_distance as i64) * 16;
    if !(ocx >= 0 && ocz >= 0 && ocy >= 0 && ocy <= 255 && ocx < rd16 - 1 && ocz < rd16 - 1) {
        return (new_pos, false);
    }

    let mut nx = new_pos.x;
    let mut ny = new_pos.y;
    let mut nz = new_pos.z;
    let mut grounded = false;
    let mut k: usize = 0;
    while k < 8
        invariant
            world.storage_wf(),
            k <= 8,
            -COORD_LIMIT <= old_pos.x <= COORD_LIMIT,
            -COORD_LIMIT <= old_pos.y <= COORD_LIMIT,
            -COORD_LIMIT <= old_pos.z <= COORD_LIMIT,
            -2 * COORD_LIMIT <= nx <= 2 * COORD_LIMIT,
            -2 * COORD_LIMIT <= ny <= 2 * COORD_LIMIT,
            -2 * COORD_LIMIT <= nz <= 2 * COORD_LIMIT,
            resolve_from(
                *world,
                old_pos.x as int,
                old_pos.y as int,
                old_pos.z as int,
                new_pos.x as int,
                new_pos.y as int,
                new_pos.z as int,
                false,
                0,
            ) == resolve_from(
                *world,
                old_pos.x as int,
                old_pos.y as int,
                old_pos.z as int,
                nx as int,
                ny as int,
                nz as int,
                grounded,
                k as int,
            ),
        decreases 8 - k,
    {
        let (dx, dy, dz) = corner_offset(k);
        let ox = old_pos.x + dx;
        let oy = old_pos.y + dy;
        let oz = old_pos.z + dz;
        let vx = nx - old_pos.x;
        let vy = ny - old_pos.y;
        let vz = nz - old_pos.z;

        let vx1: i64 = if world.is_solid_block(ox + vx, oy, oz) {
            0
        } else {
            vx
        };
        let vz1: i64 = if world.is_solid_block(ox + vx1, oy, oz + vz) {
            0
        } else {
            vz
        };
        let hit_y = world.is_solid_block(ox + vx1, oy + vy, oz + vz1);
        let vy1: i64 = if hit_y {
            0
        } else {
            vy
        };

        proof {
            assert(clamp_corner(
                *world,
                ox as int,
                oy as int,
                oz as int,
                vx as int,
                vy as int,
                vz as int,
            ) == (vx1 as int, vy1 as int, vz1 as int, hit_y));
        }
        nx = old_pos.x + vx1;
        ny = old_pos.y + vy1;
        nz = old_pos.z + vz1;
        if k < 4 && hit_y {
            grounded = true;
        }
        k += 1;
    }
    (Vec3 { x: nx, y: ny, z: nz }, grounded)
}

/// One gravity-and-movement tick of the player: adds the per-tick gravity
/// increment to the fall velocity, proposes the position displaced by the
/// movement intent and the fall, resolves collisions, and resets the fall
/// velocity to zero exactly when the move grounded the player.
pub fn step_player(
    world: &World,
    render_distance: u8,
    pos: Vec3,
    move_delta: Vec3,
    gravity_velocity: i64,
    gravity_delta: i64,
) -> (r: (Vec3, i64, bool))
    requires
        world.storage_wf(),
        -COORD_LIMIT / 4 <= pos.x <= COORD_LIMIT / 4,
        -COORD_LIMIT / 4 <= pos.y <= COORD_LIMIT / 4,
        -COORD_LIMIT / 4 <= pos.z <= COORD_LIMIT / 4,
        -COORD_LIMIT / 4 <= move_delta.x <= COORD_LIMIT / 4,
        -COORD_LIMIT / 4 <= move_delta.y <= COORD_LIMIT / 4,
        -COORD_LIMIT / 4 <= move_delta.z <= COORD_LIMIT / 4,
        0 <= gravity_velocity <= COORD_LIMIT / 4,
        0 <= gravity_delta <= COORD_LIMIT / 4,
    ensures
        ({
            let gv = gravity_velocity + gravity_delta;
            let proposed = Vec3 {
                x: (pos.x + move_delta.x) as i64,
                y: (pos.y + move_delta.y - gv) as i64,
                z: (pos.z + move_delta.z) as i64,
            };
            let (rx, ry, rz, g) = resolve_outcome(*world, render_distance as int, pos, proposed);
            &&& r.0.x == rx
            &&& r.0.y == ry
            &&& r.0.z == rz
            &&& r.2 == g
            &&& r.1 == (if g {
                0
            } else {
                gv
            })
        }),
        r.2 ==> r.1 == 0,
{
    let gv = gravity_velocity + gravity_delta;
    let proposed = Vec3 {
        x: pos.x + move_delta.x,
        y: pos.y + move_delta.y - gv,
        z: pos.z + move_delta.z,
    };
    let (resolved, grounded) = resolve_collision(world, render_distance, pos, proposed);
    let new_gv: i64 = if grounded {
        0
    } else {
        gv
    };
    (resolved, new_gv, grounded)
}

} // verus!
