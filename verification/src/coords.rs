//! Fixed-point world-space coordinates.
//!
//! Continuous positions (the camera, the player capsule, ray samples) are
//! held in signed fixed-point units of one thousandth of a block edge, so
//! that the rounding the voxel queries need is exact integer arithmetic:
//! `cell_round` is the round-half-up cell of a coordinate, and `cell_trunc`
//! truncates toward zero as a plain integer cast of a float would.

use vstd::prelude::*;

verus! {

/// Fixed-point units per block edge.
pub const COORD_ONE: i64 = 1000;

/// Half a block edge, the offset of round-half-up.
pub const COORD_HALF: i64 = 500;

/// A generous magnitude bound on a single fixed-point coordinate; sums of a
/// handful of bounded coordinates stay far inside `i64`.
pub const COORD_LIMIT: i64 = 1_000_000_000_000;

/// A world-space point or displacement in fixed-point coordinates.
#[derive(Clone, Copy, Debug, PartialEq, Eq, Structural)]
pub struct Vec3 {
    pub x: i64,
    pub y: i64,
    pub z: i64,
}

impl Vec3 {
    pub fn new(x: i64, y: i64, z: i64) -> (r: Vec3)
        ensures
            r.x == x,
            r.y == y,
            r.z == z,
    {
        Vec3 { x, y, z }
    }
}

/// The voxel cell of a coordinate under round-half-up: `floor(v + 1/2)` in
/// block units.
pub open spec fn cell_round(v: int) -> int {
    (v + 500) / 1000
}

/// The voxel cell of a coordinate under truncation toward zero, as a plain
/// integer cast behaves.
pub open spec fn cell_trunc(v: int) -> int {
    if v >= 0 {
        v / 1000
    } else {
        -((-v) / 1000)
    }
}

/// A fifth of a coordinate, truncated toward zero.
pub open spec fn div5_trunc(v: int) -> int {
    if v >= 0 {
        v / 5
    } else {
        -((-v) / 5)
    }
}

/// Round-half-up cell of a fixed-point coordinate.
pub fn block_cell(v: i64) -> (r: i64)
    requires
        -100 * COORD_LIMIT <= v <= 100 * COORD_LIMIT,
    ensures
        r == cell_round(v as int),
{
    let t = v + COORD_HALF;
    if t >= 0 {
        t / 1000
    } else {
        let u = -t;
        let q = (u + 999) / 1000;
        proof {
            let ti = t as int;
            let ui = u as int;
            let qi = q as int;
            assert(ui + 999 == 1000 * qi + ((ui + 999) % 1000));
            assert(0 <= (ui + 999) % 1000 < 1000);
            assert(ti == 1000 * (ti / 1000) + ti % 1000);
            assert(0 <= ti % 1000 < 1000);
            assert(1000 * qi <= ui + 999 < 1000 * (qi + 1));
            assert(ti == -ui);
            assert(1000 * (-qi) <= ti + 999);
            assert(ti <= 1000 * (-qi) + 999);
            assert(ti / 1000 == -qi);
        }
        -q
    }
}

/// Truncated-toward-zero cell of a fixed-point coordinate.
pub fn trunc_cell(v: i64) -> (r: i64)
    requires
        -100 * COORD_LIMIT <= v <= 100 * COORD_LIMIT,
    ensures
        r == cell_trunc(v as int),
{
    if v >= 0 {
        v / 1000
    } else {
        -((-v) / 1000)
    }
}

/// A fifth of a fixed-point coordinate, truncated toward zero.
pub fn div5(v: i64) -> (r: i64)
    requires
        -100 * COORD_LIMIT <= v <= 100 * COORD_LIMIT,
    ensures
        r == div5_trunc(v as int),
{
    if v >= 0 {
        v / 5
    } else {
        -((-v) / 5)
    }
}

} // verus!
