//! The guarantees the visibility bookkeeping gives to every well-formed
//! world, stated as proof functions over `World::wf`.

use vstd::prelude::*;
use crate::world::{World, lemma_same_ids_same_exposure};

verus! {

/// Air is never visible: a position whose id is 0 is not a member of any
/// chunk's visible set.
pub proof fn lemma_air_never_visible(w: World, x: int, y: int, z: int)
    requires
        w.wf(),
        w.in_grid(x, y, z),
        w.id_at(x, y, z) == 0,
    ensures
        !w.vis_at(x, y, z),
{
}

/// A solid block is visible exactly when at least one of its six
/// face-adjacent neighbors is air or outside world bounds.
pub proof fn lemma_visible_iff_exposed(w: World, x: int, y: int, z: int)
    requires
        w.wf(),
        w.in_grid(x, y, z),
        w.id_at(x, y, z) != 0,
    ensures
        w.vis_at(x, y, z) <==> {
            ||| w.side_exposed(x, y + 1, z)
            ||| w.side_exposed(x, y - 1, z)
            ||| w.side_exposed(x + 1, y, z)
            ||| w.side_exposed(x - 1, y, z)
            ||| w.side_exposed(x, y, z + 1)
            ||| w.side_exposed(x, y, z - 1)
        },
{
}

/// The visible sets are a function of the stored ids: two well-formed worlds
/// with the same grid and the same id at every position agree on visibility
/// at every position.
pub proof fn lemma_visible_sets_determined(wa: World, wb: World)
    requires
        wa.wf(),
        wb.wf(),
        wa.grid_n() == wb.grid_n(),
        forall|x: int, y: int, z: int|
            wa.in_grid(x, y, z) ==> #[trigger] wa.id_at(x, y, z) == wb.id_at(x, y, z),
    ensures
        forall|x: int, y: int, z: int|
            wa.in_grid(x, y, z) ==> ((#[trigger] wa.vis_at(x, y, z)) <==> wb.vis_at(x, y, z)),
{
    assert forall|x: int, y: int, z: int| wa.in_grid(x, y, z) implies ((#[trigger] wa.vis_at(
        x,
        y,
        z,
    )) <==> wb.vis_at(x, y, z)) by {
        lemma_same_ids_same_exposure(wa, wb, x, y, z);
    }
}

/// Writing a block id twice is idempotent: if `wa` already stores `id` at the
/// write position and `wb` is `wa` after the id transition of a `set_block`
/// of the same `id` there, then `wb` stores the same ids as `wa` everywhere,
/// and its visible sets agree with `wa`'s at every position.
pub proof fn lemma_set_block_idempotent(wa: World, wb: World, x: int, y: int, z: int, id: u8)
    requires
        wa.wf(),
        wb.wf(),
        wa.grid_n() == wb.grid_n(),
        wa.in_grid(x, y, z),
        wa.id_at(x, y, z) == id,
        forall|a: int, b: int, c: int|
            wa.in_grid(a, b, c) ==> #[trigger] wb.id_at(a, b, c) == (if a == x && b == y && c == z {
                id
            } else {
                wa.id_at(a, b, c)
            }),
    ensures
        forall|a: int, b: int, c: int|
            wa.in_grid(a, b, c) ==> #[trigger] wb.id_at(a, b, c) == wa.id_at(a, b, c),
        forall|a: int, b: int, c: int|
            wa.in_grid(a, b, c) ==> ((#[trigger] wa.vis_at(a, b, c)) <==> wb.vis_at(a, b, c)),
{
    lemma_visible_sets_determined(wa, wb);
}

/// Placing a block on air and removing it again restores everything: if `w0`
/// has air at the write position, `w1` is `w0` after the id transition of
/// `set_block` with some id there, and `w2` is `w1` after the id transition
/// of `set_block` with the air id there, then `w2` stores the same ids as
/// `w0` everywhere and its visible sets agree with `w0`'s at every position,
/// this position and all its face-adjacent neighbors included.
pub proof fn lemma_set_block_round_trip(w0: World, w1: World, w2: World, x: int, y: int, z: int, id: u8)
    requires
        w0.wf(),
        w1.wf(),
        w2.wf(),
        w0.grid_n() == w1.grid_n(),
        w1.grid_n() == w2.grid_n(),
        w0.in_grid(x, y, z),
        w0.id_at(x, y, z) == 0,
        forall|a: int, b: int, c: int|
            w0.in_grid(a, b, c) ==> #[trigger] w1.id_at(a, b, c) == (if a == x && b == y && c == z {
                id
            } else {
                w0.id_at(a, b, c)
            }),
        forall|a: int, b: int, c: int|
            w1.in_grid(a, b, c) ==> #[trigger] w2.id_at(a, b, c) == (if a == x && b == y && c == z {
                0u8
            } else {
                w1.id_at(a, b, c)
            }),
    ensures
        forall|a: int, b: int, c: int|
            w0.in_grid(a, b, c) ==> #[trigger] w2.id_at(a, b, c) == w0.id_at(a, b, c),
        forall|a: int, b: int, c: int|
            w0.in_grid(a, b, c) ==> ((#[trigger] w0.vis_at(a, b, c)) <==> w2.vis_at(a, b, c)),
{
    assert forall|a: int, b: int, c: int| w0.in_grid(a, b, c) implies #[trigger] w2.id_at(a, b, c)
        == w0.id_at(a, b, c) by {
        assert(w1.id_at(a, b, c) == (if a == x && b == y && c == z {
            id
        } else {
            w0.id_at(a, b, c)
        }));
    }
    lemma_visible_sets_determined(w0, w2);
}

/// Removing a block can only add exposure, never remove it: every solid
/// block with a loaded air block at one of its six faces is visible, so in
/// particular every solid face-adjacent neighbor of a freshly removed block
/// is in its owning chunk's visible set.
pub proof fn lemma_solid_neighbor_of_air_visible(
    w: World,
    x: int,
    y: int,
    z: int,
    nx: int,
    ny: int,
    nz: int,
)
    requires
        w.wf(),
        w.in_grid(x, y, z),
        w.id_at(x, y, z) == 0,
        w.in_grid(nx, ny, nz),
        w.id_at(nx, ny, nz) != 0,
        (nx - x, ny - y, nz - z) == (0int, 1int, 0int) || (nx - x, ny - y, nz - z) == (
            0int,
            -1int,
            0int,
        ) || (nx - x, ny - y, nz - z) == (1int, 0int, 0int) || (nx - x, ny - y, nz - z) == (
            -1int,
            0int,
            0int,
        ) || (nx - x, ny - y, nz - z) == (0int, 0int, 1int) || (nx - x, ny - y, nz - z) == (
            0int,
            0int,
            -1int,
        ),
    ensures
        w.vis_at(nx, ny, nz),
{
    assert(w.side_exposed(x, y, z));
    if ny - y == 1 {
        assert(w.side_exposed(nx, ny - 1, nz));
    } else if ny - y == -1 {
        assert(w.side_exposed(nx, ny + 1, nz));
    } else if nx - x == 1 {
        assert(w.side_exposed(nx - 1, ny, nz));
    } else if nx - x == -1 {
        assert(w.side_exposed(nx + 1, ny, nz));
    } else if nz - z == 1 {
        assert(w.side_exposed(nx, ny, nz - 1));
    } else {
        assert(w.side_exposed(nx, ny, nz + 1));
    }
    assert(w.is_exposed(nx, ny, nz));
}

/// A solid block touching the world boundary is always visible: the side
/// facing out of world bounds counts as exposed.
pub proof fn lemma_world_edge_visible(w: World, x: int, y: int, z: int)
    requires
        w.wf(),
        w.in_grid(x, y, z),
        w.id_at(x, y, z) != 0,
        x == 0 || z == 0 || y == 0 || y == 255,
    ensures
        w.vis_at(x, y, z),
{
    if x == 0 {
        assert(w.side_exposed(x - 1, y, z));
    } else if z == 0 {
        assert(w.side_exposed(x, y, z - 1));
    } else if y == 0 {
        assert(w.side_exposed(x, y - 1, z));
    } else {
        assert(w.side_exposed(x, y + 1, z));
    }
}

/// A solid block at the maximum rendered coordinate is always visible: the
/// strip of grid cells beyond it can never hold a solid block, so the
/// outward-facing side sees air.
pub proof fn lemma_rendered_edge_visible(w: World, x: int, y: int, z: int)
    requires
        w.wf(),
        w.in_grid(x, y, z),
        w.id_at(x, y, z) != 0,
        x + 2 == w.dim() || z + 2 == w.dim(),
    ensures
        w.vis_at(x, y, z),
{
    if x + 2 == w.dim() {
        assert(w.in_grid(x + 1, y, z));
        if w.id_at(x + 1, y, z) != 0 {
            assert(x + 1 + 1 < w.dim());
            assert(false);
        }
        assert(w.side_exposed(x + 1, y, z));
    } else {
        assert(w.in_grid(x, y, z + 1));
        if w.id_at(x, y, z + 1) != 0 {
            assert(false);
        }
        assert(w.side_exposed(x, y, z + 1));
    }
}

} // verus!
