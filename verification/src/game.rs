//! Top-level simulation state: a world sized by render distance.

use vstd::prelude::*;
use crate::world::{Chunk, World};

verus! {

/// The world together with the render distance that sized it.
pub struct Game {
    pub world: World,
    pub render_distance: u8,
}

impl Game {
    /// The world is well-formed and its grid matches the render distance.
    pub open spec fn wf(self) -> bool {
        &&& self.world.wf()
        &&& self.world.grid_n() == self.render_distance
    }

    /// Builds a game over a freshly created, all-air world of
    /// `render_distance` × `render_distance` chunks. Id 0 is the air id.
    pub fn new(air_block: u8, render_distance: u8) -> (r: Game)
        requires
            air_block == 0,
        ensures
            r.wf(),
            r.render_distance == render_distance,
            forall|x: int, y: int, z: int|
                r.world.in_grid(x, y, z) ==> #[trigger] r.world.id_at(x, y, z) == 0,
    {
        Game { world: create_world(air_block, render_distance as usize), render_distance }
    }
}

/// Builds an all-air world of `render_distance` × `render_distance` chunks
/// with empty visible sets, which is exactly what the exposure predicate
/// demands of a world without a single solid block.
pub fn create_world(air_block: u8, render_distance: usize) -> (w: World)
    requires
        air_block == 0,
        render_distance <= 255,
    ensures
        w.wf(),
        w.grid_n() == render_distance,
        forall|x: int, y: int, z: int| w.in_grid(x, y, z) ==> #[trigger] w.id_at(x, y, z) == 0,
{
    let mut chunk_array: Vec<Vec<Chunk>> = Vec::new();

    let mut x: usize = 0;
    while x < render_distance
        invariant
            air_block == 0,
            x <= render_distance,
            chunk_array@.len() == x,
            forall|i: int|
                0 <= i < x ==> (#[trigger] chunk_array@[i])@.len() == render_distance,
            forall|i: int, j: int|
                0 <= i < x && 0 <= j < render_distance ==> all_air_chunk(
                    #[trigger] chunk_array@[i]@[j],
                ),
        decreases render_distance - x,
    {
        let mut row: Vec<Chunk> = Vec::new();
        let mut z: usize = 0;
        while z < render_distance
            invariant
                air_block == 0,
                z <= render_distance,
                row@.len() == z,
                forall|j: int| 0 <= j < z ==> all_air_chunk(#[trigger] row@[j]),
            decreases render_distance - z,
        {
            row.push(create_chunk(air_block));
            z += 1;
        }
        chunk_array.push(row);
        x += 1;
    }

    let w = World { chunks: chunk_array };
    proof {
        assert(w.storage_wf());
        assert forall|x0: int, y0: int, z0: int| w.in_grid(x0, y0, z0) implies #[trigger] w.id_at(
            x0,
            y0,
            z0,
        ) == 0 by {
            crate::world::lemma_pos_to_chunk(w, x0, z0);
            crate::world::lemma_flat_index_bounds(x0 % 16, z0 % 16, y0);
        }
        assert forall|x0: int, y0: int, z0: int| w.in_grid(x0, y0, z0) implies !(
        #[trigger] w.vis_at(x0, y0, z0)) by {
            crate::world::lemma_pos_to_chunk(w, x0, z0);
        }
        assert(w.vis_ok());
        assert(w.interior_ok());
        assert(w.entries_ok());
        assert(w.dedup_ok());
    }
    w
}

/// Every slot holds air and the visible set is empty.
pub open spec fn all_air_chunk(c: Chunk) -> bool {
    &&& c.storage_wf()
    &&& c.visible_blocks@.len() == 0
    &&& forall|i: int| 0 <= i < c.blocks@.len() ==> #[trigger] c.blocks@[i] == 0
}

/// Builds one chunk filled with the air id and an empty visible set.
pub fn create_chunk(air_block: u8) -> (c: Chunk)
    requires
        air_block == 0,
    ensures
        all_air_chunk(c),
{
    let mut block_array: Vec<u8> = Vec::new();
    let mut i: usize = 0;
    while i < 65536
        invariant
            air_block == 0,
            i <= 65536,
            block_array@.len() == i,
            forall|j: int| 0 <= j < i ==> #[trigger] block_array@[j] == 0,
        decreases 65536 - i,
    {
        block_array.push(air_block);
        i += 1;
    }

    Chunk { blocks: block_array, visible_blocks: Vec::new() }
}

} // verus!
