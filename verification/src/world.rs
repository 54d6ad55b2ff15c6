//! The chunked voxel world and its face-exposure bookkeeping.
//!
//! A `Chunk` owns a dense 16 (x) × 16 (z) × 256 (y) array of block ids in a
//! single flat buffer, plus the set of its currently visible blocks: the solid
//! blocks with at least one face-adjacent neighbor that is air or outside
//! world bounds. A `World` owns a square grid of chunks, indexed by
//! `(x / 16, z / 16)`. The central invariant, `World::wf`, says that every
//! chunk's visible set is exactly the extension of the exposure predicate:
//! no stale and no missing entries after any `set_block` call completes.

use vstd::prelude::*;
use crate::block::BlockPos;

verus! {

/// Total voxels in one chunk: 16 (x) by 16 (z) by 256 (y).
pub const CHUNK_VOLUME: usize = 65536;

/// A fixed 16 × 16 × 256 voxel sub-volume of the world: the unit of storage
/// and of visibility bookkeeping. `blocks` is a flat buffer addressed by
/// `(local_x * 16 + local_z) * 256 + y`.
pub struct Chunk {
    pub blocks: Vec<u8>,
    pub visible_blocks: Vec<BlockPos>,
}

impl Chunk {
    /// The flat-buffer index of local coordinates.
    pub open spec fn flat_index(lx: int, lz: int, y: int) -> int {
        lx * 4096 + lz * 256 + y
    }

    /// The block id stored at local coordinates.
    pub open spec fn id_at(self, lx: int, lz: int, y: int) -> u8 {
        self.blocks@[Chunk::flat_index(lx, lz, y)]
    }

    /// The dense array has exactly one slot per voxel.
    pub open spec fn storage_wf(self) -> bool {
        self.blocks@.len() == CHUNK_VOLUME
    }

    /// Some visible-set entry sits at the given world coordinates.
    pub open spec fn has_pos(self, x: int, y: int, z: int) -> bool {
        seq_has_pos(self.visible_blocks@, x, y, z)
    }

    /// The exact entry `e` is in the visible set.
    pub open spec fn has_entry(self, e: BlockPos) -> bool {
        seq_has_entry(self.visible_blocks@, e)
    }

    /// No two visible-set entries share a position: the set is keyed by
    /// coordinates alone.
    pub open spec fn dedup(self) -> bool {
        seq_dedup(self.visible_blocks@)
    }

    /// Direct indexed read of one voxel by chunk-local coordinates; the
    /// caller must pre-validate the ranges.
    pub fn get(&self, x: usize, z: usize, y: usize) -> (r: u8)
        requires
            self.storage_wf(),
            x < 16,
            z < 16,
            y < 256,
        ensures
            r == self.id_at(x as int, z as int, y as int),
    {
        proof {
            lemma_flat_index_bounds(x as int, z as int, y as int);
        }
        self.blocks[x * 4096 + z * 256 + y]
    }

    /// Writes one slot of the dense array, leaving the visible set alone.
    fn set_id(&mut self, lx: usize, lz: usize, y: usize, id: u8)
        requires
            old(self).storage_wf(),
            lx < 16,
            lz < 16,
            y < 256,
        ensures
            final(self).storage_wf(),
            final(self).visible_blocks == old(self).visible_blocks,
            final(self).blocks@ == old(self).blocks@.update(
                Chunk::flat_index(lx as int, lz as int, y as int),
                id,
            ),
            forall|a: int, b: int, c: int|
                0 <= a < 16 && 0 <= b < 16 && 0 <= c < 256 ==> #[trigger] final(self).id_at(a, b, c)
                    == (if a == lx && b == lz && c == y {
                    id
                } else {
                    old(self).id_at(a, b, c)
                }),
    {
        let idx = lx * 4096 + lz * 256 + y;
        self.blocks[idx] = id;
        proof {
            assert forall|a: int, b: int, c: int|
                0 <= a < 16 && 0 <= b < 16 && 0 <= c < 256 implies #[trigger] self.id_at(a, b, c)
                == (if a == lx && b == lz && c == y {
                id
            } else {
                old(self).id_at(a, b, c)
            }) by {
                if a == lx && b == lz && c == y {
                } else {
                    lemma_flat_index_injective(a, b, c, lx as int, lz as int, y as int);
                }
            }
        }
    }

    /// Records `p` as visible: replaces the entry at `p`'s position if one is
    /// present (refreshing its id snapshot), and appends `p` otherwise.
    fn vis_insert(&mut self, p: BlockPos)
        requires
            old(self).dedup(),
        ensures
            final(self).dedup(),
            final(self).blocks == old(self).blocks,
            forall|q: BlockPos| #[trigger]
                final(self).has_entry(q) <==> (q == p || (old(self).has_entry(q) && !q.at(
                    p.x as int,
                    p.y as int,
                    p.z as int,
                ))),
            forall|x: int, y: int, z: int| #[trigger]
                final(self).has_pos(x, y, z) <==> (old(self).has_pos(x, y, z) || p.at(x, y, z)),
    {
        let n = self.visible_blocks.len();
        let mut i: usize = 0;
        while i < n
            invariant
                n == self.visible_blocks@.len(),
                i <= n,
                *self == *old(self),
                old(self).dedup(),
                forall|j: int|
                    0 <= j < i ==> !(#[trigger] self.visible_blocks@[j]).at(
                        p.x as int,
                        p.y as int,
                        p.z as int,
                    ),
            decreases n - i,
        {
            let e = self.visible_blocks[i];
            if e.x == p.x && e.y == p.y && e.z == p.z {
                proof {
                    lemma_seq_vis_update(old(self).visible_blocks@, i as int, p);
                }
                self.visible_blocks[i] = p;
                return ;
            }
            i += 1;
        }
        proof {
            lemma_seq_vis_push(old(self).visible_blocks@, p);
        }
        self.visible_blocks.push(p);
    }

    /// Deletes the visible-set entry at the given position, if any.
    fn vis_remove(&mut self, x: u32, y: u8, z: u32)
        requires
            old(self).dedup(),
        ensures
            final(self).dedup(),
            final(self).blocks == old(self).blocks,
            forall|q: BlockPos| #[trigger]
                final(self).has_entry(q) <==> (old(self).has_entry(q) && !q.at(
                    x as int,
                    y as int,
                    z as int,
                )),
            forall|a: int, b: int, c: int| #[trigger]
                final(self).has_pos(a, b, c) <==> (old(self).has_pos(a, b, c) && !(a == x && b == y
                    && c == z)),
    {
        let n = self.visible_blocks.len();
        let mut i: usize = 0;
        while i < n
            invariant
                n == self.visible_blocks@.len(),
                i <= n,
                *self == *old(self),
                old(self).dedup(),
                forall|j: int|
                    0 <= j < i ==> !(#[trigger] self.visible_blocks@[j]).at(
                        x as int,
                        y as int,
                        z as int,
                    ),
            decreases n - i,
        {
            let e = self.visible_blocks[i];
            if e.x == x && e.y == y && e.z == z {
                proof {
                    lemma_seq_vis_remove(old(self).visible_blocks@, i as int, x as int, y as int, z as int);
                }
                self.visible_blocks.remove(i);
                return ;
            }
            i += 1;
        }
    }
}

/// No two entries of the sequence share a position.
pub open spec fn seq_dedup(s: Seq<BlockPos>) -> bool {
    forall|i: int, j: int|
        0 <= i < j < s.len() ==> !(#[trigger] s[i]).at(
            (#[trigger] s[j]).x as int,
            s[j].y as int,
            s[j].z as int,
        )
}

/// In a deduplicated sequence, the entry at index `i` is the only one at its
/// position.
proof fn lemma_seq_unique_pos(s: Seq<BlockPos>, i: int, x: int, y: int, z: int)
    requires
        seq_dedup(s),
        0 <= i < s.len(),
        s[i].at(x, y, z),
    ensures
        forall|j: int| 0 <= j < s.len() && j != i ==> !(#[trigger] s[j]).at(x, y, z),
{
    assert forall|j: int| 0 <= j < s.len() && j != i implies !(#[trigger] s[j]).at(x, y, z) by {
        if s[j].at(x, y, z) {
            assert(s[j].x == s[i].x && s[j].y == s[i].y && s[j].z == s[i].z);
            if j < i {
                assert(!s[j].at(s[i].x as int, s[i].y as int, s[i].z as int));
            } else {
                assert(!s[i].at(s[j].x as int, s[j].y as int, s[j].z as int));
            }
        }
    }
}

/// Replacing the unique entry at `p`'s position with `p` keeps the sequence
/// deduplicated; membership gains `p` and loses only the replaced entry.
proof fn lemma_seq_vis_update(s: Seq<BlockPos>, i: int, p: BlockPos)
    requires
        seq_dedup(s),
        0 <= i < s.len(),
        s[i].at(p.x as int, p.y as int, p.z as int),
    ensures
        seq_dedup(s.update(i, p)),
        forall|q: BlockPos| #[trigger]
            seq_has_entry(s.update(i, p), q) <==> (q == p || (seq_has_entry(s, q) && !q.at(
                p.x as int,
                p.y as int,
                p.z as int,
            ))),
        forall|x: int, y: int, z: int| #[trigger]
            seq_has_pos(s.update(i, p), x, y, z) <==> (seq_has_pos(s, x, y, z) || p.at(x, y, z)),
{
    let t = s.update(i, p);
    lemma_seq_unique_pos(s, i, p.x as int, p.y as int, p.z as int);
    assert forall|j1: int, j2: int| 0 <= j1 < j2 < t.len() implies !(#[trigger] t[j1]).at(
        (#[trigger] t[j2]).x as int,
        t[j2].y as int,
        t[j2].z as int,
    ) by {
        if t[j1].at(t[j2].x as int, t[j2].y as int, t[j2].z as int) {
            if j1 == i {
                assert(s[j1].at(s[j2].x as int, s[j2].y as int, s[j2].z as int));
            } else if j2 == i {
                assert(s[j1].at(p.x as int, p.y as int, p.z as int));
                assert(s[j1].at(s[j2].x as int, s[j2].y as int, s[j2].z as int));
            } else {
                assert(s[j1].at(s[j2].x as int, s[j2].y as int, s[j2].z as int));
            }
        }
    }
    assert forall|q: BlockPos| #[trigger] seq_has_entry(t, q) implies (q == p || (seq_has_entry(
        s,
        q,
    ) && !q.at(p.x as int, p.y as int, p.z as int))) by {
        let j = choose|j: int| 0 <= j < t.len() && t[j] == q;
        if j != i {
            assert(s[j] == q);
            assert(seq_has_entry(s, q));
            assert(!s[j].at(p.x as int, p.y as int, p.z as int));
        }
    }
    assert forall|q: BlockPos| (q == p || (seq_has_entry(s, q) && !q.at(
        p.x as int,
        p.y as int,
        p.z as int,
    ))) implies #[trigger] seq_has_entry(t, q) by {
        if q == p {
            assert(t[i] == q);
        } else {
            let j = choose|j: int| 0 <= j < s.len() && s[j] == q;
            assert(j != i);
            assert(t[j] == q);
        }
    }
    assert forall|x: int, y: int, z: int| #[trigger] seq_has_pos(t, x, y, z) implies (seq_has_pos(
        s,
        x,
        y,
        z,
    ) || p.at(x, y, z)) by {
        let j = choose|j: int| 0 <= j < t.len() && (#[trigger] t[j]).at(x, y, z);
        if j != i {
            assert(s[j].at(x, y, z));
        }
    }
    assert forall|x: int, y: int, z: int| (seq_has_pos(s, x, y, z) || p.at(x, y, z)) implies
        #[trigger] seq_has_pos(t, x, y, z) by {
        if p.at(x, y, z) {
            assert(t[i].at(x, y, z));
        } else {
            let j = choose|j: int| 0 <= j < s.len() && (#[trigger] s[j]).at(x, y, z);
            if j == i {
                assert(s[i].x == p.x && s[i].y == p.y && s[i].z == p.z);
                assert(t[i].at(x, y, z));
            } else {
                assert(t[j].at(x, y, z));
            }
        }
    }
}

/// Appending an entry at a fresh position keeps the sequence deduplicated;
/// membership gains exactly that entry.
proof fn lemma_seq_vis_push(s: Seq<BlockPos>, p: BlockPos)
    requires
        seq_dedup(s),
        forall|j: int| 0 <= j < s.len() ==> !(#[trigger] s[j]).at(p.x as int, p.y as int, p.z as int),
    ensures
        seq_dedup(s.push(p)),
        forall|q: BlockPos| #[trigger]
            seq_has_entry(s.push(p), q) <==> (q == p || (seq_has_entry(s, q) && !q.at(
                p.x as int,
                p.y as int,
                p.z as int,
            ))),
        forall|x: int, y: int, z: int| #[trigger]
            seq_has_pos(s.push(p), x, y, z) <==> (seq_has_pos(s, x, y, z) || p.at(x, y, z)),
{
    let t = s.push(p);
    assert forall|j1: int, j2: int| 0 <= j1 < j2 < t.len() implies !(#[trigger] t[j1]).at(
        (#[trigger] t[j2]).x as int,
        t[j2].y as int,
        t[j2].z as int,
    ) by {
        if j2 == s.len() {
            assert(t[j1] == s[j1]);
            assert(t[j2] == p);
        } else {
            assert(t[j1] == s[j1]);
            assert(t[j2] == s[j2]);
        }
    }
    assert forall|q: BlockPos| #[trigger] seq_has_entry(t, q) implies (q == p || (seq_has_entry(
        s,
        q,
    ) && !q.at(p.x as int, p.y as int, p.z as int))) by {
        let j = choose|j: int| 0 <= j < t.len() && t[j] == q;
        if j < s.len() {
            assert(s[j] == q);
            assert(seq_has_entry(s, q));
            assert(!s[j].at(p.x as int, p.y as int, p.z as int));
        }
    }
    assert forall|q: BlockPos| (q == p || (seq_has_entry(s, q) && !q.at(
        p.x as int,
        p.y as int,
        p.z as int,
    ))) implies #[trigger] seq_has_entry(t, q) by {
        if q == p {
            assert(t[s.len() as int] == q);
        } else {
            let j = choose|j: int| 0 <= j < s.len() && s[j] == q;
            assert(t[j] == q);
        }
    }
    assert forall|x: int, y: int, z: int| #[trigger] seq_has_pos(t, x, y, z) implies (seq_has_pos(
        s,
        x,
        y,
        z,
    ) || p.at(x, y, z)) by {
        let j = choose|j: int| 0 <= j < t.len() && (#[trigger] t[j]).at(x, y, z);
        if j < s.len() {
            assert(s[j].at(x, y, z));
        }
    }
    assert forall|x: int, y: int, z: int| (seq_has_pos(s, x, y, z) || p.at(x, y, z)) implies
        #[trigger] seq_has_pos(t, x, y, z) by {
        if p.at(x, y, z) {
            assert(t[s.len() as int].at(x, y, z));
        } else {
            let j = choose|j: int| 0 <= j < s.len() && (#[trigger] s[j]).at(x, y, z);
            assert(t[j].at(x, y, z));
        }
    }
}

/// Removing the unique entry at a position keeps the sequence deduplicated;
/// membership loses exactly that position.
proof fn lemma_seq_vis_remove(s: Seq<BlockPos>, i: int, x: int, y: int, z: int)
    requires
        seq_dedup(s),
        0 <= i < s.len(),
        s[i].at(x, y, z),
    ensures
        seq_dedup(s.remove(i)),
        forall|q: BlockPos| #[trigger]
            seq_has_entry(s.remove(i), q) <==> (seq_has_entry(s, q) && !q.at(x, y, z)),
        forall|a: int, b: int, c: int| #[trigger]
            seq_has_pos(s.remove(i), a, b, c) <==> (seq_has_pos(s, a, b, c) && !(a == x && b == y
                && c == z)),
{
    let t = s.remove(i);
    lemma_seq_unique_pos(s, i, x, y, z);
    assert(t.len() == s.len() - 1);
    assert forall|j: int| 0 <= j < t.len() implies #[trigger] t[j] == (if j < i {
        s[j]
    } else {
        s[j + 1]
    }) by {}
    assert forall|j1: int, j2: int| 0 <= j1 < j2 < t.len() implies !(#[trigger] t[j1]).at(
        (#[trigger] t[j2]).x as int,
        t[j2].y as int,
        t[j2].z as int,
    ) by {
        let o1: int = if j1 < i { j1 } else { j1 + 1 };
        let o2: int = if j2 < i { j2 } else { j2 + 1 };
        assert(t[j1] == s[o1]);
        assert(t[j2] == s[o2]);
        assert(o1 < o2);
    }
    assert forall|q: BlockPos| #[trigger] seq_has_entry(t, q) implies (seq_has_entry(s, q) && !q.at(
        x,
        y,
        z,
    )) by {
        let j = choose|j: int| 0 <= j < t.len() && t[j] == q;
        let o: int = if j < i { j } else { j + 1 };
        assert(s[o] == q);
        assert(seq_has_entry(s, q));
        assert(o != i);
        assert(!s[o].at(x, y, z));
    }
    assert forall|q: BlockPos| (seq_has_entry(s, q) && !q.at(x, y, z)) implies #[trigger] seq_has_entry(
        t,
        q,
    ) by {
        let j = choose|j: int| 0 <= j < s.len() && s[j] == q;
        assert(j != i);
        if j < i {
            assert(t[j] == q);
        } else {
            assert(t[j - 1] == q);
        }
    }
    assert forall|a: int, b: int, c: int| #[trigger] seq_has_pos(t, a, b, c) implies (seq_has_pos(
        s,
        a,
        b,
        c,
    ) && !(a == x && b == y && c == z)) by {
        let j = choose|j: int| 0 <= j < t.len() && (#[trigger] t[j]).at(a, b, c);
        let o: int = if j < i { j } else { j + 1 };
        assert(s[o].at(a, b, c));
        assert(o != i);
        if a == x && b == y && c == z {
            assert(!s[o].at(x, y, z));
        }
    }
    assert forall|a: int, b: int, c: int| (seq_has_pos(s, a, b, c) && !(a == x && b == y && c == z))
        implies #[trigger] seq_has_pos(t, a, b, c) by {
        let j = choose|j: int| 0 <= j < s.len() && (#[trigger] s[j]).at(a, b, c);
        assert(j != i);
        if j < i {
            assert(t[j].at(a, b, c));
        } else {
            assert(t[j - 1].at(a, b, c));
        }
    }
}

/// Some entry of the sequence sits at the given coordinates.
pub open spec fn seq_has_pos(s: Seq<BlockPos>, x: int, y: int, z: int) -> bool {
    exists|i: int| 0 <= i < s.len() && (#[trigger] s[i]).at(x, y, z)
}

/// The exact entry `e` occurs in the sequence.
pub open spec fn seq_has_entry(s: Seq<BlockPos>, e: BlockPos) -> bool {
    exists|i: int| 0 <= i < s.len() && (#[trigger] s[i]) == e
}

/// World bounds: x and z must be non-negative and y must lie in the stored
/// height range. There is no upper bound on x or z here; the rendered-world
/// variant adds one.
pub open spec fn in_world_bounds(x: int, y: int, z: int) -> bool {
    x >= 0 && z >= 0 && 0 <= y <= 255
}

/// The playable volume: a square grid of chunks. Render distance determines
/// the grid extents; height is fixed at 256.
pub struct World {
    pub chunks: Vec<Vec<Chunk>>,
}

impl World {
    /// Chunks per horizontal axis.
    pub open spec fn grid_n(self) -> int {
        self.chunks@.len() as int
    }

    /// Blocks per horizontal axis.
    pub open spec fn dim(self) -> int {
        16 * self.grid_n()
    }

    /// The grid is square, small enough for index arithmetic, and every chunk
    /// has a full dense buffer.
    pub open spec fn storage_wf(self) -> bool {
        &&& self.grid_n() <= 255
        &&& forall|i: int|
            0 <= i < self.grid_n() ==> (#[trigger] self.chunks@[i])@.len() == self.grid_n()
        &&& forall|i: int, j: int|
            0 <= i < self.grid_n() && 0 <= j < self.grid_n() ==> (#[trigger] self.chunks@[i]@[j]).storage_wf()
    }

    /// The coordinates have a storage slot in the loaded grid.
    pub open spec fn in_grid(self, x: int, y: int, z: int) -> bool {
        0 <= x < self.dim() && 0 <= z < self.dim() && 0 <= y < 256
    }

    /// The block id stored at world coordinates.
    pub open spec fn id_at(self, x: int, y: int, z: int) -> u8 {
        self.chunks@[x / 16]@[z / 16].id_at(x % 16, z % 16, y)
    }

    /// The position is recorded in the visible set of its owning chunk.
    pub open spec fn vis_at(self, x: int, y: int, z: int) -> bool {
        self.chunks@[x / 16]@[z / 16].has_pos(x, y, z)
    }

    /// One side of a voxel counts as exposing when the neighbor on that side
    /// is outside world bounds, or is a loaded air block.
    pub open spec fn side_exposed(self, x: int, y: int, z: int) -> bool {
        !in_world_bounds(x, y, z) || (self.in_grid(x, y, z) && self.id_at(x, y, z) == 0)
    }

    /// The exposure predicate: a solid block with at least one of its six
    /// face-adjacent neighbors air or outside world bounds.
    pub open spec fn is_exposed(self, x: int, y: int, z: int) -> bool {
        &&& self.in_grid(x, y, z)
        &&& self.id_at(x, y, z) != 0
        &&& {
            ||| self.side_exposed(x, y + 1, z)
            ||| self.side_exposed(x, y - 1, z)
            ||| self.side_exposed(x + 1, y, z)
            ||| self.side_exposed(x - 1, y, z)
            ||| self.side_exposed(x, y, z + 1)
            ||| self.side_exposed(x, y, z - 1)
        }
    }

    /// The visible sets are exactly the extension of the exposure predicate.
    pub open spec fn vis_ok(self) -> bool {
        forall|x: int, y: int, z: int|
            self.in_grid(x, y, z) ==> ((#[trigger] self.vis_at(x, y, z)) <==> self.is_exposed(
                x,
                y,
                z,
            ))
    }

    /// Solid blocks keep a one-block margin from the horizontal edge of the
    /// loaded grid, so that every face-adjacent neighbor of a solid block is
    /// either outside world bounds or inside the grid. `set_block` maintains
    /// this because it only accepts rendered-world coordinates.
    pub open spec fn interior_ok(self) -> bool {
        forall|x: int, y: int, z: int|
            self.in_grid(x, y, z) && (#[trigger] self.id_at(x, y, z)) != 0 ==> x + 1 < self.dim()
                && z + 1 < self.dim()
    }

    /// One visible-set entry is sound: it lies in its owning chunk, its id
    /// snapshot matches the stored id, and it is solid.
    pub open spec fn entry_ok(self, cx: int, cz: int, e: BlockPos) -> bool {
        &&& self.in_grid(e.x as int, e.y as int, e.z as int)
        &&& e.x as int / 16 == cx
        &&& e.z as int / 16 == cz
        &&& e.block_id == self.id_at(e.x as int, e.y as int, e.z as int)
        &&& e.block_id != 0
    }

    /// Every visible-set entry of every chunk is sound.
    pub open spec fn entries_ok(self) -> bool {
        forall|cx: int, cz: int, i: int|
            0 <= cx < self.grid_n() && 0 <= cz < self.grid_n() && 0 <= i
                < self.chunks@[cx]@[cz].visible_blocks@.len() ==> self.entry_ok(
                cx,
                cz,
                #[trigger] self.chunks@[cx]@[cz].visible_blocks@[i],
            )
    }

    /// Every visible-set entry of every chunk is sound, except possibly one
    /// at the given position in its owning chunk, whose id snapshot may still
    /// be mid-update.
    pub open spec fn entries_ok_except(self, px: int, py: int, pz: int) -> bool {
        forall|cx: int, cz: int, i: int|
            0 <= cx < self.grid_n() && 0 <= cz < self.grid_n() && 0 <= i
                < self.chunks@[cx]@[cz].visible_blocks@.len() ==> {
                let e = #[trigger] self.chunks@[cx]@[cz].visible_blocks@[i];
                (e.at(px, py, pz) && cx == px / 16 && cz == pz / 16) || self.entry_ok(cx, cz, e)
            }
    }

    /// Every chunk's visible set is keyed by position alone.
    pub open spec fn dedup_ok(self) -> bool {
        forall|cx: int, cz: int|
            0 <= cx < self.grid_n() && 0 <= cz < self.grid_n() ==> (
            #[trigger] self.chunks@[cx]@[cz]).dedup()
    }

    /// Full well-formedness: sound storage and visible sets that are exactly
    /// the exposure predicate's extension.
    pub open spec fn wf(self) -> bool {
        &&& self.storage_wf()
        &&& self.dedup_ok()
        &&& self.entries_ok()
        &&& self.interior_ok()
        &&& self.vis_ok()
    }

    pub fn get_chunk(&self, x: usize, y: usize) -> (c: &Chunk)
        requires
            x < self.grid_n(),
            y < self.grid_n(),
            self.storage_wf(),
        ensures
            *c == self.chunks@[x as int]@[y as int],
    {
        &self.chunks[x][y]
    }

    /// Direct indexed read of a block id; the caller must pre-validate the
    /// coordinates against the loaded grid.
    pub fn get_block_id(&self, x: u32, y: u8, z: u32) -> (r: u8)
        requires
            self.storage_wf(),
            self.in_grid(x as int, y as int, z as int),
        ensures
            r == self.id_at(x as int, y as int, z as int),
    {
        proof {
            lemma_pos_to_chunk(*self, x as int, z as int);
            lemma_flat_index_bounds(x as int % 16, z as int % 16, y as int);
        }
        let cx = (x / 16) as usize;
        let cz = (z / 16) as usize;
        let idx = ((x % 16) as usize) * 4096 + ((z % 16) as usize) * 256 + (y as usize);
        self.chunks[cx][cz].blocks[idx]
    }

    /// The catalog metadata of the block stored at the given coordinates.
    pub fn get_block<'a>(
        &self,
        blocks: &'a crate::block::Blocks,
        x: u32,
        y: u8,
        z: u32,
    ) -> (r: &'a crate::block::Block)
        requires
            self.storage_wf(),
            self.in_grid(x as int, y as int, z as int),
            self.id_at(x as int, y as int, z as int) < blocks.block_map@.len(),
        ensures
            *r == blocks.block_map@[self.id_at(x as int, y as int, z as int) as int],
    {
        blocks.get_block(self.get_block_id(x, y, z))
    }

    pub fn is_in_world_bounds(&self, x: i64, y: i16, z: i64) -> (r: bool)
        ensures
            r == in_world_bounds(x as int, y as int, z as int),
    {
        x >= 0 && z >= 0 && y >= 0 && y <= 255
    }

    /// Rendered-world bounds: within world bounds and at least one block away
    /// from the horizontal edge of the loaded grid of `render_distance`
    /// chunks per side.
    pub fn is_in_rendered_world_bounds(&self, render_distance: u8, x: i64, y: i16, z: i64) -> (r:
        bool)
        ensures
            r == in_rendered_world_bounds(render_distance as int, x as int, y as int, z as int),
    {
        x >= 0 && z >= 0 && y >= 0 && y <= 255 && x < (render_distance as i64) * 16 - 1 && z < (
        render_distance as i64) * 16 - 1
    }

    /// What one probe of a face-adjacent neighbor reports: the real position
    /// and stored id when the neighbor is within world bounds, and a sentinel
    /// with id 0 (air: not solid, not re-applied) otherwise.
    pub open spec fn neighbor_repr(self, x: int, y: int, z: int) -> BlockPos {
        if in_world_bounds(x, y, z) {
            BlockPos { x: x as u32, y: y as u8, z: z as u32, block_id: self.id_at(x, y, z) }
        } else {
            BlockPos { x: 0, y: 0, z: 0, block_id: 0 }
        }
    }

    fn add_if_in_bounds(&self, vec: &mut Vec<BlockPos>, x: i64, y: i16, z: i64)
        requires
            self.storage_wf(),
            in_world_bounds(x as int, y as int, z as int) ==> self.in_grid(
                x as int,
                y as int,
                z as int,
            ),
        ensures
            final(vec)@ == old(vec)@.push(self.neighbor_repr(x as int, y as int, z as int)),
    {
        if self.is_in_world_bounds(x, y, z) {
            let id = self.get_block_id(x as u32, y as u8, z as u32);
            vec.push(BlockPos::new(x as u32, y as u8, z as u32, id));
        } else {
            vec.push(BlockPos::new(0, 0, 0, 0));
        }
    }

    /// The full list of currently visible blocks across all chunks, each with
    /// its world-space position and current id: the derived, rebuilt-on-demand
    /// view handed to the render consumer. It must be regenerated after any
    /// `set_block` call.
    pub fn get_visible_blocks(&self) -> (r: Vec<BlockPos>)
        requires
            self.storage_wf(),
            self.entries_ok(),
            self.dedup_ok(),
        ensures
            seq_dedup(r@),
            forall|t: int|
                0 <= t < r@.len() ==> {
                    let e = #[trigger] r@[t];
                    &&& self.in_grid(e.x as int, e.y as int, e.z as int)
                    &&& e.block_id == self.id_at(e.x as int, e.y as int, e.z as int)
                    &&& e.block_id != 0
                    &&& self.vis_at(e.x as int, e.y as int, e.z as int)
                },
            forall|x: int, y: int, z: int|
                self.in_grid(x, y, z) ==> ((#[trigger] self.vis_at(x, y, z)) <==> seq_has_pos(
                    r@,
                    x,
                    y,
                    z,
                )),
    {
        let mut vec: Vec<BlockPos> = Vec::new();
        let n = self.chunks.len();
        let mut cx: usize = 0;
        while cx < n
            invariant
                self.storage_wf(),
                self.entries_ok(),
                n == self.grid_n(),
                cx <= n,
                forall|t: int|
                    0 <= t < vec@.len() ==> {
                        let e = #[trigger] vec@[t];
                        &&& self.in_grid(e.x as int, e.y as int, e.z as int)
                        &&& e.block_id == self.id_at(e.x as int, e.y as int, e.z as int)
                        &&& e.block_id != 0
                        &&& self.vis_at(e.x as int, e.y as int, e.z as int)
                    },
                forall|x: int, y: int, z: int|
                    self.in_grid(x, y, z) && x / 16 < cx && #[trigger] self.vis_at(x, y, z)
                        ==> seq_has_pos(vec@, x, y, z),
                seq_dedup(vec@),
                self.dedup_ok(),
                forall|t: int| 0 <= t < vec@.len() ==> (#[trigger] vec@[t]).x as int / 16 < cx,
            decreases n - cx,
        {
            let mut cz: usize = 0;
            while cz < n
                invariant
                    self.storage_wf(),
                    self.entries_ok(),
                    n == self.grid_n(),
                    cx < n,
                    cz <= n,
                    forall|t: int|
                        0 <= t < vec@.len() ==> {
                            let e = #[trigger] vec@[t];
                            &&& self.in_grid(e.x as int, e.y as int, e.z as int)
                            &&& e.block_id == self.id_at(e.x as int, e.y as int, e.z as int)
                            &&& e.block_id != 0
                            &&& self.vis_at(e.x as int, e.y as int, e.z as int)
                        },
                    forall|x: int, y: int, z: int|
                        self.in_grid(x, y, z) && (x / 16 < cx || (x / 16 == cx && z / 16 < cz))
                            && #[trigger] self.vis_at(x, y, z) ==> seq_has_pos(vec@, x, y, z),
                    seq_dedup(vec@),
                    self.dedup_ok(),
                    forall|t: int|
                        0 <= t < vec@.len() ==> (#[trigger] vec@[t]).x as int / 16 < cx || (
                        vec@[t].x as int / 16 == cx && vec@[t].z as int / 16 < cz),
                decreases n - cz,
            {
                let chunk = &self.chunks[cx][cz];
                let m = chunk.visible_blocks.len();
                let mut k: usize = 0;
                while k < m
                    invariant
                        self.storage_wf(),
                        self.entries_ok(),
                        n == self.grid_n(),
                        cx < n,
                        cz < n,
                        *chunk == self.chunks@[cx as int]@[cz as int],
                        m == chunk.visible_blocks@.len(),
                        k <= m,
                        forall|t: int|
                            0 <= t < vec@.len() ==> {
                                let e = #[trigger] vec@[t];
                                &&& self.in_grid(e.x as int, e.y as int, e.z as int)
                                &&& e.block_id == self.id_at(e.x as int, e.y as int, e.z as int)
                                &&& e.block_id != 0
                                &&& self.vis_at(e.x as int, e.y as int, e.z as int)
                            },
                        forall|x: int, y: int, z: int|
                            self.in_grid(x, y, z) && (x / 16 < cx || (x / 16 == cx && z / 16 < cz))
                                && #[trigger] self.vis_at(x, y, z) ==> seq_has_pos(vec@, x, y, z),
                        forall|j: int|
                            0 <= j < k ==> seq_has_entry(
                                vec@,
                                #[trigger] chunk.visible_blocks@[j],
                            ),
                        seq_dedup(vec@),
                        self.dedup_ok(),
                        forall|t: int|
                            0 <= t < vec@.len() ==> (#[trigger] vec@[t]).x as int / 16 < cx || (
                            vec@[t].x as int / 16 == cx && vec@[t].z as int / 16 < cz) || exists|j: int|
                                0 <= j < k && chunk.visible_blocks@[j] == vec@[t],
                    decreases m - k,
                {
                    let e = chunk.visible_blocks[k];
                    proof {
                        assert(self.entry_ok(cx as int, cz as int, e));
                        assert forall|t: int| 0 <= t < vec@.len() implies !(#[trigger] vec@[t]).at(
                            e.x as int,
                            e.y as int,
                            e.z as int,
                        ) by {
                            if vec@[t].at(e.x as int, e.y as int, e.z as int) {
                                assert(vec@[t].x as int / 16 == cx && vec@[t].z as int / 16 == cz);
                                let j = choose|j: int|
                                    0 <= j < k && chunk.visible_blocks@[j] == vec@[t];
                                assert(!chunk.visible_blocks@[j].at(
                                    chunk.visible_blocks@[k as int].x as int,
                                    chunk.visible_blocks@[k as int].y as int,
                                    chunk.visible_blocks@[k as int].z as int,
                                ));
                                assert(false);
                            }
                        }
                        lemma_seq_vis_push(vec@, e);
                        lemma_seq_grows(vec@, e);
                    }
                    vec.push(e);
                    k += 1;
                }
                proof {
                    assert forall|x: int, y: int, z: int|
                        self.in_grid(x, y, z) && (x / 16 < cx || (x / 16 == cx && z / 16 < cz + 1))
                            && #[trigger] self.vis_at(x, y, z) implies seq_has_pos(
                        vec@,
                        x,
                        y,
                        z,
                    ) by {
                        if x / 16 == cx && z / 16 == cz {
                            let j = choose|j: int|
                                0 <= j < self.chunks@[cx as int]@[cz as int].visible_blocks@.len()
                                    && (
                                #[trigger] self.chunks@[cx as int]@[cz as int].visible_blocks@[j]).at(
                                    x,
                                    y,
                                    z,
                                );
                            assert(seq_has_entry(
                                vec@,
                                self.chunks@[cx as int]@[cz as int].visible_blocks@[j],
                            ));
                            let t = choose|t: int|
                                0 <= t < vec@.len() && vec@[t]
                                    == self.chunks@[cx as int]@[cz as int].visible_blocks@[j];
                            assert(vec@[t].at(x, y, z));
                        }
                    }
                }
                cz += 1;
            }
            proof {
                assert forall|x: int, y: int, z: int|
                    self.in_grid(x, y, z) && x / 16 < cx + 1 && #[trigger] self.vis_at(x, y, z)
                        implies seq_has_pos(vec@, x, y, z) by {
                    lemma_pos_to_chunk(*self, x, z);
                }
            }
            cx += 1;
        }
        proof {
            assert forall|x: int, y: int, z: int| self.in_grid(x, y, z) implies ((
            #[trigger] self.vis_at(x, y, z)) <==> seq_has_pos(vec@, x, y, z)) by {
                lemma_pos_to_chunk(*self, x, z);
                if seq_has_pos(vec@, x, y, z) {
                    let t = choose|t: int| 0 <= t < vec@.len() && (#[trigger] vec@[t]).at(x, y, z);
                    assert(self.vis_at(vec@[t].x as int, vec@[t].y as int, vec@[t].z as int));
                }
            }
        }
        vec
    }

    /// The solidity the collision resolver samples at a continuous point:
    /// the round-half-up cell holds a non-zero id. A cell outside the loaded
    /// grid counts as not solid, matching the policy that space beyond the
    /// loaded region never blocks movement.
    pub open spec fn solid_at(self, fx: int, fy: int, fz: int) -> bool {
        &&& self.in_grid(
            crate::coords::cell_round(fx),
            crate::coords::cell_round(fy),
            crate::coords::cell_round(fz),
        )
        &&& self.id_at(
            crate::coords::cell_round(fx),
            crate::coords::cell_round(fy),
            crate::coords::cell_round(fz),
        ) != 0
    }

    /// Rounds each fixed-point coordinate half-up to the nearest block cell
    /// and reports whether that cell holds a solid block.
    pub fn is_solid_block(&self, x: i64, y: i64, z: i64) -> (r: bool)
        requires
            self.storage_wf(),
            -100 * crate::coords::COORD_LIMIT <= x <= 100 * crate::coords::COORD_LIMIT,
            -100 * crate::coords::COORD_LIMIT <= y <= 100 * crate::coords::COORD_LIMIT,
            -100 * crate::coords::COORD_LIMIT <= z <= 100 * crate::coords::COORD_LIMIT,
        ensures
            r == self.solid_at(x as int, y as int, z as int),
    {
        let cx = crate::coords::block_cell(x);
        let cy = crate::coords::block_cell(y);
        let cz = crate::coords::block_cell(z);
        let dim = (self.chunks.len() as i64) * 16;
        if 0 <= cx && cx < dim && 0 <= cz && cz < dim && 0 <= cy && cy < 256 {
            self.get_block_id(cx as u32, cy as u8, cz as u32) > 0
        } else {
            false
        }
    }

    /// Mutable access to one chunk of the grid.
    fn chunk_mut(&mut self, cx: usize, cz: usize) -> (c: &mut Chunk)
        requires
            (cx as int) < old(self).grid_n(),
            (cz as int) < old(self).chunks@[cx as int]@.len(),
        ensures
            *c == old(self).chunks@[cx as int]@[cz as int],
            final(self).chunks@.len() == old(self).chunks@.len(),
            forall|i: int|
                0 <= i < old(self).chunks@.len() && i != cx ==> final(self).chunks@[i] == old(
                    self,
                ).chunks@[i],
            final(self).chunks@[cx as int]@ == old(self).chunks@[cx as int]@.update(
                cz as int,
                *final(c),
            ),
    {
        &mut self.chunks[cx][cz]
    }

    /// Writes one block id, then recomputes the exposure of that position
    /// alone: the position is in its chunk's visible set afterwards exactly
    /// when the freshly written state exposes it. Neighbors' visible-set
    /// entries are left untouched, so `vis_ok` may be stale at them until the
    /// caller re-applies them (see `set_block`).
    fn set_block_ignore_neighbors(&mut self, raw_x: u32, raw_y: u8, raw_z: u32, block: u8)
        requires
            old(self).storage_wf(),
            old(self).dedup_ok(),
            old(self).entries_ok(),
            old(self).interior_ok(),
            old(self).in_grid(raw_x as int, raw_y as int, raw_z as int),
            raw_x as int + 1 < old(self).dim(),
            raw_z as int + 1 < old(self).dim(),
        ensures
            final(self).storage_wf(),
            final(self).dedup_ok(),
            final(self).entries_ok(),
            final(self).interior_ok(),
            final(self).grid_n() == old(self).grid_n(),
            forall|a: int, b: int, c: int|
                old(self).in_grid(a, b, c) ==> #[trigger] final(self).id_at(a, b, c) == (if a
                    == raw_x && b == raw_y && c == raw_z {
                    block
                } else {
                    old(self).id_at(a, b, c)
                }),
            forall|a: int, b: int, c: int|
                old(self).in_grid(a, b, c) && !(a == raw_x && b == raw_y && c == raw_z) ==> ((
                #[trigger] final(self).vis_at(a, b, c)) <==> old(self).vis_at(a, b, c)),
            final(self).vis_at(raw_x as int, raw_y as int, raw_z as int) <==> final(self).is_exposed(
                raw_x as int,
                raw_y as int,
                raw_z as int,
            ),
    {
        let ghost w0 = *old(self);
        let ghost px = raw_x as int;
        let ghost py = raw_y as int;
        let ghost pz = raw_z as int;
        proof {
            lemma_pos_to_chunk(w0, px, pz);
        }
        let cx = (raw_x / 16) as usize;
        let cz = (raw_z / 16) as usize;
        let lx = (raw_x % 16) as usize;
        let lz = (raw_z % 16) as usize;

        let c = self.chunk_mut(cx, cz);
        c.set_id(lx, lz, raw_y as usize, block);
        let ghost w1 = *self;
        proof {
            lemma_chunk_replaced(w0, w1, cx as int, cz as int);
            assert forall|a: int, b: int, c2: int| w0.in_grid(a, b, c2) implies #[trigger] w1.id_at(
                a,
                b,
                c2,
            ) == (if a == px && b == py && c2 == pz {
                block
            } else {
                w0.id_at(a, b, c2)
            }) by {
                lemma_pos_to_chunk(w0, a, c2);
                if a / 16 == cx && c2 / 16 == cz {
                    if a == px && b == py && c2 == pz {
                        assert(a % 16 == lx && c2 % 16 == lz);
                    } else {
                        if a % 16 == lx && c2 % 16 == lz && b == py {
                            lemma_same_cell(a, c2, px, pz);
                            assert(false);
                        }
                    }
                }
            }
            assert forall|a: int, b: int, c2: int| w0.in_grid(a, b, c2) implies ((
            #[trigger] w1.vis_at(a, b, c2)) <==> w0.vis_at(a, b, c2)) by {
                lemma_pos_to_chunk(w0, a, c2);
                assert(w1.chunks@[a / 16]@[c2 / 16].visible_blocks == w0.chunks@[a / 16]@[c2
                    / 16].visible_blocks);
            }
            assert(w1.storage_wf());
            assert forall|i: int, j: int|
                0 <= i < w1.grid_n() && 0 <= j < w1.grid_n() implies (
            #[trigger] w1.chunks@[i]@[j]).visible_blocks == w0.chunks@[i]@[j].visible_blocks by {}
            assert(w1.dedup_ok());
            assert(w1.interior_ok()) by {
                assert forall|a: int, b: int, c2: int|
                    w1.in_grid(a, b, c2) && (#[trigger] w1.id_at(a, b, c2)) != 0 implies a + 1
                    < w1.dim() && c2 + 1 < w1.dim() by {
                    if a == px && b == py && c2 == pz {
                    } else {
                        assert(w0.id_at(a, b, c2) != 0);
                    }
                }
            }
            assert(w1.entries_ok_except(px, py, pz)) by {
                assert forall|i: int, j: int, k: int|
                    0 <= i < w1.grid_n() && 0 <= j < w1.grid_n() && 0 <= k
                        < w1.chunks@[i]@[j].visible_blocks@.len() implies {
                    let e = #[trigger] w1.chunks@[i]@[j].visible_blocks@[k];
                    (e.at(px, py, pz) && i == px / 16 && j == pz / 16) || w1.entry_ok(i, j, e)
                } by {
                    let e = w1.chunks@[i]@[j].visible_blocks@[k];
                    assert(e == w0.chunks@[i]@[j].visible_blocks@[k]);
                    assert(w0.entry_ok(i, j, e));
                    if e.at(px, py, pz) {
                        assert(i == e.x as int / 16 && j == e.z as int / 16);
                    } else {
                        assert(w1.id_at(e.x as int, e.y as int, e.z as int) == w0.id_at(
                            e.x as int,
                            e.y as int,
                            e.z as int,
                        ));
                    }
                }
            }
        }

        if block != 0 {
            let neighbors = self.get_facial_neighbors(raw_x as i64, raw_y as i16, raw_z as i64);
            let mut exposed = false;
            let mut k: usize = 0;
            while k < 6
                invariant
                    *self == w1,
                    neighbors@.len() == 6,
                    k <= 6,
                    exposed <==> exists|j: int|
                        0 <= j < k && (#[trigger] neighbors@[j]).block_id == 0,
                decreases 6 - k,
            {
                if neighbors[k].block_id == 0 {
                    exposed = true;
                }
                k += 1;
            }
            proof {
                assert(exposed <==> exists|j: int|
                    0 <= j < 6 && (#[trigger] neighbors@[j]).block_id == 0);
                lemma_exposure_from_neighbor_ids(w1, px, py, pz, neighbors@);
                assert(exposed <==> w1.is_exposed(px, py, pz));
            }
            if exposed {
                let c2 = self.chunk_mut(cx, cz);
                c2.vis_insert(BlockPos { x: raw_x, y: raw_y, z: raw_z, block_id: block });
                proof {
                    let w2 = *self;
                    lemma_chunk_replaced(w1, w2, cx as int, cz as int);
                    lemma_after_vis_change(
                        w1,
                        w2,
                        cx as int,
                        cz as int,
                        px,
                        py,
                        pz,
                        true,
                        BlockPos { x: raw_x, y: raw_y, z: raw_z, block_id: block },
                    );
                }
                return ;
            }
        }
        let c3 = self.chunk_mut(cx, cz);
        c3.vis_remove(raw_x, raw_y, raw_z);
        proof {
            let w2 = *self;
            lemma_chunk_replaced(w1, w2, cx as int, cz as int);
            lemma_after_vis_change(
                w1,
                w2,
                cx as int,
                cz as int,
                px,
                py,
                pz,
                false,
                BlockPos { x: raw_x, y: raw_y, z: raw_z, block_id: block },
            );
            if block != 0 {
                assert(!w1.is_exposed(px, py, pz));
                assert(!w2.is_exposed(px, py, pz)) by {
                    lemma_same_ids_same_exposure(w1, w2, px, py, pz);
                }
            } else {
                assert(!w2.is_exposed(px, py, pz));
            }
        }
    }

    /// Re-derives the visible-set membership of one probed neighbor by
    /// re-applying its own current id. A probe with id 0 (air, or the
    /// out-of-bounds sentinel) is not solid and is left alone.
    fn reapply(&mut self, bp: BlockPos)
        requires
            old(self).storage_wf(),
            old(self).dedup_ok(),
            old(self).entries_ok(),
            old(self).interior_ok(),
            bp.block_id != 0 ==> old(self).in_grid(bp.x as int, bp.y as int, bp.z as int) && old(
                self,
            ).id_at(bp.x as int, bp.y as int, bp.z as int) == bp.block_id,
        ensures
            final(self).storage_wf(),
            final(self).dedup_ok(),
            final(self).entries_ok(),
            final(self).interior_ok(),
            final(self).grid_n() == old(self).grid_n(),
            forall|a: int, b: int, c: int|
                old(self).in_grid(a, b, c) ==> #[trigger] final(self).id_at(a, b, c) == old(
                    self,
                ).id_at(a, b, c),
            bp.block_id == 0 ==> *final(self) == *old(self),
            bp.block_id != 0 ==> forall|a: int, b: int, c: int|
                old(self).in_grid(a, b, c) && !bp.at(a, b, c) ==> ((#[trigger] final(self).vis_at(
                    a,
                    b,
                    c,
                )) <==> old(self).vis_at(a, b, c)),
            bp.block_id != 0 ==> (final(self).vis_at(bp.x as int, bp.y as int, bp.z as int) <==>
                final(self).is_exposed(bp.x as int, bp.y as int, bp.z as int)),
    {
        if bp.block_id != 0 {
            proof {
                assert(old(self).id_at(bp.x as int, bp.y as int, bp.z as int) != 0);
            }
            self.set_block_ignore_neighbors(bp.x, bp.y, bp.z, bp.block_id);
        }
    }

    /// Writes a block id and restores the exposure bookkeeping everywhere:
    /// the write position is recomputed, and each solid face-adjacent
    /// neighbor is re-applied with its own current id, which keeps the
    /// visible sets of neighboring chunks correct across chunk boundaries.
    /// On return the whole world is well-formed again: the visible sets are
    /// exactly the exposure predicate's extension.
    pub fn set_block(&mut self, x: u32, y: u8, z: u32, block: &crate::block::Block)
        requires
            old(self).wf(),
            old(self).in_grid(x as int, y as int, z as int),
            x as int + 1 < old(self).dim(),
            z as int + 1 < old(self).dim(),
        ensures
            final(self).wf(),
            final(self).grid_n() == old(self).grid_n(),
            forall|a: int, b: int, c: int|
                old(self).in_grid(a, b, c) ==> #[trigger] final(self).id_at(a, b, c) == (if a == x
                    && b == y && c == z {
                    block.id
                } else {
                    old(self).id_at(a, b, c)
                }),
    {
        let ghost w0 = *old(self);
        let ghost px = x as int;
        let ghost py = y as int;
        let ghost pz = z as int;
        self.set_block_ignore_neighbors(x, y, z, block.id);
        let neighbors = self.get_facial_neighbors(x as i64, y as i16, z as i64);
        let ghost w1 = *self;

        let n0 = neighbors[0];
        proof {
            assert(n0 == w1.neighbor_repr(px, py + 1, pz));
        }
        self.reapply(n0);
        let ghost w2 = *self;
        let n1 = neighbors[1];
        proof {
            assert(n1 == w1.neighbor_repr(px, py - 1, pz));
            lemma_ids_equal_chain2(w1, w2, n1.x as int, n1.y as int, n1.z as int);
        }
        self.reapply(n1);
        let ghost w3 = *self;
        let n2 = neighbors[2];
        proof {
            assert(n2 == w1.neighbor_repr(px + 1, py, pz));
            lemma_ids_equal_chain2(w1, w3, n2.x as int, n2.y as int, n2.z as int);
        }
        self.reapply(n2);
        let ghost w4 = *self;
        let n3 = neighbors[3];
        proof {
            assert(n3 == w1.neighbor_repr(px - 1, py, pz));
            lemma_ids_equal_chain2(w1, w4, n3.x as int, n3.y as int, n3.z as int);
        }
        self.reapply(n3);
        let ghost w5 = *self;
        let n4 = neighbors[4];
        proof {
            assert(n4 == w1.neighbor_repr(px, py, pz + 1));
            lemma_ids_equal_chain2(w1, w5, n4.x as int, n4.y as int, n4.z as int);
        }
        self.reapply(n4);
        let ghost w6 = *self;
        let n5 = neighbors[5];
        proof {
            assert(n5 == w1.neighbor_repr(px, py, pz - 1));
            lemma_ids_equal_chain2(w1, w6, n5.x as int, n5.y as int, n5.z as int);
        }
        self.reapply(n5);

        proof {
            let wf_ = *self;
            assert(wf_.grid_n() == w1.grid_n());
            assert forall|a: int, b: int, c: int| w1.in_grid(a, b, c) implies #[trigger] wf_.id_at(
                a,
                b,
                c,
            ) == w1.id_at(a, b, c) by {
                assert(w2.id_at(a, b, c) == w1.id_at(a, b, c));
                assert(w3.id_at(a, b, c) == w2.id_at(a, b, c));
                assert(w4.id_at(a, b, c) == w3.id_at(a, b, c));
                assert(w5.id_at(a, b, c) == w4.id_at(a, b, c));
                assert(w6.id_at(a, b, c) == w5.id_at(a, b, c));
                assert(wf_.id_at(a, b, c) == w6.id_at(a, b, c));
            }
            assert forall|a: int, b: int, c: int| wf_.in_grid(a, b, c) implies ((
            #[trigger] wf_.vis_at(a, b, c)) <==> wf_.is_exposed(a, b, c)) by {
                lemma_set_block_vis_case(
                    w0, w1, w2, w3, w4, w5, w6, wf_, px, py, pz, neighbors@, a, b, c,
                );
            }
            assert(wf_.vis_ok());
        }
    }

    /// The six face-adjacent neighbors of a position, in the order up, down,
    /// +x, -x, +z, -z, each resolved to its position and current id when
    /// within world bounds and to the sentinel `(0, 0, 0, 0)` otherwise.
    pub fn get_facial_neighbors(&mut self, x: i64, y: i16, z: i64) -> (r: Vec<BlockPos>)
        requires
            old(self).storage_wf(),
            old(self).in_grid(x as int, y as int, z as int),
            x + 1 < old(self).dim(),
            z + 1 < old(self).dim(),
        ensures
            *final(self) == *old(self),
            r@.len() == 6,
            r@[0] == old(self).neighbor_repr(x as int, y as int + 1, z as int),
            r@[1] == old(self).neighbor_repr(x as int, y as int - 1, z as int),
            r@[2] == old(self).neighbor_repr(x as int + 1, y as int, z as int),
            r@[3] == old(self).neighbor_repr(x as int - 1, y as int, z as int),
            r@[4] == old(self).neighbor_repr(x as int, y as int, z as int + 1),
            r@[5] == old(self).neighbor_repr(x as int, y as int, z as int - 1),
    {
        let mut neighbors: Vec<BlockPos> = Vec::new();

        self.add_if_in_bounds(&mut neighbors, x, y + 1, z);
        self.add_if_in_bounds(&mut neighbors, x, y - 1, z);
        self.add_if_in_bounds(&mut neighbors, x + 1, y, z);
        self.add_if_in_bounds(&mut neighbors, x - 1, y, z);
        self.add_if_in_bounds(&mut neighbors, x, y, z + 1);
        self.add_if_in_bounds(&mut neighbors, x, y, z - 1);

        neighbors
    }
}

/// Rendered-world bounds as a predicate over mathematical integers.
pub open spec fn in_rendered_world_bounds(render_distance: int, x: int, y: int, z: int) -> bool {
    x >= 0 && z >= 0 && 0 <= y <= 255 && x + 1 < render_distance * 16 && z + 1 < render_distance
        * 16
}

/// A world coordinate below `16 * g` lands in chunk `x / 16`, which is below
/// `g`, at local offset `x % 16`.
pub proof fn lemma_pos_to_chunk(w: World, x: int, z: int)
    requires
        0 <= x < w.dim(),
        0 <= z < w.dim(),
    ensures
        0 <= x / 16 < w.grid_n(),
        0 <= z / 16 < w.grid_n(),
        0 <= x % 16 < 16,
        0 <= z % 16 < 16,
        x == 16 * (x / 16) + x % 16,
        z == 16 * (z / 16) + z % 16,
{
    assert(0 <= x / 16 < w.grid_n() && 0 <= x % 16 < 16 && x == 16 * (x / 16) + x % 16)
        by (nonlinear_arith)
        requires
            0 <= x < 16 * w.grid_n(),
    ;
    assert(0 <= z / 16 < w.grid_n() && 0 <= z % 16 < 16 && z == 16 * (z / 16) + z % 16)
        by (nonlinear_arith)
        requires
            0 <= z < 16 * w.grid_n(),
    ;
}

/// The flat chunk index of in-range local coordinates stays within the dense
/// buffer.
pub proof fn lemma_flat_index_bounds(lx: int, lz: int, y: int)
    requires
        0 <= lx < 16,
        0 <= lz < 16,
        0 <= y < 256,
    ensures
        0 <= Chunk::flat_index(lx, lz, y) < 65536,
{
}

/// Distinct in-range local coordinates have distinct flat chunk indices.
pub proof fn lemma_flat_index_injective(lx1: int, lz1: int, y1: int, lx2: int, lz2: int, y2: int)
    requires
        0 <= lx1 < 16,
        0 <= lz1 < 16,
        0 <= y1 < 256,
        0 <= lx2 < 16,
        0 <= lz2 < 16,
        0 <= y2 < 256,
        !(lx1 == lx2 && lz1 == lz2 && y1 == y2),
    ensures
        Chunk::flat_index(lx1, lz1, y1) != Chunk::flat_index(lx2, lz2, y2),
{
}

/// Two world coordinates agree exactly when they agree on owning chunk and
/// local offset.
pub proof fn lemma_same_cell(x1: int, z1: int, x2: int, z2: int)
    requires
        0 <= x1,
        0 <= z1,
        0 <= x2,
        0 <= z2,
        x1 / 16 == x2 / 16,
        z1 / 16 == z2 / 16,
        x1 % 16 == x2 % 16,
        z1 % 16 == z2 % 16,
    ensures
        x1 == x2 && z1 == z2,
{
    assert(x1 == 16 * (x1 / 16) + x1 % 16 && x2 == 16 * (x2 / 16) + x2 % 16) by (nonlinear_arith)
        requires
            0 <= x1 && 0 <= x2,
    ;
    assert(z1 == 16 * (z1 / 16) + z1 % 16 && z2 == 16 * (z2 / 16) + z2 % 16) by (nonlinear_arith)
        requires
            0 <= z1 && 0 <= z2,
    ;
}


/// Replacing one chunk of the grid leaves every other chunk, and the grid
/// shape, unchanged.
proof fn lemma_chunk_replaced(w0: World, w1: World, cx: int, cz: int)
    requires
        w0.storage_wf(),
        0 <= cx < w0.grid_n(),
        0 <= cz < w0.grid_n(),
        w1.chunks@.len() == w0.chunks@.len(),
        forall|i: int| 0 <= i < w0.grid_n() && i != cx ==> w1.chunks@[i] == w0.chunks@[i],
        w1.chunks@[cx]@ == w0.chunks@[cx]@.update(cz, w1.chunks@[cx]@[cz]),
    ensures
        w1.grid_n() == w0.grid_n(),
        forall|i: int| 0 <= i < w1.grid_n() ==> (#[trigger] w1.chunks@[i])@.len() == w0.chunks@[i]@.len(),
        forall|i: int, j: int|
            0 <= i < w1.grid_n() && 0 <= j < w1.grid_n() && !(i == cx && j == cz) ==> (
            #[trigger] w1.chunks@[i]@[j]) == w0.chunks@[i]@[j],
{
    assert forall|i: int| 0 <= i < w1.grid_n() implies (#[trigger] w1.chunks@[i])@.len()
        == w0.chunks@[i]@.len() by {
        if i != cx {
            assert(w1.chunks@[i] == w0.chunks@[i]);
        }
    }
    assert forall|i: int, j: int|
        0 <= i < w1.grid_n() && 0 <= j < w1.grid_n() && !(i == cx && j == cz) implies (
    #[trigger] w1.chunks@[i]@[j]) == w0.chunks@[i]@[j] by {
        if i != cx {
            assert(w1.chunks@[i] == w0.chunks@[i]);
        } else {
            assert(w1.chunks@[cx]@[j] == w0.chunks@[cx]@.update(cz, w1.chunks@[cx]@[cz])[j]);
        }
    }
}

/// Exposure of one position, read off a probe of its six face-adjacent
/// neighbors: some probe reports id 0 exactly when some side is exposing.
proof fn lemma_exposure_from_neighbor_ids(
    w: World,
    px: int,
    py: int,
    pz: int,
    ns: Seq<BlockPos>,
)
    requires
        w.storage_wf(),
        w.in_grid(px, py, pz),
        px + 1 < w.dim(),
        pz + 1 < w.dim(),
        w.id_at(px, py, pz) != 0,
        ns.len() == 6,
        ns[0] == w.neighbor_repr(px, py + 1, pz),
        ns[1] == w.neighbor_repr(px, py - 1, pz),
        ns[2] == w.neighbor_repr(px + 1, py, pz),
        ns[3] == w.neighbor_repr(px - 1, py, pz),
        ns[4] == w.neighbor_repr(px, py, pz + 1),
        ns[5] == w.neighbor_repr(px, py, pz - 1),
    ensures
        (exists|j: int| 0 <= j < 6 && (#[trigger] ns[j]).block_id == 0) <==> w.is_exposed(
            px,
            py,
            pz,
        ),
{
    if exists|j: int| 0 <= j < 6 && (#[trigger] ns[j]).block_id == 0 {
        let j = choose|j: int| 0 <= j < 6 && (#[trigger] ns[j]).block_id == 0;
        assert(w.is_exposed(px, py, pz));
    }
    if w.is_exposed(px, py, pz) {
        if w.side_exposed(px, py + 1, pz) {
            assert(ns[0].block_id == 0);
        } else if w.side_exposed(px, py - 1, pz) {
            assert(ns[1].block_id == 0);
        } else if w.side_exposed(px + 1, py, pz) {
            assert(ns[2].block_id == 0);
        } else if w.side_exposed(px - 1, py, pz) {
            assert(ns[3].block_id == 0);
        } else if w.side_exposed(px, py, pz + 1) {
            assert(ns[4].block_id == 0);
        } else {
            assert(ns[5].block_id == 0);
        }
    }
}

/// Equal stored ids over an equal grid give equal exposure at any position.
pub proof fn lemma_same_ids_same_exposure(wa: World, wb: World, x: int, y: int, z: int)
    requires
        wa.grid_n() == wb.grid_n(),
        forall|a: int, b: int, c: int|
            wa.in_grid(a, b, c) ==> #[trigger] wa.id_at(a, b, c) == wb.id_at(a, b, c),
    ensures
        wa.is_exposed(x, y, z) == wb.is_exposed(x, y, z),
{
}

/// After one chunk's visible set changed at a single position, and nothing
/// else changed, the whole world's ids are untouched, the bookkeeping
/// invariants hold again in full, and visibility changed at that position
/// alone. `inserted` tells whether the entry `pe` was inserted (the position
/// is a member afterwards) or the position was removed.
#[verifier::rlimit(40)]
proof fn lemma_after_vis_change(
    w1: World,
    w2: World,
    cx: int,
    cz: int,
    px: int,
    py: int,
    pz: int,
    inserted: bool,
    pe: BlockPos,
)
    requires
        w1.storage_wf(),
        w1.dedup_ok(),
        w1.entries_ok_except(px, py, pz),
        w1.interior_ok(),
        w1.in_grid(px, py, pz),
        0 <= cx < w1.grid_n(),
        0 <= cz < w1.grid_n(),
        px / 16 == cx,
        pz / 16 == cz,
        w2.grid_n() == w1.grid_n(),
        forall|i: int| 0 <= i < w2.grid_n() ==> (#[trigger] w2.chunks@[i])@.len() == w1.chunks@[i]@.len(),
        forall|i: int, j: int|
            0 <= i < w2.grid_n() && 0 <= j < w2.grid_n() && !(i == cx && j == cz) ==> (
            #[trigger] w2.chunks@[i]@[j]) == w1.chunks@[i]@[j],
        w2.chunks@[cx]@[cz].blocks == w1.chunks@[cx]@[cz].blocks,
        w2.chunks@[cx]@[cz].dedup(),
        pe.x == px && pe.y == py && pe.z == pz,
        inserted ==> pe.block_id == w1.id_at(px, py, pz) && pe.block_id != 0,
        inserted ==> forall|q: BlockPos| #[trigger]
            w2.chunks@[cx]@[cz].has_entry(q) <==> (q == pe || (w1.chunks@[cx]@[cz].has_entry(q)
                && !q.at(px, py, pz))),
        inserted ==> forall|a: int, b: int, c: int| #[trigger]
            w2.chunks@[cx]@[cz].has_pos(a, b, c) <==> (w1.chunks@[cx]@[cz].has_pos(a, b, c)
                || pe.at(a, b, c)),
        !inserted ==> forall|q: BlockPos| #[trigger]
            w2.chunks@[cx]@[cz].has_entry(q) <==> (w1.chunks@[cx]@[cz].has_entry(q) && !q.at(
                px,
                py,
                pz,
            )),
        !inserted ==> forall|a: int, b: int, c: int| #[trigger]
            w2.chunks@[cx]@[cz].has_pos(a, b, c) <==> (w1.chunks@[cx]@[cz].has_pos(a, b, c) && !(a
                == px && b == py && c == pz)),
    ensures
        w2.storage_wf(),
        w2.dedup_ok(),
        w2.entries_ok(),
        w2.interior_ok(),
        forall|a: int, b: int, c: int|
            w1.in_grid(a, b, c) ==> #[trigger] w2.id_at(a, b, c) == w1.id_at(a, b, c),
        forall|a: int, b: int, c: int|
            w1.in_grid(a, b, c) && !(a == px && b == py && c == pz) ==> ((#[trigger] w2.vis_at(
                a,
                b,
                c,
            )) <==> w1.vis_at(a, b, c)),
        w2.vis_at(px, py, pz) <==> inserted,
{
    assert forall|a: int, b: int, c: int| w1.in_grid(a, b, c) implies #[trigger] w2.id_at(a, b, c)
        == w1.id_at(a, b, c) by {
        lemma_pos_to_chunk(w1, a, c);
        if a / 16 == cx && c / 16 == cz {
            assert(w2.chunks@[cx]@[cz].blocks == w1.chunks@[cx]@[cz].blocks);
        }
    }
    assert(w2.storage_wf());
    assert(w2.interior_ok()) by {
        assert forall|a: int, b: int, c: int|
            w2.in_grid(a, b, c) && (#[trigger] w2.id_at(a, b, c)) != 0 implies a + 1 < w2.dim() && c
            + 1 < w2.dim() by {
            assert(w1.id_at(a, b, c) != 0);
        }
    }
    assert(w2.dedup_ok()) by {
        assert forall|i: int, j: int|
            0 <= i < w2.grid_n() && 0 <= j < w2.grid_n() implies (
        #[trigger] w2.chunks@[i]@[j]).dedup() by {
            if !(i == cx && j == cz) {
                assert(w2.chunks@[i]@[j] == w1.chunks@[i]@[j]);
            }
        }
    }
    assert(w2.entries_ok()) by {
        assert forall|i: int, j: int, k: int|
            0 <= i < w2.grid_n() && 0 <= j < w2.grid_n() && 0 <= k
                < w2.chunks@[i]@[j].visible_blocks@.len() implies w2.entry_ok(
            i,
            j,
            #[trigger] w2.chunks@[i]@[j].visible_blocks@[k],
        ) by {
            let e = w2.chunks@[i]@[j].visible_blocks@[k];
            if !(i == cx && j == cz) {
                assert(w2.chunks@[i]@[j] == w1.chunks@[i]@[j]);
                if e.at(px, py, pz) && i == px / 16 && j == pz / 16 {
                    lemma_pos_to_chunk(w1, px, pz);
                    assert(false);
                }
                assert(w1.entry_ok(i, j, e));
                assert(w2.id_at(e.x as int, e.y as int, e.z as int) == w1.id_at(
                    e.x as int,
                    e.y as int,
                    e.z as int,
                ));
            } else {
                assert(w2.chunks@[cx]@[cz].has_entry(e));
                if inserted && e == pe {
                    assert(w2.entry_ok(i, j, e));
                } else {
                    assert(w1.chunks@[cx]@[cz].has_entry(e) && !e.at(px, py, pz));
                    let k1 = choose|k1: int|
                        0 <= k1 < w1.chunks@[cx]@[cz].visible_blocks@.len()
                            && w1.chunks@[cx]@[cz].visible_blocks@[k1] == e;
                    assert(w1.entry_ok(cx, cz, e));
                    assert(w2.id_at(e.x as int, e.y as int, e.z as int) == w1.id_at(
                        e.x as int,
                        e.y as int,
                        e.z as int,
                    ));
                }
            }
        }
    }
    assert forall|a: int, b: int, c: int|
        w1.in_grid(a, b, c) && !(a == px && b == py && c == pz) implies ((#[trigger] w2.vis_at(
        a,
        b,
        c,
    )) <==> w1.vis_at(a, b, c)) by {
        lemma_pos_to_chunk(w1, a, c);
        if a / 16 == cx && c / 16 == cz {
        } else {
            assert(w2.chunks@[a / 16]@[c / 16] == w1.chunks@[a / 16]@[c / 16]);
        }
    }
    lemma_pos_to_chunk(w1, px, pz);
    if inserted {
        assert(pe.at(px, py, pz));
        assert(w2.chunks@[cx]@[cz].has_pos(px, py, pz));
    } else {
        assert(!w2.chunks@[cx]@[cz].has_pos(px, py, pz));
    }
}


/// Ids agree between two world states at one position, given that they agree
/// everywhere in the grid.
proof fn lemma_ids_equal_chain2(wa: World, wb: World, x: int, y: int, z: int)
    requires
        wa.grid_n() == wb.grid_n(),
        forall|a: int, b: int, c: int|
            wa.in_grid(a, b, c) ==> #[trigger] wb.id_at(a, b, c) == wa.id_at(a, b, c),
        wa.in_grid(x, y, z) || !wb.in_grid(x, y, z),
    ensures
        wb.in_grid(x, y, z) ==> wb.id_at(x, y, z) == wa.id_at(x, y, z),
{
}

/// Exposure of a position away from a single changed id is unchanged: the
/// position itself and each of its six face-adjacent neighbors read the same
/// ids in both states.
proof fn lemma_exposure_unchanged_away(
    wa: World,
    wb: World,
    px: int,
    py: int,
    pz: int,
    x: int,
    y: int,
    z: int,
)
    requires
        wa.grid_n() == wb.grid_n(),
        forall|a: int, b: int, c: int|
            wa.in_grid(a, b, c) && !(a == px && b == py && c == pz) ==> #[trigger] wa.id_at(a, b, c)
                == wb.id_at(a, b, c),
        !(x == px && y == py && z == pz),
        !(x == px && y == py + 1 && z == pz),
        !(x == px && y == py - 1 && z == pz),
        !(x == px + 1 && y == py && z == pz),
        !(x == px - 1 && y == py && z == pz),
        !(x == px && y == py && z == pz + 1),
        !(x == px && y == py && z == pz - 1),
    ensures
        wa.is_exposed(x, y, z) == wb.is_exposed(x, y, z),
{
    assert(wa.side_exposed(x, y + 1, z) == wb.side_exposed(x, y + 1, z));
    assert(wa.side_exposed(x, y - 1, z) == wb.side_exposed(x, y - 1, z));
    assert(wa.side_exposed(x + 1, y, z) == wb.side_exposed(x + 1, y, z));
    assert(wa.side_exposed(x - 1, y, z) == wb.side_exposed(x - 1, y, z));
    assert(wa.side_exposed(x, y, z + 1) == wb.side_exposed(x, y, z + 1));
    assert(wa.side_exposed(x, y, z - 1) == wb.side_exposed(x, y, z - 1));
}

/// The case analysis behind `set_block`: after the write position was
/// recomputed and all six face-adjacent neighbors were re-applied in order,
/// every in-grid position's visible-set membership matches its exposure.
#[verifier::rlimit(80)]
proof fn lemma_set_block_vis_case(
    w0: World,
    w1: World,
    w2: World,
    w3: World,
    w4: World,
    w5: World,
    w6: World,
    wf_: World,
    px: int,
    py: int,
    pz: int,
    ns: Seq<BlockPos>,
    a: int,
    b: int,
    c: int,
)
    requires
        w0.wf(),
        w0.in_grid(px, py, pz),
        px + 1 < w0.dim(),
        pz + 1 < w0.dim(),
        // the write itself
        w1.grid_n() == w0.grid_n(),
        forall|i: int, j: int, k: int|
            w0.in_grid(i, j, k) && !(i == px && j == py && k == pz) ==> ((#[trigger] w1.vis_at(
                i,
                j,
                k,
            )) <==> w0.vis_at(i, j, k)),
        forall|i: int, j: int, k: int|
            w0.in_grid(i, j, k) && !(i == px && j == py && k == pz) ==> #[trigger] w1.id_at(i, j, k)
                == w0.id_at(i, j, k),
        w1.vis_at(px, py, pz) <==> w1.is_exposed(px, py, pz),
        // the probes
        ns.len() == 6,
        ns[0] == w1.neighbor_repr(px, py + 1, pz),
        ns[1] == w1.neighbor_repr(px, py - 1, pz),
        ns[2] == w1.neighbor_repr(px + 1, py, pz),
        ns[3] == w1.neighbor_repr(px - 1, py, pz),
        ns[4] == w1.neighbor_repr(px, py, pz + 1),
        ns[5] == w1.neighbor_repr(px, py, pz - 1),
        // the six re-applications, in order
        reapply_step(w1, w2, ns[0]),
        reapply_step(w2, w3, ns[1]),
        reapply_step(w3, w4, ns[2]),
        reapply_step(w4, w5, ns[3]),
        reapply_step(w5, w6, ns[4]),
        reapply_step(w6, wf_, ns[5]),
        wf_.in_grid(a, b, c),
    ensures
        (#[trigger] wf_.vis_at(a, b, c)) <==> wf_.is_exposed(a, b, c),
{
    assert(w2.grid_n() == w1.grid_n() && w3.grid_n() == w1.grid_n() && w4.grid_n() == w1.grid_n()
        && w5.grid_n() == w1.grid_n() && w6.grid_n() == w1.grid_n() && wf_.grid_n()
        == w1.grid_n());
    assert forall|i: int, j: int, k: int| w1.in_grid(i, j, k) implies #[trigger] wf_.id_at(i, j, k)
        == w1.id_at(i, j, k) by {
        assert(w2.id_at(i, j, k) == w1.id_at(i, j, k));
        assert(w3.id_at(i, j, k) == w2.id_at(i, j, k));
        assert(w4.id_at(i, j, k) == w3.id_at(i, j, k));
        assert(w5.id_at(i, j, k) == w4.id_at(i, j, k));
        assert(w6.id_at(i, j, k) == w5.id_at(i, j, k));
        assert(wf_.id_at(i, j, k) == w6.id_at(i, j, k));
    }
    if a == px && b == py && c == pz {
        // membership at the write position is settled by the write and is not
        // touched by any re-application: every probe sits at another position
        assert(w2.vis_at(a, b, c) <==> w1.vis_at(a, b, c));
        assert(w3.vis_at(a, b, c) <==> w2.vis_at(a, b, c));
        assert(w4.vis_at(a, b, c) <==> w3.vis_at(a, b, c));
        assert(w5.vis_at(a, b, c) <==> w4.vis_at(a, b, c));
        assert(w6.vis_at(a, b, c) <==> w5.vis_at(a, b, c));
        assert(wf_.vis_at(a, b, c) <==> w6.vis_at(a, b, c));
        lemma_same_ids_same_exposure(w1, wf_, a, b, c);
    } else if a == px && b == py + 1 && c == pz {
        lemma_reapplied_position_settled(w1, w2, w3, w4, w5, w6, wf_, ns, 0, a, b, c, w0, px, py, pz);
    } else if a == px && b == py - 1 && c == pz {
        lemma_reapplied_position_settled(w1, w2, w3, w4, w5, w6, wf_, ns, 1, a, b, c, w0, px, py, pz);
    } else if a == px + 1 && b == py && c == pz {
        lemma_reapplied_position_settled(w1, w2, w3, w4, w5, w6, wf_, ns, 2, a, b, c, w0, px, py, pz);
    } else if a == px - 1 && b == py && c == pz {
        lemma_reapplied_position_settled(w1, w2, w3, w4, w5, w6, wf_, ns, 3, a, b, c, w0, px, py, pz);
    } else if a == px && b == py && c == pz + 1 {
        lemma_reapplied_position_settled(w1, w2, w3, w4, w5, w6, wf_, ns, 4, a, b, c, w0, px, py, pz);
    } else if a == px && b == py && c == pz - 1 {
        lemma_reapplied_position_settled(w1, w2, w3, w4, w5, w6, wf_, ns, 5, a, b, c, w0, px, py, pz);
    } else {
        // positions away from the write and its neighbors: membership and
        // exposure both carry over from the initial state
        assert(w1.vis_at(a, b, c) <==> w0.vis_at(a, b, c));
        assert(w2.vis_at(a, b, c) <==> w1.vis_at(a, b, c));
        assert(w3.vis_at(a, b, c) <==> w2.vis_at(a, b, c));
        assert(w4.vis_at(a, b, c) <==> w3.vis_at(a, b, c));
        assert(w5.vis_at(a, b, c) <==> w4.vis_at(a, b, c));
        assert(w6.vis_at(a, b, c) <==> w5.vis_at(a, b, c));
        assert(wf_.vis_at(a, b, c) <==> w6.vis_at(a, b, c));
        assert forall|i: int, j: int, k: int|
            w0.in_grid(i, j, k) && !(i == px && j == py && k == pz) implies #[trigger] wf_.id_at(
            i,
            j,
            k,
        ) == w0.id_at(i, j, k) by {
            assert(w1.id_at(i, j, k) == w0.id_at(i, j, k));
        }
        lemma_exposure_unchanged_away(w0, wf_, px, py, pz, a, b, c);
        assert(w0.vis_at(a, b, c) <==> w0.is_exposed(a, b, c));
    }
}

/// The relation that one `reapply` call leaves between consecutive world
/// states.
spec fn reapply_step(wa: World, wb: World, bp: BlockPos) -> bool {
    &&& wb.grid_n() == wa.grid_n()
    &&& forall|a: int, b: int, c: int|
        wa.in_grid(a, b, c) ==> #[trigger] wb.id_at(a, b, c) == wa.id_at(a, b, c)
    &&& (bp.block_id == 0 ==> wb == wa)
    &&& (bp.block_id != 0 ==> forall|a: int, b: int, c: int|
        wa.in_grid(a, b, c) && !bp.at(a, b, c) ==> ((#[trigger] wb.vis_at(a, b, c)) <==> wa.vis_at(
            a,
            b,
            c,
        )))
    &&& (bp.block_id != 0 ==> (wb.vis_at(bp.x as int, bp.y as int, bp.z as int) <==> wb.is_exposed(
        bp.x as int,
        bp.y as int,
        bp.z as int,
    )))
}

/// After the `k`-th neighbor was re-applied, its membership stays settled:
/// later re-applications touch other positions and never change an id.
#[verifier::rlimit(80)]
proof fn lemma_reapplied_position_settled(
    w1: World,
    w2: World,
    w3: World,
    w4: World,
    w5: World,
    w6: World,
    wf_: World,
    ns: Seq<BlockPos>,
    k: int,
    a: int,
    b: int,
    c: int,
    w0: World,
    px: int,
    py: int,
    pz: int,
)
    requires
        0 <= k < 6,
        ns.len() == 6,
        w0.wf(),
        w0.in_grid(px, py, pz),
        w1.grid_n() == w0.grid_n(),
        forall|i: int, j: int, l: int|
            w0.in_grid(i, j, l) && !(i == px && j == py && l == pz) ==> ((#[trigger] w1.vis_at(
                i,
                j,
                l,
            )) <==> w0.vis_at(i, j, l)),
        forall|i: int, j: int, l: int|
            w0.in_grid(i, j, l) && !(i == px && j == py && l == pz) ==> #[trigger] w1.id_at(i, j, l)
                == w0.id_at(i, j, l),
        reapply_step(w1, w2, ns[0]),
        reapply_step(w2, w3, ns[1]),
        reapply_step(w3, w4, ns[2]),
        reapply_step(w4, w5, ns[3]),
        reapply_step(w5, w6, ns[4]),
        reapply_step(w6, wf_, ns[5]),
        // the position under study is the k-th probe's offset, in bounds, and
        // differs from the write position
        ns[k] == w1.neighbor_repr(a, b, c),
        wf_.in_grid(a, b, c),
        !(a == px && b == py && c == pz),
        // all probes sit at pairwise distinct positions or are air
        forall|j: int|
            0 <= j < 6 && j != k && (#[trigger] ns[j]).block_id != 0 ==> !ns[j].at(a, b, c),
    ensures
        (#[trigger] wf_.vis_at(a, b, c)) <==> wf_.is_exposed(a, b, c),
{
    assert(w2.grid_n() == w1.grid_n() && w3.grid_n() == w1.grid_n() && w4.grid_n() == w1.grid_n()
        && w5.grid_n() == w1.grid_n() && w6.grid_n() == w1.grid_n() && wf_.grid_n()
        == w1.grid_n());
    assert(w1.in_grid(a, b, c));
    assert(in_world_bounds(a, b, c));
    let bp = ns[k];
    if bp.block_id != 0 {
        assert(bp.x == a && bp.y == b && bp.z == c);
        assert(bp.at(a, b, c));
        // settled at step k + 1; membership then carries to the end, and ids
        // never change, so exposure carries too
        if k == 0 {
            assert(w2.vis_at(a, b, c) <==> w2.is_exposed(a, b, c));
            assert(w3.vis_at(a, b, c) <==> w2.vis_at(a, b, c));
            assert(w4.vis_at(a, b, c) <==> w3.vis_at(a, b, c));
            assert(w5.vis_at(a, b, c) <==> w4.vis_at(a, b, c));
            assert(w6.vis_at(a, b, c) <==> w5.vis_at(a, b, c));
            assert(wf_.vis_at(a, b, c) <==> w6.vis_at(a, b, c));
            lemma_same_ids_same_exposure(w2, wf_, a, b, c);
        } else if k == 1 {
            assert(w3.vis_at(a, b, c) <==> w3.is_exposed(a, b, c));
            assert(w4.vis_at(a, b, c) <==> w3.vis_at(a, b, c));
            assert(w5.vis_at(a, b, c) <==> w4.vis_at(a, b, c));
            assert(w6.vis_at(a, b, c) <==> w5.vis_at(a, b, c));
            assert(wf_.vis_at(a, b, c) <==> w6.vis_at(a, b, c));
            lemma_same_ids_same_exposure(w3, wf_, a, b, c);
        } else if k == 2 {
            assert(w4.vis_at(a, b, c) <==> w4.is_exposed(a, b, c));
            assert(w5.vis_at(a, b, c) <==> w4.vis_at(a, b, c));
            assert(w6.vis_at(a, b, c) <==> w5.vis_at(a, b, c));
            assert(wf_.vis_at(a, b, c) <==> w6.vis_at(a, b, c));
            lemma_same_ids_same_exposure(w4, wf_, a, b, c);
        } else if k == 3 {
            assert(w5.vis_at(a, b, c) <==> w5.is_exposed(a, b, c));
            assert(w6.vis_at(a, b, c) <==> w5.vis_at(a, b, c));
            assert(wf_.vis_at(a, b, c) <==> w6.vis_at(a, b, c));
            lemma_same_ids_same_exposure(w5, wf_, a, b, c);
        } else if k == 4 {
            assert(w6.vis_at(a, b, c) <==> w6.is_exposed(a, b, c));
            assert(wf_.vis_at(a, b, c) <==> w6.vis_at(a, b, c));
            lemma_same_ids_same_exposure(w6, wf_, a, b, c);
        } else {
            assert(wf_.vis_at(a, b, c) <==> wf_.is_exposed(a, b, c));
        }
    } else {
        // the probe reported air: the position's id is 0 in every state, it
        // was not visible before the write, and no step touches it
        assert(bp == w1.neighbor_repr(a, b, c));
        assert(w1.id_at(a, b, c) == 0);
        assert(w0.id_at(a, b, c) == 0);
        assert(!w0.is_exposed(a, b, c));
        assert(!w0.vis_at(a, b, c));
        assert(w1.vis_at(a, b, c) <==> w0.vis_at(a, b, c));
        assert(w2.vis_at(a, b, c) <==> w1.vis_at(a, b, c));
        assert(w3.vis_at(a, b, c) <==> w2.vis_at(a, b, c));
        assert(w4.vis_at(a, b, c) <==> w3.vis_at(a, b, c));
        assert(w5.vis_at(a, b, c) <==> w4.vis_at(a, b, c));
        assert(w6.vis_at(a, b, c) <==> w5.vis_at(a, b, c));
        assert(wf_.vis_at(a, b, c) <==> w6.vis_at(a, b, c));
        assert forall|i: int, j: int, l: int| w1.in_grid(i, j, l) implies #[trigger] wf_.id_at(
            i,
            j,
            l,
        ) == w1.id_at(i, j, l) by {
            assert(w2.id_at(i, j, l) == w1.id_at(i, j, l));
            assert(w3.id_at(i, j, l) == w2.id_at(i, j, l));
            assert(w4.id_at(i, j, l) == w3.id_at(i, j, l));
            assert(w5.id_at(i, j, l) == w4.id_at(i, j, l));
            assert(w6.id_at(i, j, l) == w5.id_at(i, j, l));
            assert(wf_.id_at(i, j, l) == w6.id_at(i, j, l));
        }
        assert(wf_.id_at(a, b, c) == 0);
        assert(!wf_.is_exposed(a, b, c));
        assert(!wf_.vis_at(a, b, c));
    }
}


/// Membership in a sequence of entries survives a push, and the pushed entry
/// becomes a member.
proof fn lemma_seq_grows(s: Seq<BlockPos>, e: BlockPos)
    ensures
        forall|q: BlockPos| seq_has_entry(s, q) ==> #[trigger] seq_has_entry(s.push(e), q),
        forall|x: int, y: int, z: int|
            seq_has_pos(s, x, y, z) ==> #[trigger] seq_has_pos(s.push(e), x, y, z),
        seq_has_entry(s.push(e), e),
        forall|t: int| 0 <= t < s.len() ==> #[trigger] s.push(e)[t] == s[t],
        s.push(e)[s.len() as int] == e,
{
    assert forall|q: BlockPos| seq_has_entry(s, q) implies #[trigger] seq_has_entry(
        s.push(e),
        q,
    ) by {
        let j = choose|j: int| 0 <= j < s.len() && s[j] == q;
        assert(s.push(e)[j] == q);
    }
    assert forall|x: int, y: int, z: int| seq_has_pos(s, x, y, z) implies #[trigger] seq_has_pos(
        s.push(e),
        x,
        y,
        z,
    ) by {
        let j = choose|j: int| 0 <= j < s.len() && (#[trigger] s[j]).at(x, y, z);
        assert(s.push(e)[j].at(x, y, z));
    }
    assert(s.push(e)[s.len() as int] == e);
}

} // verus!
