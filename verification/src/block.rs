//! Block identifiers, positions, and the block catalog.
//!
//! Block id 0 is reserved for air: air is never solid and never rendered.
//! A `BlockPos` is keyed by its coordinates alone; the carried `block_id` is a
//! convenience snapshot for render consumers, and the runtime `==` compares
//! positions only.

use vstd::prelude::*;

verus! {

/// A block coordinate in world space, together with a snapshot of the id
/// stored there. Runtime equality compares the coordinates only.
#[derive(Clone, Copy, Debug)]
pub struct BlockPos {
    pub x: u32,
    pub y: u8,
    pub z: u32,
    pub block_id: u8,
}

impl BlockPos {
    /// True when this entry sits at the given coordinates.
    pub open spec fn at(self, x: int, y: int, z: int) -> bool {
        self.x == x && self.y == y && self.z == z
    }

    pub fn new(x: u32, y: u8, z: u32, block_id: u8) -> (r: BlockPos)
        ensures
            r.x == x,
            r.y == y,
            r.z == z,
            r.block_id == block_id,
    {
        BlockPos { x, y, z, block_id }
    }
}

impl PartialEq for BlockPos {
    fn eq(&self, other: &BlockPos) -> (r: bool) {
        self.x == other.x && self.y == other.y && self.z == other.z
    }
}

impl Eq for BlockPos {}

impl vstd::std_specs::cmp::PartialEqSpecImpl for BlockPos {
    open spec fn obeys_eq_spec() -> bool {
        true
    }

    open spec fn eq_spec(&self, other: &BlockPos) -> bool {
        self.x == other.x && self.y == other.y && self.z == other.z
    }
}

/// The block kinds known to the catalog, registered in this order.
#[derive(Clone, Copy, Debug, PartialEq, Eq, Structural)]
pub enum BlockType {
    Air,
    Cobblestone,
    Dirt,
    Grass,
}

/// The id that the catalog assigns to each block kind.
pub open spec fn block_type_id(t: BlockType) -> u8 {
    match t {
        BlockType::Air => 0,
        BlockType::Cobblestone => 1,
        BlockType::Dirt => 2,
        BlockType::Grass => 3,
    }
}

/// Metadata for one registered block kind. Id 0 means air (not solid); any
/// other id is solid, for both collision and face-exposure purposes.
#[derive(Clone, Copy, Debug, PartialEq, Eq, Structural)]
pub struct Block {
    pub id: u8,
}

impl Block {
    pub fn new(id: BlockType) -> (r: Block)
        ensures
            r.id == block_type_id(id),
    {
        let n: u8 = match id {
            BlockType::Air => 0,
            BlockType::Cobblestone => 1,
            BlockType::Dirt => 2,
            BlockType::Grass => 3,
        };
        Block { id: n }
    }
}

/// Failure of a catalog query.
#[derive(Clone, Copy, Debug, PartialEq, Eq, Structural)]
pub enum CatalogError {
    /// The queried id exceeds the number of registered blocks.
    UnknownBlockId,
}

/// The block catalog: an ordered registry mapping small integer ids to block
/// metadata. Ids are assigned sequentially in registration order, so catalog
/// identity is reproducible across runs given the same registration sequence.
pub struct Blocks {
    pub block_map: Vec<Block>,
}

impl Blocks {
    /// Every entry's id equals its index: ids are assigned in registration
    /// order and never removed.
    pub open spec fn wf(self) -> bool {
        &&& self.block_map@.len() <= 256
        &&& forall|i: int|
            0 <= i < self.block_map@.len() ==> (#[trigger] self.block_map@[i]).id == i
    }

    pub fn new() -> (r: Blocks)
        ensures
            r.wf(),
            r.block_map@.len() == 0,
    {
        Blocks { block_map: Vec::new() }
    }

    /// Assigns the next sequential id to a block and records it.
    pub fn register(&mut self) -> (id: u8)
        requires
            old(self).wf(),
            old(self).block_map@.len() < 256,
        ensures
            final(self).wf(),
            id == old(self).block_map@.len(),
            final(self).block_map@ == old(self).block_map@.push(Block { id }),
    {
        let id: u8 = self.block_map.len() as u8;
        self.block_map.push(Block { id });
        id
    }

    /// Registers the four standard block kinds, air first, so that each kind's
    /// catalog id equals `block_type_id` of that kind.
    pub fn initialize(&mut self)
        requires
            old(self).wf(),
            old(self).block_map@.len() == 0,
        ensures
            final(self).wf(),
            final(self).block_map@.len() == 4,
            forall|i: int| 0 <= i < 4 ==> (#[trigger] final(self).block_map@[i]).id == i,
    {
        self.register();
        self.register();
        self.register();
        self.register();
    }

    /// Direct lookup for the hot per-frame path; the caller must pre-validate
    /// the id against `get_block_count`.
    pub fn get_block(&self, id: u8) -> (r: &Block)
        requires
            (id as int) < self.block_map@.len(),
        ensures
            *r == self.block_map@[id as int],
    {
        &self.block_map[id as usize]
    }

    /// Checked lookup: fails exactly when the id exceeds the registered count.
    pub fn lookup(&self, id: u8) -> (r: Result<&Block, CatalogError>)
        ensures
            (id as int) < self.block_map@.len() <==> r is Ok,
            r matches Ok(b) ==> *b == self.block_map@[id as int],
            r matches Err(e) ==> e == CatalogError::UnknownBlockId,
    {
        if (id as usize) < self.block_map.len() {
            Ok(&self.block_map[id as usize])
        } else {
            Err(CatalogError::UnknownBlockId)
        }
    }

    /// The number of registered blocks.
    pub fn get_block_count(&self) -> (r: u8)
        requires
            self.block_map@.len() <= 255,
        ensures
            r == self.block_map@.len(),
    {
        self.block_map.len() as u8
    }
}

} // verus!
