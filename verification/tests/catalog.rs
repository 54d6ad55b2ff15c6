use voxel_core::block::{Block, BlockPos, BlockType, Blocks, CatalogError};
use voxel_core::game::Game;

#[test]
fn initialize_registers_standard_blocks() {
    let mut catalog = Blocks::new();
    catalog.initialize();
    assert_eq!(catalog.get_block_count(), 4);
    for id in 0..4u8 {
        assert_eq!(catalog.get_block(id).id, id);
    }
}

#[test]
fn register_assigns_sequential_ids() {
    let mut catalog = Blocks::new();
    assert_eq!(catalog.register(), 0);
    assert_eq!(catalog.register(), 1);
    assert_eq!(catalog.register(), 2);
    assert_eq!(catalog.get_block_count(), 3);
}

#[test]
fn lookup_fails_on_unknown_id() {
    let mut catalog = Blocks::new();
    catalog.initialize();
    assert_eq!(catalog.lookup(4).unwrap_err(), CatalogError::UnknownBlockId);
    assert_eq!(catalog.lookup(200).unwrap_err(), CatalogError::UnknownBlockId);
    assert_eq!(catalog.lookup(2).unwrap().id, 2);
}

#[test]
fn block_kinds_map_to_ids() {
    assert_eq!(Block::new(BlockType::Air).id, 0);
    assert_eq!(Block::new(BlockType::Cobblestone).id, 1);
    assert_eq!(Block::new(BlockType::Dirt).id, 2);
    assert_eq!(Block::new(BlockType::Grass).id, 3);
}

#[test]
fn block_pos_equality_is_by_position_only() {
    let a = BlockPos::new(1, 2, 3, 1);
    let b = BlockPos::new(1, 2, 3, 3);
    let c = BlockPos::new(1, 2, 4, 1);
    assert_eq!(a, b);
    assert_ne!(a, c);
}

#[test]
fn world_bounds_checks() {
    let game = Game::new(0, 1);
    assert!(game.world.is_in_world_bounds(0, 0, 0));
    assert!(game.world.is_in_world_bounds(1000000, 255, 7));
    assert!(!game.world.is_in_world_bounds(-1, 5, 0));
    assert!(!game.world.is_in_world_bounds(0, 5, -1));
    assert!(!game.world.is_in_world_bounds(0, -1, 0));
    assert!(!game.world.is_in_world_bounds(0, 256, 0));
}

#[test]
fn rendered_world_bounds_have_one_block_margin() {
    let game = Game::new(0, 1);
    assert!(game.world.is_in_rendered_world_bounds(1, 0, 0, 0));
    assert!(game.world.is_in_rendered_world_bounds(1, 14, 255, 14));
    assert!(!game.world.is_in_rendered_world_bounds(1, 15, 5, 3));
    assert!(!game.world.is_in_rendered_world_bounds(1, 3, 5, 15));
    assert!(!game.world.is_in_rendered_world_bounds(1, -1, 5, 3));
    assert!(game.world.is_in_rendered_world_bounds(2, 30, 5, 3));
    assert!(!game.world.is_in_rendered_world_bounds(2, 31, 5, 3));
}

#[test]
fn facial_neighbors_report_ids_and_sentinels() {
    let mut game = Game::new(0, 1);
    let b = Block::new(BlockType::Dirt);
    game.world.set_block(1, 5, 0, &b);
    // probe the neighbors of (0, 5, 0): +x holds the dirt block, while -x
    // and -z fall outside world bounds and come back as the sentinel
    let ns = game.world.get_facial_neighbors(0, 5, 0);
    assert_eq!(ns.len(), 6);
    let up = &ns[0];
    assert_eq!((up.x, up.y, up.z, up.block_id), (0, 6, 0, 0));
    let px = &ns[2];
    assert_eq!((px.x, px.y, px.z, px.block_id), (1, 5, 0, 2));
    let mx = &ns[3];
    assert_eq!((mx.x, mx.y, mx.z, mx.block_id), (0, 0, 0, 0));
    let mz = &ns[5];
    assert_eq!((mz.x, mz.y, mz.z, mz.block_id), (0, 0, 0, 0));
}

#[test]
fn world_reads_go_through_chunks() {
    let mut game = Game::new(0, 2);
    let mut catalog = Blocks::new();
    catalog.initialize();
    let b = Block::new(BlockType::Grass);
    game.world.set_block(17, 9, 3, &b);
    assert_eq!(game.world.get_block_id(17, 9, 3), 3);
    assert_eq!(game.world.get_block(&catalog, 17, 9, 3).id, 3);
    let chunk = game.world.get_chunk(1, 0);
    assert_eq!(chunk.get(1, 3, 9), 3);
    assert!(chunk
        .visible_blocks
        .iter()
        .any(|e| e.x == 17 && e.y == 9 && e.z == 3 && e.block_id == 3));
    let other = game.world.get_chunk(0, 0);
    assert!(other.visible_blocks.is_empty());
}
