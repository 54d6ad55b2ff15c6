use voxel_core::block::{Block, BlockType};
use voxel_core::game::Game;

fn solid_block() -> Block {
    Block::new(BlockType::Cobblestone)
}

fn air_block() -> Block {
    Block::new(BlockType::Air)
}

fn visible_positions(game: &Game) -> Vec<(u32, u8, u32)> {
    let mut v: Vec<(u32, u8, u32)> = game
        .world
        .get_visible_blocks()
        .iter()
        .map(|b| (b.x, b.y, b.z))
        .collect();
    v.sort();
    v
}

fn is_visible(game: &Game, x: u32, y: u8, z: u32) -> bool {
    game.world
        .get_visible_blocks()
        .iter()
        .any(|b| b.x == x && b.y == y && b.z == z)
}

#[test]
fn air_is_never_visible() {
    let mut game = Game::new(0, 2);
    let b = solid_block();
    game.world.set_block(3, 5, 3, &b);
    game.world.set_block(4, 5, 3, &b);
    game.world.set_block(3, 5, 3, &air_block());
    for e in game.world.get_visible_blocks() {
        assert_ne!(e.block_id, 0);
        assert_ne!(game.world.get_block_id(e.x, e.y, e.z), 0);
    }
    assert!(!is_visible(&game, 3, 5, 3));
    assert!(is_visible(&game, 4, 5, 3));
}

#[test]
fn visible_iff_face_exposed() {
    // a 3x3x3 cube: the center block has all six neighbors solid and is the
    // only one excluded from the visible set
    let mut game = Game::new(0, 1);
    let b = solid_block();
    for x in 4..7u32 {
        for y in 4..7u8 {
            for z in 4..7u32 {
                game.world.set_block(x, y, z, &b);
            }
        }
    }
    assert!(!is_visible(&game, 5, 5, 5));
    for x in 4..7u32 {
        for y in 4..7u8 {
            for z in 4..7u32 {
                if (x, y, z) != (5, 5, 5) {
                    assert!(is_visible(&game, x, y, z));
                }
            }
        }
    }
}

#[test]
fn set_block_idempotent() {
    let b = solid_block();
    let mut once = Game::new(0, 2);
    once.world.set_block(8, 10, 8, &b);
    let mut twice = Game::new(0, 2);
    twice.world.set_block(8, 10, 8, &b);
    twice.world.set_block(8, 10, 8, &b);
    assert_eq!(visible_positions(&once), visible_positions(&twice));
}

#[test]
fn place_then_remove_round_trip() {
    let b = solid_block();
    let mut game = Game::new(0, 2);
    game.world.set_block(8, 10, 8, &b);
    game.world.set_block(9, 10, 8, &b);
    let before = visible_positions(&game);
    game.world.set_block(8, 11, 8, &b);
    game.world.set_block(8, 11, 8, &air_block());
    assert_eq!(before, visible_positions(&game));
}

#[test]
fn world_edges_are_exposed() {
    // placing at x = 0 and at the maximum rendered coordinate must succeed
    // and leave the block visible: the outward-facing side is exposed
    let mut game = Game::new(0, 1);
    let b = solid_block();
    game.world.set_block(0, 5, 3, &b);
    game.world.set_block(14, 5, 3, &b);
    game.world.set_block(3, 0, 3, &b);
    game.world.set_block(3, 255, 3, &b);
    assert!(is_visible(&game, 0, 5, 3));
    assert!(is_visible(&game, 14, 5, 3));
    assert!(is_visible(&game, 3, 0, 3));
    assert!(is_visible(&game, 3, 255, 3));
}

#[test]
fn flat_platform_only_exposed_layers_visible() {
    // a slab filling y = 0..=5 over the whole settable footprint of a
    // one-chunk world: the topmost layer is visible (air above), interior
    // layers covered above and below are not, and the y = 0 layer stays
    // visible because the world edge below counts as exposed
    let mut game = Game::new(0, 1);
    let b = solid_block();
    for x in 0..15u32 {
        for z in 0..15u32 {
            for y in 0..6u8 {
                game.world.set_block(x, y, z, &b);
            }
        }
    }
    assert!(is_visible(&game, 7, 5, 7));
    assert!(is_visible(&game, 7, 0, 7));
    for y in 1..5u8 {
        assert!(!is_visible(&game, 7, y, 7));
    }
    // edge columns of the interior layers face outward and stay visible
    assert!(is_visible(&game, 0, 3, 7));
    assert!(is_visible(&game, 14, 3, 7));
    assert!(is_visible(&game, 7, 3, 0));
    assert!(is_visible(&game, 7, 3, 14));
}

#[test]
fn visible_entry_id_tracks_current_block() {
    let mut game = Game::new(0, 1);
    game.world.set_block(3, 5, 3, &Block::new(BlockType::Cobblestone));
    game.world.set_block(3, 5, 3, &Block::new(BlockType::Dirt));
    let entries = game.world.get_visible_blocks();
    let e = entries
        .iter()
        .find(|b| b.x == 3 && b.y == 5 && b.z == 3)
        .expect("block should be visible");
    assert_eq!(e.block_id, 2);
}

#[test]
fn neighbor_in_other_chunk_is_occluded() {
    // writes at a chunk boundary keep the neighboring chunk's visible set
    // correct: burying a block that lives in another chunk removes it there
    let mut game = Game::new(0, 2);
    let b = solid_block();
    // (15, 5, 8) is in chunk (0, 0); (16, 5, 8) is in chunk (1, 0)
    game.world.set_block(16, 5, 8, &b);
    assert!(is_visible(&game, 16, 5, 8));
    for (x, y, z) in [
        (15u32, 5u8, 8u32),
        (17, 5, 8),
        (16, 4, 8),
        (16, 6, 8),
        (16, 5, 7),
        (16, 5, 9),
    ] {
        game.world.set_block(x, y, z, &b);
    }
    assert!(!is_visible(&game, 16, 5, 8));
    // opening one face re-exposes it
    game.world.set_block(16, 6, 8, &air_block());
    assert!(is_visible(&game, 16, 5, 8));
}

#[test]
fn visible_list_has_one_entry_per_position() {
    let mut game = Game::new(0, 2);
    let b = solid_block();
    for (x, y, z) in [(3u32, 5u8, 3u32), (15, 5, 8), (16, 5, 8), (17, 5, 8), (3, 5, 3)] {
        game.world.set_block(x, y, z, &b);
    }
    let entries = game.world.get_visible_blocks();
    let mut positions: Vec<(u32, u8, u32)> = entries.iter().map(|e| (e.x, e.y, e.z)).collect();
    positions.sort();
    let before = positions.len();
    positions.dedup();
    assert_eq!(positions.len(), before);
}
