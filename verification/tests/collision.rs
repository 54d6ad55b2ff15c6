use voxel_core::block::{Block, BlockType};
use voxel_core::coords::Vec3;
use voxel_core::game::Game;
use voxel_core::physics::{resolve_collision, step_player};

fn wall_game() -> Game {
    // a wall filling the cells at x = 4 around the test capsule
    let mut game = Game::new(0, 1);
    let b = Block::new(BlockType::Cobblestone);
    for y in 1..5u8 {
        for z in 1..6u32 {
            game.world.set_block(4, y, z, &b);
        }
    }
    game
}

#[test]
fn wall_clamps_x_while_z_still_moves() {
    // moving diagonally into a wall along +x: the x component is cancelled
    // while the z component survives
    let game = wall_game();
    let old_pos = Vec3::new(2500, 3000, 2500);
    let proposed = Vec3::new(3100, 3000, 3100);
    let (new_pos, grounded) = resolve_collision(&game.world, 1, old_pos, proposed);
    assert_eq!(new_pos, Vec3::new(2500, 3000, 3100));
    assert!(!grounded);
}

#[test]
fn free_movement_is_unclamped() {
    let game = Game::new(0, 1);
    let old_pos = Vec3::new(5000, 9000, 5000);
    let proposed = Vec3::new(5600, 8800, 4700);
    let (new_pos, grounded) = resolve_collision(&game.world, 1, old_pos, proposed);
    assert_eq!(new_pos, proposed);
    assert!(!grounded);
}

#[test]
fn zero_displacement_is_stable() {
    // a degenerate zero-length move is treated like any small displacement
    let game = wall_game();
    let old_pos = Vec3::new(2500, 3000, 2500);
    let (new_pos, grounded) = resolve_collision(&game.world, 1, old_pos, old_pos);
    assert_eq!(new_pos, old_pos);
    assert!(!grounded);
}

#[test]
fn resolver_skipped_outside_rendered_bounds() {
    // a player beyond the loaded region falls without collision: the
    // proposed position comes back untouched
    let game = wall_game();
    let old_pos = Vec3::new(20000, 3000, 2500);
    let proposed = Vec3::new(20000, 1000, 2500);
    let (new_pos, grounded) = resolve_collision(&game.world, 1, old_pos, proposed);
    assert_eq!(new_pos, proposed);
    assert!(!grounded);
}

#[test]
fn falling_player_grounds_and_resets_gravity() {
    // a floor of solid blocks at cell y = 3; the player falls under growing
    // gravity and becomes grounded, with the fall velocity reset to zero,
    // exactly on the tick where the foot corners first reach the floor
    let mut game = Game::new(0, 1);
    let b = Block::new(BlockType::Cobblestone);
    for x in 2..5u32 {
        for z in 2..5u32 {
            game.world.set_block(x, 3, z, &b);
        }
    }
    let mut pos = Vec3::new(3000, 5600, 3000);
    let mut gv: i64 = 0;
    let no_move = Vec3::new(0, 0, 0);

    let expectations = [
        (5500i64, 100i64, false),
        (5300, 200, false),
        (5000, 300, false),
        (5000, 0, true),
    ];
    for (expected_y, expected_gv, expected_grounded) in expectations {
        let (new_pos, new_gv, grounded) = step_player(&game.world, 1, pos, no_move, gv, 100);
        assert_eq!(new_pos.y, expected_y);
        assert_eq!(new_gv, expected_gv);
        assert_eq!(grounded, expected_grounded);
        assert_eq!(new_pos.x, 3000);
        assert_eq!(new_pos.z, 3000);
        pos = new_pos;
        gv = new_gv;
    }
}

#[test]
fn grounded_player_stays_put() {
    // once grounded, a further tick with reset velocity cancels the new fall
    // immediately and keeps the velocity at zero
    let mut game = Game::new(0, 1);
    let b = Block::new(BlockType::Cobblestone);
    for x in 2..5u32 {
        for z in 2..5u32 {
            game.world.set_block(x, 3, z, &b);
        }
    }
    let pos = Vec3::new(3000, 5000, 3000);
    let (new_pos, new_gv, grounded) = step_player(&game.world, 1, pos, Vec3::new(0, 0, 0), 0, 400);
    assert_eq!(new_pos.y, 5000);
    assert_eq!(new_gv, 0);
    assert!(grounded);
}
