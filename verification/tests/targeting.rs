use voxel_core::block::{Block, BlockType};
use voxel_core::camera::Camera;
use voxel_core::coords::Vec3;
use voxel_core::game::Game;

#[test]
fn camera_targets_block_straight_ahead() {
    let mut game = Game::new(0, 1);
    let b = Block::new(BlockType::Cobblestone);
    game.world.set_block(0, 0, 1, &b);
    let camera = Camera::new();
    let hit = camera.get_targeted_block(&game).expect("should hit the block ahead");
    assert_eq!(hit.x, 0);
    assert_eq!(hit.y, 0);
    assert_eq!(hit.z, 1);
    assert_eq!(hit.block_id, 1);
}

#[test]
fn camera_targets_nothing_in_empty_world() {
    let game = Game::new(0, 1);
    let camera = Camera::new();
    assert!(camera.get_targeted_block(&game).is_none());
}

#[test]
fn first_hit_wins_along_the_ray() {
    let mut game = Game::new(0, 1);
    let b = Block::new(BlockType::Dirt);
    game.world.set_block(0, 0, 1, &b);
    game.world.set_block(0, 0, 2, &b);
    let camera = Camera::new();
    let hit = camera.get_targeted_block(&game).unwrap();
    assert_eq!((hit.x, hit.y, hit.z), (0, 0, 1));
}

#[test]
fn ray_budget_is_two_blocks() {
    // ten steps of a fifth of the forward vector stay within two block
    // edges of the start; a block three cells out is beyond the budget
    let mut game = Game::new(0, 1);
    let b = Block::new(BlockType::Grass);
    game.world.set_block(0, 0, 3, &b);
    let camera = Camera::new();
    assert!(camera.get_targeted_block(&game).is_none());
}

#[test]
fn camera_translate_moves_position() {
    let mut camera = Camera::new();
    camera.translate(Vec3::new(1500, -2000, 250));
    camera.translate(Vec3::new(500, 0, 250));
    assert_eq!(camera.position, Vec3::new(2000, -2000, 500));
    assert_eq!(camera.forward, Vec3::new(0, 0, 1000));
}
