use avoxel::blocks::{Block, BlockLibrary, BlockTexture};
use avoxel::physics::{AvoxelPhysicsState, AvoxelPhysicsStates};

#[test]
fn block_faces_are_numbered_from_the_top() {
    assert_eq!(Block::AIR, 0);
    assert_eq!(
        [Block::TOP, Block::RIGHT, Block::BOTTOM, Block::LEFT, Block::FRONT, Block::BACK],
        [0, 1, 2, 3, 4, 5]
    );
}

#[test]
fn the_default_block_has_no_name_and_the_first_texture() {
    let block = Block::default();
    assert_eq!(block.texture_ids, [0; 6]);
    assert_eq!(block.name, "");
    assert!(!block.ao);
    assert!(!block.transparent);
    assert!(!BlockTexture::default().rand_rot);
}

#[test]
fn a_new_library_is_empty() {
    let library = BlockLibrary::new();
    assert_eq!(library.block_count(), 0);
    assert_eq!(library.block_texture_count(), 0);
    assert_eq!(library.get_texture_path(), None);
    assert_eq!(library.get_texture_count(), 1024);
    assert_eq!(library.get_texture_size(), 32);
}

#[test]
fn the_default_library_has_blocks_to_spare() {
    let library = BlockLibrary::default();
    assert_eq!(library.block_count(), 1024);
    assert_eq!(library.block_texture_count(), 1);
    assert_eq!(library.get_block(0).name, "");
    assert_eq!(library.get_block(1023).texture_ids, [0; 6]);
    assert!(!library.get_block_texture(0).rand_rot);
    assert_eq!(library.get_texture_path(), None);
    assert_eq!(library.get_texture_count(), 1024);
    assert_eq!(library.get_texture_size(), 32);
}

#[test]
fn the_library_is_built_in_a_chain() {
    let mut library = BlockLibrary::new();
    library
        .add_block(Block::default())
        .add_block(Block {
            texture_ids: [1, 2, 3, 4, 5, 6],
            name: String::from("grass"),
            ao: true,
            transparent: false,
        })
        .add_block_texture(BlockTexture { rand_rot: false })
        .add_block_texture(BlockTexture { rand_rot: true })
        .set_texture_path("textures/atlas.png")
        .set_texture_size(16)
        .set_texture_count(7);
    assert_eq!(library.block_count(), 2);
    assert_eq!(library.get_block(1).name, "grass");
    assert_eq!(library.get_block(1).texture_ids[Block::LEFT], 4);
    assert!(library.get_block(1).ao);
    assert!(!library.get_block_texture(0).rand_rot);
    assert!(library.get_block_texture(1).rand_rot);
    assert_eq!(library.get_texture_path(), Some(String::from("textures/atlas.png")));
    assert_eq!(library.get_texture_count(), 7);
    assert_eq!(library.get_texture_size(), 16);
}

#[test]
fn physics_starts_active() {
    let state = AvoxelPhysicsState::default();
    assert!(state.active());
    assert!(!state.paused());
}

#[test]
fn physics_is_paused_and_resumed() {
    let mut state = AvoxelPhysicsState::new(AvoxelPhysicsStates::Paused);
    assert!(state.paused());
    assert!(!state.active());
    state.resume();
    assert!(state.active());
    assert!(!state.paused());
    state.resume();
    assert!(state.active());
    state.pause();
    assert!(state.paused());
    assert!(!state.active());
    state.pause();
    assert!(state.paused());
    let state = AvoxelPhysicsState::new(AvoxelPhysicsStates::Active);
    assert!(state.active());
}

#[test]
fn a_library_is_cloned_with_its_blocks() {
    let mut library = BlockLibrary::new();
    library
        .add_block(Block { texture_ids: [1, 2, 3, 4, 5, 6], name: String::from("grass"), ao: true, transparent: false })
        .add_block_texture(BlockTexture { rand_rot: true })
        .set_texture_path("atlas.png")
        .set_texture_size(8);
    let copy = library.clone();
    library.add_block(Block::default());
    assert_eq!(copy.block_count(), 1);
    assert_eq!(copy.get_block(0).name, "grass");
    assert_eq!(copy.get_block(0).texture_ids, [1, 2, 3, 4, 5, 6]);
    assert!(copy.get_block(0).ao);
    assert!(copy.get_block_texture(0).rand_rot);
    assert_eq!(copy.get_texture_path(), Some(String::from("atlas.png")));
    assert_eq!(copy.texture_size(), 8);
    assert_eq!(copy.get_texture_count(), 1024);
    let block = copy.get_block(0).clone();
    assert_eq!(block.name, "grass");
}
