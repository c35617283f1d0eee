use termcraft::block::BlockType;
use termcraft::dimension::{activate_portal, check_portal, nether_block, Dimension};
use termcraft::world::{World, WORLD_COLUMNS, WORLD_HEIGHT, WORLD_VOLUME};

fn flat_world() -> World {
    let mut blocks = vec![BlockType::Air; WORLD_VOLUME];
    for c in 0..WORLD_COLUMNS {
        blocks[c * WORLD_HEIGHT] = BlockType::Stone;
    }
    World::from_blocks(blocks).unwrap()
}

fn build_frame(w: &mut World, x: i32, y: i32, z: i32) {
    for dx in 0..4 {
        w.set(x + dx, y, z, BlockType::Obsidian);
        w.set(x + dx, y + 4, z, BlockType::Obsidian);
    }
    for dy in 1..4 {
        w.set(x, y + dy, z, BlockType::Obsidian);
        w.set(x + 3, y + dy, z, BlockType::Obsidian);
    }
}

#[test]
fn dimension_names() {
    assert_eq!(Dimension::Overworld.name(), "Overworld");
    assert_eq!(Dimension::Nether.name(), "Nether");
}

#[test]
fn nether_layers() {
    assert_eq!(nether_block(0, true), BlockType::Lava);
    assert_eq!(nether_block(3, false), BlockType::Lava);
    assert_eq!(nether_block(4, true), BlockType::Netherrack);
    assert_eq!(nether_block(5, true), BlockType::Netherrack);
    assert_eq!(nether_block(6, true), BlockType::Air);
    assert_eq!(nether_block(6, false), BlockType::Netherrack);
    assert_eq!(nether_block(49, true), BlockType::Air);
    assert_eq!(nether_block(50, true), BlockType::Netherrack);
}

#[test]
fn portal_frame_lights_up() {
    let mut w = flat_world();
    assert!(!check_portal(&w, 10, 1, 10));
    build_frame(&mut w, 10, 1, 10);
    assert!(check_portal(&w, 10, 1, 10));
    assert!(!check_portal(&w, 11, 1, 10));
    activate_portal(&mut w, 10, 1, 10);
    for dx in 1..3 {
        for dy in 1..4 {
            assert_eq!(w.get(10 + dx, 1 + dy, 10), BlockType::Portal);
        }
    }
    assert_eq!(w.get(10, 2, 10), BlockType::Obsidian);
    assert_eq!(w.get(13, 5, 10), BlockType::Obsidian);
    assert!(!check_portal(&w, 10, 1, 10));
}

#[test]
fn broken_frames_are_no_portal() {
    let mut w = flat_world();
    build_frame(&mut w, 20, 1, 20);
    w.set(23, 3, 20, BlockType::Stone);
    assert!(!check_portal(&w, 20, 1, 20));
    let mut w = flat_world();
    build_frame(&mut w, 20, 1, 20);
    w.set(21, 2, 20, BlockType::Dirt);
    assert!(!check_portal(&w, 20, 1, 20));
    assert!(!check_portal(&w, i32::MAX, 1, 20));
    assert!(!check_portal(&w, 254, 1, 20));
}

#[test]
fn portal_at_the_edge_lights_inside_the_world_only() {
    let mut w = flat_world();
    activate_portal(&mut w, 254, 1, 0);
    assert_eq!(w.get(255, 2, 0), BlockType::Portal);
    assert_eq!(w.get(256, 2, 0), BlockType::Air);
}
