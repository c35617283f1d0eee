use termcraft::block::BlockType;
use termcraft::world::{World, WORLD_COLUMNS, WORLD_HEIGHT, WORLD_VOLUME};

fn flat_world() -> World {
    let mut blocks = vec![BlockType::Air; WORLD_VOLUME];
    for c in 0..WORLD_COLUMNS {
        blocks[c * WORLD_HEIGHT] = BlockType::Stone;
    }
    World::from_blocks(blocks).unwrap()
}

#[test]
fn from_blocks_checks_size() {
    assert!(World::from_blocks(vec![BlockType::Air; 10]).is_none());
    let w = flat_world();
    assert_eq!(w.blocks_ref().len(), WORLD_VOLUME);
    assert_eq!(w.get(3, 0, 7), BlockType::Stone);
    assert_eq!(w.get(3, 1, 7), BlockType::Air);
}

#[test]
fn get_outside_is_air_and_set_outside_is_ignored() {
    let mut w = flat_world();
    assert_eq!(w.get(-1, 0, 0), BlockType::Air);
    assert_eq!(w.get(0, 0, 256), BlockType::Air);
    assert_eq!(w.get(0, 64, 0), BlockType::Air);
    w.set(-1, 5, 5, BlockType::Stone);
    w.set(5, 64, 5, BlockType::Stone);
    assert_eq!(w.get(-1, 5, 5), BlockType::Air);
    assert_eq!(w.get(5, 64, 5), BlockType::Air);
}

#[test]
fn read_after_write() {
    let mut w = flat_world();
    w.set(10, 20, 30, BlockType::Obsidian);
    assert_eq!(w.get(10, 20, 30), BlockType::Obsidian);
    assert_eq!(w.get(10, 21, 30), BlockType::Air);
    assert_eq!(w.get(30, 20, 10), BlockType::Air);
    w.set(10, 20, 30, BlockType::Air);
    assert_eq!(w.get(10, 20, 30), BlockType::Air);
}

#[test]
fn height_of_columns() {
    let mut w = flat_world();
    assert_eq!(w.height_at(4, 4), 0);
    w.set(4, 12, 4, BlockType::Dirt);
    w.set(4, 40, 4, BlockType::Water);
    assert_eq!(w.height_at(4, 4), 12);
    w.set(4, 63, 4, BlockType::Leaves);
    assert_eq!(w.height_at(4, 4), 63);
    assert_eq!(w.height_at(-3, 4), 0);
}

#[test]
fn generated_flat_terrain_and_trees() {
    let w = World::from_heights(&vec![30; WORLD_COLUMNS], 42);
    // a column without a tree
    assert_eq!(w.get(0, 0, 0), BlockType::Stone);
    assert_eq!(w.get(0, 25, 0), BlockType::Stone);
    assert_eq!(w.get(0, 26, 0), BlockType::Dirt);
    assert_eq!(w.get(0, 28, 0), BlockType::Dirt);
    assert_eq!(w.get(0, 29, 0), BlockType::Grass);
    assert_eq!(w.get(0, 30, 0), BlockType::Air);
    assert_eq!(w.height_at(0, 0), 29);
    // the first tree grows at x = 4, z = 16
    for y in 30..34 {
        assert_eq!(w.get(4, y, 16), BlockType::Wood);
    }
    assert_eq!(w.get(4, 34, 16), BlockType::Leaves);
    assert_eq!(w.get(4, 35, 16), BlockType::Air);
    assert_eq!(w.get(5, 32, 16), BlockType::Leaves);
    assert_eq!(w.get(6, 33, 16), BlockType::Leaves);
    assert_eq!(w.get(6, 34, 16), BlockType::Air);
    let (mut wood, mut leaves) = (0, 0);
    for b in w.blocks_ref() {
        match b {
            BlockType::Wood => wood += 1,
            BlockType::Leaves => leaves += 1,
            _ => {}
        }
    }
    assert_eq!(wood, 4040);
    assert_eq!(leaves, 35512);
}

#[test]
fn generated_terrain_low_and_clamped() {
    let mut heights = vec![10; WORLD_COLUMNS];
    heights[0] = -5;
    heights[1] = 500;
    let w = World::from_heights(&heights, 1);
    // raw height 10: stone to 5, sand to 9 (low shore), water to sea level
    assert_eq!(w.get(2, 5, 2), BlockType::Stone);
    assert_eq!(w.get(2, 6, 2), BlockType::Sand);
    assert_eq!(w.get(2, 9, 2), BlockType::Sand);
    assert_eq!(w.get(2, 10, 2), BlockType::Water);
    assert_eq!(w.get(2, 19, 2), BlockType::Water);
    assert_eq!(w.get(2, 20, 2), BlockType::Air);
    // raw -5 clamps to 1: only the bottom stone, water above
    assert_eq!(w.get(0, 0, 0), BlockType::Stone);
    assert_eq!(w.get(0, 1, 0), BlockType::Water);
    // raw 500 clamps to 63: grass at 62
    assert_eq!(w.get(0, 62, 1), BlockType::Grass);
    assert_eq!(w.get(0, 63, 1), BlockType::Air);
    assert_eq!(w.get(0, 58, 1), BlockType::Stone);
    assert_eq!(w.get(0, 59, 1), BlockType::Dirt);
}

#[test]
fn generated_worlds_stand_on_stone() {
    let mut heights = vec![0; WORLD_COLUMNS];
    for (i, h) in heights.iter_mut().enumerate() {
        *h = ((i * 7919) % 70) as i32 - 3;
    }
    let w = World::from_heights(&heights, 7);
    for x in (0..256).step_by(17) {
        for z in (0..256).step_by(13) {
            assert_eq!(w.get(x, 0, z), BlockType::Stone);
        }
    }
}
