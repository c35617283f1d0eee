use termcraft::block::BlockType;
use termcraft::fluid::FluidSystem;
use termcraft::world::{World, WORLD_COLUMNS, WORLD_HEIGHT, WORLD_VOLUME};

fn flat_world() -> World {
    let mut blocks = vec![BlockType::Air; WORLD_VOLUME];
    for c in 0..WORLD_COLUMNS {
        blocks[c * WORLD_HEIGHT] = BlockType::Stone;
    }
    World::from_blocks(blocks).unwrap()
}

#[test]
fn source_on_stone_spreads_three_blocks() {
    let mut w = flat_world();
    w.set(10, 1, 10, BlockType::Water);
    let u = FluidSystem::simulate(&w, 10, 10);
    assert_eq!(u.len(), 24);
    assert_eq!(&u[..4], &[(11, 1, 10, BlockType::Water), (9, 1, 10, BlockType::Water), (10, 1, 11, BlockType::Water), (10, 1, 9, BlockType::Water)]);
    for (i, &(x, y, z, b)) in u.iter().enumerate() {
        assert_eq!(b, BlockType::Water);
        assert_eq!(y, 1);
        let d = (x - 10).abs() + (z - 10).abs();
        assert!(d >= 1 && d <= 3);
        for &(x2, y2, z2, _) in &u[i + 1..] {
            assert!((x, y, z) != (x2, y2, z2));
        }
    }
}

#[test]
fn floating_water_drains() {
    let mut w = flat_world();
    w.set(20, 5, 20, BlockType::Water);
    let u = FluidSystem::simulate(&w, 20, 20);
    assert_eq!(u, vec![(20, 5, 20, BlockType::Air)]);
}

#[test]
fn water_under_water_does_not_drain() {
    let mut w = flat_world();
    w.set(20, 5, 20, BlockType::Water);
    w.set(20, 6, 20, BlockType::Water);
    let u = FluidSystem::simulate(&w, 20, 20);
    // the top one rests on water: a source, it flows sideways;
    // the bottom one has water above it: it stays
    assert!(!u.contains(&(20, 5, 20, BlockType::Air)));
    assert!(u.contains(&(21, 6, 20, BlockType::Water)));
}

#[test]
fn water_falls_off_a_pillar() {
    let mut w = flat_world();
    w.set(30, 1, 30, BlockType::Stone);
    w.set(30, 2, 30, BlockType::Stone);
    w.set(30, 3, 30, BlockType::Water);
    let u = FluidSystem::simulate(&w, 30, 30);
    assert_eq!(u[0], (31, 3, 30, BlockType::Water));
    assert!(u.contains(&(31, 2, 30, BlockType::Water)));
    assert!(u.contains(&(31, 1, 30, BlockType::Water)));
    assert!(u.contains(&(34, 1, 30, BlockType::Water)));
    assert!(!u.contains(&(35, 1, 30, BlockType::Water)));
    assert!(u.iter().all(|t| t.3 == BlockType::Water));
}

#[test]
fn water_far_away_is_left_alone() {
    let mut w = flat_world();
    w.set(200, 5, 200, BlockType::Water);
    assert!(FluidSystem::simulate(&w, 10, 10).is_empty());
}
