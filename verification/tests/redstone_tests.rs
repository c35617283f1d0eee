use termcraft::block::BlockType;
use termcraft::redstone::RedstoneSystem;
use termcraft::world::{World, WORLD_COLUMNS, WORLD_HEIGHT, WORLD_VOLUME};

fn flat_world() -> World {
    let mut blocks = vec![BlockType::Air; WORLD_VOLUME];
    for c in 0..WORLD_COLUMNS {
        blocks[c * WORLD_HEIGHT] = BlockType::Stone;
    }
    World::from_blocks(blocks).unwrap()
}

#[test]
fn lever_powers_a_line_of_dust_and_a_lamp() {
    let mut w = flat_world();
    w.set(10, 1, 10, BlockType::Lever);
    for x in 11..14 {
        w.set(x, 1, 10, BlockType::RedstoneDust);
    }
    w.set(14, 1, 10, BlockType::RedstoneLamp);
    w.set(15, 1, 10, BlockType::RedstoneDust);
    let s = RedstoneSystem::propagate(&w, 10, 10);
    assert_eq!(
        s,
        vec![
            ((10, 1, 10), 15),
            ((11, 1, 10), 14),
            ((12, 1, 10), 13),
            ((13, 1, 10), 12),
            ((14, 1, 10), 12),
            ((15, 1, 10), 11),
        ]
    );
}

#[test]
fn signal_dies_out_after_fifteen_blocks() {
    let mut w = flat_world();
    w.set(30, 1, 30, BlockType::RedstoneTorch);
    for x in 31..50 {
        w.set(x, 1, 30, BlockType::RedstoneDust);
    }
    let s = RedstoneSystem::propagate(&w, 30, 30);
    assert_eq!(s.len(), 15);
    assert_eq!(s[0], ((30, 1, 30), 15));
    assert_eq!(s[14], ((44, 1, 30), 1));
    assert!(s.iter().all(|(p, _)| p.0 != 45));
}

#[test]
fn sources_outside_the_scan_are_not_found() {
    let mut w = flat_world();
    w.set(100, 1, 100, BlockType::Lever);
    w.set(101, 1, 100, BlockType::RedstoneDust);
    assert!(RedstoneSystem::propagate(&w, 10, 10).is_empty());
    assert_eq!(RedstoneSystem::propagate(&w, 90, 90).len(), 2);
}

#[test]
fn two_sources_meet() {
    let mut w = flat_world();
    w.set(50, 1, 50, BlockType::Lever);
    w.set(51, 1, 50, BlockType::RedstoneDust);
    w.set(52, 1, 50, BlockType::RedstoneDust);
    w.set(53, 1, 50, BlockType::RedstoneTorch);
    w.set(50, 2, 50, BlockType::RedstoneDust);
    let s = RedstoneSystem::propagate(&w, 50, 50);
    assert_eq!(
        s,
        vec![
            ((50, 1, 50), 15),
            ((53, 1, 50), 15),
            ((51, 1, 50), 14),
            ((50, 2, 50), 14),
            ((52, 1, 50), 14),
        ]
    );
    for (i, (p, st)) in s.iter().enumerate() {
        assert!(*st >= 1 && *st <= 15);
        for (q, _) in &s[i + 1..] {
            assert_ne!(p, q);
        }
    }
}
