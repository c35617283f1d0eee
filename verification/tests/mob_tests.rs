use termcraft::block::{BlockType, TermColor};
use termcraft::mob::{astar, MobType};
use termcraft::world::{World, WORLD_COLUMNS, WORLD_HEIGHT, WORLD_VOLUME};

fn flat_world() -> World {
    let mut blocks = vec![BlockType::Air; WORLD_VOLUME];
    for c in 0..WORLD_COLUMNS {
        blocks[c * WORLD_HEIGHT] = BlockType::Stone;
    }
    World::from_blocks(blocks).unwrap()
}

fn is_move(p: (i32, i32, i32), q: (i32, i32, i32)) -> bool {
    let (dx, dy, dz) = (q.0 - p.0, q.1 - p.1, q.2 - p.2);
    (dy == 0 && dx.abs() + dz.abs() == 1)
        || (dy.abs() == 1 && dx == 0 && dz == 0)
        || (dy == 0 && dx.abs() == 1 && dz.abs() == 1)
}

fn check_path(w: &World, start: (i32, i32, i32), goal: (i32, i32, i32), path: &[(i32, i32, i32)]) {
    assert_eq!(*path.last().unwrap(), goal);
    let mut prev = start;
    for &p in path {
        assert!(is_move(prev, p));
        assert!(!w.get(p.0, p.1, p.2).is_solid());
        assert!(!w.get(p.0, p.1 + 1, p.2).is_solid());
        assert!(w.get(p.0, p.1 - 1, p.2).is_solid());
        prev = p;
    }
}

#[test]
fn mob_types() {
    assert_eq!(MobType::Zombie.glyph(), 'Z');
    assert_eq!(MobType::Slime.glyph(), 'S');
    assert_eq!(MobType::Zombie.color(), TermColor::Green);
    assert_eq!(MobType::Slime.color(), TermColor::DarkGreen);
    assert_eq!(MobType::Zombie.initial_health(), 20);
    assert_eq!(MobType::Slime.initial_health(), 8);
}

#[test]
fn straight_path_on_flat_ground() {
    let w = flat_world();
    let path = astar(&w, (5, 1, 5), (9, 1, 5));
    assert_eq!(path.len(), 4);
    check_path(&w, (5, 1, 5), (9, 1, 5), &path);
}

#[test]
fn diagonal_moves_shorten_paths() {
    let w = flat_world();
    let path = astar(&w, (5, 1, 5), (8, 1, 8));
    assert_eq!(path.len(), 3);
    check_path(&w, (5, 1, 5), (8, 1, 8), &path);
}

#[test]
fn path_around_a_wall() {
    let mut w = flat_world();
    for z in 0..12 {
        w.set(10, 1, z, BlockType::Stone);
        w.set(10, 2, z, BlockType::Stone);
    }
    let path = astar(&w, (8, 1, 5), (12, 1, 5));
    assert!(!path.is_empty());
    check_path(&w, (8, 1, 5), (12, 1, 5), &path);
    assert!(path.iter().all(|p| p.0 != 10 || p.2 >= 12));
}

#[test]
fn start_at_goal_or_unreachable_goal_gives_no_path() {
    let w = flat_world();
    assert!(astar(&w, (5, 1, 5), (5, 1, 5)).is_empty());
    assert!(astar(&w, (5, 1, 5), (5, 9, 5)).is_empty());
    assert!(astar(&w, (5, 1, 5), (300, 1, 5)).is_empty());
}

#[test]
fn far_start_gives_no_path() {
    let w = flat_world();
    assert!(astar(&w, (1 << 29, 1, 5), (5, 1, 5)).is_empty());
}
