use termcraft::block::BlockType;
use termcraft::structure::Structures;

fn grid(n: usize) -> Vec<Vec<Vec<BlockType>>> {
    vec![vec![vec![BlockType::Air; n]; n]; n]
}

fn at(g: &Vec<Vec<Vec<BlockType>>>, x: usize, y: usize, z: usize) -> BlockType {
    g[x][z][y]
}

#[test]
fn desert_temple_layout() {
    let mut g = grid(24);
    g[5][5][12] = BlockType::Stone; // inside, at the top layer the temple does not clear
    Structures::desert_temple(&mut g, 2, 5, 2);
    assert_eq!(at(&g, 2, 5, 2), BlockType::Sand);
    assert_eq!(at(&g, 10, 5, 10), BlockType::Sand);
    assert_eq!(at(&g, 11, 5, 11), BlockType::Air);
    assert_eq!(at(&g, 2, 9, 6), BlockType::Sand);
    assert_eq!(at(&g, 10, 12, 3), BlockType::Sand);
    assert_eq!(at(&g, 5, 6, 5), BlockType::Air);
    assert_eq!(at(&g, 5, 12, 5), BlockType::Stone);
    assert_eq!(at(&g, 2, 13, 2), BlockType::Sand);
    assert_eq!(at(&g, 2, 14, 2), BlockType::Air);
    assert_eq!(at(&g, 3, 14, 3), BlockType::Sand);
    assert_eq!(at(&g, 4, 15, 4), BlockType::Sand);
    assert_eq!(at(&g, 3, 15, 3), BlockType::Air);
    assert_eq!(at(&g, 6, 4, 6), BlockType::Air);
    assert_eq!(at(&g, 6, 2, 6), BlockType::Air);
    assert_eq!(at(&g, 6, 1, 6), BlockType::Sand);
    assert_eq!(at(&g, 4, 1, 4), BlockType::Air);
}

#[test]
fn temple_near_the_edge_is_cut_off() {
    let mut g = grid(6);
    Structures::desert_temple(&mut g, 0, 4, 0);
    assert_eq!(at(&g, 0, 4, 0), BlockType::Sand);
    assert_eq!(at(&g, 5, 4, 5), BlockType::Sand);
    assert_eq!(at(&g, 1, 5, 1), BlockType::Air);
    assert_eq!(g.len(), 6);
    assert_eq!(g[0].len(), 6);
    assert_eq!(g[0][0].len(), 6);
}

#[test]
fn witch_hut_layout() {
    let mut g = grid(12);
    Structures::witch_hut(&mut g, 3, 2, 3);
    assert_eq!(at(&g, 3, 2, 3), BlockType::Wood);
    assert_eq!(at(&g, 3, 3, 3), BlockType::Wood);
    assert_eq!(at(&g, 5, 3, 3), BlockType::Air);
    assert_eq!(at(&g, 5, 4, 3), BlockType::Air);
    assert_eq!(at(&g, 5, 5, 3), BlockType::Wood);
    assert_eq!(at(&g, 4, 4, 4), BlockType::Air);
    assert_eq!(at(&g, 7, 5, 7), BlockType::Wood);
    assert_eq!(at(&g, 5, 6, 5), BlockType::Leaves);
}

#[test]
fn mineshaft_layout() {
    let mut g = grid(16);
    for x in 0..16 {
        for z in 0..16 {
            for y in 0..16 {
                g[x][z][y] = BlockType::Stone;
            }
        }
    }
    Structures::mineshaft(&mut g, 2, 3, 5, 6);
    for x in 2..8 {
        assert_eq!(at(&g, x, 3, 5), BlockType::Wood);
        assert_eq!(at(&g, x, 3, 6), BlockType::Wood);
        assert_eq!(at(&g, x, 4, 4), BlockType::Wood);
        assert_eq!(at(&g, x, 5, 7), BlockType::Wood);
        assert_eq!(at(&g, x, 4, 5), BlockType::Air);
        assert_eq!(at(&g, x, 6, 6), BlockType::Air);
        assert_eq!(at(&g, x, 7, 5), BlockType::Wood);
        assert_eq!(at(&g, x, 6, 4), BlockType::Stone);
    }
    assert_eq!(at(&g, 8, 4, 5), BlockType::Stone);
    let before = g.clone();
    Structures::mineshaft(&mut g, 2, 3, 0, 0);
    assert_eq!(g, before);
}
