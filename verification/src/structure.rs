//! Structures built into a block grid: desert temples, witch huts and mineshafts.
//!
//! A grid is indexed `blocks[x][z][y]`; writes that fall outside it are ignored.
use vstd::prelude::*;
use crate::block::BlockType;

verus! {

/// Structure generation templates.
pub struct Structures;

/// A block grid in which every row has the same length and every column the same height.
pub open spec fn is_grid(g: Seq<Vec<Vec<BlockType>>>) -> bool {
    &&& forall|a: int| 0 <= a < g.len() ==> (#[trigger] g[a])@.len() == g[0]@.len()
    &&& forall|a: int, c: int| 0 <= a < g.len() && 0 <= c < g[0]@.len() ==> (#[trigger] g[a]@[c])@.len()
        == g[0]@[0]@.len()
}

/// Whether `(a, b, c)` (x, y, z) lies inside the grid.
pub open spec fn in_grid(g: Seq<Vec<Vec<BlockType>>>, a: int, b: int, c: int) -> bool {
    &&& 0 <= a < g.len()
    &&& 0 <= c < g[0]@.len()
    &&& 0 <= b < g[0]@[0]@.len()
}

/// The block at `(a, b, c)` (x, y, z) of a grid.
pub open spec fn grid_block(g: Seq<Vec<Vec<BlockType>>>, a: int, b: int, c: int) -> BlockType {
    g[a]@[c]@[b]
}

/// Two grids of the same shape.
pub open spec fn same_shape(g: Seq<Vec<Vec<BlockType>>>, h: Seq<Vec<Vec<BlockType>>>) -> bool {
    &&& g.len() == h.len()
    &&& forall|a: int| 0 <= a < g.len() ==> (#[trigger] h[a])@.len() == g[a]@.len()
    &&& forall|a: int, c: int| 0 <= a < g.len() && 0 <= c < g[a]@.len() ==> (#[trigger] h[a]@[c])@.len()
        == g[a]@[c]@.len()
}

/// A box of cells `x0 <= x < x1`, `y0 <= y < y1`, `z0 <= z < z1` filled with one block.
pub struct Fill {
    pub x0: int,
    pub x1: int,
    pub y0: int,
    pub y1: int,
    pub z0: int,
    pub z1: int,
    pub block: BlockType,
}

pub open spec fn in_fill(f: Fill, a: int, b: int, c: int) -> bool {
    f.x0 <= a < f.x1 && f.y0 <= b < f.y1 && f.z0 <= c < f.z1
}

/// The block a cell holds after the first `k` fills of a plan, the last
/// fill that covers it winning; `old` if none covers it.
pub open spec fn painted(plan: Seq<Fill>, k: nat, a: int, b: int, c: int, old: BlockType) -> BlockType
    decreases k,
{
    if k == 0 {
        old
    } else if in_fill(plan[k - 1], a, b, c) {
        plan[k - 1].block
    } else {
        painted(plan, (k - 1) as nat, a, b, c, old)
    }
}

/// The grid `h` is the grid `g` with the first `k` fills of the plan built
/// in: cells inside the grid take the block those fills paint there, the
/// shape stays.
pub open spec fn built_upto(g: Seq<Vec<Vec<BlockType>>>, h: Seq<Vec<Vec<BlockType>>>, plan: Seq<Fill>, k: nat) -> bool {
    &&& same_shape(g, h)
    &&& is_grid(h)
    &&& forall|a: int, b: int, c: int| in_grid(g, a, b, c) ==> #[trigger] grid_block(h, a, b, c) == painted(
        plan,
        k,
        a,
        b,
        c,
        grid_block(g, a, b, c),
    )
}

/// The grid `h` is the grid `g` with the whole plan built in.
pub open spec fn built(g: Seq<Vec<Vec<BlockType>>>, h: Seq<Vec<Vec<BlockType>>>, plan: Seq<Fill>) -> bool {
    built_upto(g, h, plan, plan.len())
}

pub open spec fn fill(x0: int, x1: int, y0: int, y1: int, z0: int, z1: int, block: BlockType) -> Fill {
    Fill { x0, x1, y0, y1, z0, z1, block }
}

/// The plan of a desert temple at `(x, y, z)`: a 9 x 9 sand floor, sand
/// walls seven high, an inside of air six high, a three-step sand roof, and
/// under the floor a 3 x 3 treasure room three high over a sand floor.
pub open spec fn desert_temple_plan(x: int, y: int, z: int) -> Seq<Fill> {
    seq![
        fill(x, x + 9, y, y + 1, z, z + 9, BlockType::Sand),
        fill(x, x + 9, y + 1, y + 8, z, z + 1, BlockType::Sand),
        fill(x, x + 9, y + 1, y + 8, z + 8, z + 9, BlockType::Sand),
        fill(x, x + 1, y + 1, y + 8, z, z + 9, BlockType::Sand),
        fill(x + 8, x + 9, y + 1, y + 8, z, z + 9, BlockType::Sand),
        fill(x + 1, x + 8, y + 1, y + 7, z + 1, z + 8, BlockType::Air),
        fill(x, x + 9, y + 8, y + 9, z, z + 9, BlockType::Sand),
        fill(x + 1, x + 8, y + 9, y + 10, z + 1, z + 8, BlockType::Sand),
        fill(x + 2, x + 7, y + 10, y + 11, z + 2, z + 7, BlockType::Sand),
        fill(x + 3, x + 6, y - 3, y, z + 3, z + 6, BlockType::Air),
        fill(x + 3, x + 6, y - 4, y - 3, z + 3, z + 6, BlockType::Sand),
    ]
}

/// The plan of a witch hut at `(x, y, z)`: a 5 x 5 wooden floor, wooden
/// walls three high with a door two high in the middle of the `z` side, a
/// roof of leaves and an inside of air.
pub open spec fn witch_hut_plan(x: int, y: int, z: int) -> Seq<Fill> {
    seq![
        fill(x, x + 5, y, y + 1, z, z + 5, BlockType::Wood),
        fill(x, x + 5, y + 1, y + 4, z, z + 1, BlockType::Wood),
        fill(x, x + 5, y + 1, y + 4, z + 4, z + 5, BlockType::Wood),
        fill(x, x + 1, y + 1, y + 4, z, z + 5, BlockType::Wood),
        fill(x + 4, x + 5, y + 1, y + 4, z, z + 5, BlockType::Wood),
        fill(x + 2, x + 3, y + 1, y + 3, z, z + 1, BlockType::Air),
        fill(x, x + 5, y + 4, y + 5, z, z + 5, BlockType::Leaves),
        fill(x + 1, x + 4, y + 1, y + 4, z + 1, z + 4, BlockType::Air),
    ]
}

/// The plan of a mineshaft corridor of `length` along x from `(x, y, z)`:
/// a wooden floor two wide, wooden walls two high on both sides, an air
/// passage three high and a wooden ceiling.
pub open spec fn mineshaft_plan(x: int, y: int, z: int, length: int) -> Seq<Fill> {
    seq![
        fill(x, x + length, y, y + 1, z, z + 2, BlockType::Wood),
        fill(x, x + length, y + 1, y + 3, z - 1, z, BlockType::Wood),
        fill(x, x + length, y + 1, y + 3, z + 2, z + 3, BlockType::Wood),
        fill(x, x + length, y + 1, y + 4, z, z + 2, BlockType::Air),
        fill(x, x + length, y + 4, y + 5, z, z + 2, BlockType::Wood),
    ]
}

proof fn lemma_built_nothing(g: Seq<Vec<Vec<BlockType>>>, plan: Seq<Fill>)
    requires
        is_grid(g),
    ensures
        built_upto(g, g, plan, 0),
{
}

/// What a desert temple built at `(x, y, z)` looks like, cell by cell
/// (wherever the cell lies in the grid): a 9 x 9 sand floor; sand walls on
/// all four sides, seven high; air inside, six high; a sand roof in three
/// steps (9 x 9, 7 x 7, 5 x 5); and under the floor a treasure room of air
/// three high over a sand floor, 3 x 3 in the middle.
pub proof fn lemma_desert_temple_shape(g: Seq<Vec<Vec<BlockType>>>, h: Seq<Vec<Vec<BlockType>>>, x: int, y: int, z: int)
    requires
        built(g, h, desert_temple_plan(x, y, z)),
    ensures
        forall|dx: int, dy: int, dz: int|
            0 <= dx <= 8 && 0 <= dz <= 8 && 1 <= dy <= 7 && (dx == 0 || dx == 8 || dz == 0 || dz == 8) && in_grid(
                g,
                x + dx,
                y + dy,
                z + dz,
            ) ==> #[trigger] grid_block(h, x + dx, y + dy, z + dz) == BlockType::Sand,
        forall|dx: int, dy: int, dz: int|
            1 <= dx <= 7 && 1 <= dz <= 7 && 1 <= dy <= 6 && in_grid(g, x + dx, y + dy, z + dz)
                ==> #[trigger] grid_block(h, x + dx, y + dy, z + dz) == BlockType::Air,
        forall|dx: int, dz: int|
            0 <= dx <= 8 && 0 <= dz <= 8 && in_grid(g, x + dx, y, z + dz) ==> #[trigger] grid_block(h, x + dx, y, z + dz)
                == BlockType::Sand,
        forall|dx: int, dz: int|
            0 <= dx <= 8 && 0 <= dz <= 8 && in_grid(g, x + dx, y + 8, z + dz) ==> #[trigger] grid_block(
                h,
                x + dx,
                y + 8,
                z + dz,
            ) == BlockType::Sand,
        forall|dx: int, dz: int|
            2 <= dx <= 6 && 2 <= dz <= 6 && in_grid(g, x + dx, y + 10, z + dz) ==> #[trigger] grid_block(
                h,
                x + dx,
                y + 10,
                z + dz,
            ) == BlockType::Sand,
        forall|dx: int, dy: int, dz: int|
            3 <= dx <= 5 && 3 <= dz <= 5 && 1 <= dy <= 3 && in_grid(g, x + dx, y - dy, z + dz)
                ==> #[trigger] grid_block(h, x + dx, y - dy, z + dz) == BlockType::Air,
{
    let plan = desert_temple_plan(x, y, z);
    assert forall|dx: int, dy: int, dz: int|
        0 <= dx <= 8 && 0 <= dz <= 8 && 1 <= dy <= 7 && (dx == 0 || dx == 8 || dz == 0 || dz == 8) && in_grid(
            g,
            x + dx,
            y + dy,
            z + dz,
        ) implies #[trigger] grid_block(h, x + dx, y + dy, z + dz) == BlockType::Sand by {
        reveal_with_fuel(painted, 12);
        assert(grid_block(h, x + dx, y + dy, z + dz) == painted(plan, 11, x + dx, y + dy, z + dz, grid_block(g, x + dx, y + dy, z + dz)));
    }
    assert forall|dx: int, dy: int, dz: int|
        1 <= dx <= 7 && 1 <= dz <= 7 && 1 <= dy <= 6 && in_grid(g, x + dx, y + dy, z + dz)
            implies #[trigger] grid_block(h, x + dx, y + dy, z + dz) == BlockType::Air by {
        reveal_with_fuel(painted, 12);
        assert(grid_block(h, x + dx, y + dy, z + dz) == painted(plan, 11, x + dx, y + dy, z + dz, grid_block(g, x + dx, y + dy, z + dz)));
    }
    assert forall|dx: int, dz: int|
        0 <= dx <= 8 && 0 <= dz <= 8 && in_grid(g, x + dx, y, z + dz) implies #[trigger] grid_block(h, x + dx, y, z + dz)
            == BlockType::Sand by {
        reveal_with_fuel(painted, 12);
        assert(grid_block(h, x + dx, y, z + dz) == painted(plan, 11, x + dx, y, z + dz, grid_block(g, x + dx, y, z + dz)));
    }
    assert forall|dx: int, dz: int|
        0 <= dx <= 8 && 0 <= dz <= 8 && in_grid(g, x + dx, y + 8, z + dz) implies #[trigger] grid_block(h, x + dx, y + 8, z + dz)
            == BlockType::Sand by {
        reveal_with_fuel(painted, 12);
        assert(grid_block(h, x + dx, y + 8, z + dz) == painted(plan, 11, x + dx, y + 8, z + dz, grid_block(g, x + dx, y + 8, z + dz)));
    }
    assert forall|dx: int, dz: int|
        2 <= dx <= 6 && 2 <= dz <= 6 && in_grid(g, x + dx, y + 10, z + dz) implies #[trigger] grid_block(h, x + dx, y + 10, z + dz)
            == BlockType::Sand by {
        reveal_with_fuel(painted, 12);
        assert(grid_block(h, x + dx, y + 10, z + dz) == painted(plan, 11, x + dx, y + 10, z + dz, grid_block(g, x + dx, y + 10, z + dz)));
    }
    assert forall|dx: int, dy: int, dz: int|
        3 <= dx <= 5 && 3 <= dz <= 5 && 1 <= dy <= 3 && in_grid(g, x + dx, y - dy, z + dz)
            implies #[trigger] grid_block(h, x + dx, y - dy, z + dz) == BlockType::Air by {
        reveal_with_fuel(painted, 12);
        assert(grid_block(h, x + dx, y - dy, z + dz) == painted(plan, 11, x + dx, y - dy, z + dz, grid_block(g, x + dx, y - dy, z + dz)));
    }
}

/// What a witch hut built at `(x, y, z)` looks like, cell by cell (wherever
/// the cell lies in the grid): a 5 x 5 wooden floor; wooden walls three
/// high around it except a door two high in the middle of the near `z`
/// side; a roof of leaves; and air inside.
pub proof fn lemma_witch_hut_shape(g: Seq<Vec<Vec<BlockType>>>, h: Seq<Vec<Vec<BlockType>>>, x: int, y: int, z: int)
    requires
        built(g, h, witch_hut_plan(x, y, z)),
    ensures
        forall|dx: int, dz: int| 0 <= dx <= 4 && 0 <= dz <= 4 && in_grid(g, x + dx, y, z + dz) ==> #[trigger] grid_block(h, x + dx, y, z + dz) == BlockType::Wood,
        forall|dx: int, dy: int, dz: int| 0 <= dx <= 4 && 0 <= dz <= 4 && 1 <= dy <= 3 && (dx == 0 || dx == 4 || dz == 0 || dz == 4) && !(dx == 2 && dz == 0 && dy <= 2) && in_grid(g, x + dx, y + dy, z + dz) ==> #[trigger] grid_block(h, x + dx, y + dy, z + dz) == BlockType::Wood,
        forall|dy: int| 1 <= dy <= 2 && in_grid(g, x + 2, y + dy, z) ==> #[trigger] grid_block(h, x + 2, y + dy, z) == BlockType::Air,
        forall|dx: int, dz: int| 0 <= dx <= 4 && 0 <= dz <= 4 && in_grid(g, x + dx, y + 4, z + dz) ==> #[trigger] grid_block(h, x + dx, y + 4, z + dz) == BlockType::Leaves,
        forall|dx: int, dy: int, dz: int| 1 <= dx <= 3 && 1 <= dz <= 3 && 1 <= dy <= 3 && in_grid(g, x + dx, y + dy, z + dz) ==> #[trigger] grid_block(h, x + dx, y + dy, z + dz) == BlockType::Air,
{
    let plan = witch_hut_plan(x, y, z);
    assert forall|dx: int, dz: int| 0 <= dx <= 4 && 0 <= dz <= 4 && in_grid(g, x + dx, y, z + dz) implies #[trigger] grid_block(h, x + dx, y, z + dz) == BlockType::Wood by {
        reveal_with_fuel(painted, 9);
        assert(grid_block(h, x + dx, y, z + dz) == painted(plan, 8, x + dx, y, z + dz, grid_block(g, x + dx, y, z + dz)));
    }
    assert forall|dx: int, dy: int, dz: int| 0 <= dx <= 4 && 0 <= dz <= 4 && 1 <= dy <= 3 && (dx == 0 || dx == 4 || dz == 0 || dz == 4) && !(dx == 2 && dz == 0 && dy <= 2) && in_grid(g, x + dx, y + dy, z + dz) implies #[trigger] grid_block(h, x + dx, y + dy, z + dz) == BlockType::Wood by {
        reveal_with_fuel(painted, 9);
        assert(grid_block(h, x + dx, y + dy, z + dz) == painted(plan, 8, x + dx, y + dy, z + dz, grid_block(g, x + dx, y + dy, z + dz)));
    }
    assert forall|dy: int| 1 <= dy <= 2 && in_grid(g, x + 2, y + dy, z) implies #[trigger] grid_block(h, x + 2, y + dy, z) == BlockType::Air by {
        reveal_with_fuel(painted, 9);
        assert(grid_block(h, x + 2, y + dy, z) == painted(plan, 8, x + 2, y + dy, z, grid_block(g, x + 2, y + dy, z)));
    }
    assert forall|dx: int, dz: int| 0 <= dx <= 4 && 0 <= dz <= 4 && in_grid(g, x + dx, y + 4, z + dz) implies #[trigger] grid_block(h, x + dx, y + 4, z + dz) == BlockType::Leaves by {
        reveal_with_fuel(painted, 9);
        assert(grid_block(h, x + dx, y + 4, z + dz) == painted(plan, 8, x + dx, y + 4, z + dz, grid_block(g, x + dx, y + 4, z + dz)));
    }
    assert forall|dx: int, dy: int, dz: int| 1 <= dx <= 3 && 1 <= dz <= 3 && 1 <= dy <= 3 && in_grid(g, x + dx, y + dy, z + dz) implies #[trigger] grid_block(h, x + dx, y + dy, z + dz) == BlockType::Air by {
        reveal_with_fuel(painted, 9);
        assert(grid_block(h, x + dx, y + dy, z + dz) == painted(plan, 8, x + dx, y + dy, z + dz, grid_block(g, x + dx, y + dy, z + dz)));
    }
}

/// What a mineshaft of `length` built at `(x, y, z)` looks like, for every
/// step along x (wherever the cell lies in the grid): a wooden floor two
/// wide, wooden walls two high on both sides, a passage of air three high
/// and a wooden ceiling.
pub proof fn lemma_mineshaft_shape(
    g: Seq<Vec<Vec<BlockType>>>,
    h: Seq<Vec<Vec<BlockType>>>,
    x: int,
    y: int,
    z: int,
    length: int,
)
    requires
        built(g, h, mineshaft_plan(x, y, z, length)),
    ensures
        forall|i: int, dz: int| 0 <= i < length && 0 <= dz <= 1 && in_grid(g, x + i, y, z + dz) ==> #[trigger] grid_block(h, x + i, y, z + dz) == BlockType::Wood,
        forall|i: int, dy: int| 0 <= i < length && 1 <= dy <= 2 && in_grid(g, x + i, y + dy, z - 1) ==> #[trigger] grid_block(h, x + i, y + dy, z - 1) == BlockType::Wood,
        forall|i: int, dy: int| 0 <= i < length && 1 <= dy <= 2 && in_grid(g, x + i, y + dy, z + 2) ==> #[trigger] grid_block(h, x + i, y + dy, z + 2) == BlockType::Wood,
        forall|i: int, dy: int, dz: int| 0 <= i < length && 1 <= dy <= 3 && 0 <= dz <= 1 && in_grid(g, x + i, y + dy, z + dz) ==> #[trigger] grid_block(h, x + i, y + dy, z + dz) == BlockType::Air,
        forall|i: int, dz: int| 0 <= i < length && 0 <= dz <= 1 && in_grid(g, x + i, y + 4, z + dz) ==> #[trigger] grid_block(h, x + i, y + 4, z + dz) == BlockType::Wood,
{
    let plan = mineshaft_plan(x, y, z, length);
    assert forall|i: int, dz: int| 0 <= i < length && 0 <= dz <= 1 && in_grid(g, x + i, y, z + dz) implies #[trigger] grid_block(h, x + i, y, z + dz) == BlockType::Wood by {
        reveal_with_fuel(painted, 6);
        assert(grid_block(h, x + i, y, z + dz) == painted(plan, 5, x + i, y, z + dz, grid_block(g, x + i, y, z + dz)));
    }
    assert forall|i: int, dy: int| 0 <= i < length && 1 <= dy <= 2 && in_grid(g, x + i, y + dy, z - 1) implies #[trigger] grid_block(h, x + i, y + dy, z - 1) == BlockType::Wood by {
        reveal_with_fuel(painted, 6);
        assert(grid_block(h, x + i, y + dy, z - 1) == painted(plan, 5, x + i, y + dy, z - 1, grid_block(g, x + i, y + dy, z - 1)));
    }
    assert forall|i: int, dy: int| 0 <= i < length && 1 <= dy <= 2 && in_grid(g, x + i, y + dy, z + 2) implies #[trigger] grid_block(h, x + i, y + dy, z + 2) == BlockType::Wood by {
        reveal_with_fuel(painted, 6);
        assert(grid_block(h, x + i, y + dy, z + 2) == painted(plan, 5, x + i, y + dy, z + 2, grid_block(g, x + i, y + dy, z + 2)));
    }
    assert forall|i: int, dy: int, dz: int| 0 <= i < length && 1 <= dy <= 3 && 0 <= dz <= 1 && in_grid(g, x + i, y + dy, z + dz) implies #[trigger] grid_block(h, x + i, y + dy, z + dz) == BlockType::Air by {
        reveal_with_fuel(painted, 6);
        assert(grid_block(h, x + i, y + dy, z + dz) == painted(plan, 5, x + i, y + dy, z + dz, grid_block(g, x + i, y + dy, z + dz)));
    }
    assert forall|i: int, dz: int| 0 <= i < length && 0 <= dz <= 1 && in_grid(g, x + i, y + 4, z + dz) implies #[trigger] grid_block(h, x + i, y + 4, z + dz) == BlockType::Wood by {
        reveal_with_fuel(painted, 6);
        assert(grid_block(h, x + i, y + 4, z + dz) == painted(plan, 5, x + i, y + 4, z + dz, grid_block(g, x + i, y + 4, z + dz)));
    }
}

impl Structures {
    /// Build a desert temple at `(x, y, z)`.
    pub fn desert_temple(blocks: &mut Vec<Vec<Vec<BlockType>>>, x: usize, y: usize, z: usize)
        requires
            is_grid(old(blocks)@),
            x + 8 <= usize::MAX,
            z + 8 <= usize::MAX,
            y + 10 <= usize::MAX,
            y >= 4,
        ensures
            built(old(blocks)@, final(blocks)@, desert_temple_plan(x as int, y as int, z as int)),
    {
        let ghost g = blocks@;
        let ghost plan = desert_temple_plan(x as int, y as int, z as int);
        proof { lemma_built_nothing(g, plan); }
        Self::fill_box(blocks, x, 9, y, 1, z, 9, BlockType::Sand, Ghost(g), Ghost(plan), 0);
        Self::fill_box(blocks, x, 9, y + 1, 7, z, 1, BlockType::Sand, Ghost(g), Ghost(plan), 1);
        Self::fill_box(blocks, x, 9, y + 1, 7, z + 8, 1, BlockType::Sand, Ghost(g), Ghost(plan), 2);
        Self::fill_box(blocks, x, 1, y + 1, 7, z, 9, BlockType::Sand, Ghost(g), Ghost(plan), 3);
        Self::fill_box(blocks, x + 8, 1, y + 1, 7, z, 9, BlockType::Sand, Ghost(g), Ghost(plan), 4);
        Self::fill_box(blocks, x + 1, 7, y + 1, 6, z + 1, 7, BlockType::Air, Ghost(g), Ghost(plan), 5);
        Self::fill_box(blocks, x, 9, y + 8, 1, z, 9, BlockType::Sand, Ghost(g), Ghost(plan), 6);
        Self::fill_box(blocks, x + 1, 7, y + 9, 1, z + 1, 7, BlockType::Sand, Ghost(g), Ghost(plan), 7);
        Self::fill_box(blocks, x + 2, 5, y + 10, 1, z + 2, 5, BlockType::Sand, Ghost(g), Ghost(plan), 8);
        Self::fill_box(blocks, x + 3, 3, y - 3, 3, z + 3, 3, BlockType::Air, Ghost(g), Ghost(plan), 9);
        Self::fill_box(blocks, x + 3, 3, y - 4, 1, z + 3, 3, BlockType::Sand, Ghost(g), Ghost(plan), 10);
    }

    /// Build a witch hut at `(x, y, z)`.
    pub fn witch_hut(blocks: &mut Vec<Vec<Vec<BlockType>>>, x: usize, y: usize, z: usize)
        requires
            is_grid(old(blocks)@),
            x + 4 <= usize::MAX,
            z + 4 <= usize::MAX,
            y + 4 <= usize::MAX,
        ensures
            built(old(blocks)@, final(blocks)@, witch_hut_plan(x as int, y as int, z as int)),
    {
        let ghost g = blocks@;
        let ghost plan = witch_hut_plan(x as int, y as int, z as int);
        proof { lemma_built_nothing(g, plan); }
        Self::fill_box(blocks, x, 5, y, 1, z, 5, BlockType::Wood, Ghost(g), Ghost(plan), 0);
        Self::fill_box(blocks, x, 5, y + 1, 3, z, 1, BlockType::Wood, Ghost(g), Ghost(plan), 1);
        Self::fill_box(blocks, x, 5, y + 1, 3, z + 4, 1, BlockType::Wood, Ghost(g), Ghost(plan), 2);
        Self::fill_box(blocks, x, 1, y + 1, 3, z, 5, BlockType::Wood, Ghost(g), Ghost(plan), 3);
        Self::fill_box(blocks, x + 4, 1, y + 1, 3, z, 5, BlockType::Wood, Ghost(g), Ghost(plan), 4);
        Self::fill_box(blocks, x + 2, 1, y + 1, 2, z, 1, BlockType::Air, Ghost(g), Ghost(plan), 5);
        Self::fill_box(blocks, x, 5, y + 4, 1, z, 5, BlockType::Leaves, Ghost(g), Ghost(plan), 6);
        Self::fill_box(blocks, x + 1, 3, y + 1, 3, z + 1, 3, BlockType::Air, Ghost(g), Ghost(plan), 7);
    }

    /// Build a mineshaft corridor of `length` along x from `(x, y, z)`.
    pub fn mineshaft(blocks: &mut Vec<Vec<Vec<BlockType>>>, x: usize, y: usize, z: usize, length: usize)
        requires
            is_grid(old(blocks)@),
            length > 0 ==> x + length - 1 <= usize::MAX && y + 4 <= usize::MAX && z + 2 <= usize::MAX && z >= 1,
        ensures
            built(old(blocks)@, final(blocks)@, mineshaft_plan(x as int, y as int, z as int, length as int)),
    {
        let ghost g = blocks@;
        let ghost plan = mineshaft_plan(x as int, y as int, z as int, length as int);
        proof { lemma_built_nothing(g, plan); }
        if length == 0 {
            proof {
                assert forall|a: int, b: int, c: int| in_grid(g, a, b, c) implies #[trigger] grid_block(blocks@, a, b, c)
                    == painted(plan, plan.len(), a, b, c, grid_block(g, a, b, c)) by {
                    reveal_with_fuel(painted, 6);
                }
            }
            return;
        }
        Self::fill_box(blocks, x, length, y, 1, z, 2, BlockType::Wood, Ghost(g), Ghost(plan), 0);
        Self::fill_box(blocks, x, length, y + 1, 2, z - 1, 1, BlockType::Wood, Ghost(g), Ghost(plan), 1);
        Self::fill_box(blocks, x, length, y + 1, 2, z + 2, 1, BlockType::Wood, Ghost(g), Ghost(plan), 2);
        Self::fill_box(blocks, x, length, y + 1, 3, z, 2, BlockType::Air, Ghost(g), Ghost(plan), 3);
        Self::fill_box(blocks, x, length, y + 4, 1, z, 2, BlockType::Wood, Ghost(g), Ghost(plan), 4);
    }

    /// Carry out fill `k` of `plan` (which is the box of `nx` by `ny` by `nz`
    /// cells from `(x0, y0, z0)`), on a grid that already holds the first `k` fills.
    fn fill_box(
        blocks: &mut Vec<Vec<Vec<BlockType>>>,
        x0: usize,
        nx: usize,
        y0: usize,
        ny: usize,
        z0: usize,
        nz: usize,
        block: BlockType,
        Ghost(g): Ghost<Seq<Vec<Vec<BlockType>>>>,
        Ghost(plan): Ghost<Seq<Fill>>,
        k: usize,
    )
        requires
            k < plan.len(),
            plan[k as int] == fill(x0 as int, x0 + nx, y0 as int, y0 + ny, z0 as int, z0 + nz, block),
            x0 + nx <= usize::MAX + 1,
            y0 + ny <= usize::MAX + 1,
            z0 + nz <= usize::MAX + 1,
            is_grid(g),
            built_upto(g, old(blocks)@, plan, k as nat),
        ensures
            built_upto(g, final(blocks)@, plan, (k + 1) as nat),
    {
        let ghost f = plan[k as int];
        let mut i: usize = 0;
        while i < nx
            invariant
                i <= nx,
                x0 + nx <= usize::MAX + 1,
                y0 + ny <= usize::MAX + 1,
                z0 + nz <= usize::MAX + 1,
                k < plan.len(),
                f == plan[k as int],
                f == fill(x0 as int, x0 + nx, y0 as int, y0 + ny, z0 as int, z0 + nz, block),
                is_grid(g),
                same_shape(g, blocks@),
                is_grid(blocks@),
                forall|p: int, q: int, r: int| in_grid(g, p, q, r) ==> #[trigger] grid_block(blocks@, p, q, r) == if in_fill(f, p, q, r) && p < x0 + i {
                    block
                } else {
                    painted(plan, k as nat, p, q, r, grid_block(g, p, q, r))
                },
            decreases nx - i,
        {
            let a = x0 + i;
            let mut j: usize = 0;
            while j < nz
                invariant
                    i < nx,
                    a == x0 + i,
                    j <= nz,
                    x0 + nx <= usize::MAX + 1,
                    y0 + ny <= usize::MAX + 1,
                    z0 + nz <= usize::MAX + 1,
                    k < plan.len(),
                    f == plan[k as int],
                    f == fill(x0 as int, x0 + nx, y0 as int, y0 + ny, z0 as int, z0 + nz, block),
                    is_grid(g),
                    same_shape(g, blocks@),
                    is_grid(blocks@),
                    forall|p: int, q: int, r: int| in_grid(g, p, q, r) ==> #[trigger] grid_block(blocks@, p, q, r) == if in_fill(f, p, q, r) && (p < a || (p == a && r < z0 + j)) {
                        block
                    } else {
                        painted(plan, k as nat, p, q, r, grid_block(g, p, q, r))
                    },
                decreases nz - j,
            {
                let c = z0 + j;
                let mut l: usize = 0;
                while l < ny
                    invariant
                        i < nx,
                        a == x0 + i,
                        j < nz,
                        c == z0 + j,
                        l <= ny,
                        x0 + nx <= usize::MAX + 1,
                        y0 + ny <= usize::MAX + 1,
                        z0 + nz <= usize::MAX + 1,
                        k < plan.len(),
                        f == plan[k as int],
                        f == fill(x0 as int, x0 + nx, y0 as int, y0 + ny, z0 as int, z0 + nz, block),
                        is_grid(g),
                        same_shape(g, blocks@),
                        is_grid(blocks@),
                        forall|p: int, q: int, r: int| in_grid(g, p, q, r) ==> #[trigger] grid_block(blocks@, p, q, r) == if in_fill(f, p, q, r) && (p < a || (p == a && r < c) || (p == a && r == c && q < y0 + l)) {
                            block
                        } else {
                            painted(plan, k as nat, p, q, r, grid_block(g, p, q, r))
                        },
                    decreases ny - l,
                {
                    Self::set(blocks, a, y0 + l, c, block);
                    l += 1;
                }
                j += 1;
            }
            i += 1;
        }
    }

    /// Put a block at `(x, y, z)` if that lies inside the grid.
    fn set(blocks: &mut Vec<Vec<Vec<BlockType>>>, x: usize, y: usize, z: usize, block: BlockType)
        requires
            is_grid(old(blocks)@),
        ensures
            same_shape(old(blocks)@, final(blocks)@),
            is_grid(final(blocks)@),
            forall|a: int, b: int, c: int| in_grid(old(blocks)@, a, b, c) ==> #[trigger] grid_block(final(blocks)@, a, b, c)
                == if a == x && b == y && c == z { block } else { grid_block(old(blocks)@, a, b, c) },
    {
        if x < blocks.len() && z < blocks[0].len() && y < blocks[0][0].len() {
            blocks[x][z][y] = block;
        }
    }
}

} // verus!
