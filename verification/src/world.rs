//! The voxel world: a 256 x 64 x 256 grid of blocks, its terrain and trees.
use vstd::prelude::*;
use crate::block::BlockType;
use crate::rng::{lcg_draw, lcg_draw_exec, lcg_next, lcg_next_exec};

verus! {

pub const WORLD_WIDTH: usize = 256;

pub const WORLD_DEPTH: usize = 256;

pub const WORLD_HEIGHT: usize = 64;

pub const SEA_LEVEL: i32 = 20;

/// Number of block cells in the world.
pub const WORLD_VOLUME: usize = WORLD_WIDTH * WORLD_DEPTH * WORLD_HEIGHT;

/// Number of terrain columns in the world.
pub const WORLD_COLUMNS: usize = WORLD_WIDTH * WORLD_DEPTH;

/// Number of spots where a tree may grow: every column at least four away from the edge.
pub const TREE_SPOTS: usize = 248 * 248;

/// Whether a position lies inside the world.
pub open spec fn in_world(x: int, y: int, z: int) -> bool {
    0 <= x < 256 && 0 <= y < 64 && 0 <= z < 256
}

/// Index of a cell in the world's storage: column by column, bottom to top.
pub open spec fn cell(x: int, y: int, z: int) -> int {
    x * 16384 + z * 64 + y
}

/// Coordinates of a cell index.
pub open spec fn cell_x(i: int) -> int {
    i / 16384
}

pub open spec fn cell_z(i: int) -> int {
    (i / 64) % 256
}

pub open spec fn cell_y(i: int) -> int {
    i % 64
}

/// Distinct positions inside the world occupy distinct cells, and every cell
/// index names the position its coordinates give.
pub proof fn lemma_cell(x: int, y: int, z: int)
    requires
        in_world(x, y, z),
    ensures
        0 <= cell(x, y, z) < WORLD_VOLUME,
        cell_x(cell(x, y, z)) == x,
        cell_y(cell(x, y, z)) == y,
        cell_z(cell(x, y, z)) == z,
{
    let i = cell(x, y, z);
    vstd::arithmetic::div_mod::lemma_fundamental_div_mod_converse(i, 16384, x, z * 64 + y);
    vstd::arithmetic::div_mod::lemma_fundamental_div_mod_converse(i, 64, x * 256 + z, y);
    vstd::arithmetic::div_mod::lemma_fundamental_div_mod_converse(x * 256 + z, 256, x, z);
}

/// A cell index decodes to a position inside the world.
pub proof fn lemma_cell_decode(i: int)
    requires
        0 <= i < WORLD_VOLUME,
    ensures
        in_world(cell_x(i), cell_y(i), cell_z(i)),
        cell(cell_x(i), cell_y(i), cell_z(i)) == i,
{
    vstd::arithmetic::div_mod::lemma_fundamental_div_mod(i, 64);
    vstd::arithmetic::div_mod::lemma_fundamental_div_mod(i / 64, 256);
    vstd::arithmetic::div_mod::lemma_fundamental_div_mod(i, 16384);
    vstd::arithmetic::div_mod::lemma_div_denominator(i, 64, 256);
    vstd::arithmetic::div_mod::lemma_div_pos_is_pos(i, 16384);
    vstd::arithmetic::div_mod::lemma_div_pos_is_pos(i, 64);
    vstd::arithmetic::div_mod::lemma_div_by_multiple_is_strongly_ordered(i, WORLD_VOLUME as int, 16384, 256);
    vstd::arithmetic::div_mod::lemma_mod_bound(i / 64, 256);
    vstd::arithmetic::div_mod::lemma_mod_bound(i, 64);
}

/// The block at a position of a world stored as `s`; air outside the world.
pub open spec fn block_of(s: Seq<BlockType>, x: int, y: int, z: int) -> BlockType {
    if in_world(x, y, z) {
        s[cell(x, y, z)]
    } else {
        BlockType::Air
    }
}

/// A raw terrain height clamped to 1..=63.
pub open spec fn clamped_height(raw: i32) -> int {
    if raw < 1 {
        1
    } else if raw > 63 {
        63
    } else {
        raw as int
    }
}

/// The block at height `y` of a terrain column `h` blocks high: stone at the
/// bottom and up to four below the surface, then dirt and a grass top (sand
/// for both where the surface is lower than two above sea level), water up
/// to sea level above a lower surface, air above.
pub open spec fn column_block(y: int, h: int) -> BlockType {
    if y == 0 {
        BlockType::Stone
    } else if h > 4 && y < h - 4 {
        BlockType::Stone
    } else if h > 1 && y < h - 1 {
        if h < SEA_LEVEL + 2 {
            BlockType::Sand
        } else {
            BlockType::Dirt
        }
    } else if h > 0 && y == h - 1 {
        if h < SEA_LEVEL + 2 {
            BlockType::Sand
        } else {
            BlockType::Grass
        }
    } else if y < SEA_LEVEL {
        BlockType::Water
    } else {
        BlockType::Air
    }
}

/// The bare terrain for raw column heights, indexed by `x * 256 + z`.
pub open spec fn terrain(heights: Seq<i32>) -> Seq<BlockType> {
    Seq::new(WORLD_VOLUME as nat, |i: int| column_block(i % 64, clamped_height(heights[i / 64])))
}

/// The highest of the lowest `n` cells of column `(x, z)` that is neither air nor water.
pub open spec fn surface(s: Seq<BlockType>, x: int, z: int, n: nat) -> Option<int>
    decreases n,
{
    if n == 0 {
        None
    } else if s[cell(x, n - 1, z)] != BlockType::Air && s[cell(x, n - 1, z)] != BlockType::Water {
        Some(n - 1)
    } else {
        surface(s, x, z, (n - 1) as nat)
    }
}

proof fn lemma_surface_below(s: Seq<BlockType>, x: int, z: int, n: nat)
    ensures
        surface(s, x, z, n) matches Some(y) ==> 0 <= y < n,
    decreases n,
{
    if n > 0 {
        lemma_surface_below(s, x, z, (n - 1) as nat);
    }
}

/// Offsets from the ground of a tree's trunk at which its crown has leaves:
/// up to two across at heights 3 to 5 above the ground, narrowing upward.
pub open spec fn in_crown(dx: int, dz: int, dy: int) -> bool {
    &&& -2 <= dx <= 2
    &&& -2 <= dz <= 2
    &&& 3 <= dy <= 5
    &&& (if dx < 0 { -dx } else { dx }) + (if dz < 0 { -dz } else { dz }) <= 6 - dy
}

/// A cell after a tree grows on ground `sy` of column `(x, z)`: four blocks
/// of trunk above the ground, and leaves in the crown wherever there was air.
pub open spec fn tree_cell(s: Seq<BlockType>, x: int, z: int, sy: int, i: int) -> BlockType {
    let (cx, cy, cz) = (cell_x(i), cell_y(i), cell_z(i));
    if cx == x && cz == z && sy + 1 <= cy <= sy + 4 {
        BlockType::Wood
    } else if in_crown(cx - x, cz - z, cy - sy) && s[i] == BlockType::Air {
        BlockType::Leaves
    } else {
        s[i]
    }
}

/// A tree grows on column `(x, z)` if its surface is grass with room for
/// the tree above it.
pub open spec fn plant(s: Seq<BlockType>, x: int, z: int) -> Seq<BlockType> {
    match surface(s, x, z, 64) {
        Some(sy) => if s[cell(x, sy, z)] == BlockType::Grass && sy + 6 < 64 {
            Seq::new(s.len(), |i: int| tree_cell(s, x, z, sy, i))
        } else {
            s
        },
        None => s,
    }
}

/// The `k`-th tree spot, row by row.
pub open spec fn spot_x(k: int) -> int {
    4 + k / 248
}

pub open spec fn spot_z(k: int) -> int {
    4 + k % 248
}

/// The world and generator state after the first `k` tree spots: at each
/// spot the generator steps, and one draw in fifty plants a tree.
pub open spec fn plant_trees(s: Seq<BlockType>, seed: u64, k: nat) -> (Seq<BlockType>, u64)
    decreases k,
{
    if k == 0 {
        (s, seed)
    } else {
        let (t, r) = plant_trees(s, seed, (k - 1) as nat);
        let r1 = lcg_next(r);
        if lcg_draw(r1) % 50 == 0 {
            (plant(t, spot_x(k - 1), spot_z(k - 1)), r1)
        } else {
            (t, r1)
        }
    }
}

/// The world generated from raw column heights and a seed.
pub open spec fn generated(heights: Seq<i32>, seed: u32) -> Seq<BlockType> {
    plant_trees(terrain(heights), seed as u64, TREE_SPOTS as nat).0
}

/// The bottom layer of a stored world is all stone.
pub open spec fn bedrock(s: Seq<BlockType>) -> bool {
    forall|x: int, z: int| 0 <= x < 256 && 0 <= z < 256 ==> #[trigger] s[cell(x, 0, z)] == BlockType::Stone
}

proof fn lemma_plant_keeps_bedrock(s: Seq<BlockType>, x: int, z: int)
    requires
        s.len() == WORLD_VOLUME,
        bedrock(s),
    ensures
        plant(s, x, z).len() == WORLD_VOLUME,
        bedrock(plant(s, x, z)),
{
    lemma_surface_below(s, x, z, 64);
    assert forall|a: int, c: int| 0 <= a < 256 && 0 <= c < 256 implies #[trigger] plant(s, x, z)[cell(a, 0, c)] == BlockType::Stone by {
        lemma_cell(a, 0, c);
    }
}

proof fn lemma_trees_keep_bedrock(s: Seq<BlockType>, seed: u64, k: nat)
    requires
        s.len() == WORLD_VOLUME,
        bedrock(s),
    ensures
        plant_trees(s, seed, k).0.len() == WORLD_VOLUME,
        bedrock(plant_trees(s, seed, k).0),
    decreases k,
{
    if k > 0 {
        lemma_trees_keep_bedrock(s, seed, (k - 1) as nat);
        let (t, r) = plant_trees(s, seed, (k - 1) as nat);
        lemma_plant_keeps_bedrock(t, spot_x(k - 1), spot_z(k - 1));
    }
}

/// Whatever the heights and the seed, a generated world stands on a
/// bottom layer of stone.
pub proof fn lemma_generated_bedrock(heights: Seq<i32>, seed: u32)
    ensures
        bedrock(generated(heights, seed)),
{
    let t = terrain(heights);
    assert forall|x: int, z: int| 0 <= x < 256 && 0 <= z < 256 implies #[trigger] t[cell(x, 0, z)] == BlockType::Stone by {
        lemma_cell(x, 0, z);
    }
    lemma_trees_keep_bedrock(t, seed as u64, TREE_SPOTS as nat);
}

/// The voxel world.
pub struct World {
    blocks: Vec<BlockType>,
}

impl World {
    #[verifier::type_invariant]
    spec fn inv(self) -> bool {
        self.blocks@.len() == WORLD_VOLUME
    }

    /// The block at a position; air outside the world.
    pub closed spec fn block(&self, x: int, y: int, z: int) -> BlockType {
        block_of(self.blocks@, x, y, z)
    }

    /// Generate the world from the raw terrain height of each column
    /// (`heights[x * 256 + z]`) and a seed for the trees.
    pub fn from_heights(heights: &Vec<i32>, seed: u32) -> (w: World)
        requires
            heights@.len() == WORLD_COLUMNS,
        ensures
            forall|x: int, y: int, z: int| #[trigger] w.block(x, y, z) == block_of(generated(heights@, seed), x, y, z),
    {
        let mut blocks = fill_terrain(heights);
        let mut rng: u64 = seed as u64;
        let mut x: usize = 4;
        while x < 252
            invariant
                4 <= x <= 252,
                (blocks@, rng) == plant_trees(terrain(heights@), seed as u64, ((x - 4) * 248) as nat),
                blocks@.len() == WORLD_VOLUME,
            decreases 252 - x,
        {
            let mut z: usize = 4;
            while z < 252
                invariant
                    4 <= x < 252,
                    4 <= z <= 252,
                    (blocks@, rng) == plant_trees(terrain(heights@), seed as u64, ((x - 4) * 248 + (z - 4)) as nat),
                    blocks@.len() == WORLD_VOLUME,
                decreases 252 - z,
            {
                let ghost k: int = ((x - 4) * 248 + (z - 4)) as int;
                assert(spot_x(k) == x && spot_z(k) == z) by {
                    vstd::arithmetic::div_mod::lemma_fundamental_div_mod_converse(k, 248, (x - 4) as int, (z - 4) as int);
                }
                rng = lcg_next_exec(rng);
                let r = lcg_draw_exec(rng);
                if r % 50 == 0 {
                    plant_tree(&mut blocks, x, z);
                }
                z += 1;
            }
            x += 1;
        }
        let w = World { blocks };
        proof {
            assert forall|x: int, y: int, z: int| #[trigger] w.block(x, y, z) == block_of(generated(heights@, seed), x, y, z) by {}
        }
        w
    }
}

impl World {
    /// A world from stored blocks (as `blocks_ref` hands them out); `None`
    /// unless there is one block for each cell.
    pub fn from_blocks(blocks: Vec<BlockType>) -> (w: Option<World>)
        ensures
            w is Some <==> blocks@.len() == WORLD_VOLUME,
            w matches Some(w) ==> forall|x: int, y: int, z: int| #[trigger] w.block(x, y, z) == block_of(blocks@, x, y, z),
    {
        if blocks.len() == WORLD_VOLUME {
            Some(World { blocks })
        } else {
            None
        }
    }

    /// The stored blocks, one per cell, cell `(x * 256 + z) * 64 + y` for position `(x, y, z)`.
    pub fn blocks_ref(&self) -> (r: &Vec<BlockType>)
        ensures
            r@.len() == WORLD_VOLUME,
            forall|x: int, y: int, z: int| #[trigger] self.block(x, y, z) == block_of(r@, x, y, z),
    {
        proof { use_type_invariant(self); }
        &self.blocks
    }

    /// The block at a position; air outside the world.
    pub fn get(&self, x: i32, y: i32, z: i32) -> (b: BlockType)
        ensures
            b == self.block(x as int, y as int, z as int),
    {
        proof { use_type_invariant(self); }
        if x < 0 || y < 0 || z < 0 || x >= WORLD_WIDTH as i32 || y >= WORLD_HEIGHT as i32
            || z >= WORLD_DEPTH as i32 {
            return BlockType::Air;
        }
        self.blocks[cell_index(x as usize, y as usize, z as usize)]
    }

    /// Put a block at a position inside the world; positions outside are ignored.
    pub fn set(&mut self, x: i32, y: i32, z: i32, block: BlockType)
        ensures
            forall|a: int, b: int, c: int| #[trigger] final(self).block(a, b, c) == if a == x && b == y
                && c == z && in_world(a, b, c) { block } else { old(self).block(a, b, c) },
    {
        proof { use_type_invariant(&*self); }
        if x >= 0 && y >= 0 && z >= 0 && x < WORLD_WIDTH as i32 && y < WORLD_HEIGHT as i32
            && z < WORLD_DEPTH as i32 {
            let i = cell_index(x as usize, y as usize, z as usize);
            self.blocks[i] = block;
            proof {
                assert forall|a: int, b: int, c: int| #[trigger] self.block(a, b, c) == if a == x && b == y
                    && c == z && in_world(a, b, c) { block } else { old(self).block(a, b, c) } by {
                    if in_world(a, b, c) {
                        lemma_cell(a, b, c);
                        lemma_cell(x as int, y as int, z as int);
                    }
                }
            }
        }
    }

    /// Positions outside the world read as air.
    pub proof fn lemma_outside_is_air(&self, x: int, y: int, z: int)
        ensures
            !in_world(x, y, z) ==> self.block(x, y, z) == BlockType::Air,
    {
    }

    /// The height of the highest solid block of a column, 0 if it has none.
    pub fn height_at(&self, x: i32, z: i32) -> (h: i32)
        ensures
            0 <= h < 64,
            self.block(x as int, h as int, z as int).is_solid() || h == 0,
            forall|y: int| h < y < 64 ==> !(#[trigger] self.block(x as int, y, z as int)).is_solid(),
    {
        let mut y: i32 = WORLD_HEIGHT as i32;
        while y > 0
            invariant
                0 <= y <= 64,
                forall|k: int| y <= k < 64 ==> !(#[trigger] self.block(x as int, k, z as int)).is_solid(),
            decreases y,
        {
            if self.get(x, y - 1, z).is_solid() {
                return y - 1;
            }
            y -= 1;
        }
        0
    }
}

/// Storage of the bare terrain.
fn fill_terrain(heights: &Vec<i32>) -> (blocks: Vec<BlockType>)
    requires
        heights@.len() == WORLD_COLUMNS,
    ensures
        blocks@ == terrain(heights@),
{
    let mut blocks: Vec<BlockType> = Vec::with_capacity(WORLD_VOLUME);
    let mut c: usize = 0;
    while c < WORLD_COLUMNS
        invariant
            c <= WORLD_COLUMNS,
            heights@.len() == WORLD_COLUMNS,
            blocks@.len() == c * 64,
            forall|j: int| 0 <= j < blocks@.len() ==> #[trigger] blocks@[j] == terrain(heights@)[j],
        decreases WORLD_COLUMNS - c,
    {
        let raw = heights[c];
        let h: usize = if raw < 1 { 1 } else if raw > 63 { 63 } else { raw as usize };
        let mut y: usize = 0;
        while y < WORLD_HEIGHT
            invariant
                c < WORLD_COLUMNS,
                y <= WORLD_HEIGHT,
                heights@.len() == WORLD_COLUMNS,
                h == clamped_height(heights@[c as int]),
                blocks@.len() == c * 64 + y,
                forall|j: int| 0 <= j < blocks@.len() ==> #[trigger] blocks@[j] == terrain(heights@)[j],
            decreases WORLD_HEIGHT - y,
        {
            let b = column_block_exec(y, h);
            proof {
                let j = (c * 64 + y) as int;
                vstd::arithmetic::div_mod::lemma_fundamental_div_mod_converse(j, 64, c as int, y as int);
            }
            blocks.push(b);
            y += 1;
        }
        c += 1;
    }
    assert(blocks@ =~= terrain(heights@));
    blocks
}

fn column_block_exec(y: usize, h: usize) -> (b: BlockType)
    requires
        y < 64,
        1 <= h <= 63,
    ensures
        b == column_block(y as int, h as int),
{
    if y == 0 {
        BlockType::Stone
    } else if h > 4 && y < h - 4 {
        BlockType::Stone
    } else if h > 1 && y < h - 1 {
        if h < SEA_LEVEL as usize + 2 {
            BlockType::Sand
        } else {
            BlockType::Dirt
        }
    } else if h > 0 && y == h - 1 {
        if h < SEA_LEVEL as usize + 2 {
            BlockType::Sand
        } else {
            BlockType::Grass
        }
    } else if y < SEA_LEVEL as usize {
        BlockType::Water
    } else {
        BlockType::Air
    }
}

fn cell_index(x: usize, y: usize, z: usize) -> (i: usize)
    requires
        in_world(x as int, y as int, z as int),
    ensures
        i == cell(x as int, y as int, z as int),
        i < WORLD_VOLUME,
{
    x * 16384 + z * 64 + y
}

/// The ground of column `(x, z)`: its highest cell that is neither air nor water.
fn surface_exec(blocks: &Vec<BlockType>, x: usize, z: usize) -> (r: Option<usize>)
    requires
        blocks@.len() == WORLD_VOLUME,
        x < 256,
        z < 256,
    ensures
        match surface(blocks@, x as int, z as int, 64) {
            Some(y) => r == Some(y as usize) && 0 <= y < 64,
            None => r is None,
        },
{
    proof {
        assert forall|m: nat| m <= 64 implies #[trigger] surface(blocks@, x as int, z as int, m) matches Some(y) ==> 0 <= y < m by {
            lemma_surface_below(blocks@, x as int, z as int, m);
        }
    }
    let mut n: usize = 64;
    while n > 0
        invariant
            n <= 64,
            blocks@.len() == WORLD_VOLUME,
            x < 256,
            z < 256,
            surface(blocks@, x as int, z as int, 64) == surface(blocks@, x as int, z as int, n as nat),
            forall|m: nat| m <= 64 ==> (#[trigger] surface(blocks@, x as int, z as int, m) matches Some(y) ==> 0 <= y < m),
        decreases n,
    {
        let b = blocks[cell_index(x, n - 1, z)];
        if b != BlockType::Air && b != BlockType::Water {
            return Some(n - 1);
        }
        n -= 1;
    }
    None
}

/// Grow a tree on column `(x, z)` if its ground allows one.
fn plant_tree(blocks: &mut Vec<BlockType>, x: usize, z: usize)
    requires
        old(blocks)@.len() == WORLD_VOLUME,
        4 <= x < 252,
        4 <= z < 252,
    ensures
        final(blocks)@ == plant(old(blocks)@, x as int, z as int),
{
    let sy = match surface_exec(blocks, x, z) {
        Some(sy) => sy,
        None => return,
    };
    if !(blocks[cell_index(x, sy, z)] == BlockType::Grass && sy + 6 < WORLD_HEIGHT) {
        return;
    }
    let ghost s = blocks@;
    let mut dy: usize = 1;
    while dy <= 4
        invariant
            1 <= dy <= 5,
            s.len() == WORLD_VOLUME,
            sy + 6 < 64,
            4 <= x < 252,
            4 <= z < 252,
            blocks@.len() == WORLD_VOLUME,
            forall|i: int| 0 <= i < WORLD_VOLUME ==> #[trigger] blocks@[i] == (
                if cell_x(i) == x && cell_z(i) == z && sy + 1 <= cell_y(i) < sy + dy { BlockType::Wood } else { s[i] }),
        decreases 5 - dy,
    {
        let j = cell_index(x, sy + dy, z);
        proof { lemma_cell(x as int, (sy + dy) as int, z as int); }
        blocks.set(j, BlockType::Wood);
        dy += 1;
    }
    let ghost st = blocks@;
    let mut dx: i32 = -2;
    while dx <= 2
        invariant
            -2 <= dx <= 3,
            sy + 6 < 64,
            4 <= x < 252,
            4 <= z < 252,
            blocks@.len() == WORLD_VOLUME,
            st.len() == WORLD_VOLUME,
            forall|i: int| 0 <= i < WORLD_VOLUME ==> #[trigger] blocks@[i] == (
                if in_crown(cell_x(i) - x, cell_z(i) - z, cell_y(i) - sy) && cell_x(i) - x < dx
                    && st[i] == BlockType::Air { BlockType::Leaves } else { st[i] }),
        decreases 3 - dx,
    {
        crown_slice(blocks, x, z, sy, dx, Ghost(st));
        dx += 1;
    }
    proof {
        assert forall|i: int| 0 <= i < WORLD_VOLUME implies #[trigger] blocks@[i] == tree_cell(s, x as int, z as int, sy as int, i) by {
            lemma_cell_decode(i);
        }
        assert(blocks@ =~= Seq::new(s.len(), |i: int| tree_cell(s, x as int, z as int, sy as int, i)));
    }
}

/// Put leaves in the slice `dx` of a tree's crown.
fn crown_slice(blocks: &mut Vec<BlockType>, x: usize, z: usize, sy: usize, dx: i32, Ghost(st): Ghost<Seq<BlockType>>)
    requires
        -2 <= dx <= 2,
        sy + 6 < 64,
        4 <= x < 252,
        4 <= z < 252,
        old(blocks)@.len() == WORLD_VOLUME,
        st.len() == WORLD_VOLUME,
        forall|i: int| 0 <= i < WORLD_VOLUME ==> #[trigger] old(blocks)@[i] == (
            if in_crown(cell_x(i) - x, cell_z(i) - z, cell_y(i) - sy) && cell_x(i) - x < dx
                && st[i] == BlockType::Air { BlockType::Leaves } else { st[i] }),
    ensures
        final(blocks)@.len() == WORLD_VOLUME,
        forall|i: int| 0 <= i < WORLD_VOLUME ==> #[trigger] final(blocks)@[i] == (
            if in_crown(cell_x(i) - x, cell_z(i) - z, cell_y(i) - sy) && cell_x(i) - x < dx + 1
                && st[i] == BlockType::Air { BlockType::Leaves } else { st[i] }),
{
    let mut dz: i32 = -2;
    while dz <= 2
        invariant
            -2 <= dx <= 2,
            -2 <= dz <= 3,
            sy + 6 < 64,
            4 <= x < 252,
            4 <= z < 252,
            blocks@.len() == WORLD_VOLUME,
            st.len() == WORLD_VOLUME,
            forall|i: int| 0 <= i < WORLD_VOLUME ==> #[trigger] blocks@[i] == (
                if in_crown(cell_x(i) - x, cell_z(i) - z, cell_y(i) - sy) && (cell_x(i) - x < dx
                    || (cell_x(i) - x == dx && cell_z(i) - z < dz)) && st[i] == BlockType::Air {
                    BlockType::Leaves
                } else {
                    st[i]
                }),
        decreases 3 - dz,
    {
        let mut dy: usize = 3;
        while dy <= 5
            invariant
                -2 <= dx <= 2,
                -2 <= dz <= 2,
                3 <= dy <= 6,
                sy + 6 < 64,
                4 <= x < 252,
                4 <= z < 252,
                blocks@.len() == WORLD_VOLUME,
                st.len() == WORLD_VOLUME,
                forall|i: int| 0 <= i < WORLD_VOLUME ==> #[trigger] blocks@[i] == (
                    if in_crown(cell_x(i) - x, cell_z(i) - z, cell_y(i) - sy) && (cell_x(i) - x < dx
                        || (cell_x(i) - x == dx && cell_z(i) - z < dz) || (cell_x(i) - x == dx
                        && cell_z(i) - z == dz && cell_y(i) - sy < dy)) && st[i] == BlockType::Air {
                        BlockType::Leaves
                    } else {
                        st[i]
                    }),
            decreases 6 - dy,
        {
            let adx: i32 = if dx < 0 { -dx } else { dx };
            let adz: i32 = if dz < 0 { -dz } else { dz };
            let lx = (x as i32 + dx) as usize;
            let lz = (z as i32 + dz) as usize;
            let j = cell_index(lx, sy + dy, lz);
            proof { lemma_cell(lx as int, (sy + dy) as int, lz as int); }
            if adx + adz <= 3 - (dy as i32 - 3) {
                if blocks[j] == BlockType::Air {
                    proof {
                        assert(st[j as int] == BlockType::Air);
                    }
                    blocks.set(j, BlockType::Leaves);
                }
            }
            dy += 1;
        }
        dz += 1;
    }
}

} // verus!
