//! The Nether and the obsidian portals that lead there.
use vstd::prelude::*;
use crate::block::BlockType;
use crate::world::{World, in_world};

verus! {

#[derive(Debug, Clone, Copy, PartialEq, Eq, Structural, Hash)]
pub enum Dimension {
    Overworld,
    Nether,
}

impl Dimension {
    #[verifier::allow_in_spec]
    pub fn name(&self) -> &'static str
        returns
            match self {
                Dimension::Overworld => "Overworld",
                Dimension::Nether => "Nether",
            },
    {
        match self {
            Dimension::Overworld => "Overworld",
            Dimension::Nether => "Nether",
        }
    }
}

/// The block at height `y` of a Nether column: lava lakes at the bottom
/// (up to 3), netherrack floor (up to 5) and ceiling (from 50), and in
/// between netherrack except where the cave noise opens a cave.
#[verifier::allow_in_spec]
pub fn nether_block(y: usize, cave: bool) -> BlockType
    returns
        if y <= 3 {
            BlockType::Lava
        } else if y <= 5 {
            BlockType::Netherrack
        } else if y >= 50 {
            BlockType::Netherrack
        } else if cave {
            BlockType::Air
        } else {
            BlockType::Netherrack
        },
{
    if y <= 3 {
        BlockType::Lava
    } else if y <= 5 {
        BlockType::Netherrack
    } else if y >= 50 {
        BlockType::Netherrack
    } else if cave {
        BlockType::Air
    } else {
        BlockType::Netherrack
    }
}

/// A portal frame stands at `(x, y, z)`: a ring of obsidian four wide and
/// five tall along x, around an inside of air two wide and three tall.
pub open spec fn portal_frame(w: World, x: int, y: int, z: int) -> bool {
    &&& forall|dx: int| 0 <= dx < 4 ==> #[trigger] w.block(x + dx, y, z) == BlockType::Obsidian
    &&& forall|dx: int| 0 <= dx < 4 ==> #[trigger] w.block(x + dx, y + 4, z) == BlockType::Obsidian
    &&& forall|dy: int| 1 <= dy < 4 ==> #[trigger] w.block(x, y + dy, z) == BlockType::Obsidian
    &&& forall|dy: int| 1 <= dy < 4 ==> #[trigger] w.block(x + 3, y + dy, z) == BlockType::Obsidian
    &&& forall|dx: int, dy: int| 1 <= dx < 3 && 1 <= dy < 4 ==> #[trigger] w.block(x + dx, y + dy, z)
        == BlockType::Air
}

/// The inside of the frame at `(x, y, z)`.
pub open spec fn portal_inside(x: int, y: int, z: int, a: int, b: int, c: int) -> bool {
    c == z && x + 1 <= a <= x + 2 && y + 1 <= b <= y + 3
}

/// The block at `(a, b, c)` once the portal at `(x, y, z)` is lit: portal
/// blocks inside the frame (where that lies in the world), the rest unchanged.
pub open spec fn lit_block(w: World, x: int, y: int, z: int, a: int, b: int, c: int) -> BlockType {
    if portal_inside(x, y, z, a, b, c) && in_world(a, b, c) {
        BlockType::Portal
    } else {
        w.block(a, b, c)
    }
}

/// Whether a portal frame stands at `(x, y, z)`.
pub fn check_portal(world: &World, x: i32, y: i32, z: i32) -> (r: bool)
    ensures
        r == portal_frame(*world, x as int, y as int, z as int),
{
    let mut dx: i32 = 0;
    while dx < 4
        invariant
            0 <= dx <= 4,
            forall|d: int| 0 <= d < dx ==> #[trigger] world.block(x + d, y as int, z as int) == BlockType::Obsidian,
        decreases 4 - dx,
    {
        if dx > 0 {
            assert(world.block(x + 0, y as int, z as int) == BlockType::Obsidian);
            assert(x < 256) by { world_cells_outside_are_air(world, x as int, y as int, z as int); }
        }
        if world.get(x + dx, y, z) != BlockType::Obsidian {
            return false;
        }
        dx += 1;
    }
    proof {
        assert(world.block(x + 0, y as int, z as int) == BlockType::Obsidian);
        world_cells_outside_are_air(world, x as int, y as int, z as int);
        assert(world.block(x + 3, y as int, z as int) == BlockType::Obsidian);
        world_cells_outside_are_air(world, x + 3, y as int, z as int);
    }
    let mut dx: i32 = 0;
    while dx < 4
        invariant
            0 <= dx <= 4,
            0 <= x,
            x + 3 < 256,
            0 <= y < 64,
            forall|d: int| 0 <= d < dx ==> #[trigger] world.block(x + d, y + 4, z as int) == BlockType::Obsidian,
        decreases 4 - dx,
    {
        if world.get(x + dx, y + 4, z) != BlockType::Obsidian {
            return false;
        }
        dx += 1;
    }
    let mut dy: i32 = 1;
    while dy < 4
        invariant
            1 <= dy <= 4,
            0 <= x,
            x + 3 < 256,
            0 <= y < 64,
            forall|d: int| 1 <= d < dy ==> #[trigger] world.block(x as int, y + d, z as int) == BlockType::Obsidian,
            forall|d: int| 1 <= d < dy ==> #[trigger] world.block(x + 3, y + d, z as int) == BlockType::Obsidian,
        decreases 4 - dy,
    {
        if world.get(x, y + dy, z) != BlockType::Obsidian {
            return false;
        }
        if world.get(x + 3, y + dy, z) != BlockType::Obsidian {
            return false;
        }
        dy += 1;
    }
    let mut dx: i32 = 1;
    while dx < 3
        invariant
            1 <= dx <= 3,
            0 <= x,
            x + 3 < 256,
            0 <= y < 64,
            forall|a: int, b: int| 1 <= a < dx && 1 <= b < 4 ==> #[trigger] world.block(x + a, y + b, z as int)
                == BlockType::Air,
        decreases 3 - dx,
    {
        let mut dy: i32 = 1;
        while dy < 4
            invariant
                1 <= dx < 3,
                1 <= dy <= 4,
                0 <= x,
                x + 3 < 256,
                0 <= y < 64,
                forall|a: int, b: int| ((1 <= a < dx && 1 <= b < 4) || (a == dx && 1 <= b < dy))
                    ==> #[trigger] world.block(x + a, y + b, z as int) == BlockType::Air,
            decreases 4 - dy,
        {
            if world.get(x + dx, y + dy, z) != BlockType::Air {
                return false;
            }
            dy += 1;
        }
        dx += 1;
    }
    true
}

/// Light a portal: fill the inside of the frame at `(x, y, z)` with portal blocks.
pub fn activate_portal(world: &mut World, x: i32, y: i32, z: i32)
    requires
        x + 2 <= i32::MAX,
        y + 3 <= i32::MAX,
    ensures
        forall|a: int, b: int, c: int| #[trigger] final(world).block(a, b, c) == lit_block(
            *old(world),
            x as int,
            y as int,
            z as int,
            a,
            b,
            c,
        ),
{
    let mut dx: i32 = 1;
    while dx < 3
        invariant
            1 <= dx <= 3,
            x + 2 <= i32::MAX,
            y + 3 <= i32::MAX,
            forall|a: int, b: int, c: int| #[trigger] world.block(a, b, c) == if portal_inside(
                x as int,
                y as int,
                z as int,
                a,
                b,
                c,
            ) && a < x + dx && in_world(a, b, c) {
                BlockType::Portal
            } else {
                old(world).block(a, b, c)
            },
        decreases 3 - dx,
    {
        let mut dy: i32 = 1;
        while dy < 4
            invariant
                1 <= dx < 3,
                1 <= dy <= 4,
                x + 2 <= i32::MAX,
                y + 3 <= i32::MAX,
                forall|a: int, b: int, c: int| #[trigger] world.block(a, b, c) == if portal_inside(
                    x as int,
                    y as int,
                    z as int,
                    a,
                    b,
                    c,
                ) && (a < x + dx || (a == x + dx && b < y + dy)) && in_world(a, b, c) {
                    BlockType::Portal
                } else {
                    old(world).block(a, b, c)
                },
            decreases 4 - dy,
        {
            world.set(x + dx, y + dy, z, BlockType::Portal);
            dy += 1;
        }
        dx += 1;
    }
}

/// Positions outside the world read as air.
proof fn world_cells_outside_are_air(w: &World, x: int, y: int, z: int)
    ensures
        !in_world(x, y, z) ==> w.block(x, y, z) == BlockType::Air,
{
    w.lemma_outside_is_air(x, y, z);
}

/// A portal frame, cell by cell: the fourteen cells of the ring (bottom
/// and top rows four wide, the two sides three high between them) are
/// obsidian, and all six cells inside, two wide and three high, are air.
/// A frame with anything but air anywhere inside is no frame.
pub proof fn lemma_portal_frame_cells(w: World, x: int, y: int, z: int)
    ensures
        portal_frame(w, x, y, z) <==> {
            &&& w.block(x, y, z) == BlockType::Obsidian
            &&& w.block(x, y + 4, z) == BlockType::Obsidian
            &&& w.block(x + 1, y, z) == BlockType::Obsidian
            &&& w.block(x + 1, y + 4, z) == BlockType::Obsidian
            &&& w.block(x + 2, y, z) == BlockType::Obsidian
            &&& w.block(x + 2, y + 4, z) == BlockType::Obsidian
            &&& w.block(x + 3, y, z) == BlockType::Obsidian
            &&& w.block(x + 3, y + 4, z) == BlockType::Obsidian
            &&& w.block(x, y + 1, z) == BlockType::Obsidian
            &&& w.block(x + 3, y + 1, z) == BlockType::Obsidian
            &&& w.block(x, y + 2, z) == BlockType::Obsidian
            &&& w.block(x + 3, y + 2, z) == BlockType::Obsidian
            &&& w.block(x, y + 3, z) == BlockType::Obsidian
            &&& w.block(x + 3, y + 3, z) == BlockType::Obsidian
            &&& w.block(x + 1, y + 1, z) == BlockType::Air
            &&& w.block(x + 1, y + 2, z) == BlockType::Air
            &&& w.block(x + 1, y + 3, z) == BlockType::Air
            &&& w.block(x + 2, y + 1, z) == BlockType::Air
            &&& w.block(x + 2, y + 2, z) == BlockType::Air
            &&& w.block(x + 2, y + 3, z) == BlockType::Air
        },
{
    if !portal_frame(w, x, y, z) {
        if forall|dx: int| 0 <= dx < 4 ==> #[trigger] w.block(x + dx, y, z) == BlockType::Obsidian {
            if forall|dx: int| 0 <= dx < 4 ==> #[trigger] w.block(x + dx, y + 4, z) == BlockType::Obsidian {
                if forall|dy: int| 1 <= dy < 4 ==> #[trigger] w.block(x, y + dy, z) == BlockType::Obsidian {
                    if forall|dy: int| 1 <= dy < 4 ==> #[trigger] w.block(x + 3, y + dy, z) == BlockType::Obsidian {
                        let (dx, dy) = choose|dx: int, dy: int| 1 <= dx < 3 && 1 <= dy < 4 && #[trigger] w.block(x + dx, y + dy, z)
                            != BlockType::Air;
                        assert(w.block(x + dx, y + dy, z) != BlockType::Air);
                    } else {
                        let dy = choose|dy: int| 1 <= dy < 4 && #[trigger] w.block(x + 3, y + dy, z) != BlockType::Obsidian;
                        assert(w.block(x + 3, y + dy, z) != BlockType::Obsidian);
                    }
                } else {
                    let dy = choose|dy: int| 1 <= dy < 4 && #[trigger] w.block(x, y + dy, z) != BlockType::Obsidian;
                    assert(w.block(x, y + dy, z) != BlockType::Obsidian);
                }
            } else {
                let dx = choose|dx: int| 0 <= dx < 4 && #[trigger] w.block(x + dx, y + 4, z) != BlockType::Obsidian;
                assert(w.block(x + dx, y + 4, z) != BlockType::Obsidian);
            }
        } else {
            let dx = choose|dx: int| 0 <= dx < 4 && #[trigger] w.block(x + dx, y, z) != BlockType::Obsidian;
            assert(w.block(x + dx, y, z) != BlockType::Obsidian);
        }
    } else {
        assert(w.block(x + 0, y + 0, z) == BlockType::Obsidian);
        assert(w.block(x + 0, y + 4, z) == BlockType::Obsidian);
        assert(w.block(x + 1, y + 0, z) == BlockType::Obsidian);
        assert(w.block(x + 1, y + 4, z) == BlockType::Obsidian);
        assert(w.block(x + 2, y + 0, z) == BlockType::Obsidian);
        assert(w.block(x + 2, y + 4, z) == BlockType::Obsidian);
        assert(w.block(x + 3, y + 0, z) == BlockType::Obsidian);
        assert(w.block(x + 3, y + 4, z) == BlockType::Obsidian);
        assert(w.block(x + 0, y + 1, z) == BlockType::Obsidian);
        assert(w.block(x + 3, y + 1, z) == BlockType::Obsidian);
        assert(w.block(x + 0, y + 2, z) == BlockType::Obsidian);
        assert(w.block(x + 3, y + 2, z) == BlockType::Obsidian);
        assert(w.block(x + 0, y + 3, z) == BlockType::Obsidian);
        assert(w.block(x + 3, y + 3, z) == BlockType::Obsidian);
        assert(w.block(x + 1, y + 1, z) == BlockType::Air);
        assert(w.block(x + 1, y + 2, z) == BlockType::Air);
        assert(w.block(x + 1, y + 3, z) == BlockType::Air);
        assert(w.block(x + 2, y + 1, z) == BlockType::Air);
        assert(w.block(x + 2, y + 2, z) == BlockType::Air);
        assert(w.block(x + 2, y + 3, z) == BlockType::Air);
    }
}

/// A lit portal is no longer an empty frame: lighting a frame keeps its
/// obsidian ring and fills all six cells of its inside with portal blocks.
pub proof fn lemma_lit_portal(w: World, lit: World, x: int, y: int, z: int)
    requires
        portal_frame(w, x, y, z),
        forall|a: int, b: int, c: int| #[trigger] lit.block(a, b, c) == lit_block(w, x, y, z, a, b, c),
    ensures
        forall|dx: int, dy: int| 1 <= dx < 3 && 1 <= dy < 4 ==> #[trigger] lit.block(x + dx, y + dy, z)
            == BlockType::Portal,
        forall|dx: int| 0 <= dx < 4 ==> #[trigger] lit.block(x + dx, y, z) == BlockType::Obsidian,
        forall|dx: int| 0 <= dx < 4 ==> #[trigger] lit.block(x + dx, y + 4, z) == BlockType::Obsidian,
        forall|dy: int| 1 <= dy < 4 ==> #[trigger] lit.block(x, y + dy, z) == BlockType::Obsidian,
        forall|dy: int| 1 <= dy < 4 ==> #[trigger] lit.block(x + 3, y + dy, z) == BlockType::Obsidian,
        !portal_frame(lit, x, y, z),
{
    assert(w.block(x + 0, y, z) == BlockType::Obsidian);
    assert(w.block(x + 3, y + 4, z) == BlockType::Obsidian);
    w.lemma_outside_is_air(x + 0, y, z);
    w.lemma_outside_is_air(x + 3, y + 4, z);
    assert forall|dx: int, dy: int| 1 <= dx < 3 && 1 <= dy < 4 implies #[trigger] lit.block(x + dx, y + dy, z)
        == BlockType::Portal by {
        assert(lit.block(x + dx, y + dy, z) == lit_block(w, x, y, z, x + dx, y + dy, z));
    }
    assert(lit.block(x + 1, y + 1, z) == BlockType::Portal);
}

} // verus!
