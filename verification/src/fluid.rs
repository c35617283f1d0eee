//! Water flow: water falls first, then spreads sideways, weakening, and
//! water that nothing feeds drains away.
use vstd::prelude::*;
use std::collections::{HashSet, VecDeque};
use crate::block::BlockType;
use crate::world::{World, in_world};

verus! {

broadcast use vstd::std_specs::hash::group_hash_axioms;

/// Half the width of the square around the player in which water moves.
pub const FLUID_SCAN: i32 = 20;

/// Fluid simulation system.
pub struct FluidSystem;

/// A position of the world.
pub type Pos = (i32, i32, i32);

/// A block update: put a block at a position.
pub type Update = (i32, i32, i32, BlockType);

pub open spec fn block_at(w: World, p: Pos) -> BlockType {
    w.block(p.0 as int, p.1 as int, p.2 as int)
}

pub open spec fn below(p: Pos) -> Pos {
    (p.0, (p.1 - 1) as i32, p.2)
}

pub open spec fn above(p: Pos) -> Pos {
    (p.0, (p.1 + 1) as i32, p.2)
}

/// Positions side by side at the same height.
pub open spec fn side_by_side(p: Pos, q: Pos) -> bool {
    p.1 == q.1 && ((p.2 == q.2 && (p.0 == q.0 + 1 || q.0 == p.0 + 1)) || (p.0 == q.0 && (p.2 == q.2 + 1
        || q.2 == p.2 + 1)))
}

/// The area around `(cx, cz)` in which water moves, the whole height of the world.
pub open spec fn in_fluid_scan(cx: int, cz: int, p: Pos) -> bool {
    cx - FLUID_SCAN <= p.0 <= cx + FLUID_SCAN && cz - FLUID_SCAN <= p.2 <= cz + FLUID_SCAN && 0 <= p.1 < 64
}

/// A water source: water in the area resting on stone, dirt, sand or water.
pub open spec fn fluid_source(w: World, cx: int, cz: int, p: Pos) -> bool {
    &&& in_fluid_scan(cx, cz, p)
    &&& block_at(w, p) == BlockType::Water
    &&& {
        let b = block_at(w, below(p));
        b == BlockType::Stone || b == BlockType::Dirt || b == BlockType::Sand || b == BlockType::Water
    }
}

/// Water that drains: water in the area that is no source and has no water above it.
pub open spec fn drains_at(w: World, cx: int, cz: int, p: Pos) -> bool {
    &&& in_fluid_scan(cx, cz, p)
    &&& block_at(w, p) == BlockType::Water
    &&& !fluid_source(w, cx, cz, p)
    &&& block_at(w, above(p)) != BlockType::Water
}

/// Water at `q` falls: air lies below it, above the bottom of the world.
pub open spec fn falls(w: World, q: Pos) -> bool {
    block_at(w, below(q)) == BlockType::Air && q.1 > 0
}

/// The level of a source: 3 resting on water, 4 resting on stone, dirt or sand.
pub open spec fn source_level(w: World, p: Pos) -> int {
    if block_at(w, below(p)) == BlockType::Water {
        3
    } else {
        4
    }
}

/// Water at `q` of level `lq` flows into `p`, arriving at level `lp`: it
/// falls into the cell below at the full level 4, or, where it cannot fall
/// and its level exceeds one, spreads sideways one level weaker.
#[verifier::opaque]
pub open spec fn flows_into(w: World, q: Pos, lq: int, p: Pos, lp: int) -> bool {
    ||| falls(w, q) && p == below(q) && lp == 4
    ||| !falls(w, q) && lq > 1 && side_by_side(q, p) && lp == lq - 1
}

/// Number of positions of the area: 41 by 41 columns of 64.
pub open spec fn scan_size() -> int {
    41int * 41 * 64
}

/// The `k`-th position of the area, column by column, bottom to top.
pub open spec fn scan_pos(cx: int, cz: int, k: int) -> Pos {
    ((cx - FLUID_SCAN + k / 2624int) as i32, (k % 64) as i32, (cz - FLUID_SCAN + (k / 64) % 41) as i32)
}

/// The drain updates of the first `k` positions of the area, in scan order.
pub open spec fn drains_upto(w: World, cx: int, cz: int, k: nat) -> Seq<Update>
    decreases k,
{
    if k == 0 {
        Seq::empty()
    } else {
        let prev = drains_upto(w, cx, cz, (k - 1) as nat);
        let p = scan_pos(cx, cz, k - 1);
        if drains_at(w, cx, cz, p) {
            prev.push((p.0, p.1, p.2, BlockType::Air))
        } else {
            prev
        }
    }
}

/// The position of an update.
pub open spec fn upos(u: Update) -> Pos {
    (u.0, u.1, u.2)
}

/// Water reaches `p`: a source, or the position of one of the water updates.
pub open spec fn wet(w: World, cx: int, cz: int, water: Seq<Update>, p: Pos) -> bool {
    fluid_source(w, cx, cz, p) || exists|i: int| 0 <= i < water.len() && upos(#[trigger] water[i]) == p
}

/// The levels `lvl` explain the water updates: each source has its level;
/// each update is air that water flows into from a source or an earlier
/// update; and from every cell water reaches it went on, falling into the
/// cell below where it can, and otherwise, while its level exceeds one,
/// spreading into the air beside it.
pub open spec fn flow_explained(w: World, cx: int, cz: int, water: Seq<Update>, lvl: spec_fn(Pos) -> int) -> bool {
    &&& forall|p: Pos| #[trigger] fluid_source(w, cx, cz, p) ==> lvl(p) == source_level(w, p)
    &&& forall|i: int|
        0 <= i < water.len() ==> {
            let p = upos(#[trigger] water[i]);
            &&& water[i].3 == BlockType::Water
            &&& block_at(w, p) == BlockType::Air
            &&& exists|q: Pos|
                #![trigger flows_into(w, q, lvl(q), p, lvl(p))]
                (fluid_source(w, cx, cz, q) || exists|j: int| 0 <= j < i && upos(#[trigger] water[j]) == q)
                    && flows_into(w, q, lvl(q), p, lvl(p))
        }
    &&& forall|q: Pos| #[trigger] wet(w, cx, cz, water, q) && falls(w, q) ==> wet(w, cx, cz, water, below(q))
    &&& forall|q: Pos, p: Pos|
        #[trigger] wet(w, cx, cz, water, q) && !falls(w, q) && lvl(q) > 1 && side_by_side(q, p) && #[trigger] block_at(w, p)
            == BlockType::Air ==> wet(w, cx, cz, water, p)
}

/// Where water goes, cell by cell: every water update is air that water
/// reaches from a source or an earlier update either straight above it or
/// right beside it at the same height; water over air (above the bottom of
/// the world) always falls into the cell below; and water flowing sideways
/// arrives one level weaker than where it came from.
pub proof fn lemma_water_geometry(w: World, cx: int, cz: int, water: Seq<Update>, lvl: spec_fn(Pos) -> int)
    requires
        flow_explained(w, cx, cz, water, lvl),
    ensures
        forall|i: int|
            0 <= i < water.len() ==> {
                let p = upos(#[trigger] water[i]);
                &&& water[i].3 == BlockType::Water
                &&& block_at(w, p) == BlockType::Air
                &&& exists|q: Pos|
                    (fluid_source(w, cx, cz, q) || exists|j: int| 0 <= j < i && upos(#[trigger] water[j]) == q) && ((q.0
                        == p.0 && q.2 == p.2 && q.1 == p.1 + 1) || (q.1 == p.1 && ((q.0 == p.0 && (q.2 == p.2 + 1 || q.2
                        == p.2 - 1)) || (q.2 == p.2 && (q.0 == p.0 + 1 || q.0 == p.0 - 1))) && lvl(p) == lvl(q) - 1))
            },
        forall|q: Pos|
            #[trigger] wet(w, cx, cz, water, q) && q.1 > 0 && w.block(q.0 as int, q.1 - 1, q.2 as int) == BlockType::Air
                ==> wet(w, cx, cz, water, (q.0, (q.1 - 1) as i32, q.2)),
{
    reveal(flows_into);
    assert forall|i: int| 0 <= i < water.len() implies {
        let p = upos(#[trigger] water[i]);
        &&& water[i].3 == BlockType::Water
        &&& block_at(w, p) == BlockType::Air
        &&& exists|q: Pos|
            (fluid_source(w, cx, cz, q) || exists|j: int| 0 <= j < i && upos(#[trigger] water[j]) == q) && ((q.0 == p.0
                && q.2 == p.2 && q.1 == p.1 + 1) || (q.1 == p.1 && ((q.0 == p.0 && (q.2 == p.2 + 1 || q.2 == p.2 - 1))
                || (q.2 == p.2 && (q.0 == p.0 + 1 || q.0 == p.0 - 1))) && lvl(p) == lvl(q) - 1))
    } by {
        let p = upos(water[i]);
        let q = choose|q: Pos|
            #![trigger flows_into(w, q, lvl(q), p, lvl(p))]
            (fluid_source(w, cx, cz, q) || exists|j: int| 0 <= j < i && upos(#[trigger] water[j]) == q)
                && flows_into(w, q, lvl(q), p, lvl(p));
        assert(flows_into(w, q, lvl(q), p, lvl(p)));
    }
    assert forall|q: Pos|
        #[trigger] wet(w, cx, cz, water, q) && q.1 > 0 && w.block(q.0 as int, q.1 - 1, q.2 as int) == BlockType::Air
            implies wet(w, cx, cz, water, (q.0, (q.1 - 1) as i32, q.2)) by {
        assert(falls(w, q));
        assert(below(q) == (q.0, (q.1 - 1) as i32, q.2));
    }
}

/// How far a coordinate lies outside the world's 0..256.
pub open spec fn outside(v: int) -> int {
    if v < 0 {
        -v
    } else if v >= 256 {
        v - 255
    } else {
        0
    }
}

/// How far a position lies outside the world, sideways.
pub open spec fn out_of_world(p: Pos) -> int {
    outside(p.0 as int) + outside(p.2 as int)
}

/// A queued flow: a level from 1 to 4, a height inside the world, and not
/// far outside the world. Water can stray a few blocks beyond the world's
/// edge (where everything reads as air), never far.
pub open spec fn flow_ok(e: (Pos, u8)) -> bool {
    &&& 1 <= e.1 <= 4
    &&& 0 <= e.0.1 < 64
    &&& out_of_world(e.0) + e.1 <= 5
    &&& (e.0.1 > 0 && out_of_world(e.0) > 0) ==> out_of_world(e.0) <= 1
}

/// Number of keys of the positions water can reach.
pub open spec fn key_range() -> int {
    272int * 272 * 64
}

/// Key of a position near the world.
pub open spec fn fkey(p: Pos) -> int {
    ((p.0 + 8) * 272 + (p.2 + 8)) * 64 + p.1
}

pub open spec fn near_world(p: Pos) -> bool {
    -8 <= p.0 < 264 && -8 <= p.2 < 264 && 0 <= p.1 < 64
}

proof fn lemma_fkey(p: Pos, q: Pos)
    requires
        near_world(p),
        near_world(q),
    ensures
        0 <= fkey(p) < key_range(),
        fkey(p) == fkey(q) ==> p == q,
{
}

fn fkey_exec(p: Pos) -> (k: u64)
    requires
        near_world(p),
    ensures
        k == fkey(p),
{
    (((p.0 + 8) as u64 * 272 + (p.2 + 8) as u64) * 64 + p.1 as u64)
}

/// Entry `i` is air that water flowed into from an earlier entry.
pub open spec fn arrived(w: World, queue: Seq<(Pos, u8)>, i: int) -> bool {
    &&& block_at(w, queue[i].0) == BlockType::Air
    &&& exists|j: int| 0 <= j < i && flows_into(w, (#[trigger] queue[j]).0, queue[j].1 as int, queue[i].0, queue[i].1 as int)
}

/// The state of a flow computation: the queue holds the sources first,
/// then positions water flowed into, each justified by an earlier entry;
/// positions are distinct; `water` mirrors the flowed positions; `visited`
/// holds exactly the keys of the queued positions, and `seen` mirrors it.
pub open spec fn flow_state(
    w: World,
    cx: int,
    cz: int,
    queue: Seq<(Pos, u8)>,
    nsrc: int,
    water: Seq<Update>,
    visited: Set<u64>,
    seen: Set<int>,
) -> bool {
    &&& 0 <= nsrc <= queue.len()
    &&& forall|i: int| 0 <= i < queue.len() ==> flow_ok(#[trigger] queue[i])
    &&& forall|i: int| 0 <= i < nsrc ==> fluid_source(w, cx, cz, (#[trigger] queue[i]).0) && queue[i].1 == source_level(w, queue[i].0)
    &&& forall|i: int| nsrc <= i < queue.len() ==> #[trigger] arrived(w, queue, i)
    &&& forall|i: int, j: int| 0 <= i < j < queue.len() ==> (#[trigger] queue[i]).0 != (#[trigger] queue[j]).0
    &&& water.len() == queue.len() - nsrc
    &&& forall|i: int| 0 <= i < water.len() ==> #[trigger] water[i] == (queue[nsrc + i].0.0, queue[nsrc + i].0.1, queue[nsrc + i].0.2, BlockType::Water)
    &&& forall|i: int| 0 <= i < queue.len() ==> visited.contains(fkey((#[trigger] queue[i]).0) as u64)
    &&& forall|k: u64| #[trigger] visited.contains(k) ==> k < key_range() && exists|i: int|
        0 <= i < queue.len() && fkey((#[trigger] queue[i]).0) == k
    &&& forall|k: int| #[trigger] seen.contains(k) <==> (0 <= k < key_range() && visited.contains(k as u64))
    &&& seen.finite()
    &&& seen.len() == queue.len()
}

/// Some queued entry is at `p`.
pub open spec fn queued(queue: Seq<(Pos, u8)>, p: Pos) -> bool {
    exists|i: int| 0 <= i < queue.len() && (#[trigger] queue[i]).0 == p
}

proof fn lemma_visited_is_queued(
    w: World,
    cx: int,
    cz: int,
    queue: Seq<(Pos, u8)>,
    nsrc: int,
    water: Seq<Update>,
    visited: Set<u64>,
    seen: Set<int>,
    p: Pos,
)
    requires
        flow_state(w, cx, cz, queue, nsrc, water, visited, seen),
        near_world(p),
    ensures
        visited.contains(fkey(p) as u64) <==> queued(queue, p),
{
    lemma_fkey(p, p);
    if visited.contains(fkey(p) as u64) {
        let i = choose|i: int| 0 <= i < queue.len() && fkey((#[trigger] queue[i]).0) == fkey(p) as u64;
        lemma_fkey(queue[i].0, p);
    }
    if queued(queue, p) {
        let i = choose|i: int| 0 <= i < queue.len() && (#[trigger] queue[i]).0 == p;
        assert(visited.contains(fkey(queue[i].0) as u64));
    }
}

proof fn lemma_queue_bounded(queue: Seq<(Pos, u8)>, seen: Set<int>)
    requires
        forall|k: int| #[trigger] seen.contains(k) ==> 0 <= k < key_range(),
        seen.finite(),
        seen.len() == queue.len(),
    ensures
        queue.len() <= key_range(),
{
    let full = vstd::set_lib::set_int_range(0, key_range());
    vstd::set_lib::lemma_int_range(0, key_range());
    assert(seen.subset_of(full));
    vstd::set_lib::lemma_len_subset(seen, full);
}

/// Queue position `p` with `level`, as a source (`src`) or as water flowing in.
fn enqueue(
    queue: &mut Vec<(Pos, u8)>,
    pending: &mut VecDeque<(Pos, u8)>,
    water: &mut Vec<Update>,
    visited: &mut HashSet<u64>,
    Ghost(seen): Ghost<Set<int>>,
    Ghost(w): Ghost<World>,
    Ghost(cx): Ghost<int>,
    Ghost(cz): Ghost<int>,
    nsrc: usize,
    p: Pos,
    level: u8,
    src: bool,
) -> (seen2: Ghost<Set<int>>)
    requires
        flow_state(w, cx, cz, old(queue)@, nsrc as int, old(water)@, old(visited)@, seen),
        !queued(old(queue)@, p),
        near_world(p),
        flow_ok((p, level)),
        src ==> nsrc == old(queue)@.len() && fluid_source(w, cx, cz, p) && level == source_level(w, p),
        !src ==> block_at(w, p) == BlockType::Air && exists|j: int|
            0 <= j < old(queue)@.len() && flows_into(w, (#[trigger] old(queue)@[j]).0, old(queue)@[j].1 as int, p, level as int),
    ensures
        final(queue)@ == old(queue)@.push((p, level)),
        final(pending)@ == old(pending)@.push((p, level)),
        flow_state(w, cx, cz, final(queue)@, if src { nsrc + 1 } else { nsrc as int }, final(water)@, final(visited)@, seen2@),
{
    let ghost q0 = queue@;
    let ghost w0 = water@;
    let key = fkey_exec(p);
    proof {
        lemma_fkey(p, p);
        lemma_visited_is_queued(w, cx, cz, q0, nsrc as int, w0, visited@, seen, p);
    }
    visited.insert(key);
    queue.push((p, level));
    pending.push_back((p, level));
    if !src {
        water.push((p.0, p.1, p.2, BlockType::Water));
    }
    let ghost seen2 = seen.insert(key as int);
    proof {
        let q = queue@;
        let ns = if src { nsrc + 1 } else { nsrc as int };
        assert(q[q.len() - 1] == (p, level));
        assert forall|i: int| 0 <= i < q.len() implies flow_ok(#[trigger] q[i]) by {
            if i < q0.len() { assert(q[i] == q0[i]); }
        }
        assert forall|i: int| 0 <= i < ns implies fluid_source(w, cx, cz, (#[trigger] q[i]).0) && q[i].1 == source_level(w, q[i].0) by {
            if i < q0.len() { assert(q[i] == q0[i]); }
        }
        assert forall|i: int| ns <= i < q.len() implies #[trigger] arrived(w, q, i) by {
            if i < q0.len() {
                assert(q[i] == q0[i]);
                assert(arrived(w, q0, i));
                let j = choose|j: int| 0 <= j < i && flows_into(w, (#[trigger] q0[j]).0, q0[j].1 as int, q0[i].0, q0[i].1 as int);
                assert(q[j] == q0[j]);
            } else {
                let j = choose|j: int| 0 <= j < q0.len() && flows_into(w, (#[trigger] q0[j]).0, q0[j].1 as int, p, level as int);
                assert(q[j] == q0[j]);
            }
        }
        assert forall|i: int, j: int| 0 <= i < j < q.len() implies (#[trigger] q[i]).0 != (#[trigger] q[j]).0 by {
            if j == q.len() - 1 {
                assert(q[i] == q0[i]);
            } else {
                assert(q[i] == q0[i] && q[j] == q0[j]);
            }
        }
        assert forall|i: int| 0 <= i < water@.len() implies #[trigger] water@[i] == (q[ns + i].0.0, q[ns + i].0.1, q[ns + i].0.2, BlockType::Water) by {
            if i < w0.len() { assert(q[ns + i] == q0[ns + i]); }
        }
        assert forall|i: int| 0 <= i < q.len() implies visited@.contains(fkey((#[trigger] q[i]).0) as u64) by {
            if i < q0.len() { assert(q[i] == q0[i]); }
        }
        assert forall|k: u64| #[trigger] visited@.contains(k) implies k < key_range() && exists|i: int|
            0 <= i < q.len() && fkey((#[trigger] q[i]).0) == k by {
            if k == key {
                assert(fkey(q[q.len() - 1].0) == k);
            } else {
                assert(old(visited)@.contains(k));
                let i = choose|i: int| 0 <= i < q0.len() && fkey((#[trigger] q0[i]).0) == k;
                assert(q[i] == q0[i]);
            }
        }
        assert forall|k: int| #[trigger] seen2.contains(k) <==> (0 <= k < key_range() && visited@.contains(k as u64)) by {
            if k != key as int {
                assert(seen.contains(k) <==> (0 <= k < key_range() && old(visited)@.contains(k as u64)));
            }
        }
    }
    Ghost(seen2)
}

/// Every source of the area is queued.
pub open spec fn sources_queued(w: World, cx: int, cz: int, queue: Seq<(Pos, u8)>) -> bool {
    forall|p: Pos| #[trigger] fluid_source(w, cx, cz, p) ==> queued(queue, p)
}

/// Entry `i` has let its water fall: where it rests on air above the
/// bottom of the world, the cell below is queued too.
pub open spec fn fall_closed(w: World, queue: Seq<(Pos, u8)>, i: int) -> bool {
    falls(w, queue[i].0) ==> queued(queue, below(queue[i].0))
}

/// The four cells beside `p`: east, west, south and north.
pub open spec fn beside(p: Pos, k: int) -> Pos {
    if k == 0 {
        ((p.0 + 1) as i32, p.1, p.2)
    } else if k == 1 {
        ((p.0 - 1) as i32, p.1, p.2)
    } else if k == 2 {
        (p.0, p.1, (p.2 + 1) as i32)
    } else {
        (p.0, p.1, (p.2 - 1) as i32)
    }
}

/// Cell `n` is queued if it is air.
pub open spec fn air_queued(w: World, queue: Seq<(Pos, u8)>, n: Pos) -> bool {
    block_at(w, n) == BlockType::Air ==> queued(queue, n)
}

/// Entry `i` has spread its water: where it cannot fall and its level
/// exceeds one, the air beside it is queued.
pub open spec fn side_closed(w: World, queue: Seq<(Pos, u8)>, i: int) -> bool {
    (!falls(w, queue[i].0) && queue[i].1 > 1) ==> {
        &&& air_queued(w, queue, beside(queue[i].0, 0))
        &&& air_queued(w, queue, beside(queue[i].0, 1))
        &&& air_queued(w, queue, beside(queue[i].0, 2))
        &&& air_queued(w, queue, beside(queue[i].0, 3))
    }
}

/// The level of the entry at `p`.
pub open spec fn queue_level(queue: Seq<(Pos, u8)>, p: Pos) -> int {
    queue[choose|i: int| 0 <= i < queue.len() && (#[trigger] queue[i]).0 == p].1 as int
}

/// The water updates of an update list: all but the trailing drains.
pub open spec fn water_updates(w: World, cx: int, cz: int, u: Seq<Update>) -> Seq<Update> {
    u.subrange(0, u.len() - drains_upto(w, cx, cz, scan_size() as nat).len())
}

proof fn lemma_queued_grows(q: Seq<(Pos, u8)>, x: (Pos, u8))
    ensures
        forall|p: Pos| queued(q, p) ==> #[trigger] queued(q.push(x), p),
        queued(q.push(x), x.0),
{
    assert forall|p: Pos| queued(q, p) implies #[trigger] queued(q.push(x), p) by {
        let i = choose|i: int| 0 <= i < q.len() && (#[trigger] q[i]).0 == p;
        assert(q.push(x)[i] == q[i]);
    }
    assert(q.push(x)[q.len() as int] == x);
}

proof fn lemma_outside_air(w: World, p: Pos)
    ensures
        block_at(w, p) != BlockType::Air ==> in_world(p.0 as int, p.1 as int, p.2 as int),
{
    w.lemma_outside_is_air(p.0 as int, p.1 as int, p.2 as int);
}

/// What a finished flow computation says of its water updates.
#[verifier::spinoff_prover]
#[verifier::rlimit(100)]
proof fn lemma_flow_contract(
    w: World,
    cx: int,
    cz: int,
    queue: Seq<(Pos, u8)>,
    nsrc: int,
    water: Seq<Update>,
    visited: Set<u64>,
    seen: Set<int>,
)
    requires
        flow_state(w, cx, cz, queue, nsrc, water, visited, seen),
        sources_queued(w, cx, cz, queue),
        forall|i: int| 0 <= i < queue.len() ==> fall_closed(w, queue, i),
        forall|i: int| 0 <= i < queue.len() ==> side_closed(w, queue, i),
    ensures
        exists|lvl: spec_fn(Pos) -> int| #[trigger] flow_explained(w, cx, cz, water, lvl),
        forall|i: int, j: int| 0 <= i < j < water.len() ==> upos(#[trigger] water[i]) != upos(#[trigger] water[j]),
{
    let lvl = |p: Pos| queue_level(queue, p);
    assert forall|k: int| 0 <= k < queue.len() implies lvl((#[trigger] queue[k]).0) == queue[k].1 by {
        let i = choose|i: int| 0 <= i < queue.len() && (#[trigger] queue[i]).0 == queue[k].0;
        if i != k {
            assert(queue[i].0 != queue[k].0);
        }
    }
    assert forall|p: Pos| wet(w, cx, cz, water, p) <==> queued(queue, p) by {
        if queued(queue, p) {
            let i = choose|i: int| 0 <= i < queue.len() && (#[trigger] queue[i]).0 == p;
            if i >= nsrc {
                assert(upos(water[i - nsrc]) == p);
            }
        }
        if wet(w, cx, cz, water, p) && !fluid_source(w, cx, cz, p) {
            let i = choose|i: int| 0 <= i < water.len() && upos(#[trigger] water[i]) == p;
            assert(queue[nsrc + i].0 == p);
        }
    }
    assert forall|p: Pos| #[trigger] fluid_source(w, cx, cz, p) implies lvl(p) == source_level(w, p) by {
        assert(queued(queue, p));
        let k = choose|k: int| 0 <= k < queue.len() && (#[trigger] queue[k]).0 == p;
        if k >= nsrc {
            assert(arrived(w, queue, k));
        }
        assert(lvl(queue[k].0) == queue[k].1);
    }
    assert forall|i: int| 0 <= i < water.len() implies {
        let p = upos(#[trigger] water[i]);
        &&& water[i].3 == BlockType::Water
        &&& block_at(w, p) == BlockType::Air
        &&& exists|q: Pos|
            #![trigger flows_into(w, q, lvl(q), p, lvl(p))]
            (fluid_source(w, cx, cz, q) || exists|j: int| 0 <= j < i && upos(#[trigger] water[j]) == q)
                && flows_into(w, q, lvl(q), p, lvl(p))
    } by {
        let k = nsrc + i;
        let p = upos(water[i]);
        assert(p == queue[k].0);
        assert(arrived(w, queue, k));
        let j = choose|j: int| 0 <= j < k && flows_into(w, (#[trigger] queue[j]).0, queue[j].1 as int, queue[k].0, queue[k].1 as int);
        let q = queue[j].0;
        assert(lvl(q) == queue[j].1);
        assert(lvl(p) == queue[k].1);
        if j < nsrc {
            assert(fluid_source(w, cx, cz, q));
        } else {
            assert(upos(water[j - nsrc]) == q);
        }
        assert(flows_into(w, q, lvl(q), p, lvl(p)));
    }
    assert forall|q: Pos| #[trigger] wet(w, cx, cz, water, q) && falls(w, q) implies wet(w, cx, cz, water, below(q)) by {
        let i = choose|i: int| 0 <= i < queue.len() && (#[trigger] queue[i]).0 == q;
        assert(fall_closed(w, queue, i));
    }
    assert forall|q: Pos, p: Pos|
        #[trigger] wet(w, cx, cz, water, q) && !falls(w, q) && lvl(q) > 1 && side_by_side(q, p) && #[trigger] block_at(w, p)
            == BlockType::Air implies wet(w, cx, cz, water, p) by {
        let i = choose|i: int| 0 <= i < queue.len() && (#[trigger] queue[i]).0 == q;
        assert(lvl(queue[i].0) == queue[i].1);
        assert(side_closed(w, queue, i));
        assert(flow_ok(queue[i]));
        if p == beside(q, 0) {
        } else if p == beside(q, 1) {
        } else if p == beside(q, 2) {
        } else {
            assert(p == beside(q, 3));
        }
    }
    assert forall|i: int, j: int| 0 <= i < j < water.len() implies upos(#[trigger] water[i]) != upos(#[trigger] water[j]) by {
        assert(queue[nsrc + i].0 != queue[nsrc + j].0);
    }
    assert(flow_explained(w, cx, cz, water, lvl));
}

impl FluidSystem {
    /// One tick of water flow in the area around column `(cx, cz)`.
    ///
    /// Water resting on stone, dirt, sand or water is a source. From the
    /// sources, breadth first, water falls into air below it (arriving at
    /// full strength) and otherwise spreads sideways into air, one level
    /// weaker each step, while its level exceeds one. Every cell water
    /// flows into gets a water update; after them come air updates, in scan
    /// order, for the water of the area that is no source and has no water
    /// above it.
    pub fn simulate(world: &World, cx: i32, cz: i32) -> (updates: Vec<Update>)
        requires
            i32::MIN + FLUID_SCAN <= cx <= i32::MAX - FLUID_SCAN,
            i32::MIN + FLUID_SCAN <= cz <= i32::MAX - FLUID_SCAN,
        ensures
            updates@.len() >= drains_upto(*world, cx as int, cz as int, scan_size() as nat).len(),
            updates@.subrange(
                updates@.len() - drains_upto(*world, cx as int, cz as int, scan_size() as nat).len(),
                updates@.len() as int,
            ) == drains_upto(*world, cx as int, cz as int, scan_size() as nat),
            ({
                let water = water_updates(*world, cx as int, cz as int, updates@);
                &&& exists|lvl: spec_fn(Pos) -> int| #[trigger] flow_explained(*world, cx as int, cz as int, water, lvl)
                &&& forall|i: int, j: int| 0 <= i < j < water.len() ==> upos(#[trigger] water[i]) != upos(#[trigger] water[j])
            }),
            updates@ == fluid_updates(*world, cx as int, cz as int),
    {
        let ghost w = *world;
        let ghost gx = cx as int;
        let ghost gz = cz as int;
        let mut queue: Vec<(Pos, u8)> = Vec::new();
        let mut pending: VecDeque<(Pos, u8)> = VecDeque::new();
        let mut water: Vec<Update> = Vec::new();
        let mut visited: HashSet<u64> = HashSet::new();
        let ghost mut seen: Set<int> = Set::empty();
        let lo_x: i64 = cx as i64 - FLUID_SCAN as i64;
        let hi_x: i64 = cx as i64 + FLUID_SCAN as i64;
        let lo_z: i64 = cz as i64 - FLUID_SCAN as i64;
        let hi_z: i64 = cz as i64 + FLUID_SCAN as i64;
        let mut x: i64 = lo_x;
        while x <= hi_x
            invariant
                lo_x == cx - FLUID_SCAN, hi_x == cx + FLUID_SCAN,
                lo_z == cz - FLUID_SCAN, hi_z == cz + FLUID_SCAN,
                lo_x <= x <= hi_x + 1,
                w == *world, gx == cx, gz == cz,
                i32::MIN + FLUID_SCAN <= cx <= i32::MAX - FLUID_SCAN,
                i32::MIN + FLUID_SCAN <= cz <= i32::MAX - FLUID_SCAN,
                flow_state(w, gx, gz, queue@, queue@.len() as int, water@, visited@, seen),
                pending@ == queue@,
                forall|p: Pos| #[trigger] fluid_source(w, gx, gz, p) && p.0 < x ==> queued(queue@, p),
                queue@ == sources_upto(w, gx, gz, ((x - lo_x) * 2624) as nat),
            decreases hi_x + 1 - x,
        {
            let mut z: i64 = lo_z;
            while z <= hi_z
                invariant
                    lo_x == cx - FLUID_SCAN, hi_x == cx + FLUID_SCAN,
                    lo_z == cz - FLUID_SCAN, hi_z == cz + FLUID_SCAN,
                    lo_x <= x <= hi_x,
                    lo_z <= z <= hi_z + 1,
                    w == *world, gx == cx, gz == cz,
                    i32::MIN + FLUID_SCAN <= cx <= i32::MAX - FLUID_SCAN,
                    i32::MIN + FLUID_SCAN <= cz <= i32::MAX - FLUID_SCAN,
                    flow_state(w, gx, gz, queue@, queue@.len() as int, water@, visited@, seen),
                pending@ == queue@,
                    forall|p: Pos| #[trigger] fluid_source(w, gx, gz, p) && (p.0 < x || (p.0 == x && p.2 < z)) ==> queued(queue@, p),
                    queue@ == sources_upto(w, gx, gz, ((x - lo_x) * 2624 + (z - lo_z) * 64) as nat),
                decreases hi_z + 1 - z,
            {
                let mut y: i32 = 0;
                while y < 64
                    invariant
                        lo_x == cx - FLUID_SCAN, hi_x == cx + FLUID_SCAN,
                        lo_z == cz - FLUID_SCAN, hi_z == cz + FLUID_SCAN,
                        lo_x <= x <= hi_x,
                        lo_z <= z <= hi_z,
                        0 <= y <= 64,
                        w == *world, gx == cx, gz == cz,
                        i32::MIN + FLUID_SCAN <= cx <= i32::MAX - FLUID_SCAN,
                        i32::MIN + FLUID_SCAN <= cz <= i32::MAX - FLUID_SCAN,
                        flow_state(w, gx, gz, queue@, queue@.len() as int, water@, visited@, seen),
                pending@ == queue@,
                        forall|p: Pos| #[trigger] fluid_source(w, gx, gz, p) && (p.0 < x || (p.0 == x && p.2 < z) || (p.0 == x && p.2 == z && p.1 < y)) ==> queued(queue@, p),
                        queue@ == sources_upto(w, gx, gz, ((x - lo_x) * 2624 + (z - lo_z) * 64 + y) as nat),
                    decreases 64 - y,
                {
                    let p: Pos = (x as i32, y, z as i32);
                    let ghost k: int = (x - lo_x) * 2624 + (z - lo_z) * 64 + y;
                    proof {
                        lemma_scan_pos(gx, gz, (x - lo_x) as int, y as int, (z - lo_z) as int);
                        assert(scan_pos(gx, gz, k) == p);
                        assert(below(p) == (p.0, (p.1 - 1) as i32, p.2));
                    }
                    let b = world.get(p.0, p.1, p.2);
                    if b == BlockType::Water {
                        let under = world.get(p.0, p.1 - 1, p.2);
                        let level: u8 = if under == BlockType::Stone || under == BlockType::Dirt || under == BlockType::Sand {
                            4
                        } else if under == BlockType::Water {
                            3
                        } else {
                            0
                        };
                        if level > 0 {
                            proof {
                                lemma_outside_air(w, p);
                                assert(p.0 as int == x && p.2 as int == z);
                                assert(below(p) == (p.0, (p.1 - 1) as i32, p.2));
                                assert(block_at(w, below(p)) == under);
                                assert(fluid_source(w, gx, gz, p));
                            }
                            let key = fkey_exec(p);
                            proof {
                                lemma_visited_is_queued(w, gx, gz, queue@, queue@.len() as int, water@, visited@, seen, p);
                            }
                            if !visited.contains(&key) {
                                let ghost q0 = queue@;
                                let n = queue.len();
                                let g = enqueue(&mut queue, &mut pending, &mut water, &mut visited, Ghost(seen), Ghost(w), Ghost(gx), Ghost(gz), n, p, level, true);
                                proof {
                                    seen = g@;
                                    lemma_queued_grows(q0, (p, level));
                                }
                            }
                        }
                    }
                    y += 1;
                }
                z += 1;
            }
            x += 1;
        }
        let nsrc = queue.len();
        let ghost src = queue@;
        let ghost mut head: int = 0;
        assert(pending@ =~= queue@.subrange(0, queue@.len() as int));
        while pending.len() > 0
            invariant
                0 <= head <= queue@.len(),
                pending@ == queue@.subrange(head, queue@.len() as int),
                nsrc <= queue@.len(),
                w == *world, gx == cx, gz == cz,
                i32::MIN + FLUID_SCAN <= cx <= i32::MAX - FLUID_SCAN,
                i32::MIN + FLUID_SCAN <= cz <= i32::MAX - FLUID_SCAN,
                flow_state(w, gx, gz, queue@, nsrc as int, water@, visited@, seen),
                sources_queued(w, gx, gz, queue@),
                src == sources_upto(w, gx, gz, scan_size() as nat),
                nsrc == src.len(),
                flow_bfs(w, queue@, head as int) == flow_bfs(w, src, 0),
                forall|i: int| 0 <= i < head ==> fall_closed(w, queue@, i),
                forall|i: int| 0 <= i < head ==> side_closed(w, queue@, i),
            decreases key_range() - head,
        {
            proof { lemma_queue_bounded(queue@, seen); }
            let ghost q0 = queue@;
            let ghost pe = pending@;
            let entry = match pending.pop_front() {
                Some(e) => e,
                None => ((0, 0, 0), 0),
            };
            assert(pe[0] == q0[head] && head < q0.len());
            assert(pending@ =~= q0.subrange(head + 1, q0.len() as int));
            assert(flow_bfs(w, q0, head as int) == flow_bfs(w, flow_step(w, q0, head as int), head + 1));
            let g = Self::flow_from(world, &mut queue, &mut pending, &mut water, &mut visited, Ghost(seen), Ghost(gx), Ghost(gz), nsrc, Ghost(head), entry);
            proof {
                seen = g@;
                assert(pending@ =~= queue@.subrange(head + 1, queue@.len() as int));
                let q = queue@;
                lemma_closed_grows(w, q0, q, head as int);
                assert forall|p: Pos| #[trigger] fluid_source(w, gx, gz, p) implies queued(q, p) by {
                    assert(queued(q0, p));
                }
                head = head + 1;
            }
        }
        proof {
            lemma_flow_contract(w, gx, gz, queue@, nsrc as int, water@, visited@, seen);
        }
        let ghost wat = water@;
        proof {
            assert(queue@ == flow_bfs(w, src, 0));
            assert(wat =~= water_of(flow_bfs(w, src, 0), nsrc as int));
        }
        let mut updates = water;
        let mut x: i64 = lo_x;
        while x <= hi_x
            invariant
                lo_x == cx - FLUID_SCAN, hi_x == cx + FLUID_SCAN,
                lo_z == cz - FLUID_SCAN, hi_z == cz + FLUID_SCAN,
                lo_x <= x <= hi_x + 1,
                w == *world, gx == cx, gz == cz,
                i32::MIN + FLUID_SCAN <= cx <= i32::MAX - FLUID_SCAN,
                i32::MIN + FLUID_SCAN <= cz <= i32::MAX - FLUID_SCAN,
                flow_state(w, gx, gz, queue@, nsrc as int, wat, visited@, seen),
                sources_queued(w, gx, gz, queue@),
                exists|lvl: spec_fn(Pos) -> int| #[trigger] flow_explained(w, gx, gz, wat, lvl),
                wat == water_of(flow_bfs(w, sources_upto(w, gx, gz, scan_size() as nat), 0), sources_upto(w, gx, gz, scan_size() as nat).len() as int),
                updates@ == wat + drains_upto(w, gx, gz, ((x - lo_x) * 2624) as nat),
            decreases hi_x + 1 - x,
        {
            let mut z: i64 = lo_z;
            while z <= hi_z
                invariant
                    lo_x == cx - FLUID_SCAN, hi_x == cx + FLUID_SCAN,
                    lo_z == cz - FLUID_SCAN, hi_z == cz + FLUID_SCAN,
                    lo_x <= x <= hi_x,
                    lo_z <= z <= hi_z + 1,
                    w == *world, gx == cx, gz == cz,
                    i32::MIN + FLUID_SCAN <= cx <= i32::MAX - FLUID_SCAN,
                    i32::MIN + FLUID_SCAN <= cz <= i32::MAX - FLUID_SCAN,
                    flow_state(w, gx, gz, queue@, nsrc as int, wat, visited@, seen),
                    sources_queued(w, gx, gz, queue@),
                    exists|lvl: spec_fn(Pos) -> int| #[trigger] flow_explained(w, gx, gz, wat, lvl),
                wat == water_of(flow_bfs(w, sources_upto(w, gx, gz, scan_size() as nat), 0), sources_upto(w, gx, gz, scan_size() as nat).len() as int),
                    updates@ == wat + drains_upto(w, gx, gz, ((x - lo_x) * 2624 + (z - lo_z) * 64) as nat),
                decreases hi_z + 1 - z,
            {
                let mut y: i32 = 0;
                while y < 64
                    invariant
                        lo_x == cx - FLUID_SCAN, hi_x == cx + FLUID_SCAN,
                        lo_z == cz - FLUID_SCAN, hi_z == cz + FLUID_SCAN,
                        lo_x <= x <= hi_x,
                        lo_z <= z <= hi_z,
                        0 <= y <= 64,
                        w == *world, gx == cx, gz == cz,
                        i32::MIN + FLUID_SCAN <= cx <= i32::MAX - FLUID_SCAN,
                        i32::MIN + FLUID_SCAN <= cz <= i32::MAX - FLUID_SCAN,
                        flow_state(w, gx, gz, queue@, nsrc as int, wat, visited@, seen),
                        sources_queued(w, gx, gz, queue@),
                        exists|lvl: spec_fn(Pos) -> int| #[trigger] flow_explained(w, gx, gz, wat, lvl),
                wat == water_of(flow_bfs(w, sources_upto(w, gx, gz, scan_size() as nat), 0), sources_upto(w, gx, gz, scan_size() as nat).len() as int),
                        updates@ == wat + drains_upto(w, gx, gz, ((x - lo_x) * 2624 + (z - lo_z) * 64 + y) as nat),
                    decreases 64 - y,
                {
                    let p: Pos = (x as i32, y, z as i32);
                    let ghost k: int = (x - lo_x) * 2624 + (z - lo_z) * 64 + y;
                    proof {
                        lemma_scan_pos(gx, gz, (x - lo_x) as int, y as int, (z - lo_z) as int);
                        assert(scan_pos(gx, gz, k) == p);
                    }
                    let ghost before = updates@;
                    proof {
                        assert(p.0 as int == x && p.2 as int == z);
                        assert(above(p) == (p.0, (p.1 + 1) as i32, p.2));
                    }
                    if world.get(p.0, p.1, p.2) == BlockType::Water {
                        proof {
                            lemma_outside_air(w, p);
                            lemma_visited_is_queued(w, gx, gz, queue@, nsrc as int, wat, visited@, seen, p);
                            if queued(queue@, p) {
                                let i = choose|i: int| 0 <= i < queue@.len() && (#[trigger] queue@[i]).0 == p;
                                if i >= nsrc {
                                    assert(arrived(w, queue@, i));
                                }
                            }
                        }
                        let key = fkey_exec(p);
                        if !visited.contains(&key) {
                            proof {
                                assert(!fluid_source(w, gx, gz, p));
                            }
                            if world.get(p.0, p.1 + 1, p.2) != BlockType::Water {
                                updates.push((p.0, p.1, p.2, BlockType::Air));
                            }
                        } else {
                            proof {
                                let i = choose|i: int| 0 <= i < queue@.len() && (#[trigger] queue@[i]).0 == p;
                                if i >= nsrc {
                                    assert(arrived(w, queue@, i));
                                }
                                assert(fluid_source(w, gx, gz, p));
                            }
                        }
                    }
                    proof {
                        assert(updates@ =~= wat + drains_upto(w, gx, gz, (k + 1) as nat));
                    }
                    y += 1;
                }
                z += 1;
            }
            x += 1;
        }
        proof {
            let d = drains_upto(w, gx, gz, scan_size() as nat);
            assert(updates@ == wat + d);
            assert(updates@.subrange(0, updates@.len() - d.len()) =~= wat);
            assert(water_updates(w, gx, gz, updates@) == wat);
            let lv = choose|lvl: spec_fn(Pos) -> int| #[trigger] flow_explained(w, gx, gz, wat, lvl);
            assert(flow_explained(w, gx, gz, water_updates(w, gx, gz, updates@), lv));
            assert(updates@.subrange(updates@.len() - d.len(), updates@.len() as int) =~= d);
        }
        updates
    }

    /// Let the water of entry `head` fall, or else spread sideways.
    fn flow_from(
        world: &World,
        queue: &mut Vec<(Pos, u8)>,
        pending: &mut VecDeque<(Pos, u8)>,
        water: &mut Vec<Update>,
        visited: &mut HashSet<u64>,
        Ghost(seen): Ghost<Set<int>>,
        Ghost(cx): Ghost<int>,
        Ghost(cz): Ghost<int>,
        nsrc: usize,
        Ghost(head): Ghost<int>,
        entry: (Pos, u8),
    ) -> (seen2: Ghost<Set<int>>)
        requires
            flow_state(*world, cx, cz, old(queue)@, nsrc as int, old(water)@, old(visited)@, seen),
            0 <= head < old(queue)@.len(),
            old(queue)@[head] == entry,
        ensures
            final(pending)@ == old(pending)@ + final(queue)@.subrange(old(queue)@.len() as int, final(queue)@.len() as int),
            flow_state(*world, cx, cz, final(queue)@, nsrc as int, final(water)@, final(visited)@, seen2@),
            final(queue)@.len() >= old(queue)@.len(),
            forall|i: int| 0 <= i < old(queue)@.len() ==> final(queue)@[i] == old(queue)@[i],
            forall|p: Pos| queued(old(queue)@, p) ==> #[trigger] queued(final(queue)@, p),
            fall_closed(*world, final(queue)@, head as int),
            side_closed(*world, final(queue)@, head as int),
            final(queue)@ == flow_step(*world, old(queue)@, head as int),
    {
        let ghost w = *world;
        let ghost q0 = queue@;
        let ghost pe0 = pending@;
        let (p, level) = entry;
        assert(flow_ok(q0[head as int]));
        let mut g = Ghost(seen);
        if level != 0 {
            let under = world.get(p.0, p.1 - 1, p.2);
            proof {
                assert(below(p) == (p.0, (p.1 - 1) as i32, p.2));
                assert(block_at(w, below(p)) == under);
            }
            if under == BlockType::Air && p.1 > 0 {
                let n: Pos = (p.0, p.1 - 1, p.2);
                proof {
                    lemma_visited_is_queued(w, cx, cz, queue@, nsrc as int, water@, visited@, seen, n);
                }
                let key = fkey_exec(n);
                if !visited.contains(&key) {
                    proof {
                        assert(flows_into(w, q0[head as int].0, q0[head as int].1 as int, n, 4)) by {
                            reveal(flows_into);
                        }
                    }
                    g = enqueue(queue, pending, water, visited, Ghost(seen), Ghost(w), Ghost(cx), Ghost(cz), nsrc, n, 4, false);
                    proof {
                        lemma_queued_grows(q0, (n, 4));
                    }
                }
            } else if level > 1 {
                proof {
                    lemma_outside_air(w, below(p));
                }
                g = Self::spread_sides(world, queue, pending, water, visited, g, Ghost(cx), Ghost(cz), nsrc, Ghost(head), p, level);
            }
        }
        proof {
            assert(queue@[head as int] == q0[head as int]);
            assert(pending@ =~= pe0 + queue@.subrange(q0.len() as int, queue@.len() as int));
        }
        g
    }

    /// Let the water of entry `from` spread into the air on its four sides.
    fn spread_sides(
        world: &World,
        queue: &mut Vec<(Pos, u8)>,
        pending: &mut VecDeque<(Pos, u8)>,
        water: &mut Vec<Update>,
        visited: &mut HashSet<u64>,
        Ghost(seen): Ghost<Set<int>>,
        Ghost(cx): Ghost<int>,
        Ghost(cz): Ghost<int>,
        nsrc: usize,
        Ghost(from): Ghost<int>,
        p: Pos,
        level: u8,
    ) -> (seen2: Ghost<Set<int>>)
        requires
            flow_state(*world, cx, cz, old(queue)@, nsrc as int, old(water)@, old(visited)@, seen),
            0 <= from < old(queue)@.len(),
            old(queue)@[from] == (p, level),
            old(queue)@[from as int].1 > 1,
            old(queue)@[from as int].0.1 > 0 ==> out_of_world(old(queue)@[from as int].0) == 0,
            !falls(*world, old(queue)@[from as int].0),
        ensures
            final(pending)@ == old(pending)@ + final(queue)@.subrange(old(queue)@.len() as int, final(queue)@.len() as int),
            flow_state(*world, cx, cz, final(queue)@, nsrc as int, final(water)@, final(visited)@, seen2@),
            final(queue)@.len() >= old(queue)@.len(),
            forall|i: int| 0 <= i < old(queue)@.len() ==> final(queue)@[i] == old(queue)@[i],
            forall|p: Pos| queued(old(queue)@, p) ==> #[trigger] queued(final(queue)@, p),
            air_queued(*world, final(queue)@, beside(old(queue)@[from as int].0, 0)),
            air_queued(*world, final(queue)@, beside(old(queue)@[from as int].0, 1)),
            air_queued(*world, final(queue)@, beside(old(queue)@[from as int].0, 2)),
            air_queued(*world, final(queue)@, beside(old(queue)@[from as int].0, 3)),
            ({
                let p = old(queue)@[from as int].0;
                let l = old(queue)@[from as int].1 - 1;
                final(queue)@ == flow_into(*world, flow_into(*world, flow_into(*world, flow_into(*world, old(queue)@,
                    beside(p, 0), l), beside(p, 1), l), beside(p, 2), l), beside(p, 3), l)
            }),
    {
        let ghost q0 = queue@;
        let ghost pe0 = pending@;
        assert(flow_ok(q0[from as int]));
        let n1: Pos = (p.0 + 1, p.1, p.2);
        let n2: Pos = (p.0 - 1, p.1, p.2);
        let n3: Pos = (p.0, p.1, p.2 + 1);
        let n4: Pos = (p.0, p.1, p.2 - 1);
        let g = Self::spread_pair(world, queue, pending, water, visited, Ghost(seen), Ghost(cx), Ghost(cz), nsrc, Ghost(from), level, n1, n2);
        let ghost q2 = queue@;
        let ghost pe2 = pending@;
        let g = Self::spread_pair(world, queue, pending, water, visited, g, Ghost(cx), Ghost(cz), nsrc, Ghost(from), level, n3, n4);
        proof {
            lemma_pending_chain(pe0, pe2, pending@, q0, q2, queue@);
            assert(n1 == beside(p, 0) && n2 == beside(p, 1) && n3 == beside(p, 2) && n4 == beside(p, 3));
            if block_at(*world, n1) == BlockType::Air {
                assert(queued(q2, n1));
            }
            if block_at(*world, n2) == BlockType::Air {
                assert(queued(q2, n2));
            }
        }
        g
    }

    /// Let the water of entry `from` spread into `a` and then `b`, both beside it.
    fn spread_pair(
        world: &World,
        queue: &mut Vec<(Pos, u8)>,
        pending: &mut VecDeque<(Pos, u8)>,
        water: &mut Vec<Update>,
        visited: &mut HashSet<u64>,
        Ghost(seen): Ghost<Set<int>>,
        Ghost(cx): Ghost<int>,
        Ghost(cz): Ghost<int>,
        nsrc: usize,
        Ghost(from): Ghost<int>,
        level: u8,
        a: Pos,
        b: Pos,
    ) -> (seen2: Ghost<Set<int>>)
        requires
            flow_state(*world, cx, cz, old(queue)@, nsrc as int, old(water)@, old(visited)@, seen),
            0 <= from < old(queue)@.len(),
            old(queue)@[from].1 == level,
            old(queue)@[from as int].1 > 1,
            side_by_side(old(queue)@[from as int].0, a),
            side_by_side(old(queue)@[from as int].0, b),
            old(queue)@[from as int].0.1 > 0 ==> out_of_world(old(queue)@[from as int].0) == 0,
            !falls(*world, old(queue)@[from as int].0),
        ensures
            final(pending)@ == old(pending)@ + final(queue)@.subrange(old(queue)@.len() as int, final(queue)@.len() as int),
            flow_state(*world, cx, cz, final(queue)@, nsrc as int, final(water)@, final(visited)@, seen2@),
            final(queue)@.len() >= old(queue)@.len(),
            forall|i: int| 0 <= i < old(queue)@.len() ==> final(queue)@[i] == old(queue)@[i],
            forall|p: Pos| queued(old(queue)@, p) ==> #[trigger] queued(final(queue)@, p),
            block_at(*world, a) == BlockType::Air ==> queued(final(queue)@, a),
            block_at(*world, b) == BlockType::Air ==> queued(final(queue)@, b),
            final(queue)@ == flow_into(*world, flow_into(*world, old(queue)@, a, old(queue)@[from as int].1 - 1), b,
                old(queue)@[from as int].1 - 1),
    {
        let ghost q0 = queue@;
        let ghost pe0 = pending@;
        let g = Self::spread(world, queue, pending, water, visited, Ghost(seen), Ghost(cx), Ghost(cz), nsrc, Ghost(from), level, a);
        let ghost q1 = queue@;
        let ghost pe1 = pending@;
        let g = Self::spread(world, queue, pending, water, visited, g, Ghost(cx), Ghost(cz), nsrc, Ghost(from), level, b);
        proof {
            lemma_pending_chain(pe0, pe1, pending@, q0, q1, queue@);
            if block_at(*world, a) == BlockType::Air {
                assert(queued(q1, a));
            }
        }
        g
    }

    /// Let water of entry `from` spread sideways into `n` if that is air not yet reached.
    fn spread(
        world: &World,
        queue: &mut Vec<(Pos, u8)>,
        pending: &mut VecDeque<(Pos, u8)>,
        water: &mut Vec<Update>,
        visited: &mut HashSet<u64>,
        Ghost(seen): Ghost<Set<int>>,
        Ghost(cx): Ghost<int>,
        Ghost(cz): Ghost<int>,
        nsrc: usize,
        Ghost(from): Ghost<int>,
        level: u8,
        n: Pos,
    ) -> (seen2: Ghost<Set<int>>)
        requires
            flow_state(*world, cx, cz, old(queue)@, nsrc as int, old(water)@, old(visited)@, seen),
            0 <= from < old(queue)@.len(),
            old(queue)@[from].1 == level,
            old(queue)@[from as int].1 > 1,
            side_by_side(old(queue)@[from as int].0, n),
            old(queue)@[from as int].0.1 > 0 ==> out_of_world(old(queue)@[from as int].0) == 0,
            !falls(*world, old(queue)@[from as int].0),
        ensures
            final(pending)@ == old(pending)@ + final(queue)@.subrange(old(queue)@.len() as int, final(queue)@.len() as int),
            flow_state(*world, cx, cz, final(queue)@, nsrc as int, final(water)@, final(visited)@, seen2@),
            final(queue)@.len() >= old(queue)@.len(),
            forall|i: int| 0 <= i < old(queue)@.len() ==> final(queue)@[i] == old(queue)@[i],
            forall|p: Pos| queued(old(queue)@, p) ==> #[trigger] queued(final(queue)@, p),
            block_at(*world, n) == BlockType::Air ==> queued(final(queue)@, n),
            final(queue)@ == flow_into(*world, old(queue)@, n, old(queue)@[from as int].1 - 1),
    {
        let ghost q0 = queue@;
        assert(flow_ok(q0[from as int]));
        assert(near_world(n));
        let key = fkey_exec(n);
        proof {
            lemma_visited_is_queued(*world, cx, cz, queue@, nsrc as int, water@, visited@, seen, n);
        }
        if visited.contains(&key) {
            return Ghost(seen);
        }
        if world.get(n.0, n.1, n.2) != BlockType::Air {
            return Ghost(seen);
        }
        proof {
            assert(flows_into(*world, q0[from as int].0, q0[from as int].1 as int, n, level - 1)) by {
                reveal(flows_into);
            }
        }
        let g = enqueue(queue, pending, water, visited, Ghost(seen), Ghost(*world), Ghost(cx), Ghost(cz), nsrc, n, level - 1, false);
        proof {
            lemma_queued_grows(q0, (n, (level - 1) as u8));
        }
        g
    }
}

/// Water of `level` flowing into `n`: queued unless already queued or not air.
pub open spec fn flow_into(w: World, queue: Seq<(Pos, u8)>, n: Pos, level: int) -> Seq<(Pos, u8)> {
    if !queued(queue, n) && block_at(w, n) == BlockType::Air {
        queue.push((n, level as u8))
    } else {
        queue
    }
}

/// The water of entry `i` moves on: it falls into the cell below at level
/// 4 where it can, and otherwise, while its level exceeds one, spreads east,
/// west, south and north one level weaker.
pub open spec fn flow_step(w: World, queue: Seq<(Pos, u8)>, i: int) -> Seq<(Pos, u8)> {
    let p = queue[i].0;
    let l = queue[i].1 as int;
    if falls(w, p) {
        flow_into(w, queue, below(p), 4)
    } else if l > 1 {
        flow_into(
            w,
            flow_into(w, flow_into(w, flow_into(w, queue, beside(p, 0), l - 1), beside(p, 1), l - 1), beside(p, 2), l - 1),
            beside(p, 3),
            l - 1,
        )
    } else {
        queue
    }
}

/// Breadth-first flow: the entries from `head` on, in queue order, each
/// move their water on, and so do the entries they add.
pub open spec fn flow_bfs(w: World, queue: Seq<(Pos, u8)>, head: int) -> Seq<(Pos, u8)>
    decreases key_range() + 1 - head,
{
    if head < 0 || head >= queue.len() || head > key_range() {
        queue
    } else {
        flow_bfs(w, flow_step(w, queue, head), head + 1)
    }
}

/// The sources among the first `k` positions of the area, in scan order, with their levels.
pub open spec fn sources_upto(w: World, cx: int, cz: int, k: nat) -> Seq<(Pos, u8)>
    decreases k,
{
    if k == 0 {
        Seq::empty()
    } else {
        let prev = sources_upto(w, cx, cz, (k - 1) as nat);
        let p = scan_pos(cx, cz, k - 1);
        if fluid_source(w, cx, cz, p) && !queued(prev, p) {
            prev.push((p, source_level(w, p) as u8))
        } else {
            prev
        }
    }
}

/// Water updates for the entries of a queue from `nsrc` on.
pub open spec fn water_of(queue: Seq<(Pos, u8)>, nsrc: int) -> Seq<Update> {
    Seq::new((queue.len() - nsrc) as nat, |i: int| (queue[nsrc + i].0.0, queue[nsrc + i].0.1, queue[nsrc + i].0.2, BlockType::Water))
}

/// The updates of one tick of water flow around `(cx, cz)`: the sources
/// of the area in scan order, then breadth first a water update for every
/// cell water flows into, in the order it is reached; then the drains.
pub open spec fn fluid_updates(w: World, cx: int, cz: int) -> Seq<Update> {
    let src = sources_upto(w, cx, cz, scan_size() as nat);
    water_of(flow_bfs(w, src, 0), src.len() as int) + drains_upto(w, cx, cz, scan_size() as nat)
}

/// The pending entries grow along with the queue, step after step.
proof fn lemma_pending_chain(
    p0: Seq<(Pos, u8)>,
    p1: Seq<(Pos, u8)>,
    p2: Seq<(Pos, u8)>,
    q0: Seq<(Pos, u8)>,
    q1: Seq<(Pos, u8)>,
    q2: Seq<(Pos, u8)>,
)
    requires
        q0.len() <= q1.len() <= q2.len(),
        forall|i: int| 0 <= i < q1.len() ==> q2[i] == q1[i],
        p1 == p0 + q1.subrange(q0.len() as int, q1.len() as int),
        p2 == p1 + q2.subrange(q1.len() as int, q2.len() as int),
    ensures
        p2 == p0 + q2.subrange(q0.len() as int, q2.len() as int),
{
    assert(p2 =~= p0 + q2.subrange(q0.len() as int, q2.len() as int));
}

/// Entries that let their water fall and spread stay so while the queue grows.
proof fn lemma_closed_grows(w: World, q0: Seq<(Pos, u8)>, q: Seq<(Pos, u8)>, head: int)
    requires
        0 <= head < q0.len() <= q.len(),
        forall|i: int| 0 <= i < q0.len() ==> q[i] == q0[i],
        forall|p: Pos| queued(q0, p) ==> #[trigger] queued(q, p),
        forall|i: int| 0 <= i < head ==> fall_closed(w, q0, i),
        forall|i: int| 0 <= i < head ==> side_closed(w, q0, i),
        fall_closed(w, q, head),
        side_closed(w, q, head),
    ensures
        forall|i: int| 0 <= i <= head ==> fall_closed(w, q, i),
        forall|i: int| 0 <= i <= head ==> side_closed(w, q, i),
{
    assert forall|i: int| 0 <= i <= head implies fall_closed(w, q, i) by {
        assert(q[i] == q0[i]);
        if i < head {
            assert(fall_closed(w, q0, i));
        }
    }
    assert forall|i: int| 0 <= i <= head implies side_closed(w, q, i) by {
        assert(q[i] == q0[i]);
        if i < head {
            assert(side_closed(w, q0, i));
            let p = q0[i].0;
            if !falls(w, p) && q0[i].1 > 1 {
                assert(air_queued(w, q0, beside(p, 0)) && air_queued(w, q0, beside(p, 1)));
                assert(air_queued(w, q0, beside(p, 2)) && air_queued(w, q0, beside(p, 3)));
            }
        }
    }
}

proof fn lemma_scan_pos(cx: int, cz: int, a: int, y: int, c: int)
    requires
        0 <= a < 41,
        0 <= c < 41,
        0 <= y < 64,
    ensures
        scan_pos(cx, cz, a * 2624 + c * 64 + y) == ((cx - FLUID_SCAN + a) as i32, y as i32, (cz - FLUID_SCAN + c) as i32),
{
    let k = a * 2624 + c * 64 + y;
    vstd::arithmetic::div_mod::lemma_fundamental_div_mod_converse(k, 2624, a, c * 64 + y);
    vstd::arithmetic::div_mod::lemma_fundamental_div_mod_converse(k, 64, a * 41 + c, y);
    vstd::arithmetic::div_mod::lemma_fundamental_div_mod_converse(a * 41 + c, 41, a, c);
}

} // verus!
