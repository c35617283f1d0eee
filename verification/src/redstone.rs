//! Redstone signal propagation.
use vstd::prelude::*;
use std::collections::{HashSet, VecDeque};
use crate::block::BlockType;
use crate::world::{World, in_world, cell, lemma_cell, WORLD_VOLUME};

verus! {

broadcast use vstd::std_specs::hash::group_hash_axioms;

/// Strength of the signal a power source puts out.
pub const MAX_SIGNAL: u8 = 15;

/// Half the width of the square around the player that is scanned for power sources.
pub const SCAN_RANGE: i32 = 24;

/// Redstone signal propagation system.
pub struct RedstoneSystem;

/// A position of the world.
pub type Pos = (i32, i32, i32);

/// Blocks that put out a full signal: levers and redstone torches.
pub open spec fn is_source(b: BlockType) -> bool {
    b == BlockType::Lever || b == BlockType::RedstoneTorch
}

/// Blocks that carry a signal on: redstone dust and lamps.
pub open spec fn conducts(b: BlockType) -> bool {
    b == BlockType::RedstoneDust || b == BlockType::RedstoneLamp
}

/// The strength a conducting block passes on of the signal `s` reaching it:
/// dust weakens it by one, a lamp passes it on whole.
pub open spec fn passed_on(b: BlockType, s: int) -> int {
    if b == BlockType::RedstoneDust {
        s - 1
    } else {
        s
    }
}

/// Positions one step apart along an axis.
pub open spec fn adjacent(p: Pos, q: Pos) -> bool {
    let d = (if p.0 < q.0 { q.0 - p.0 } else { p.0 - q.0 }) + (if p.1 < q.1 { q.1 - p.1 } else { p.1 - q.1 }) + (
    if p.2 < q.2 { q.2 - p.2 } else { p.2 - q.2 });
    d == 1
}

/// The scanned area around `(cx, cz)`, the whole height of the world.
pub open spec fn in_scan(cx: int, cz: int, p: Pos) -> bool {
    cx - SCAN_RANGE <= p.0 <= cx + SCAN_RANGE && cz - SCAN_RANGE <= p.2 <= cz + SCAN_RANGE && 0 <= p.1 < 64
}

pub open spec fn block_at(w: World, p: Pos) -> BlockType {
    w.block(p.0 as int, p.1 as int, p.2 as int)
}

pub open spec fn pos_cell(p: Pos) -> int {
    cell(p.0 as int, p.1 as int, p.2 as int)
}

/// Some entry of the signals is at position `p`.
pub open spec fn powered(r: Seq<(Pos, u8)>, p: Pos) -> bool {
    exists|i: int| 0 <= i < r.len() && (#[trigger] r[i]).0 == p
}

/// Entry `i` has a justified strength: a source in the scanned area at full
/// strength, or a conducting block that an earlier entry next to it passes
/// its strength on to.
pub open spec fn justified(w: World, cx: int, cz: int, r: Seq<(Pos, u8)>, i: int) -> bool {
    let (p, s) = r[i];
    ||| is_source(block_at(w, p)) && in_scan(cx, cz, p) && s == MAX_SIGNAL
    ||| conducts(block_at(w, p)) && exists|j: int| 0 <= j < i && adjacent(#[trigger] r[j].0, p) && s == passed_on(
        block_at(w, p),
        r[j].1 as int,
    )
}

/// The entries hold distinct positions inside the world, with strengths 1 to 15.
pub open spec fn well_formed(r: Seq<(Pos, u8)>) -> bool {
    &&& forall|i: int| 0 <= i < r.len() ==> 1 <= (#[trigger] r[i]).1 <= MAX_SIGNAL && in_world(
        r[i].0.0 as int,
        r[i].0.1 as int,
        r[i].0.2 as int,
    )
    &&& forall|i: int, j: int| 0 <= i < j < r.len() ==> (#[trigger] r[i]).0 != (#[trigger] r[j]).0
}

/// Entry `i` hands its signal on: every conducting neighbour that would
/// still receive a signal is powered.
pub open spec fn handed_on(w: World, r: Seq<(Pos, u8)>, i: int) -> bool {
    forall|q: Pos|
        adjacent(r[i].0, q) && conducts(#[trigger] block_at(w, q)) && passed_on(block_at(w, q), r[i].1 as int) > 0
            ==> powered(r, q)
}

/// The neighbour of `p` in the `k`-th direction the signal tries: +x, -x, +y, -y, +z, -z.
pub open spec fn step(p: Pos, k: int) -> Pos {
    if k == 0 {
        ((p.0 + 1) as i32, p.1, p.2)
    } else if k == 1 {
        ((p.0 - 1) as i32, p.1, p.2)
    } else if k == 2 {
        (p.0, (p.1 + 1) as i32, p.2)
    } else if k == 3 {
        (p.0, (p.1 - 1) as i32, p.2)
    } else if k == 4 {
        (p.0, p.1, (p.2 + 1) as i32)
    } else {
        (p.0, p.1, (p.2 - 1) as i32)
    }
}

/// A signal of strength `s` reaching `q`: a conducting block not powered yet
/// that still receives a signal is appended with the strength passed on.
pub open spec fn pass_to(w: World, r: Seq<(Pos, u8)>, s: int, q: Pos) -> Seq<(Pos, u8)> {
    let b = block_at(w, q);
    if conducts(b) && !powered(r, q) && passed_on(b, s) > 0 {
        r.push((q, passed_on(b, s) as u8))
    } else {
        r
    }
}

/// The signals after a signal of strength `s` at `p` reached its first `k` neighbours.
pub open spec fn pass_upto(w: World, r: Seq<(Pos, u8)>, p: Pos, s: int, k: nat) -> Seq<(Pos, u8)>
    decreases k,
{
    if k == 0 {
        r
    } else {
        pass_to(w, pass_upto(w, r, p, s, (k - 1) as nat), s, step(p, k - 1))
    }
}

/// Breadth-first propagation: the entries from `head` on, in order, each
/// pass their signal to their six neighbours, and so do the entries they add.
pub open spec fn spread_from(w: World, r: Seq<(Pos, u8)>, head: int) -> Seq<(Pos, u8)>
    decreases WORLD_VOLUME + 1 - head,
{
    if head < 0 || head >= r.len() || head > WORLD_VOLUME {
        r
    } else {
        spread_from(w, pass_upto(w, r, r[head].0, r[head].1 as int, 6), head + 1)
    }
}

/// Number of positions scanned for power sources: 49 by 49 columns of 64.
pub open spec fn rscan_size() -> int {
    49int * 49 * 64
}

/// The `k`-th scanned position, column by column, bottom to top.
pub open spec fn rscan_pos(cx: int, cz: int, k: int) -> Pos {
    ((cx - SCAN_RANGE + k / 3136int) as i32, (k % 64) as i32, (cz - SCAN_RANGE + (k / 64) % 49) as i32)
}

/// The power sources among the first `k` scanned positions, in scan order, at full strength.
pub open spec fn sources_upto(w: World, cx: int, cz: int, k: nat) -> Seq<(Pos, u8)>
    decreases k,
{
    if k == 0 {
        Seq::empty()
    } else {
        let prev = sources_upto(w, cx, cz, (k - 1) as nat);
        let p = rscan_pos(cx, cz, k - 1);
        if is_source(block_at(w, p)) && !powered(prev, p) {
            prev.push((p, MAX_SIGNAL))
        } else {
            prev
        }
    }
}

/// The signals `propagate` finds around `(cx, cz)`: the sources of the
/// area in scan order, then breadth first what they power.
pub open spec fn propagation(w: World, cx: int, cz: int) -> Seq<(Pos, u8)> {
    spread_from(w, sources_upto(w, cx, cz, rscan_size() as nat), 0)
}

proof fn lemma_rscan_pos(cx: int, cz: int, a: int, y: int, c: int)
    requires
        0 <= a < 49,
        0 <= c < 49,
        0 <= y < 64,
    ensures
        rscan_pos(cx, cz, a * 3136 + c * 64 + y) == ((cx - SCAN_RANGE + a) as i32, y as i32, (cz - SCAN_RANGE + c) as i32),
{
    let k = a * 3136 + c * 64 + y;
    vstd::arithmetic::div_mod::lemma_fundamental_div_mod_converse(k, 3136, a, c * 64 + y);
    vstd::arithmetic::div_mod::lemma_fundamental_div_mod_converse(k, 64, a * 49 + c, y);
    vstd::arithmetic::div_mod::lemma_fundamental_div_mod_converse(a * 49 + c, 49, a, c);
}

/// A signal at a position inside the world has its cell visited.
proof fn lemma_powered_is_visited(w: World, cx: int, cz: int, r: Seq<(Pos, u8)>, visited: Set<u64>, seen: Set<int>, q: Pos)
    requires
        bookkeeping(w, cx, cz, r, visited, seen),
        powered(r, q),
    ensures
        visited.contains(pos_cell(q) as u64),
{
    let i = choose|i: int| 0 <= i < r.len() && (#[trigger] r[i]).0 == q;
    assert(visited.contains(pos_cell(r[i].0) as u64));
}

/// What the signals of a propagation say about strengths, block by block:
/// levers and torches in the area put out 15; a piece of dust carries one
/// less than a neighbour listed before it; a lamp carries as much as a
/// neighbour listed before it; nothing else carries a signal. And a signal
/// reaches on: a neighbouring piece of dust is powered whenever the signal
/// is at least 2, a neighbouring lamp whenever there is a signal at all.
pub proof fn lemma_signal_strengths(w: World, cx: int, cz: int, r: Seq<(Pos, u8)>)
    requires
        forall|i: int| 0 <= i < r.len() ==> justified(w, cx, cz, r, i),
        forall|i: int| 0 <= i < r.len() ==> handed_on(w, r, i),
    ensures
        forall|i: int|
            0 <= i < r.len() ==> match #[trigger] block_at(w, r[i].0) {
                BlockType::Lever | BlockType::RedstoneTorch => r[i].1 == 15 && in_scan(cx, cz, r[i].0),
                BlockType::RedstoneDust => exists|j: int| 0 <= j < i && adjacent(r[j].0, r[i].0) && r[i].1 + 1 == r[j].1,
                BlockType::RedstoneLamp => exists|j: int| 0 <= j < i && adjacent(r[j].0, r[i].0) && r[i].1 == r[j].1,
                _ => false,
            },
        forall|i: int, q: Pos|
            0 <= i < r.len() && adjacent(#[trigger] r[i].0, q) && #[trigger] block_at(w, q) == BlockType::RedstoneDust && r[i].1 >= 2
                ==> powered(r, q),
        forall|i: int, q: Pos|
            0 <= i < r.len() && adjacent(#[trigger] r[i].0, q) && #[trigger] block_at(w, q) == BlockType::RedstoneLamp && r[i].1 >= 1
                ==> powered(r, q),
{
    assert forall|i: int| 0 <= i < r.len() implies match #[trigger] block_at(w, r[i].0) {
        BlockType::Lever | BlockType::RedstoneTorch => r[i].1 == 15 && in_scan(cx, cz, r[i].0),
        BlockType::RedstoneDust => exists|j: int| 0 <= j < i && adjacent(r[j].0, r[i].0) && r[i].1 + 1 == r[j].1,
        BlockType::RedstoneLamp => exists|j: int| 0 <= j < i && adjacent(r[j].0, r[i].0) && r[i].1 == r[j].1,
        _ => false,
    } by {
        assert(justified(w, cx, cz, r, i));
    }
    assert forall|i: int, q: Pos|
        0 <= i < r.len() && adjacent(#[trigger] r[i].0, q) && #[trigger] block_at(w, q) == BlockType::RedstoneDust && r[i].1 >= 2
            implies powered(r, q) by {
        assert(handed_on(w, r, i));
    }
    assert forall|i: int, q: Pos|
        0 <= i < r.len() && adjacent(#[trigger] r[i].0, q) && #[trigger] block_at(w, q) == BlockType::RedstoneLamp && r[i].1 >= 1
            implies powered(r, q) by {
        assert(handed_on(w, r, i));
    }
}

/// The bookkeeping of a propagation: the signals so far are well formed
/// and justified, `visited` holds exactly their cells, and `seen` mirrors
/// `visited` as a set of integers.
pub open spec fn bookkeeping(w: World, cx: int, cz: int, r: Seq<(Pos, u8)>, visited: Set<u64>, seen: Set<int>) -> bool {
    &&& well_formed(r)
    &&& forall|i: int| 0 <= i < r.len() ==> justified(w, cx, cz, r, i)
    &&& forall|i: int| 0 <= i < r.len() ==> visited.contains(pos_cell((#[trigger] r[i]).0) as u64)
    &&& forall|k: u64| #[trigger] visited.contains(k) ==> k < WORLD_VOLUME && exists|i: int|
        0 <= i < r.len() && pos_cell((#[trigger] r[i]).0) == k
    &&& forall|k: int| #[trigger] seen.contains(k) <==> (0 <= k < WORLD_VOLUME && visited.contains(k as u64))
    &&& seen.finite()
    &&& seen.len() == r.len()
}

proof fn lemma_powered_grows(r: Seq<(Pos, u8)>, x: (Pos, u8))
    ensures
        forall|q: Pos| powered(r, q) ==> #[trigger] powered(r.push(x), q),
        powered(r.push(x), x.0),
{
    assert forall|q: Pos| powered(r, q) implies #[trigger] powered(r.push(x), q) by {
        let i = choose|i: int| 0 <= i < r.len() && (#[trigger] r[i]).0 == q;
        assert(r.push(x)[i] == r[i]);
    }
    assert(r.push(x)[r.len() as int] == x);
}

proof fn lemma_bounded_by_world(r: Seq<(Pos, u8)>, seen: Set<int>)
    requires
        forall|k: int| #[trigger] seen.contains(k) ==> 0 <= k < WORLD_VOLUME,
        seen.finite(),
        seen.len() == r.len(),
    ensures
        r.len() <= WORLD_VOLUME,
{
    let full = vstd::set_lib::set_int_range(0, WORLD_VOLUME as int);
    vstd::set_lib::lemma_int_range(0, WORLD_VOLUME as int);
    assert(seen.subset_of(full));
    vstd::set_lib::lemma_len_subset(seen, full);
}

/// Power position `q` from entry `from` if it is a conducting block not yet
/// powered that still receives a signal.
fn try_power(
    world: &World,
    signals: &mut Vec<(Pos, u8)>,
    queue: &mut VecDeque<(Pos, u8)>,
    visited: &mut HashSet<u64>,
    Ghost(seen): Ghost<Set<int>>,
    Ghost(cx): Ghost<int>,
    Ghost(cz): Ghost<int>,
    Ghost(from): Ghost<int>,
    strength: u8,
    q: Pos,
) -> (seen2: Ghost<Set<int>>)
    requires
        bookkeeping(*world, cx, cz, old(signals)@, old(visited)@, seen),
        0 <= from < old(signals)@.len(),
        old(signals)@[from].1 == strength,
        adjacent(old(signals)@[from as int].0, q),
    ensures
        final(queue)@ == if final(signals)@.len() > old(signals)@.len() {
            old(queue)@.push(final(signals)@.last())
        } else {
            old(queue)@
        },

        bookkeeping(*world, cx, cz, final(signals)@, final(visited)@, seen2@),
        final(signals)@.len() >= old(signals)@.len(),
        forall|i: int| 0 <= i < old(signals)@.len() ==> final(signals)@[i] == old(signals)@[i],
        conducts(block_at(*world, q)) && passed_on(block_at(*world, q), old(signals)@[from as int].1 as int) > 0
            ==> powered(final(signals)@, q),
        forall|q2: Pos| powered(old(signals)@, q2) ==> #[trigger] powered(final(signals)@, q2),
        final(signals)@ == pass_to(*world, old(signals)@, old(signals)@[from as int].1 as int, q),
{
    let ghost r0 = signals@;
    let block = world.get(q.0, q.1, q.2);
    let new_strength = if block == BlockType::RedstoneDust {
        strength - 1
    } else if block == BlockType::RedstoneLamp {
        strength
    } else {
        return Ghost(seen);
    };
    proof {
        world.lemma_outside_is_air(q.0 as int, q.1 as int, q.2 as int);
        lemma_cell(q.0 as int, q.1 as int, q.2 as int);
    }
    let key = ((q.0 as usize) * 16384 + (q.2 as usize) * 64 + (q.1 as usize)) as u64;
    if visited.contains(&key) {
        proof {
            assert(key == pos_cell(q));
            assert(seen.contains(pos_cell(q)));
            assert(powered(signals@, q)) by {
                lemma_in_visited_is_powered(*world, cx, cz, signals@, visited@, seen, q);
            }
        }
        return Ghost(seen);
    }
    if new_strength > 0 {
        proof {
            if powered(signals@, q) {
                lemma_powered_is_visited(*world, cx, cz, signals@, visited@, seen, q);
            }
        }
        visited.insert(key);
        signals.push((q, new_strength));
        queue.push_back((q, new_strength));
        let ghost seen2 = seen.insert(pos_cell(q));
        proof {
            lemma_powered_grows(r0, (q, new_strength));
            let r = signals@;
            assert(r[r.len() - 1] == (q, new_strength));
            assert(justified(*world, cx, cz, r, r.len() - 1)) by {
                assert(adjacent(r[from as int].0, q));
            }
            assert forall|i: int| 0 <= i < r.len() implies justified(*world, cx, cz, r, i) by {
                if i < r0.len() {
                    assert(justified(*world, cx, cz, r0, i));
                    if !(is_source(block_at(*world, r[i].0)) && in_scan(cx, cz, r[i].0) && r[i].1 == MAX_SIGNAL) {
                        let j = choose|j: int| 0 <= j < i && adjacent(#[trigger] r0[j].0, r0[i].0) && r0[i].1 == passed_on(
                            block_at(*world, r0[i].0), r0[j].1 as int);
                        assert(r[j] == r0[j]);
                    }
                }
            }
            assert(!seen.contains(pos_cell(q)));
            assert forall|k: u64| #[trigger] visited@.contains(k) implies k < WORLD_VOLUME && exists|i: int|
                0 <= i < r.len() && pos_cell((#[trigger] r[i]).0) == k by {
                if k == key {
                    assert(pos_cell(r[r.len() - 1].0) == k);
                } else {
                    assert(old(visited)@.contains(k));
                    let i = choose|i: int| 0 <= i < r0.len() && pos_cell((#[trigger] r0[i]).0) == k;
                    assert(r[i] == r0[i]);
                }
            }
            assert forall|k: int| #[trigger] seen2.contains(k) <==> (0 <= k < WORLD_VOLUME && visited@.contains(k as u64)) by {
                if k != pos_cell(q) {
                    assert(seen.contains(k) <==> (0 <= k < WORLD_VOLUME && old(visited)@.contains(k as u64)));
                }
            }
            assert forall|i: int| 0 <= i < r.len() implies visited@.contains(pos_cell((#[trigger] r[i]).0) as u64) by {
                if i < r0.len() {
                    assert(r[i] == r0[i]);
                }
            }
        }
        return Ghost(seen2);
    }
    Ghost(seen)
}

impl RedstoneSystem {
    /// Record a power source at `q` unless already recorded.
    fn add_source(
        world: &World,
        signals: &mut Vec<(Pos, u8)>,
        queue: &mut VecDeque<(Pos, u8)>,
        visited: &mut HashSet<u64>,
        Ghost(seen): Ghost<Set<int>>,
        Ghost(cx): Ghost<int>,
        Ghost(cz): Ghost<int>,
        q: Pos,
    ) -> (seen2: Ghost<Set<int>>)
        requires
            bookkeeping(*world, cx, cz, old(signals)@, old(visited)@, seen),
            in_scan(cx, cz, q),
        ensures
            bookkeeping(*world, cx, cz, final(signals)@, final(visited)@, seen2@),
            final(queue)@ == if final(signals)@.len() > old(signals)@.len() {
                old(queue)@.push(final(signals)@.last())
            } else {
                old(queue)@
            },
            is_source(block_at(*world, q)) ==> powered(final(signals)@, q),
            forall|q2: Pos| powered(old(signals)@, q2) ==> #[trigger] powered(final(signals)@, q2),
            final(signals)@ == if is_source(block_at(*world, q)) && !powered(old(signals)@, q) {
                old(signals)@.push((q, MAX_SIGNAL))
            } else {
                old(signals)@
            },
    {
        let ghost r0 = signals@;
        let block = world.get(q.0, q.1, q.2);
        if block != BlockType::Lever && block != BlockType::RedstoneTorch {
            return Ghost(seen);
        }
        proof {
            world.lemma_outside_is_air(q.0 as int, q.1 as int, q.2 as int);
            lemma_cell(q.0 as int, q.1 as int, q.2 as int);
        }
        let key = ((q.0 as usize) * 16384 + (q.2 as usize) * 64 + (q.1 as usize)) as u64;
        if visited.contains(&key) {
            proof {
                assert(key == pos_cell(q));
                lemma_in_visited_is_powered(*world, cx, cz, signals@, visited@, seen, q);
            }
            return Ghost(seen);
        }
        proof {
            if powered(signals@, q) {
                lemma_powered_is_visited(*world, cx, cz, signals@, visited@, seen, q);
            }
        }
        visited.insert(key);
        signals.push((q, MAX_SIGNAL));
        queue.push_back((q, MAX_SIGNAL));
        let ghost seen2 = seen.insert(pos_cell(q));
        proof {
            lemma_powered_grows(r0, (q, MAX_SIGNAL));
            let r = signals@;
            assert(r[r.len() - 1] == (q, MAX_SIGNAL));
            assert forall|i: int| 0 <= i < r.len() implies justified(*world, cx, cz, r, i) by {
                if i < r0.len() {
                    assert(justified(*world, cx, cz, r0, i));
                    if !(is_source(block_at(*world, r[i].0)) && in_scan(cx, cz, r[i].0) && r[i].1 == MAX_SIGNAL) {
                        let j = choose|j: int| 0 <= j < i && adjacent(#[trigger] r0[j].0, r0[i].0) && r0[i].1 == passed_on(
                            block_at(*world, r0[i].0), r0[j].1 as int);
                        assert(r[j] == r0[j]);
                    }
                }
            }
            assert(!seen.contains(pos_cell(q)));
            assert forall|k: u64| #[trigger] visited@.contains(k) implies k < WORLD_VOLUME && exists|i: int|
                0 <= i < r.len() && pos_cell((#[trigger] r[i]).0) == k by {
                if k == key {
                    assert(pos_cell(r[r.len() - 1].0) == k);
                } else {
                    assert(old(visited)@.contains(k));
                    let i = choose|i: int| 0 <= i < r0.len() && pos_cell((#[trigger] r0[i]).0) == k;
                    assert(r[i] == r0[i]);
                }
            }
            assert forall|k: int| #[trigger] seen2.contains(k) <==> (0 <= k < WORLD_VOLUME && visited@.contains(k as u64)) by {
                if k != pos_cell(q) {
                    assert(seen.contains(k) <==> (0 <= k < WORLD_VOLUME && old(visited)@.contains(k as u64)));
                }
            }
            assert forall|i: int| 0 <= i < r.len() implies visited@.contains(pos_cell((#[trigger] r[i]).0) as u64) by {
                if i < r0.len() {
                    assert(r[i] == r0[i]);
                }
            }
            assert forall|i: int, j: int| 0 <= i < j < r.len() implies (#[trigger] r[i]).0 != (#[trigger] r[j]).0 by {
                if j == r.len() - 1 {
                    assert(visited@.contains(pos_cell(r0[i].0) as u64) || i >= r0.len());
                }
            }
        }
        Ghost(seen2)
    }
}

/// A visited cell belongs to some signal.
proof fn lemma_in_visited_is_powered(w: World, cx: int, cz: int, r: Seq<(Pos, u8)>, visited: Set<u64>, seen: Set<int>, q: Pos)
    requires
        bookkeeping(w, cx, cz, r, visited, seen),
        in_world(q.0 as int, q.1 as int, q.2 as int),
        visited.contains(pos_cell(q) as u64),
    ensures
        powered(r, q),
{
    let k = pos_cell(q) as u64;
    lemma_cell(q.0 as int, q.1 as int, q.2 as int);
    assert(visited.contains(k));
    let i = choose|i: int| 0 <= i < r.len() && pos_cell((#[trigger] r[i]).0) == k;
    let p = r[i].0;
    lemma_cell(p.0 as int, p.1 as int, p.2 as int);
    assert(p == q);
}

impl RedstoneSystem {
    /// The redstone signals in the area around column `(cx, cz)`: every
    /// lever and torch there at full strength, and every piece of dust or
    /// lamp the signal reaches from them, breadth first, with the strength
    /// it arrives with.
    #[verifier::rlimit(100)]
    #[verifier::spinoff_prover]
    pub fn propagate(world: &World, cx: i32, cz: i32) -> (signals: Vec<(Pos, u8)>)
        requires
            i32::MIN + SCAN_RANGE <= cx <= i32::MAX - SCAN_RANGE,
            i32::MIN + SCAN_RANGE <= cz <= i32::MAX - SCAN_RANGE,
        ensures
            well_formed(signals@),
            forall|i: int| 0 <= i < signals@.len() ==> justified(*world, cx as int, cz as int, signals@, i),
            forall|p: Pos| in_scan(cx as int, cz as int, p) && is_source(#[trigger] block_at(*world, p)) ==> powered(signals@, p),
            forall|i: int| 0 <= i < signals@.len() ==> handed_on(*world, signals@, i),
            signals@ == propagation(*world, cx as int, cz as int),
    {
        let ghost w = *world;
        let mut signals: Vec<(Pos, u8)> = Vec::new();
        let mut queue: VecDeque<(Pos, u8)> = VecDeque::new();
        let mut visited: HashSet<u64> = HashSet::new();
        let ghost mut seen: Set<int> = Set::empty();
        let lo_x: i64 = cx as i64 - SCAN_RANGE as i64;
        let hi_x: i64 = cx as i64 + SCAN_RANGE as i64;
        let lo_z: i64 = cz as i64 - SCAN_RANGE as i64;
        let hi_z: i64 = cz as i64 + SCAN_RANGE as i64;
        let mut x: i64 = lo_x;
        while x <= hi_x
            invariant
                lo_x == cx - SCAN_RANGE, hi_x == cx + SCAN_RANGE,
                lo_z == cz - SCAN_RANGE, hi_z == cz + SCAN_RANGE,
                lo_x <= x <= hi_x + 1,
                i32::MIN + SCAN_RANGE <= cx <= i32::MAX - SCAN_RANGE,
                i32::MIN + SCAN_RANGE <= cz <= i32::MAX - SCAN_RANGE,
                bookkeeping(*world, cx as int, cz as int, signals@, visited@, seen),
                queue@ == signals@,
                forall|p: Pos| in_scan(cx as int, cz as int, p) && p.0 < x && is_source(#[trigger] block_at(*world, p)) ==> powered(signals@, p),
                w == *world,
                signals@ == sources_upto(w, cx as int, cz as int, ((x - lo_x) * 3136) as nat),
            decreases hi_x + 1 - x,
        {
            let mut z: i64 = lo_z;
            while z <= hi_z
                invariant
                    lo_x == cx - SCAN_RANGE, hi_x == cx + SCAN_RANGE,
                    lo_z == cz - SCAN_RANGE, hi_z == cz + SCAN_RANGE,
                    lo_x <= x <= hi_x,
                    lo_z <= z <= hi_z + 1,
                    i32::MIN + SCAN_RANGE <= cx <= i32::MAX - SCAN_RANGE,
                    i32::MIN + SCAN_RANGE <= cz <= i32::MAX - SCAN_RANGE,
                    bookkeeping(*world, cx as int, cz as int, signals@, visited@, seen),
                    queue@ == signals@,
                    forall|p: Pos| in_scan(cx as int, cz as int, p) && (p.0 < x || (p.0 == x && p.2 < z)) && is_source(#[trigger] block_at(*world, p)) ==> powered(signals@, p),
                    w == *world,
                    signals@ == sources_upto(w, cx as int, cz as int, ((x - lo_x) * 3136 + (z - lo_z) * 64) as nat),
                decreases hi_z + 1 - z,
            {
                let mut y: i32 = 0;
                while y < 64
                    invariant
                        lo_x == cx - SCAN_RANGE, hi_x == cx + SCAN_RANGE,
                        lo_z == cz - SCAN_RANGE, hi_z == cz + SCAN_RANGE,
                        lo_x <= x <= hi_x,
                        lo_z <= z <= hi_z,
                        0 <= y <= 64,
                        i32::MIN + SCAN_RANGE <= cx <= i32::MAX - SCAN_RANGE,
                        i32::MIN + SCAN_RANGE <= cz <= i32::MAX - SCAN_RANGE,
                        bookkeeping(*world, cx as int, cz as int, signals@, visited@, seen),
                        queue@ == signals@,
                        forall|p: Pos| in_scan(cx as int, cz as int, p) && (p.0 < x || (p.0 == x && p.2 < z) || (p.0 == x && p.2 == z && p.1 < y)) && is_source(#[trigger] block_at(*world, p)) ==> powered(signals@, p),
                        w == *world,
                        signals@ == sources_upto(w, cx as int, cz as int, ((x - lo_x) * 3136 + (z - lo_z) * 64 + y) as nat),
                    decreases 64 - y,
                {
                    let q: Pos = (x as i32, y, z as i32);
                    let ghost k: int = (x - lo_x) * 3136 + (z - lo_z) * 64 + y;
                    proof {
                        lemma_rscan_pos(cx as int, cz as int, (x - lo_x) as int, y as int, (z - lo_z) as int);
                        assert(rscan_pos(cx as int, cz as int, k) == q);
                    }
                    let ghost sq = seen;
                    let g = Self::add_source(world, &mut signals, &mut queue, &mut visited, Ghost(seen), Ghost(cx as int), Ghost(cz as int), q);
                    proof { seen = g@; }
                    y += 1;
                }
                z += 1;
            }
            x += 1;
        }
        let ghost mut head: int = 0;
        assert(spread_from(w, signals@, 0) == propagation(w, cx as int, cz as int));
        assert(queue@ =~= signals@.subrange(0, signals@.len() as int));
        while queue.len() > 0
            invariant
                0 <= head <= signals@.len(),
                queue@ == signals@.subrange(head, signals@.len() as int),
                w == *world,
                spread_from(w, signals@, head as int) == propagation(w, cx as int, cz as int),
                bookkeeping(*world, cx as int, cz as int, signals@, visited@, seen),
                forall|p: Pos| in_scan(cx as int, cz as int, p) && is_source(#[trigger] block_at(*world, p)) ==> powered(signals@, p),
                forall|i: int| 0 <= i < head ==> handed_on(*world, signals@, i),
            decreases WORLD_VOLUME - head,
        {
            proof {
                lemma_bounded_by_world(signals@, seen);
            }
            let ghost r0 = signals@;
            let ghost q0 = queue@;
            let (p, strength) = match queue.pop_front() {
                Some(e) => e,
                None => (signals[0].0, 0),
            };
            assert(q0[0] == r0[head] && head < r0.len());
            assert(queue@ =~= r0.subrange(head + 1, r0.len() as int));
            let ghost s = strength as int;
            assert(1 <= strength && in_world(p.0 as int, p.1 as int, p.2 as int)) by {
                assert(r0[head as int] == (p, strength));
            }
            let g = try_power(world, &mut signals, &mut queue, &mut visited, Ghost(seen), Ghost(cx as int), Ghost(cz as int), Ghost(head), strength, (p.0 + 1, p.1, p.2));
            proof {
                seen = g@;
                assert(pass_upto(w, r0, p, s, 0) == r0);
                assert(step(p, 0).0 == p.0 + 1 && step(p, 0).1 == p.1 && step(p, 0).2 == p.2);
                assert(signals@ == pass_upto(w, r0, p, s, 1)); assert(queue@ =~= signals@.subrange(head + 1, signals@.len() as int));
            }
            let g = try_power(world, &mut signals, &mut queue, &mut visited, Ghost(seen), Ghost(cx as int), Ghost(cz as int), Ghost(head), strength, (p.0 - 1, p.1, p.2));
            proof { seen = g@; assert(signals@ == pass_upto(w, r0, p, s, 2)); assert(queue@ =~= signals@.subrange(head + 1, signals@.len() as int)); }
            let g = try_power(world, &mut signals, &mut queue, &mut visited, Ghost(seen), Ghost(cx as int), Ghost(cz as int), Ghost(head), strength, (p.0, p.1 + 1, p.2));
            proof { seen = g@; assert(signals@ == pass_upto(w, r0, p, s, 3)); assert(queue@ =~= signals@.subrange(head + 1, signals@.len() as int)); }
            let g = try_power(world, &mut signals, &mut queue, &mut visited, Ghost(seen), Ghost(cx as int), Ghost(cz as int), Ghost(head), strength, (p.0, p.1 - 1, p.2));
            proof { seen = g@; assert(signals@ == pass_upto(w, r0, p, s, 4)); assert(queue@ =~= signals@.subrange(head + 1, signals@.len() as int)); }
            let g = try_power(world, &mut signals, &mut queue, &mut visited, Ghost(seen), Ghost(cx as int), Ghost(cz as int), Ghost(head), strength, (p.0, p.1, p.2 + 1));
            proof { seen = g@; assert(signals@ == pass_upto(w, r0, p, s, 5)); assert(queue@ =~= signals@.subrange(head + 1, signals@.len() as int)); }
            let g = try_power(world, &mut signals, &mut queue, &mut visited, Ghost(seen), Ghost(cx as int), Ghost(cz as int), Ghost(head), strength, (p.0, p.1, p.2 - 1));
            proof { seen = g@; assert(signals@ == pass_upto(w, r0, p, s, 6)); assert(queue@ =~= signals@.subrange(head + 1, signals@.len() as int)); }
            proof {
                let r = signals@;
                assert(r[head as int] == r0[head as int]);
                assert(r0.len() <= WORLD_VOLUME);
                assert(spread_from(w, r0, head as int) == spread_from(w, r, head + 1));
                assert forall|i: int| 0 <= i <= head implies handed_on(*world, r, i) by {
                    assert(r[i] == r0[i]);
                    if i < head {
                        assert(handed_on(*world, r0, i));
                    } else {
                        assert forall|q: Pos|
                            adjacent(r[i].0, q) && conducts(#[trigger] block_at(*world, q)) && passed_on(block_at(*world, q), r[i].1 as int) > 0
                                implies powered(r, q) by {
                        }
                    }
                }
            }
            proof {
                assert(queue@ =~= signals@.subrange(head + 1, signals@.len() as int));
                head = head + 1;
            }
        }
        signals
    }
}

} // verus!
