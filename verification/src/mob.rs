//! Mobs and the A* search they find their way with.
use vstd::prelude::*;
use std::collections::HashMap;
use crate::world::World;
use crate::block::TermColor;

verus! {

broadcast use vstd::std_specs::hash::group_hash_axioms;

#[derive(Debug, Clone, Copy, PartialEq, Eq, Structural, Hash)]
pub enum MobType {
    Zombie,
    Slime,
}

impl MobType {
    /// Glyph a mob of this type is drawn with.
    #[verifier::allow_in_spec]
    pub fn glyph(self) -> char
        returns
            match self {
                MobType::Zombie => 'Z',
                MobType::Slime => 'S',
            },
    {
        match self {
            MobType::Zombie => 'Z',
            MobType::Slime => 'S',
        }
    }

    /// Colour a mob of this type is drawn with.
    #[verifier::allow_in_spec]
    pub fn color(self) -> TermColor
        returns
            match self {
                MobType::Zombie => TermColor::Green,
                MobType::Slime => TermColor::DarkGreen,
            },
    {
        match self {
            MobType::Zombie => TermColor::Green,
            MobType::Slime => TermColor::DarkGreen,
        }
    }

    /// Health a mob of this type spawns with.
    #[verifier::allow_in_spec]
    pub fn initial_health(self) -> i32
        returns
            match self {
                MobType::Zombie => 20i32,
                MobType::Slime => 8,
            },
    {
        match self {
            MobType::Zombie => 20,
            MobType::Slime => 8,
        }
    }
}

/// A position of the world.
pub type Pos = (i32, i32, i32);

/// Most positions the search expands before it gives up.
pub const MAX_NODES: u32 = 500;

/// The ends the search accepts: the distance between them fits an `i32`,
/// and unless they are the same position, every coordinate of `start` can
/// move one block either way without leaving the `i32` range.
pub open spec fn search_ends_ok(start: Pos, goal: Pos) -> bool {
    &&& manhattan(start, goal) <= i32::MAX
    &&& start != goal ==> i32::MIN < start.0 < i32::MAX && i32::MIN < start.1 < i32::MAX && i32::MIN < start.2
        < i32::MAX
}

/// A move of the search: one block along x or z, one block up or down, or
/// one block diagonally in the horizontal plane.
pub open spec fn is_move(p: Pos, q: Pos) -> bool {
    let (dx, dy, dz) = (q.0 - p.0, q.1 - p.1, q.2 - p.2);
    ||| dy == 0 && ((dx == 1 || dx == -1) && dz == 0)
    ||| dy == 0 && (dx == 0 && (dz == 1 || dz == -1))
    ||| (dy == 1 || dy == -1) && dx == 0 && dz == 0
    ||| dy == 0 && (dx == 1 || dx == -1) && (dz == 1 || dz == -1)
}

/// A mob can stand at `p`: inside the world, with room for feet and head
/// and solid ground below.
pub open spec fn walkable(w: World, p: Pos) -> bool {
    &&& 0 <= p.0 < 256 && 0 <= p.2 < 256 && 0 <= p.1 < 64
    &&& !w.block(p.0 as int, p.1 as int, p.2 as int).is_solid()
    &&& !w.block(p.0 as int, p.1 + 1, p.2 as int).is_solid()
    &&& w.block(p.0 as int, p.1 - 1, p.2 as int).is_solid()
}

/// `path` leads from `start` to `goal`, one move at a time over walkable
/// positions (`start` itself not included).
pub open spec fn is_path(w: World, start: Pos, goal: Pos, path: Seq<Pos>) -> bool {
    &&& path.len() > 0
    &&& path.last() == goal
    &&& is_move(start, path[0])
    &&& forall|i: int| 0 <= i < path.len() - 1 ==> is_move(#[trigger] path[i], path[i + 1])
    &&& forall|i: int| 0 <= i < path.len() ==> walkable(w, #[trigger] path[i])
}

/// Manhattan distance.
pub open spec fn manhattan(p: Pos, q: Pos) -> int {
    (if p.0 < q.0 { q.0 - p.0 } else { p.0 - q.0 }) + (if p.1 < q.1 { q.1 - p.1 } else { p.1 - q.1 }) + (
    if p.2 < q.2 { q.2 - p.2 } else { p.2 - q.2 })
}

fn heuristic(pos: Pos, goal: Pos) -> (h: i64)
    ensures
        h == manhattan(pos, goal),
{
    let (p0, p1, p2) = (pos.0 as i64, pos.1 as i64, pos.2 as i64);
    let (g0, g1, g2) = (goal.0 as i64, goal.1 as i64, goal.2 as i64);
    let dx = if p0 < g0 { g0 - p0 } else { p0 - g0 };
    let dy = if p1 < g1 { g1 - p1 } else { p1 - g1 };
    let dz = if p2 < g2 { g2 - p2 } else { p2 - g2 };
    dx + dy + dz
}

/// Key of a position in the search's maps.
pub open spec fn pkey(p: Pos) -> int {
    (p.0 + 0x8000_0000) * 0x1_0000_0000_0000_0000 + (p.1 + 0x8000_0000) * 0x1_0000_0000 + (p.2
        + 0x8000_0000)
}

proof fn lemma_pkey(p: Pos, q: Pos)
    ensures
        0 <= pkey(p) < 0x1_0000_0000_0000_0000_0000_0000,
        pkey(p) == pkey(q) ==> p == q,
{
    let a = p.0 + 0x8000_0000;
    let b = p.1 + 0x8000_0000;
    let c = p.2 + 0x8000_0000;
    let k = pkey(p);
    vstd::arithmetic::div_mod::lemma_fundamental_div_mod_converse(k, 0x1_0000_0000_0000_0000, a, b * 0x1_0000_0000 + c);
    vstd::arithmetic::div_mod::lemma_fundamental_div_mod_converse(k % 0x1_0000_0000_0000_0000, 0x1_0000_0000, b, c);
    let a2 = q.0 + 0x8000_0000;
    let b2 = q.1 + 0x8000_0000;
    let c2 = q.2 + 0x8000_0000;
    let k2 = pkey(q);
    vstd::arithmetic::div_mod::lemma_fundamental_div_mod_converse(k2, 0x1_0000_0000_0000_0000, a2, b2 * 0x1_0000_0000 + c2);
    vstd::arithmetic::div_mod::lemma_fundamental_div_mod_converse(k2 % 0x1_0000_0000_0000_0000, 0x1_0000_0000, b2, c2);
}

fn pkey_exec(p: Pos) -> (k: u128)
    ensures
        k == pkey(p),
{
    proof { lemma_pkey(p, p); }
    ((p.0 as i64 + 0x8000_0000) as u128) * 0x1_0000_0000_0000_0000 + ((p.1 as i64 + 0x8000_0000) as u128)
        * 0x1_0000_0000 + ((p.2 as i64 + 0x8000_0000) as u128)
}

/// Entry `a` comes before entry `b` in the search's open list: smaller
/// estimate first, ties broken by position, x then y then z.
pub open spec fn entry_before(a: (i64, Pos), b: (i64, Pos)) -> bool {
    ||| a.0 < b.0
    ||| a.0 == b.0 && a.1.0 < b.1.0
    ||| a.0 == b.0 && a.1.0 == b.1.0 && a.1.1 < b.1.1
    ||| a.0 == b.0 && a.1.0 == b.1.0 && a.1.1 == b.1.1 && a.1.2 < b.1.2
}

fn same_pos(a: Pos, b: Pos) -> (r: bool)
    ensures
        r == (a == b),
{
    a.0 == b.0 && a.1 == b.1 && a.2 == b.2
}

/// The moves the search tries, in order.
pub open spec fn move_offsets() -> Seq<(i32, i32, i32)> {
    seq![
        (1i32, 0i32, 0i32), (-1i32, 0i32, 0i32),
        (0i32, 0i32, 1i32), (0i32, 0i32, -1i32),
        (0i32, 1i32, 0i32), (0i32, -1i32, 0i32),
        (1i32, 0i32, 1i32), (-1i32, 0i32, 1i32), (1i32, 0i32, -1i32), (-1i32, 0i32, -1i32),
    ]
}

/// Entry `i` is the one the search expands next: no entry comes before
/// it, and it is the first entry of its value.
pub open spec fn is_next_entry(open: Seq<(i64, Pos)>, i: int) -> bool {
    &&& 0 <= i < open.len()
    &&& forall|j: int| 0 <= j < open.len() ==> !entry_before(#[trigger] open[j], open[i])
    &&& forall|j: int| 0 <= j < i ==> #[trigger] open[j] != open[i]
}

/// Index of the entry the search expands next.
pub open spec fn next_entry(open: Seq<(i64, Pos)>) -> int {
    choose|i: int| is_next_entry(open, i)
}

/// Only one entry is the next one.
proof fn lemma_next_entry_unique(open: Seq<(i64, Pos)>, i: int)
    requires
        is_next_entry(open, i),
    ensures
        next_entry(open) == i,
{
    let k = next_entry(open);
    assert(is_next_entry(open, k));
    if k < i {
        assert(open[k] != open[i]);
        assert(!entry_before(open[k], open[i]) && !entry_before(open[i], open[k]));
    } else if i < k {
        assert(open[i] != open[k]);
        assert(!entry_before(open[k], open[i]) && !entry_before(open[i], open[k]));
    }
}

/// Index of the first entry of the open list.
fn first_entry(open: &Vec<(i64, Pos)>) -> (idx: usize)
    requires
        open@.len() > 0,
    ensures
        is_next_entry(open@, idx as int),
{
    let mut best: usize = 0;
    let mut i: usize = 1;
    while i < open.len()
        invariant
            0 < i <= open@.len(),
            best < i,
            forall|j: int| 0 <= j < i ==> !entry_before(#[trigger] open@[j], open@[best as int]),
            forall|j: int| 0 <= j < best ==> #[trigger] open@[j] != open@[best as int],
        decreases open@.len() - i,
    {
        let a = open[i];
        let b = open[best];
        if a.0 < b.0 || (a.0 == b.0 && (a.1.0 < b.1.0 || (a.1.0 == b.1.0 && (a.1.1 < b.1.1 || (a.1.1
            == b.1.1 && a.1.2 < b.1.2))))) {
            best = i;
        }
        i += 1;
    }
    best
}

/// The search's bookkeeping: the start costs nothing; every other position
/// with a cost has a predecessor, one move away, that costs less; every
/// position with a predecessor is walkable; costs stay within two per
/// expansion; and every open entry has a cost.
pub open spec fn search_state(
    w: World,
    start: Pos,
    goal: Pos,
    open: Seq<(i64, Pos)>,
    came_from: Map<u128, Pos>,
    g: Map<u128, i32>,
    explored: int,
) -> bool {
    &&& g.contains_key(pkey(start) as u128)
    &&& g[pkey(start) as u128] == 0
    &&& forall|p: Pos| #[trigger] g.contains_key(pkey(p) as u128) ==> {
        &&& 0 <= g[pkey(p) as u128] <= 2 * explored
        &&& p == start || came_from.contains_key(pkey(p) as u128)
    }
    &&& forall|p: Pos| #[trigger] came_from.contains_key(pkey(p) as u128) ==> {
        let q = came_from[pkey(p) as u128];
        &&& p != start
        &&& g.contains_key(pkey(p) as u128)
        &&& walkable(w, p)
        &&& is_move(q, p)
        &&& g.contains_key(pkey(q) as u128)
        &&& g[pkey(q) as u128] < g[pkey(p) as u128]
    }
    &&& forall|i: int| 0 <= i < open.len() ==> g.contains_key(pkey((#[trigger] open[i]).1) as u128) && (
    open[i].1 == start || walkable(w, open[i].1))
}

/// The state of the search: the open list, each position's predecessor
/// and each position's cost, keyed by `pkey`.
pub type Search = (Seq<(i64, Pos)>, Map<u128, Pos>, Map<u128, i32>);

/// Try the move from `current` (costing `cg`) by `d`: a walkable position it
/// reaches more cheaply than known so far (a climb or drop costs two, any
/// other move one) gets `current` as predecessor, the new cost, and an open
/// entry estimated at that cost plus its Manhattan distance to the goal.
pub open spec fn relax(w: World, goal: Pos, s: Search, current: Pos, cg: int, d: (i32, i32, i32)) -> Search {
    let next: Pos = ((current.0 + d.0) as i32, (current.1 + d.1) as i32, (current.2 + d.2) as i32);
    let key = pkey(next) as u128;
    let tg = cg + if d.1 != 0 { 2int } else { 1int };
    let known = if s.2.contains_key(key) { s.2[key] as int } else { i32::MAX as int };
    if walkable(w, next) && tg < known {
        (s.0.push(((tg + manhattan(next, goal)) as i64, next)), s.1.insert(key, current), s.2.insert(key, tg as i32))
    } else {
        s
    }
}

/// The search after trying the first `k` moves from `current`.
pub open spec fn relax_upto(w: World, goal: Pos, s: Search, current: Pos, cg: int, k: nat) -> Search
    decreases k,
{
    if k == 0 {
        s
    } else {
        relax(w, goal, relax_upto(w, goal, s, current, cg, (k - 1) as nat), current, cg, move_offsets()[k - 1])
    }
}

/// The path to `pos` along the predecessors, from just after `start`,
/// following at most `fuel` of them.
pub open spec fn trace_back(came_from: Map<u128, Pos>, start: Pos, pos: Pos, fuel: nat) -> Seq<Pos>
    decreases fuel,
{
    if pos == start || fuel == 0 {
        Seq::empty()
    } else {
        trace_back(came_from, start, came_from[pkey(pos) as u128], (fuel - 1) as nat).push(pos)
    }
}

/// What the search returns from state `s` after expanding `explored`
/// positions: it takes the first open entry; it gives up with no path once
/// the entry would be the 501st expanded, or when the list is empty; at the
/// goal it returns the path along the predecessors; otherwise it tries all
/// moves from the entry and goes on.
pub open spec fn search_from(w: World, start: Pos, goal: Pos, s: Search, explored: int) -> Seq<Pos>
    decreases 501 - explored,
{
    if explored > MAX_NODES || s.0.len() == 0 {
        Seq::empty()
    } else {
        let i = next_entry(s.0);
        let current = s.0[i].1;
        let open = s.0.update(i, s.0.last()).drop_last();
        if explored + 1 > MAX_NODES {
            Seq::empty()
        } else if current == goal {
            trace_back(s.1, start, goal, (s.2[pkey(goal) as u128] + 1) as nat)
        } else if !s.2.contains_key(pkey(current) as u128) {
            Seq::empty()
        } else {
            search_from(
                w,
                start,
                goal,
                relax_upto(w, goal, (open, s.1, s.2), current, s.2[pkey(current) as u128] as int, 10),
                explored + 1,
            )
        }
    }
}

/// The path the A* search finds from `start` to `goal`: the search begins
/// with only `start` open, at cost 0.
pub open spec fn astar_path(w: World, start: Pos, goal: Pos) -> Seq<Pos> {
    search_from(
        w,
        start,
        goal,
        (seq![(manhattan(start, goal) as i64, start)], Map::empty(), Map::empty().insert(pkey(start) as u128, 0i32)),
        0,
    )
}

/// Following predecessors with more fuel than the cost of a position gives
/// the same path.
proof fn lemma_trace_fuel(
    w: World,
    start: Pos,
    goal: Pos,
    open: Seq<(i64, Pos)>,
    came_from: Map<u128, Pos>,
    g: Map<u128, i32>,
    explored: int,
    p: Pos,
    f: nat,
)
    requires
        search_state(w, start, goal, open, came_from, g, explored),
        g.contains_key(pkey(p) as u128),
        f >= g[pkey(p) as u128] + 1,
    ensures
        trace_back(came_from, start, p, f) == trace_back(came_from, start, p, (g[pkey(p) as u128] + 1) as nat),
    decreases f,
{
    if p != start {
        let q = came_from[pkey(p) as u128];
        assert(came_from.contains_key(pkey(p) as u128));
        lemma_trace_fuel(w, start, goal, open, came_from, g, explored, q, (f - 1) as nat);
        lemma_trace_fuel(w, start, goal, open, came_from, g, explored, q, g[pkey(p) as u128] as nat);
    }
}

/// A* search on the voxel grid for a path from `start` to `goal` a mob can
/// walk, preferring level moves (a climb or drop costs two) and giving up
/// after expanding 500 positions. The path leaves out `start` and ends at
/// `goal`; it is empty when no path was found or `start` is the goal.
#[verifier::rlimit(100)]
#[verifier::spinoff_prover]
pub fn astar(world: &World, start: Pos, goal: Pos) -> (path: Vec<Pos>)
    requires
        search_ends_ok(start, goal),
    ensures
        path@ == astar_path(*world, start, goal),
        path@.len() == 0 || is_path(*world, start, goal, path@),
        forall|i: int, j: int| 0 <= i < j < path@.len() ==> path@[i] != path@[j],
        forall|i: int| 0 <= i < path@.len() ==> path@[i] != start,
        start == goal ==> path@.len() == 0,
{
    let ghost w = *world;
    let mut open: Vec<(i64, Pos)> = Vec::new();
    let mut came_from: HashMap<u128, Pos> = HashMap::new();
    let mut g_score: HashMap<u128, i32> = HashMap::new();
    g_score.insert(pkey_exec(start), 0);
    open.push((heuristic(start, goal), start));
    let neighbors: [(i32, i32, i32); 10] = [
        (1, 0, 0), (-1, 0, 0),
        (0, 0, 1), (0, 0, -1),
        (0, 1, 0), (0, -1, 0),
        (1, 0, 1), (-1, 0, 1), (1, 0, -1), (-1, 0, -1),
    ];
    assert(neighbors@ == move_offsets());
    proof {
        assert forall|p: Pos| #[trigger] g_score@.contains_key(pkey(p) as u128) implies p == start by {
            lemma_pkey(p, start);
        }
        assert(open@ =~= seq![(manhattan(start, goal) as i64, start)]);
        assert(came_from@ =~= Map::<u128, Pos>::empty());
        assert(g_score@ =~= Map::<u128, i32>::empty().insert(pkey(start) as u128, 0i32));
    }
    let mut nodes_explored: u32 = 0;
    while nodes_explored <= MAX_NODES
        invariant
            nodes_explored <= MAX_NODES + 1,
            search_ends_ok(start, goal),
            w == *world,
            search_state(w, start, goal, open@, came_from@, g_score@, nodes_explored as int),
            search_from(w, start, goal, (open@, came_from@, g_score@), nodes_explored as int) == astar_path(w, start, goal),
            neighbors@ == move_offsets(),
        decreases MAX_NODES + 1 - nodes_explored,
    {
        if open.len() == 0 {
            return Vec::new();
        }
        let idx = first_entry(&open);
        let ghost open0 = open@;
        proof {
            lemma_next_entry_unique(open0, idx as int);
        }
        let (_, current) = open.swap_remove(idx);
        assert(g_score@.contains_key(pkey(current) as u128) && (current == start || walkable(w, current))) by {
            assert(open0[idx as int].1 == current);
        }
        proof {
            assert forall|i: int| 0 <= i < open@.len() implies g_score@.contains_key(pkey((#[trigger] open@[i]).1) as u128) && (
                open@[i].1 == start || walkable(w, open@[i].1)) by {
                if i == idx {
                    assert(open@[i] == open0.last());
                } else {
                    assert(open@[i] == open0[i]);
                }
            }
        }
        nodes_explored += 1;
        if nodes_explored > MAX_NODES {
            return Vec::new();
        }
        if same_pos(current, goal) {
            return reconstruct(&came_from, &g_score, Ghost(w), start, goal, Ghost(open@), Ghost(nodes_explored as int));
        }
        let current_g: i32 = match g_score.get(&pkey_exec(current)) {
            Some(v) => *v,
            None => {
                return Vec::new();
            },
        };
        let ghost s1: Search = (open@, came_from@, g_score@);
        proof {
            assert(open@ == open0.update(idx as int, open0.last()).drop_last());
            assert(search_from(w, start, goal, (open0, came_from@, g_score@), nodes_explored - 1) == astar_path(w, start, goal));
            assert(search_from(w, start, goal, relax_upto(w, goal, s1, current, current_g as int, 10), nodes_explored as int)
                == astar_path(w, start, goal));
        }
        let mut k: usize = 0;
        while k < 10
            invariant
                0 <= k <= 10,
                1 <= nodes_explored <= MAX_NODES,
                i32::MIN < current.0 < i32::MAX && i32::MIN < current.1 < i32::MAX && i32::MIN < current.2 < i32::MAX,
                w == *world,
                current == start || walkable(w, current),
                g_score@.contains_key(pkey(current) as u128),
                current_g == g_score@[pkey(current) as u128],
                0 <= current_g <= 2 * (nodes_explored - 1),
                search_state(w, start, goal, open@, came_from@, g_score@, nodes_explored as int),
                neighbors@ == move_offsets(),
                (open@, came_from@, g_score@) == relax_upto(w, goal, s1, current, current_g as int, k as nat),
                search_from(w, start, goal, relax_upto(w, goal, s1, current, current_g as int, 10), nodes_explored as int)
                    == astar_path(w, start, goal),
            decreases 10 - k,
        {
            let (dx, dy, dz) = neighbors[k];
            k += 1;
            let next: Pos = (current.0 + dx, current.1 + dy, current.2 + dz);
            if next.0 < 0 || next.2 < 0 || next.0 >= 256 || next.2 >= 256 || next.1 < 0 || next.1 >= 64 {
                continue;
            }
            let block_at = world.get(next.0, next.1, next.2);
            let block_below = world.get(next.0, next.1 - 1, next.2);
            let block_head = world.get(next.0, next.1 + 1, next.2);
            if block_at.is_solid() || block_head.is_solid() || !block_below.is_solid() {
                continue;
            }
            let move_cost: i32 = if dy != 0 { 2 } else { 1 };
            let tentative_g = current_g + move_cost;
            let next_key = pkey_exec(next);
            let known: i32 = match g_score.get(&next_key) {
                Some(v) => *v,
                None => i32::MAX,
            };
            if tentative_g < known {
                let ghost g0 = g_score@;
                let ghost c0 = came_from@;
                proof {
                    lemma_pkey(next, start);
                    assert(next != start);
                    assert(is_move(current, next));
                    assert(next != current);
                    lemma_pkey(current, next);
                    assert(walkable(w, next));
                }
                came_from.insert(next_key, current);
                g_score.insert(next_key, tentative_g);
                let f = tentative_g as i64 + heuristic(next, goal);
                open.push((f, next));
                proof {
                    assert forall|p: Pos| p != next implies pkey(p) as u128 != next_key by {
                        lemma_pkey(p, next);
                        lemma_pkey(next, next);
                    }
                    lemma_pkey(current, next);
                    assert forall|p: Pos| #[trigger] g_score@.contains_key(pkey(p) as u128) implies 0 <= g_score@[pkey(p) as u128] <= 2 * nodes_explored
                        && (p == start || came_from@.contains_key(pkey(p) as u128)) by {
                        if p != next {
                            assert(g0.contains_key(pkey(p) as u128));
                        }
                    }
                    assert forall|p: Pos| #[trigger] came_from@.contains_key(pkey(p) as u128) implies ({
                        let q = came_from@[pkey(p) as u128];
                        &&& p != start
                        &&& g_score@.contains_key(pkey(p) as u128)
                        &&& walkable(w, p)
                        &&& is_move(q, p)
                        &&& g_score@.contains_key(pkey(q) as u128)
                        &&& g_score@[pkey(q) as u128] < g_score@[pkey(p) as u128]
                    }) by {
                        if p == next {
                            assert(came_from@[pkey(p) as u128] == current);
                            assert(g_score@[pkey(current) as u128] == current_g);
                            assert(g_score@[pkey(p) as u128] == tentative_g);
                        } else {
                            assert(c0.contains_key(pkey(p) as u128));
                            let q = c0[pkey(p) as u128];
                            lemma_pkey(q, next);
                            if q == next {
                                assert(g0[pkey(q) as u128] < g0[pkey(p) as u128]);
                            }
                        }
                    }
                    assert forall|i: int| 0 <= i < open@.len() implies g_score@.contains_key(pkey((#[trigger] open@[i]).1) as u128) && (
                        open@[i].1 == start || walkable(w, open@[i].1)) by {
                    }
                }
            }
        }
    }
    Vec::new()
}

/// Follow the predecessors back from the goal to the start: the path is
/// the chain of predecessors of the goal, in walking order.
fn reconstruct(
    came_from: &HashMap<u128, Pos>,
    g_score: &HashMap<u128, i32>,
    Ghost(w): Ghost<World>,
    start: Pos,
    goal: Pos,
    Ghost(open): Ghost<Seq<(i64, Pos)>>,
    Ghost(explored): Ghost<int>,
) -> (path: Vec<Pos>)
    requires
        search_state(w, start, goal, open, came_from@, g_score@, explored),
        g_score@.contains_key(pkey(goal) as u128),
    ensures
        path@.len() == 0 || is_path(w, start, goal, path@),
        start == goal ==> path@.len() == 0,
        path@ == trace_back(came_from@, start, goal, (g_score@[pkey(goal) as u128] + 1) as nat),
        forall|i: int, j: int| 0 <= i < j < path@.len() ==> path@[i] != path@[j],
        forall|i: int| 0 <= i < path@.len() ==> path@[i] != start,
{
    let ghost rest = trace_back(came_from@, start, goal, (g_score@[pkey(goal) as u128] + 1) as nat);
    let mut back: Vec<Pos> = Vec::new();
    let mut pos = goal;
    while !same_pos(pos, start)
        invariant
            search_state(w, start, goal, open, came_from@, g_score@, explored),
            g_score@.contains_key(pkey(pos) as u128),
            g_score@.contains_key(pkey(goal) as u128),
            rest == trace_back(came_from@, start, goal, (g_score@[pkey(goal) as u128] + 1) as nat),
            ({
                let tp = trace_back(came_from@, start, pos, (g_score@[pkey(pos) as u128] + 1) as nat);
                &&& rest.len() == tp.len() + back@.len()
                &&& rest.subrange(0, tp.len() as int) == tp
                &&& forall|i: int| 0 <= i < back@.len() ==> rest[rest.len() - 1 - i] == #[trigger] back@[i]
            }),
            back@.len() > 0 ==> back@[0] == goal && is_move(pos, back@.last()),
            back@.len() == 0 ==> pos == goal,
            start == goal ==> back@.len() == 0,
            forall|i: int| 0 <= i < back@.len() - 1 ==> is_move(#[trigger] back@[i + 1], back@[i]),
            forall|i: int| 0 <= i < back@.len() ==> walkable(w, #[trigger] back@[i]),
            forall|i: int| 0 <= i < back@.len() ==> g_score@.contains_key(pkey(#[trigger] back@[i]) as u128)
                && g_score@[pkey(back@[i]) as u128] > g_score@[pkey(pos) as u128],
            forall|i: int, j: int| 0 <= i < j < back@.len() ==> g_score@[pkey(#[trigger] back@[i]) as u128]
                > g_score@[pkey(#[trigger] back@[j]) as u128],
        decreases g_score@[pkey(pos) as u128],
    {
        let parent = match came_from.get(&pkey_exec(pos)) {
            Some(p) => *p,
            None => {
                return Vec::new();
            },
        };
        proof {
            let gp = g_score@[pkey(pos) as u128];
            assert(came_from@.contains_key(pkey(pos) as u128));
            let tp = trace_back(came_from@, start, pos, (gp + 1) as nat);
            let gq = g_score@[pkey(parent) as u128];
            lemma_trace_fuel(w, start, goal, open, came_from@, g_score@, explored, parent, gp as nat);
            let tq = trace_back(came_from@, start, parent, (gq + 1) as nat);
            assert(tp == tq.push(pos));
            assert(rest.subrange(0, tq.len() as int) =~= tq) by {
                assert forall|i: int| 0 <= i < tq.len() implies rest[i] == tq[i] by {
                    assert(rest.subrange(0, tp.len() as int)[i] == tp[i]);
                }
            }
            assert(rest[tq.len() as int] == pos) by {
                assert(rest.subrange(0, tp.len() as int)[tq.len() as int] == tp[tq.len() as int]);
            }
        }
        back.push(pos);
        pos = parent;
    }
    let mut path: Vec<Pos> = Vec::new();
    let n = back.len();
    let mut i: usize = 0;
    while i < n
        invariant
            n == back@.len(),
            i <= n,
            path@.len() == i,
            forall|j: int| 0 <= j < i ==> #[trigger] path@[j] == back@[n - 1 - j],
        decreases n - i,
    {
        path.push(back[n - 1 - i]);
        i += 1;
    }
    proof {
        assert forall|i: int, j: int| 0 <= i < j < path@.len() implies path@[i] != path@[j] by {
            assert(path@[i] == back@[n - 1 - i] && path@[j] == back@[n - 1 - j]);
            assert(g_score@[pkey(back@[n - 1 - j]) as u128] > g_score@[pkey(back@[n - 1 - i]) as u128]);
        }
        assert forall|i: int| 0 <= i < path@.len() implies path@[i] != start by {
            assert(path@[i] == back@[n - 1 - i]);
            assert(g_score@[pkey(back@[n - 1 - i]) as u128] > g_score@[pkey(pos) as u128]);
        }
        assert(path@ =~= rest) by {
            assert forall|j: int| 0 <= j < n implies path@[j] == rest[j] by {
                assert(rest[rest.len() - 1 - (n - 1 - j)] == back@[n - 1 - j]);
            }
        }
        if n > 0 {
            assert(path@.last() == back@[0]);
            assert(path@[0] == back@.last());
            assert forall|j: int| 0 <= j < path@.len() - 1 implies is_move(#[trigger] path@[j], path@[j + 1]) by {
                assert(is_move(back@[n - 1 - j], back@[n - 1 - j - 1])) by {
                    let k = n - 2 - j;
                    assert(is_move(back@[k + 1], back@[k]));
                }
            }
            assert forall|j: int| 0 <= j < path@.len() implies walkable(w, #[trigger] path@[j]) by {
                assert(walkable(w, back@[n - 1 - j]));
            }
        }
    }
    path
}

} // verus!
