//! Experience levels and enchanting.
use vstd::prelude::*;
use crate::rng::{lcg_draw, lcg_draw_exec, lcg_next, lcg_next_exec};

verus! {

/// A player's experience: the level, the points toward the next level and
/// all points ever earned.
#[derive(Debug, Clone, PartialEq, Eq, Structural)]
pub struct Experience {
    pub level: u32,
    pub points: u32,
    pub total_earned: u32,
}

/// Points needed to advance from `level` to the next level.
pub open spec fn level_cost(level: int) -> int {
    if level <= 16 {
        2 * level + 7
    } else if level <= 31 {
        5 * level - 38
    } else {
        9 * level - 158
    }
}

/// Level and points after spending `points` on level-ups from `level`, as
/// many as they pay for.
pub open spec fn level_up(level: int, points: int) -> (int, int)
    decreases points,
    when points >= 0 && level >= 0
{
    if points >= level_cost(level) {
        level_up(level + 1, points - level_cost(level))
    } else {
        (level, points)
    }
}

/// Points spent to reach `level` from level zero.
pub open spec fn points_to_reach(level: nat) -> int
    decreases level,
{
    if level == 0 {
        0
    } else {
        points_to_reach((level - 1) as nat) + level_cost(level - 1)
    }
}

/// Every level-up taken from `level` with `points` has a cost that fits in 32 bits.
pub open spec fn level_up_fits(level: int, points: int) -> bool
    decreases points,
    when points >= 0 && level >= 0
{
    &&& 9 * level <= u32::MAX
    &&& points >= level_cost(level) ==> level_up_fits(level + 1, points - level_cost(level))
}

impl Experience {
    pub fn new() -> (e: Self)
        ensures
            e.level == 0 && e.points == 0 && e.total_earned == 0,
    {
        Experience { level: 0, points: 0, total_earned: 0 }
    }

    /// Points needed to advance from `level` to the next level.
    pub fn xp_for_level(level: u32) -> (r: u32)
        requires
            9 * level <= u32::MAX,
        ensures
            r == level_cost(level as int),
    {
        if level <= 16 {
            2 * level + 7
        } else if level <= 31 {
            5 * level - 38
        } else {
            9 * level - 158
        }
    }

    /// Add points and take every level-up they pay for.
    pub fn add(&mut self, amount: u32)
        requires
            old(self).points + amount <= u32::MAX,
            old(self).total_earned + amount <= u32::MAX,
            level_up_fits(old(self).level as int, old(self).points + amount),
        ensures
            final(self).total_earned == old(self).total_earned + amount,
            (final(self).level as int, final(self).points as int) == level_up(
                old(self).level as int,
                old(self).points + amount,
            ),
    {
        self.points += amount;
        self.total_earned += amount;
        let ghost l0 = old(self).level as int;
        let ghost p0 = old(self).points + amount;
        while self.points >= Self::xp_for_level(self.level)
            invariant
                self.total_earned == old(self).total_earned + amount,
                level_up_fits(self.level as int, self.points as int),
                level_up(l0, p0) == level_up(self.level as int, self.points as int),
            decreases self.points,
        {
            self.points -= Self::xp_for_level(self.level);
            self.level += 1;
        }
    }

    /// Spend `levels` levels if there are that many; returns whether it did.
    pub fn spend(&mut self, levels: u32) -> (ok: bool)
        ensures
            ok == (old(self).level >= levels),
            ok ==> final(self).level == old(self).level - levels,
            !ok ==> final(self).level == old(self).level,
            final(self).points == old(self).points,
            final(self).total_earned == old(self).total_earned,
    {
        if self.level >= levels {
            self.level -= levels;
            true
        } else {
            false
        }
    }
}

/// After adding points the progress toward the next level is always short
/// of its cost, and no point is lost: the points it takes to reach the
/// level from zero plus the points held grow by exactly what was added.
pub proof fn lemma_level_up_conserves(level: nat, points: nat)
    ensures
        level_up(level as int, points as int).1 < level_cost(level_up(level as int, points as int).0),
        level_up(level as int, points as int).0 >= level,
        points_to_reach(level_up(level as int, points as int).0 as nat) + level_up(
            level as int,
            points as int,
        ).1 == points_to_reach(level) + points,
    decreases points,
{
    if points >= level_cost(level as int) {
        lemma_level_up_conserves(level + 1, (points - level_cost(level as int)) as nat);
    }
}

/// Enchantments an item can carry.
#[derive(Debug, Clone, Copy, PartialEq, Eq, Structural, Hash)]
pub enum Enchantment {
    Efficiency,
    Fortune,
    Sharpness,
    Protection,
    Unbreaking,
    SilkTouch,
}

/// The enchantments in the order the enchanting table considers them.
pub open spec fn enchantment_at(i: int) -> Enchantment {
    if i == 0 {
        Enchantment::Efficiency
    } else if i == 1 {
        Enchantment::Fortune
    } else if i == 2 {
        Enchantment::Sharpness
    } else if i == 3 {
        Enchantment::Protection
    } else if i == 4 {
        Enchantment::Unbreaking
    } else {
        Enchantment::SilkTouch
    }
}

/// The table considers enchantment `e` with generator state `rng`: it draws
/// a roll below 100; below 30, and if the table's level reaches the
/// enchantment's minimum, it draws a level from 1 up to the enchantment's
/// maximum or `enchant_level / 3 + 1`, whichever is smaller. The new
/// generator state and the enchantment granted, if any.
pub open spec fn consider(e: Enchantment, enchant_level: u32, rng: u64) -> (u64, Option<(Enchantment, u32)>) {
    let r1 = lcg_next(rng);
    if enchant_level >= e.min_level_required() && lcg_draw(r1) % 100 < 30 {
        let cap = enchant_level / 3 + 1;
        let max: int = if e.max_level() <= cap { e.max_level() as int } else { cap };
        let r2 = lcg_next(r1);
        (r2, Some((e, (lcg_draw(r2) % (max as nat) + 1) as u32)))
    } else {
        (r1, None)
    }
}

/// Generator state and enchantments granted after considering the first `k` enchantments.
pub open spec fn consider_first(enchant_level: u32, seed: u64, k: nat) -> (u64, Seq<(Enchantment, u32)>)
    decreases k,
{
    if k == 0 {
        (seed, Seq::empty())
    } else {
        let (rng, granted) = consider_first(enchant_level, seed, (k - 1) as nat);
        let (rng2, g) = consider(enchantment_at(k - 1), enchant_level, rng);
        match g {
            Some(x) => (rng2, granted.push(x)),
            None => (rng2, granted),
        }
    }
}

/// The enchantments granted for a table level and a seed: those the six
/// considerations grant, or, when none is granted and the level is at least
/// one, a single enchantment of level 1 drawn from the six.
pub open spec fn enchantments_for(enchant_level: u32, seed: u64) -> Seq<(Enchantment, u32)> {
    let (rng, granted) = consider_first(enchant_level, seed, 6);
    if granted.len() == 0 && enchant_level >= 1 {
        let r = lcg_next(rng);
        seq![(enchantment_at((lcg_draw(r) % 6) as int), 1u32)]
    } else {
        granted
    }
}

impl Enchantment {
    #[verifier::allow_in_spec]
    pub fn name(&self) -> &'static str
        returns
            match self {
                Enchantment::Efficiency => "Efficiency",
                Enchantment::Fortune => "Fortune",
                Enchantment::Sharpness => "Sharpness",
                Enchantment::Protection => "Protection",
                Enchantment::Unbreaking => "Unbreaking",
                Enchantment::SilkTouch => "Silk Touch",
            },
    {
        match self {
            Enchantment::Efficiency => "Efficiency",
            Enchantment::Fortune => "Fortune",
            Enchantment::Sharpness => "Sharpness",
            Enchantment::Protection => "Protection",
            Enchantment::Unbreaking => "Unbreaking",
            Enchantment::SilkTouch => "Silk Touch",
        }
    }

    #[verifier::allow_in_spec]
    pub fn max_level(&self) -> u32
        returns
            match self {
                Enchantment::Efficiency | Enchantment::Sharpness => 5u32,
                Enchantment::Fortune | Enchantment::Protection | Enchantment::Unbreaking => 3,
                Enchantment::SilkTouch => 1,
            },
    {
        match self {
            Enchantment::Efficiency | Enchantment::Sharpness => 5,
            Enchantment::Fortune | Enchantment::Protection | Enchantment::Unbreaking => 3,
            Enchantment::SilkTouch => 1,
        }
    }

    #[verifier::allow_in_spec]
    pub fn min_level_required(&self) -> u32
        returns
            match self {
                Enchantment::Efficiency | Enchantment::Sharpness => 1u32,
                Enchantment::Fortune | Enchantment::Unbreaking | Enchantment::Protection => 5,
                Enchantment::SilkTouch => 10,
            },
    {
        match self {
            Enchantment::Efficiency | Enchantment::Sharpness => 1,
            Enchantment::Fortune | Enchantment::Unbreaking => 5,
            Enchantment::Protection => 5,
            Enchantment::SilkTouch => 10,
        }
    }

    /// The enchantments an enchanting table of `enchant_level` grants for `seed`.
    pub fn generate_for_level(enchant_level: u32, seed: u64) -> (result: Vec<(Enchantment, u32)>)
        ensures
            result@ == enchantments_for(enchant_level, seed),
    {
        let mut result: Vec<(Enchantment, u32)> = Vec::new();
        let mut rng = seed;
        let all = [
            Enchantment::Efficiency,
            Enchantment::Fortune,
            Enchantment::Sharpness,
            Enchantment::Protection,
            Enchantment::Unbreaking,
            Enchantment::SilkTouch,
        ];
        let mut k: usize = 0;
        while k < 6
            invariant
                k <= 6,
                (rng, result@) == consider_first(enchant_level, seed, k as nat),
                forall|i: int| 0 <= i < 6 ==> #[trigger] all@[i] == enchantment_at(i),
            decreases 6 - k,
        {
            let ench = all[k];
            rng = lcg_next_exec(rng);
            let roll = lcg_draw_exec(rng) % 100;
            if enchant_level >= ench.min_level_required() && roll < 30 {
                let cap = enchant_level / 3 + 1;
                let max = if ench.max_level() <= cap { ench.max_level() } else { cap };
                rng = lcg_next_exec(rng);
                let level = lcg_draw_exec(rng) % max + 1;
                result.push((ench, level));
            }
            k += 1;
        }
        if result.len() == 0 && enchant_level >= 1 {
            rng = lcg_next_exec(rng);
            let idx = (lcg_draw_exec(rng) % 6) as usize;
            result.push((all[idx], 1));
        }
        result
    }
}

/// Eligibility at the table: enchantment `e`, considered with generator
/// state `rng`, is granted exactly when the table's level is at least `e`'s
/// minimum and the roll (the generator advanced once, drawn below 100) is
/// under 30, so a table at exactly the minimum qualifies. A granted level
/// lies from 1 up to both `e`'s maximum and a third of the table level plus one.
pub proof fn lemma_consider_grants(e: Enchantment, enchant_level: u32, rng: u64)
    ensures
        consider(e, enchant_level, rng).1 is Some <==> (enchant_level >= e.min_level_required() && lcg_draw(
            lcg_next(rng),
        ) % 100 < 30),
        consider(e, enchant_level, rng).1 matches Some(x) ==> x.0 == e && 1 <= x.1 <= e.max_level() && x.1
            <= enchant_level / 3 + 1,
{
    let after_roll = lcg_next(rng);
    if enchant_level >= e.min_level_required() && lcg_draw(after_roll) % 100 < 30 {
        let cap = enchant_level / 3 + 1;
        let max: int = if e.max_level() <= cap { e.max_level() as int } else { cap as int };
        let after_level = lcg_next(after_roll);
        assert(lcg_draw(after_level) % (max as nat) < max) by (nonlinear_arith)
            requires max >= 1;
    }
}

/// Efficiency, the first enchantment the table considers, needs only level
/// 1: a table of level 1 or more whose first roll is under 30 grants it
/// first. A table of level 0 grants nothing.
pub proof fn lemma_first_roll_grants_efficiency(enchant_level: u32, seed: u64)
    ensures
        enchant_level >= 1 && lcg_draw(lcg_next(seed)) % 100 < 30 ==> enchantments_for(enchant_level, seed).len() > 0
            && enchantments_for(enchant_level, seed)[0].0 == Enchantment::Efficiency,
        enchant_level == 0 ==> enchantments_for(enchant_level, seed).len() == 0,
{
    lemma_consider_grants(Enchantment::Efficiency, enchant_level, seed);
    lemma_consider_first_prefix(enchant_level, seed, 6);
    if enchant_level == 0 {
        lemma_nothing_at_level_zero(seed, 6);
    }
}

/// The first grant, once made, stays first while more are considered.
proof fn lemma_consider_first_prefix(enchant_level: u32, seed: u64, k: nat)
    requires
        1 <= k,
    ensures
        consider(Enchantment::Efficiency, enchant_level, seed).1 matches Some(x) ==> consider_first(
            enchant_level,
            seed,
            k,
        ).1.len() > 0 && consider_first(enchant_level, seed, k).1[0] == x,
    decreases k,
{
    let prev = consider_first(enchant_level, seed, (k - 1) as nat);
    let c = consider(enchantment_at(k - 1), enchant_level, prev.0);
    assert(consider_first(enchant_level, seed, k).1 == match c.1 {
        Some(x) => prev.1.push(x),
        None => prev.1,
    });
    if k == 1 {
        assert(prev.0 == seed && prev.1.len() == 0);
        assert(enchantment_at(0) == Enchantment::Efficiency);
    } else {
        lemma_consider_first_prefix(enchant_level, seed, (k - 1) as nat);
    }
}

/// A table of level 0 meets no minimum.
proof fn lemma_nothing_at_level_zero(seed: u64, k: nat)
    ensures
        consider_first(0, seed, k).1.len() == 0,
    decreases k,
{
    if k > 0 {
        lemma_nothing_at_level_zero(seed, (k - 1) as nat);
    }
}

/// Every enchantment granted has a level from 1 up to its maximum; at most
/// six are granted, each enchantment at most once; and a table of level 1 or
/// more always grants at least one.
pub proof fn lemma_enchantments_well_formed(enchant_level: u32, seed: u64)
    ensures
        forall|i: int|
            0 <= i < enchantments_for(enchant_level, seed).len() ==> {
                let (e, l) = #[trigger] enchantments_for(enchant_level, seed)[i];
                1 <= l <= e.max_level()
            },
        enchantments_for(enchant_level, seed).len() <= 6,
        forall|i: int, j: int|
            0 <= i < j < enchantments_for(enchant_level, seed).len() ==> #[trigger] enchantments_for(
                enchant_level,
                seed,
            )[i].0 != #[trigger] enchantments_for(enchant_level, seed)[j].0,
        enchant_level >= 1 ==> enchantments_for(enchant_level, seed).len() >= 1,
{
    lemma_consider_first(enchant_level, seed, 6);
}

/// The index in the table's order of an enchantment.
pub open spec fn order_of(e: Enchantment) -> int {
    match e {
        Enchantment::Efficiency => 0,
        Enchantment::Fortune => 1,
        Enchantment::Sharpness => 2,
        Enchantment::Protection => 3,
        Enchantment::Unbreaking => 4,
        Enchantment::SilkTouch => 5,
    }
}

proof fn lemma_consider_first(enchant_level: u32, seed: u64, k: nat)
    requires
        k <= 6,
    ensures
        ({
            let g = consider_first(enchant_level, seed, k).1;
            &&& g.len() <= k
            &&& forall|i: int| 0 <= i < g.len() ==> {
                let (e, l) = #[trigger] g[i];
                &&& 1 <= l <= e.max_level()
                &&& order_of(e) < k
            }
            &&& forall|i: int, j: int| 0 <= i < j < g.len() ==> order_of(#[trigger] g[i].0) < order_of(#[trigger] g[j].0)
        }),
    decreases k,
{
    if k > 0 {
        lemma_consider_first(enchant_level, seed, (k - 1) as nat);
        let (rng, granted) = consider_first(enchant_level, seed, (k - 1) as nat);
        let e = enchantment_at(k - 1);
        assert(order_of(e) == k - 1);
        let r1 = lcg_next(rng);
        if enchant_level >= e.min_level_required() && lcg_draw(r1) % 100 < 30 {
            let cap = enchant_level / 3 + 1;
            let max: int = if e.max_level() <= cap { e.max_level() as int } else { cap };
            let r2 = lcg_next(r1);
            assert(max >= 1);
            assert(lcg_draw(r2) % (max as nat) + 1 <= max);
        }
    }
}

/// An inventory slot's item and the enchantments it carries.
#[derive(Debug, Clone)]
pub struct EnchantedItem {
    pub item_index: usize,
    pub enchantments: Vec<(Enchantment, u32)>,
}

} // verus!
