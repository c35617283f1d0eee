use termcraft::xp::{Enchantment, Experience};

#[test]
fn level_costs() {
    assert_eq!(Experience::xp_for_level(0), 7);
    assert_eq!(Experience::xp_for_level(16), 39);
    assert_eq!(Experience::xp_for_level(17), 47);
    assert_eq!(Experience::xp_for_level(31), 117);
    assert_eq!(Experience::xp_for_level(32), 130);
}

#[test]
fn adding_points_levels_up() {
    let mut xp = Experience::new();
    xp.add(7);
    assert_eq!((xp.level, xp.points, xp.total_earned), (1, 0, 7));
    let mut xp = Experience::new();
    xp.add(100);
    assert_eq!((xp.level, xp.points, xp.total_earned), (7, 9, 100));
    xp.add(20);
    assert_eq!((xp.level, xp.points, xp.total_earned), (8, 8, 120));
}

#[test]
fn points_below_next_cost_and_none_lost() {
    let mut xp = Experience::new();
    let mut spent_to_reach = 0u32;
    for amount in [3u32, 50, 1, 200, 17, 999] {
        xp.add(amount);
        assert!(xp.points < Experience::xp_for_level(xp.level));
    }
    for l in 0..xp.level {
        spent_to_reach += Experience::xp_for_level(l);
    }
    assert_eq!(spent_to_reach + xp.points, xp.total_earned);
}

#[test]
fn spending_levels() {
    let mut xp = Experience { level: 5, points: 3, total_earned: 70 };
    assert!(xp.spend(2));
    assert_eq!(xp.level, 3);
    assert!(!xp.spend(4));
    assert_eq!(xp.level, 3);
    assert!(xp.spend(3));
    assert_eq!(xp.level, 0);
    assert_eq!(xp.points, 3);
}

#[test]
fn enchantment_tables() {
    assert_eq!(Enchantment::SilkTouch.name(), "Silk Touch");
    assert_eq!(Enchantment::Efficiency.name(), "Efficiency");
    assert_eq!(Enchantment::Efficiency.max_level(), 5);
    assert_eq!(Enchantment::Fortune.max_level(), 3);
    assert_eq!(Enchantment::SilkTouch.max_level(), 1);
    assert_eq!(Enchantment::Sharpness.min_level_required(), 1);
    assert_eq!(Enchantment::Protection.min_level_required(), 5);
    assert_eq!(Enchantment::SilkTouch.min_level_required(), 10);
}

#[test]
fn generated_enchantments() {
    assert_eq!(Enchantment::generate_for_level(0, 1), vec![]);
    assert_eq!(Enchantment::generate_for_level(1, 1), vec![(Enchantment::Efficiency, 1)]);
    assert_eq!(Enchantment::generate_for_level(30, 42), vec![(Enchantment::Efficiency, 4), (Enchantment::Protection, 2)]);
    assert_eq!(Enchantment::generate_for_level(30, 7), vec![(Enchantment::Fortune, 3), (Enchantment::Protection, 3)]);
    assert_eq!(Enchantment::generate_for_level(10, 123456789), vec![(Enchantment::Sharpness, 2)]);
    assert_eq!(Enchantment::generate_for_level(30, 3), vec![(Enchantment::Fortune, 2), (Enchantment::Protection, 1)]);
}

#[test]
fn generated_enchantments_well_formed() {
    for level in 0..40u32 {
        for seed in 0..50u64 {
            let e = Enchantment::generate_for_level(level, seed * 7919 + 13);
            assert!(e.len() <= 6);
            if level >= 1 {
                assert!(!e.is_empty());
            }
            for (i, (a, l)) in e.iter().enumerate() {
                assert!(*l >= 1 && *l <= a.max_level());
                for (b, _) in &e[i + 1..] {
                    assert_ne!(a, b);
                }
            }
        }
    }
}
