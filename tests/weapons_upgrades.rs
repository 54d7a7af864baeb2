use survivors::combat::Health;
use survivors::geometry::Point;
use survivors::types::Rarity;
use survivors::upgrade::{
    handle_generic_upgrade, apply_weapon_upgrade, GenericUpgrade, LevelUpOffer, UpgradeChoice, UpgradePool,
    UpgradeType, WeaponUpgradeChange, WeaponUpgradeConfig, WeaponUpgradeSpec,
};
use survivors::weapons::{
    attack_damage, attack_radius, cooldown_duration, offset_distance, spawn_attacks, spawn_magick_circle,
    spawn_weapon, tick_cooldown, weapon_firing, AreaMultiplier, CooldownReduction, DamageMultiplier, Luck,
    PatternType, PlayerModifiers, WeaponArea, WeaponCooldown, WeaponDamage, WeaponMeta, WeaponType,
};

fn neutral() -> PlayerModifiers {
    PlayerModifiers {
        cooldown_reduction: CooldownReduction::default(),
        damage: DamageMultiplier::default(),
        area: AreaMultiplier::default(),
    }
}

fn changes(choice: &UpgradeChoice) -> Vec<WeaponUpgradeChange> {
    match &choice.upgrade_type {
        UpgradeType::Weapon(_, s) => s.changes.clone(),
        UpgradeType::Generic(_) => Vec::new(),
    }
}

#[test]
fn effective_cooldown_applies_bonus_and_reduction() {
    let c = WeaponCooldown { elapsed: 0, base_duration: 3500, cooldown_bonus: 0 };
    assert_eq!(cooldown_duration(&c, CooldownReduction { percent: 0 }), 3500);
    let faster = WeaponCooldown { elapsed: 0, base_duration: 3500, cooldown_bonus: -10 };
    assert_eq!(cooldown_duration(&faster, CooldownReduction { percent: 20 }), 2520);
    let gone = WeaponCooldown { elapsed: 0, base_duration: 3500, cooldown_bonus: -200 };
    assert_eq!(cooldown_duration(&gone, CooldownReduction { percent: 0 }), 0);
}

#[test]
fn effective_damage_and_radius_round_down() {
    let d = WeaponDamage { base_amount: 10, damage_bonus: 20 };
    assert_eq!(attack_damage(&d, DamageMultiplier { percent: 150 }), 18);
    let a = WeaponArea { base_radius: 64, area_bonus: 10 };
    assert_eq!(attack_radius(&a, AreaMultiplier { percent: 100 }), 70);
    assert_eq!(offset_distance(70), 105);
}

#[test]
fn firing_timer_repeats_and_carries_over() {
    let mut c = WeaponCooldown { elapsed: 3000, base_duration: 3500, cooldown_bonus: 0 };
    assert!(tick_cooldown(&mut c, 600, CooldownReduction::default()));
    assert_eq!(c.elapsed, 100);
    assert!(!tick_cooldown(&mut c, 0, CooldownReduction::default()));
    assert_eq!(c.elapsed, 100);
    assert!(!tick_cooldown(&mut c, 3399, CooldownReduction::default()));
    assert_eq!(c.elapsed, 3499);
}

#[test]
fn paused_timer_neither_fires_nor_resets() {
    // A cooldown upgrade shortened the interval below the progress made.
    let mut c = WeaponCooldown { elapsed: 3000, base_duration: 3500, cooldown_bonus: -50 };
    assert!(!tick_cooldown(&mut c, 0, CooldownReduction::default()));
    assert_eq!(c.elapsed, 3000);
    let mut zero = WeaponCooldown { elapsed: 0, base_duration: 0, cooldown_bonus: 0 };
    assert!(!tick_cooldown(&mut zero, 0, CooldownReduction::default()));
    assert!(tick_cooldown(&mut zero, 1, CooldownReduction::default()));
    assert!(tick_cooldown(&mut c, 1, CooldownReduction::default()));
    assert_eq!(c.elapsed, 3001 % 1750);
}

#[test]
fn one_attack_per_pattern_first_on_the_owner() {
    let mut w = spawn_magick_circle();
    w.circle.patterns.push(PatternType::Banishment);
    w.circle.patterns.push(PatternType::Binding);
    let owner = Point { x: 10, y: 10 };
    let offsets = vec![Point { x: 96, y: 0 }, Point { x: -96, y: 0 }];
    let spawns = spawn_attacks(&w, neutral(), owner, &offsets);
    assert_eq!(spawns.len(), 3);
    assert_eq!(spawns[0].pos, owner);
    assert_eq!(spawns[1].pos, Point { x: 106, y: 10 });
    assert_eq!(spawns[2].pos, Point { x: -86, y: 10 });
    assert_eq!(spawns[2].pattern, PatternType::Binding);
    assert!(spawns.iter().all(|a| a.damage == 10 && a.radius == 64 && a.lifetime == 3000 && a.tick_rate == 500));
}

#[test]
fn weapon_fires_only_when_its_timer_runs_out() {
    let mut w = spawn_weapon(WeaponType::MagickCircle);
    let owner = Point { x: 0, y: 0 };
    assert!(weapon_firing(&mut w, neutral(), 3000, owner, &Vec::new()).is_empty());
    let shot = weapon_firing(&mut w, neutral(), 500, owner, &Vec::new());
    assert_eq!(shot.len(), 1);
    assert_eq!(w.cooldown.elapsed, 0);
}

#[test]
fn default_player_modifiers() {
    assert_eq!(CooldownReduction::default().percent, 0);
    assert_eq!(DamageMultiplier::default().percent, 100);
    assert_eq!(AreaMultiplier::default().percent, 100);
    assert_eq!(Luck::default().0, 20);
    assert_eq!(WeaponCooldown::default().base_duration, 1000);
}

#[test]
fn next_upgrade_is_the_tier_at_the_weapon_level() {
    let cfg = WeaponUpgradeConfig::new();
    let at1 = cfg.get_next_upgrades(WeaponType::MagickCircle, 1);
    assert_eq!(at1.len(), 1);
    assert_eq!(at1[0].changes, vec![WeaponUpgradeChange::AddCircle { pattern: PatternType::Banishment }]);
    let at0 = cfg.get_next_upgrades(WeaponType::MagickCircle, 0);
    assert_eq!(at0[0].changes, vec![WeaponUpgradeChange::Damage(2), WeaponUpgradeChange::Area(1)]);
}

#[test]
fn past_the_progression_the_limit_breaks_are_offered() {
    let cfg = WeaponUpgradeConfig::default();
    let lb = cfg.get_next_upgrades(WeaponType::MagickCircle, 7);
    let all: Vec<Vec<WeaponUpgradeChange>> = lb.iter().map(|s| s.changes.clone()).collect();
    assert_eq!(
        all,
        vec![
            vec![WeaponUpgradeChange::Damage(2)],
            vec![WeaponUpgradeChange::Area(2)],
            vec![WeaponUpgradeChange::Duration(2)],
            vec![WeaponUpgradeChange::Cooldown(-2)],
        ]
    );
}

#[test]
fn weapon_upgrades_follow_the_owned_weapons() {
    let cfg = WeaponUpgradeConfig::new();
    let owned = vec![
        WeaponMeta { weapon_type: WeaponType::MagickCircle, level: 1 },
        WeaponMeta { weapon_type: WeaponType::MagickCircle, level: 9 },
    ];
    let offers = UpgradePool::generate_weapon_upgrades(&cfg, &owned);
    assert_eq!(offers.len(), 5);
    assert_eq!(changes(&offers[0]), vec![WeaponUpgradeChange::AddCircle { pattern: PatternType::Banishment }]);
    assert_eq!(changes(&offers[4]), vec![WeaponUpgradeChange::Cooldown(-2)]);
    assert!(offers.iter().all(|c| c.rarity == Rarity::Common));
    assert!(offers.iter().all(|c| c.description == "Magick Circle upgrade"));
    assert!(UpgradePool::generate_weapon_upgrades(&cfg, &Vec::new()).is_empty());
}

#[test]
fn generic_choices_heal_and_grant_resources() {
    let g = UpgradePool::generate_generic_choices();
    assert_eq!(g.len(), 2);
    assert!(matches!(g[0].upgrade_type, UpgradeType::Generic(GenericUpgrade::HealthPickup(20))));
    assert!(matches!(g[1].upgrade_type, UpgradeType::Generic(GenericUpgrade::ResourcePickup(100))));
    assert_eq!(GenericUpgrade::HealthPickup(1).to_string(), "Philosopher's Elixir");
    assert_eq!(GenericUpgrade::ResourcePickup(1).to_string(), "Void Shards");
}

#[test]
fn luck_roll_decides_a_fourth_choice() {
    assert_eq!(UpgradePool::calculate_count(&Luck(20), 39), 4);
    assert_eq!(UpgradePool::calculate_count(&Luck(20), 40), 3);
    assert_eq!(UpgradePool::calculate_count(&Luck(0), 0), 3);
    assert_eq!(UpgradePool::calculate_count(&Luck(-5), 0), 3);
    assert_eq!(UpgradePool::calculate_count(&Luck(50), 99), 4);
}

#[test]
fn picked_choices_come_in_pick_order() {
    let cfg = WeaponUpgradeConfig::new();
    let owned = vec![WeaponMeta { weapon_type: WeaponType::MagickCircle, level: 8 }];
    let pool = UpgradePool::generate_weapon_upgrades(&cfg, &owned);
    let picked = UpgradePool::select_picked(&pool, &vec![2, 0]);
    assert_eq!(picked.len(), 2);
    assert_eq!(changes(&picked[0]), vec![WeaponUpgradeChange::Duration(2)]);
    assert_eq!(changes(&picked[1]), vec![WeaponUpgradeChange::Damage(2)]);
}

#[test]
fn generics_fill_the_shortfall_in_turn() {
    let generics = UpgradePool::generate_generic_choices();
    let filled = UpgradePool::fill_with_generics(Vec::new(), 3, &generics, &vec![1, 0]);
    assert_eq!(filled.len(), 3);
    assert!(matches!(filled[0].upgrade_type, UpgradeType::Generic(GenericUpgrade::ResourcePickup(100))));
    assert!(matches!(filled[1].upgrade_type, UpgradeType::Generic(GenericUpgrade::HealthPickup(20))));
    assert!(matches!(filled[2].upgrade_type, UpgradeType::Generic(GenericUpgrade::ResourcePickup(100))));
}

#[test]
fn generated_choices_offer_weapon_upgrades_first_and_fill_to_count() {
    let cfg = WeaponUpgradeConfig::new();
    let pool = UpgradePool::new();
    let owned = vec![WeaponMeta { weapon_type: WeaponType::MagickCircle, level: 1 }];
    for _ in 0..20 {
        let choices = pool.generate_choices(&cfg, &Luck(20), &owned);
        assert!(choices.len() == 3 || choices.len() == 4);
        assert!(matches!(choices[0].upgrade_type, UpgradeType::Weapon(WeaponType::MagickCircle, _)));
        assert!(choices[1..].iter().all(|c| matches!(c.upgrade_type, UpgradeType::Generic(_))));
    }
}

#[test]
fn generated_choices_sample_when_there_are_too_many() {
    let cfg = WeaponUpgradeConfig::new();
    let pool = UpgradePool::default();
    let owned = vec![
        WeaponMeta { weapon_type: WeaponType::MagickCircle, level: 8 },
        WeaponMeta { weapon_type: WeaponType::MagickCircle, level: 8 },
    ];
    for _ in 0..20 {
        let choices = pool.generate_choices(&cfg, &Luck(0), &owned);
        assert_eq!(choices.len(), 3);
        assert!(choices.iter().all(|c| matches!(c.upgrade_type, UpgradeType::Weapon(..))));
    }
}

#[test]
fn sampled_choices_do_not_repeat() {
    let cfg = WeaponUpgradeConfig::new();
    let pool = UpgradePool::new();
    let owned = vec![WeaponMeta { weapon_type: WeaponType::MagickCircle, level: 8 }];
    for _ in 0..20 {
        let choices = pool.generate_choices(&cfg, &Luck(0), &owned);
        assert_eq!(choices.len(), 3);
        let all: Vec<Vec<WeaponUpgradeChange>> = choices.iter().map(changes).collect();
        assert!(all[0] != all[1] && all[0] != all[2] && all[1] != all[2]);
    }
}

#[test]
fn upgrade_adds_its_deltas_and_patterns() {
    let mut w = spawn_magick_circle();
    let spec = WeaponUpgradeSpec {
        changes: vec![
            WeaponUpgradeChange::AddCircle { pattern: PatternType::Banishment },
            WeaponUpgradeChange::Damage(1),
            WeaponUpgradeChange::Area(1),
            WeaponUpgradeChange::Damage(2),
            WeaponUpgradeChange::Cooldown(-2),
            WeaponUpgradeChange::Duration(2),
        ],
    };
    apply_weapon_upgrade(&mut w, &spec);
    assert_eq!(w.damage.damage_bonus, 3);
    assert_eq!(w.area.area_bonus, 1);
    assert_eq!(w.cooldown.cooldown_bonus, -2);
    assert_eq!(w.circle.patterns, vec![PatternType::Banishment, PatternType::Banishment]);
    assert_eq!(w.meta.level, 2);
}

#[test]
fn confirming_twice_applies_once() {
    let choice = UpgradeChoice {
        upgrade_type: UpgradeType::Weapon(
            WeaponType::MagickCircle,
            WeaponUpgradeSpec { changes: vec![WeaponUpgradeChange::Damage(2), WeaponUpgradeChange::Area(1)] },
        ),
        description: "Magick Circle upgrade".to_string(),
        rarity: Rarity::Common,
    };
    let mut offer = LevelUpOffer::new(vec![choice]);
    let mut weapons = vec![spawn_magick_circle()];
    let mut health = Health { current: 50, maximum: 100 };
    assert!(offer.confirm(0, &mut weapons, &mut health));
    assert_eq!(weapons[0].damage.damage_bonus, 2);
    assert!(!offer.confirm(0, &mut weapons, &mut health));
    assert_eq!(weapons[0].damage.damage_bonus, 2);
    assert_eq!(weapons[0].area.area_bonus, 1);
    assert_eq!(weapons[0].meta.level, 2);
    assert!(offer.resolved);
    assert!(offer.choices.is_empty());
}

#[test]
fn confirming_out_of_range_does_nothing() {
    let mut offer = LevelUpOffer::new(UpgradePool::generate_generic_choices());
    let mut weapons = vec![spawn_magick_circle()];
    let mut health = Health { current: 50, maximum: 100 };
    assert!(!offer.confirm(5, &mut weapons, &mut health));
    assert!(!offer.resolved);
    assert!(offer.confirm(0, &mut weapons, &mut health));
    assert_eq!(health.current, 70);
}

#[test]
fn healing_stops_at_the_maximum() {
    let mut h = Health { current: 90, maximum: 100 };
    handle_generic_upgrade(GenericUpgrade::HealthPickup(20), &mut h);
    assert_eq!(h.current, 100);
    handle_generic_upgrade(GenericUpgrade::ResourcePickup(100), &mut h);
    assert_eq!(h.current, 100);
}

#[test]
fn display_names_of_weapons_and_patterns() {
    assert_eq!(WeaponType::MagickCircle.to_string(), "Magick Circle");
    assert_eq!(PatternType::Manifestation.to_string(), "Manifestation");
}
