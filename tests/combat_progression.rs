use survivors::combat::{
    handle_damage, projectile_hit, DamageCooldown, Health, HitOutcome, LastDamageTime, ProjectileStats, Target,
};
use survivors::experience::{calculate_experience_needed, Experience};
use survivors::lifecycle::{mark_for_death, LifeState};
use survivors::types::{EquipmentType, StatType};

fn enemy_target(hp: i64) -> Target {
    Target { health: Some(Health { current: hp, maximum: hp }), cooldown: None, state: LifeState::Active }
}

#[test]
fn damage_without_cooldown_is_never_rate_limited() {
    let mut t = enemy_target(50);
    assert!(handle_damage(&mut t, 10, 0));
    assert!(handle_damage(&mut t, 10, 0));
    assert_eq!(t.health.unwrap().current, 30);
    assert_eq!(t.state, LifeState::Active);
}

#[test]
fn damage_respects_the_target_cooldown() {
    let mut t = Target {
        health: Some(Health { current: 100, maximum: 100 }),
        cooldown: Some(DamageCooldown { time: 0, cooldown: 250 }),
        state: LifeState::Active,
    };
    assert!(!handle_damage(&mut t, 5, 100));
    assert!(handle_damage(&mut t, 5, 250));
    assert!(!handle_damage(&mut t, 5, 499));
    assert!(handle_damage(&mut t, 5, 500));
    assert_eq!(t.health.unwrap().current, 90);
    assert_eq!(t.cooldown.unwrap().time, 500);
}

#[test]
fn lethal_damage_marks_for_death_and_keeps_overkill() {
    let mut t = enemy_target(20);
    assert!(handle_damage(&mut t, 1000, 7));
    assert_eq!(t.health.unwrap().current, -980);
    assert_eq!(t.state, LifeState::MarkedForDeath);
    assert!(handle_damage(&mut t, 5, 8));
    assert_eq!(t.state, LifeState::MarkedForDeath);
}

#[test]
fn default_cooldowns_are_a_quarter_second() {
    assert_eq!(DamageCooldown::default(), DamageCooldown { time: 0, cooldown: 250 });
    assert_eq!(LastDamageTime::default(), LastDamageTime { time: 0, cooldown: 250 });
}

#[test]
fn single_pierce_projectile_kills_and_is_spent_on_the_same_hit() {
    let mut p = ProjectileStats { damage: 25, pierce: 1, retrigger: 100, last_hit: None };
    let mut ps = LifeState::Active;
    let mut t = enemy_target(20);
    assert_eq!(ps, LifeState::Active);
    let r = projectile_hit(&mut p, &mut ps, &mut t, 0);
    assert_eq!(r, HitOutcome::Hit { killed: true });
    assert_eq!(t.state, LifeState::MarkedForDeath);
    assert_eq!(t.health.unwrap().current, -5);
    assert_eq!(p.pierce, 0);
    assert_eq!(ps, LifeState::MarkedForDeath);
}

#[test]
fn piercing_projectile_survives_until_its_budget_is_spent() {
    let mut p = ProjectileStats { damage: 5, pierce: 2, retrigger: 100, last_hit: None };
    let mut ps = LifeState::Active;
    let mut a = enemy_target(20);
    let mut b = enemy_target(20);
    assert_eq!(projectile_hit(&mut p, &mut ps, &mut a, 0), HitOutcome::Hit { killed: false });
    assert_eq!((p.pierce, ps), (1, LifeState::Active));
    // Too soon after the last hit: dropped, nothing spent.
    assert_eq!(projectile_hit(&mut p, &mut ps, &mut b, 50), HitOutcome::Ignored);
    assert_eq!(b.health.unwrap().current, 20);
    assert_eq!(p.pierce, 1);
    assert_eq!(projectile_hit(&mut p, &mut ps, &mut b, 100), HitOutcome::Hit { killed: false });
    assert_eq!((p.pierce, ps), (0, LifeState::MarkedForDeath));
}

#[test]
fn spent_projectile_never_goes_below_zero() {
    let mut p = ProjectileStats { damage: 5, pierce: 0, retrigger: 0, last_hit: None };
    let mut ps = LifeState::Active;
    let mut t = enemy_target(20);
    projectile_hit(&mut p, &mut ps, &mut t, 0);
    assert_eq!(p.pierce, 0);
    assert_eq!(ps, LifeState::MarkedForDeath);
}

#[test]
fn marking_twice_is_marking_once() {
    let mut s = LifeState::Active;
    mark_for_death(&mut s);
    mark_for_death(&mut s);
    assert_eq!(s, LifeState::MarkedForDeath);
    let mut d = LifeState::MarkedForDespawn;
    mark_for_death(&mut d);
    assert_eq!(d, LifeState::MarkedForDespawn);
}

#[test]
fn thresholds_grow_by_a_quarter() {
    assert_eq!(calculate_experience_needed(1), Some(100));
    assert_eq!(calculate_experience_needed(2), Some(125));
    assert_eq!(calculate_experience_needed(3), Some(156));
    assert_eq!(calculate_experience_needed(4), Some(195));
    assert_eq!(calculate_experience_needed(5), Some(243));
    assert!(calculate_experience_needed(100).unwrap() > calculate_experience_needed(99).unwrap());
    assert!(calculate_experience_needed(150).unwrap() > calculate_experience_needed(149).unwrap());
}

#[test]
fn level_up_banks_the_overflow() {
    let mut e = Experience { current: 90, level: 1 };
    assert_eq!(e.gain(30), 1);
    assert_eq!(e, Experience { current: 20, level: 2 });
}

#[test]
fn large_reward_resolves_several_levels() {
    let mut e = Experience::new();
    assert_eq!(e.gain(100 + 125 + 10), 2);
    assert_eq!(e, Experience { current: 10, level: 3 });
    assert!(e.current < calculate_experience_needed(e.level).unwrap());
}

#[test]
fn reward_below_threshold_only_banks() {
    let mut e = Experience::new();
    assert_eq!(e.gain(99), 0);
    assert_eq!(e, Experience { current: 99, level: 1 });
}

#[test]
fn thresholds_past_the_u64_range_are_unreachable() {
    let last = (1..400).take_while(|l| calculate_experience_needed(*l).is_some()).last().unwrap();
    assert!(last > 150);
    assert_eq!(calculate_experience_needed(last + 1), None);
    let mut e = Experience { current: 0, level: last + 1 };
    assert_eq!(e.gain(u32::MAX), 0);
    assert_eq!(e, Experience { current: u32::MAX as u64, level: last + 1 });
}

#[test]
fn a_full_bank_keeps_levelling_past_fifty() {
    let mut e = Experience { current: 0, level: 50 };
    let need = calculate_experience_needed(50).unwrap();
    e.current = need - 1;
    assert_eq!(e.gain(1), 1);
    assert_eq!(e, Experience { current: 0, level: 51 });
    let mut big = Experience { current: 0, level: 49 };
    let levels = big.gain(u32::MAX);
    assert!(levels >= 1);
    assert!(big.current < calculate_experience_needed(big.level).unwrap());
}

#[test]
fn display_names_of_kinds() {
    assert_eq!(EquipmentType::Amulet.to_string(), "Amulet");
    assert_eq!(StatType::Defense.to_string(), "Defense");
}
