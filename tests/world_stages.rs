use survivors::collision::{Body, BodyKind};
use survivors::combat::{DamageEvent, Health, ProjectileStats, Target};
use survivors::experience::Experience;
use survivors::geometry::{distance_squared, Point};
use survivors::lifecycle::LifeState;
use survivors::weapons::{spawn_magick_circle, AreaMultiplier, CooldownReduction, DamageMultiplier, PatternType, PlayerModifiers};
use survivors::world::{AreaHit, AttackState, EffectKind, Entity, EntityDeathEvent, FrameInput, Vacuumable, World};

fn pt(x: i64, y: i64) -> Point {
    Point { x, y }
}

fn attack(pos: Point, radius: i64, damage: i64, pattern: PatternType) -> Entity {
    Entity {
        id: 0,
        body: Body { pos, radius, kind: BodyKind::AreaEffect },
        velocity: pt(0, 0),
        speed: 0,
        target: Target { health: None, cooldown: None, state: LifeState::Active },
        projectile: None,
        attack: Some(AttackState { damage, pattern, lifetime: 3000, tick_rate: 500, last_tick: 0 }),
        reward: None,
        bound_by: None,
    }
}

fn health_of(w: &World, i: usize) -> i64 {
    w.entities[i].target.health.unwrap().current
}

#[test]
fn two_attacks_on_one_enemy_give_two_damage_events() {
    let mut w = World::new();
    w.spawn(Entity::enemy(pt(0, 0), 0)).unwrap();
    w.spawn(attack(pt(5, 0), 20, 5, PatternType::Banishment)).unwrap();
    w.spawn(attack(pt(-5, 0), 20, 5, PatternType::Banishment)).unwrap();
    let hits = w.area_effect_system(500);
    assert_eq!(
        hits,
        vec![
            AreaHit { attack: 1, enemy: 0, effect: EffectKind::Damage(5) },
            AreaHit { attack: 2, enemy: 0, effect: EffectKind::Damage(5) },
        ]
    );
    assert_eq!(health_of(&w, 0), 10);
    // Both attacks now wait for their own interval.
    assert!(w.area_effect_system(700).is_empty());
    assert_eq!(w.area_effect_system(1000).len(), 2);
    assert_eq!(health_of(&w, 0), 0);
}

#[test]
fn attacks_scan_on_their_own_interval() {
    let mut w = World::new();
    w.spawn(Entity::enemy(pt(0, 0), 0)).unwrap();
    let mut late = attack(pt(0, 0), 20, 5, PatternType::Banishment);
    late.attack = Some(AttackState { damage: 5, pattern: PatternType::Banishment, lifetime: 3000, tick_rate: 500, last_tick: 400 });
    w.spawn(late).unwrap();
    w.spawn(attack(pt(0, 0), 20, 5, PatternType::Binding)).unwrap();
    w.spawn(attack(pt(0, 0), 20, 5, PatternType::Protection)).unwrap();
    let hits = w.area_effect_system(500);
    assert_eq!(hits, vec![AreaHit { attack: 2, enemy: 0, effect: EffectKind::Binding }]);
    assert_eq!(health_of(&w, 0), 20);
    assert_eq!(w.entities[0].bound_by, Some(w.entities[2].id));
    assert_eq!(w.entities[1].bound_by, None);
}

#[test]
fn several_lethal_hits_give_one_death_event() {
    let mut w = World::new();
    w.spawn(Entity::player(pt(1000, 1000))).unwrap();
    let enemy = w.spawn(Entity::enemy(pt(0, 0), 0)).unwrap();
    w.spawn(attack(pt(0, 0), 20, 25, PatternType::Banishment)).unwrap();
    w.spawn(attack(pt(0, 0), 20, 25, PatternType::Banishment)).unwrap();
    assert_eq!(w.area_effect_system(500).len(), 2);
    assert_eq!(w.entities[1].target.state, LifeState::MarkedForDeath);
    let events = w.death_system();
    assert_eq!(events, vec![EntityDeathEvent { entity: enemy, position: pt(0, 0), exp_value: Some(50) }]);
    assert_eq!(w.kills, 1);
    assert_eq!(w.entities[1].target.state, LifeState::MarkedForDespawn);
    assert!(w.death_system().is_empty());
    w.cleanup_marked_entities();
    assert_eq!(w.entities.len(), 3);
    assert!(w.entities.iter().all(|e| e.id != enemy));
}

#[test]
fn player_death_ends_the_run_without_an_event() {
    let mut w = World::new();
    let mut p = Entity::player(pt(0, 0));
    p.target.health = Some(Health { current: 0, maximum: 100 });
    w.spawn(p).unwrap();
    let mut e = Entity::enemy(pt(50, 50), 0);
    e.target.state = LifeState::MarkedForDeath;
    w.spawn(e).unwrap();
    assert!(w.death_system().is_empty());
    assert!(w.game_over);
    assert_eq!(w.entities[0].target.state, LifeState::MarkedForDespawn);
    assert_eq!(w.entities[1].target.state, LifeState::MarkedForDeath);
    assert_eq!(w.kills, 0);
}

#[test]
fn touching_enemies_hurt_the_player_under_its_cooldown() {
    let mut w = World::new();
    w.spawn(Entity::player(pt(0, 0))).unwrap();
    w.spawn(Entity::enemy(pt(20, 0), 0)).unwrap();
    w.spawn(Entity::enemy(pt(0, -20), 0)).unwrap();
    w.spawn(Entity::enemy(pt(300, 0), 0)).unwrap();
    w.handle_player_enemy_collision(300);
    assert_eq!(health_of(&w, 0), 98);
    w.handle_player_enemy_collision(400);
    assert_eq!(health_of(&w, 0), 98);
    w.handle_player_enemy_collision(550);
    assert_eq!(health_of(&w, 0), 96);
}

#[test]
fn projectile_stage_hits_once_and_moves() {
    let mut w = World::new();
    let stats = ProjectileStats { damage: 25, pierce: 1, retrigger: 0, last_hit: None };
    w.spawn(Entity::projectile(pt(0, 0), pt(25, 0), stats)).unwrap();
    w.spawn(Entity::enemy(pt(60, 0), 0)).unwrap();
    w.spawn(Entity::enemy(pt(62, 0), 0)).unwrap();
    w.projectile_physics_system(0);
    assert_eq!(w.entities[0].body.pos, pt(100, 0));
    assert_eq!(w.entities[0].projectile.unwrap().pierce, 0);
    assert_eq!(w.entities[0].target.state, LifeState::MarkedForDeath);
    assert_eq!(w.entities[1].target.state, LifeState::MarkedForDeath);
    assert_eq!(health_of(&w, 1), -5);
    assert_eq!(health_of(&w, 2), 20);
}

#[test]
fn projectile_leaving_the_arena_is_marked() {
    let mut w = World::new();
    let limit = survivors::geometry::COORD_LIMIT;
    let stats = ProjectileStats { damage: 1, pierce: 3, retrigger: 0, last_hit: None };
    w.spawn(Entity::projectile(pt(limit - 10, 0), pt(10, 0), stats)).unwrap();
    w.projectile_physics_system(0);
    assert_eq!(w.entities[0].target.state, LifeState::MarkedForDeath);
    assert_eq!(w.entities[0].projectile.unwrap().pierce, 3);
}

#[test]
fn movement_separates_an_overlapping_enemy_from_the_player() {
    let mut w = World::new();
    w.spawn(Entity::player(pt(0, 0))).unwrap();
    w.spawn(Entity::enemy(pt(10, 0), 0)).unwrap();
    let before = distance_squared(w.entities[0].body.pos, w.entities[1].body.pos);
    w.apply_movement_system(pt(0, 0), 5);
    let after = distance_squared(w.entities[0].body.pos, w.entities[1].body.pos);
    assert!(after > before);
    assert_eq!(w.entities[0].body.pos, pt(-3, 0));
    assert_eq!(w.entities[1].body.pos, pt(13, 0));
}

#[test]
fn enemies_chase_the_player_and_the_player_follows_input() {
    let mut w = World::new();
    w.spawn(Entity::player(pt(0, 0))).unwrap();
    w.spawn(Entity::enemy(pt(300, 400), 10)).unwrap();
    w.apply_movement_system(pt(3, -4), 5);
    assert_eq!(w.entities[0].body.pos, pt(3, -4));
    assert_eq!(w.entities[1].body.pos, pt(294, 392));
}

#[test]
fn attacks_expire_into_death() {
    let mut w = World::new();
    w.spawn(attack(pt(0, 0), 20, 5, PatternType::Banishment)).unwrap();
    w.attack_lifetime_system(1000);
    assert_eq!(w.entities[0].attack.unwrap().lifetime, 2000);
    assert_eq!(w.entities[0].target.state, LifeState::Active);
    w.attack_lifetime_system(2500);
    assert_eq!(w.entities[0].attack.unwrap().lifetime, 0);
    assert_eq!(w.entities[0].target.state, LifeState::MarkedForDeath);
}

#[test]
fn weapons_fire_around_the_player() {
    let mut w = World::new();
    w.spawn(Entity::player(pt(5, 5))).unwrap();
    let mut weapon = spawn_magick_circle();
    weapon.circle.patterns.push(PatternType::Banishment);
    let mut weapons = vec![weapon];
    let mods = PlayerModifiers {
        cooldown_reduction: CooldownReduction { percent: 0 },
        damage: DamageMultiplier { percent: 200 },
        area: AreaMultiplier { percent: 100 },
    };
    let offsets = vec![vec![pt(96, 0)]];
    assert_eq!(w.weapon_firing_system(&mut weapons, mods, 1000, &offsets), 0);
    assert_eq!(w.weapon_firing_system(&mut weapons, mods, 2500, &offsets), 2);
    assert_eq!(w.entities.len(), 3);
    assert_eq!(w.entities[1].body.pos, pt(5, 5));
    assert_eq!(w.entities[2].body.pos, pt(101, 5));
    assert_eq!(w.entities[2].attack.unwrap().damage, 20);
    assert_eq!(w.entities[2].body.radius, 64);
}

#[test]
fn weapons_idle_without_a_player() {
    let mut w = World::new();
    let mut weapons = vec![spawn_magick_circle()];
    let mods = PlayerModifiers {
        cooldown_reduction: CooldownReduction::default(),
        damage: DamageMultiplier::default(),
        area: AreaMultiplier::default(),
    };
    assert_eq!(w.weapon_firing_system(&mut weapons, mods, 10_000, &Vec::new()), 0);
    assert_eq!(weapons[0].cooldown.elapsed, 0);
}

#[test]
fn orbs_carry_rewards_to_the_player() {
    let mut w = World::new();
    w.spawn(Entity::player(pt(0, 0))).unwrap();
    let events = vec![
        EntityDeathEvent { entity: 7, position: pt(10, 0), exp_value: Some(60) },
        EntityDeathEvent { entity: 8, position: pt(500, 0), exp_value: Some(50) },
        EntityDeathEvent { entity: 9, position: pt(0, 0), exp_value: None },
    ];
    w.spawn_experience_orbs(&events);
    assert_eq!(w.entities.len(), 3);
    assert_eq!(w.entities[1].body.kind, BodyKind::Pickup);
    let mut exp = Experience { current: 50, level: 1 };
    assert_eq!(w.collect_experience_orbs(&mut exp), 1);
    assert_eq!(exp, Experience { current: 10, level: 2 });
    assert_eq!(w.entities[1].target.state, LifeState::MarkedForDespawn);
    assert_eq!(w.entities[2].target.state, LifeState::Active);
    w.cleanup_marked_entities();
    assert_eq!(w.entities.len(), 2);
}

#[test]
fn spawned_entities_get_fresh_ids() {
    let mut w = World::new();
    let a = w.spawn(Entity::enemy(pt(0, 0), 1)).unwrap();
    let b = w.spawn(Entity::enemy(pt(0, 0), 1)).unwrap();
    assert_ne!(a, b);
    assert_eq!(w.next_id, 2);
}

#[test]
fn ticks_run_the_stages_in_order() {
    let mut w = World::new();
    w.spawn(Entity::player(pt(0, 0))).unwrap();
    let enemy = w.spawn(Entity::enemy(pt(50, 0), 0)).unwrap();
    let mut weapons = vec![spawn_magick_circle()];
    let mut exp = Experience::new();
    let mods = PlayerModifiers {
        cooldown_reduction: CooldownReduction::default(),
        damage: DamageMultiplier::default(),
        area: AreaMultiplier::default(),
    };
    let offsets: Vec<Vec<Point>> = Vec::new();
    let frame = |now: u64, dt: u64| FrameInput { now, dt, player_move: pt(0, 0), separation_force: 5, modifiers: mods, magnet: Vacuumable::default() };
    let r1 = w.tick(&frame(3500, 3500), &mut weapons, &offsets, &mut exp);
    assert_eq!(r1.attacks_spawned, 1);
    assert!(r1.deaths.is_empty());
    assert_eq!(health_of(&w, 1), 20);
    let r2 = w.tick(&frame(4000, 500), &mut weapons, &offsets, &mut exp);
    assert!(r2.deaths.is_empty());
    assert_eq!(health_of(&w, 1), 10);
    let r3 = w.tick(&frame(4500, 500), &mut weapons, &offsets, &mut exp);
    assert_eq!(r3.deaths, vec![EntityDeathEvent { entity: enemy, position: pt(50, 0), exp_value: Some(50) }]);
    assert_eq!(w.kills, 1);
    assert!(w.entities.iter().all(|e| e.id != enemy));
    // The orb the enemy dropped is out of the player's reach.
    assert!(w.entities.iter().any(|e| e.body.kind == BodyKind::Pickup));
    assert_eq!(r3.levels_gained, 0);
}

#[test]
fn damage_events_reach_their_targets_by_id() {
    let mut w = World::new();
    let player = w.spawn(Entity::player(pt(0, 0))).unwrap();
    let enemy = w.spawn(Entity::enemy(pt(100, 0), 0)).unwrap();
    let events = vec![
        DamageEvent { target: enemy, amount: 5, source: None },
        DamageEvent { target: 99, amount: 5, source: None },
        DamageEvent { target: enemy, amount: -3, source: None },
        DamageEvent { target: player, amount: 7, source: Some(enemy) },
        DamageEvent { target: player, amount: 7, source: Some(enemy) },
    ];
    w.handle_damage_events(&events, 1000);
    assert_eq!(health_of(&w, 1), 15);
    // The player's cooldown drops the second of two simultaneous events.
    assert_eq!(health_of(&w, 0), 93);
}

#[test]
fn orbs_in_range_are_pulled_toward_the_player() {
    let mut w = World::new();
    w.spawn(Entity::player(pt(0, 0))).unwrap();
    let events = vec![
        EntityDeathEvent { entity: 1, position: pt(100, 0), exp_value: Some(5) },
        EntityDeathEvent { entity: 2, position: pt(0, 3), exp_value: Some(5) },
        EntityDeathEvent { entity: 3, position: pt(0, -200), exp_value: Some(5) },
    ];
    w.spawn_experience_orbs(&events);
    w.vacuum_system(Vacuumable::default());
    assert_eq!(w.entities[1].body.pos, pt(94, 0));
    // A close orb stops on the player rather than passing it.
    assert_eq!(w.entities[2].body.pos, pt(0, 0));
    assert_eq!(w.entities[3].body.pos, pt(0, -200));
}

#[test]
fn without_a_player_orbs_stay_put() {
    let mut w = World::new();
    w.spawn_experience_orbs(&vec![EntityDeathEvent { entity: 1, position: pt(10, 0), exp_value: Some(5) }]);
    w.vacuum_system(Vacuumable::default());
    assert_eq!(w.entities[0].body.pos, pt(10, 0));
}
