use survivors::collision::{
    classify_pair, physics_collision_system, sweep_projectile, Body, BodyKind, CollisionEvent, CollisionType,
};
use survivors::geometry::{circles_overlap, distance_squared, isqrt, segment_near, Point};
use survivors::physics::{displace, separation_displacements};

fn pt(x: i64, y: i64) -> Point {
    Point { x, y }
}

fn body(x: i64, y: i64, r: i64, kind: BodyKind) -> Body {
    Body { pos: pt(x, y), radius: r, kind }
}

#[test]
fn squared_distance_is_exact() {
    assert_eq!(distance_squared(pt(0, 0), pt(3, 4)), 25);
    assert_eq!(distance_squared(pt(-2, 5), pt(1, 1)), 25);
}

#[test]
fn circles_touching_at_exactly_the_radius_sum_overlap() {
    assert!(circles_overlap(pt(0, 0), 10, pt(20, 0), 10));
    assert!(!circles_overlap(pt(0, 0), 10, pt(21, 0), 10));
}

#[test]
fn segment_passing_near_a_point_is_detected() {
    assert!(segment_near(pt(0, 0), pt(100, 0), pt(50, 5), 5));
    assert!(!segment_near(pt(0, 0), pt(100, 0), pt(50, 6), 5));
    assert!(segment_near(pt(0, 0), pt(100, 0), pt(103, 4), 5));
    assert!(!segment_near(pt(0, 0), pt(100, 0), pt(-4, 4), 5));
    assert!(segment_near(pt(7, 7), pt(7, 7), pt(10, 11), 5));
}

#[test]
fn integer_square_root_rounds_down() {
    assert_eq!(isqrt(0), 0);
    assert_eq!(isqrt(99), 9);
    assert_eq!(isqrt(100), 10);
    assert_eq!(isqrt(u64::MAX), 0xFFFF_FFFF);
}

#[test]
fn pair_kinds_come_from_body_kinds() {
    assert_eq!(classify_pair(BodyKind::Enemy, BodyKind::Player), Some(CollisionType::PlayerEnemy));
    assert_eq!(classify_pair(BodyKind::Enemy, BodyKind::Enemy), Some(CollisionType::EnemyEnemy));
    assert_eq!(classify_pair(BodyKind::AreaEffect, BodyKind::Enemy), Some(CollisionType::AreaEnemy));
    assert_eq!(classify_pair(BodyKind::Player, BodyKind::Pickup), Some(CollisionType::PlayerPickup));
    assert_eq!(classify_pair(BodyKind::Projectile, BodyKind::Enemy), None);
    assert_eq!(classify_pair(BodyKind::Player, BodyKind::AreaEffect), None);
}

#[test]
fn contacts_list_touching_pairs_in_order() {
    let bodies = vec![
        body(0, 0, 14, BodyKind::Player),
        body(20, 0, 14, BodyKind::Enemy),
        body(40, 0, 14, BodyKind::Enemy),
        body(500, 0, 14, BodyKind::Enemy),
        body(10, 0, 8, BodyKind::Projectile),
    ];
    let contacts = physics_collision_system(&bodies);
    assert_eq!(
        contacts,
        vec![
            CollisionEvent { entity_a: 0, entity_b: 1, collision_type: CollisionType::PlayerEnemy },
            CollisionEvent { entity_a: 1, entity_b: 2, collision_type: CollisionType::EnemyEnemy },
        ]
    );
}

#[test]
fn contacts_of_no_bodies_are_empty() {
    assert!(physics_collision_system(&Vec::new()).is_empty());
}

#[test]
fn fast_projectile_does_not_tunnel_through_a_thin_target() {
    // Sub-step positions are 0, 100, 200, 300: none lies within reach of the
    // target at 150, but the path from 100 to 200 passes through it.
    let targets = vec![body(150, 0, 4, BodyKind::Enemy)];
    assert_eq!(sweep_projectile(pt(0, 0), pt(100, 0), 1, &targets), Some(0));
}

#[test]
fn sweep_reports_the_first_target_found() {
    let targets = vec![body(300, 0, 5, BodyKind::Enemy), body(5, 0, 5, BodyKind::Enemy)];
    assert_eq!(sweep_projectile(pt(0, 0), pt(100, 0), 1, &targets), Some(1));
    let both_first = vec![body(0, 3, 5, BodyKind::Enemy), body(0, -3, 5, BodyKind::Enemy)];
    assert_eq!(sweep_projectile(pt(0, 0), pt(10, 0), 1, &both_first), Some(0));
}

#[test]
fn sweep_misses_targets_off_the_path() {
    let targets = vec![body(150, 50, 4, BodyKind::Enemy)];
    assert_eq!(sweep_projectile(pt(0, 0), pt(100, 0), 1, &targets), None);
    assert_eq!(sweep_projectile(pt(0, 0), pt(100, 0), 1, &Vec::new()), None);
}

#[test]
fn separation_pushes_overlapping_player_and_enemy_apart() {
    // Distance 10, combined radius 20, force 5 per tick.
    let bodies = vec![body(0, 0, 10, BodyKind::Player), body(10, 0, 10, BodyKind::Enemy)];
    let pushes = separation_displacements(&bodies, 5);
    assert_eq!(pushes, vec![pt(-2, 0), pt(2, 0)]);
    let a = displace(bodies[0].pos, pushes[0]);
    let b = displace(bodies[1].pos, pushes[1]);
    let before = distance_squared(bodies[0].pos, bodies[1].pos);
    let after = distance_squared(a, b);
    assert!(after > before);
    assert_eq!(after, 14 * 14);
}

#[test]
fn separation_ignores_distant_and_non_pushing_bodies() {
    let bodies = vec![
        body(0, 0, 10, BodyKind::Enemy),
        body(100, 0, 10, BodyKind::Enemy),
        body(1, 0, 10, BodyKind::Pickup),
    ];
    let pushes = separation_displacements(&bodies, 5);
    assert_eq!(pushes, vec![pt(0, 0), pt(0, 0), pt(0, 0)]);
}

#[test]
fn separation_sums_pushes_from_every_neighbour() {
    let bodies = vec![
        body(-10, 0, 10, BodyKind::Enemy),
        body(0, 0, 10, BodyKind::Enemy),
        body(10, 0, 10, BodyKind::Enemy),
    ];
    let pushes = separation_displacements(&bodies, 5);
    // The middle body is pushed equally from both sides.
    assert_eq!(pushes[1], pt(0, 0));
    assert_eq!(pushes[0].x, -pushes[2].x);
    assert!(pushes[0].x < 0);
}

#[test]
fn coincident_bodies_are_split_along_x() {
    let bodies = vec![body(0, 0, 10, BodyKind::Enemy), body(0, 0, 10, BodyKind::Enemy)];
    let pushes = separation_displacements(&bodies, 5);
    assert_eq!(pushes, vec![pt(-5, 0), pt(5, 0)]);
}

#[test]
fn displacement_stops_at_the_arena_edge() {
    let limit = survivors::geometry::COORD_LIMIT;
    let p = displace(pt(limit - 1, 0), pt(10, -3));
    assert_eq!(p, pt(limit, -3));
}
