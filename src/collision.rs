use vstd::prelude::*;

use crate::geometry::{
    circles_overlap, circles_touch, segment_near, segment_within, Point, RADIUS_LIMIT,
};

verus! {

/// What a body stands for in the arena; collision kinds are derived from it.
#[derive(Clone, Copy, Debug, PartialEq, Eq, Structural)]
pub enum BodyKind {
    Player,
    Enemy,
    Projectile,
    AreaEffect,
    Pickup,
}

/// A circle-shaped collidable body.
#[derive(Clone, Copy, Debug, PartialEq, Eq, Structural)]
pub struct Body {
    pub pos: Point,
    pub radius: i64,
    pub kind: BodyKind,
}

impl Body {
    /// The centre lies in the arena and the radius is within bounds.
    pub open spec fn wf(self) -> bool {
        self.pos.in_arena() && 0 <= self.radius <= RADIUS_LIMIT
    }
}

/// Semantic kind of an overlapping pair.
#[derive(Clone, Copy, Debug, PartialEq, Eq, Structural)]
pub enum CollisionType {
    PlayerEnemy,
    ProjectileEnemy,
    EnemyEnemy,
    AreaEnemy,
    PlayerPickup,
}

/// A pair of bodies, by index, that touch this tick, with its kind.
#[derive(Clone, Copy, Debug, PartialEq, Eq, Structural)]
pub struct CollisionEvent {
    pub entity_a: usize,
    pub entity_b: usize,
    pub collision_type: CollisionType,
}

/// Number of sub-steps a fast body's motion is divided into each tick.
pub const COLLISION_SUBSTEPS: i64 = 4;

/// Largest number of bodies the detector handles at once.
pub const MAX_BODIES: usize = 0x10_0000;

pub open spec fn all_wf(bodies: Seq<Body>) -> bool {
    forall|i: int| 0 <= i < bodies.len() ==> (#[trigger] bodies[i]).wf()
}

/// The kind of the pair `(a, b)`, or `None` for pairs that the standard pass
/// does not report (projectiles are handled by the swept pass).
pub open spec fn kind_of(a: BodyKind, b: BodyKind) -> Option<CollisionType> {
    match (a, b) {
        (BodyKind::Enemy, BodyKind::Enemy) => Some(CollisionType::EnemyEnemy),
        (BodyKind::Player, BodyKind::Enemy) => Some(CollisionType::PlayerEnemy),
        (BodyKind::Enemy, BodyKind::Player) => Some(CollisionType::PlayerEnemy),
        (BodyKind::AreaEffect, BodyKind::Enemy) => Some(CollisionType::AreaEnemy),
        (BodyKind::Enemy, BodyKind::AreaEffect) => Some(CollisionType::AreaEnemy),
        (BodyKind::Player, BodyKind::Pickup) => Some(CollisionType::PlayerPickup),
        (BodyKind::Pickup, BodyKind::Player) => Some(CollisionType::PlayerPickup),
        _ => None,
    }
}

/// Classifies a pair of bodies by their kinds.
pub fn classify_pair(a: BodyKind, b: BodyKind) -> (r: Option<CollisionType>)
    ensures
        r == kind_of(a, b),
{
    match (a, b) {
        (BodyKind::Enemy, BodyKind::Enemy) => Some(CollisionType::EnemyEnemy),
        (BodyKind::Player, BodyKind::Enemy) => Some(CollisionType::PlayerEnemy),
        (BodyKind::Enemy, BodyKind::Player) => Some(CollisionType::PlayerEnemy),
        (BodyKind::AreaEffect, BodyKind::Enemy) => Some(CollisionType::AreaEnemy),
        (BodyKind::Enemy, BodyKind::AreaEffect) => Some(CollisionType::AreaEnemy),
        (BodyKind::Player, BodyKind::Pickup) => Some(CollisionType::PlayerPickup),
        (BodyKind::Pickup, BodyKind::Player) => Some(CollisionType::PlayerPickup),
        _ => None,
    }
}

pub open spec fn bodies_touch(a: Body, b: Body) -> bool {
    circles_touch(a.pos, a.radius as int, b.pos, b.radius as int)
}

/// The contact of bodies `i` and `j`, if they touch and their pair has a kind.
pub open spec fn pair_contact(bodies: Seq<Body>, i: int, j: int) -> Seq<CollisionEvent> {
    if bodies_touch(bodies[i], bodies[j]) && kind_of(bodies[i].kind, bodies[j].kind) is Some {
        seq![
            CollisionEvent {
                entity_a: i as usize,
                entity_b: j as usize,
                collision_type: kind_of(bodies[i].kind, bodies[j].kind)->0,
            },
        ]
    } else {
        seq![]
    }
}

/// Contacts `(i, j)` for `i < j < end`, in increasing `j`.
pub open spec fn row_contacts(bodies: Seq<Body>, i: int, end: int) -> Seq<CollisionEvent>
    decreases end - i,
{
    if end <= i + 1 {
        seq![]
    } else {
        row_contacts(bodies, i, end - 1) + pair_contact(bodies, i, end - 1)
    }
}

/// Contacts `(i, j)` for `i < rows` and `i < j < bodies.len()`, in
/// lexicographic order.
pub open spec fn contacts_upto(bodies: Seq<Body>, rows: int) -> Seq<CollisionEvent>
    decreases rows,
{
    if rows <= 0 {
        seq![]
    } else {
        contacts_upto(bodies, rows - 1) + row_contacts(bodies, rows - 1, bodies.len() as int)
    }
}

/// Every touching pair `i < j` of bodies whose kinds form a collision kind,
/// once each, in lexicographic order of `(i, j)`.
pub open spec fn all_contacts(bodies: Seq<Body>) -> Seq<CollisionEvent> {
    contacts_upto(bodies, bodies.len() as int)
}

/// Whether two bodies touch or overlap.
pub fn touching(a: &Body, b: &Body) -> (r: bool)
    requires
        a.wf(),
        b.wf(),
    ensures
        r == bodies_touch(*a, *b),
{
    circles_overlap(a.pos, a.radius, b.pos, b.radius)
}

/// The standard pass: all touching pairs of bodies, tagged with their kind.
pub fn physics_collision_system(bodies: &Vec<Body>) -> (r: Vec<CollisionEvent>)
    requires
        all_wf(bodies@),
    ensures
        r@ == all_contacts(bodies@),
{
    let n = bodies.len();
    let mut out: Vec<CollisionEvent> = Vec::new();
    let mut i: usize = 0;
    while i < n
        invariant
            n == bodies@.len(),
            i <= n,
            all_wf(bodies@),
            out@ == contacts_upto(bodies@, i as int),
        decreases n - i,
    {
        let mut j: usize = i + 1;
        while j < n
            invariant
                n == bodies@.len(),
                i < n,
                i + 1 <= j <= n,
                all_wf(bodies@),
                out@ == contacts_upto(bodies@, i as int) + row_contacts(bodies@, i as int, j as int),
            decreases n - j,
        {
            let a = &bodies[i];
            let b = &bodies[j];
            let hit = touching(a, b);
            let kind = classify_pair(a.kind, b.kind);
            proof {
                assert(row_contacts(bodies@, i as int, j + 1) == row_contacts(bodies@, i as int, j as int)
                    + pair_contact(bodies@, i as int, j as int));
            }
            if hit {
                if let Some(k) = kind {
                    out.push(CollisionEvent { entity_a: i, entity_b: j, collision_type: k });
                }
            }
            proof {
                assert(out@ == contacts_upto(bodies@, i as int) + row_contacts(bodies@, i as int, j + 1));
            }
            j = j + 1;
        }
        i = i + 1;
    }
    out
}

/// Where a body that starts at `start` and moves by `step` each sub-step is
/// after `s` sub-steps.
pub open spec fn substep_pos(start: Point, step: Point, s: int) -> Point {
    Point { x: (start.x + s * step.x) as i64, y: (start.y + s * step.y) as i64 }
}

/// The whole motion of a fast body for one tick stays in the arena.
pub open spec fn sweep_in_arena(start: Point, step: Point) -> bool {
    &&& start.in_arena()
    &&& crate::geometry::coord_ok(start.x + COLLISION_SUBSTEPS * step.x)
    &&& crate::geometry::coord_ok(start.y + COLLISION_SUBSTEPS * step.y)
}

/// At sub-step `s` the fast body of radius `radius` registers a hit on
/// `target`: either its position at that sub-step lies in reach of the target,
/// or the path to its next position passes in reach of it.
pub open spec fn substep_hit(start: Point, step: Point, radius: int, target: Body, s: int) -> bool {
    let here = substep_pos(start, step, s);
    let next = substep_pos(start, step, s + 1);
    circles_touch(here, radius, target.pos, target.radius as int)
        || segment_within(here, next, target.pos, radius + target.radius)
}

/// No target registers a hit at a sub-step before `s`, nor at sub-step `s` on
/// a target before `k`.
pub open spec fn no_hit_before(
    start: Point,
    step: Point,
    radius: int,
    targets: Seq<Body>,
    s: int,
    k: int,
) -> bool {
    &&& forall|s2: int, k2: int|
        0 <= s2 < s && 0 <= k2 < targets.len() ==> !#[trigger] substep_hit(start, step, radius, targets[k2], s2)
    &&& forall|k2: int| 0 <= k2 < k ==> !#[trigger] substep_hit(start, step, radius, targets[k2], s)
}

/// Target `k` is the first one hit, in the order the swept pass searches.
pub open spec fn first_hit_at(start: Point, step: Point, radius: int, targets: Seq<Body>, k: int) -> bool {
    &&& 0 <= k < targets.len()
    &&& exists|s: int|
        0 <= s < COLLISION_SUBSTEPS
        && #[trigger] substep_hit(start, step, radius, targets[k], s)
        && no_hit_before(start, step, radius, targets, s, k)
}

/// The target the swept pass hits first, if any.
pub open spec fn first_hit(start: Point, step: Point, radius: int, targets: Seq<Body>) -> Option<int> {
    if exists|k: int| first_hit_at(start, step, radius, targets, k) {
        Some(choose|k: int| first_hit_at(start, step, radius, targets, k))
    } else {
        None
    }
}

proof fn lemma_first_hit_unique(start: Point, step: Point, radius: int, targets: Seq<Body>, a: int, b: int)
    requires
        first_hit_at(start, step, radius, targets, a),
        first_hit_at(start, step, radius, targets, b),
    ensures
        a == b,
{
    let sa = choose|s: int|
        0 <= s < COLLISION_SUBSTEPS && #[trigger] substep_hit(start, step, radius, targets[a], s) && no_hit_before(
            start,
            step,
            radius,
            targets,
            s,
            a,
        );
    let sb = choose|s: int|
        0 <= s < COLLISION_SUBSTEPS && #[trigger] substep_hit(start, step, radius, targets[b], s) && no_hit_before(
            start,
            step,
            radius,
            targets,
            s,
            b,
        );
    if sa < sb {
        assert(!substep_hit(start, step, radius, targets[a], sa));
    } else if sb < sa {
        assert(!substep_hit(start, step, radius, targets[b], sb));
    } else if a < b {
        assert(!substep_hit(start, step, radius, targets[a], sb));
    } else if b < a {
        assert(!substep_hit(start, step, radius, targets[b], sa));
    }
}

/// No tunnelling: when the swept motion of a fast body reaches any target at
/// any sub-step, the swept pass has a first hit.
pub proof fn lemma_hit_has_first(start: Point, step: Point, radius: int, targets: Seq<Body>, s: int, k: int)
    requires
        0 <= s < COLLISION_SUBSTEPS,
        0 <= k < targets.len(),
        substep_hit(start, step, radius, targets[k], s),
    ensures
        first_hit(start, step, radius, targets) is Some,
    decreases s, k,
{
    if no_hit_before(start, step, radius, targets, s, k) {
        assert(first_hit_at(start, step, radius, targets, k));
    } else if exists|s2: int, k2: int|
        0 <= s2 < s && 0 <= k2 < targets.len() && #[trigger] substep_hit(start, step, radius, targets[k2], s2) {
        let (s2, k2) = choose|s2: int, k2: int|
            0 <= s2 < s && 0 <= k2 < targets.len() && #[trigger] substep_hit(start, step, radius, targets[k2], s2);
        lemma_hit_has_first(start, step, radius, targets, s2, k2);
    } else {
        let k2 = choose|k2: int| 0 <= k2 < k && #[trigger] substep_hit(start, step, radius, targets[k2], s);
        lemma_hit_has_first(start, step, radius, targets, s, k2);
    }
}

proof fn lemma_substep_in_arena(start: Point, step: Point, s: int)
    requires
        sweep_in_arena(start, step),
        0 <= s <= COLLISION_SUBSTEPS,
    ensures
        substep_pos(start, step, s).in_arena(),
        substep_pos(start, step, s).x == start.x + s * step.x,
        substep_pos(start, step, s).y == start.y + s * step.y,
{
    let l = crate::geometry::COORD_LIMIT as int;
    let x0 = start.x as int;
    let dx = step.x as int;
    let y0 = start.y as int;
    let dy = step.y as int;
    assert(-l <= x0 + s * dx <= l) by (nonlinear_arith)
        requires
            -l <= x0 <= l,
            -l <= x0 + 4 * dx <= l,
            0 <= s <= 4,
    ;
    assert(-l <= y0 + s * dy <= l) by (nonlinear_arith)
        requires
            -l <= y0 <= l,
            -l <= y0 + 4 * dy <= l,
            0 <= s <= 4,
    ;
}

fn position_at(start: Point, step: Point, s: i64) -> (r: Point)
    requires
        sweep_in_arena(start, step),
        0 <= s <= COLLISION_SUBSTEPS,
    ensures
        r == substep_pos(start, step, s as int),
        r.in_arena(),
{
    proof {
        lemma_substep_in_arena(start, step, s as int);
    }
    Point { x: start.x + s * step.x, y: start.y + s * step.y }
}

/// The swept pass for one fast body (a projectile) against the targets.
///
/// Sub-steps are examined in order and, within one, the targets in order; the
/// first hit found ends the search, so there is at most one result per body
/// per tick.
pub fn sweep_projectile(start: Point, step: Point, radius: i64, targets: &Vec<Body>) -> (r: Option<usize>)
    requires
        sweep_in_arena(start, step),
        0 <= radius <= RADIUS_LIMIT,
        all_wf(targets@),
    ensures
        r is None ==> no_hit_before(start, step, radius as int, targets@, COLLISION_SUBSTEPS as int, 0),
        r is Some ==> first_hit_at(start, step, radius as int, targets@, r->0 as int),
        first_hit(start, step, radius as int, targets@) == (if r is Some {
            Some(r->0 as int)
        } else {
            None::<int>
        }),
{
    let n = targets.len();
    let mut s: i64 = 0;
    while s < COLLISION_SUBSTEPS
        invariant
            n == targets@.len(),
            0 <= s <= COLLISION_SUBSTEPS,
            sweep_in_arena(start, step),
            0 <= radius <= RADIUS_LIMIT,
            all_wf(targets@),
            no_hit_before(start, step, radius as int, targets@, s as int, 0),
        decreases COLLISION_SUBSTEPS - s,
    {
        let here = position_at(start, step, s);
        let next = position_at(start, step, s + 1);
        let mut k: usize = 0;
        while k < n
            invariant
                n == targets@.len(),
                0 <= s < COLLISION_SUBSTEPS,
                k <= n,
                sweep_in_arena(start, step),
                0 <= radius <= RADIUS_LIMIT,
                all_wf(targets@),
                here == substep_pos(start, step, s as int),
                next == substep_pos(start, step, s + 1),
                here.in_arena(),
                next.in_arena(),
                no_hit_before(start, step, radius as int, targets@, s as int, k as int),
            decreases n - k,
        {
            let t = &targets[k];
            assert(t.wf());
            let hit = circles_overlap(here, radius, t.pos, t.radius)
                || segment_near(here, next, t.pos, radius + t.radius);
            if hit {
                assert(substep_hit(start, step, radius as int, targets@[k as int], s as int));
                assert(no_hit_before(start, step, radius as int, targets@, s as int, k as int));
                assert(exists|s1: int|
                    0 <= s1 < COLLISION_SUBSTEPS
                    && #[trigger] substep_hit(start, step, radius as int, targets@[k as int], s1)
                    && no_hit_before(start, step, radius as int, targets@, s1, k as int));
                proof {
                    assert(first_hit_at(start, step, radius as int, targets@, k as int));
                    let c = choose|c: int| first_hit_at(start, step, radius as int, targets@, c);
                    lemma_first_hit_unique(start, step, radius as int, targets@, c, k as int);
                }
                return Some(k);
            }
            k = k + 1;
        }
        proof {
            assert forall|s2: int, k2: int|
                0 <= s2 < s + 1 && 0 <= k2 < targets@.len() implies !#[trigger] substep_hit(
                start,
                step,
                radius as int,
                targets@[k2],
                s2,
            ) by {
                if s2 < s {
                } else {
                    assert(!substep_hit(start, step, radius as int, targets@[k2], s as int));
                }
            }
        }
        s = s + 1;
    }
    proof {
        if exists|c: int| first_hit_at(start, step, radius as int, targets@, c) {
            let c = choose|c: int| first_hit_at(start, step, radius as int, targets@, c);
            let sc = choose|t: int|
                0 <= t < COLLISION_SUBSTEPS && #[trigger] substep_hit(start, step, radius as int, targets@[c], t)
                    && no_hit_before(start, step, radius as int, targets@, t, c);
            assert(!substep_hit(start, step, radius as int, targets@[c], sc));
        }
    }
    None
}

} // verus!
