use vstd::prelude::*;

use crate::collision::{bodies_touch, touching, Body, BodyKind};
use crate::collision::{first_hit, substep_pos, sweep_in_arena, sweep_projectile, COLLISION_SUBSTEPS};
use crate::combat::{
    hit_result, damage_result, handle_damage, projectile_hit, DamageCooldown, DamageEvent, Health, ProjectileStats, Target,
    DAMAGE_LIMIT,
};
use crate::geometry::{coord_ok, COORD_LIMIT};
use crate::lifecycle::{mark_for_death, marked};
use crate::physics::{
    clamp_coord, displace, push_total, scale, scale_exec, separation_displacements, FORCE_LIMIT,
    SEPARATION_MARGIN,
};
use crate::geometry::{dist_sq, distance_squared, int_sqrt, isqrt, RADIUS_LIMIT};
use crate::collision::MAX_BODIES;
use crate::geometry::Point;
use crate::lifecycle::LifeState;
use crate::experience::{banked, resolve_levels, Experience};
use crate::weapons::{
    attack_spawns, effective_cooldown, timer_after, weapon_firing, AttackSpawn, PatternType, PlayerModifiers,
    Weapon,
};

verus! {

/// A live area-effect attack: what it deals, how long it has left, and when
/// it last scanned for enemies (milliseconds).
#[derive(Clone, Copy, Debug, PartialEq, Eq, Structural)]
pub struct AttackState {
    pub damage: i64,
    pub pattern: PatternType,
    pub lifetime: u64,
    pub tick_rate: u64,
    pub last_tick: u64,
}

/// One entity of the simulation.
#[derive(Clone, Copy, Debug, PartialEq, Eq, Structural)]
pub struct Entity {
    pub id: u64,
    pub body: Body,
    /// Displacement per sub-step, for projectiles.
    pub velocity: Point,
    /// Chase speed per tick, for enemies.
    pub speed: i64,
    pub target: Target,
    pub projectile: Option<ProjectileStats>,
    pub attack: Option<AttackState>,
    /// Experience granted on death (enemies) or on pickup (orbs).
    pub reward: Option<u32>,
    /// The id of the binding attack that last held this entity.
    pub bound_by: Option<u64>,
}

/// A death, as reported to reward and display systems.
#[derive(Clone, Copy, Debug, PartialEq, Eq, Structural)]
pub struct EntityDeathEvent {
    pub entity: u64,
    pub position: Point,
    pub exp_value: Option<u32>,
}

/// All entities of a run, with the id to give the next one, the kill count,
/// and whether the run is over.
#[derive(Debug)]
pub struct World {
    pub entities: Vec<Entity>,
    pub next_id: u64,
    pub kills: u32,
    pub game_over: bool,
}

pub open spec fn entity_ok(e: Entity) -> bool {
    &&& e.body.wf()
    &&& e.projectile is Some ==> e.projectile->0.wf()
    &&& e.attack is Some ==> 0 <= e.attack->0.damage <= DAMAGE_LIMIT
    &&& 0 <= e.speed <= FORCE_LIMIT
}

/// Every entity is well formed, ids are distinct and below `next_id`.
pub open spec fn entities_wf(es: Seq<Entity>, next_id: int) -> bool {
    &&& forall|i: int| 0 <= i < es.len() ==> entity_ok(#[trigger] es[i])
    &&& forall|i: int| 0 <= i < es.len() ==> (#[trigger] es[i]).id < next_id
    &&& forall|i: int, j: int| 0 <= i < j < es.len() ==> es[i].id != es[j].id
}

impl World {
    pub open spec fn wf(&self) -> bool {
        entities_wf(self.entities@, self.next_id as int)
    }

    /// An empty world.
    pub fn new() -> (r: Self)
        ensures
            r.wf(),
            r.entities@.len() == 0,
            r.kills == 0,
            !r.game_over,
    {
        World { entities: Vec::new(), next_id: 0, kills: 0, game_over: false }
    }

    /// Adds an entity under a fresh id, which is returned; `None` when ids
    /// are exhausted.
    pub fn spawn(&mut self, e: Entity) -> (r: Option<u64>)
        requires
            old(self).wf(),
            entity_ok(e),
        ensures
            final(self).wf(),
            final(self).kills == old(self).kills,
            final(self).game_over == old(self).game_over,
            match r {
                Some(id) => id == old(self).next_id && final(self).next_id == id + 1 && final(self).entities@
                    == old(self).entities@.push(Entity { id, ..e }),
                None => final(self).entities@ == old(self).entities@ && old(self).next_id == u64::MAX
                    && final(self).next_id == u64::MAX,
            },
    {
        if self.next_id == u64::MAX {
            return None;
        }
        let id = self.next_id;
        self.entities.push(Entity { id, ..e });
        self.next_id = id + 1;
        Some(id)
    }
}

pub open spec fn is_player(e: Entity) -> bool {
    e.body.kind == BodyKind::Player
}

/// A player whose health is exhausted and who is not yet removed.
pub open spec fn player_down(e: Entity) -> bool {
    &&& is_player(e)
    &&& e.target.state != LifeState::MarkedForDespawn
    &&& e.target.health is Some
    &&& e.target.health->0.current <= 0
}

/// The event for an entity marked for death; only enemies carry a reward.
pub open spec fn death_event(e: Entity) -> EntityDeathEvent {
    EntityDeathEvent {
        entity: e.id,
        position: e.body.pos,
        exp_value: if e.body.kind == BodyKind::Enemy { e.reward } else { None },
    }
}

/// One event per entity marked for death, in entity order.
pub open spec fn death_events(es: Seq<Entity>) -> Seq<EntityDeathEvent>
    decreases es.len(),
{
    if es.len() == 0 {
        seq![]
    } else {
        death_events(es.drop_last()) + if es.last().target.state == LifeState::MarkedForDeath {
            seq![death_event(es.last())]
        } else {
            seq![]
        }
    }
}

/// The number of enemies marked for death.
pub open spec fn enemy_deaths(es: Seq<Entity>) -> int
    decreases es.len(),
{
    if es.len() == 0 {
        0
    } else {
        enemy_deaths(es.drop_last()) + if es.last().target.state == LifeState::MarkedForDeath
            && es.last().body.kind == BodyKind::Enemy {
            1int
        } else {
            0
        }
    }
}

/// An entity after death resolution: marked for death becomes marked for
/// despawn.
pub open spec fn resolved(e: Entity) -> Entity {
    if e.target.state == LifeState::MarkedForDeath {
        Entity { target: Target { state: LifeState::MarkedForDespawn, ..e.target }, ..e }
    } else {
        e
    }
}

proof fn lemma_events_from(es: Seq<Entity>)
    ensures
        forall|k: int|
            0 <= k < death_events(es).len() ==> exists|j: int|
                0 <= j < es.len() && #[trigger] death_events(es)[k].entity == es[j].id,
    decreases es.len(),
{
    if es.len() > 0 {
        let pre = es.drop_last();
        lemma_events_from(pre);
        assert forall|k: int| 0 <= k < death_events(es).len() implies exists|j: int|
            0 <= j < es.len() && #[trigger] death_events(es)[k].entity == es[j].id by {
            if k < death_events(pre).len() {
                let j = choose|j: int| 0 <= j < pre.len() && death_events(pre)[k].entity == pre[j].id;
                assert(death_events(es)[k] == death_events(pre)[k]);
                assert(es[j] == pre[j]);
            } else {
                assert(death_events(es)[k].entity == es[es.len() - 1].id);
            }
        }
    }
}

/// Death resolution reports each entity at most once: with distinct entity
/// ids, the events carry distinct ids, however many lethal hits an entity
/// took.
pub proof fn lemma_one_event_per_entity(es: Seq<Entity>)
    requires
        forall|i: int, j: int| 0 <= i < j < es.len() ==> es[i].id != es[j].id,
    ensures
        forall|a: int, b: int|
            0 <= a < b < death_events(es).len() ==> death_events(es)[a].entity != death_events(es)[b].entity,
    decreases es.len(),
{
    if es.len() > 0 {
        let pre = es.drop_last();
        lemma_one_event_per_entity(pre);
        lemma_events_from(pre);
        let ev = death_events(es);
        let evp = death_events(pre);
        assert forall|a: int, b: int| 0 <= a < b < ev.len() implies ev[a].entity != ev[b].entity by {
            if b < evp.len() {
                assert(ev[a] == evp[a]);
                assert(ev[b] == evp[b]);
            } else {
                assert(ev[a] == evp[a]);
                let j = choose|j: int| 0 <= j < pre.len() && #[trigger] evp[a].entity == pre[j].id;
                assert(pre[j] == es[j]);
                assert(ev[b].entity == es[es.len() - 1].id);
            }
        }
    }
}

/// The entity once removed from play without a death event.
pub open spec fn despawned(e: Entity) -> Entity {
    Entity { target: Target { state: LifeState::MarkedForDespawn, ..e.target }, ..e }
}

/// The entities that survive cleanup, in order.
pub open spec fn kept(es: Seq<Entity>) -> Seq<Entity>
    decreases es.len(),
{
    if es.len() == 0 {
        seq![]
    } else {
        kept(es.drop_last()) + if es.last().target.state != LifeState::MarkedForDespawn {
            seq![es.last()]
        } else {
            seq![]
        }
    }
}

pub open spec fn any_player_down(es: Seq<Entity>) -> bool {
    exists|i: int| 0 <= i < es.len() && player_down(#[trigger] es[i])
}

pub open spec fn saturating_u32(v: int) -> u32 {
    if v > u32::MAX {
        u32::MAX
    } else {
        v as u32
    }
}

impl World {
    /// The death resolution stage.
    ///
    /// A player whose health is exhausted ends the run: the player is removed
    /// directly, no death event is sent, and nothing else is resolved this
    /// tick. Otherwise every entity marked for death yields one event, is
    /// marked for despawn, and counts as a kill when it is an enemy.
    pub fn death_system(&mut self) -> (events: Vec<EntityDeathEvent>)
        requires
            old(self).wf(),
        ensures
            final(self).wf(),
            final(self).next_id == old(self).next_id,
            any_player_down(old(self).entities@) ==> {
                &&& events@.len() == 0
                &&& final(self).game_over
                &&& final(self).kills == old(self).kills
                &&& final(self).entities@ == old(self).entities@.map_values(
                    |e: Entity| if player_down(e) { despawned(e) } else { e },
                )
            },
            !any_player_down(old(self).entities@) ==> {
                &&& events@ == death_events(old(self).entities@)
                &&& final(self).game_over == old(self).game_over
                &&& final(self).kills == saturating_u32(old(self).kills + enemy_deaths(old(self).entities@))
                &&& final(self).entities@ == old(self).entities@.map_values(|e: Entity| resolved(e))
            },
    {
        let ghost es0 = self.entities@;
        let n = self.entities.len();
        let mut any = false;
        let mut i: usize = 0;
        while i < n
            invariant
                n == self.entities@.len(),
                n == es0.len(),
                i <= n,
                self.next_id == old(self).next_id,
                self.kills == old(self).kills,
                self.game_over == old(self).game_over,
                entities_wf(es0, self.next_id as int),
                forall|k: int| 0 <= k < i ==> #[trigger] self.entities@[k] == (if player_down(es0[k]) { despawned(es0[k]) } else { es0[k] }),
                forall|k: int| i <= k < n ==> #[trigger] self.entities@[k] == es0[k],
                any == exists|k: int| 0 <= k < i && player_down(#[trigger] es0[k]),
            decreases n - i,
        {
            let e = self.entities[i];
            let down = match e.body.kind {
                BodyKind::Player => match e.target.health {
                    Some(h) => h.current <= 0 && e.target.state != LifeState::MarkedForDespawn,
                    None => false,
                },
                _ => false,
            };
            if down {
                let mut d = e;
                d.target.state = LifeState::MarkedForDespawn;
                self.entities.set(i, d);
                any = true;
            }
            i = i + 1;
        }
        if any {
            self.game_over = true;
            proof {
                assert(self.entities@ =~= es0.map_values(|e: Entity| if player_down(e) { despawned(e) } else { e }));
                assert forall|k: int| 0 <= k < self.entities@.len() implies entity_ok(#[trigger] self.entities@[k]) by {
                    assert(entity_ok(es0[k]));
                }
            }
            return Vec::new();
        }
        proof {
            assert(self.entities@ =~= es0);
        }
        let mut events: Vec<EntityDeathEvent> = Vec::new();
        let mut kills: u32 = self.kills;
        let mut i: usize = 0;
        while i < n
            invariant
                n == self.entities@.len(),
                n == es0.len(),
                i <= n,
                self.next_id == old(self).next_id,
                self.kills == old(self).kills,
                self.game_over == old(self).game_over,
                entities_wf(es0, self.next_id as int),
                forall|k: int| 0 <= k < i ==> #[trigger] self.entities@[k] == resolved(es0[k]),
                forall|k: int| i <= k < n ==> #[trigger] self.entities@[k] == es0[k],
                events@ == death_events(es0.take(i as int)),
                kills == saturating_u32(old(self).kills + enemy_deaths(es0.take(i as int))),
                0 <= enemy_deaths(es0.take(i as int)),
            decreases n - i,
        {
            let e = self.entities[i];
            proof {
                assert(es0.take(i + 1).drop_last() =~= es0.take(i as int));
                assert(es0.take(i + 1).last() == es0[i as int]);
            }
            if e.target.state == LifeState::MarkedForDeath {
                let is_enemy = match e.body.kind {
                    BodyKind::Enemy => true,
                    _ => false,
                };
                events.push(EntityDeathEvent {
                    entity: e.id,
                    position: e.body.pos,
                    exp_value: if is_enemy { e.reward } else { None },
                });
                if is_enemy {
                    kills = kills.saturating_add(1);
                }
                let mut d = e;
                d.target.state = LifeState::MarkedForDespawn;
                self.entities.set(i, d);
            }
            i = i + 1;
        }
        self.kills = kills;
        proof {
            assert(es0.take(n as int) =~= es0);
            assert(self.entities@ =~= es0.map_values(|e: Entity| resolved(e)));
            assert forall|k: int| 0 <= k < self.entities@.len() implies entity_ok(#[trigger] self.entities@[k]) by {
                assert(entity_ok(es0[k]));
            }
        }
        events
    }

    /// The cleanup stage: entities marked for despawn leave the world.
    pub fn cleanup_marked_entities(&mut self)
        requires
            old(self).wf(),
        ensures
            final(self).wf(),
            final(self).entities@ == kept(old(self).entities@),
            final(self).next_id == old(self).next_id,
            final(self).kills == old(self).kills,
            final(self).game_over == old(self).game_over,
    {
        let ghost es0 = self.entities@;
        let n = self.entities.len();
        let mut out: Vec<Entity> = Vec::new();
        let ghost mut src: Seq<int> = seq![];
        let mut i: usize = 0;
        while i < n
            invariant
                n == self.entities@.len(),
                self.entities@ == es0,
                i <= n,
                entities_wf(es0, self.next_id as int),
                out@ == kept(es0.take(i as int)),
                src.len() == out@.len(),
                forall|k: int| 0 <= k < src.len() ==> 0 <= #[trigger] src[k] < i && out@[k] == es0[src[k]],
                forall|a: int, b: int| 0 <= a < b < src.len() ==> src[a] < src[b],
            decreases n - i,
        {
            let e = self.entities[i];
            proof {
                assert(es0.take(i + 1).drop_last() =~= es0.take(i as int));
                assert(es0.take(i + 1).last() == es0[i as int]);
            }
            if e.target.state != LifeState::MarkedForDespawn {
                out.push(e);
                proof {
                    src = src.push(i as int);
                }
            }
            i = i + 1;
        }
        proof {
            assert(es0.take(n as int) =~= es0);
            assert forall|a: int, b: int| 0 <= a < b < out@.len() implies out@[a].id != out@[b].id by {
                assert(src[a] < src[b]);
            }
            assert forall|k: int| 0 <= k < out@.len() implies entity_ok(#[trigger] out@[k]) && out@[k].id < self.next_id by {
                assert(entity_ok(es0[src[k]]));
                assert(es0[src[k]].id < self.next_id);
            }
        }
        self.entities = out;
    }
}

/// What an area-effect attack does to one enemy it covers.
#[derive(Clone, Copy, Debug, PartialEq, Eq, Structural)]
pub enum EffectKind {
    Damage(i64),
    Binding,
}

/// One effect of attack `attack` on enemy `enemy`, by entity index.
#[derive(Clone, Copy, Debug, PartialEq, Eq, Structural)]
pub struct AreaHit {
    pub attack: usize,
    pub enemy: usize,
    pub effect: EffectKind,
}

/// The effect of a pattern: banishment damages, binding holds; the other
/// patterns have no effect yet and are skipped.
pub open spec fn pattern_effect(p: PatternType, damage: i64) -> Option<EffectKind> {
    match p {
        PatternType::Banishment => Some(EffectKind::Damage(damage)),
        PatternType::Binding => Some(EffectKind::Binding),
        _ => None,
    }
}

/// An active attack whose own scan interval has run out at `now`.
pub open spec fn attack_due(e: Entity, now: int) -> bool {
    &&& e.attack is Some
    &&& e.target.state == LifeState::Active
    &&& now >= e.attack->0.last_tick + e.attack->0.tick_rate
}

pub open spec fn is_active_enemy(e: Entity) -> bool {
    e.body.kind == BodyKind::Enemy && e.target.state == LifeState::Active
}

/// The hit of attack `a` on entity `j`, if `j` is an active enemy it covers
/// and its pattern has an effect.
pub open spec fn area_hit(es: Seq<Entity>, a: int, j: int) -> Seq<AreaHit> {
    let att = es[a].attack->0;
    if is_active_enemy(es[j]) && bodies_touch(es[a].body, es[j].body) && pattern_effect(att.pattern, att.damage) is Some {
        seq![AreaHit { attack: a as usize, enemy: j as usize, effect: pattern_effect(att.pattern, att.damage)->0 }]
    } else {
        seq![]
    }
}

/// Hits of attack `a` on entities `0..end`.
pub open spec fn area_row(es: Seq<Entity>, a: int, end: int) -> Seq<AreaHit>
    decreases end,
{
    if end <= 0 {
        seq![]
    } else {
        area_row(es, a, end - 1) + area_hit(es, a, end - 1)
    }
}

/// Hits of the due attacks among entities `0..rows`: each due attack scans
/// independently, so two attacks covering one enemy give two hits.
pub open spec fn area_hits(es: Seq<Entity>, rows: int, now: int) -> Seq<AreaHit>
    decreases rows,
{
    if rows <= 0 {
        seq![]
    } else {
        area_hits(es, rows - 1, now) + if attack_due(es[rows - 1], now) {
            area_row(es, rows - 1, es.len() as int)
        } else {
            seq![]
        }
    }
}

/// An attack after its scan: a due attack records `now` as its last scan.
pub open spec fn after_scan(e: Entity, now: int) -> Entity {
    if attack_due(e, now) {
        Entity { attack: Some(AttackState { last_tick: now as u64, ..e.attack->0 }), ..e }
    } else {
        e
    }
}

/// The entities after one hit: a damage hit is offered to its enemy, and a
/// binding hit records on its enemy which attack holds it.
pub open spec fn apply_hit(es: Seq<Entity>, h: AreaHit, now: int) -> Seq<Entity> {
    match h.effect {
        EffectKind::Damage(d) => if h.enemy < es.len() {
            es.update(
                h.enemy as int,
                Entity { target: damage_result(es[h.enemy as int].target, d as int, now).0, ..es[h.enemy as int] },
            )
        } else {
            es
        },
        EffectKind::Binding => if h.enemy < es.len() && h.attack < es.len() {
            es.update(h.enemy as int, Entity { bound_by: Some(es[h.attack as int].id), ..es[h.enemy as int] })
        } else {
            es
        },
    }
}

/// The entities after the hits, offered in order.
pub open spec fn apply_hits(es: Seq<Entity>, hits: Seq<AreaHit>, now: int) -> Seq<Entity>
    decreases hits.len(),
{
    if hits.len() == 0 {
        es
    } else {
        apply_hit(apply_hits(es, hits.drop_last(), now), hits.last(), now)
    }
}

pub open spec fn hits_ok(hits: Seq<AreaHit>) -> bool {
    forall|i: int|
        0 <= i < hits.len() ==> match (#[trigger] hits[i]).effect {
            EffectKind::Damage(d) => 0 <= d <= DAMAGE_LIMIT,
            EffectKind::Binding => true,
        }
}

impl World {
    /// The hits of every due attack on the active enemies it covers.
    pub fn scan_area_effects(&self, now: u64) -> (hits: Vec<AreaHit>)
        requires
            self.wf(),
        ensures
            hits@ == area_hits(self.entities@, self.entities@.len() as int, now as int),
            hits_ok(hits@),
    {
        let es = &self.entities;
        let n = es.len();
        let mut out: Vec<AreaHit> = Vec::new();
        let mut a: usize = 0;
        while a < n
            invariant
                n == es@.len(),
                a <= n,
                entities_wf(es@, self.next_id as int),
                out@ == area_hits(es@, a as int, now as int),
                hits_ok(out@),
            decreases n - a,
        {
            let att_entity = es[a];
            let due = match att_entity.attack {
                Some(att) => att_entity.target.state == LifeState::Active && now >= att.last_tick && now - att.last_tick
                    >= att.tick_rate,
                None => false,
            };
            if due {
                let att = att_entity.attack.unwrap();
                assert(entity_ok(es@[a as int]));
                let effect: Option<EffectKind> = match att.pattern {
                    PatternType::Banishment => Some(EffectKind::Damage(att.damage)),
                    PatternType::Binding => Some(EffectKind::Binding),
                    _ => None,
                };
                let ghost base = out@;
                let mut j: usize = 0;
                while j < n
                    invariant
                        n == es@.len(),
                        a < n,
                        j <= n,
                        entities_wf(es@, self.next_id as int),
                        att == es@[a as int].attack->0,
                        es@[a as int].attack is Some,
                        effect == pattern_effect(att.pattern, att.damage),
                        0 <= att.damage <= DAMAGE_LIMIT,
                        out@ == base + area_row(es@, a as int, j as int),
                        hits_ok(out@),
                    decreases n - j,
                {
                    let e = &es[j];
                    assert(entity_ok(es@[a as int]) && entity_ok(es@[j as int]));
                    let hit = match e.body.kind {
                        BodyKind::Enemy => e.target.state == LifeState::Active && touching(&es[a].body, &e.body),
                        _ => false,
                    };
                    if hit {
                        if let Some(eff) = effect {
                            out.push(AreaHit { attack: a, enemy: j, effect: eff });
                        }
                    }
                    proof {
                        assert(out@ =~= base + area_row(es@, a as int, j + 1));
                    }
                    j = j + 1;
                }
            }
            proof {
                assert(out@ =~= area_hits(es@, a + 1, now as int));
            }
            a = a + 1;
        }
        out
    }

    /// Records the scan time of every due attack.
    pub fn mark_scanned(&mut self, now: u64)
        requires
            old(self).wf(),
        ensures
            final(self).wf(),
            final(self).entities@ == old(self).entities@.map_values(|e: Entity| after_scan(e, now as int)),
            final(self).next_id == old(self).next_id,
            final(self).kills == old(self).kills,
            final(self).game_over == old(self).game_over,
    {
        let ghost es0 = self.entities@;
        let n = self.entities.len();
        let mut i: usize = 0;
        while i < n
            invariant
                n == self.entities@.len(),
                n == es0.len(),
                i <= n,
                self.next_id == old(self).next_id,
                self.kills == old(self).kills,
                self.game_over == old(self).game_over,
                entities_wf(es0, self.next_id as int),
                forall|k: int| 0 <= k < i ==> #[trigger] self.entities@[k] == after_scan(es0[k], now as int),
                forall|k: int| i <= k < n ==> #[trigger] self.entities@[k] == es0[k],
            decreases n - i,
        {
            let e = self.entities[i];
            if let Some(att) = e.attack {
                if e.target.state == LifeState::Active && now >= att.last_tick && now - att.last_tick >= att.tick_rate {
                    let mut d = e;
                    d.attack = Some(AttackState { last_tick: now, ..att });
                    self.entities.set(i, d);
                }
            }
            i = i + 1;
        }
        proof {
            assert(self.entities@ =~= es0.map_values(|e: Entity| after_scan(e, now as int)));
            assert forall|k: int| 0 <= k < self.entities@.len() implies entity_ok(#[trigger] self.entities@[k]) by {
                assert(entity_ok(es0[k]));
            }
        }
    }

    /// Offers the damage of each hit to its enemy, in order; each hit is a
    /// damage application of its own.
    pub fn apply_area_hits(&mut self, hits: &Vec<AreaHit>, now: u64)
        requires
            old(self).wf(),
            hits_ok(hits@),
        ensures
            final(self).wf(),
            final(self).entities@ == apply_hits(old(self).entities@, hits@, now as int),
            final(self).next_id == old(self).next_id,
            final(self).kills == old(self).kills,
            final(self).game_over == old(self).game_over,
    {
        let ghost es0 = self.entities@;
        let mut i: usize = 0;
        while i < hits.len()
            invariant
                i <= hits@.len(),
                hits_ok(hits@),
                self.next_id == old(self).next_id,
                self.kills == old(self).kills,
                self.game_over == old(self).game_over,
                self.wf(),
                self.entities@ == apply_hits(es0, hits@.take(i as int), now as int),
            decreases hits@.len() - i,
        {
            let h = hits[i];
            proof {
                assert(hits@.take(i + 1).drop_last() =~= hits@.take(i as int));
                assert(hits@.take(i + 1).last() == h);
                assert(hits_ok(hits@) ==> match hits@[i as int].effect {
                    EffectKind::Damage(d) => 0 <= d <= DAMAGE_LIMIT,
                    EffectKind::Binding => true,
                });
            }
            if let EffectKind::Binding = h.effect {
                if h.enemy < self.entities.len() && h.attack < self.entities.len() {
                    let source = self.entities[h.attack].id;
                    let mut e = self.entities[h.enemy];
                    e.bound_by = Some(source);
                    let ghost before = self.entities@;
                    self.entities.set(h.enemy, e);
                    proof {
                        assert forall|k: int| 0 <= k < self.entities@.len() implies entity_ok(#[trigger] self.entities@[k])
                            && self.entities@[k].id == before[k].id by {
                            assert(entity_ok(before[k]));
                        }
                    }
                }
            }
            if let EffectKind::Damage(d) = h.effect {
                if h.enemy < self.entities.len() {
                    let mut e = self.entities[h.enemy];
                    handle_damage(&mut e.target, d, now);
                    let ghost before = self.entities@;
                    self.entities.set(h.enemy, e);
                    proof {
                        assert forall|k: int| 0 <= k < self.entities@.len() implies entity_ok(#[trigger] self.entities@[k])
                            && self.entities@[k].id == before[k].id by {
                            assert(entity_ok(before[k]));
                        }
                    }
                }
            }
            i = i + 1;
        }
        proof {
            assert(hits@.take(i as int) =~= hits@);
        }
    }

    /// The area-effect stage: due attacks scan for the enemies they cover,
    /// record the scan, and their damage is applied hit by hit. Returns the
    /// hits, bindings included.
    pub fn area_effect_system(&mut self, now: u64) -> (hits: Vec<AreaHit>)
        requires
            old(self).wf(),
        ensures
            final(self).wf(),
            hits@ == area_hits(old(self).entities@, old(self).entities@.len() as int, now as int),
            final(self).entities@ == apply_hits(
                old(self).entities@.map_values(|e: Entity| after_scan(e, now as int)),
                hits@,
                now as int,
            ),
            final(self).next_id == old(self).next_id,
            final(self).kills == old(self).kills,
            final(self).game_over == old(self).game_over,
    {
        let hits = self.scan_area_effects(now);
        self.mark_scanned(now);
        self.apply_area_hits(&hits, now);
        hits
    }
}

/// Damage the player takes per touching enemy on each accepted contact.
pub const CONTACT_DAMAGE: i64 = 1;

/// Index of the first player, or the length when there is none.
pub open spec fn first_player(es: Seq<Entity>) -> int
    decreases es.len(),
{
    if es.len() == 0 {
        0
    } else {
        let f = first_player(es.drop_last());
        if f < es.len() - 1 {
            f
        } else if is_player(es.last()) {
            es.len() - 1
        } else {
            es.len() as int
        }
    }
}

/// The number of active enemies among `0..end` that touch entity `p`.
pub open spec fn contact_count(es: Seq<Entity>, p: int, end: int) -> int
    decreases end,
{
    if end <= 0 {
        0
    } else {
        contact_count(es, p, end - 1) + if is_active_enemy(es[end - 1]) && bodies_touch(es[p].body, es[end - 1].body) {
            1int
        } else {
            0
        }
    }
}

/// The entities after contact damage: an active player touched by `c > 0`
/// active enemies is offered `c` times the contact damage (at most the largest
/// single amount).
pub open spec fn after_contacts(es: Seq<Entity>, now: int) -> Seq<Entity> {
    let p = first_player(es);
    let c = if p < es.len() { contact_count(es, p, es.len() as int) } else { 0 };
    if p < es.len() && es[p].target.state == LifeState::Active && c > 0 {
        let amount = if c * CONTACT_DAMAGE > DAMAGE_LIMIT { DAMAGE_LIMIT as int } else { c * CONTACT_DAMAGE };
        es.update(p, Entity { target: damage_result(es[p].target, amount, now).0, ..es[p] })
    } else {
        es
    }
}

/// What the projectile stage may do to one entity: ids, kinds and the
/// presence of projectile stats stay, and a pierce budget never grows.
pub open spec fn projectile_step_ok(a: Entity, b: Entity) -> bool {
    &&& b.id == a.id
    &&& b.body.kind == a.body.kind
    &&& b.projectile is Some <==> a.projectile is Some
    &&& a.projectile is Some ==> b.projectile->0.pierce <= a.projectile->0.pierce
}

/// An active projectile with its stats.
pub open spec fn flies(e: Entity) -> bool {
    e.body.kind == BodyKind::Projectile && e.projectile is Some && e.target.state == LifeState::Active
}

/// Where the projectile stage leaves an entity: a flying projectile ends the
/// tick at the end of its swept motion, or, when that motion would leave the
/// arena, stays put and is marked for death. Every other body stays put.
pub open spec fn projectile_moved(a: Entity, b: Entity) -> bool {
    if flies(a) {
        if sweep_in_arena(a.body.pos, a.velocity) {
            b.body == Body { pos: crate::collision::substep_pos(a.body.pos, a.velocity, COLLISION_SUBSTEPS as int), ..a.body }
        } else {
            b.body == a.body && b.target.state == LifeState::MarkedForDeath
        }
    } else {
        b.body == a.body
    }
}

/// Only the target of an enemy may change; everything else stays.
pub open spec fn bystander(a: Entity, b: Entity) -> bool {
    &&& b == Entity { target: b.target, ..a }
    &&& a.body.kind != BodyKind::Enemy ==> b.target == a.target
}


/// Indices of the active enemies, in order.
pub open spec fn enemy_indices(es: Seq<Entity>) -> Seq<int>
    decreases es.len(),
{
    if es.len() == 0 {
        seq![]
    } else {
        enemy_indices(es.drop_last()) + if is_active_enemy(es.last()) {
            seq![es.len() - 1]
        } else {
            seq![]
        }
    }
}

/// The bodies of the active enemies, in order: the swept pass's targets.
pub open spec fn enemy_bodies(es: Seq<Entity>) -> Seq<Body> {
    Seq::new(enemy_indices(es).len(), |k: int| es[enemy_indices(es)[k]].body)
}

proof fn lemma_enemy_indices(es: Seq<Entity>)
    ensures
        forall|k: int|
            0 <= k < enemy_indices(es).len() ==> 0 <= #[trigger] enemy_indices(es)[k] < es.len()
                && is_active_enemy(es[enemy_indices(es)[k]]),
    decreases es.len(),
{
    if es.len() > 0 {
        let pre = es.drop_last();
        lemma_enemy_indices(pre);
        assert forall|k: int| 0 <= k < enemy_indices(es).len() implies 0 <= #[trigger] enemy_indices(es)[k] < es.len()
            && is_active_enemy(es[enemy_indices(es)[k]]) by {
            if k < enemy_indices(pre).len() {
                assert(enemy_indices(es)[k] == enemy_indices(pre)[k]);
                assert(pre[enemy_indices(pre)[k]] == es[enemy_indices(pre)[k]]);
            }
        }
    }
}

/// The entities after projectile `i` takes its turn. A flying projectile
/// whose motion would leave the arena is marked for death. Otherwise the
/// first active enemy its swept motion hits, if any, gets the hit's result,
/// the projectile's stats and state follow the hit, and the projectile moves
/// to the end of its motion. Nothing else changes.
pub open spec fn projectile_step(es: Seq<Entity>, i: int, now: int) -> Seq<Entity> {
    let e = es[i];
    if !flies(e) {
        es
    } else if !sweep_in_arena(e.body.pos, e.velocity) {
        es.update(i, Entity { target: Target { state: marked(e.target.state), ..e.target }, ..e })
    } else {
        let moved_body = Body { pos: substep_pos(e.body.pos, e.velocity, COLLISION_SUBSTEPS as int), ..e.body };
        match first_hit(e.body.pos, e.velocity, e.body.radius as int, enemy_bodies(es)) {
            None => es.update(i, Entity { body: moved_body, ..e }),
            Some(k) => {
                let t = enemy_indices(es)[k];
                let r = hit_result(e.projectile->0, e.target.state, es[t].target, now);
                es.update(t, Entity { target: r.2, ..es[t] }).update(
                    i,
                    Entity { body: moved_body, projectile: Some(r.0), target: Target { state: r.1, ..e.target }, ..e },
                )
            },
        }
    }
}

/// The entities after projectiles `0..n` take their turns, in entity order.
pub open spec fn projectile_steps(es: Seq<Entity>, n: int, now: int) -> Seq<Entity>
    decreases n,
{
    if n <= 0 {
        es
    } else {
        let prev = projectile_steps(es, n - 1, now);
        projectile_step(prev, n - 1, now)
    }
}

/// Index of the first player of the world, or the number of entities when
/// there is none.
pub fn first_player_index(w: &World) -> (r: usize)
    ensures
        r == first_player(w.entities@),
{
    w.find_player()
}

impl World {
    fn find_player(&self) -> (r: usize)
        ensures
            r == first_player(self.entities@),
    {
        let mut i: usize = 0;
        let mut found: usize = self.entities.len();
        let mut done = false;
        while i < self.entities.len() && !done
            invariant
                i <= self.entities@.len(),
                done ==> found == first_player(self.entities@) && found < self.entities@.len(),
                !done ==> first_player(self.entities@.take(i as int)) == i,
            decreases self.entities@.len() - i, if done { 0int } else { 1int },
        {
            proof {
                assert(self.entities@.take(i + 1).drop_last() =~= self.entities@.take(i as int));
            }
            let is_p = match self.entities[i].body.kind {
                BodyKind::Player => true,
                _ => false,
            };
            if is_p {
                found = i;
                done = true;
                proof {
                    lemma_first_player_prefix(self.entities@, i as int);
                }
            } else {
                i = i + 1;
            }
        }
        if !done {
            proof {
                assert(self.entities@.take(i as int) =~= self.entities@);
            }
            return self.entities.len();
        }
        found
    }

    /// The contact damage stage: the player takes damage from each active
    /// enemy touching it, as one application gated by the player's cooldown.
    pub fn handle_player_enemy_collision(&mut self, now: u64)
        requires
            old(self).wf(),
        ensures
            final(self).wf(),
            final(self).entities@ == after_contacts(old(self).entities@, now as int),
            final(self).next_id == old(self).next_id,
            final(self).kills == old(self).kills,
            final(self).game_over == old(self).game_over,
    {
        let p = self.find_player();
        let n = self.entities.len();
        if p >= n {
            return;
        }
        let player = self.entities[p];
        if player.target.state != LifeState::Active {
            return;
        }
        let mut count: usize = 0;
        let mut j: usize = 0;
        while j < n
            invariant
                n == self.entities@.len(),
                p < n,
                j <= n,
                player == self.entities@[p as int],
                self.wf(),
                count == contact_count(self.entities@, p as int, j as int),
                count <= j,
            decreases n - j,
        {
            let e = &self.entities[j];
            assert(entity_ok(self.entities@[j as int]) && entity_ok(player));
            let hit = match e.body.kind {
                BodyKind::Enemy => e.target.state == LifeState::Active && touching(&player.body, &e.body),
                _ => false,
            };
            if hit {
                count = count + 1;
            }
            j = j + 1;
        }
        if count == 0 {
            return;
        }
        let amount: i64 = if count as u64 > DAMAGE_LIMIT as u64 {
            DAMAGE_LIMIT
        } else {
            count as i64
        };
        let mut e = player;
        handle_damage(&mut e.target, amount, now);
        let ghost before = self.entities@;
        self.entities.set(p, e);
        proof {
            assert forall|k: int| 0 <= k < self.entities@.len() implies entity_ok(#[trigger] self.entities@[k])
                && self.entities@[k].id == before[k].id by {
                assert(entity_ok(before[k]));
            }
        }
    }

    /// The projectile stage: each active projectile sweeps its motion for the
    /// tick against the active enemies, resolves at most one hit, and moves.
    /// A projectile whose motion would leave the arena is marked for death.
    pub fn projectile_physics_system(&mut self, now: u64)
        requires
            old(self).wf(),
        ensures
            final(self).wf(),
            final(self).entities@.len() == old(self).entities@.len(),
            forall|i: int|
                0 <= i < old(self).entities@.len() ==> projectile_step_ok(
                    #[trigger] old(self).entities@[i],
                    final(self).entities@[i],
                ) && projectile_moved(old(self).entities@[i], final(self).entities@[i]),
            final(self).entities@ == projectile_steps(old(self).entities@, old(self).entities@.len() as int, now as int),
            final(self).next_id == old(self).next_id,
            final(self).kills == old(self).kills,
            final(self).game_over == old(self).game_over,
    {
        let ghost es0 = self.entities@;
        let n = self.entities.len();
        let mut i: usize = 0;
        while i < n
            invariant
                n == self.entities@.len(),
                n == es0.len(),
                i <= n,
                self.wf(),
                self.next_id == old(self).next_id,
                self.kills == old(self).kills,
                self.game_over == old(self).game_over,
                forall|k: int| 0 <= k < n ==> projectile_step_ok(#[trigger] es0[k], self.entities@[k]),
                forall|k: int| 0 <= k < i ==> projectile_moved(#[trigger] es0[k], self.entities@[k]),
                forall|k: int| i <= k < n ==> bystander(#[trigger] es0[k], self.entities@[k]),
                self.entities@ == projectile_steps(es0, i as int, now as int),
            decreases n - i,
        {
            let ghost before = self.entities@;
            self.step_projectile(i, now);
            proof {
                assert forall|k: int| 0 <= k < n implies projectile_step_ok(#[trigger] es0[k], self.entities@[k]) by {
                    assert(projectile_step_ok(es0[k], before[k]));
                    assert(projectile_step_ok(before[k], self.entities@[k]));
                }
                assert forall|k: int| 0 <= k < i + 1 implies projectile_moved(#[trigger] es0[k], self.entities@[k]) by {
                    if k < i {
                        assert(projectile_moved(es0[k], before[k]));
                        assert(bystander(before[k], self.entities@[k]));
                    } else {
                        assert(bystander(es0[k], before[k]));
                        assert(projectile_moved(before[k], self.entities@[k]));
                    }
                }
                assert forall|k: int| i + 1 <= k < n implies bystander(#[trigger] es0[k], self.entities@[k]) by {
                    assert(bystander(es0[k], before[k]));
                    assert(bystander(before[k], self.entities@[k]));
                }
            }
            i = i + 1;
        }
    }

    fn step_projectile(&mut self, i: usize, now: u64)
        requires
            old(self).wf(),
            i < old(self).entities@.len(),
        ensures
            final(self).wf(),
            final(self).entities@.len() == old(self).entities@.len(),
            forall|k: int|
                0 <= k < old(self).entities@.len() ==> projectile_step_ok(
                    #[trigger] old(self).entities@[k],
                    final(self).entities@[k],
                ),
            projectile_moved(old(self).entities@[i as int], final(self).entities@[i as int]),
            final(self).entities@ == projectile_step(old(self).entities@, i as int, now as int),
            forall|k: int|
                0 <= k < old(self).entities@.len() && k != i ==> bystander(
                    #[trigger] old(self).entities@[k],
                    final(self).entities@[k],
                ),
            final(self).next_id == old(self).next_id,
            final(self).kills == old(self).kills,
            final(self).game_over == old(self).game_over,
    {
        let e = self.entities[i];
        assert(entity_ok(e));
        if e.target.state != LifeState::Active {
            return;
        }
        match e.body.kind {
            BodyKind::Projectile => {},
            _ => {
                return;
            },
        }
        let stats = match e.projectile {
            Some(p) => p,
            None => {
                return;
            },
        };
        let ex: i128 = e.body.pos.x as i128 + COLLISION_SUBSTEPS as i128 * e.velocity.x as i128;
        let ey: i128 = e.body.pos.y as i128 + COLLISION_SUBSTEPS as i128 * e.velocity.y as i128;
        let lim = COORD_LIMIT as i128;
        if ex < -lim || ex > lim || ey < -lim || ey > lim {
            let mut d = e;
            mark_for_death(&mut d.target.state);
            let ghost before = self.entities@;
            self.entities.set(i, d);
            proof {
                assert forall|k: int| 0 <= k < self.entities@.len() implies entity_ok(#[trigger] self.entities@[k])
                    && self.entities@[k].id == before[k].id && projectile_step_ok(before[k], self.entities@[k]) by {
                    assert(entity_ok(before[k]));
                }
            }
            return;
        }
        assert(sweep_in_arena(e.body.pos, e.velocity));
        let mut targets: Vec<Body> = Vec::new();
        let mut index: Vec<usize> = Vec::new();
        let n = self.entities.len();
        let mut j: usize = 0;
        while j < n
            invariant
                n == self.entities@.len(),
                j <= n,
                self.wf(),
                targets@.len() == index@.len(),
                crate::collision::all_wf(targets@),
                forall|k: int| 0 <= k < index@.len() ==> #[trigger] index@[k] < n,
                forall|k: int|
                    0 <= k < index@.len() ==> (#[trigger] self.entities@[index@[k] as int]).body.kind == BodyKind::Enemy,
                index@.len() == enemy_indices(self.entities@.take(j as int)).len(),
                forall|k: int| 0 <= k < index@.len() ==> #[trigger] index@[k] as int == enemy_indices(self.entities@.take(j as int))[k],
                forall|k: int| 0 <= k < index@.len() ==> #[trigger] targets@[k] == self.entities@[index@[k] as int].body,
            decreases n - j,
        {
            let t = self.entities[j];
            proof {
                assert(self.entities@.take(j + 1).drop_last() =~= self.entities@.take(j as int));
                assert(self.entities@.take(j + 1).last() == self.entities@[j as int]);
            }
            assert(entity_ok(self.entities@[j as int]));
            let take = match t.body.kind {
                BodyKind::Enemy => t.target.state == LifeState::Active,
                _ => false,
            };
            if take {
                targets.push(t.body);
                index.push(j);
            }
            j = j + 1;
        }
        let ghost before = self.entities@;
        proof {
            assert(before.take(n as int) =~= before);
            assert(targets@ =~= enemy_bodies(before));
        }
        let hit = sweep_projectile(e.body.pos, e.velocity, e.body.radius, &targets);
        assert(forall|k: int| 0 <= k < index@.len() ==> (#[trigger] before[index@[k] as int]).body.kind == BodyKind::Enemy);
        let mut proj = e;
        let mut p = stats;
        if let Some(k) = hit {
            let ti = index[k];
            assert(before[ti as int].body.kind == BodyKind::Enemy);
            let mut enemy = self.entities[ti];
            projectile_hit(&mut p, &mut proj.target.state, &mut enemy.target, now);
            self.entities.set(ti, enemy);
        }
        proj.projectile = Some(p);
        proj.body.pos = Point { x: ex as i64, y: ey as i64 };
        self.entities.set(i, proj);
        proof {
            assert forall|k: int| 0 <= k < self.entities@.len() implies entity_ok(#[trigger] self.entities@[k])
                && self.entities@[k].id == before[k].id && projectile_step_ok(before[k], self.entities@[k]) by {
                assert(entity_ok(before[k]));
            }
        }
    }
}

proof fn lemma_first_player_prefix(es: Seq<Entity>, i: int)
    requires
        0 <= i < es.len(),
        first_player(es.take(i)) == i,
        is_player(es[i]),
    ensures
        first_player(es) == i,
    decreases es.len(),
{
    if es.len() == i + 1 {
        assert(es.drop_last() =~= es.take(i));
    } else {
        let pre = es.drop_last();
        assert(pre.take(i) =~= es.take(i));
        lemma_first_player_prefix(pre, i);
    }
}

/// The bodies of the entities, in order.
pub open spec fn bodies_of(es: Seq<Entity>) -> Seq<Body> {
    Seq::new(es.len(), |i: int| es[i].body)
}

/// An enemy's intended move toward `target`: `speed` along the line to it,
/// or half that away from it once closer than the two radii and the margin.
pub open spec fn chase(from: Body, target: Body, speed: int) -> (int, int) {
    let vx = target.pos.x - from.pos.x;
    let vy = target.pos.y - from.pos.y;
    let d = int_sqrt(dist_sq(from.pos, target.pos));
    let min = from.radius + target.radius + SEPARATION_MARGIN;
    if d == 0 {
        (0, 0)
    } else if d > min {
        (scale(vx, speed, d), scale(vy, speed, d))
    } else {
        (-scale(vx, speed / 2, d), -scale(vy, speed / 2, d))
    }
}

/// The intended move of entity `i` this tick: the player's input for the
/// player, a chase of the player for active enemies, nothing for the rest.
pub open spec fn intent_of(es: Seq<Entity>, i: int, player_move: Point) -> (int, int) {
    let p = first_player(es);
    if i == p {
        (player_move.x as int, player_move.y as int)
    } else if p < es.len() && is_active_enemy(es[i]) {
        chase(es[i].body, es[p].body, es[i].speed as int)
    } else {
        (0, 0)
    }
}

/// Entity `i` after the movement stage: moved by its intent plus the sum of
/// separation pushes, stopping at the arena's edge.
pub open spec fn moved(es: Seq<Entity>, i: int, player_move: Point, force: int) -> Entity {
    let it = intent_of(es, i, player_move);
    let push = push_total(bodies_of(es), i, es.len() as int, force);
    Entity {
        body: Body {
            pos: Point {
                x: clamp_coord(es[i].body.pos.x + it.0 + push.0) as i64,
                y: clamp_coord(es[i].body.pos.y + it.1 + push.1) as i64,
            },
            ..es[i].body
        },
        ..es[i]
    }
}

/// An attack after `dt` more milliseconds of life: once its lifetime runs out
/// it is marked for death.
pub open spec fn aged(e: Entity, dt: int) -> Entity {
    if e.attack is Some && e.target.state == LifeState::Active {
        let left = if e.attack->0.lifetime > dt { e.attack->0.lifetime - dt } else { 0 };
        Entity {
            attack: Some(AttackState { lifetime: left as u64, ..e.attack->0 }),
            target: Target { state: if left == 0 { marked(e.target.state) } else { e.target.state }, ..e.target },
            ..e
        }
    } else {
        e
    }
}

/// An enemy's intended move toward the player this tick.
pub fn enemy_movement_intent(from: &Body, target: &Body, speed: i64) -> (r: Point)
    requires
        from.wf(),
        target.wf(),
        0 <= speed <= FORCE_LIMIT,
    ensures
        (r.x as int, r.y as int) == chase(*from, *target, speed as int),
        -speed <= r.x <= speed,
        -speed <= r.y <= speed,
{
    let dsq = distance_squared(from.pos, target.pos);
    let d = isqrt(dsq as u64) as i64;
    let min: i64 = from.radius + target.radius + SEPARATION_MARGIN;
    let vx: i64 = target.pos.x - from.pos.x;
    let vy: i64 = target.pos.y - from.pos.y;
    if d == 0 {
        return Point { x: 0, y: 0 };
    }
    proof {
        crate::physics::lemma_component_le_root(vx as int, vy as int, d as int);
        assert(vy * vy + vx * vx == vx * vx + vy * vy);
        crate::physics::lemma_component_le_root(vy as int, vx as int, d as int);
    }
    if d > min {
        Point { x: scale_exec(vx, speed, d), y: scale_exec(vy, speed, d) }
    } else {
        Point { x: -scale_exec(vx, speed / 2, d), y: -scale_exec(vy, speed / 2, d) }
    }
}

impl World {
    /// The movement stage: every entity moves by its intended move plus the
    /// separation pushes computed from one snapshot of positions.
    pub fn apply_movement_system(&mut self, player_move: Point, force: i64)
        requires
            old(self).wf(),
            old(self).entities@.len() <= MAX_BODIES,
            player_move.in_arena(),
            0 <= force <= FORCE_LIMIT,
        ensures
            final(self).wf(),
            final(self).entities@ == Seq::new(
                old(self).entities@.len(),
                |i: int| moved(old(self).entities@, i, player_move, force as int),
            ),
            final(self).next_id == old(self).next_id,
            final(self).kills == old(self).kills,
            final(self).game_over == old(self).game_over,
    {
        let ghost es0 = self.entities@;
        let n = self.entities.len();
        let mut bodies: Vec<Body> = Vec::new();
        let mut k: usize = 0;
        while k < n
            invariant
                n == self.entities@.len(),
                self.entities@ == es0,
                self.wf(),
                k <= n,
                bodies@ == bodies_of(es0).take(k as int),
            decreases n - k,
        {
            bodies.push(self.entities[k].body);
            proof {
                assert(bodies@ =~= bodies_of(es0).take(k + 1));
            }
            k = k + 1;
        }
        proof {
            assert(bodies@ =~= bodies_of(es0));
            assert forall|i: int| 0 <= i < bodies@.len() implies (#[trigger] bodies@[i]).wf() by {
                assert(entity_ok(es0[i]));
            }
        }
        let pushes = separation_displacements(&bodies, force);
        let p = self.find_player();
        let mut i: usize = 0;
        while i < n
            invariant
                n == self.entities@.len(),
                n == es0.len(),
                n <= MAX_BODIES,
                i <= n,
                bodies@ == bodies_of(es0),
                crate::collision::all_wf(bodies@),
                pushes@.len() == n,
                forall|j: int|
                    0 <= j < n ==> ((#[trigger] pushes@[j]).x as int, pushes@[j].y as int) == push_total(
                        bodies@,
                        j,
                        n as int,
                        force as int,
                    ),
                p == first_player(es0),
                player_move.in_arena(),
                0 <= force <= FORCE_LIMIT,
                entities_wf(es0, self.next_id as int),
                self.next_id == old(self).next_id,
                self.kills == old(self).kills,
                self.game_over == old(self).game_over,
                forall|j: int| 0 <= j < i ==> #[trigger] self.entities@[j] == moved(es0, j, player_move, force as int),
                forall|j: int| i <= j < n ==> #[trigger] self.entities@[j] == es0[j],
            decreases n - i,
        {
            let e = self.entities[i];
            assert(entity_ok(e));
            let intent: Point = if i == p {
                player_move
            } else if p < n {
                let is_enemy = match e.body.kind {
                    BodyKind::Enemy => e.target.state == LifeState::Active,
                    _ => false,
                };
                if is_enemy {
                    let pb = bodies[p];
                    assert(entity_ok(es0[p as int]));
                    enemy_movement_intent(&e.body, &pb, e.speed)
                } else {
                    Point { x: 0, y: 0 }
                }
            } else {
                Point { x: 0, y: 0 }
            };
            let push = pushes[i];
            proof {
                crate::physics::lemma_push_total_bound(bodies@, i as int, n as int, force as int);
                assert((n as int) * (force as int) <= 0x100_0000_0000) by (nonlinear_arith)
                    requires
                        0 <= n <= 0x10_0000,
                        0 <= force <= 0x10_0000,
                ;
                assert(-(COORD_LIMIT as int) <= intent.x <= COORD_LIMIT);
                assert(-(COORD_LIMIT as int) <= intent.y <= COORD_LIMIT);
            }
            assert((intent.x as int, intent.y as int) == intent_of(es0, i as int, player_move));
            let total = Point { x: intent.x + push.x, y: intent.y + push.y };
            let mut d = e;
            d.body.pos = displace(e.body.pos, total);
            self.entities.set(i, d);
            i = i + 1;
        }
        proof {
            assert(self.entities@ =~= Seq::new(n as nat, |i: int| moved(es0, i, player_move, force as int)));
            assert forall|k: int| 0 <= k < self.entities@.len() implies entity_ok(#[trigger] self.entities@[k]) by {
                assert(entity_ok(es0[k]));
            }
        }
    }

    /// The lifetime stage: attacks age by `dt` and expire into death.
    pub fn attack_lifetime_system(&mut self, dt: u64)
        requires
            old(self).wf(),
        ensures
            final(self).wf(),
            final(self).entities@ == old(self).entities@.map_values(|e: Entity| aged(e, dt as int)),
            final(self).next_id == old(self).next_id,
            final(self).kills == old(self).kills,
            final(self).game_over == old(self).game_over,
    {
        let ghost es0 = self.entities@;
        let n = self.entities.len();
        let mut i: usize = 0;
        while i < n
            invariant
                n == self.entities@.len(),
                n == es0.len(),
                i <= n,
                self.next_id == old(self).next_id,
                self.kills == old(self).kills,
                self.game_over == old(self).game_over,
                entities_wf(es0, self.next_id as int),
                forall|k: int| 0 <= k < i ==> #[trigger] self.entities@[k] == aged(es0[k], dt as int),
                forall|k: int| i <= k < n ==> #[trigger] self.entities@[k] == es0[k],
            decreases n - i,
        {
            let e = self.entities[i];
            if let Some(att) = e.attack {
                if e.target.state == LifeState::Active {
                    let left = att.lifetime.saturating_sub(dt);
                    let mut d = e;
                    d.attack = Some(AttackState { lifetime: left, ..att });
                    if left == 0 {
                        mark_for_death(&mut d.target.state);
                    }
                    self.entities.set(i, d);
                }
            }
            i = i + 1;
        }
        proof {
            assert(self.entities@ =~= es0.map_values(|e: Entity| aged(e, dt as int)));
            assert forall|k: int| 0 <= k < self.entities@.len() implies entity_ok(#[trigger] self.entities@[k]) by {
                assert(entity_ok(es0[k]));
            }
        }
    }
}

/// Radius of an experience orb.
pub const ORB_RADIUS: i64 = 4;

pub open spec fn in_arena_event(ev: EntityDeathEvent) -> bool {
    ev.position.in_arena()
}

/// The deaths that drop an orb: those with a reward, inside the arena.
pub open spec fn orb_events(evs: Seq<EntityDeathEvent>) -> Seq<EntityDeathEvent>
    decreases evs.len(),
{
    if evs.len() == 0 {
        seq![]
    } else {
        orb_events(evs.drop_last()) + if evs.last().exp_value is Some && in_arena_event(evs.last()) {
            seq![evs.last()]
        } else {
            seq![]
        }
    }
}

/// An orb of value `v` at `pos`.
pub open spec fn orb_at(pos: Point, v: u32, id: int) -> Entity {
    Entity {
        id: id as u64,
        body: Body { pos, radius: ORB_RADIUS, kind: BodyKind::Pickup },
        velocity: Point { x: 0, y: 0 },
        speed: 0,
        target: Target { health: None, cooldown: None, state: LifeState::Active },
        projectile: None,
        attack: None,
        reward: Some(v),
        bound_by: None,
    }
}

/// The orbs dropped for the events, ids counting up from `first_id`.
pub open spec fn orbs_for(evs: Seq<EntityDeathEvent>, first_id: int) -> Seq<Entity> {
    let oe = orb_events(evs);
    Seq::new(oe.len(), |k: int| orb_at(oe[k].position, oe[k].exp_value->0, first_id + k))
}

proof fn lemma_orb_events_len(evs: Seq<EntityDeathEvent>)
    ensures
        orb_events(evs).len() <= evs.len(),
    decreases evs.len(),
{
    if evs.len() > 0 {
        lemma_orb_events_len(evs.drop_last());
    }
}

fn orb_entity(pos: Point, v: u32) -> (e: Entity)
    requires
        pos.in_arena(),
    ensures
        e == orb_at(pos, v, 0),
        entity_ok(e),
        is_orb(e),
{
    Entity {
        id: 0,
        body: Body { pos, radius: ORB_RADIUS, kind: BodyKind::Pickup },
        velocity: Point { x: 0, y: 0 },
        speed: 0,
        target: Target { health: None, cooldown: None, state: LifeState::Active },
        projectile: None,
        attack: None,
        reward: Some(v),
        bound_by: None,
    }
}

/// An active area-effect attack.
pub open spec fn is_attack_entity(e: Entity) -> bool {
    e.body.kind == BodyKind::AreaEffect && e.attack is Some && e.target.state == LifeState::Active
}

/// An experience orb that can still be collected.
pub open spec fn is_orb(e: Entity) -> bool {
    e.body.kind == BodyKind::Pickup && e.reward is Some && e.target.state == LifeState::Active
}

/// Weapon `w` after one tick of its timer; the rest of it is unchanged.
pub open spec fn timer_ticked(old: Weapon, new: Weapon, m: PlayerModifiers, dt: int) -> bool {
    &&& new.cooldown.elapsed == timer_after(
        old.cooldown.elapsed as int,
        dt,
        effective_cooldown(
            old.cooldown.base_duration as int,
            old.cooldown.cooldown_bonus as int,
            m.cooldown_reduction.percent as int,
        ),
    ).0
    &&& new.cooldown.base_duration == old.cooldown.base_duration
    &&& new.cooldown.cooldown_bonus == old.cooldown.cooldown_bonus
    &&& new.meta == old.meta
    &&& new.damage == old.damage
    &&& new.area == old.area
    &&& new.effect == old.effect
    &&& new.circle.patterns@ == old.circle.patterns@
}

/// The entity of a spawned magick circle attack; it scans as soon as its
/// interval has passed since time zero.
pub fn spawn_magick_circle_attack(a: AttackSpawn) -> (e: Entity)
    requires
        a.pos.in_arena(),
        0 <= a.radius <= RADIUS_LIMIT,
        0 <= a.damage <= DAMAGE_LIMIT,
    ensures
        entity_ok(e),
        e == attack_at(a, 0),
        is_attack_entity(e),
{
    Entity {
        id: 0,
        body: Body { pos: a.pos, radius: a.radius, kind: BodyKind::AreaEffect },
        velocity: Point { x: 0, y: 0 },
        speed: 0,
        target: Target { health: None, cooldown: None, state: LifeState::Active },
        projectile: None,
        attack: Some(
            AttackState {
                damage: a.damage,
                pattern: a.pattern,
                lifetime: a.lifetime,
                tick_rate: a.tick_rate,
                last_tick: 0,
            },
        ),
        reward: None,
        bound_by: None,
    }
}

/// The offsets given for weapon `i`, none when the list is shorter.
pub open spec fn offsets_of(offsets: Seq<Vec<Point>>, i: int) -> Seq<Point> {
    if 0 <= i < offsets.len() {
        offsets[i]@
    } else {
        seq![]
    }
}

/// Weapon `w` goes off this tick.
pub open spec fn fires(w: Weapon, m: PlayerModifiers, dt: int) -> bool {
    timer_after(
        w.cooldown.elapsed as int,
        dt,
        effective_cooldown(
            w.cooldown.base_duration as int,
            w.cooldown.cooldown_bonus as int,
            m.cooldown_reduction.percent as int,
        ),
    ).1
}

/// The attacks of the weapons that go off this tick, weapon by weapon.
pub open spec fn fired_spawns(
    ws: Seq<Weapon>,
    m: PlayerModifiers,
    dt: int,
    owner: Point,
    offsets: Seq<Vec<Point>>,
) -> Seq<AttackSpawn>
    decreases ws.len(),
{
    if ws.len() == 0 {
        seq![]
    } else {
        fired_spawns(ws.drop_last(), m, dt, owner, offsets) + if fires(ws.last(), m, dt) {
            attack_spawns(ws.last(), m, owner, offsets_of(offsets, ws.len() - 1))
        } else {
            seq![]
        }
    }
}

/// The entity of attack `a` under id `id`.
pub open spec fn attack_at(a: AttackSpawn, id: int) -> Entity {
    Entity {
        id: id as u64,
        body: Body { pos: a.pos, radius: a.radius, kind: BodyKind::AreaEffect },
        velocity: Point { x: 0, y: 0 },
        speed: 0,
        target: Target { health: None, cooldown: None, state: LifeState::Active },
        projectile: None,
        attack: Some(
            AttackState {
                damage: a.damage,
                pattern: a.pattern,
                lifetime: a.lifetime,
                tick_rate: a.tick_rate,
                last_tick: 0,
            },
        ),
        reward: None,
        bound_by: None,
    }
}

/// The entities of the attacks, ids counting up from `first_id`.
pub open spec fn attacks_from(spawns: Seq<AttackSpawn>, first_id: int) -> Seq<Entity> {
    Seq::new(spawns.len(), |k: int| attack_at(spawns[k], first_id + k))
}

proof fn lemma_fired_prefix(
    ws: Seq<Weapon>,
    j: int,
    m: PlayerModifiers,
    dt: int,
    owner: Point,
    offsets: Seq<Vec<Point>>,
)
    requires
        0 <= j <= ws.len(),
    ensures
        fired_spawns(ws.take(j), m, dt, owner, offsets).len() <= fired_spawns(ws, m, dt, owner, offsets).len(),
    decreases ws.len(),
{
    if j == ws.len() {
        assert(ws.take(j) =~= ws);
    } else {
        let pre = ws.drop_last();
        assert(pre.take(j) =~= ws.take(j));
        lemma_fired_prefix(pre, j, m, dt, owner, offsets);
    }
}

impl World {
    /// The weapon stage: with a player present, every weapon's timer advances
    /// by `dt` and the attacks of each weapon that fires are spawned around the
    /// player, weapon `i` placing its extra circles at `offsets[i]`. Without a
    /// player nothing happens.
    pub fn weapon_firing_system(
        &mut self,
        weapons: &mut Vec<Weapon>,
        m: PlayerModifiers,
        dt: u64,
        offsets: &Vec<Vec<Point>>,
    ) -> (spawned: usize)
        requires
            old(self).wf(),
            m.wf(),
        ensures
            final(self).wf(),
            final(self).entities@.len() == old(self).entities@.len() + spawned,
            final(self).entities@.take(old(self).entities@.len() as int) == old(self).entities@,
            forall|k: int|
                old(self).entities@.len() <= k < final(self).entities@.len() ==> is_attack_entity(
                    #[trigger] final(self).entities@[k],
                ),
            final(weapons)@.len() == old(weapons)@.len(),
            first_player(old(self).entities@) < old(self).entities@.len() ==> forall|i: int|
                0 <= i < old(weapons)@.len() ==> timer_ticked(
                    #[trigger] old(weapons)@[i],
                    final(weapons)@[i],
                    m,
                    dt as int,
                ),
            first_player(old(self).entities@) >= old(self).entities@.len() ==> final(weapons)@ == old(weapons)@
                && spawned == 0 && final(self).entities@ == old(self).entities@ && final(self).next_id == old(self).next_id,
            ({
                let owner = old(self).entities@[first_player(old(self).entities@)].body.pos;
                let fired = fired_spawns(old(weapons)@, m, dt as int, owner, offsets@);
                first_player(old(self).entities@) < old(self).entities@.len() && old(self).next_id + fired.len()
                    < u64::MAX ==> final(self).entities@ == old(self).entities@ + attacks_from(fired, old(self).next_id as int)
                    && spawned == fired.len() && final(self).next_id == old(self).next_id + fired.len()
            }),
            final(self).kills == old(self).kills,
            final(self).game_over == old(self).game_over,
    {
        let p = self.find_player();
        if p >= self.entities.len() {
            return 0;
        }
        let owner = self.entities[p].body.pos;
        assert(entity_ok(self.entities@[p as int]));
        let ghost es0 = self.entities@;
        let ghost ws0 = weapons@;
        let ghost id0 = self.next_id as int;
        let ghost all = fired_spawns(ws0, m, dt as int, owner, offsets@);
        let ghost ok = id0 + all.len() < u64::MAX;
        let empty: Vec<Point> = Vec::new();
        let mut spawned: usize = 0;
        let mut i: usize = 0;
        while i < weapons.len()
            invariant
                i <= weapons@.len(),
                weapons@.len() == ws0.len(),
                owner.in_arena(),
                m.wf(),
                self.wf(),
                self.kills == old(self).kills,
                self.game_over == old(self).game_over,
                self.entities@.len() == es0.len() + spawned,
                self.entities@.take(es0.len() as int) == es0,
                forall|k: int| es0.len() <= k < self.entities@.len() ==> is_attack_entity(#[trigger] self.entities@[k]),
                forall|k: int| 0 <= k < i ==> timer_ticked(#[trigger] ws0[k], weapons@[k], m, dt as int),
                forall|k: int| i <= k < weapons@.len() ==> #[trigger] weapons@[k] == ws0[k],
                id0 == old(self).next_id,
                es0 == old(self).entities@,
                empty@ == Seq::<Point>::empty(),
                all == fired_spawns(ws0, m, dt as int, owner, offsets@),
                ok == (id0 + all.len() < u64::MAX),
                ok ==> self.entities@ == es0 + attacks_from(fired_spawns(ws0.take(i as int), m, dt as int, owner, offsets@), id0)
                    && self.next_id == id0 + fired_spawns(ws0.take(i as int), m, dt as int, owner, offsets@).len()
                    && spawned == fired_spawns(ws0.take(i as int), m, dt as int, owner, offsets@).len(),
            decreases ws0.len() - i,
        {
            let ghost base = fired_spawns(ws0.take(i as int), m, dt as int, owner, offsets@);
            proof {
                assert(ws0.take(i + 1).drop_last() =~= ws0.take(i as int));
                assert(ws0.take(i + 1).last() == ws0[i as int]);
                lemma_fired_prefix(ws0, i + 1, m, dt as int, owner, offsets@);
            }
            let off: &Vec<Point> = if i < offsets.len() {
                &offsets[i]
            } else {
                &empty
            };
            let ghost w0 = weapons@[i as int];
            let attacks = weapon_firing(&mut weapons[i], m, dt, owner, off);
            proof {
                crate::weapons::lemma_spawns_ok(w0, m, owner, off@);
                assert(off@ == offsets_of(offsets@, i as int));
                assert(fired_spawns(ws0.take(i + 1), m, dt as int, owner, offsets@) == base + attacks@);
            }
            let mut k: usize = 0;
            while k < attacks.len()
                invariant
                    k <= attacks@.len(),
                    self.wf(),
                    self.kills == old(self).kills,
                    self.game_over == old(self).game_over,
                    self.entities@.len() == es0.len() + spawned,
                    self.entities@.take(es0.len() as int) == es0,
                    forall|j: int| es0.len() <= j < self.entities@.len() ==> is_attack_entity(#[trigger] self.entities@[j]),
                    forall|j: int|
                        0 <= j < attacks@.len() ==> (#[trigger] attacks@[j]).pos.in_arena() && 0 <= attacks@[j].radius
                            <= RADIUS_LIMIT && 0 <= attacks@[j].damage <= DAMAGE_LIMIT,
                    ok == (id0 + all.len() < u64::MAX),
                    base.len() + attacks@.len() <= all.len(),
                    ok ==> self.entities@ == es0 + attacks_from(base + attacks@.take(k as int), id0) && self.next_id
                        == id0 + base.len() + k && spawned == base.len() + k,
                decreases attacks@.len() - k,
            {
                let a = attacks[k];
                assert(a.pos.in_arena() && 0 <= a.radius <= RADIUS_LIMIT && 0 <= a.damage <= DAMAGE_LIMIT);
                let e = spawn_magick_circle_attack(a);
                assert(e.body.wf());
                let ghost before = self.entities@;
                let r = self.spawn(e);
                if r.is_some() {
                    proof {
                        assert(self.entities@.take(es0.len() as int) =~= before.take(es0.len() as int));
                        if ok {
                            assert(Entity { id: (id0 + base.len() + k) as u64, ..e } == attack_at(a, id0 + base.len() + k));
                            assert(attacks_from(base + attacks@.take(k + 1), id0) =~= attacks_from(
                                base + attacks@.take(k as int),
                                id0,
                            ).push(attack_at(a, id0 + base.len() + k)));
                            assert(self.entities@ =~= es0 + attacks_from(base + attacks@.take(k + 1), id0));
                        }
                    }
                    let total = self.entities.len();
                    assert(total == es0.len() + spawned + 1);
                    spawned = spawned + 1;
                }
                k = k + 1;
            }
            proof {
                assert(attacks@.take(k as int) =~= attacks@);
            }
            i = i + 1;
        }
        proof {
            assert(ws0.take(i as int) =~= ws0);
        }
        spawned
    }

    /// Drops an orb carrying each death's reward where the entity died; a
    /// death without a reward, or outside the arena, drops none. While ids
    /// last, the orbs are added in event order under consecutive fresh ids.
    pub fn spawn_experience_orbs(&mut self, events: &Vec<EntityDeathEvent>)
        requires
            old(self).wf(),
        ensures
            final(self).wf(),
            final(self).entities@.take(old(self).entities@.len() as int) == old(self).entities@,
            old(self).entities@.len() <= final(self).entities@.len() <= old(self).entities@.len() + events@.len(),
            forall|k: int|
                old(self).entities@.len() <= k < final(self).entities@.len() ==> is_orb(#[trigger] final(self).entities@[k]),
            old(self).next_id + events@.len() < u64::MAX ==> final(self).entities@ == old(self).entities@ + orbs_for(
                events@,
                old(self).next_id as int,
            ),
            final(self).kills == old(self).kills,
            final(self).game_over == old(self).game_over,
    {
        let ghost es0 = self.entities@;
        let ghost id0 = self.next_id as int;
        let mut i: usize = 0;
        while i < events.len()
            invariant
                i <= events@.len(),
                self.wf(),
                self.kills == old(self).kills,
                self.game_over == old(self).game_over,
                es0 == old(self).entities@,
                id0 == old(self).next_id,
                es0.len() <= self.entities@.len() <= es0.len() + i,
                self.entities@.take(es0.len() as int) == es0,
                forall|j: int| es0.len() <= j < self.entities@.len() ==> is_orb(#[trigger] self.entities@[j]),
                id0 + events@.len() < u64::MAX ==> self.entities@ == es0 + orbs_for(events@.take(i as int), id0)
                    && self.next_id == id0 + orb_events(events@.take(i as int)).len(),
            decreases events@.len() - i,
        {
            let ev = events[i];
            proof {
                assert(events@.take(i + 1).drop_last() =~= events@.take(i as int));
                assert(events@.take(i + 1).last() == ev);
                lemma_orb_events_len(events@.take(i as int));
            }
            let lim = COORD_LIMIT;
            let inside = -lim <= ev.position.x && ev.position.x <= lim && -lim <= ev.position.y && ev.position.y
                <= lim;
            if let Some(v) = ev.exp_value {
                if inside {
                    let orb = orb_entity(ev.position, v);
                    let ghost before = self.entities@;
                    let ghost id_before = self.next_id;
                    let _ = self.spawn(orb);
                    proof {
                        assert(self.entities@.take(es0.len() as int) =~= before.take(es0.len() as int));
                        if id0 + events@.len() < u64::MAX {
                            let oe = orb_events(events@.take(i as int));
                            assert(orb_events(events@.take(i + 1)) == oe.push(ev));
                            assert(orbs_for(events@.take(i + 1), id0) =~= orbs_for(events@.take(i as int), id0).push(
                                Entity { id: (id0 + oe.len()) as u64, ..orb },
                            ));
                            assert(id_before == id0 + oe.len());
                            assert(id_before < u64::MAX);
                            assert(self.entities@ == before.push(Entity { id: id_before, ..orb }));
                            assert(self.entities@ =~= es0 + orbs_for(events@.take(i + 1), id0));
                        }
                    }
                }
            }
            proof {
                if id0 + events@.len() < u64::MAX && !(ev.exp_value is Some && in_arena_event(ev)) {
                    assert(orb_events(events@.take(i + 1)) == orb_events(events@.take(i as int)));
                    assert(orbs_for(events@.take(i + 1), id0) =~= orbs_for(events@.take(i as int), id0));
                }
            }
            i = i + 1;
        }
        proof {
            assert(events@.take(i as int) =~= events@);
        }
    }

    /// The player collects every active orb it touches, in entity order:
    /// the orb's reward is gained and the orb is marked for despawn. Returns
    /// the levels gained. Without a player nothing happens.
    pub fn collect_experience_orbs(&mut self, exp: &mut Experience) -> (levels: u32)
        requires
            old(self).wf(),
            old(exp).wf(),
        ensures
            final(self).wf(),
            final(exp).wf(),
            old(exp).level <= final(exp).level,
            levels == final(exp).level - old(exp).level,
            ({
                let es = old(self).entities@;
                let p = first_player(es);
                if p < es.len() {
                    &&& final(self).entities@ == es.map_values(
                        |e: Entity| if collectible(e, es[p]) { despawned(e) } else { e },
                    )
                    &&& *final(exp) == after_gains(*old(exp), picked_rewards(es, es[p], es.len() as int))
                } else {
                    final(self).entities@ == es && *final(exp) == *old(exp)
                }
            }),
            final(self).next_id == old(self).next_id,
            final(self).kills == old(self).kills,
            final(self).game_over == old(self).game_over,
    {
        let start = exp.level;
        let p = self.find_player();
        let n = self.entities.len();
        if p >= n {
            return 0;
        }
        let player = self.entities[p];
        assert(entity_ok(player));
        let ghost es0 = self.entities@;
        let ghost x0 = *exp;
        let mut j: usize = 0;
        while j < n
            invariant
                n == self.entities@.len(),
                n == es0.len(),
                j <= n,
                player == es0[p as int],
                entities_wf(es0, self.next_id as int),
                entity_ok(player),
                exp.wf(),
                start <= exp.level,
                start == old(exp).level,
                x0 == *old(exp),
                *exp == after_gains(x0, picked_rewards(es0, player, j as int)),
                self.next_id == old(self).next_id,
                self.kills == old(self).kills,
                self.game_over == old(self).game_over,
                forall|k: int|
                    0 <= k < j ==> #[trigger] self.entities@[k] == (if collectible(es0[k], player) {
                        despawned(es0[k])
                    } else {
                        es0[k]
                    }),
                forall|k: int| j <= k < n ==> #[trigger] self.entities@[k] == es0[k],
            decreases n - j,
        {
            let e = self.entities[j];
            assert(entity_ok(es0[j as int]));
            assert(e == es0[j as int]);
            let orb = match e.body.kind {
                BodyKind::Pickup => e.target.state == LifeState::Active && e.reward.is_some(),
                _ => false,
            };
            if orb && touching(&player.body, &e.body) {
                let v = e.reward.unwrap();
                let ghost prev = *exp;
                let _ = exp.gain(v);
                proof {
                    assert(picked_rewards(es0, player, j + 1) == picked_rewards(es0, player, j as int).push(v));
                    assert(picked_rewards(es0, player, j + 1).drop_last() =~= picked_rewards(es0, player, j as int));
                }
                let mut d = e;
                d.target.state = LifeState::MarkedForDespawn;
                self.entities.set(j, d);
            }
            j = j + 1;
        }
        proof {
            assert(self.entities@ =~= es0.map_values(
                |e: Entity| if collectible(e, es0[p as int]) { despawned(e) } else { e },
            ));
            assert forall|k: int| 0 <= k < self.entities@.len() implies entity_ok(#[trigger] self.entities@[k])
                && self.entities@[k].id == es0[k].id by {
                assert(entity_ok(es0[k]));
            }
        }
        exp.level - start
    }
}

/// Entity `e` is an orb that `player` picks up: an active orb it touches.
pub open spec fn collectible(e: Entity, player: Entity) -> bool {
    is_orb(e) && bodies_touch(player.body, e.body)
}

/// The rewards of the orbs among entities `0..end` that `player` picks up,
/// in entity order.
pub open spec fn picked_rewards(es: Seq<Entity>, player: Entity, end: int) -> Seq<u32>
    decreases end,
{
    if end <= 0 {
        seq![]
    } else {
        picked_rewards(es, player, end - 1) + if collectible(es[end - 1], player) {
            seq![es[end - 1].reward->0]
        } else {
            seq![]
        }
    }
}

/// Experience after gaining each reward in turn.
pub open spec fn after_gains(x: Experience, rs: Seq<u32>) -> Experience
    decreases rs.len(),
{
    if rs.len() == 0 {
        x
    } else {
        let prev = after_gains(x, rs.drop_last());
        let r = resolve_levels(banked(prev.current as int, rs.last() as int), prev.level as int);
        Experience { current: r.0 as u64, level: r.1 as u32 }
    }
}

/// Radius of the player and of enemies.
pub const CHARACTER_RADIUS: i64 = 14;

/// Radius of a projectile.
pub const PROJECTILE_RADIUS: i64 = 8;

impl Entity {
    /// A player at `pos`: 100 health, hurt at most every 250 ms.
    pub fn player(pos: Point) -> (e: Entity)
        requires
            pos.in_arena(),
        ensures
            entity_ok(e),
            is_player(e),
            e.body == (Body { pos, radius: CHARACTER_RADIUS, kind: BodyKind::Player }),
            e.target == (Target {
                health: Some(Health { current: 100, maximum: 100 }),
                cooldown: Some(DamageCooldown { time: 0, cooldown: 250 }),
                state: LifeState::Active,
            }),
    {
        Entity {
            id: 0,
            body: Body { pos, radius: CHARACTER_RADIUS, kind: BodyKind::Player },
            velocity: Point { x: 0, y: 0 },
            speed: 0,
            target: Target {
                health: Some(Health { current: 100, maximum: 100 }),
                cooldown: Some(DamageCooldown::default()),
                state: LifeState::Active,
            },
            projectile: None,
            attack: None,
            reward: None,
            bound_by: None,
        }
    }

    /// An enemy at `pos` with 20 health, chasing at `speed` per tick and
    /// worth 50 experience.
    pub fn enemy(pos: Point, speed: i64) -> (e: Entity)
        requires
            pos.in_arena(),
            0 <= speed <= FORCE_LIMIT,
        ensures
            entity_ok(e),
            is_active_enemy(e),
            e.body == (Body { pos, radius: CHARACTER_RADIUS, kind: BodyKind::Enemy }),
            e.speed == speed,
            e.reward == Some(50u32),
            e.target == (Target {
                health: Some(Health { current: 20, maximum: 20 }),
                cooldown: None,
                state: LifeState::Active,
            }),
    {
        Entity {
            id: 0,
            body: Body { pos, radius: CHARACTER_RADIUS, kind: BodyKind::Enemy },
            velocity: Point { x: 0, y: 0 },
            speed,
            target: Target {
                health: Some(Health { current: 20, maximum: 20 }),
                cooldown: None,
                state: LifeState::Active,
            },
            projectile: None,
            attack: None,
            reward: Some(50),
            bound_by: None,
        }
    }

    /// A projectile at `pos` moving by `step` each sub-step.
    pub fn projectile(pos: Point, step: Point, stats: ProjectileStats) -> (e: Entity)
        requires
            pos.in_arena(),
            stats.wf(),
        ensures
            entity_ok(e),
            e.body == (Body { pos, radius: PROJECTILE_RADIUS, kind: BodyKind::Projectile }),
            e.velocity == step,
            e.projectile == Some(stats),
            e.target.state == LifeState::Active,
    {
        Entity {
            id: 0,
            body: Body { pos, radius: PROJECTILE_RADIUS, kind: BodyKind::Projectile },
            velocity: step,
            speed: 0,
            target: Target { health: None, cooldown: None, state: LifeState::Active },
            projectile: Some(stats),
            attack: None,
            reward: None,
            bound_by: None,
        }
    }
}

/// What the environment hands the simulation for one tick.
#[derive(Clone, Copy, Debug, PartialEq, Eq, Structural)]
pub struct FrameInput {
    /// Time since the start of the run, in milliseconds.
    pub now: u64,
    /// Time since the last tick, in milliseconds; zero while paused.
    pub dt: u64,
    /// The player's movement for this tick, already decoded from input.
    pub player_move: Point,
    /// The separation force per tick.
    pub separation_force: i64,
    pub modifiers: PlayerModifiers,
    /// The player's pull on experience orbs.
    pub magnet: Vacuumable,
}

/// What one tick reports back.
#[derive(Debug)]
pub struct FrameReport {
    pub deaths: Vec<EntityDeathEvent>,
    pub levels_gained: u32,
    pub attacks_spawned: usize,
}


/// The movement stage as a tick runs it: skipped above `MAX_BODIES`.
pub open spec fn movement_stage(es: Seq<Entity>, player_move: Point, force: int) -> Seq<Entity> {
    if es.len() <= MAX_BODIES {
        Seq::new(es.len(), |i: int| moved(es, i, player_move, force))
    } else {
        es
    }
}

/// The stages of a tick before weapons fire: movement, contact damage,
/// projectiles, area effects, attack lifetimes.
pub open spec fn combat_stages(es: Seq<Entity>, input: FrameInput) -> Seq<Entity> {
    let now = input.now as int;
    let s1 = movement_stage(es, input.player_move, input.separation_force as int);
    let s2 = after_contacts(s1, now);
    let s3 = projectile_steps(s2, s2.len() as int, now);
    let s4 = apply_hits(s3.map_values(|e: Entity| after_scan(e, now)), area_hits(s3, s3.len() as int, now), now);
    s4.map_values(|e: Entity| aged(e, input.dt as int))
}

/// The attacks fired from the entities `es`, around the first player.
pub open spec fn tick_fired(
    es: Seq<Entity>,
    ws: Seq<Weapon>,
    input: FrameInput,
    offsets: Seq<Vec<Point>>,
) -> Seq<AttackSpawn> {
    let p = first_player(es);
    if p < es.len() {
        fired_spawns(ws, input.modifiers, input.dt as int, es[p].body.pos, offsets)
    } else {
        seq![]
    }
}

/// The death stage: a downed player ends the run, else deaths resolve.
pub open spec fn death_stage(es: Seq<Entity>) -> Seq<Entity> {
    if any_player_down(es) {
        es.map_values(|e: Entity| if player_down(e) { despawned(e) } else { e })
    } else {
        es.map_values(|e: Entity| resolved(e))
    }
}

/// The events of the death stage.
pub open spec fn death_stage_events(es: Seq<Entity>) -> Seq<EntityDeathEvent> {
    if any_player_down(es) {
        seq![]
    } else {
        death_events(es)
    }
}

/// The orb collection stage's entities.
pub open spec fn collect_stage(es: Seq<Entity>) -> Seq<Entity> {
    let p = first_player(es);
    if p < es.len() {
        es.map_values(|e: Entity| if collectible(e, es[p]) { despawned(e) } else { e })
    } else {
        es
    }
}

/// The orb collection stage's experience.
pub open spec fn collect_gain(es: Seq<Entity>, x: Experience) -> Experience {
    let p = first_player(es);
    if p < es.len() {
        after_gains(x, picked_rewards(es, es[p], es.len() as int))
    } else {
        x
    }
}

proof fn lemma_first_player_range(es: Seq<Entity>)
    ensures
        0 <= first_player(es) <= es.len(),
    decreases es.len(),
{
    if es.len() > 0 {
        lemma_first_player_range(es.drop_last());
    }
}

proof fn lemma_update_len_steps(es: Seq<Entity>, n: int, now: int)
    requires
        0 <= n <= es.len(),
    ensures
        projectile_steps(es, n, now).len() == es.len(),
    decreases n,
{
    if n > 0 {
        lemma_update_len_steps(es, n - 1, now);
        lemma_enemy_indices(projectile_steps(es, n - 1, now));
    }
}

proof fn lemma_hits_len(es: Seq<Entity>, hits: Seq<AreaHit>, now: int)
    ensures
        apply_hits(es, hits, now).len() == es.len(),
    decreases hits.len(),
{
    if hits.len() > 0 {
        lemma_hits_len(es, hits.drop_last(), now);
    }
}

proof fn lemma_combat_len(es: Seq<Entity>, input: FrameInput)
    ensures
        combat_stages(es, input).len() == es.len(),
{
    let now = input.now as int;
    let s1 = movement_stage(es, input.player_move, input.separation_force as int);
    assert(s1.len() == es.len());
    lemma_first_player_range(s1);
    let s2 = after_contacts(s1, now);
    assert(s2.len() == es.len());
    lemma_update_len_steps(s2, s2.len() as int, now);
    let s3 = projectile_steps(s2, s2.len() as int, now);
    lemma_hits_len(s3.map_values(|e: Entity| after_scan(e, now)), area_hits(s3, s3.len() as int, now), now);
    let s4 = apply_hits(s3.map_values(|e: Entity| after_scan(e, now)), area_hits(s3, s3.len() as int, now), now);
    assert(s4.len() == es.len());
    assert(combat_stages(es, input) == s4.map_values(|e: Entity| aged(e, input.dt as int)));
}

proof fn lemma_death_events_len(es: Seq<Entity>)
    ensures
        death_events(es).len() <= es.len(),
    decreases es.len(),
{
    if es.len() > 0 {
        lemma_death_events_len(es.drop_last());
    }
}

/// Attacks added after `c` change neither the deaths nor a downed player.
proof fn lemma_attacks_appended(c: Seq<Entity>, w: Seq<Entity>)
    requires
        c.len() <= w.len(),
        w.take(c.len() as int) == c,
        forall|k: int| c.len() <= k < w.len() ==> is_attack_entity(#[trigger] w[k]),
    ensures
        death_events(w) == death_events(c),
        any_player_down(w) == any_player_down(c),
    decreases w.len(),
{
    if w.len() == c.len() {
        assert(w =~= c);
    } else {
        let pre = w.drop_last();
        assert(pre.take(c.len() as int) =~= w.take(c.len() as int));
        assert(is_attack_entity(w[w.len() - 1]));
        lemma_attacks_appended(c, pre);
        if any_player_down(w) {
            let i = choose|i: int| 0 <= i < w.len() && player_down(#[trigger] w[i]);
            assert(pre[i] == w[i]);
        }
        if any_player_down(pre) {
            let i = choose|i: int| 0 <= i < pre.len() && player_down(#[trigger] pre[i]);
            assert(pre[i] == w[i]);
        }
    }
}

impl World {
    /// One tick of the simulation, its stages in a fixed order: movement
    /// and separation (skipped while more than `MAX_BODIES` entities exist),
    /// contact damage, projectiles, area effects, attack lifetimes, weapon
    /// fire, death resolution, experience orbs (dropped, pulled, collected),
    /// and cleanup. Damage is resolved before deaths are, attacks spawned this
    /// tick start to age and scan on the next one, and despawned entities are
    /// gone before the next tick's collision pass.
    #[verifier::rlimit(60)]
    pub fn tick(
        &mut self,
        input: &FrameInput,
        weapons: &mut Vec<Weapon>,
        offsets: &Vec<Vec<Point>>,
        exp: &mut Experience,
    ) -> (report: FrameReport)
        requires
            old(self).wf(),
            old(exp).wf(),
            input.player_move.in_arena(),
            0 <= input.separation_force <= FORCE_LIMIT,
            input.modifiers.wf(),
            input.magnet.wf(),
        ensures
            final(self).wf(),
            final(exp).wf(),
            old(exp).level <= final(exp).level,
            report.levels_gained == final(exp).level - old(exp).level,
            forall|a: int, b: int|
                0 <= a < b < report.deaths@.len() ==> report.deaths@[a].entity != report.deaths@[b].entity,
            forall|k: int| 0 <= k < final(self).entities@.len() ==> (#[trigger] final(self).entities@[k]).target.state
                != LifeState::MarkedForDespawn,
            final(weapons)@.len() == old(weapons)@.len(),
            old(self).game_over ==> final(self).game_over,
            ({
                let c = combat_stages(old(self).entities@, *input);
                let fired = tick_fired(c, old(weapons)@, *input, offsets@);
                let w = c + attacks_from(fired, old(self).next_id as int);
                let d = death_stage(w);
                let o = d + orbs_for(report.deaths@, old(self).next_id + fired.len());
                &&& report.deaths@ == death_stage_events(c)
                &&& old(self).next_id + old(self).entities@.len() + 2 * fired.len() < u64::MAX ==> {
                    &&& report.attacks_spawned == fired.len()
                    &&& final(self).entities@ == kept(collect_stage(vacuum_stage(o, input.magnet)))
                    &&& *final(exp) == collect_gain(vacuum_stage(o, input.magnet), *old(exp))
                }
            }),
    {
        let ghost es0 = self.entities@;
        let ghost id0 = self.next_id as int;
        let ghost ws0 = weapons@;
        if self.entities.len() <= MAX_BODIES {
            self.apply_movement_system(input.player_move, input.separation_force);
        }
        self.handle_player_enemy_collision(input.now);
        self.projectile_physics_system(input.now);
        let _hits = self.area_effect_system(input.now);
        self.attack_lifetime_system(input.dt);
        let ghost c = self.entities@;
        proof {
            assert(c == combat_stages(es0, *input));
            lemma_combat_len(es0, *input);
        }
        let spawned = self.weapon_firing_system(weapons, input.modifiers, input.dt, offsets);
        let ghost before_deaths = self.entities@;
        proof {
            lemma_attacks_appended(c, before_deaths);
        }
        let deaths = self.death_system();
        proof {
            lemma_one_event_per_entity(before_deaths);
            let fired = tick_fired(c, ws0, *input, offsets@);
            if id0 + es0.len() + 2 * fired.len() < u64::MAX {
                assert(before_deaths == c + attacks_from(fired, id0));
                lemma_death_events_len(before_deaths);
            }
        }
        self.spawn_experience_orbs(&deaths);
        self.vacuum_system(input.magnet);
        let levels = self.collect_experience_orbs(exp);
        let ghost before_cleanup = self.entities@;
        self.cleanup_marked_entities();
        proof {
            lemma_kept_not_despawned(before_cleanup);
        }
        FrameReport { deaths, levels_gained: levels, attacks_spawned: spawned }
    }
}

proof fn lemma_kept_not_despawned(es: Seq<Entity>)
    ensures
        forall|k: int| 0 <= k < kept(es).len() ==> (#[trigger] kept(es)[k]).target.state != LifeState::MarkedForDespawn,
    decreases es.len(),
{
    if es.len() > 0 {
        lemma_kept_not_despawned(es.drop_last());
    }
}

/// Index of the first entity with id `id`, or the length when there is none.
pub open spec fn find_id(es: Seq<Entity>, id: u64) -> int
    decreases es.len(),
{
    if es.len() == 0 {
        0
    } else {
        let f = find_id(es.drop_last(), id);
        if f < es.len() - 1 {
            f
        } else if es.last().id == id {
            es.len() - 1
        } else {
            es.len() as int
        }
    }
}

/// The entities after one damage event: it is offered to the entity with the
/// event's target id; an event for no entity, or with an amount out of range,
/// is dropped.
pub open spec fn apply_event(es: Seq<Entity>, ev: DamageEvent, now: int) -> Seq<Entity> {
    let k = find_id(es, ev.target);
    if k < es.len() && 0 <= ev.amount <= DAMAGE_LIMIT {
        es.update(k, Entity { target: damage_result(es[k].target, ev.amount as int, now).0, ..es[k] })
    } else {
        es
    }
}

/// The entities after the events, offered in order.
pub open spec fn apply_events(es: Seq<Entity>, evs: Seq<DamageEvent>, now: int) -> Seq<Entity>
    decreases evs.len(),
{
    if evs.len() == 0 {
        es
    } else {
        apply_event(apply_events(es, evs.drop_last(), now), evs.last(), now)
    }
}

proof fn lemma_find_id_prefix(es: Seq<Entity>, i: int, id: u64)
    requires
        0 <= i < es.len(),
        find_id(es.take(i), id) == i,
        es[i].id == id,
    ensures
        find_id(es, id) == i,
    decreases es.len(),
{
    if es.len() == i + 1 {
        assert(es.drop_last() =~= es.take(i));
    } else {
        let pre = es.drop_last();
        assert(pre.take(i) =~= es.take(i));
        lemma_find_id_prefix(pre, i, id);
    }
}

impl World {
    fn index_of(&self, id: u64) -> (r: usize)
        ensures
            r == find_id(self.entities@, id),
    {
        let mut i: usize = 0;
        let mut found: usize = self.entities.len();
        let mut done = false;
        while i < self.entities.len() && !done
            invariant
                i <= self.entities@.len(),
                done ==> found == find_id(self.entities@, id) && found < self.entities@.len(),
                !done ==> find_id(self.entities@.take(i as int), id) == i,
            decreases self.entities@.len() - i, if done { 0int } else { 1int },
        {
            proof {
                assert(self.entities@.take(i + 1).drop_last() =~= self.entities@.take(i as int));
            }
            if self.entities[i].id == id {
                found = i;
                done = true;
                proof {
                    lemma_find_id_prefix(self.entities@, i as int, id);
                }
            } else {
                i = i + 1;
            }
        }
        if !done {
            proof {
                assert(self.entities@.take(i as int) =~= self.entities@);
            }
            return self.entities.len();
        }
        found
    }

    /// The damage stage for queued events: each event is offered, in order,
    /// to the entity it names, under that entity's cooldown.
    pub fn handle_damage_events(&mut self, events: &Vec<DamageEvent>, now: u64)
        requires
            old(self).wf(),
        ensures
            final(self).wf(),
            final(self).entities@ == apply_events(old(self).entities@, events@, now as int),
            final(self).next_id == old(self).next_id,
            final(self).kills == old(self).kills,
            final(self).game_over == old(self).game_over,
    {
        let ghost es0 = self.entities@;
        let mut i: usize = 0;
        while i < events.len()
            invariant
                i <= events@.len(),
                self.next_id == old(self).next_id,
                self.kills == old(self).kills,
                self.game_over == old(self).game_over,
                self.wf(),
                self.entities@ == apply_events(es0, events@.take(i as int), now as int),
            decreases events@.len() - i,
        {
            let ev = events[i];
            proof {
                assert(events@.take(i + 1).drop_last() =~= events@.take(i as int));
                assert(events@.take(i + 1).last() == ev);
            }
            let k = self.index_of(ev.target);
            if k < self.entities.len() && 0 <= ev.amount && ev.amount <= DAMAGE_LIMIT {
                let mut e = self.entities[k];
                handle_damage(&mut e.target, ev.amount, now);
                let ghost before = self.entities@;
                self.entities.set(k, e);
                proof {
                    assert forall|j: int| 0 <= j < self.entities@.len() implies entity_ok(#[trigger] self.entities@[j])
                        && self.entities@[j].id == before[j].id by {
                        assert(entity_ok(before[j]));
                    }
                }
            }
            i = i + 1;
        }
        proof {
            assert(events@.take(i as int) =~= events@);
        }
    }
}

/// Largest magnet radius.
pub const MAGNET_LIMIT: i64 = 0x1_0000;

/// The player's pull on experience orbs: the radius within which orbs are
/// drawn in, and their base speed per tick.
#[derive(Clone, Copy, Debug, PartialEq, Eq, Structural)]
pub struct Vacuumable {
    pub radius: i64,
    pub base_speed: i64,
}

impl Default for Vacuumable {
    /// A pull over 150 units at 5 units per tick.
    fn default() -> (r: Self)
        ensures
            r.radius == 150,
            r.base_speed == 5,
    {
        Vacuumable { radius: 150, base_speed: 5 }
    }
}

impl Vacuumable {
    pub open spec fn wf(self) -> bool {
        &&& 0 < self.radius <= MAGNET_LIMIT
        &&& 0 <= self.base_speed
        &&& 3 * self.base_speed <= FORCE_LIMIT
    }
}

/// How far an orb at squared distance `dsq` is pulled this tick: with
/// influence `i = 1 - dsq / R²`, `base × (2i + i³)`, rounded down; nothing at
/// or beyond the radius.
pub open spec fn vacuum_speed(dsq: int, m: Vacuumable) -> int {
    let r2 = m.radius * m.radius;
    if dsq >= r2 {
        0
    } else {
        let q = r2 - dsq;
        m.base_speed * (2 * q * r2 * r2 + q * q * q) / (r2 * r2 * r2)
    }
}

/// An orb after the pull toward `target`: it moves along the line to the
/// target by the pull, but never past it.
pub open spec fn pulled(e: Entity, target: Entity, m: Vacuumable) -> Entity {
    let dsq = dist_sq(e.body.pos, target.body.pos);
    let d = int_sqrt(dsq);
    let sp = vacuum_speed(dsq, m);
    let step = if sp > d { d } else { sp };
    if d == 0 || step == 0 {
        e
    } else {
        let vx = target.body.pos.x - e.body.pos.x;
        let vy = target.body.pos.y - e.body.pos.y;
        Entity {
            body: Body {
                pos: Point {
                    x: (e.body.pos.x + scale(vx, step, d)) as i64,
                    y: (e.body.pos.y + scale(vy, step, d)) as i64,
                },
                ..e.body
            },
            ..e
        }
    }
}

/// The entities after the pull: every active orb moves toward the first
/// player; without a player nothing moves.
pub open spec fn vacuum_stage(es: Seq<Entity>, m: Vacuumable) -> Seq<Entity> {
    let p = first_player(es);
    if p < es.len() {
        es.map_values(|e: Entity| if is_orb(e) { pulled(e, es[p], m) } else { e })
    } else {
        es
    }
}

fn vacuum_speed_exec(dsq: i128, m: Vacuumable) -> (r: i64)
    requires
        m.wf(),
        0 <= dsq,
    ensures
        r == vacuum_speed(dsq as int, m),
        0 <= r <= FORCE_LIMIT,
{
    let rr = m.radius as i128;
    assert(0 < rr <= 0x1_0000);
    assert(0 < rr * rr <= 0x1_0000_0000) by (nonlinear_arith)
        requires
            0 < rr <= 0x1_0000,
    ;
    let r2: i128 = rr * rr;
    if dsq >= r2 {
        return 0;
    }
    let q = r2 - dsq;
    let ghost lim: int = 0x1_0000_0000;
    assert(0 < r2 <= lim);
    assert(0 < q <= r2);
    assert(0 < r2 * r2 <= lim * lim) by (nonlinear_arith)
        requires
            0 < r2 <= lim,
    ;
    assert(0 < r2 * r2 * r2 <= lim * lim * lim) by (nonlinear_arith)
        requires
            0 < r2 * r2 <= lim * lim,
            0 < r2 <= lim,
    ;
    assert(0 < q * r2 * r2 <= r2 * r2 * r2) by (nonlinear_arith)
        requires
            0 < q <= r2,
            0 < r2,
    ;
    assert(0 < q * q <= r2 * r2) by (nonlinear_arith)
        requires
            0 < q <= r2,
    ;
    assert(0 < q * q * q <= r2 * r2 * r2) by (nonlinear_arith)
        requires
            0 < q * q <= r2 * r2,
            0 < q <= r2,
            0 < r2 * r2,
    ;
    assert(0 < 2 * q * r2 <= 2 * lim * lim) by (nonlinear_arith)
        requires
            0 < q <= r2,
            0 < r2 <= lim,
    ;
    assert(0 < 2 * q * r2 * r2 <= 2 * lim * lim * lim) by (nonlinear_arith)
        requires
            0 < 2 * q * r2 <= 2 * lim * lim,
            0 < r2 <= lim,
    ;
    let num = 2 * q * r2 * r2 + q * q * q;
    let den = r2 * r2 * r2;
    assert(0 < num <= 3 * den) by (nonlinear_arith)
        requires
            num == 2 * q * r2 * r2 + q * q * q,
            den == r2 * r2 * r2,
            0 < q * r2 * r2 <= r2 * r2 * r2,
            0 < q * q * q <= r2 * r2 * r2,
    ;
    let base = m.base_speed as i128;
    assert(0 <= base <= 0x10_0000);
    assert(0 < den <= lim * lim * lim);
    assert(0 <= base * num <= base * (3 * den)) by (nonlinear_arith)
        requires
            0 <= base,
            0 < num <= 3 * den,
    ;
    assert(base * (3 * den) <= 0x10_0000 * 3 * (lim * lim * lim)) by (nonlinear_arith)
        requires
            0 <= base <= 0x10_0000,
            0 < den <= lim * lim * lim,
    ;
    assert(lim * lim * lim == 0x1_0000_0000_0000_0000_0000_0000);
    assert(base * num <= 0x100_0000_0000_0000_0000_0000_0000_0000);
    assert(0 <= base * num);
    let v = base * num / den;
    proof {
        let bi = base as int;
        let ni = num as int;
        let di = den as int;
        assert(bi * ni / di <= 3 * bi) by (nonlinear_arith)
            requires
                0 <= bi * ni <= bi * (3 * di),
                0 < di,
        ;
        assert(0 <= bi * ni / di) by (nonlinear_arith)
            requires
                0 <= bi * ni,
                0 < di,
        ;
    }
    v as i64
}

impl World {
    /// The orb pull: every active orb within the player's magnet radius moves
    /// toward the player, faster the closer it is.
    pub fn vacuum_system(&mut self, m: Vacuumable)
        requires
            old(self).wf(),
            m.wf(),
        ensures
            final(self).wf(),
            final(self).entities@ == vacuum_stage(old(self).entities@, m),
            final(self).next_id == old(self).next_id,
            final(self).kills == old(self).kills,
            final(self).game_over == old(self).game_over,
    {
        let p = self.find_player();
        let n = self.entities.len();
        if p >= n {
            return;
        }
        let player = self.entities[p];
        assert(entity_ok(player));
        let ghost es0 = self.entities@;
        let mut i: usize = 0;
        while i < n
            invariant
                n == self.entities@.len(),
                n == es0.len(),
                i <= n,
                p < n,
                player == es0[p as int],
                p == first_player(es0),
                m.wf(),
                entity_ok(player),
                entities_wf(es0, self.next_id as int),
                self.next_id == old(self).next_id,
                self.kills == old(self).kills,
                self.game_over == old(self).game_over,
                forall|k: int|
                    0 <= k < i ==> #[trigger] self.entities@[k] == (if is_orb(es0[k]) {
                        pulled(es0[k], player, m)
                    } else {
                        es0[k]
                    }),
                forall|k: int| 0 <= k < i ==> entity_ok(#[trigger] self.entities@[k]),
                forall|k: int| i <= k < n ==> #[trigger] self.entities@[k] == es0[k],
            decreases n - i,
        {
            let e = self.entities[i];
            assert(entity_ok(es0[i as int]));
            let orb = match e.body.kind {
                BodyKind::Pickup => e.target.state == LifeState::Active && e.reward.is_some(),
                _ => false,
            };
            if orb {
                let dsq = distance_squared(e.body.pos, player.body.pos);
                let d = isqrt(dsq as u64) as i64;
                let sp = vacuum_speed_exec(dsq, m);
                let step: i64 = if sp > d { d } else { sp };
                if d != 0 && step != 0 {
                    let vx: i64 = player.body.pos.x - e.body.pos.x;
                    let vy: i64 = player.body.pos.y - e.body.pos.y;
                    proof {
                        crate::physics::lemma_component_le_root(vx as int, vy as int, d as int);
                        assert(vy * vy + vx * vx == vx * vx + vy * vy);
                        crate::physics::lemma_component_le_root(vy as int, vx as int, d as int);
                    }
                    let dx = scale_exec(vx, step, d);
                    let dy = scale_exec(vy, step, d);
                    proof {
                        lemma_scaled_stays_between(e.body.pos.x as int, vx as int, step as int, d as int);
                        lemma_scaled_stays_between(e.body.pos.y as int, vy as int, step as int, d as int);
                    }
                    let mut moved_orb = e;
                    moved_orb.body.pos = Point { x: e.body.pos.x + dx, y: e.body.pos.y + dy };
                    self.entities.set(i, moved_orb);
                }
            }
            i = i + 1;
        }
        proof {
            assert(self.entities@ =~= vacuum_stage(es0, m));
        }
    }
}

/// Moving from `x` by at most the whole offset `v` toward `x + v` stays
/// between the two.
proof fn lemma_scaled_stays_between(x: int, v: int, step: int, d: int)
    requires
        0 < d,
        0 <= step <= d,
        -d <= v <= d,
    ensures
        v >= 0 ==> x <= x + scale(v, step, d) <= x + v,
        v < 0 ==> x + v <= x + scale(v, step, d) <= x,
{
    if v >= 0 {
        assert(v * step <= v * d) by (nonlinear_arith)
            requires
                0 <= v,
                step <= d,
        ;
        assert(v * step / d <= v) by (nonlinear_arith)
            requires
                v * step <= v * d,
                0 < d,
                0 <= v * step,
        ;
        assert(0 <= v * step) by (nonlinear_arith)
            requires
                0 <= v,
                0 <= step,
        ;
        assert(0 <= v * step / d) by (nonlinear_arith)
            requires
                0 <= v * step,
                0 < d,
        ;
    } else {
        let w = -v;
        assert(w * step <= w * d) by (nonlinear_arith)
            requires
                0 <= w,
                step <= d,
        ;
        assert(w * step / d <= w) by (nonlinear_arith)
            requires
                w * step <= w * d,
                0 < d,
                0 <= w * step,
        ;
        assert(0 <= w * step) by (nonlinear_arith)
            requires
                0 <= w,
                0 <= step,
        ;
        assert(0 <= w * step / d) by (nonlinear_arith)
            requires
                0 <= w * step,
                0 < d,
        ;
    }
}

} // verus!
