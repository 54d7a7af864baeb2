use vstd::prelude::*;

use crate::lifecycle::{marked, LifeState};

verus! {

/// Largest amount a single damage application may carry.
pub const DAMAGE_LIMIT: i64 = 0x7FFF_FFFF;

/// Hit points; zero or below means dead. Never clamped before the death check.
#[derive(Clone, Copy, Debug, PartialEq, Eq, Structural)]
pub struct Health {
    pub current: i64,
    pub maximum: i64,
}

/// Rate limit on damage taken: no damage is accepted less than `cooldown`
/// milliseconds after the last accepted damage at `time`.
#[derive(Clone, Copy, Debug, PartialEq, Eq, Structural)]
pub struct DamageCooldown {
    pub time: u64,
    pub cooldown: u64,
}

impl Default for DamageCooldown {
    fn default() -> (r: Self)
        ensures
            r.time == 0,
            r.cooldown == 250,
    {
        DamageCooldown { time: 0, cooldown: 250 }
    }
}

/// Time of the last damage dealt, with the interval that gates the next one.
#[derive(Clone, Copy, Debug, PartialEq, Eq, Structural)]
pub struct LastDamageTime {
    pub time: u64,
    pub cooldown: u64,
}

impl Default for LastDamageTime {
    fn default() -> (r: Self)
        ensures
            r.time == 0,
            r.cooldown == 250,
    {
        LastDamageTime { time: 0, cooldown: 250 }
    }
}

/// A request to damage an entity, by id.
#[derive(Clone, Copy, Debug, PartialEq, Eq, Structural)]
pub struct DamageEvent {
    pub target: u64,
    pub amount: i64,
    pub source: Option<u64>,
}

/// What can be damaged: health, an optional rate limit, and a life state.
#[derive(Clone, Copy, Debug, PartialEq, Eq, Structural)]
pub struct Target {
    pub health: Option<Health>,
    pub cooldown: Option<DamageCooldown>,
    pub state: LifeState,
}

/// A target without a cooldown is never rate limited.
pub open spec fn cooldown_allows(cd: Option<DamageCooldown>, now: int) -> bool {
    match cd {
        None => true,
        Some(c) => now >= c.time + c.cooldown,
    }
}

/// `current - amount`, bounded below by the smallest `i64`.
pub open spec fn lowered(current: int, amount: int) -> int {
    if current - amount < i64::MIN {
        i64::MIN as int
    } else {
        current - amount
    }
}

/// The target after damage of `amount` is offered at time `now`, and whether
/// it was accepted. A rejected hit changes nothing. An accepted one restarts
/// the cooldown, lowers health, and marks the target for death when its health
/// is then at or below zero.
pub open spec fn damage_result(t: Target, amount: int, now: int) -> (Target, bool) {
    if !cooldown_allows(t.cooldown, now) {
        (t, false)
    } else {
        let cooldown = match t.cooldown {
            None => None,
            Some(c) => Some(DamageCooldown { time: now as u64, ..c }),
        };
        match t.health {
            None => (Target { cooldown, ..t }, true),
            Some(h) => {
                let cur = lowered(h.current as int, amount);
                (
                    Target {
                        health: Some(Health { current: cur as i64, ..h }),
                        cooldown,
                        state: if cur <= 0 { marked(t.state) } else { t.state },
                    },
                    true,
                )
            },
        }
    }
}

/// Whether the cooldown lets damage through at `now`.
pub fn cooldown_ready(cd: &Option<DamageCooldown>, now: u64) -> (r: bool)
    ensures
        r == cooldown_allows(*cd, now as int),
{
    match cd {
        None => true,
        Some(c) => now >= c.time && now - c.time >= c.cooldown,
    }
}

/// Offers damage to a target; returns whether it was accepted.
pub fn handle_damage(t: &mut Target, amount: i64, now: u64) -> (accepted: bool)
    requires
        0 <= amount <= DAMAGE_LIMIT,
    ensures
        (*final(t), accepted) == damage_result(*old(t), amount as int, now as int),
{
    if !cooldown_ready(&t.cooldown, now) {
        return false;
    }
    if let Some(c) = &mut t.cooldown {
        c.time = now;
    }
    if let Some(h) = &mut t.health {
        let cur: i64 = if h.current < i64::MIN + amount {
            i64::MIN
        } else {
            h.current - amount
        };
        h.current = cur;
        if cur <= 0 {
            crate::lifecycle::mark_for_death(&mut t.state);
        }
    }
    true
}

/// Two damage applications accepted one after the other on a target with a
/// cooldown are at least the cooldown's interval apart.
pub proof fn lemma_cooldown_respected(t: Target, a1: int, now1: int, a2: int, now2: int)
    requires
        t.cooldown is Some,
        0 <= now1 <= u64::MAX,
    ensures
        ({
            let (t1, ok1) = damage_result(t, a1, now1);
            let (t2, ok2) = damage_result(t1, a2, now2);
            ok1 && ok2 ==> now2 >= now1 + t.cooldown->0.cooldown
        }),
{
}

/// A projectile's damage, remaining pierce budget, and its own re-trigger
/// cooldown (milliseconds) since its last hit.
#[derive(Clone, Copy, Debug, PartialEq, Eq, Structural)]
pub struct ProjectileStats {
    pub damage: i64,
    pub pierce: u32,
    pub retrigger: u64,
    pub last_hit: Option<u64>,
}

impl ProjectileStats {
    pub open spec fn wf(self) -> bool {
        0 <= self.damage <= DAMAGE_LIMIT
    }
}

/// What offering a projectile hit did.
#[derive(Clone, Copy, Debug, PartialEq, Eq, Structural)]
pub enum HitOutcome {
    /// A cooldown (the projectile's or the target's) dropped the hit.
    Ignored,
    /// The hit landed; `killed` tells whether it moved the target from
    /// active to marked for death.
    Hit { killed: bool },
}

pub open spec fn projectile_ready(p: ProjectileStats, now: int) -> bool {
    match p.last_hit {
        None => true,
        Some(t) => now >= t + p.retrigger,
    }
}

/// The pierce budget after one valid hit: one less, never below zero.
pub open spec fn pierce_after(pierce: u32) -> u32 {
    if pierce > 0 {
        (pierce - 1) as u32
    } else {
        0
    }
}

/// A projectile in state `ps` offers a hit on target `t` at time `now`.
///
/// The hit is valid when both the projectile's re-trigger cooldown and the
/// target's cooldown allow it. A valid hit damages the target, spends one unit
/// of pierce, and marks the projectile for death when its budget is then zero;
/// an invalid one changes nothing.
pub open spec fn hit_result(p: ProjectileStats, ps: LifeState, t: Target, now: int) -> (
    ProjectileStats,
    LifeState,
    Target,
    HitOutcome,
) {
    if !projectile_ready(p, now) || !cooldown_allows(t.cooldown, now) {
        (p, ps, t, HitOutcome::Ignored)
    } else {
        let t2 = damage_result(t, p.damage as int, now).0;
        let pierce = pierce_after(p.pierce);
        (
            ProjectileStats { pierce, last_hit: Some(now as u64), ..p },
            if pierce == 0 { marked(ps) } else { ps },
            t2,
            HitOutcome::Hit {
                killed: t.state == LifeState::Active && t2.state == LifeState::MarkedForDeath,
            },
        )
    }
}

/// Whether the projectile's own re-trigger cooldown has run out at `now`.
pub fn projectile_ready_at(p: &ProjectileStats, now: u64) -> (r: bool)
    ensures
        r == projectile_ready(*p, now as int),
{
    match p.last_hit {
        None => true,
        Some(t) => now >= t && now - t >= p.retrigger,
    }
}

/// Resolves a projectile hitting a target.
pub fn projectile_hit(p: &mut ProjectileStats, ps: &mut LifeState, t: &mut Target, now: u64) -> (r: HitOutcome)
    requires
        old(p).wf(),
    ensures
        (*final(p), *final(ps), *final(t), r) == hit_result(*old(p), *old(ps), *old(t), now as int),
        final(p).wf(),
{
    if !projectile_ready_at(p, now) || !cooldown_ready(&t.cooldown, now) {
        return HitOutcome::Ignored;
    }
    let was_active = t.state == LifeState::Active;
    let accepted = handle_damage(t, p.damage, now);
    assert(accepted);
    if p.pierce > 0 {
        p.pierce = p.pierce - 1;
    }
    p.last_hit = Some(now);
    if p.pierce == 0 {
        crate::lifecycle::mark_for_death(ps);
    }
    HitOutcome::Hit { killed: was_active && t.state == LifeState::MarkedForDeath }
}

/// Pierce never grows and never goes below zero, and a projectile is marked
/// for death through its own hit only once its budget is exactly zero.
pub proof fn lemma_pierce_monotone(p: ProjectileStats, ps: LifeState, t: Target, now: int)
    ensures
        ({
            let (after, after_state, _, _) = hit_result(p, ps, t, now);
            &&& after.pierce <= p.pierce
            &&& (ps == LifeState::Active && after_state == LifeState::MarkedForDeath ==> after.pierce == 0)
        }),
{
}

/// A projectile's stats and state after offering hits on the targets in
/// turn, each at its time, with the number of hits that landed.
pub open spec fn hits_in_turn(p: ProjectileStats, ps: LifeState, hits: Seq<(Target, int)>) -> (ProjectileStats, LifeState, int)
    decreases hits.len(),
{
    if hits.len() == 0 {
        (p, ps, 0)
    } else {
        let prev = hits_in_turn(p, ps, hits.drop_last());
        let r = hit_result(prev.0, prev.1, hits.last().0, hits.last().1);
        (r.0, r.1, prev.2 + if r.3 is Hit { 1int } else { 0 })
    }
}

/// Over any number of hits, each hit that lands spends exactly one unit of
/// pierce, and an active projectile is marked for death exactly when its
/// budget has reached zero.
pub proof fn lemma_pierce_counts_hits(p: ProjectileStats, hits: Seq<(Target, int)>)
    requires
        p.pierce >= 1,
    ensures
        ({
            let (after, state, landed) = hits_in_turn(p, LifeState::Active, hits);
            &&& after.pierce == if landed <= p.pierce { p.pierce - landed } else { 0 }
            &&& (state == LifeState::MarkedForDeath <==> after.pierce == 0)
            &&& (state == LifeState::Active || state == LifeState::MarkedForDeath)
        }),
    decreases hits.len(),
{
    if hits.len() > 0 {
        lemma_pierce_counts_hits(p, hits.drop_last());
    }
}

/// A target after damage offers `(amount, now)` in turn, with the times at
/// which an offer was accepted.
pub open spec fn offers_in_turn(t: Target, offers: Seq<(int, int)>) -> (Target, Seq<int>)
    decreases offers.len(),
{
    if offers.len() == 0 {
        (t, seq![])
    } else {
        let prev = offers_in_turn(t, offers.drop_last());
        let r = damage_result(prev.0, offers.last().0, offers.last().1);
        (r.0, if r.1 { prev.1.push(offers.last().1) } else { prev.1 })
    }
}

/// Over any sequence of damage offers to a target with a cooldown, any two
/// accepted applications are at least the cooldown's interval apart.
pub proof fn lemma_cooldown_respected_in_turn(t: Target, offers: Seq<(int, int)>)
    requires
        t.cooldown is Some,
        forall|i: int| 0 <= i < offers.len() ==> 0 <= (#[trigger] offers[i]).1 <= u64::MAX,
    ensures
        ({
            let times = offers_in_turn(t, offers).1;
            forall|a: int, b: int| 0 <= a < b < times.len() ==> times[b] >= times[a] + t.cooldown->0.cooldown
        }),
        offers_in_turn(t, offers).0.cooldown is Some,
        offers_in_turn(t, offers).0.cooldown->0.cooldown == t.cooldown->0.cooldown,
        forall|a: int|
            0 <= a < offers_in_turn(t, offers).1.len() ==> #[trigger] offers_in_turn(t, offers).1[a]
                <= offers_in_turn(t, offers).0.cooldown->0.time,
    decreases offers.len(),
{
    if offers.len() > 0 {
        let pre = offers.drop_last();
        assert forall|i: int| 0 <= i < pre.len() implies 0 <= (#[trigger] pre[i]).1 <= u64::MAX by {
            assert(pre[i] == offers[i]);
        }
        lemma_cooldown_respected_in_turn(t, pre);
        assert(0 <= offers[offers.len() - 1].1 <= u64::MAX);
    }
}

} // verus!
