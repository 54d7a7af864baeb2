use vstd::prelude::*;

use crate::combat::DAMAGE_LIMIT;
use crate::geometry::{Point, RADIUS_LIMIT};
use crate::physics::{clamp_coord, displace};

verus! {

/// Kinds of weapon.
#[derive(Clone, Copy, Debug, PartialEq, Eq, Hash, Structural)]
pub enum WeaponType {
    MagickCircle,
}

/// What an area-effect attack does to the enemies it covers.
#[derive(Clone, Copy, Debug, PartialEq, Eq, Structural)]
pub enum PatternType {
    Protection,
    Binding,
    Banishment,
    Invocation,
    Manifestation,
}

pub open spec fn weapon_label(w: WeaponType) -> Seq<char> {
    match w {
        WeaponType::MagickCircle => "Magick Circle"@,
    }
}

pub open spec fn pattern_label(p: PatternType) -> Seq<char> {
    match p {
        PatternType::Protection => "Protection"@,
        PatternType::Binding => "Binding"@,
        PatternType::Banishment => "Banishment"@,
        PatternType::Invocation => "Invocation"@,
        PatternType::Manifestation => "Manifestation"@,
    }
}

impl WeaponType {
    /// The display name of the weapon.
    pub fn to_string(&self) -> (r: String)
        ensures
            r@ == weapon_label(*self),
    {
        match self {
            WeaponType::MagickCircle => "Magick Circle".to_owned(),
        }
    }
}

impl PatternType {
    /// The display name of the pattern.
    pub fn to_string(&self) -> (r: String)
        ensures
            r@ == pattern_label(*self),
    {
        match self {
            PatternType::Protection => "Protection".to_owned(),
            PatternType::Binding => "Binding".to_owned(),
            PatternType::Banishment => "Banishment".to_owned(),
            PatternType::Invocation => "Invocation".to_owned(),
            PatternType::Manifestation => "Manifestation".to_owned(),
        }
    }
}

/// A weapon's kind and level.
#[derive(Clone, Copy, Debug, PartialEq, Eq, Structural)]
pub struct WeaponMeta {
    pub weapon_type: WeaponType,
    pub level: u32,
}

/// The firing timer: time accumulated toward the next shot (milliseconds),
/// the base interval, and a percentage bonus (negative is faster).
#[derive(Clone, Copy, Debug, PartialEq, Eq, Structural)]
pub struct WeaponCooldown {
    pub elapsed: u64,
    pub base_duration: u64,
    pub cooldown_bonus: i32,
}

impl Default for WeaponCooldown {
    fn default() -> (r: Self)
        ensures
            r.elapsed == 0,
            r.base_duration == 1000,
            r.cooldown_bonus == 0,
    {
        WeaponCooldown { elapsed: 0, base_duration: 1000, cooldown_bonus: 0 }
    }
}

/// Base damage and a percentage bonus.
#[derive(Clone, Copy, Debug, PartialEq, Eq, Structural)]
pub struct WeaponDamage {
    pub base_amount: i32,
    pub damage_bonus: i32,
}

/// Base radius and a percentage bonus.
#[derive(Clone, Copy, Debug, PartialEq, Eq, Structural)]
pub struct WeaponArea {
    pub base_radius: i64,
    pub area_bonus: i32,
}

/// Timing of the attacks a weapon spawns: how long each lives and how often it
/// re-scans for enemies (milliseconds).
#[derive(Clone, Copy, Debug, PartialEq, Eq, Structural)]
pub struct AreaEffect {
    pub duration: u64,
    pub tick_rate: u64,
}

/// The patterns a magick circle weapon owns; one attack is spawned per pattern.
#[derive(Debug)]
pub struct MagickCircle {
    pub patterns: Vec<PatternType>,
    pub num_sigils: u32,
}

/// An equipped weapon with its stats.
#[derive(Debug)]
pub struct Weapon {
    pub meta: WeaponMeta,
    pub cooldown: WeaponCooldown,
    pub damage: WeaponDamage,
    pub area: WeaponArea,
    pub circle: MagickCircle,
    pub effect: AreaEffect,
}

/// The player's cooldown reduction, in percent (0 to 100).
#[derive(Clone, Copy, Debug, PartialEq, Eq, Structural)]
pub struct CooldownReduction {
    pub percent: u32,
}

/// The player's damage multiplier, in percent (100 is neutral).
#[derive(Clone, Copy, Debug, PartialEq, Eq, Structural)]
pub struct DamageMultiplier {
    pub percent: u32,
}

/// The player's area multiplier, in percent (100 is neutral).
#[derive(Clone, Copy, Debug, PartialEq, Eq, Structural)]
pub struct AreaMultiplier {
    pub percent: u32,
}

/// The player's luck; each point adds two percent to the chance of a fourth
/// upgrade choice.
#[derive(Clone, Copy, Debug, PartialEq, Eq, Structural)]
pub struct Luck(pub i32);

impl Default for CooldownReduction {
    fn default() -> (r: Self)
        ensures
            r.percent == 0,
    {
        CooldownReduction { percent: 0 }
    }
}

impl Default for DamageMultiplier {
    fn default() -> (r: Self)
        ensures
            r.percent == 100,
    {
        DamageMultiplier { percent: 100 }
    }
}

impl Default for AreaMultiplier {
    fn default() -> (r: Self)
        ensures
            r.percent == 100,
    {
        AreaMultiplier { percent: 100 }
    }
}

impl Default for Luck {
    fn default() -> (r: Self)
        ensures
            r.0 == 20,
    {
        Luck(20)
    }
}

/// The player-level multipliers that weapons read when they fire.
#[derive(Clone, Copy, Debug, PartialEq, Eq, Structural)]
pub struct PlayerModifiers {
    pub cooldown_reduction: CooldownReduction,
    pub damage: DamageMultiplier,
    pub area: AreaMultiplier,
}

impl PlayerModifiers {
    pub open spec fn wf(self) -> bool {
        self.cooldown_reduction.percent <= 100
    }
}

/// `100 + bonus` percent, never below zero.
pub open spec fn bonus_percent(bonus: int) -> int {
    if 100 + bonus < 0 {
        0
    } else {
        100 + bonus
    }
}

/// `base × (1 + bonus%) × (1 − reduction%)`, rounded down.
/// The result stops at the largest `u64`.
pub open spec fn effective_cooldown(base: int, bonus: int, reduction: int) -> int {
    let v = base * bonus_percent(bonus) * (100 - reduction) / 10000;
    if v > u64::MAX {
        u64::MAX as int
    } else {
        v
    }
}

/// `base × (1 + bonus%) × multiplier%`, rounded down, at most `limit`.
pub open spec fn scaled_stat(base: int, bonus: int, multiplier: int, limit: int) -> int {
    let v = base * bonus_percent(bonus) * multiplier / 10000;
    if v > limit {
        limit
    } else {
        v
    }
}

pub open spec fn effective_damage(d: WeaponDamage, m: DamageMultiplier) -> int {
    scaled_stat(
        if d.base_amount < 0 { 0 } else { d.base_amount as int },
        d.damage_bonus as int,
        m.percent as int,
        DAMAGE_LIMIT as int,
    )
}

pub open spec fn effective_radius(a: WeaponArea, m: AreaMultiplier) -> int {
    scaled_stat(
        if a.base_radius < 0 { 0 } else { a.base_radius as int },
        a.area_bonus as int,
        m.percent as int,
        RADIUS_LIMIT as int,
    )
}

fn bonus_percent_exec(bonus: i32) -> (r: u64)
    ensures
        r == bonus_percent(bonus as int),
{
    if (bonus as i64) < -100 {
        0
    } else {
        (100 + bonus as i64) as u64
    }
}

/// The firing interval after the weapon's bonus and the player's reduction.
pub fn cooldown_duration(c: &WeaponCooldown, reduction: CooldownReduction) -> (r: u64)
    requires
        reduction.percent <= 100,
    ensures
        r == effective_cooldown(c.base_duration as int, c.cooldown_bonus as int, reduction.percent as int),
{
    let b = bonus_percent_exec(c.cooldown_bonus) as u128;
    let keep: u128 = (100 - reduction.percent) as u128;
    let base = c.base_duration as u128;
    assert(base * b <= 0xFFFF_FFFF_FFFF_FFFF * 0x1_0000_0000) by (nonlinear_arith)
        requires
            base <= 0xFFFF_FFFF_FFFF_FFFF,
            b <= 0x1_0000_0000,
    ;
    assert(base * b * keep <= 0xFFFF_FFFF_FFFF_FFFF * 0x1_0000_0000 * 100) by (nonlinear_arith)
        requires
            base * b <= 0xFFFF_FFFF_FFFF_FFFF * 0x1_0000_0000,
            keep <= 100,
            0 <= base * b,
    ;
    let v = base * b * keep / 10000;
    if v > 0xFFFF_FFFF_FFFF_FFFF {
        0xFFFF_FFFF_FFFF_FFFF
    } else {
        v as u64
    }
}

fn scaled_stat_exec(base: i64, bonus: i32, multiplier: u32, limit: i64) -> (r: i64)
    requires
        0 <= limit,
    ensures
        r == scaled_stat(if base < 0 { 0 } else { base as int }, bonus as int, multiplier as int, limit as int),
        0 <= r <= limit,
{
    let b: i128 = if base < 0 { 0 } else { base as i128 };
    let p = bonus_percent_exec(bonus) as i128;
    let m = multiplier as i128;
    assert(0 <= b * p <= 0x8000_0000_0000_0000 * 0x8000_0064) by (nonlinear_arith)
        requires
            0 <= b <= 0x8000_0000_0000_0000,
            0 <= p <= 0x8000_0064,
    ;
    assert(0 <= b * p * m <= 0x8000_0000_0000_0000 * 0x8000_0064 * 0xFFFF_FFFF) by (nonlinear_arith)
        requires
            0 <= b * p <= 0x8000_0000_0000_0000 * 0x8000_0064,
            0 <= m <= 0xFFFF_FFFF,
    ;
    let v = b * p * m / 10000;
    assert(0 <= v);
    if v > limit as i128 {
        limit
    } else {
        v as i64
    }
}

/// Damage of the attacks a weapon spawns.
pub fn attack_damage(d: &WeaponDamage, m: DamageMultiplier) -> (r: i64)
    ensures
        r == effective_damage(*d, m),
        0 <= r <= DAMAGE_LIMIT,
{
    scaled_stat_exec(d.base_amount as i64, d.damage_bonus, m.percent, DAMAGE_LIMIT)
}

/// Radius of the attacks a weapon spawns.
pub fn attack_radius(a: &WeaponArea, m: AreaMultiplier) -> (r: i64)
    ensures
        r == effective_radius(*a, m),
        0 <= r <= RADIUS_LIMIT,
{
    scaled_stat_exec(a.base_radius, a.area_bonus, m.percent, RADIUS_LIMIT)
}

/// The firing timer after `dt` more milliseconds against an interval of
/// `duration`, and whether it went off. It repeats: what runs past the
/// interval carries over to the next shot. While paused (`dt == 0`) the timer
/// neither advances nor goes off, and keeps its progress.
pub open spec fn timer_after(elapsed: int, dt: int, duration: int) -> (int, bool) {
    let e = if elapsed + dt > u64::MAX { u64::MAX as int } else { elapsed + dt };
    if dt == 0 {
        (elapsed, false)
    } else if e >= duration {
        (if duration > 0 { e % duration } else { 0 }, true)
    } else {
        (e, false)
    }
}

/// Advances a weapon's firing timer; returns whether it fires this tick.
pub fn tick_cooldown(c: &mut WeaponCooldown, dt: u64, reduction: CooldownReduction) -> (fired: bool)
    requires
        reduction.percent <= 100,
    ensures
        (final(c).elapsed as int, fired) == timer_after(
            old(c).elapsed as int,
            dt as int,
            effective_cooldown(old(c).base_duration as int, old(c).cooldown_bonus as int, reduction.percent as int),
        ),
        final(c).base_duration == old(c).base_duration,
        final(c).cooldown_bonus == old(c).cooldown_bonus,
{
    if dt == 0 {
        return false;
    }
    let duration = cooldown_duration(c, reduction);
    let e = c.elapsed.saturating_add(dt);
    if e >= duration {
        c.elapsed = if duration > 0 { e % duration } else { 0 };
        true
    } else {
        c.elapsed = e;
        false
    }
}

/// An attack to be placed in the arena.
#[derive(Clone, Copy, Debug, PartialEq, Eq, Structural)]
pub struct AttackSpawn {
    pub pos: Point,
    pub radius: i64,
    pub damage: i64,
    pub pattern: PatternType,
    pub lifetime: u64,
    pub tick_rate: u64,
}

/// Distance from the owner at which the extra circles of a multi-pattern
/// weapon are placed: one and a half radii.
pub open spec fn offset_distance_of(radius: int) -> int {
    radius * 3 / 2
}

/// How far from the owner the extra circles go, for the caller that turns
/// angles into offsets.
pub fn offset_distance(radius: i64) -> (r: i64)
    requires
        0 <= radius <= RADIUS_LIMIT,
    ensures
        r == offset_distance_of(radius as int),
{
    radius * 3 / 2
}

/// Where attack `k` goes: the first on the owner, attack `k > 0` at the
/// owner moved by `offsets[k - 1]` (the owner itself if no offset is given).
pub open spec fn attack_pos(owner: Point, offsets: Seq<Point>, k: int) -> Point {
    if k == 0 || k - 1 >= offsets.len() {
        owner
    } else {
        Point {
            x: clamp_coord(owner.x + offsets[k - 1].x) as i64,
            y: clamp_coord(owner.y + offsets[k - 1].y) as i64,
        }
    }
}

/// The attacks a weapon spawns when it fires: one per owned pattern, with the
/// weapon's effective damage and radius.
pub open spec fn attack_spawns(w: Weapon, m: PlayerModifiers, owner: Point, offsets: Seq<Point>) -> Seq<AttackSpawn> {
    Seq::new(
        w.circle.patterns@.len(),
        |k: int|
            AttackSpawn {
                pos: attack_pos(owner, offsets, k),
                radius: effective_radius(w.area, m.area) as i64,
                damage: effective_damage(w.damage, m.damage) as i64,
                pattern: w.circle.patterns@[k],
                lifetime: w.effect.duration,
                tick_rate: w.effect.tick_rate,
            },
    )
}

proof fn lemma_scaled_stat_range(base: int, bonus: int, multiplier: int, limit: int)
    requires
        0 <= base,
        0 <= multiplier,
        0 <= limit,
    ensures
        0 <= scaled_stat(base, bonus, multiplier, limit) <= limit,
{
    let p = bonus_percent(bonus);
    assert(0 <= base * p * multiplier / 10000) by (nonlinear_arith)
        requires
            0 <= base,
            0 <= p,
            0 <= multiplier,
    ;
}

/// Every attack a weapon spawns lies in the arena and carries a radius and a
/// damage within bounds.
pub proof fn lemma_spawns_ok(w: Weapon, m: PlayerModifiers, owner: Point, offsets: Seq<Point>)
    requires
        owner.in_arena(),
    ensures
        forall|j: int|
            0 <= j < attack_spawns(w, m, owner, offsets).len() ==> {
                let a = #[trigger] attack_spawns(w, m, owner, offsets)[j];
                &&& a.pos.in_arena()
                &&& 0 <= a.radius <= RADIUS_LIMIT
                &&& 0 <= a.damage <= DAMAGE_LIMIT
            },
{
    lemma_scaled_stat_range(
        if w.damage.base_amount < 0 { 0 } else { w.damage.base_amount as int },
        w.damage.damage_bonus as int,
        m.damage.percent as int,
        DAMAGE_LIMIT as int,
    );
    lemma_scaled_stat_range(
        if w.area.base_radius < 0 { 0 } else { w.area.base_radius as int },
        w.area.area_bonus as int,
        m.area.percent as int,
        RADIUS_LIMIT as int,
    );
}

/// Builds the attacks of one shot of a weapon.
pub fn spawn_attacks(w: &Weapon, m: PlayerModifiers, owner: Point, offsets: &Vec<Point>) -> (r: Vec<AttackSpawn>)
    requires
        owner.in_arena(),
    ensures
        r@ == attack_spawns(*w, m, owner, offsets@),
{
    let damage = attack_damage(&w.damage, m.damage);
    let radius = attack_radius(&w.area, m.area);
    let n = w.circle.patterns.len();
    let mut out: Vec<AttackSpawn> = Vec::new();
    let mut k: usize = 0;
    while k < n
        invariant
            n == w.circle.patterns@.len(),
            k <= n,
            owner.in_arena(),
            damage == effective_damage(w.damage, m.damage),
            radius == effective_radius(w.area, m.area),
            out@ == attack_spawns(*w, m, owner, offsets@).take(k as int),
        decreases n - k,
    {
        let pos = if k == 0 || k - 1 >= offsets.len() {
            owner
        } else {
            displace(owner, offsets[k - 1])
        };
        out.push(AttackSpawn {
            pos,
            radius,
            damage,
            pattern: w.circle.patterns[k],
            lifetime: w.effect.duration,
            tick_rate: w.effect.tick_rate,
        });
        proof {
            assert(attack_spawns(*w, m, owner, offsets@).take(k + 1) =~= attack_spawns(*w, m, owner, offsets@).take(
                k as int,
            ).push(attack_spawns(*w, m, owner, offsets@)[k as int]));
        }
        k = k + 1;
    }
    proof {
        assert(attack_spawns(*w, m, owner, offsets@).take(n as int) =~= attack_spawns(*w, m, owner, offsets@));
    }
    out
}

/// One tick of a weapon: advances its timer and, when it goes off, spawns
/// its attacks around the owner.
pub fn weapon_firing(w: &mut Weapon, m: PlayerModifiers, dt: u64, owner: Point, offsets: &Vec<Point>) -> (r: Vec<AttackSpawn>)
    requires
        m.wf(),
        owner.in_arena(),
    ensures
        ({
            let (elapsed, fired) = timer_after(
                old(w).cooldown.elapsed as int,
                dt as int,
                effective_cooldown(
                    old(w).cooldown.base_duration as int,
                    old(w).cooldown.cooldown_bonus as int,
                    m.cooldown_reduction.percent as int,
                ),
            );
            &&& final(w).cooldown.elapsed == elapsed
            &&& r@ == if fired { attack_spawns(*old(w), m, owner, offsets@) } else { Seq::empty() }
        }),
        final(w).meta == old(w).meta,
        final(w).damage == old(w).damage,
        final(w).area == old(w).area,
        final(w).effect == old(w).effect,
        final(w).circle.patterns@ == old(w).circle.patterns@,
        final(w).cooldown.base_duration == old(w).cooldown.base_duration,
        final(w).cooldown.cooldown_bonus == old(w).cooldown.cooldown_bonus,
{
    let fired = tick_cooldown(&mut w.cooldown, dt, m.cooldown_reduction);
    if fired {
        spawn_attacks(w, m, owner, offsets)
    } else {
        Vec::new()
    }
}

/// The starting magick circle: fires every 3.5 s for 10 damage over a radius
/// of 64 with one banishment pattern; its attacks live 3 s and scan every
/// half second.
pub fn spawn_magick_circle() -> (w: Weapon)
    ensures
        w.meta == (WeaponMeta { weapon_type: WeaponType::MagickCircle, level: 1 }),
        w.cooldown == (WeaponCooldown { elapsed: 0, base_duration: 3500, cooldown_bonus: 0 }),
        w.damage == (WeaponDamage { base_amount: 10, damage_bonus: 0 }),
        w.area == (WeaponArea { base_radius: 64, area_bonus: 0 }),
        w.circle.patterns@ == seq![PatternType::Banishment],
        w.circle.num_sigils == 4,
        w.effect == (AreaEffect { duration: 3000, tick_rate: 500 }),
{
    let w = Weapon {
        meta: WeaponMeta { weapon_type: WeaponType::MagickCircle, level: 1 },
        cooldown: WeaponCooldown { elapsed: 0, base_duration: 3500, cooldown_bonus: 0 },
        damage: WeaponDamage { base_amount: 10, damage_bonus: 0 },
        area: WeaponArea { base_radius: 64, area_bonus: 0 },
        circle: MagickCircle { patterns: vec![PatternType::Banishment], num_sigils: 4 },
        effect: AreaEffect { duration: 3000, tick_rate: 500 },
    };
    proof {
        assert(w.circle.patterns@ =~= seq![PatternType::Banishment]);
    }
    w
}

/// A fresh weapon of the given kind.
pub fn spawn_weapon(weapon_type: WeaponType) -> (w: Weapon)
    ensures
        w.meta == (WeaponMeta { weapon_type, level: 1 }),
        weapon_type == WeaponType::MagickCircle ==> {
            &&& w.cooldown == (WeaponCooldown { elapsed: 0, base_duration: 3500, cooldown_bonus: 0 })
            &&& w.damage == (WeaponDamage { base_amount: 10, damage_bonus: 0 })
            &&& w.area == (WeaponArea { base_radius: 64, area_bonus: 0 })
            &&& w.circle.patterns@ == seq![PatternType::Banishment]
            &&& w.circle.num_sigils == 4
            &&& w.effect == (AreaEffect { duration: 3000, tick_rate: 500 })
        },
{
    match weapon_type {
        WeaponType::MagickCircle => spawn_magick_circle(),
    }
}

} // verus!
