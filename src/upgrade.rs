use vstd::prelude::*;
use vstd::string::StringExecFns;

use crate::combat::Health;
use crate::types::{EquipmentType, Rarity, StatType};
use crate::weapons::{
    Luck, PatternType, Weapon, WeaponArea, WeaponCooldown, WeaponDamage, WeaponMeta, WeaponType,
};

verus! {

/// One stat change of a weapon upgrade.
#[derive(Clone, Copy, Debug, PartialEq, Eq, Structural)]
pub enum WeaponUpgradeChange {
    Damage(i32),
    Area(i32),
    Cooldown(i32),
    Duration(i32),
    AddCircle { pattern: PatternType },
}

/// The changes one weapon tier brings.
#[derive(Debug)]
pub struct WeaponUpgradeSpec {
    pub changes: Vec<WeaponUpgradeChange>,
}

/// A weapon's tiers by level, and the repeatable upgrades offered past them.
#[derive(Debug)]
pub struct WeaponUpgradeData {
    pub progression: Vec<WeaponUpgradeSpec>,
    pub limit_breaks: Vec<WeaponUpgradeSpec>,
}

/// The upgrade table of every weapon kind.
#[derive(Debug)]
pub struct WeaponUpgradeConfig {
    pub data: Vec<(WeaponType, WeaponUpgradeData)>,
}

/// The changes of each spec in a list.
pub open spec fn specs_view(v: Seq<WeaponUpgradeSpec>) -> Seq<Seq<WeaponUpgradeChange>> {
    Seq::new(v.len(), |i: int| v[i].changes@)
}

/// The first entry for `w` in a table.
pub open spec fn lookup(data: Seq<(WeaponType, WeaponUpgradeData)>, w: WeaponType) -> Option<WeaponUpgradeData>
    decreases data.len(),
{
    if data.len() == 0 {
        None
    } else if data[0].0 == w {
        Some(data[0].1)
    } else {
        lookup(data.drop_first(), w)
    }
}

/// The tiers offered to a weapon of kind `w` at `level`: the tier stored at
/// index `level` while there is one, else every limit break.
pub open spec fn next_upgrades(cfg: WeaponUpgradeConfig, w: WeaponType, level: int) -> Seq<Seq<WeaponUpgradeChange>> {
    let d = lookup(cfg.data@, w)->0;
    if level < d.progression@.len() {
        seq![d.progression@[level].changes@]
    } else {
        specs_view(d.limit_breaks@)
    }
}

fn copy_spec(s: &WeaponUpgradeSpec) -> (r: WeaponUpgradeSpec)
    ensures
        r.changes@ == s.changes@,
{
    let mut out: Vec<WeaponUpgradeChange> = Vec::new();
    let mut i: usize = 0;
    while i < s.changes.len()
        invariant
            i <= s.changes@.len(),
            out@ == s.changes@.take(i as int),
        decreases s.changes@.len() - i,
    {
        out.push(s.changes[i]);
        proof {
            assert(s.changes@.take(i + 1) =~= s.changes@.take(i as int).push(s.changes@[i as int]));
        }
        i = i + 1;
    }
    proof {
        assert(s.changes@.take(i as int) =~= s.changes@);
    }
    WeaponUpgradeSpec { changes: out }
}

fn copy_specs(v: &Vec<WeaponUpgradeSpec>) -> (r: Vec<WeaponUpgradeSpec>)
    ensures
        specs_view(r@) == specs_view(v@),
{
    let mut out: Vec<WeaponUpgradeSpec> = Vec::new();
    let mut i: usize = 0;
    while i < v.len()
        invariant
            i <= v@.len(),
            out@.len() == i,
            specs_view(out@) == specs_view(v@).take(i as int),
        decreases v@.len() - i,
    {
        let c = copy_spec(&v[i]);
        let ghost before = out@;
        out.push(c);
        proof {
            assert forall|j: int| 0 <= j < i + 1 implies specs_view(out@)[j] == specs_view(v@).take(i + 1)[j] by {
                if j < i {
                    assert(out@[j] == before[j]);
                    assert(specs_view(before)[j] == specs_view(v@).take(i as int)[j]);
                }
            }
            assert(specs_view(out@) =~= specs_view(v@).take(i + 1));
        }
        i = i + 1;
    }
    proof {
        assert(specs_view(v@).take(i as int) =~= specs_view(v@));
    }
    out
}

fn spec_of(changes: Vec<WeaponUpgradeChange>) -> (r: WeaponUpgradeSpec)
    ensures
        r.changes@ == changes@,
{
    WeaponUpgradeSpec { changes }
}

/// The magick circle's tiers: a power boost, then six extra banishment
/// circles, most with further damage and area.
pub open spec fn magick_circle_tiers() -> Seq<Seq<WeaponUpgradeChange>> {
    let banish = WeaponUpgradeChange::AddCircle { pattern: PatternType::Banishment };
    seq![
        seq![WeaponUpgradeChange::Damage(2), WeaponUpgradeChange::Area(1)],
        seq![banish],
        seq![banish, WeaponUpgradeChange::Damage(1), WeaponUpgradeChange::Area(1)],
        seq![banish],
        seq![banish, WeaponUpgradeChange::Damage(2), WeaponUpgradeChange::Area(1)],
        seq![banish, WeaponUpgradeChange::Damage(1), WeaponUpgradeChange::Area(1)],
        seq![banish, WeaponUpgradeChange::Damage(3), WeaponUpgradeChange::Area(2)],
    ]
}

impl WeaponUpgradeConfig {
    /// Every weapon kind has an entry.
    pub open spec fn wf(self) -> bool {
        lookup(self.data@, WeaponType::MagickCircle) is Some
    }

    /// The built-in table: seven magick circle tiers (power boosts and extra
    /// circles) and four limit breaks.
    pub fn new() -> (r: Self)
        ensures
            r.wf(),
            specs_view(lookup(r.data@, WeaponType::MagickCircle)->0.progression@) == magick_circle_tiers(),
            specs_view(lookup(r.data@, WeaponType::MagickCircle)->0.limit_breaks@) == seq![
                seq![WeaponUpgradeChange::Damage(2)],
                seq![WeaponUpgradeChange::Area(2)],
                seq![WeaponUpgradeChange::Duration(2)],
                seq![WeaponUpgradeChange::Cooldown(-2i32)],
            ],
    {
        let banish = PatternType::Banishment;
        let progression = vec![
            spec_of(vec![WeaponUpgradeChange::Damage(2), WeaponUpgradeChange::Area(1)]),
            spec_of(vec![WeaponUpgradeChange::AddCircle { pattern: banish }]),
            spec_of(
                vec![
                    WeaponUpgradeChange::AddCircle { pattern: banish },
                    WeaponUpgradeChange::Damage(1),
                    WeaponUpgradeChange::Area(1),
                ],
            ),
            spec_of(vec![WeaponUpgradeChange::AddCircle { pattern: banish }]),
            spec_of(
                vec![
                    WeaponUpgradeChange::AddCircle { pattern: banish },
                    WeaponUpgradeChange::Damage(2),
                    WeaponUpgradeChange::Area(1),
                ],
            ),
            spec_of(
                vec![
                    WeaponUpgradeChange::AddCircle { pattern: banish },
                    WeaponUpgradeChange::Damage(1),
                    WeaponUpgradeChange::Area(1),
                ],
            ),
            spec_of(
                vec![
                    WeaponUpgradeChange::AddCircle { pattern: banish },
                    WeaponUpgradeChange::Damage(3),
                    WeaponUpgradeChange::Area(2),
                ],
            ),
        ];
        let limit_breaks = vec![
            spec_of(vec![WeaponUpgradeChange::Damage(2)]),
            spec_of(vec![WeaponUpgradeChange::Area(2)]),
            spec_of(vec![WeaponUpgradeChange::Duration(2)]),
            spec_of(vec![WeaponUpgradeChange::Cooldown(-2)]),
        ];
        let data = vec![(WeaponType::MagickCircle, WeaponUpgradeData { progression, limit_breaks })];
        let r = WeaponUpgradeConfig { data };
        proof {
            let pr = lookup(r.data@, WeaponType::MagickCircle)->0.progression@;
            let t = magick_circle_tiers();
            assert(pr.len() == 7);
            assert(pr[0].changes@ =~= t[0]);
            assert(pr[1].changes@ =~= t[1]);
            assert(pr[2].changes@ =~= t[2]);
            assert(pr[3].changes@ =~= t[3]);
            assert(pr[4].changes@ =~= t[4]);
            assert(pr[5].changes@ =~= t[5]);
            assert(pr[6].changes@ =~= t[6]);
            assert(specs_view(pr) =~= t);
            let lb = lookup(r.data@, WeaponType::MagickCircle)->0.limit_breaks@;
            assert(lb.len() == 4);
            assert(lb[0].changes@ =~= seq![WeaponUpgradeChange::Damage(2)]);
            assert(lb[1].changes@ =~= seq![WeaponUpgradeChange::Area(2)]);
            assert(lb[2].changes@ =~= seq![WeaponUpgradeChange::Duration(2)]);
            assert(lb[3].changes@ =~= seq![WeaponUpgradeChange::Cooldown(-2i32)]);
            assert(specs_view(lb) =~= seq![
                seq![WeaponUpgradeChange::Damage(2)],
                seq![WeaponUpgradeChange::Area(2)],
                seq![WeaponUpgradeChange::Duration(2)],
                seq![WeaponUpgradeChange::Cooldown(-2i32)],
            ]);
        }
        r
    }

    /// The upgrades a weapon of kind `weapon` at `level` may take next.
    pub fn get_next_upgrades(&self, weapon: WeaponType, level: u32) -> (r: Vec<WeaponUpgradeSpec>)
        requires
            lookup(self.data@, weapon) is Some,
        ensures
            specs_view(r@) == next_upgrades(*self, weapon, level as int),
    {
        let mut i: usize = 0;
        while i < self.data.len()
            invariant
                i <= self.data@.len(),
                lookup(self.data@.skip(i as int), weapon) == lookup(self.data@, weapon),
                lookup(self.data@, weapon) is Some,
            decreases self.data@.len() - i,
        {
            if self.data[i].0 == weapon {
                let d = &self.data[i].1;
                proof {
                    assert(self.data@.skip(i as int)[0] == self.data@[i as int]);
                }
                if (level as usize) < d.progression.len() {
                    let one = copy_spec(&d.progression[level as usize]);
                    let r = vec![one];
                    proof {
                        assert(specs_view(r@) =~= next_upgrades(*self, weapon, level as int));
                    }
                    return r;
                } else {
                    return copy_specs(&d.limit_breaks);
                }
            }
            proof {
                assert(self.data@.skip(i as int).drop_first() =~= self.data@.skip(i + 1));
            }
            i = i + 1;
        }
        proof {
            assert(self.data@.skip(i as int) =~= Seq::<(WeaponType, WeaponUpgradeData)>::empty());
        }
        Vec::new()
    }
}

impl Default for WeaponUpgradeConfig {
    fn default() -> (r: Self)
        ensures
            r.wf(),
    {
        WeaponUpgradeConfig::new()
    }
}

/// A one-shot effect that is not tied to a weapon.
#[derive(Clone, Copy, Debug, PartialEq, Eq, Structural)]
pub enum GenericUpgrade {
    /// Heals the player by the amount, up to the maximum.
    HealthPickup(i32),
    /// Grants a resource; not handled yet, so it has no effect.
    ResourcePickup(u32),
}

pub open spec fn generic_label(g: GenericUpgrade) -> Seq<char> {
    match g {
        GenericUpgrade::HealthPickup(_) => "Philosopher's Elixir"@,
        GenericUpgrade::ResourcePickup(_) => "Void Shards"@,
    }
}

impl GenericUpgrade {
    /// The display name of the effect.
    pub fn to_string(&self) -> (r: String)
        ensures
            r@ == generic_label(*self),
    {
        match self {
            GenericUpgrade::HealthPickup(_) => "Philosopher's Elixir".to_owned(),
            GenericUpgrade::ResourcePickup(_) => "Void Shards".to_owned(),
        }
    }
}

/// What an upgrade choice does once confirmed.
#[derive(Debug)]
pub enum UpgradeType {
    Weapon(WeaponType, WeaponUpgradeSpec),
    Generic(GenericUpgrade),
}

/// One option of the level-up selection.
#[derive(Debug)]
pub struct UpgradeChoice {
    pub upgrade_type: UpgradeType,
    pub description: String,
    pub rarity: Rarity,
}

/// What a choice does, as plain values.
pub enum UpgradeTarget {
    Weapon(WeaponType, Seq<WeaponUpgradeChange>),
    Generic(GenericUpgrade),
}

pub open spec fn target_of(c: UpgradeChoice) -> UpgradeTarget {
    match c.upgrade_type {
        UpgradeType::Weapon(w, s) => UpgradeTarget::Weapon(w, s.changes@),
        UpgradeType::Generic(g) => UpgradeTarget::Generic(g),
    }
}

pub open spec fn choices_view(v: Seq<UpgradeChoice>) -> Seq<UpgradeTarget> {
    Seq::new(v.len(), |i: int| target_of(v[i]))
}

fn copy_choice(c: &UpgradeChoice) -> (r: UpgradeChoice)
    ensures
        target_of(r) == target_of(*c),
        r.rarity == c.rarity,
        r.description@ == c.description@,
{
    let upgrade_type = match &c.upgrade_type {
        UpgradeType::Weapon(w, s) => UpgradeType::Weapon(*w, copy_spec(s)),
        UpgradeType::Generic(g) => UpgradeType::Generic(*g),
    };
    UpgradeChoice { upgrade_type, description: c.description.clone(), rarity: c.rarity }
}

/// The choices offered for the owned weapons, weapon by weapon, each weapon's
/// next upgrades in table order.
pub open spec fn weapon_offers(cfg: WeaponUpgradeConfig, ws: Seq<WeaponMeta>) -> Seq<UpgradeTarget>
    decreases ws.len(),
{
    if ws.len() == 0 {
        seq![]
    } else {
        let last = ws.last();
        weapon_offers(cfg, ws.drop_last()) + next_upgrades(cfg, last.weapon_type, last.level as int).map_values(
            |cs: Seq<WeaponUpgradeChange>| UpgradeTarget::Weapon(last.weapon_type, cs),
        )
    }
}

/// A weapon offer of rarity common, described as the weapon's name followed
/// by " upgrade".
pub open spec fn offer_described(c: UpgradeChoice) -> bool {
    &&& c.rarity == Rarity::Common
    &&& match c.upgrade_type {
        UpgradeType::Weapon(w, _) => c.description@ == crate::weapons::weapon_label(w) + " upgrade"@,
        UpgradeType::Generic(_) => false,
    }
}

/// The two generic choices, in this order.
pub open spec fn generic_targets() -> Seq<UpgradeTarget> {
    seq![
        UpgradeTarget::Generic(GenericUpgrade::HealthPickup(20)),
        UpgradeTarget::Generic(GenericUpgrade::ResourcePickup(100)),
    ]
}

/// The upgrade pool: what kinds of upgrade exist, with their rarity.
#[derive(Debug)]
pub struct UpgradePool {
    weapons: Vec<(WeaponType, Rarity)>,
    equipment: Vec<(EquipmentType, Rarity)>,
    stats: Vec<(StatType, Rarity)>,
}

impl UpgradePool {
    /// The weapons, equipment and stats that can be offered.
    pub closed spec fn entries(self) -> (Seq<(WeaponType, Rarity)>, Seq<(EquipmentType, Rarity)>, Seq<(StatType, Rarity)>) {
        (self.weapons@, self.equipment@, self.stats@)
    }

    /// The default pool: one weapon, five pieces of equipment, five stats.
    pub fn new() -> (r: Self)
        ensures
            r.entries().0 == seq![(WeaponType::MagickCircle, Rarity::Common)],
            r.entries().1 == seq![
                (EquipmentType::Armor, Rarity::Common),
                (EquipmentType::Ring, Rarity::Uncommon),
                (EquipmentType::Amulet, Rarity::Rare),
                (EquipmentType::Boots, Rarity::Common),
                (EquipmentType::Gloves, Rarity::Uncommon),
            ],
            r.entries().2 == seq![
                (StatType::Health, Rarity::Common),
                (StatType::Speed, Rarity::Common),
                (StatType::Attack, Rarity::Uncommon),
                (StatType::Defense, Rarity::Common),
                (StatType::Luck, Rarity::Rare),
            ],
    {
        let r = UpgradePool {
            weapons: vec![(WeaponType::MagickCircle, Rarity::Common)],
            equipment: vec![
                (EquipmentType::Armor, Rarity::Common),
                (EquipmentType::Ring, Rarity::Uncommon),
                (EquipmentType::Amulet, Rarity::Rare),
                (EquipmentType::Boots, Rarity::Common),
                (EquipmentType::Gloves, Rarity::Uncommon),
            ],
            stats: vec![
                (StatType::Health, Rarity::Common),
                (StatType::Speed, Rarity::Common),
                (StatType::Attack, Rarity::Uncommon),
                (StatType::Defense, Rarity::Common),
                (StatType::Luck, Rarity::Rare),
            ],
        };
        proof {
            assert(r.weapons@ =~= seq![(WeaponType::MagickCircle, Rarity::Common)]);
            assert(r.equipment@ =~= seq![
                (EquipmentType::Armor, Rarity::Common),
                (EquipmentType::Ring, Rarity::Uncommon),
                (EquipmentType::Amulet, Rarity::Rare),
                (EquipmentType::Boots, Rarity::Common),
                (EquipmentType::Gloves, Rarity::Uncommon),
            ]);
            assert(r.stats@ =~= seq![
                (StatType::Health, Rarity::Common),
                (StatType::Speed, Rarity::Common),
                (StatType::Attack, Rarity::Uncommon),
                (StatType::Defense, Rarity::Common),
                (StatType::Luck, Rarity::Rare),
            ]);
        }
        r
    }

    /// The generic choices: a healing elixir and a resource pickup.
    pub fn generate_generic_choices() -> (r: Vec<UpgradeChoice>)
        ensures
            choices_view(r@) == generic_targets(),
            forall|i: int| 0 <= i < r@.len() ==> (#[trigger] r@[i]).rarity == Rarity::Common,
    {
        let r = vec![
            UpgradeChoice {
                upgrade_type: UpgradeType::Generic(GenericUpgrade::HealthPickup(20)),
                description: "Restore health with a Philosopher's Elixir".to_owned(),
                rarity: Rarity::Common,
            },
            UpgradeChoice {
                upgrade_type: UpgradeType::Generic(GenericUpgrade::ResourcePickup(100)),
                description: "Gather Void Shards".to_owned(),
                rarity: Rarity::Common,
            },
        ];
        proof {
            assert(choices_view(r@) =~= generic_targets());
        }
        r
    }

    /// The choices offered for the owned weapons.
    pub fn generate_weapon_upgrades(cfg: &WeaponUpgradeConfig, weapons: &Vec<WeaponMeta>) -> (r: Vec<UpgradeChoice>)
        requires
            cfg.wf(),
        ensures
            choices_view(r@) == weapon_offers(*cfg, weapons@),
            forall|i: int| 0 <= i < r@.len() ==> offer_described(#[trigger] r@[i]),
    {
        let mut out: Vec<UpgradeChoice> = Vec::new();
        let mut i: usize = 0;
        while i < weapons.len()
            invariant
                cfg.wf(),
                i <= weapons@.len(),
                choices_view(out@) == weapon_offers(*cfg, weapons@.take(i as int)),
                forall|k: int| 0 <= k < out@.len() ==> offer_described(#[trigger] out@[k]),
            decreases weapons@.len() - i,
        {
            let meta = weapons[i];
            assert(meta.weapon_type == WeaponType::MagickCircle);
            let specs = cfg.get_next_upgrades(meta.weapon_type, meta.level);
            let ghost base = out@;
            let mut j: usize = 0;
            while j < specs.len()
                invariant
                    j <= specs@.len(),
                    base.len() <= out@.len(),
                    out@.len() == base.len() + j,
                    forall|k: int| 0 <= k < out@.len() ==> offer_described(#[trigger] out@[k]),
                    choices_view(out@) == choices_view(base) + specs_view(specs@).take(j as int).map_values(
                        |cs: Seq<WeaponUpgradeChange>| UpgradeTarget::Weapon(meta.weapon_type, cs),
                    ),
                decreases specs@.len() - j,
            {
                let name = meta.weapon_type.to_string();
                let c = UpgradeChoice {
                    upgrade_type: UpgradeType::Weapon(meta.weapon_type, copy_spec(&specs[j])),
                    description: name.concat(" upgrade"),
                    rarity: Rarity::Common,
                };
                let ghost prev = out@;
                out.push(c);
                proof {
                    let f = |cs: Seq<WeaponUpgradeChange>| UpgradeTarget::Weapon(meta.weapon_type, cs);
                    assert forall|k: int| 0 <= k < out@.len() implies choices_view(out@)[k] == (choices_view(base)
                        + specs_view(specs@).take(j + 1).map_values(f))[k] by {
                        if k < prev.len() {
                            assert(out@[k] == prev[k]);
                            assert(choices_view(prev)[k] == (choices_view(base) + specs_view(specs@).take(j as int).map_values(f))[k]);
                        }
                    }
                    assert(choices_view(out@) =~= choices_view(base) + specs_view(specs@).take(j + 1).map_values(f));
                }
                j = j + 1;
            }
            proof {
                assert(specs_view(specs@).take(j as int) =~= specs_view(specs@));
                assert(weapons@.take(i + 1).drop_last() =~= weapons@.take(i as int));
                assert(weapons@.take(i + 1).last() == meta);
            }
            i = i + 1;
        }
        proof {
            assert(weapons@.take(i as int) =~= weapons@);
        }
        out
    }
}

impl Default for UpgradePool {
    fn default() -> (r: Self)
        ensures
            r.entries().0 == seq![(WeaponType::MagickCircle, Rarity::Common)],
    {
        UpgradePool::new()
    }
}

/// Relies on `rand::seq::IteratorRandom::choose_multiple` over the range
/// `0..len`: a reservoir sample that holds `amount` items of the range, or all
/// of them when the range is shorter, each item taken at most once.
#[verifier::external_body]
fn choose_indices(len: usize, amount: usize) -> (r: Vec<usize>)
    ensures
        r@.len() == if amount < len { amount } else { len },
        forall|i: int| 0 <= i < r@.len() ==> #[trigger] r@[i] < len,
        forall|i: int, j: int| 0 <= i < j < r@.len() ==> r@[i] != r@[j],
{
    rand::seq::IteratorRandom::choose_multiple(0..len, &mut rand::thread_rng(), amount)
}

/// Relies on `rand::Rng::gen_range` with the range `0..100`: a value of the
/// half-open range.
#[verifier::external_body]
fn roll_percent() -> (r: u32)
    ensures
        r < 100,
{
    rand::Rng::gen_range(&mut rand::thread_rng(), 0..100u32)
}

/// How many choices to offer for a luck roll in `0..100`: four when the roll
/// is below twice the luck, else three.
pub open spec fn choice_count(luck: int, roll: int) -> int {
    if roll < 2 * luck {
        4
    } else {
        3
    }
}

/// `v` is `from` taken at the distinct indices `idx`, in that order.
pub open spec fn picked_without_repeats(v: Seq<UpgradeTarget>, from: Seq<UpgradeTarget>, idx: Seq<int>) -> bool {
    &&& idx.len() == v.len()
    &&& forall|i: int| 0 <= i < idx.len() ==> 0 <= #[trigger] idx[i] < from.len() && v[i] == from[idx[i]]
    &&& forall|i: int, j: int| 0 <= i < j < idx.len() ==> idx[i] != idx[j]
}

proof fn lemma_offers_are_weapons(cfg: WeaponUpgradeConfig, ws: Seq<WeaponMeta>, w: int)
    requires
        0 <= w < weapon_offers(cfg, ws).len(),
    ensures
        weapon_offers(cfg, ws)[w] is Weapon,
    decreases ws.len(),
{
    let pre = weapon_offers(cfg, ws.drop_last());
    if w < pre.len() {
        lemma_offers_are_weapons(cfg, ws.drop_last(), w);
    }
}

impl UpgradePool {
    /// The number of choices for `luck` and a roll in `0..100`.
    pub fn calculate_count(luck: &Luck, roll: u32) -> (r: usize)
        requires
            roll < 100,
        ensures
            r == choice_count(luck.0 as int, roll as int),
    {
        if (roll as i64) < 2 * (luck.0 as i64) {
            4
        } else {
            3
        }
    }

    /// The choices at the given indices of `pool`, in the order of `picks`.
    pub fn select_picked(pool: &Vec<UpgradeChoice>, picks: &Vec<usize>) -> (r: Vec<UpgradeChoice>)
        requires
            forall|i: int| 0 <= i < picks@.len() ==> #[trigger] picks@[i] < pool@.len(),
        ensures
            choices_view(r@) == Seq::new(picks@.len(), |i: int| target_of(pool@[picks@[i] as int])),
    {
        let mut out: Vec<UpgradeChoice> = Vec::new();
        let mut i: usize = 0;
        while i < picks.len()
            invariant
                i <= picks@.len(),
                forall|k: int| 0 <= k < picks@.len() ==> #[trigger] picks@[k] < pool@.len(),
                out@.len() == i,
                forall|k: int| 0 <= k < i ==> target_of(#[trigger] out@[k]) == target_of(pool@[picks@[k] as int]),
            decreases picks@.len() - i,
        {
            let c = copy_choice(&pool[picks[i]]);
            out.push(c);
            i = i + 1;
        }
        proof {
            assert(choices_view(out@) =~= Seq::new(picks@.len(), |i: int| target_of(pool@[picks@[i] as int])));
        }
        out
    }

    /// `offers` followed by `need` generic choices: the `i`-th of them is the
    /// generic at index `picks[i % picks.len()]`, so the picks repeat in turn
    /// when fewer generics exist than are needed.
    pub fn fill_with_generics(offers: Vec<UpgradeChoice>, need: usize, generics: &Vec<UpgradeChoice>, picks: &Vec<usize>) -> (r: Vec<UpgradeChoice>)
        requires
            need > 0 ==> picks@.len() > 0,
            forall|i: int| 0 <= i < picks@.len() ==> #[trigger] picks@[i] < generics@.len(),
        ensures
            choices_view(r@) == choices_view(offers@) + Seq::new(
                need as nat,
                |i: int| target_of(generics@[picks@[i % picks@.len() as int] as int]),
            ),
    {
        let mut out = offers;
        let ghost base = out@;
        let mut i: usize = 0;
        while i < need
            invariant
                i <= need,
                need > 0 ==> picks@.len() > 0,
                forall|k: int| 0 <= k < picks@.len() ==> #[trigger] picks@[k] < generics@.len(),
                out@.len() == base.len() + i,
                forall|k: int| 0 <= k < base.len() ==> #[trigger] out@[k] == base[k],
                forall|k: int|
                    0 <= k < i ==> target_of(#[trigger] out@[base.len() + k]) == target_of(
                        generics@[picks@[k % picks@.len() as int] as int],
                    ),
            decreases need - i,
        {
            let c = copy_choice(&generics[picks[i % picks.len()]]);
            out.push(c);
            i = i + 1;
        }
        proof {
            let want = choices_view(base) + Seq::new(
                need as nat,
                |i: int| target_of(generics@[picks@[i % picks@.len() as int] as int]),
            );
            assert forall|k: int| 0 <= k < out@.len() implies choices_view(out@)[k] == want[k] by {
                if k >= base.len() {
                    assert(out@[base.len() + (k - base.len())] == out@[k]);
                }
            }
            assert(choices_view(out@) =~= want);
        }
        out
    }

    /// The level-up choices: as many as a luck roll decides (three, or four
    /// with probability of two percent per point of luck). The owned weapons'
    /// upgrades come first; when there are more than needed a random subset is
    /// kept, when there are fewer the rest are generic choices drawn at random.
    pub fn generate_choices(&self, cfg: &WeaponUpgradeConfig, luck: &Luck, weapons: &Vec<WeaponMeta>) -> (r: Vec<UpgradeChoice>)
        requires
            cfg.wf(),
        ensures
            r@.len() == 3 || r@.len() == 4,
            r@.len() == 4 ==> luck.0 > 0,
            weapon_offers(*cfg, weapons@).len() <= r@.len() ==> choices_view(r@).take(
                weapon_offers(*cfg, weapons@).len() as int,
            ) == weapon_offers(*cfg, weapons@),
            forall|i: int|
                0 <= i < r@.len() ==> weapon_offers(*cfg, weapons@).contains(#[trigger] choices_view(r@)[i])
                    || generic_targets().contains(choices_view(r@)[i]),
            weapon_offers(*cfg, weapons@).len() > r@.len() ==> exists|idx: Seq<int>|
                picked_without_repeats(choices_view(r@), weapon_offers(*cfg, weapons@), idx),
            weapon_offers(*cfg, weapons@).len() <= r@.len() ==> forall|i: int|
                weapon_offers(*cfg, weapons@).len() <= i < r@.len() ==> generic_targets().contains(
                    #[trigger] choices_view(r@)[i],
                ),
            weapon_offers(*cfg, weapons@).len() <= r@.len() <= weapon_offers(*cfg, weapons@).len() + 2 ==> forall|
                i: int,
                j: int,
            |
                weapon_offers(*cfg, weapons@).len() <= i < j < r@.len() ==> choices_view(r@)[i] != choices_view(r@)[j],
    {
        let roll = roll_percent();
        let count = Self::calculate_count(luck, roll);
        let offers = Self::generate_weapon_upgrades(cfg, weapons);
        let ghost wanted = weapon_offers(*cfg, weapons@);
        if offers.len() > count {
            let picks = choose_indices(offers.len(), count);
            let r = Self::select_picked(&offers, &picks);
            proof {
                assert(r@.len() == choices_view(r@).len());
                assert(r@.len() == count);
                assert(choices_view(r@).len() == picks@.len());
                assert forall|i: int| 0 <= i < r@.len() implies wanted.contains(#[trigger] choices_view(r@)[i]) by {
                    let j = picks@[i] as int;
                    assert(choices_view(r@)[i] == target_of(offers@[j]));
                    assert(choices_view(offers@)[j] == target_of(offers@[j]));
                    assert(wanted[j] == choices_view(r@)[i]);
                }
                let idx = Seq::new(picks@.len(), |i: int| picks@[i] as int);
                assert forall|i: int| 0 <= i < idx.len() implies 0 <= #[trigger] idx[i] < wanted.len()
                    && choices_view(r@)[i] == wanted[idx[i]] by {
                    let j = picks@[i] as int;
                    assert(choices_view(r@)[i] == target_of(offers@[j]));
                    assert(choices_view(offers@)[j] == target_of(offers@[j]));
                }
                assert(picked_without_repeats(choices_view(r@), wanted, idx));
            }
            r
        } else if offers.len() < count {
            let generics = Self::generate_generic_choices();
            let need = count - offers.len();
            assert(choices_view(generics@).len() == 2);
            let picks = choose_indices(generics.len(), need);
            let ghost offered = offers@;
            let r = Self::fill_with_generics(offers, need, &generics, &picks);
            proof {
                assert(r@.len() == choices_view(r@).len());
                assert(choices_view(offered).len() == offered.len());
                assert(r@.len() == count);
                assert(choices_view(r@).take(wanted.len() as int) =~= wanted);
                assert forall|i: int|
                    0 <= i < r@.len() implies wanted.contains(#[trigger] choices_view(r@)[i])
                    || generic_targets().contains(choices_view(r@)[i]) by {
                    if i < wanted.len() {
                        assert(choices_view(r@)[i] == wanted[i]);
                    } else {
                        let k = i - wanted.len();
                        let m = k % picks@.len() as int;
                        assert(0 <= m < picks@.len()) by (nonlinear_arith)
                            requires
                                m == k % picks@.len() as int,
                                picks@.len() > 0,
                        ;
                        let g = picks@[m] as int;
                        assert(choices_view(offered).len() == wanted.len());
                        let tail = Seq::new(
                            need as nat,
                            |i: int| target_of(generics@[picks@[i % picks@.len() as int] as int]),
                        );
                        assert(choices_view(r@) == choices_view(offered) + tail);
                        assert(choices_view(r@).len() == r@.len());
                        assert(0 <= k < need);
                        assert((choices_view(offered) + tail)[i] == tail[k]);
                        assert(choices_view(r@)[i] == tail[k]);
                        assert(choices_view(r@)[i] == target_of(generics@[g]));
                        assert(choices_view(generics@)[g] == target_of(generics@[g]));
                        assert(generic_targets()[g] == choices_view(r@)[i]);
                    }
                }
                let tail = Seq::new(
                    need as nat,
                    |i: int| target_of(generics@[picks@[i % picks@.len() as int] as int]),
                );
                assert(choices_view(r@) == choices_view(offered) + tail);
                assert(choices_view(offered).len() == wanted.len());
                assert forall|i: int| wanted.len() <= i < r@.len() implies generic_targets().contains(
                    #[trigger] choices_view(r@)[i],
                ) by {
                    assert(wanted.contains(choices_view(r@)[i]) || generic_targets().contains(choices_view(r@)[i]));
                    if wanted.contains(choices_view(r@)[i]) {
                        let k = i - wanted.len();
                        assert(choices_view(r@)[i] == tail[k]);
                        let m = k % picks@.len() as int;
                        assert(0 <= m < picks@.len()) by (nonlinear_arith)
                            requires
                                m == k % picks@.len() as int,
                                picks@.len() > 0,
                        ;
                        let g = picks@[m] as int;
                        assert(choices_view(generics@)[g] == target_of(generics@[g]));
                        assert(tail[k] is Generic);
                        let w = choose|w: int| 0 <= w < wanted.len() && wanted[w] == choices_view(r@)[i];
                        lemma_offers_are_weapons(*cfg, weapons@, w);
                    }
                }
                if need <= 2 {
                    assert(picks@.len() == need);
                    assert forall|i: int, j: int| wanted.len() <= i < j < r@.len() implies choices_view(r@)[i]
                        != choices_view(r@)[j] by {
                        let a = i - wanted.len();
                        let b = j - wanted.len();
                        assert(a % picks@.len() as int == a) by (nonlinear_arith)
                            requires
                                0 <= a < picks@.len(),
                        ;
                        assert(b % picks@.len() as int == b) by (nonlinear_arith)
                            requires
                                0 <= b < picks@.len(),
                        ;
                        assert(choices_view(r@)[i] == tail[a]);
                        assert(choices_view(r@)[j] == tail[b]);
                        assert(picks@[a] != picks@[b]);
                        assert(choices_view(generics@)[picks@[a] as int] == target_of(generics@[picks@[a] as int]));
                        assert(choices_view(generics@)[picks@[b] as int] == target_of(generics@[picks@[b] as int]));
                    }
                }
            }
            r
        } else {
            proof {
                assert(choices_view(offers@).take(wanted.len() as int) =~= wanted);
                assert forall|i: int| 0 <= i < offers@.len() implies wanted.contains(#[trigger] choices_view(offers@)[i]) by {
                    assert(choices_view(offers@)[i] == wanted[i]);
                }
            }
            offers
        }
    }
}

/// Which bonus a change adds to: 0 damage, 1 area, 2 cooldown.
pub open spec fn change_delta(c: WeaponUpgradeChange, which: int) -> int {
    match c {
        WeaponUpgradeChange::Damage(v) => if which == 0 { v as int } else { 0 },
        WeaponUpgradeChange::Area(v) => if which == 1 { v as int } else { 0 },
        WeaponUpgradeChange::Cooldown(v) => if which == 2 { v as int } else { 0 },
        _ => 0,
    }
}

/// The total a list of changes adds to one bonus.
pub open spec fn delta_sum(cs: Seq<WeaponUpgradeChange>, which: int) -> int
    decreases cs.len(),
{
    if cs.len() == 0 {
        0
    } else {
        delta_sum(cs.drop_last(), which) + change_delta(cs.last(), which)
    }
}

/// The patterns a list of changes adds, in order.
pub open spec fn added_patterns(cs: Seq<WeaponUpgradeChange>) -> Seq<PatternType>
    decreases cs.len(),
{
    if cs.len() == 0 {
        seq![]
    } else {
        added_patterns(cs.drop_last()) + match cs.last() {
            WeaponUpgradeChange::AddCircle { pattern } => seq![pattern],
            _ => seq![],
        }
    }
}

/// `v` limited to the range of `i32`.
pub open spec fn clamp_i32(v: int) -> i32 {
    if v < i32::MIN {
        i32::MIN
    } else if v > i32::MAX {
        i32::MAX
    } else {
        v as i32
    }
}

/// `new` is `old` after one upgrade with changes `cs`: the bonuses grow by
/// the changes' totals, the added patterns are appended, and the level rises
/// by one. Duration changes have no stat to act on.
pub open spec fn upgraded(old: Weapon, new: Weapon, cs: Seq<WeaponUpgradeChange>) -> bool {
    &&& new.meta == WeaponMeta {
        level: if old.meta.level < u32::MAX { (old.meta.level + 1) as u32 } else { u32::MAX },
        ..old.meta
    }
    &&& new.damage == WeaponDamage {
        damage_bonus: clamp_i32(old.damage.damage_bonus + delta_sum(cs, 0)),
        ..old.damage
    }
    &&& new.area == WeaponArea { area_bonus: clamp_i32(old.area.area_bonus + delta_sum(cs, 1)), ..old.area }
    &&& new.cooldown == WeaponCooldown {
        cooldown_bonus: clamp_i32(old.cooldown.cooldown_bonus + delta_sum(cs, 2)),
        ..old.cooldown
    }
    &&& new.circle.patterns@ == old.circle.patterns@ + added_patterns(cs)
    &&& new.circle.num_sigils == old.circle.num_sigils
    &&& new.effect == old.effect
}

fn clamp_to_i32(v: i128) -> (r: i32)
    ensures
        r == clamp_i32(v as int),
{
    if v < i32::MIN as i128 {
        i32::MIN
    } else if v > i32::MAX as i128 {
        i32::MAX
    } else {
        v as i32
    }
}

/// Raises a weapon's level by one on a confirmed upgrade.
pub fn update_weapon_level(w: &mut Weapon)
    ensures
        final(w).meta.weapon_type == old(w).meta.weapon_type,
        final(w).meta.level == if old(w).meta.level < u32::MAX { (old(w).meta.level + 1) as u32 } else { u32::MAX },
        final(w).damage == old(w).damage,
        final(w).area == old(w).area,
        final(w).cooldown == old(w).cooldown,
        final(w).effect == old(w).effect,
        final(w).circle.patterns@ == old(w).circle.patterns@,
        final(w).circle.num_sigils == old(w).circle.num_sigils,
{
    w.meta.level = w.meta.level.saturating_add(1);
}

/// Adds the damage, area and cooldown deltas of an upgrade to a weapon's
/// bonuses; other changes are left to their own systems.
pub fn apply_common_weapon_upgrades(w: &mut Weapon, spec: &WeaponUpgradeSpec)
    ensures
        final(w).damage == (WeaponDamage {
            damage_bonus: clamp_i32(old(w).damage.damage_bonus + delta_sum(spec.changes@, 0)),
            ..old(w).damage
        }),
        final(w).area == (WeaponArea {
            area_bonus: clamp_i32(old(w).area.area_bonus + delta_sum(spec.changes@, 1)),
            ..old(w).area
        }),
        final(w).cooldown == (WeaponCooldown {
            cooldown_bonus: clamp_i32(old(w).cooldown.cooldown_bonus + delta_sum(spec.changes@, 2)),
            ..old(w).cooldown
        }),
        final(w).meta == old(w).meta,
        final(w).effect == old(w).effect,
        final(w).circle.patterns@ == old(w).circle.patterns@,
        final(w).circle.num_sigils == old(w).circle.num_sigils,
{
    let cs = &spec.changes;
    let mut dmg: i128 = w.damage.damage_bonus as i128;
    let mut area: i128 = w.area.area_bonus as i128;
    let mut cd: i128 = w.cooldown.cooldown_bonus as i128;
    let mut i: usize = 0;
    while i < cs.len()
        invariant
            i <= cs@.len(),
            dmg == old(w).damage.damage_bonus + delta_sum(cs@.take(i as int), 0),
            area == old(w).area.area_bonus + delta_sum(cs@.take(i as int), 1),
            cd == old(w).cooldown.cooldown_bonus + delta_sum(cs@.take(i as int), 2),
            -(i as int + 1) * 0x8000_0000 <= dmg <= (i as int + 1) * 0x8000_0000,
            -(i as int + 1) * 0x8000_0000 <= area <= (i as int + 1) * 0x8000_0000,
            -(i as int + 1) * 0x8000_0000 <= cd <= (i as int + 1) * 0x8000_0000,
        decreases cs@.len() - i,
    {
        let c = cs[i];
        proof {
            assert(cs@.take(i + 1).drop_last() =~= cs@.take(i as int));
            assert(cs@.take(i + 1).last() == c);
            assert((i as int + 2) * 0x8000_0000 <= 0x4_0000_0000_0000_0000 * 0x8000_0000) by (nonlinear_arith)
                requires
                    i <= 0xFFFF_FFFF_FFFF_FFFF,
            ;
        }
        match c {
            WeaponUpgradeChange::Damage(v) => {
                dmg = dmg + v as i128;
            },
            WeaponUpgradeChange::Area(v) => {
                area = area + v as i128;
            },
            WeaponUpgradeChange::Cooldown(v) => {
                cd = cd + v as i128;
            },
            _ => {},
        }
        i = i + 1;
    }
    proof {
        assert(cs@.take(i as int) =~= cs@);
    }
    w.damage.damage_bonus = clamp_to_i32(dmg);
    w.area.area_bonus = clamp_to_i32(area);
    w.cooldown.cooldown_bonus = clamp_to_i32(cd);
}

/// Appends the patterns an upgrade adds to a magick circle.
pub fn apply_magick_circle_weapon_upgrades(w: &mut Weapon, spec: &WeaponUpgradeSpec)
    ensures
        final(w).circle.patterns@ == old(w).circle.patterns@ + added_patterns(spec.changes@),
        final(w).circle.num_sigils == old(w).circle.num_sigils,
        final(w).meta == old(w).meta,
        final(w).damage == old(w).damage,
        final(w).area == old(w).area,
        final(w).cooldown == old(w).cooldown,
        final(w).effect == old(w).effect,
{
    let cs = &spec.changes;
    let mut i: usize = 0;
    while i < cs.len()
        invariant
            i <= cs@.len(),
            w.meta == old(w).meta,
            w.damage == old(w).damage,
            w.area == old(w).area,
            w.cooldown == old(w).cooldown,
            w.effect == old(w).effect,
            w.circle.num_sigils == old(w).circle.num_sigils,
            w.circle.patterns@ == old(w).circle.patterns@ + added_patterns(cs@.take(i as int)),
        decreases cs@.len() - i,
    {
        let c = cs[i];
        proof {
            assert(cs@.take(i + 1).drop_last() =~= cs@.take(i as int));
            assert(cs@.take(i + 1).last() == c);
        }
        if let WeaponUpgradeChange::AddCircle { pattern } = c {
            w.circle.patterns.push(pattern);
        }
        proof {
            assert(w.circle.patterns@ =~= old(w).circle.patterns@ + added_patterns(cs@.take(i + 1)));
        }
        i = i + 1;
    }
    proof {
        assert(cs@.take(i as int) =~= cs@);
    }
}

/// Applies a confirmed upgrade to a weapon: level, bonuses and patterns.
pub fn apply_weapon_upgrade(w: &mut Weapon, spec: &WeaponUpgradeSpec)
    ensures
        upgraded(*old(w), *final(w), spec.changes@),
{
    update_weapon_level(w);
    apply_common_weapon_upgrades(w, spec);
    apply_magick_circle_weapon_upgrades(w, spec);
}

/// Health after a generic effect: a pickup heals by its amount but not past
/// the maximum; other effects change nothing.
pub open spec fn healed_by(h: Health, g: GenericUpgrade) -> Health {
    match g {
        GenericUpgrade::HealthPickup(a) => {
            let v = h.current + a;
            Health {
                current: if v > h.maximum { h.maximum } else if v < i64::MIN { i64::MIN } else { v as i64 },
                ..h
            }
        },
        GenericUpgrade::ResourcePickup(_) => h,
    }
}

/// Applies a confirmed generic effect to the player's health.
pub fn handle_generic_upgrade(g: GenericUpgrade, h: &mut Health)
    ensures
        *final(h) == healed_by(*old(h), g),
{
    match g {
        GenericUpgrade::HealthPickup(a) => {
            let v: i128 = h.current as i128 + a as i128;
            h.current = if v > h.maximum as i128 {
                h.maximum
            } else if v < i64::MIN as i128 {
                i64::MIN
            } else {
                v as i64
            };
        },
        GenericUpgrade::ResourcePickup(_) => {},
    }
}

/// The choices of one level-up, until one of them is confirmed.
#[derive(Debug)]
pub struct LevelUpOffer {
    pub choices: Vec<UpgradeChoice>,
    pub resolved: bool,
}

/// Every weapon of kind `kind` is upgraded with `cs`; the others are unchanged.
pub open spec fn weapons_upgraded(old: Seq<Weapon>, new: Seq<Weapon>, kind: WeaponType, cs: Seq<WeaponUpgradeChange>) -> bool {
    &&& new.len() == old.len()
    &&& forall|i: int|
        0 <= i < old.len() ==> if (#[trigger] old[i]).meta.weapon_type == kind {
            upgraded(old[i], new[i], cs)
        } else {
            new[i] == old[i]
        }
}

/// What confirming choice `i` of offer `o0` does, from weapons `ws0` and
/// health `h0` to `o1`, `ws1`, `h1`. An offer that is already resolved, or an
/// index out of range, changes nothing. Otherwise the choice takes effect
/// once, and the offer is resolved with its alternatives discarded.
pub open spec fn confirm_effect(
    o0: LevelUpOffer,
    i: int,
    ws0: Seq<Weapon>,
    h0: Health,
    o1: LevelUpOffer,
    ws1: Seq<Weapon>,
    h1: Health,
) -> bool {
    if o0.resolved || i < 0 || i >= o0.choices@.len() {
        o1 == o0 && ws1 == ws0 && h1 == h0
    } else {
        &&& o1.resolved
        &&& o1.choices@.len() == 0
        &&& match target_of(o0.choices@[i]) {
            UpgradeTarget::Weapon(kind, cs) => weapons_upgraded(ws0, ws1, kind, cs) && h1 == h0,
            UpgradeTarget::Generic(g) => ws1 == ws0 && h1 == healed_by(h0, g),
        }
    }
}

impl LevelUpOffer {
    /// A fresh offer of the given choices.
    pub fn new(choices: Vec<UpgradeChoice>) -> (r: Self)
        ensures
            r.choices@ == choices@,
            !r.resolved,
    {
        LevelUpOffer { choices, resolved: false }
    }

    /// Confirms choice `index`; returns whether it took effect.
    pub fn confirm(&mut self, index: usize, weapons: &mut Vec<Weapon>, health: &mut Health) -> (applied: bool)
        ensures
            confirm_effect(*old(self), index as int, old(weapons)@, *old(health), *final(self), final(weapons)@, *final(health)),
            applied == (!old(self).resolved && index < old(self).choices@.len()),
    {
        if self.resolved || index >= self.choices.len() {
            return false;
        }
        match &self.choices[index].upgrade_type {
            UpgradeType::Weapon(kind, spec) => {
                let ghost ws0 = weapons@;
                let mut i: usize = 0;
                while i < weapons.len()
                    invariant
                        i <= weapons@.len(),
                        weapons@.len() == ws0.len(),
                        forall|k: int|
                            0 <= k < i ==> if (#[trigger] ws0[k]).meta.weapon_type == *kind {
                                upgraded(ws0[k], weapons@[k], spec.changes@)
                            } else {
                                weapons@[k] == ws0[k]
                            },
                        forall|k: int| i <= k < weapons@.len() ==> #[trigger] weapons@[k] == ws0[k],
                    decreases weapons@.len() - i,
                {
                    if weapons[i].meta.weapon_type == *kind {
                        apply_weapon_upgrade(&mut weapons[i], spec);
                    }
                    i = i + 1;
                }
            },
            UpgradeType::Generic(g) => {
                handle_generic_upgrade(*g, health);
            },
        }
        self.choices = Vec::new();
        self.resolved = true;
        true
    }
}

/// Confirming the same choice twice has the effect of confirming it once:
/// the second confirmation changes nothing.
pub proof fn lemma_confirm_once(
    o0: LevelUpOffer,
    i: int,
    ws0: Seq<Weapon>,
    h0: Health,
    o1: LevelUpOffer,
    ws1: Seq<Weapon>,
    h1: Health,
    o2: LevelUpOffer,
    ws2: Seq<Weapon>,
    h2: Health,
)
    requires
        confirm_effect(o0, i, ws0, h0, o1, ws1, h1),
        confirm_effect(o1, i, ws1, h1, o2, ws2, h2),
    ensures
        o2 == o1,
        ws2 == ws1,
        h2 == h1,
{
}

} // verus!
