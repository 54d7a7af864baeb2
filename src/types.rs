use vstd::prelude::*;

verus! {

/// How rare an upgrade offer is.
#[derive(Clone, Copy, Debug, PartialEq, Eq, Structural)]
pub enum Rarity {
    Common,
    Uncommon,
    Rare,
    Epic,
    Legendary,
}

/// Kinds of equipment an upgrade pool may hold.
#[derive(Clone, Copy, Debug, PartialEq, Eq, Hash, Structural)]
pub enum EquipmentType {
    Armor,
    Ring,
    Amulet,
    Boots,
    Gloves,
}

/// Kinds of player statistics an upgrade pool may hold.
#[derive(Clone, Copy, Debug, PartialEq, Eq, Hash, Structural)]
pub enum StatType {
    Health,
    Speed,
    Attack,
    Defense,
    Luck,
}

pub open spec fn equipment_label(e: EquipmentType) -> Seq<char> {
    match e {
        EquipmentType::Armor => "Armor"@,
        EquipmentType::Ring => "Ring"@,
        EquipmentType::Amulet => "Amulet"@,
        EquipmentType::Boots => "Boots"@,
        EquipmentType::Gloves => "Gloves"@,
    }
}

pub open spec fn stat_label(s: StatType) -> Seq<char> {
    match s {
        StatType::Health => "Health"@,
        StatType::Speed => "Speed"@,
        StatType::Attack => "Attack"@,
        StatType::Defense => "Defense"@,
        StatType::Luck => "Luck"@,
    }
}

impl EquipmentType {
    /// The display name of this kind of equipment.
    pub fn to_string(&self) -> (r: String)
        ensures
            r@ == equipment_label(*self),
    {
        match self {
            EquipmentType::Armor => "Armor".to_owned(),
            EquipmentType::Ring => "Ring".to_owned(),
            EquipmentType::Amulet => "Amulet".to_owned(),
            EquipmentType::Boots => "Boots".to_owned(),
            EquipmentType::Gloves => "Gloves".to_owned(),
        }
    }
}

impl StatType {
    /// The display name of this statistic.
    pub fn to_string(&self) -> (r: String)
        ensures
            r@ == stat_label(*self),
    {
        match self {
            StatType::Health => "Health".to_owned(),
            StatType::Speed => "Speed".to_owned(),
            StatType::Attack => "Attack".to_owned(),
            StatType::Defense => "Defense".to_owned(),
            StatType::Luck => "Luck".to_owned(),
        }
    }
}

} // verus!
