use vstd::prelude::*;

verus! {

/// Faction tag of a creature; creatures of the same type never target
/// one another.
#[derive(Clone, Copy, Debug, PartialEq, Eq, Hash, Structural)]
pub enum CreatureType {
    Human,
    Goblin,
    Orc,
}

/// Base combat statistics carried by a creature type.
pub struct CombatStats {
    pub armour_class: i32,
    pub attack_bonus: i32,
}

impl CreatureType {
    /// Base armour class: the threshold an attack roll must meet or exceed,
    /// before equipment bonuses.
    pub open spec fn armour_class_spec(self) -> int {
        match self {
            CreatureType::Human => 10,
            CreatureType::Goblin => 10,
            CreatureType::Orc => 18,
        }
    }

    /// Flat bonus added to this creature type's attack rolls.
    pub open spec fn attack_bonus_spec(self) -> int {
        match self {
            CreatureType::Human => 0,
            CreatureType::Goblin => 0,
            CreatureType::Orc => 0,
        }
    }

    pub fn get_stats(&self) -> (r: CombatStats)
        ensures
            r.armour_class == self.armour_class_spec(),
            r.attack_bonus == self.attack_bonus_spec(),
    {
        match self {
            CreatureType::Human => CombatStats { armour_class: 10, attack_bonus: 0 },
            CreatureType::Goblin => CombatStats { armour_class: 10, attack_bonus: 0 },
            CreatureType::Orc => CombatStats { armour_class: 18, attack_bonus: 0 },
        }
    }
}

} // verus!
