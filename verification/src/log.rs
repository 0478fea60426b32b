use vstd::prelude::*;
use crate::creature::CreatureType;

verus! {

/// One narrative event appended by a simulation step. The presentation
/// layer formats these into text lines; the engine only records them, in
/// order, so a run's log is reproducible.
pub enum LogEvent {
    /// A creature chose a visible enemy as its new destination.
    NewDestination { subject: String },
    /// A creature with nothing to chase picked a random room to wander to.
    WanderDestination { subject: String },
    /// A route to the current destination was found.
    NowMoving { subject: String },
    /// An attack landed.
    Hit {
        subject_id: usize,
        target_id: usize,
        subject: String,
        target: String,
        weapon: String,
        damage: i32,
        roll: i32,
        attack_bonus: i32,
        armour_class: i32,
        die_num: i32,
        die_size: i32,
    },
    /// An attack missed; nothing changed.
    Miss {
        subject_id: usize,
        target_id: usize,
        subject: String,
        target: String,
        roll: i32,
        attack_bonus: i32,
        armour_class: i32,
    },
    /// A non-hostile encounter.
    Greeting { subject_id: usize, target_id: usize, subject: String, target: String },
    /// A creature's hit points dropped to zero or below.
    Dies { subject_id: usize, subject: String },
    /// A creature equipped an item found on the floor.
    PickUp { subject: String, target: String },
    /// The previously equipped item was left behind.
    Drop { subject: String, item: String },
    /// A carried shield blocked picking up a two-handed weapon.
    ShieldBlocksPickup { subject: String, target: String },
    /// A two-handed weapon blocked picking up a shield.
    HandsFullBlocksPickup { subject: String, target: String, weapon: String },
    /// A hungry creature ate nearby food.
    Eats { subject: String },
    /// No creature type survives.
    GameOverDraw,
    /// Exactly one creature type survives.
    GameOverWinner { winner: CreatureType },
}

} // verus!
