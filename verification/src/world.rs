use vstd::prelude::*;
use vstd::pervasive::VecAdditionalExecFns;
use crate::combat::Aggression;
use crate::combat::Dead;
use crate::combat::Hp;
use crate::components::Followed;
use crate::components::Name;
use crate::creature::CreatureType;
use crate::destination::Destination;
use crate::equipment::Armour;
use crate::equipment::EquippedArmour;
use crate::equipment::EquippedShield;
use crate::equipment::EquippedWeapon;
use crate::equipment::Equips;
use crate::equipment::Shield;
use crate::equipment::Weapon;
use crate::fov::Viewshed;
use crate::grid::GridMap;
use crate::grid::MAP_DIM_LIMIT;
use crate::hunger::Food;
use crate::hunger::Hunger;
use crate::path::Moves;
use crate::path::Path;
use crate::position::Position;
use crate::render::Render;

verus! {

/// One slot of the entity arena: every component the simulation knows,
/// each optional. A slot whose `alive` flag is cleared has been despawned
/// and is skipped by every query; slots are never reused, so an entity's
/// index identifies it for the whole run.
pub struct EntityData {
    pub alive: bool,
    pub name: Option<Name>,
    pub position: Option<Position>,
    pub hp: Option<Hp>,
    pub aggression: Option<Aggression>,
    pub creature_type: Option<CreatureType>,
    pub viewshed: Option<Viewshed>,
    pub equipped_weapon: Option<EquippedWeapon>,
    pub equipped_armour: Option<EquippedArmour>,
    pub equipped_shield: Option<EquippedShield>,
    pub moves: Option<Moves>,
    pub equips: Option<Equips>,
    pub dead: Option<Dead>,
    pub followed: Option<Followed>,
    pub weapon_item: Option<Weapon>,
    pub armour_item: Option<Armour>,
    pub shield_item: Option<Shield>,
    pub destination: Option<Destination>,
    pub path: Option<Path>,
    pub render: Option<Render>,
    pub hunger: Option<Hunger>,
    pub food: Option<Food>,
}

/// The record of a slot that holds nothing.
pub open spec fn blank_spec() -> EntityData {
    EntityData {
        alive: false,
        name: None,
        position: None,
        hp: None,
        aggression: None,
        creature_type: None,
        viewshed: None,
        equipped_weapon: None,
        equipped_armour: None,
        equipped_shield: None,
        moves: None,
        equips: None,
        dead: None,
        followed: None,
        weapon_item: None,
        armour_item: None,
        shield_item: None,
        destination: None,
        path: None,
        render: None,
        hunger: None,
        food: None,
    }
}

impl EntityData {
    /// An empty slot; also used as a placeholder while a record is edited.
    pub fn blank() -> (r: EntityData)
        ensures
            r == blank_spec(),
    {
        EntityData {
            alive: false,
            name: None,
            position: None,
            hp: None,
            aggression: None,
            creature_type: None,
            viewshed: None,
            equipped_weapon: None,
            equipped_armour: None,
            equipped_shield: None,
            moves: None,
            equips: None,
            dead: None,
            followed: None,
            weapon_item: None,
            armour_item: None,
            shield_item: None,
            destination: None,
            path: None,
            render: None,
            hunger: None,
            food: None,
        }
    }
}

/// The components of an entity record fit the given map: its position and
/// every waypoint of its route lie on the map, and its sight radius is
/// within the supported range.
pub open spec fn wf_ent(m: GridMap, e: EntityData) -> bool {
    &&& (e.position matches Some(p) ==> m.in_bounds(p.0 as int, p.1 as int))
    &&& (e.viewshed matches Some(v) ==> 0 <= v.range <= MAP_DIM_LIMIT)
    &&& (e.path matches Some(p) ==> forall|j: int|
        0 <= j < p.current@.len() ==> m.in_bounds(
            (#[trigger] p.current@[j]).0 as int,
            p.current@[j].1 as int,
        ))
}

/// The whole simulation state apart from the immutable map: an append-only
/// arena of entities with their components.
pub struct World {
    pub ents: Vec<EntityData>,
}

impl World {
    /// Number of slots ever allocated (despawned slots included).
    pub open spec fn n(self) -> int {
        self.ents@.len() as int
    }

    /// Every entity fits the map.
    pub open spec fn wf(self, m: GridMap) -> bool {
        forall|i: int| 0 <= i < self.n() ==> wf_ent(m, #[trigger] self.ents@[i])
    }

    pub fn new() -> (r: World)
        ensures
            r.n() == 0,
    {
        World { ents: Vec::new() }
    }

    pub fn len(&self) -> (r: usize)
        ensures
            r == self.n(),
    {
        self.ents.len()
    }

    /// Appends a fresh entity and returns its index.
    pub fn spawn(&mut self, e: EntityData) -> (id: usize)
        ensures
            id == old(self).n(),
            final(self).ents@ == old(self).ents@.push(e),
    {
        let id = self.ents.len();
        self.ents.push(e);
        id
    }

    /// Removes the record at `i` for editing, leaving a blank placeholder.
    pub fn extract(&mut self, i: usize) -> (e: EntityData)
        requires
            i < old(self).n(),
        ensures
            e == old(self).ents@[i as int],
            final(self).ents@ == old(self).ents@.update(i as int, blank_spec()),
    {
        let mut e = EntityData::blank();
        self.ents.set_and_swap(i, &mut e);
        e
    }

    /// Stores an edited record back into slot `i`.
    pub fn store(&mut self, i: usize, e: EntityData)
        requires
            i < old(self).n(),
        ensures
            final(self).ents@ == old(self).ents@.update(i as int, e),
    {
        self.ents.set(i, e);
    }

    /// Spawns a creature with the full creature bundle: name, hit points,
    /// glyph, mobility, aggression, faction, sight, and the ability to
    /// equip gear.
    pub fn spawn_creature(
        &mut self,
        name: Name,
        hp: Hp,
        render: Render,
        aggression: Aggression,
        creature_type: CreatureType,
        viewshed_range: i32,
    ) -> (id: usize)
        requires
            0 <= viewshed_range <= MAP_DIM_LIMIT,
        ensures
            id == old(self).n(),
            final(self).n() == old(self).n() + 1,
            forall|j: int| 0 <= j < old(self).n() ==> final(self).ents@[j] == old(self).ents@[j],
            ({
                let e = final(self).ents@[id as int];
                &&& e.alive
                &&& e.name == Some(name)
                &&& e.hp == Some(hp)
                &&& e.render == Some(render)
                &&& e.aggression == Some(aggression)
                &&& e.creature_type == Some(creature_type)
                &&& e.moves is Some
                &&& e.equips is Some
                &&& (e.viewshed matches Some(v) && v.range == viewshed_range
                    && v.visible_tiles@.len() == 0)
                &&& e.position is None
                &&& e.dead is None
                &&& e.equipped_weapon is None
                &&& e.equipped_armour is None
                &&& e.equipped_shield is None
                &&& e.destination is None
                &&& e.path is None
                &&& e.weapon_item is None
                &&& e.armour_item is None
                &&& e.shield_item is None
                &&& e.hunger is None
                &&& e.food is None
                &&& e.followed is None
            }),
    {
        let e = EntityData {
            alive: true,
            name: Some(name),
            position: None,
            hp: Some(hp),
            aggression: Some(aggression),
            creature_type: Some(creature_type),
            viewshed: Some(Viewshed { visible_tiles: Vec::new(), range: viewshed_range }),
            equipped_weapon: None,
            equipped_armour: None,
            equipped_shield: None,
            moves: Some(Moves),
            equips: Some(Equips),
            dead: None,
            followed: None,
            weapon_item: None,
            armour_item: None,
            shield_item: None,
            destination: None,
            path: None,
            render: Some(render),
            hunger: None,
            food: None,
        };
        self.spawn(e)
    }
}

} // verus!
