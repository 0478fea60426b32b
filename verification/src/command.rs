use vstd::prelude::*;
use crate::combat::Dead;
use crate::destination::Destination;
use crate::equipment::Armour;
use crate::equipment::ArmourBundle;
use crate::equipment::EquippedArmour;
use crate::equipment::EquippedShield;
use crate::equipment::EquippedWeapon;
use crate::equipment::Power;
use crate::equipment::Shield;
use crate::equipment::ShieldBundle;
use crate::equipment::Weapon;
use crate::equipment::WeaponBundle;
use crate::equipment::armour_of;
use crate::equipment::shield_of;
use crate::equipment::weapon_of;
use crate::grid::GridMap;
use crate::path::Path;
use crate::position::Position;
use crate::world::EntityData;
use crate::world::World;
use crate::world::blank_spec;

verus! {

/// A structural mutation requested during a tick. These are buffered and
/// applied only at the hard synchronization point at the end of the tick,
/// so no step observes another step's structural changes within the tick.
pub enum Command {
    /// Equip a weapon on the subject.
    InsertEquippedWeapon(usize, Weapon),
    /// Equip armour on the subject.
    InsertEquippedArmour(usize, Armour),
    /// Equip a shield on the subject.
    InsertEquippedShield(usize, Shield),
    /// Remove an entity from the world (its slot is never reused).
    Despawn(usize),
    /// Drop a weapon on the floor at a position.
    SpawnWeaponItem(WeaponBundle, Position),
    /// Drop a piece of armour on the floor at a position.
    SpawnArmourItem(ArmourBundle, Position),
    /// Drop a shield on the floor at a position.
    SpawnShieldItem(ShieldBundle, Position),
    /// Attach the terminal death marker and strip mobility and aggression.
    MarkDead(usize),
    /// Give the subject a new destination.
    InsertDestination(usize, Position),
    /// Forget the subject's destination.
    ClearDestination(usize),
    /// Forget the subject's route.
    RemovePath(usize),
    /// Give the subject a freshly computed route.
    InsertPath(usize, Path),
    /// Place the subject at a position.
    InsertPosition(usize, Position),
}

/// Exactly what applying one command does to the world. A command that
/// names a slot beyond the arena leaves the world unchanged.
pub open spec fn apply_spec(w1: World, w2: World, c: Command) -> bool {
    match c {
        Command::InsertEquippedWeapon(e, item) => if 0 <= e < w1.n() {
            w2.ents@ == w1.ents@.update(
                e as int,
                EntityData { equipped_weapon: Some(EquippedWeapon(item)), ..w1.ents@[e as int] },
            )
        } else {
            w2 == w1
        },
        Command::InsertEquippedArmour(e, item) => if 0 <= e < w1.n() {
            w2.ents@ == w1.ents@.update(
                e as int,
                EntityData { equipped_armour: Some(EquippedArmour(item)), ..w1.ents@[e as int] },
            )
        } else {
            w2 == w1
        },
        Command::InsertEquippedShield(e, item) => if 0 <= e < w1.n() {
            w2.ents@ == w1.ents@.update(
                e as int,
                EntityData { equipped_shield: Some(EquippedShield(item)), ..w1.ents@[e as int] },
            )
        } else {
            w2 == w1
        },
        Command::Despawn(e) => if 0 <= e < w1.n() {
            w2.ents@ == w1.ents@.update(
                e as int,
                EntityData { alive: false, ..w1.ents@[e as int] },
            )
        } else {
            w2 == w1
        },
        Command::SpawnWeaponItem(b, pos) => w2.ents@ == w1.ents@.push(
            EntityData {
                alive: true,
                name: Some(b.name),
                render: Some(b.render),
                weapon_item: Some(b.weapon),
                position: Some(pos),
                ..blank_spec()
            },
        ),
        Command::SpawnArmourItem(b, pos) => w2.ents@ == w1.ents@.push(
            EntityData {
                alive: true,
                name: Some(b.name),
                render: Some(b.render),
                armour_item: Some(b.armour),
                position: Some(pos),
                ..blank_spec()
            },
        ),
        Command::SpawnShieldItem(b, pos) => w2.ents@ == w1.ents@.push(
            EntityData {
                alive: true,
                name: Some(b.name),
                render: Some(b.render),
                shield_item: Some(b.shield),
                position: Some(pos),
                ..blank_spec()
            },
        ),
        Command::MarkDead(e) => if 0 <= e < w1.n() {
            w2.ents@ == w1.ents@.update(
                e as int,
                EntityData {
                    dead: Some(Dead),
                    moves: None,
                    aggression: None,
                    ..w1.ents@[e as int]
                },
            )
        } else {
            w2 == w1
        },
        Command::InsertDestination(e, pos) => if 0 <= e < w1.n() {
            w2.ents@ == w1.ents@.update(
                e as int,
                EntityData {
                    destination: Some(Destination { position: pos }),
                    ..w1.ents@[e as int]
                },
            )
        } else {
            w2 == w1
        },
        Command::ClearDestination(e) => if 0 <= e < w1.n() {
            w2.ents@ == w1.ents@.update(
                e as int,
                EntityData { destination: None, ..w1.ents@[e as int] },
            )
        } else {
            w2 == w1
        },
        Command::RemovePath(e) => if 0 <= e < w1.n() {
            w2.ents@ == w1.ents@.update(
                e as int,
                EntityData { path: None, ..w1.ents@[e as int] },
            )
        } else {
            w2 == w1
        },
        Command::InsertPath(e, p) => if 0 <= e < w1.n() {
            w2.ents@ == w1.ents@.update(
                e as int,
                EntityData { path: Some(p), ..w1.ents@[e as int] },
            )
        } else {
            w2 == w1
        },
        Command::InsertPosition(e, pos) => if 0 <= e < w1.n() {
            w2.ents@ == w1.ents@.update(
                e as int,
                EntityData { position: Some(pos), ..w1.ents@[e as int] },
            )
        } else {
            w2 == w1
        },
    }
}

/// The command does not touch the position or equipment of an entity that
/// was already dead in the reference world (commands never touch hit
/// points at all, and the death marker is never removed).
pub open spec fn dead_safe(c: Command, w0: World) -> bool {
    match c {
        Command::InsertEquippedWeapon(e, _) => 0 <= e < w0.n() ==> w0.ents@[e as int].dead is None,
        Command::InsertEquippedArmour(e, _) => 0 <= e < w0.n() ==> w0.ents@[e as int].dead is None,
        Command::InsertEquippedShield(e, _) => 0 <= e < w0.n() ==> w0.ents@[e as int].dead is None,
        Command::InsertPosition(e, _) => 0 <= e < w0.n() ==> w0.ents@[e as int].dead is None,
        _ => true,
    }
}

/// Every equipment insertion trades strictly up relative to the power the
/// subject held in the reference world.
pub open spec fn equip_mono_cmd(c: Command, w0: World) -> bool {
    match c {
        Command::InsertEquippedWeapon(e, item) => 0 <= e < w0.n()
            ==> item.power_spec() > weapon_of(w0.ents@[e as int].equipped_weapon).power_spec(),
        Command::InsertEquippedArmour(e, item) => 0 <= e < w0.n()
            ==> item.power_spec() > armour_of(w0.ents@[e as int].equipped_armour).power_spec(),
        Command::InsertEquippedShield(e, item) => 0 <= e < w0.n()
            ==> item.power_spec() > shield_of(w0.ents@[e as int].equipped_shield).power_spec(),
        _ => true,
    }
}

/// The command only stores coordinates and routes that fit the map.
pub open spec fn cmd_wf(c: Command, m: GridMap) -> bool {
    match c {
        Command::SpawnWeaponItem(_, pos) => m.in_bounds(pos.0 as int, pos.1 as int),
        Command::SpawnArmourItem(_, pos) => m.in_bounds(pos.0 as int, pos.1 as int),
        Command::SpawnShieldItem(_, pos) => m.in_bounds(pos.0 as int, pos.1 as int),
        Command::InsertPosition(_, pos) => m.in_bounds(pos.0 as int, pos.1 as int),
        Command::InsertPath(_, p) => forall|j: int|
            0 <= j < p.current@.len() ==> m.in_bounds(
                (#[trigger] p.current@[j]).0 as int,
                p.current@[j].1 as int,
            ),
        _ => true,
    }
}

/// The fields the death-terminal property protects are equal.
pub open spec fn same_protected(a: EntityData, b: EntityData) -> bool {
    &&& b.position == a.position
    &&& b.hp == a.hp
    &&& b.equipped_weapon == a.equipped_weapon
    &&& b.equipped_armour == a.equipped_armour
    &&& b.equipped_shield == a.equipped_shield
    &&& b.dead == a.dead
}

/// What the synchronization point guarantees for one entity relative to
/// its tick-start record: hit points untouched, a dead entity's protected
/// state intact, and equipped power never lower.
pub open spec fn sync_ent(a: EntityData, b: EntityData) -> bool {
    &&& b.hp == a.hp
    &&& (a.dead is Some ==> same_protected(a, b))
    &&& weapon_of(b.equipped_weapon).power_spec() >= weapon_of(a.equipped_weapon).power_spec()
    &&& armour_of(b.equipped_armour).power_spec() >= armour_of(a.equipped_armour).power_spec()
    &&& shield_of(b.equipped_shield).power_spec() >= shield_of(a.equipped_shield).power_spec()
}

/// What the synchronization point guarantees relative to the tick-start
/// world: no slot disappears and every pre-existing entity satisfies
/// `sync_ent`.
pub open spec fn sync_rel(w0: World, w: World) -> bool {
    &&& w.n() >= w0.n()
    &&& forall|i: int| 0 <= i < w0.n() ==> sync_ent(w0.ents@[i], #[trigger] w.ents@[i])
}

/// One applied command keeps the synchronization guarantees, provided it
/// was safe with respect to the tick-start world.
proof fn lemma_sync_step(w0: World, w1: World, w2: World, c: Command)
    requires
        sync_rel(w0, w1),
        apply_spec(w1, w2, c),
        dead_safe(c, w0),
        equip_mono_cmd(c, w0),
    ensures
        sync_rel(w0, w2),
{
    assert forall|i: int| 0 <= i < w0.n() implies sync_ent(w0.ents@[i], #[trigger] w2.ents@[i]) by {
        assert(sync_ent(w0.ents@[i], w1.ents@[i]));
        match c {
            Command::InsertEquippedWeapon(e, item) => {
                if 0 <= e < w1.n() && i == e as int {
                    assert(w2.ents@[i] == EntityData {
                        equipped_weapon: Some(EquippedWeapon(item)),
                        ..w1.ents@[i]
                    });
                    assert(weapon_of(w2.ents@[i].equipped_weapon) == item);
                    assert(w0.ents@[i].dead is None);
                }
            },
            Command::InsertEquippedArmour(e, item) => {
                if 0 <= e < w1.n() && i == e as int {
                    assert(w2.ents@[i] == EntityData {
                        equipped_armour: Some(EquippedArmour(item)),
                        ..w1.ents@[i]
                    });
                    assert(armour_of(w2.ents@[i].equipped_armour) == item);
                    assert(w0.ents@[i].dead is None);
                }
            },
            Command::InsertEquippedShield(e, item) => {
                if 0 <= e < w1.n() && i == e as int {
                    assert(w2.ents@[i] == EntityData {
                        equipped_shield: Some(EquippedShield(item)),
                        ..w1.ents@[i]
                    });
                    assert(shield_of(w2.ents@[i].equipped_shield) == item);
                    assert(w0.ents@[i].dead is None);
                }
            },
            Command::Despawn(e) => {
                if 0 <= e < w1.n() && i == e as int {
                    assert(w2.ents@[i] == EntityData { alive: false, ..w1.ents@[i] });
                }
            },
            Command::SpawnWeaponItem(_, _) => {
                assert(w2.ents@[i] == w1.ents@[i]);
            },
            Command::SpawnArmourItem(_, _) => {
                assert(w2.ents@[i] == w1.ents@[i]);
            },
            Command::SpawnShieldItem(_, _) => {
                assert(w2.ents@[i] == w1.ents@[i]);
            },
            Command::MarkDead(e) => {
                if 0 <= e < w1.n() && i == e as int {
                    assert(w2.ents@[i] == EntityData {
                        dead: Some(Dead),
                        moves: None,
                        aggression: None,
                        ..w1.ents@[i]
                    });
                    if w0.ents@[i].dead is Some {
                        assert(w0.ents@[i].dead == Some(w0.ents@[i].dead->0));
                        assert(w0.ents@[i].dead->0 == Dead);
                        assert(w2.ents@[i].dead == w0.ents@[i].dead);
                    }
                }
            },
            Command::InsertDestination(e, pos) => {
                if 0 <= e < w1.n() && i == e as int {
                    assert(w2.ents@[i] == EntityData {
                        destination: Some(Destination { position: pos }),
                        ..w1.ents@[i]
                    });
                }
            },
            Command::ClearDestination(e) => {
                if 0 <= e < w1.n() && i == e as int {
                    assert(w2.ents@[i] == EntityData { destination: None, ..w1.ents@[i] });
                }
            },
            Command::RemovePath(e) => {
                if 0 <= e < w1.n() && i == e as int {
                    assert(w2.ents@[i] == EntityData { path: None, ..w1.ents@[i] });
                }
            },
            Command::InsertPath(e, p) => {
                if 0 <= e < w1.n() && i == e as int {
                    assert(w2.ents@[i] == EntityData { path: Some(p), ..w1.ents@[i] });
                }
            },
            Command::InsertPosition(e, pos) => {
                if 0 <= e < w1.n() && i == e as int {
                    assert(w2.ents@[i] == EntityData { position: Some(pos), ..w1.ents@[i] });
                    assert(w0.ents@[i].dead is None);
                }
            },
        }
    }
}

/// The arena after one command, as a function of the arena before it:
/// the same update `apply_spec` describes, with out-of-range commands
/// leaving the arena unchanged.
pub open spec fn apply_cmd_seq(ents: Seq<EntityData>, c: Command) -> Seq<EntityData> {
    match c {
        Command::InsertEquippedWeapon(e, item) => if 0 <= e < ents.len() {
            ents.update(
                e as int,
                EntityData { equipped_weapon: Some(EquippedWeapon(item)), ..ents[e as int] },
            )
        } else {
            ents
        },
        Command::InsertEquippedArmour(e, item) => if 0 <= e < ents.len() {
            ents.update(
                e as int,
                EntityData { equipped_armour: Some(EquippedArmour(item)), ..ents[e as int] },
            )
        } else {
            ents
        },
        Command::InsertEquippedShield(e, item) => if 0 <= e < ents.len() {
            ents.update(
                e as int,
                EntityData { equipped_shield: Some(EquippedShield(item)), ..ents[e as int] },
            )
        } else {
            ents
        },
        Command::Despawn(e) => if 0 <= e < ents.len() {
            ents.update(e as int, EntityData { alive: false, ..ents[e as int] })
        } else {
            ents
        },
        Command::SpawnWeaponItem(b, pos) => ents.push(
            EntityData {
                alive: true,
                name: Some(b.name),
                render: Some(b.render),
                weapon_item: Some(b.weapon),
                position: Some(pos),
                ..blank_spec()
            },
        ),
        Command::SpawnArmourItem(b, pos) => ents.push(
            EntityData {
                alive: true,
                name: Some(b.name),
                render: Some(b.render),
                armour_item: Some(b.armour),
                position: Some(pos),
                ..blank_spec()
            },
        ),
        Command::SpawnShieldItem(b, pos) => ents.push(
            EntityData {
                alive: true,
                name: Some(b.name),
                render: Some(b.render),
                shield_item: Some(b.shield),
                position: Some(pos),
                ..blank_spec()
            },
        ),
        Command::MarkDead(e) => if 0 <= e < ents.len() {
            ents.update(
                e as int,
                EntityData { dead: Some(Dead), moves: None, aggression: None, ..ents[e as int] },
            )
        } else {
            ents
        },
        Command::InsertDestination(e, pos) => if 0 <= e < ents.len() {
            ents.update(
                e as int,
                EntityData {
                    destination: Some(Destination { position: pos }),
                    ..ents[e as int]
                },
            )
        } else {
            ents
        },
        Command::ClearDestination(e) => if 0 <= e < ents.len() {
            ents.update(e as int, EntityData { destination: None, ..ents[e as int] })
        } else {
            ents
        },
        Command::RemovePath(e) => if 0 <= e < ents.len() {
            ents.update(e as int, EntityData { path: None, ..ents[e as int] })
        } else {
            ents
        },
        Command::InsertPath(e, p) => if 0 <= e < ents.len() {
            ents.update(e as int, EntityData { path: Some(p), ..ents[e as int] })
        } else {
            ents
        },
        Command::InsertPosition(e, pos) => if 0 <= e < ents.len() {
            ents.update(e as int, EntityData { position: Some(pos), ..ents[e as int] })
        } else {
            ents
        },
    }
}

/// The arena after a whole command sequence: every command applied once,
/// in order.
pub open spec fn apply_all_seq(ents: Seq<EntityData>, cmds: Seq<Command>) -> Seq<EntityData>
    decreases cmds.len(),
{
    if cmds.len() == 0 {
        ents
    } else {
        apply_cmd_seq(apply_all_seq(ents, cmds.drop_last()), cmds.last())
    }
}

/// `apply_spec` computes exactly the `apply_cmd_seq` step.
proof fn lemma_apply_spec_seq(w1: World, w2: World, c: Command)
    requires
        apply_spec(w1, w2, c),
    ensures
        w2.ents@ == apply_cmd_seq(w1.ents@, c),
{
}

/// Applies a single buffered command; a command naming a slot beyond the
/// arena is ignored.
fn apply_one(world: &mut World, c: Command)
    ensures
        apply_spec(*old(world), *final(world), c),
{
    let ghost w1 = *world;
    match c {
        Command::InsertEquippedWeapon(e, item) => {
            if e < world.len() {
                let mut rec = world.extract(e);
                rec.equipped_weapon = Some(EquippedWeapon(item));
                world.store(e, rec);
                proof {
                    assert(world.ents@ =~= w1.ents@.update(
                        e as int,
                        EntityData { equipped_weapon: Some(EquippedWeapon(item)), ..w1.ents@[e as int] },
                    ));
                }
            }
        },
        Command::InsertEquippedArmour(e, item) => {
            if e < world.len() {
                let mut rec = world.extract(e);
                rec.equipped_armour = Some(EquippedArmour(item));
                world.store(e, rec);
                proof {
                    assert(world.ents@ =~= w1.ents@.update(
                        e as int,
                        EntityData { equipped_armour: Some(EquippedArmour(item)), ..w1.ents@[e as int] },
                    ));
                }
            }
        },
        Command::InsertEquippedShield(e, item) => {
            if e < world.len() {
                let mut rec = world.extract(e);
                rec.equipped_shield = Some(EquippedShield(item));
                world.store(e, rec);
                proof {
                    assert(world.ents@ =~= w1.ents@.update(
                        e as int,
                        EntityData { equipped_shield: Some(EquippedShield(item)), ..w1.ents@[e as int] },
                    ));
                }
            }
        },
        Command::Despawn(e) => {
            if e < world.len() {
                let mut rec = world.extract(e);
                rec.alive = false;
                world.store(e, rec);
                proof {
                    assert(world.ents@ =~= w1.ents@.update(
                        e as int,
                        EntityData { alive: false, ..w1.ents@[e as int] },
                    ));
                }
            }
        },
        Command::SpawnWeaponItem(b, pos) => {
            let mut rec = EntityData::blank();
            rec.alive = true;
            rec.name = Some(b.name);
            rec.render = Some(b.render);
            rec.weapon_item = Some(b.weapon);
            rec.position = Some(pos);
            world.spawn(rec);
        },
        Command::SpawnArmourItem(b, pos) => {
            let mut rec = EntityData::blank();
            rec.alive = true;
            rec.name = Some(b.name);
            rec.render = Some(b.render);
            rec.armour_item = Some(b.armour);
            rec.position = Some(pos);
            world.spawn(rec);
        },
        Command::SpawnShieldItem(b, pos) => {
            let mut rec = EntityData::blank();
            rec.alive = true;
            rec.name = Some(b.name);
            rec.render = Some(b.render);
            rec.shield_item = Some(b.shield);
            rec.position = Some(pos);
            world.spawn(rec);
        },
        Command::MarkDead(e) => {
            if e < world.len() {
                let mut rec = world.extract(e);
                rec.dead = Some(Dead);
                rec.moves = None;
                rec.aggression = None;
                world.store(e, rec);
                proof {
                    assert(world.ents@ =~= w1.ents@.update(
                        e as int,
                        EntityData {
                            dead: Some(Dead),
                            moves: None,
                            aggression: None,
                            ..w1.ents@[e as int]
                        },
                    ));
                }
            }
        },
        Command::InsertDestination(e, pos) => {
            if e < world.len() {
                let mut rec = world.extract(e);
                rec.destination = Some(Destination { position: pos });
                world.store(e, rec);
                proof {
                    assert(world.ents@ =~= w1.ents@.update(
                        e as int,
                        EntityData {
                            destination: Some(Destination { position: pos }),
                            ..w1.ents@[e as int]
                        },
                    ));
                }
            }
        },
        Command::ClearDestination(e) => {
            if e < world.len() {
                let mut rec = world.extract(e);
                rec.destination = None;
                world.store(e, rec);
                proof {
                    assert(world.ents@ =~= w1.ents@.update(
                        e as int,
                        EntityData { destination: None, ..w1.ents@[e as int] },
                    ));
                }
            }
        },
        Command::RemovePath(e) => {
            if e < world.len() {
                let mut rec = world.extract(e);
                rec.path = None;
                world.store(e, rec);
                proof {
                    assert(world.ents@ =~= w1.ents@.update(
                        e as int,
                        EntityData { path: None, ..w1.ents@[e as int] },
                    ));
                }
            }
        },
        Command::InsertPath(e, p) => {
            if e < world.len() {
                let ghost gp = p;
                let mut rec = world.extract(e);
                rec.path = Some(p);
                world.store(e, rec);
                proof {
                    assert(world.ents@ =~= w1.ents@.update(
                        e as int,
                        EntityData { path: Some(gp), ..w1.ents@[e as int] },
                    ));
                }
            }
        },
        Command::InsertPosition(e, pos) => {
            if e < world.len() {
                let mut rec = world.extract(e);
                rec.position = Some(pos);
                world.store(e, rec);
                proof {
                    assert(world.ents@ =~= w1.ents@.update(
                        e as int,
                        EntityData { position: Some(pos), ..w1.ents@[e as int] },
                    ));
                }
            }
        },
    }
}

/// The hard synchronization point: drains the buffer, applying every
/// deferred mutation in the order it was requested. Provided every command
/// was safe with respect to the world as it stood when the tick began,
/// the result keeps every map-fitting invariant, never touches hit points,
/// preserves the protected state of already-dead entities, and only ever
/// raises equipped power.
pub fn apply_commands(world: &mut World, commands: &mut Vec<Command>, map: &GridMap)
    requires
        map.inv(),
        old(world).wf(*map),
        forall|k: int|
            0 <= k < old(commands)@.len() ==> cmd_wf(#[trigger] old(commands)@[k], *map)
                && dead_safe(old(commands)@[k], *old(world))
                && equip_mono_cmd(old(commands)@[k], *old(world)),
    ensures
        final(commands)@.len() == 0,
        final(world).wf(*map),
        sync_rel(*old(world), *final(world)),
        // the buffered mutations really land: the new arena is the old one
        // with every command applied, in order
        final(world).ents@ == apply_all_seq(old(world).ents@, old(commands)@),
{
    let ghost w0 = *world;
    let ghost orig_cmds = commands@;
    proof {
        assert(commands@ =~= orig_cmds.skip(0));
        assert(orig_cmds.take(0) =~= Seq::<Command>::empty());
    }
    while commands.len() > 0
        invariant
            map.inv(),
            world.wf(*map),
            sync_rel(w0, *world),
            commands@.len() <= orig_cmds.len(),
            commands@ == orig_cmds.skip(orig_cmds.len() - commands@.len()),
            world.ents@ == apply_all_seq(
                w0.ents@,
                orig_cmds.take(orig_cmds.len() - commands@.len()),
            ),
            forall|k: int|
                0 <= k < commands@.len() ==> cmd_wf(#[trigger] commands@[k], *map)
                    && dead_safe(commands@[k], w0) && equip_mono_cmd(commands@[k], w0),
        decreases commands@.len(),
    {
        let ghost remaining = commands@;
        let ghost p = orig_cmds.len() - commands@.len();
        let c = commands.remove(0);
        let ghost w1 = *world;
        proof {
            assert(c == remaining[0]);
            assert(c == orig_cmds[p]);
            assert(commands@ =~= orig_cmds.skip(p + 1));
            assert forall|k: int|
                0 <= k < commands@.len() implies cmd_wf(#[trigger] commands@[k], *map)
                    && dead_safe(commands@[k], w0) && equip_mono_cmd(commands@[k], w0) by {
                assert(commands@[k] == remaining[k + 1]);
            }
        }
        apply_one(world, c);
        proof {
            lemma_sync_step(w0, w1, *world, c);
            lemma_wf_step(*map, w1, *world, c);
            lemma_apply_spec_seq(w1, *world, c);
            assert(orig_cmds.take(p + 1).drop_last() =~= orig_cmds.take(p));
            assert(orig_cmds.take(p + 1).last() == c);
            assert(world.ents@ == apply_all_seq(w0.ents@, orig_cmds.take(p + 1)));
        }
    }
    proof {
        assert(orig_cmds.take(orig_cmds.len() as int) =~= orig_cmds);
    }
}

/// One applied command keeps every entity record fitting the map.
proof fn lemma_wf_step(m: GridMap, w1: World, w2: World, c: Command)
    requires
        m.inv(),
        w1.wf(m),
        apply_spec(w1, w2, c),
        cmd_wf(c, m),
    ensures
        w2.wf(m),
{
    assert forall|i: int| 0 <= i < w2.n() implies crate::world::wf_ent(m, #[trigger] w2.ents@[i]) by {
        if i < w1.n() {
            assert(crate::world::wf_ent(m, w1.ents@[i]));
        }
    }
}

} // verus!
