use vstd::prelude::*;
use crate::command::Command;
use crate::components::Severity;
use crate::equipment::get_armour;
use crate::equipment::get_shield;
use crate::equipment::get_weapon;
use crate::log::LogEvent;
use crate::position::distance2d_pythagoras_squared;
use crate::render::Colour;
use crate::render::Render;
use crate::rng::DiceRng;
use crate::world::EntityData;
use crate::world::World;
use crate::components::SeverityLevel;
use crate::creature::CreatureType;
use crate::equipment::Armour;
use crate::equipment::Power;
use crate::equipment::Weapon;
use crate::equipment::Shield;

verus! {

/// Hostility drive of a creature; only sufficiently aggressive creatures
/// attack, the rest exchange greetings.
#[derive(Clone, Copy, Debug, PartialEq, Eq, Structural)]
pub struct Aggression(pub i32);

impl Severity for Aggression {
    open spec fn severity_spec(&self) -> SeverityLevel {
        if self.0 >= 100 {
            SeverityLevel::Max
        } else if self.0 > 0 {
            SeverityLevel::Moderate
        } else {
            SeverityLevel::Min
        }
    }

    fn get_severity(&self) -> (r: SeverityLevel)
        ensures
            r == self.severity_spec(),
    {
        if self.0 >= 100 {
            return SeverityLevel::Max;
        } else if self.0 > 0 {
            return SeverityLevel::Moderate;
        }
        SeverityLevel::Min
    }
}

/// Signed hit points; a creature dies when they drop to zero or below.
#[derive(Clone, Copy, Debug, PartialEq, Eq, Structural)]
pub struct Hp(pub i32);

/// A component that can report whether its owner is dead.
pub trait Death {
    /// Whether the owner counts as dead.
    spec fn dead_spec(&self) -> bool;

    fn is_dead(&self) -> (r: bool)
        ensures
            r == self.dead_spec(),
    ;
}

impl Death for Hp {
    open spec fn dead_spec(&self) -> bool {
        self.0 <= 0
    }

    fn is_dead(&self) -> (r: bool)
        ensures
            r == self.dead_spec(),
    {
        self.0 <= 0
    }
}

/// Terminal marker attached on death; never removed, and its owner is
/// excluded from all further targeting, movement and combat.
#[derive(Clone, Copy, Debug, PartialEq, Eq, Structural)]
pub struct Dead;

/// An attack lands exactly when the roll plus the attacker's bonus meets or
/// exceeds the target's total armour class.
pub open spec fn attack_hits(roll: int, attack_bonus: int, total_ac: int) -> bool {
    roll + attack_bonus >= total_ac
}

/// Compares an attack roll plus bonus against a total armour class.
pub fn resolve_attack(roll: i32, attack_bonus: i32, total_ac: i32) -> (hit: bool)
    ensures
        hit == attack_hits(roll as int, attack_bonus as int, total_ac as int),
{
    (roll as i64) + (attack_bonus as i64) >= (total_ac as i64)
}

/// Total armour class of a defender: the creature type's base armour class
/// plus the bonuses of worn armour and carried shield.
pub open spec fn total_ac_spec(ct: CreatureType, armour: Armour, shield: Shield) -> int {
    ct.armour_class_spec() + armour.power_spec() + shield.power_spec()
}

pub fn total_armour_class(ct: &CreatureType, armour: &Armour, shield: &Shield) -> (r: i32)
    ensures
        r == total_ac_spec(*ct, *armour, *shield),
{
    ct.get_stats().armour_class + armour.get_power() + shield.get_power()
}

/// Subtracts damage from a hit-point pool. The subtraction saturates at the
/// representation's minimum, far below any death threshold; hit points may
/// go negative, and death is defined as zero-or-below.
pub fn apply_damage(hp: &mut Hp, damage: i32)
    requires
        damage >= 0,
    ensures
        old(hp).0 - damage >= i32::MIN ==> final(hp).0 == old(hp).0 - damage,
        old(hp).0 - damage < i32::MIN ==> final(hp).0 == i32::MIN,
        final(hp).0 <= old(hp).0,
{
    let v: i64 = (hp.0 as i64) - (damage as i64);
    if v < i32::MIN as i64 {
        hp.0 = i32::MIN;
    } else {
        hp.0 = v as i32;
    }
}

/// One attack attempt against a target's hit-point pool. The roll is
/// compared against the target's total armour class; on a hit, damage is
/// rolled from the attacker's weapon dice and subtracted. A miss never
/// changes the target's hit points. Returns whether the attack landed and
/// the damage dealt (zero on a miss).
pub fn attack(
    roll: i32,
    attack_bonus: i32,
    total_ac: i32,
    weapon: &Weapon,
    rng: &mut DiceRng,
    hp: &mut Hp,
) -> (r: (bool, i32))
    ensures
        r.0 == attack_hits(roll as int, attack_bonus as int, total_ac as int),
        !r.0 ==> *final(hp) == *old(hp) && r.1 == 0,
        r.0 ==> weapon.die_num_spec() <= r.1 <= weapon.die_num_spec() * weapon.die_size_spec(),
        r.0 ==> (old(hp).0 - r.1 >= i32::MIN ==> final(hp).0 == old(hp).0 - r.1),
        r.0 ==> (old(hp).0 - r.1 < i32::MIN ==> final(hp).0 == i32::MIN),
        final(hp).0 <= old(hp).0,
{
    if resolve_attack(roll, attack_bonus, total_ac) {
        let damage = weapon.get_damage(rng);
        apply_damage(hp, damage);
        (true, damage)
    } else {
        (false, 0)
    }
}

/// Subject `i` meets target `j`: a living, named, placed creature with an
/// aggression drive stands within the engagement radius of a living,
/// unmarked creature of another type.
pub open spec fn meeting(w: World, i: int, j: int) -> bool {
    &&& 0 <= i < w.n()
    &&& 0 <= j < w.n()
    &&& w.ents@[i].alive
    &&& w.ents@[i].name is Some
    &&& w.ents@[i].creature_type is Some
    &&& w.ents@[i].aggression is Some
    &&& w.ents@[j].alive
    &&& w.ents@[j].dead is None
    &&& w.ents@[j].hp is Some
    &&& w.ents@[j].name is Some
    &&& w.ents@[j].creature_type is Some
    &&& w.ents@[i].creature_type != w.ents@[j].creature_type
    &&& (w.ents@[i].position matches Some(p) && w.ents@[j].position matches Some(q)
        && crate::position::dist2(p.0 as int, p.1 as int, q.0 as int, q.1 as int) <= 2)
}

/// A hostile meeting: the subject's aggression is above the neutral
/// threshold, so the pair proceeds to an attack attempt.
pub open spec fn engagement(w: World, i: int, j: int) -> bool {
    &&& meeting(w, i, j)
    &&& (w.ents@[i].aggression matches Some(a) && a.0 > 0)
}

/// The event records the outcome of this pair's attack attempt: a hit
/// whose damage lies within the subject's weapon dice bounds, or a miss.
pub open spec fn pair_combat_logged(ev: LogEvent, a: int, b: int, w: Weapon) -> bool {
    ||| (ev matches LogEvent::Hit { subject_id, target_id, damage, .. } && subject_id == a
        && target_id == b && w.die_num_spec() <= damage <= w.die_num_spec() * w.die_size_spec())
    ||| (ev matches LogEvent::Miss { subject_id, target_id, .. } && subject_id == a
        && target_id == b)
}

/// The event records this pair's friendly greeting.
pub open spec fn pair_greeting_logged(ev: LogEvent, a: int, b: int) -> bool {
    ev matches LogEvent::Greeting { subject_id, target_id, .. } && subject_id == a
        && target_id == b
}

/// Everything but the hit points of every entity is untouched, hit points
/// never rise, and the hit points of entities that were already dead are
/// untouched.
pub open spec fn fight_frame(w0: World, w: World) -> bool {
    &&& w.n() == w0.n()
    &&& forall|k: int|
        0 <= k < w0.n() ==> #[trigger] w.ents@[k] == EntityData {
            hp: w.ents@[k].hp,
            ..w0.ents@[k]
        }
    &&& forall|k: int|
        0 <= k < w0.n() ==> match (w0.ents@[k].hp, (#[trigger] w.ents@[k]).hp) {
            (Some(h0), Some(h1)) => h1.0 <= h0.0,
            (None, None) => true,
            _ => false,
        }
    &&& forall|k: int|
        0 <= k < w0.n() && w0.ents@[k].dead is Some ==> (#[trigger] w.ents@[k]).hp
            == w0.ents@[k].hp
}

/// Combat resolution: every sufficiently aggressive creature attacks every
/// living creature of a different type within the engagement radius. An
/// attack rolls a twenty-sided die against the target's total armour
/// class; a hit subtracts a weapon damage roll from the target's hit
/// points, a miss changes nothing. Calmer creatures only greet. Dead
/// targets are never engaged.
pub fn fight(world: &mut World, log: &mut Vec<LogEvent>, rng: &mut DiceRng)
    ensures
        fight_frame(*old(world), *final(world)),
        // hit points only ever change through a legitimate engagement
        forall|j: int|
            0 <= j < old(world).n() && (#[trigger] final(world).ents@[j]).hp
                != old(world).ents@[j].hp ==> (exists|i: int|
                engagement(*old(world), i, j)),
        // every hostile meeting resolves to a hit or miss line for that
        // pair, with dice-bounded damage on a hit
        forall|a: int, b: int|
            #[trigger] engagement(*old(world), a, b) ==> (exists|t: int|
                old(log)@.len() <= t < final(log)@.len() && pair_combat_logged(
                    final(log)@[t],
                    a,
                    b,
                    crate::equipment::weapon_of(old(world).ents@[a].equipped_weapon),
                )),
        // every calm meeting produces a greeting line for that pair
        forall|a: int, b: int|
            #[trigger] meeting(*old(world), a, b) && (old(world).ents@[a].aggression matches
                Some(g) && g.0 <= 0) ==> (exists|t: int|
                old(log)@.len() <= t < final(log)@.len() && pair_greeting_logged(
                    final(log)@[t],
                    a,
                    b,
                )),
        old(log)@.len() <= final(log)@.len(),
        forall|k: int| 0 <= k < old(log)@.len() ==> final(log)@[k] == old(log)@[k],
{
    let ghost w0 = *world;
    let n = world.len();
    let mut i: usize = 0;
    while i < n
        invariant
            n == world.n(),
            fight_frame(w0, *world),
            forall|k: int|
                0 <= k < w0.n() && (#[trigger] world.ents@[k]).hp != w0.ents@[k].hp
                    ==> (exists|t: int| engagement(w0, t, k)),
            forall|a: int, b: int|
                #[trigger] engagement(w0, a, b) && a < i ==> (exists|t: int|
                    old(log)@.len() <= t < log@.len() && pair_combat_logged(
                        log@[t],
                        a,
                        b,
                        crate::equipment::weapon_of(w0.ents@[a].equipped_weapon),
                    )),
            forall|a: int, b: int|
                #[trigger] meeting(w0, a, b) && (w0.ents@[a].aggression matches Some(g) && g.0
                    <= 0) && a < i ==> (exists|t: int|
                    old(log)@.len() <= t < log@.len() && pair_greeting_logged(log@[t], a, b)),
            old(log)@.len() <= log@.len(),
            forall|k: int| 0 <= k < old(log)@.len() ==> log@[k] == old(log)@[k],
        decreases n - i,
    {
        let ghost log_i0 = log@;
        let sub = &world.ents[i];
        let sub_ok = sub.alive && sub.name.is_some() && sub.position.is_some()
            && sub.aggression.is_some() && sub.creature_type.is_some();
        if sub_ok {
            let sub_pos = sub.position.unwrap();
            let sub_ag = sub.aggression.unwrap();
            let sub_ty = sub.creature_type.unwrap();
            let sub_wpn = sub.equipped_weapon;
            let sub_name = match &sub.name {
                Some(nm) => nm.0.clone(),
                None => "".to_owned(),
            };
            let mut j: usize = 0;
            while j < n
                invariant
                    n == world.n(),
                    fight_frame(w0, *world),
                    i < n,
                    world.ents@[i as int].alive,
                    world.ents@[i as int].name is Some,
                    world.ents@[i as int].creature_type == Some(sub_ty),
                    world.ents@[i as int].position == Some(sub_pos),
                    world.ents@[i as int].aggression == Some(sub_ag),
                    sub_wpn == w0.ents@[i as int].equipped_weapon,
                    forall|k: int|
                        0 <= k < w0.n() && (#[trigger] world.ents@[k]).hp != w0.ents@[k].hp
                            ==> (exists|t: int| engagement(w0, t, k)),
                    forall|a: int, b: int|
                        #[trigger] engagement(w0, a, b) && (a < i || (a == i && b < j))
                            ==> (exists|t: int|
                            old(log)@.len() <= t < log@.len() && pair_combat_logged(
                                log@[t],
                                a,
                                b,
                                crate::equipment::weapon_of(w0.ents@[a].equipped_weapon),
                            )),
                    forall|a: int, b: int|
                        #[trigger] meeting(w0, a, b) && (w0.ents@[a].aggression matches Some(g)
                            && g.0 <= 0) && (a < i || (a == i && b < j)) ==> (exists|t: int|
                            old(log)@.len() <= t < log@.len() && pair_greeting_logged(
                                log@[t],
                                a,
                                b,
                            )),
                    old(log)@.len() <= log@.len(),
                    forall|k: int| 0 <= k < old(log)@.len() ==> log@[k] == old(log)@[k],
                decreases n - j,
            {
                let ghost log_j0 = log@;
                let tgt = &world.ents[j];
                if tgt.alive && tgt.dead.is_none() && tgt.hp.is_some() && tgt.name.is_some()
                    && tgt.position.is_some() && tgt.creature_type.is_some() {
                    let tgt_pos = tgt.position.unwrap();
                    let tgt_ty = tgt.creature_type.unwrap();
                    let tgt_arm = tgt.equipped_armour;
                    let tgt_shl = tgt.equipped_shield;
                    let tgt_name = match &tgt.name {
                        Some(nm) => nm.0.clone(),
                        None => "".to_owned(),
                    };
                    // creatures of the same type never attack one another
                    if !(sub_ty == tgt_ty) {
                        if distance2d_pythagoras_squared(&sub_pos, &tgt_pos) <= 2 {
                            match sub_ag.get_severity() {
                                SeverityLevel::Moderate | SeverityLevel::Max => {
                                    let roll = rng.range(1, 20);
                                    let attack_bonus = sub_ty.get_stats().attack_bonus;
                                    let armour = get_armour(tgt_arm.as_ref());
                                    let shield = get_shield(tgt_shl.as_ref());
                                    let total_ac = total_armour_class(&tgt_ty, &armour, &shield);
                                    let weapon = get_weapon(sub_wpn.as_ref());
                                    let weapon_stats = weapon.get_stats();
                                    let ghost pre = *world;
                                    let mut trec = world.extract(j);
                                    let mut outcome: (bool, i32) = (false, 0);
                                    match &mut trec.hp {
                                        Some(h) => {
                                            outcome = attack(
                                                roll, attack_bonus, total_ac, &weapon, rng, h,
                                            );
                                        },
                                        None => {},
                                    }
                                    world.store(j, trec);
                                    proof {
                                        assert(world.ents@[j as int] == EntityData {
                                            hp: world.ents@[j as int].hp,
                                            ..pre.ents@[j as int]
                                        });
                                        assert forall|k: int|
                                            0 <= k < w0.n() implies #[trigger] world.ents@[k]
                                                == EntityData {
                                                hp: world.ents@[k].hp,
                                                ..w0.ents@[k]
                                            } by {
                                            if k != j as int {
                                                assert(world.ents@[k] == pre.ents@[k]);
                                            }
                                        }
                                        assert forall|k: int|
                                            0 <= k < w0.n() && (#[trigger] world.ents@[k]).hp
                                                != w0.ents@[k].hp implies (exists|t: int|
                                                engagement(w0, t, k)) by {
                                            if k == j as int && pre.ents@[k].hp == w0.ents@[k].hp {
                                                assert(engagement(w0, i as int, j as int));
                                            } else {
                                                assert(pre.ents@[k].hp != w0.ents@[k].hp);
                                            }
                                        }
                                    }
                                    if outcome.0 {
                                        log.push(LogEvent::Hit {
                                            subject_id: i,
                                            target_id: j,
                                            subject: sub_name.clone(),
                                            target: tgt_name,
                                            weapon: weapon.get_name(),
                                            damage: outcome.1,
                                            roll,
                                            attack_bonus,
                                            armour_class: total_ac,
                                            die_num: weapon_stats.die_num,
                                            die_size: weapon_stats.die_size,
                                        });
                                    } else {
                                        log.push(LogEvent::Miss {
                                            subject_id: i,
                                            target_id: j,
                                            subject: sub_name.clone(),
                                            target: tgt_name,
                                            roll,
                                            attack_bonus,
                                            armour_class: total_ac,
                                        });
                                    }
                                },
                                SeverityLevel::Min => {
                                    log.push(LogEvent::Greeting {
                                        subject_id: i,
                                        target_id: j,
                                        subject: sub_name.clone(),
                                        target: tgt_name,
                                    });
                                },
                            }
                        }
                    }
                }
                proof {
                    assert forall|a: int, b: int|
                        #[trigger] engagement(w0, a, b) && (a < i as int || (a == i as int && b
                            < j + 1)) implies (exists|t: int|
                            old(log)@.len() <= t < log@.len() && pair_combat_logged(
                                log@[t],
                                a,
                                b,
                                crate::equipment::weapon_of(w0.ents@[a].equipped_weapon),
                            )) by {
                        if a == i as int && b == j as int {
                            assert(pair_combat_logged(
                                log@[log@.len() - 1],
                                a,
                                b,
                                crate::equipment::weapon_of(w0.ents@[a].equipped_weapon),
                            ));
                        } else {
                            let t = choose|t: int|
                                old(log)@.len() <= t < log_j0.len() && pair_combat_logged(
                                    #[trigger] log_j0[t],
                                    a,
                                    b,
                                    crate::equipment::weapon_of(w0.ents@[a].equipped_weapon),
                                );
                            assert(log@[t] == log_j0[t]);
                        }
                    }
                    assert forall|a: int, b: int|
                        #[trigger] meeting(w0, a, b) && (w0.ents@[a].aggression matches Some(g)
                            && g.0 <= 0) && (a < i as int || (a == i as int && b < j + 1))
                            implies (exists|t: int|
                            old(log)@.len() <= t < log@.len() && pair_greeting_logged(
                                log@[t],
                                a,
                                b,
                            )) by {
                        if a == i as int && b == j as int {
                            assert(pair_greeting_logged(log@[log@.len() - 1], a, b));
                        } else {
                            let t = choose|t: int|
                                old(log)@.len() <= t < log_j0.len() && pair_greeting_logged(
                                    #[trigger] log_j0[t],
                                    a,
                                    b,
                                );
                            assert(log@[t] == log_j0[t]);
                        }
                    }
                }
                j = j + 1;
            }
        } else {
            proof {
                assert forall|b: int| !(#[trigger] meeting(w0, i as int, b)) by {
                    assert(world.ents@[i as int] == EntityData {
                        hp: world.ents@[i as int].hp,
                        ..w0.ents@[i as int]
                    });
                }
            }
        }
        proof {
            assert forall|a: int, b: int|
                #[trigger] engagement(w0, a, b) && a < i + 1 implies (exists|t: int|
                    old(log)@.len() <= t < log@.len() && pair_combat_logged(
                        log@[t],
                        a,
                        b,
                        crate::equipment::weapon_of(w0.ents@[a].equipped_weapon),
                    )) by {
                if a == i as int {
                    assert(b < w0.n());
                }
            }
            assert forall|a: int, b: int|
                #[trigger] meeting(w0, a, b) && (w0.ents@[a].aggression matches Some(g) && g.0
                    <= 0) && a < i + 1 implies (exists|t: int|
                    old(log)@.len() <= t < log@.len() && pair_greeting_logged(log@[t], a, b)) by {
                if a == i as int {
                    assert(b < w0.n());
                }
            }
        }
        i = i + 1;
    }
}

/// The entity meets the death watch's query: it is a living, not yet
/// marked creature whose hit points have run out, with a name and a glyph.
pub open spec fn death_due(w: World, e: int) -> bool {
    &&& 0 <= e < w.n()
    &&& w.ents@[e].alive
    &&& w.ents@[e].dead is None
    &&& (w.ents@[e].hp matches Some(h) && h.0 <= 0)
    &&& w.ents@[e].name is Some
    &&& w.ents@[e].render is Some
}

/// Death watch: every entity whose hit points have dropped to zero or
/// below has its glyph replaced by a corpse marker at once, and is queued
/// to receive the terminal death tag — losing mobility and aggression —
/// at the tick's synchronization point. Entities already marked dead are
/// never revisited.
pub fn death(world: &mut World, buf: &mut Vec<Command>, log: &mut Vec<LogEvent>)
    ensures
        final(world).n() == old(world).n(),
        forall|k: int|
            0 <= k < old(world).n() ==> #[trigger] final(world).ents@[k] == (EntityData {
                render: final(world).ents@[k].render,
                ..old(world).ents@[k]
            }),
        forall|k: int|
            0 <= k < old(world).n() && old(world).ents@[k].dead is Some
                ==> #[trigger] final(world).ents@[k] == old(world).ents@[k],
        // entities not due keep their whole record; due ones get the
        // corpse glyph in their old colour
        forall|k: int|
            0 <= k < old(world).n() && !death_due(*old(world), k)
                ==> #[trigger] final(world).ents@[k] == old(world).ents@[k],
        forall|k: int|
            0 <= k < old(world).n() && death_due(*old(world), k)
                ==> ((#[trigger] final(world).ents@[k]).render matches Some(r)
                    && r.glyph@ == "%"@ && (old(world).ents@[k].render matches Some(r0)
                    && r.colour == r0.colour)),
        old(buf)@.len() <= final(buf)@.len(),
        forall|k: int| 0 <= k < old(buf)@.len() ==> final(buf)@[k] == old(buf)@[k],
        forall|k: int|
            old(buf)@.len() <= k < final(buf)@.len() ==> ((#[trigger] final(buf)@[k]) matches
                Command::MarkDead(e) && death_due(*old(world), e as int)),
        // every creature whose hit points ran out is queued for the marker
        forall|e: int|
            death_due(*old(world), e) ==> (exists|t: int|
                old(buf)@.len() <= t < final(buf)@.len() && final(buf)@[t] == (
                Command::MarkDead(e as usize))),
        // and its passing is logged
        forall|e: int|
            death_due(*old(world), e) ==> (exists|t: int|
                old(log)@.len() <= t < final(log)@.len() && ((#[trigger] final(log)@[t]) matches
                    LogEvent::Dies { subject_id, .. } && subject_id == e)),
        old(log)@.len() <= final(log)@.len(),
        forall|k: int| 0 <= k < old(log)@.len() ==> final(log)@[k] == old(log)@[k],
{
    let ghost w0 = *world;
    let n = world.len();
    let mut e: usize = 0;
    while e < n
        invariant
            n == world.n(),
            n == w0.n(),
            forall|k: int|
                0 <= k < w0.n() ==> #[trigger] world.ents@[k] == (EntityData {
                    render: world.ents@[k].render,
                    ..w0.ents@[k]
                }),
            forall|k: int|
                0 <= k < w0.n() ==> (((#[trigger] world.ents@[k]).render is Some)
                    == (w0.ents@[k].render is Some)),
            forall|k: int|
                0 <= k < w0.n() && w0.ents@[k].dead is Some
                    ==> #[trigger] world.ents@[k] == w0.ents@[k],
            forall|k: int|
                0 <= k < w0.n() && !(death_due(w0, k) && k < e)
                    ==> #[trigger] world.ents@[k] == w0.ents@[k],
            forall|k: int|
                0 <= k < w0.n() && death_due(w0, k) && k < e
                    ==> ((#[trigger] world.ents@[k]).render matches Some(r) && r.glyph@ == "%"@
                        && (w0.ents@[k].render matches Some(r0) && r.colour == r0.colour)),
            forall|d: int|
                death_due(w0, d) && d < e ==> (exists|t: int|
                    old(log)@.len() <= t < log@.len() && ((#[trigger] log@[t]) matches
                        LogEvent::Dies { subject_id, .. } && subject_id == d)),
            old(buf)@.len() <= buf@.len(),
            forall|k: int| 0 <= k < old(buf)@.len() ==> buf@[k] == old(buf)@[k],
            forall|k: int|
                old(buf)@.len() <= k < buf@.len() ==> ((#[trigger] buf@[k]) matches
                    Command::MarkDead(d) && death_due(w0, d as int)),
            forall|d: int|
                death_due(w0, d) && d < e ==> (exists|t: int|
                    old(buf)@.len() <= t < buf@.len() && buf@[t] == (
                    Command::MarkDead(d as usize))),
            old(log)@.len() <= log@.len(),
            forall|k: int| 0 <= k < old(log)@.len() ==> log@[k] == old(log)@[k],
        decreases n - e,
    {
        let rec = &world.ents[e];
        let mut due = rec.alive && rec.dead.is_none() && rec.name.is_some() && rec.render.is_some();
        if due {
            due = match &rec.hp {
                Some(h) => h.is_dead(),
                None => false,
            };
        }
        if due {
            proof {
                assert(death_due(w0, e as int));
            }
            let name = match &world.ents[e].name {
                Some(nm) => nm.0.clone(),
                None => "".to_owned(),
            };
            let colour = match &world.ents[e].render {
                Some(r) => r.colour,
                None => Colour::White,
            };
            let ghost pre = *world;
            let mut erec = world.extract(e);
            erec.render = Some(Render { colour, glyph: "%".to_owned() });
            world.store(e, erec);
            proof {
                assert forall|k: int|
                    0 <= k < w0.n() implies #[trigger] world.ents@[k] == EntityData {
                        render: world.ents@[k].render,
                        ..w0.ents@[k]
                    } by {
                    if k != e as int {
                        assert(world.ents@[k] == pre.ents@[k]);
                    }
                }
            }
            let ghost buf_pre = buf@;
            let ghost log_pre = log@;
            buf.push(Command::MarkDead(e));
            log.push(LogEvent::Dies { subject_id: e, subject: name });
            proof {
                assert(world.ents@[e as int].render matches Some(r) && r.glyph@ == "%"@);
                assert(w0.ents@[e as int].render matches Some(r0) && colour == r0.colour);
                assert forall|k: int|
                    0 <= k < w0.n() && !(death_due(w0, k) && k < e + 1)
                        implies #[trigger] world.ents@[k] == w0.ents@[k] by {
                    if k != e as int {
                        assert(world.ents@[k] == pre.ents@[k]);
                    }
                }
                assert forall|k: int|
                    0 <= k < w0.n() && death_due(w0, k) && k < e + 1
                        implies ((#[trigger] world.ents@[k]).render matches Some(r)
                            && r.glyph@ == "%"@ && (w0.ents@[k].render matches Some(r0)
                            && r.colour == r0.colour)) by {
                    if k != e as int {
                        assert(world.ents@[k] == pre.ents@[k]);
                    }
                }
                assert forall|d: int|
                    death_due(w0, d) && d < e + 1 implies exists|t: int|
                        old(buf)@.len() <= t < buf@.len() && buf@[t] == (
                        Command::MarkDead(d as usize)) by {
                    if d == e as int {
                        assert(buf@[buf@.len() - 1] == Command::MarkDead(d as usize));
                    } else {
                        let t = choose|t: int|
                            old(buf)@.len() <= t < buf_pre.len() && buf_pre[t] == (
                            Command::MarkDead(d as usize));
                        assert(buf@[t] == Command::MarkDead(d as usize));
                    }
                }
                assert forall|d: int|
                    death_due(w0, d) && d < e + 1 implies (exists|t: int|
                        old(log)@.len() <= t < log@.len() && ((#[trigger] log@[t]) matches
                            LogEvent::Dies { subject_id, .. } && subject_id == d)) by {
                    if d == e as int {
                        assert(log@[log@.len() - 1] matches LogEvent::Dies { subject_id, .. }
                            && subject_id == d);
                    } else {
                        let t = choose|t: int|
                            old(log)@.len() <= t < log_pre.len() && ((#[trigger] log_pre[t])
                                matches LogEvent::Dies { subject_id, .. } && subject_id == d);
                        assert(log@[t] == log_pre[t]);
                    }
                }
            }
        } else {
            proof {
                assert(!death_due(w0, e as int));
            }
        }
        e = e + 1;
    }
}

} // verus!
