use vstd::prelude::*;
use crate::EndGameEvent;
use crate::TickCount;
use crate::cleanup::creature_type_count;
use crate::cleanup::types_remaining;
use crate::cleanup::type_alive;
use crate::combat::death;
use crate::combat::fight;
use crate::command::Command;
use crate::command::apply_commands;
use crate::command::cmd_wf;
use crate::command::dead_safe;
use crate::command::equip_mono_cmd;
use crate::command::same_protected;
use crate::command::sync_ent;
use crate::destination::set_destination;
use crate::equipment::Power;
use crate::equipment::armour_of;
use crate::equipment::pick_up_gear;
use crate::equipment::shield_of;
use crate::equipment::weapon_of;
use crate::fov::calculate_viewshed;
use crate::grid::GridMap;
use crate::log::LogEvent;
use crate::path::move_path;
use crate::path::path_to_destination;
use crate::position::assign_positions;
use crate::rng::DiceRng;
use crate::world::World;

verus! {

/// The fields that buffered commands and the win-condition check are
/// judged against are identical in the two worlds: the arena size and
/// every entity's liveness, death marker, creature type and equipment.
/// Every step of a tick preserves this basis; only the synchronization
/// point moves it.
pub open spec fn same_basis(w1: World, w2: World) -> bool {
    &&& w2.n() == w1.n()
    &&& forall|i: int|
        0 <= i < w1.n() ==> ((#[trigger] w2.ents@[i]).alive == w1.ents@[i].alive
            && w2.ents@[i].dead == w1.ents@[i].dead && w2.ents@[i].creature_type
            == w1.ents@[i].creature_type && w2.ents@[i].equipped_weapon
            == w1.ents@[i].equipped_weapon && w2.ents@[i].equipped_armour
            == w1.ents@[i].equipped_armour && w2.ents@[i].equipped_shield
            == w1.ents@[i].equipped_shield)
}

/// Death is terminal: an entity dead at the start keeps its position, hit
/// points, equipment and marker.
pub open spec fn dead_preserved(w0: World, w: World) -> bool {
    forall|i: int|
        0 <= i < w0.n() && (#[trigger] w0.ents@[i]).dead is Some ==> same_protected(
            w0.ents@[i],
            w.ents@[i],
        )
}

/// Equipped power never drops: pickups only ever trade a slot up.
pub open spec fn equip_monotone(w0: World, w: World) -> bool {
    forall|i: int|
        0 <= i < w0.n() ==> (weapon_of((#[trigger] w.ents@[i]).equipped_weapon).power_spec()
            >= weapon_of(w0.ents@[i].equipped_weapon).power_spec() && armour_of(
            w.ents@[i].equipped_armour,
        ).power_spec() >= armour_of(w0.ents@[i].equipped_armour).power_spec() && shield_of(
            w.ents@[i].equipped_shield,
        ).power_spec() >= shield_of(w0.ents@[i].equipped_shield).power_spec())
}

/// A command's safety only depends on the basis fields.
proof fn lemma_safety_transfer(c: Command, w1: World, w2: World)
    requires
        same_basis(w1, w2),
    ensures
        dead_safe(c, w1) == dead_safe(c, w2),
        equip_mono_cmd(c, w1) == equip_mono_cmd(c, w2),
{
}

/// The number of surviving creature types only depends on the basis
/// fields.
proof fn lemma_types_transfer(w1: World, w2: World)
    requires
        same_basis(w1, w2),
    ensures
        types_remaining(w1) == types_remaining(w2),
{
    assert forall|ct: crate::creature::CreatureType|
        #[trigger] type_alive(w1, ct) == type_alive(w2, ct) by {
        if type_alive(w1, ct) {
            let i = choose|i: int|
                0 <= i < w1.n() && (#[trigger] w1.ents@[i]).alive && w1.ents@[i].dead is None
                    && w1.ents@[i].creature_type == Some(ct);
            assert(w2.ents@[i].alive && w2.ents@[i].dead is None && w2.ents@[i].creature_type
                == Some(ct));
        }
        if type_alive(w2, ct) {
            let i = choose|i: int|
                0 <= i < w2.n() && (#[trigger] w2.ents@[i]).alive && w2.ents@[i].dead is None
                    && w2.ents@[i].creature_type == Some(ct);
            assert(w1.ents@[i].alive && w1.ents@[i].dead is None && w1.ents@[i].creature_type
                == Some(ct));
        }
    }
    assert(type_alive(w1, crate::creature::CreatureType::Human) == type_alive(
        w2,
        crate::creature::CreatureType::Human,
    ));
    assert(type_alive(w1, crate::creature::CreatureType::Goblin) == type_alive(
        w2,
        crate::creature::CreatureType::Goblin,
    ));
    assert(type_alive(w1, crate::creature::CreatureType::Orc) == type_alive(
        w2,
        crate::creature::CreatureType::Orc,
    ));
}

/// Terminal death composes across consecutive steps.
proof fn lemma_chain_dead(w0: World, w1: World, w2: World)
    requires
        dead_preserved(w0, w1),
        dead_preserved(w1, w2),
        w1.n() >= w0.n(),
    ensures
        dead_preserved(w0, w2),
{
    assert forall|i: int|
        0 <= i < w0.n() && (#[trigger] w0.ents@[i]).dead is Some implies same_protected(
            w0.ents@[i],
            w2.ents@[i],
        ) by {
        assert(same_protected(w0.ents@[i], w1.ents@[i]));
        assert(w1.ents@[i].dead is Some);
        assert(same_protected(w1.ents@[i], w2.ents@[i]));
    }
}

/// One full simulation tick, in the fixed deterministic order: placement,
/// route planning, combat, gear pickup, targeting, movement, visibility
/// recompute, death watch, win-condition check, and finally the hard
/// synchronization point that applies all buffered structural changes.
/// Across the whole tick, death is terminal and equipped power never
/// drops; the returned signal says whether at most one creature type
/// survives.
pub fn tick(
    world: &mut World,
    map: &GridMap,
    log: &mut Vec<LogEvent>,
    rng: &mut DiceRng,
    tick_count: &mut TickCount,
) -> (r: Option<EndGameEvent>)
    requires
        map.inv(),
        map.rooms_wf(),
        1 <= map.rooms@.len() <= 0x7fffffff,
        old(world).wf(*map),
    ensures
        final(world).wf(*map),
        final(world).n() >= old(world).n(),
        dead_preserved(*old(world), *final(world)),
        equip_monotone(*old(world), *final(world)),
        r is Some <==> types_remaining(*old(world)) <= 1,
        old(tick_count).0 < i32::MAX ==> final(tick_count).0 == old(tick_count).0 + 1,
{
    let ghost w0 = *world;
    let mut buf: Vec<Command> = Vec::new();

    assign_positions(&*world, map, &mut buf, rng);
    path_to_destination(&*world, map, &mut buf, log);
    proof {
        assert forall|k: int|
            0 <= k < buf@.len() implies cmd_wf(#[trigger] buf@[k], *map) && dead_safe(buf@[k], w0)
                && equip_mono_cmd(buf@[k], w0) by {
        }
    }

    fight(world, log, rng);
    let ghost w_f = *world;
    proof {
        assert(same_basis(w0, w_f));
        assert(dead_preserved(w0, w_f));
        assert forall|i: int|
            0 <= i < world.n() implies crate::world::wf_ent(*map, #[trigger] world.ents@[i]) by {
            assert(crate::world::wf_ent(*map, w0.ents@[i]));
        }
        assert(world.wf(*map));
    }

    pick_up_gear(&*world, map, &mut buf, log);
    set_destination(&*world, map, &mut buf, log, rng);
    proof {
        assert forall|k: int|
            0 <= k < buf@.len() implies cmd_wf(#[trigger] buf@[k], *map) && dead_safe(buf@[k], w0)
                && equip_mono_cmd(buf@[k], w0) by {
            lemma_safety_transfer(buf@[k], w0, w_f);
        }
    }

    move_path(world, map, &mut buf);
    let ghost w_m = *world;
    proof {
        assert(same_basis(w_f, w_m));
        assert(same_basis(w0, w_m));
        assert(dead_preserved(w_f, w_m));
        lemma_chain_dead(w0, w_f, w_m);
        assert forall|k: int|
            0 <= k < buf@.len() implies cmd_wf(#[trigger] buf@[k], *map) && dead_safe(buf@[k], w0)
                && equip_mono_cmd(buf@[k], w0) by {
            lemma_safety_transfer(buf@[k], w0, w_f);
        }
    }

    calculate_viewshed(world, map);
    let ghost w_v = *world;
    proof {
        assert(same_basis(w_m, w_v));
        assert(same_basis(w0, w_v));
        assert forall|i: int|
            0 <= i < w_m.n() && (#[trigger] w_m.ents@[i]).dead is Some implies same_protected(
                w_m.ents@[i],
                w_v.ents@[i],
            ) by {
        }
        lemma_chain_dead(w0, w_m, w_v);
    }

    death(world, &mut buf, log);
    let ghost w_d = *world;
    proof {
        assert(same_basis(w_v, w_d));
        assert(same_basis(w0, w_d));
        assert(dead_preserved(w_v, w_d));
        lemma_chain_dead(w0, w_v, w_d);
        assert forall|i: int|
            0 <= i < world.n() implies crate::world::wf_ent(*map, #[trigger] world.ents@[i]) by {
            assert(crate::world::wf_ent(*map, w_v.ents@[i]));
        }
        assert(world.wf(*map));
    }

    let r = creature_type_count(&*world, log);
    proof {
        lemma_types_transfer(w0, w_d);
    }

    proof {
        assert forall|k: int|
            0 <= k < buf@.len() implies cmd_wf(#[trigger] buf@[k], *map) && dead_safe(
                buf@[k],
                *world,
            ) && equip_mono_cmd(buf@[k], *world) by {
            lemma_safety_transfer(buf@[k], w0, w_d);
        }
    }
    apply_commands(world, &mut buf, map);
    proof {
        // terminal death across the synchronization point
        assert forall|i: int|
            0 <= i < w_d.n() && (#[trigger] w_d.ents@[i]).dead is Some implies same_protected(
                w_d.ents@[i],
                world.ents@[i],
            ) by {
            assert(sync_ent(w_d.ents@[i], world.ents@[i]));
        }
        lemma_chain_dead(w0, w_d, *world);
        // equipment power never drops: unchanged through the step phase,
        // then monotone across the synchronization point
        assert forall|i: int|
            0 <= i < w0.n() implies (weapon_of(
                (#[trigger] world.ents@[i]).equipped_weapon,
            ).power_spec() >= weapon_of(w0.ents@[i].equipped_weapon).power_spec() && armour_of(
                world.ents@[i].equipped_armour,
            ).power_spec() >= armour_of(w0.ents@[i].equipped_armour).power_spec() && shield_of(
                world.ents@[i].equipped_shield,
            ).power_spec() >= shield_of(w0.ents@[i].equipped_shield).power_spec()) by {
            assert(sync_ent(w_d.ents@[i], world.ents@[i]));
            assert(w_d.ents@[i].equipped_weapon == w0.ents@[i].equipped_weapon);
        }
    }

    if tick_count.0 < i32::MAX {
        tick_count.0 = tick_count.0 + 1;
    }
    r
}

} // verus!
