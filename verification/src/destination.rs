use vstd::prelude::*;
use crate::command::Command;
use crate::fov::Point;
use crate::grid::GridMap;
use crate::log::LogEvent;
use crate::position::Position;
use crate::position::dist2;
use crate::position::distance2d_pythagoras_squared;
use crate::rng::DiceRng;
use crate::world::World;

verus! {

/// The coordinate a creature currently intends to reach; replaced when
/// targeting finds a better candidate and cleared on arrival.
#[derive(Clone, Copy, Debug, PartialEq, Eq, Structural)]
pub struct Destination {
    pub position: Position,
}

/// Entity `j` is something subject `i` may chase: a living, unmarked,
/// named creature of a different type standing on a tile the subject
/// currently sees.
pub open spec fn is_candidate(w: World, i: int, j: int) -> bool {
    &&& 0 <= j < w.n()
    &&& j != i
    &&& w.ents@[j].alive
    &&& w.ents@[j].dead is None
    &&& w.ents@[j].name is Some
    &&& w.ents@[j].creature_type is Some
    &&& w.ents@[j].position is Some
    &&& w.ents@[j].creature_type != w.ents@[i].creature_type
    &&& (w.ents@[i].viewshed matches Some(v) && w.ents@[j].position matches Some(p)
        && v.visible_tiles@.contains(Point { x: p.0, y: p.1 }))
}

/// Squared distance from subject `i` to entity `j`.
pub open spec fn cand_dist(w: World, i: int, j: int) -> int {
    match (w.ents@[i].position, w.ents@[j].position) {
        (Some(a), Some(b)) => dist2(a.0 as int, a.1 as int, b.0 as int, b.1 as int),
        _ => 0,
    }
}

/// Scans the subject's visible tiles for the closest creature of another
/// type. Returns a closest candidate and its position, or `None` exactly
/// when nothing chaseable is in sight. The pick never shares the
/// subject's own creature type.
pub fn select_target(world: &World, i: usize) -> (r: Option<(usize, Position)>)
    requires
        i < world.n(),
        world.ents@[i as int].viewshed is Some,
        world.ents@[i as int].position is Some,
        world.ents@[i as int].creature_type is Some,
    ensures
        (match r {
            Some(jp) => {
                &&& is_candidate(*world, i as int, jp.0 as int)
                &&& world.ents@[jp.0 as int].position == Some(jp.1)
                &&& world.ents@[jp.0 as int].creature_type != world.ents@[i as int].creature_type
                &&& forall|k: int|
                    is_candidate(*world, i as int, k) ==> #[trigger] cand_dist(
                        *world,
                        i as int,
                        k,
                    ) >= cand_dist(*world, i as int, jp.0 as int)
            },
            None => forall|k: int| !(#[trigger] is_candidate(*world, i as int, k)),
        }),
{
    let ghost gi = i as int;
    let n = world.len();
    let sub = &world.ents[i];
    let sub_pos = sub.position.unwrap();
    let sub_ty = sub.creature_type.unwrap();
    let vs_len = match &world.ents[i].viewshed {
        Some(v) => v.visible_tiles.len(),
        None => 0,
    };
    let mut best: Option<(usize, Position)> = None;
    let mut best_dist: i128 = 0;
    let mut t: usize = 0;
    while t < vs_len
        invariant
            n == world.n(),
            i < n,
            gi == i as int,
            world.ents@[gi].position == Some(sub_pos),
            world.ents@[gi].creature_type == Some(sub_ty),
            world.ents@[gi].viewshed is Some,
            vs_len == world.ents@[gi].viewshed->0.visible_tiles@.len(),
            t <= vs_len,
            (match best {
                Some(jp) => {
                    &&& is_candidate(*world, gi, jp.0 as int)
                    &&& world.ents@[jp.0 as int].position == Some(jp.1)
                    &&& best_dist == cand_dist(*world, gi, jp.0 as int)
                },
                None => true,
            }),
            forall|k: int, t2: int|
                #![trigger world.ents@[k], world.ents@[gi].viewshed->0.visible_tiles@[t2]]
                0 <= k < n && 0 <= t2 < vs_len && is_candidate(*world, gi, k)
                    && (world.ents@[k].position matches Some(p)
                        && world.ents@[gi].viewshed->0.visible_tiles@[t2] == Point {
                            x: p.0,
                            y: p.1,
                        }) && t2 < t ==> best is Some && best_dist <= cand_dist(*world, gi, k),
        decreases vs_len - t,
    {
        let point = match &world.ents[i].viewshed {
            Some(v) => v.visible_tiles[t],
            None => Point { x: 0, y: 0 },
        };
        let mut j: usize = 0;
        while j < n
            invariant
                n == world.n(),
                i < n,
                gi == i as int,
                world.ents@[gi].position == Some(sub_pos),
                world.ents@[gi].creature_type == Some(sub_ty),
                world.ents@[gi].viewshed is Some,
                vs_len == world.ents@[gi].viewshed->0.visible_tiles@.len(),
                t < vs_len,
                j <= n,
                point == world.ents@[gi].viewshed->0.visible_tiles@[t as int],
                (match best {
                    Some(jp) => {
                        &&& is_candidate(*world, gi, jp.0 as int)
                        &&& world.ents@[jp.0 as int].position == Some(jp.1)
                        &&& best_dist == cand_dist(*world, gi, jp.0 as int)
                    },
                    None => true,
                }),
                forall|k: int, t2: int|
                    #![trigger world.ents@[k], world.ents@[gi].viewshed->0.visible_tiles@[t2]]
                    0 <= k < n && 0 <= t2 < vs_len && is_candidate(*world, gi, k)
                        && (world.ents@[k].position matches Some(p)
                            && world.ents@[gi].viewshed->0.visible_tiles@[t2] == Point {
                                x: p.0,
                                y: p.1,
                            }) && (t2 < t || (t2 == t && k < j)) ==> best is Some && best_dist
                        <= cand_dist(*world, gi, k),
            decreases n - j,
        {
            if j != i {
                let tgt = &world.ents[j];
                if tgt.alive && tgt.dead.is_none() && tgt.name.is_some()
                    && tgt.creature_type.is_some() && tgt.position.is_some() {
                    let tgt_pos = tgt.position.unwrap();
                    let tgt_ty = tgt.creature_type.unwrap();
                    if !(sub_ty == tgt_ty) {
                        if tgt_pos.0 == point.x && tgt_pos.1 == point.y {
                            let d = distance2d_pythagoras_squared(&sub_pos, &tgt_pos);
                            let skip = match best {
                                Some(_) => best_dist < d,
                                None => false,
                            };
                            if !skip {
                                best = Some((j, tgt_pos));
                                best_dist = d;
                            }
                        }
                    }
                }
            }
            j = j + 1;
        }
        t = t + 1;
    }
    proof {
        match best {
            Some(jp) => {
                assert forall|k: int|
                    is_candidate(*world, gi, k) implies #[trigger] cand_dist(*world, gi, k)
                        >= cand_dist(*world, gi, jp.0 as int) by {
                    let v = world.ents@[gi].viewshed->0;
                    let p = world.ents@[k].position->0;
                    let t2 = choose|t2: int|
                        0 <= t2 < v.visible_tiles@.len() && v.visible_tiles@[t2] == (Point {
                            x: p.0,
                            y: p.1,
                        });
                    assert(world.ents@[gi].viewshed->0.visible_tiles@[t2] == Point {
                        x: p.0,
                        y: p.1,
                    });
                }
            },
            None => {
                assert forall|k: int| !(#[trigger] is_candidate(*world, gi, k)) by {
                    if is_candidate(*world, gi, k) {
                        let v = world.ents@[gi].viewshed->0;
                        let p = world.ents@[k].position->0;
                        let t2 = choose|t2: int|
                            0 <= t2 < v.visible_tiles@.len() && v.visible_tiles@[t2] == (Point {
                                x: p.0,
                                y: p.1,
                            });
                        assert(world.ents@[gi].viewshed->0.visible_tiles@[t2] == Point {
                            x: p.0,
                            y: p.1,
                        });
                    }
                }
            },
        }
    }
    best
}

/// A destination assignment is justified: either it is the position of a
/// chaseable candidate, or it is the center of one of the map's rooms.
pub open spec fn dest_justified(w: World, m: GridMap, e: int, p: Position) -> bool {
    ||| (exists|j: int| #[trigger] is_candidate(w, e, j) && w.ents@[j].position == Some(p))
    ||| (exists|ri: int|
        0 <= ri < m.rooms@.len() && (#[trigger] m.rooms@[ri]).center_spec().0 == p.0
            && m.rooms@[ri].center_spec().1 == p.1)
}

/// Candidate `k` is one of the closest: no other candidate of subject `e`
/// is strictly nearer.
pub open spec fn min_candidate(w: World, e: int, k: int) -> bool {
    &&& is_candidate(w, e, k)
    &&& forall|k2: int|
        #[trigger] is_candidate(w, e, k2) ==> cand_dist(w, e, k2) >= cand_dist(w, e, k)
}

/// The subject can chase this tick: it is a living, mobile, placed, named,
/// sighted creature.
pub open spec fn chase_due(w: World, e: int) -> bool {
    &&& 0 <= e < w.n()
    &&& w.ents@[e].alive
    &&& w.ents@[e].moves is Some
    &&& w.ents@[e].position is Some
    &&& w.ents@[e].creature_type is Some
    &&& w.ents@[e].name is Some
    &&& w.ents@[e].viewshed is Some
}

/// The command concerns entity `e`.
pub open spec fn names_entity(c: Command, e: int) -> bool {
    ||| (c matches Command::InsertDestination(ee, p) && ee == e)
    ||| (c matches Command::RemovePath(ee) && ee == e)
}

/// The creature is owed a destination this tick: it is a living, mobile,
/// placed, named creature that currently has none.
pub open spec fn wander_due(w: World, e: int) -> bool {
    &&& 0 <= e < w.n()
    &&& w.ents@[e].alive
    &&& w.ents@[e].moves is Some
    &&& w.ents@[e].position is Some
    &&& w.ents@[e].creature_type is Some
    &&& w.ents@[e].name is Some
    &&& w.ents@[e].destination is None
}

/// Destination assignment: a sighted mobile creature chases the closest
/// visible creature of another type, replacing its destination and
/// dropping its route unless it is already heading there; only a creature
/// with no destination and nothing in sight wanders, to a uniformly drawn
/// room's center. Requires a non-empty room list: a map without rooms is
/// a fatal configuration error that callers must reject.
pub fn set_destination(
    world: &World,
    map: &GridMap,
    buf: &mut Vec<Command>,
    log: &mut Vec<LogEvent>,
    rng: &mut DiceRng,
)
    requires
        map.inv(),
        map.rooms_wf(),
        1 <= map.rooms@.len() <= 0x7fffffff,
    ensures
        old(buf)@.len() <= final(buf)@.len(),
        forall|k: int| 0 <= k < old(buf)@.len() ==> final(buf)@[k] == old(buf)@[k],
        forall|k: int|
            old(buf)@.len() <= k < final(buf)@.len() ==> crate::command::cmd_wf(
                #[trigger] final(buf)@[k],
                *map,
            ) && crate::command::dead_safe(final(buf)@[k], *world)
                && crate::command::equip_mono_cmd(final(buf)@[k], *world),
        forall|k: int|
            old(buf)@.len() <= k < final(buf)@.len() ==> (((#[trigger] final(buf)@[k]) matches
                Command::InsertDestination(e, p) ==> dest_justified(*world, *map, e as int, p))
                && (final(buf)@[k] matches Command::InsertDestination(e, p)
                    || final(buf)@[k] matches Command::RemovePath(e))),
        // every creature owed a destination has one queued
        forall|e: int|
            wander_due(*world, e) ==> (exists|t: int|
                old(buf)@.len() <= t < final(buf)@.len() && ((#[trigger] final(buf)@[t]) matches
                    Command::InsertDestination(ee, p) && ee == e)),
        // a sighted creature whose closest visible enemy is not already its
        // destination replaces the destination and drops its route
        forall|e: int|
            #[trigger] chase_due(*world, e) && (exists|k: int| is_candidate(*world, e, k))
                && (world.ents@[e].destination matches Some(d) ==> (forall|k: int|
                #[trigger] min_candidate(*world, e, k) ==> world.ents@[k].position != Some(
                    d.position,
                ))) ==> (exists|t: int|
                old(buf)@.len() <= t && t + 1 < final(buf)@.len() && (final(buf)@[t] matches
                    Command::InsertDestination(ee, p) && ee == e && (exists|k: int|
                    #[trigger] min_candidate(*world, e, k) && world.ents@[k].position == Some(p)))
                    && (#[trigger] final(buf)@[t + 1]) == (Command::RemovePath(e as usize))),
        // one already heading for its closest enemy is left entirely alone
        forall|e: int|
            #[trigger] chase_due(*world, e) && (world.ents@[e].destination matches Some(d)
                && (forall|k: int|
                #[trigger] min_candidate(*world, e, k) ==> world.ents@[k].position == Some(
                    d.position,
                ))) ==> (forall|t: int|
                old(buf)@.len() <= t < final(buf)@.len() ==> !names_entity(
                    #[trigger] final(buf)@[t],
                    e,
                )),
        old(log)@.len() <= final(log)@.len(),
        forall|k: int| 0 <= k < old(log)@.len() ==> final(log)@[k] == old(log)@[k],
{
    let n = world.len();
    let mut i: usize = 0;
    while i < n
        invariant
            n == world.n(),
            map.inv(),
            map.rooms_wf(),
            1 <= map.rooms@.len() <= 0x7fffffff,
            old(buf)@.len() <= buf@.len(),
            forall|k: int| 0 <= k < old(buf)@.len() ==> buf@[k] == old(buf)@[k],
            forall|k: int|
                old(buf)@.len() <= k < buf@.len() ==> crate::command::cmd_wf(
                    #[trigger] buf@[k],
                    *map,
                ) && crate::command::dead_safe(buf@[k], *world)
                    && crate::command::equip_mono_cmd(buf@[k], *world),
            forall|k: int|
                old(buf)@.len() <= k < buf@.len() ==> (((#[trigger] buf@[k]) matches
                    Command::InsertDestination(e, p) ==> dest_justified(*world, *map, e as int, p))
                    && (buf@[k] matches Command::InsertDestination(e, p)
                        || buf@[k] matches Command::RemovePath(e))),
            forall|e: int|
                wander_due(*world, e) && e < i ==> (exists|t: int|
                    old(buf)@.len() <= t < buf@.len() && ((#[trigger] buf@[t]) matches
                        Command::InsertDestination(ee, p) && ee == e)),
            forall|k: int, e2: int|
                old(buf)@.len() <= k < buf@.len() && #[trigger] names_entity(buf@[k], e2)
                    ==> e2 < i,
            forall|e: int|
                #[trigger] chase_due(*world, e) && e < i && (exists|k: int|
                    is_candidate(*world, e, k)) && (world.ents@[e].destination matches Some(d)
                    ==> (forall|k: int|
                    #[trigger] min_candidate(*world, e, k) ==> world.ents@[k].position != Some(
                        d.position,
                    ))) ==> (exists|t: int|
                    old(buf)@.len() <= t && t + 1 < buf@.len() && (buf@[t] matches
                        Command::InsertDestination(ee, p) && ee == e && (exists|k: int|
                        #[trigger] min_candidate(*world, e, k) && world.ents@[k].position == Some(
                            p,
                        ))) && (#[trigger] buf@[t + 1]) == (Command::RemovePath(e as usize))),
            forall|e: int|
                #[trigger] chase_due(*world, e) && e < i && (world.ents@[e].destination matches
                    Some(d) && (forall|k: int|
                    #[trigger] min_candidate(*world, e, k) ==> world.ents@[k].position == Some(
                        d.position,
                    ))) ==> (forall|t: int|
                    old(buf)@.len() <= t < buf@.len() ==> !names_entity(#[trigger] buf@[t], e)),
            old(log)@.len() <= log@.len(),
            forall|k: int| 0 <= k < old(log)@.len() ==> log@[k] == old(log)@[k],
        decreases n - i,
    {
        let ghost buf_i0 = buf@;
        let sub = &world.ents[i];
        let sub_ok = sub.alive && sub.moves.is_some() && sub.position.is_some()
            && sub.creature_type.is_some() && sub.name.is_some();
        if sub_ok {
            let sub_dest = sub.destination;
            let sub_name = match &sub.name {
                Some(nm) => nm.0.clone(),
                None => "".to_owned(),
            };
            let mut picked = false;
            let ghost mut ins_idx: int = 0;
            if sub.viewshed.is_some() {
                match select_target(world, i) {
                    Some((j, tpos)) => {
                        picked = true;
                        let same = match sub_dest {
                            Some(d) => distance2d_pythagoras_squared(&d.position, &tpos) == 0,
                            None => false,
                        };
                        proof {
                            let gj = j as int;
                            assert(min_candidate(*world, i as int, gj));
                            match sub_dest {
                                Some(d) => {
                                    let dp = d.position;
                                    let a0 = dp.0 as int;
                                    let a1 = dp.1 as int;
                                    let b0 = tpos.0 as int;
                                    let b1 = tpos.1 as int;
                                    assert((a0 - b0) * (a0 - b0) + (a1 - b1) * (a1 - b1) == 0
                                        <==> (a0 == b0 && a1 == b1)) by (nonlinear_arith);
                                    assert(dist2(a0, a1, b0, b1) == (a0 - b0) * (a0 - b0) + (a1
                                        - b1) * (a1 - b1));
                                    assert(same <==> tpos == dp);
                                },
                                None => {},
                            }
                        }
                        if same {
                            // already heading for this pick; leave everything be
                        } else {
                            let ghost gj = j as int;
                            let ghost t_ins = buf@.len() as int;
                            buf.push(Command::InsertDestination(i, tpos));
                            proof {
                                assert(is_candidate(*world, i as int, gj)
                                    && world.ents@[gj].position == Some(tpos));
                                assert(dest_justified(*world, *map, i as int, tpos));
                            }
                            buf.push(Command::RemovePath(i));
                            proof {
                                ins_idx = t_ins;
                                assert(buf@[t_ins] matches Command::InsertDestination(ee, p)
                                    && ee == i && p == tpos);
                                assert(buf@[t_ins + 1] == Command::RemovePath(i));
                            }
                            log.push(LogEvent::NewDestination { subject: sub_name.clone() });
                        }
                    },
                    None => {},
                }
            }
            if !picked && sub_dest.is_none() {
                let len = map.rooms.len();
                let ri = rng.range(0, (len - 1) as i32);
                let room = map.rooms[ri as usize];
                proof {
                    assert(map.room_in_bounds(map.rooms@[ri as int]));
                }
                let c = room.center();
                buf.push(Command::InsertDestination(i, Position(c.0, c.1)));
                proof {
                    assert(map.rooms@[ri as int].center_spec().0 == c.0
                        && map.rooms@[ri as int].center_spec().1 == c.1);
                    assert(dest_justified(*world, *map, i as int, Position(c.0, c.1)));
                }
                proof {
                    ins_idx = buf@.len() - 1;
                    assert(buf@[ins_idx] matches Command::InsertDestination(ee, p) && ee == i);
                }
                log.push(LogEvent::WanderDestination { subject: sub_name });
            }
            proof {
                assert forall|e: int|
                    wander_due(*world, e) && e < i + 1 implies (exists|t: int|
                        old(buf)@.len() <= t < buf@.len() && ((#[trigger] buf@[t]) matches
                            Command::InsertDestination(ee, p) && ee == e)) by {
                    if e == i as int {
                        assert(buf@[ins_idx] matches Command::InsertDestination(ee, p) && ee == i);
                    } else {
                        let t = choose|t: int|
                            old(buf)@.len() <= t < buf_i0.len() && ((#[trigger] buf_i0[t]) matches
                                Command::InsertDestination(ee, p) && ee == e);
                        assert(buf@[t] == buf_i0[t]);
                    }
                }
                assert forall|e: int|
                    #[trigger] chase_due(*world, e) && e < i + 1 && (exists|k: int|
                        is_candidate(*world, e, k)) && (world.ents@[e].destination matches Some(
                        d,
                    ) ==> (forall|k: int|
                        #[trigger] min_candidate(*world, e, k) ==> world.ents@[k].position
                            != Some(d.position))) implies (exists|t: int|
                        old(buf)@.len() <= t && t + 1 < buf@.len() && (buf@[t] matches
                            Command::InsertDestination(ee, p) && ee == e && (exists|k: int|
                            #[trigger] min_candidate(*world, e, k) && world.ents@[k].position
                                == Some(p))) && (#[trigger] buf@[t + 1]) == (
                        Command::RemovePath(e as usize))) by {
                    if e != i as int {
                        let t = choose|t: int|
                            old(buf)@.len() <= t && t + 1 < buf_i0.len() && ((#[trigger] buf_i0[t])
                                matches Command::InsertDestination(ee, p) && ee == e && (exists|
                                k: int,
                            |
                                #[trigger] min_candidate(*world, e, k) && world.ents@[k].position
                                    == Some(p))) && (#[trigger] buf_i0[t + 1]) == (
                            Command::RemovePath(e as usize));
                        assert(buf@[t] == buf_i0[t]);
                        assert(buf@[t + 1] == buf_i0[t + 1]);
                    } else {
                        let k0 = choose|k: int| is_candidate(*world, e, k);
                    }
                }
                assert forall|e: int|
                    #[trigger] chase_due(*world, e) && e < i + 1 && (world.ents@[e].destination
                        matches Some(d) && (forall|k: int|
                        #[trigger] min_candidate(*world, e, k) ==> world.ents@[k].position
                            == Some(d.position))) implies (forall|t: int|
                        old(buf)@.len() <= t < buf@.len() ==> !names_entity(
                            #[trigger] buf@[t],
                            e,
                        )) by {
                }
            }
        } else {
            proof {
                assert(!wander_due(*world, i as int));
                assert(!chase_due(*world, i as int));
            }
        }
        i = i + 1;
    }
}

} // verus!
