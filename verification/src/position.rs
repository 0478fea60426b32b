use vstd::prelude::*;

verus! {

/// An integer grid coordinate, owned exclusively by one entity and
/// mutated only by the movement step.
#[derive(Clone, Copy, Debug, PartialEq, Eq, Hash, PartialOrd, Ord, Structural)]
pub struct Position(pub i32, pub i32);

/// Squared Euclidean distance between two coordinates.
pub open spec fn dist2(ax: int, ay: int, bx: int, by: int) -> int {
    (ax - bx) * (ax - bx) + (ay - by) * (ay - by)
}

/// Squared Euclidean distance between two positions. The simulation only
/// ever compares distances, so the square root is never taken.
pub fn distance2d_pythagoras_squared(start: &Position, end: &Position) -> (r: i128)
    ensures
        r == dist2(start.0 as int, start.1 as int, end.0 as int, end.1 as int),
{
    let dx: i128 = (start.0 as i128) - (end.0 as i128);
    let dy: i128 = (start.1 as i128) - (end.1 as i128);
    proof {
        assert(dx * dx + dy * dy <= 0x2_0000_0000_0000_0000) by (nonlinear_arith)
            requires
                -0x1_0000_0000 <= dx <= 0x1_0000_0000,
                -0x1_0000_0000 <= dy <= 0x1_0000_0000,
        ;
        assert(dx * dx >= 0 && dy * dy >= 0) by (nonlinear_arith);
    }
    dx * dx + dy * dy
}

/// The entity is waiting to be placed: it is alive, not dead, and has no
/// position yet.
pub open spec fn placement_due(w: crate::world::World, e: int) -> bool {
    &&& 0 <= e < w.n()
    &&& w.ents@[e].alive
    &&& w.ents@[e].position is None
    &&& w.ents@[e].dead is None
}

/// The queued position lies in the carved interior of one of the map's
/// rooms.
pub open spec fn placed_in_a_room(m: crate::grid::GridMap, p: Position) -> bool {
    exists|ri: int|
        0 <= ri < m.rooms@.len() && (#[trigger] m.rooms@[ri]).interior_contains(
            p.0 as int,
            p.1 as int,
        )
}

/// Placement: every living entity that has no position yet is queued to
/// appear at a uniformly drawn interior cell of a uniformly drawn room.
/// With an empty room list nothing can be placed and nothing happens.
pub fn assign_positions(
    world: &crate::world::World,
    map: &crate::grid::GridMap,
    buf: &mut Vec<crate::command::Command>,
    rng: &mut crate::rng::DiceRng,
)
    requires
        map.inv(),
        map.rooms_wf(),
        map.rooms@.len() <= 0x7fffffff,
    ensures
        old(buf)@.len() <= final(buf)@.len(),
        forall|k: int| 0 <= k < old(buf)@.len() ==> final(buf)@[k] == old(buf)@[k],
        forall|k: int|
            old(buf)@.len() <= k < final(buf)@.len() ==> crate::command::cmd_wf(
                #[trigger] final(buf)@[k],
                *map,
            ) && crate::command::dead_safe(final(buf)@[k], *world)
                && crate::command::equip_mono_cmd(final(buf)@[k], *world),
        // every queued position is a room interior cell
        forall|k: int|
            old(buf)@.len() <= k < final(buf)@.len() ==> ((#[trigger] final(buf)@[k]) matches
                crate::command::Command::InsertPosition(e, p) && placed_in_a_room(*map, p)),
        // with rooms available, every unplaced entity is queued a position
        forall|e: int|
            placement_due(*world, e) && map.rooms@.len() >= 1 ==> (exists|t: int|
                old(buf)@.len() <= t < final(buf)@.len() && ((#[trigger] final(buf)@[t]) matches
                    crate::command::Command::InsertPosition(ee, p) && ee == e)),
{
    let n = world.len();
    if map.rooms.len() == 0 {
        return;
    }
    let mut i: usize = 0;
    while i < n
        invariant
            n == world.n(),
            map.inv(),
            map.rooms_wf(),
            1 <= map.rooms@.len() <= 0x7fffffff,
            old(buf)@.len() <= buf@.len(),
            forall|k: int| 0 <= k < old(buf)@.len() ==> buf@[k] == old(buf)@[k],
            forall|k: int|
                old(buf)@.len() <= k < buf@.len() ==> crate::command::cmd_wf(
                    #[trigger] buf@[k],
                    *map,
                ) && crate::command::dead_safe(buf@[k], *world)
                    && crate::command::equip_mono_cmd(buf@[k], *world),
            forall|k: int|
                old(buf)@.len() <= k < buf@.len() ==> ((#[trigger] buf@[k]) matches
                    crate::command::Command::InsertPosition(e, p) && placed_in_a_room(*map, p)),
            forall|e: int|
                placement_due(*world, e) && e < i ==> (exists|t: int|
                    old(buf)@.len() <= t < buf@.len() && ((#[trigger] buf@[t]) matches
                        crate::command::Command::InsertPosition(ee, p) && ee == e)),
        decreases n - i,
    {
        let ghost buf_i0 = buf@;
        let rec = &world.ents[i];
        if rec.alive && rec.position.is_none() && rec.dead.is_none() {
            let len = map.rooms.len();
            let ri = rng.range(0, (len - 1) as i32);
            let room = map.rooms[ri as usize];
            proof {
                assert(map.room_in_bounds(map.rooms@[ri as int]));
            }
            let p = room.random(rng);
            buf.push(crate::command::Command::InsertPosition(i, Position(p.0, p.1)));
            proof {
                assert(map.rooms@[ri as int].interior_contains(p.0 as int, p.1 as int));
                assert(placed_in_a_room(*map, Position(p.0, p.1)));
            }
        } else {
            proof {
                assert(!placement_due(*world, i as int));
            }
        }
        proof {
            assert forall|e: int|
                placement_due(*world, e) && e < i + 1 implies (exists|t: int|
                    old(buf)@.len() <= t < buf@.len() && ((#[trigger] buf@[t]) matches
                        crate::command::Command::InsertPosition(ee, p) && ee == e)) by {
                if e == i as int {
                    assert(buf@[buf@.len() - 1] matches crate::command::Command::InsertPosition(
                        ee,
                        p,
                    ) && ee == i);
                } else {
                    let t = choose|t: int|
                        old(buf)@.len() <= t < buf_i0.len() && ((#[trigger] buf_i0[t]) matches
                            crate::command::Command::InsertPosition(ee, p) && ee == e);
                    assert(buf@[t] == buf_i0[t]);
                }
            }
        }
        i = i + 1;
    }
}

} // verus!
