use vstd::prelude::*;
use crate::EndGameEvent;
use crate::creature::CreatureType;
use crate::log::LogEvent;
use crate::world::World;

verus! {

/// Some living, unmarked creature of the given type remains.
pub open spec fn type_alive(w: World, ct: CreatureType) -> bool {
    exists|i: int|
        0 <= i < w.n() && (#[trigger] w.ents@[i]).alive && w.ents@[i].dead is None
            && w.ents@[i].creature_type == Some(ct)
}

/// Number of distinct creature types with a living, unmarked member.
pub open spec fn types_remaining(w: World) -> int {
    (if type_alive(w, CreatureType::Human) { 1int } else { 0 })
        + (if type_alive(w, CreatureType::Goblin) { 1int } else { 0 })
        + (if type_alive(w, CreatureType::Orc) { 1int } else { 0 })
}

/// Win-condition check: counts the distinct creature types that still have
/// a living, unmarked member. When none or one remains the game is over —
/// a draw or a win is logged and the end-of-game signal is returned for
/// the surrounding program to act on.
pub fn creature_type_count(world: &World, log: &mut Vec<LogEvent>) -> (r: Option<EndGameEvent>)
    ensures
        r is Some <==> types_remaining(*world) <= 1,
        types_remaining(*world) == 0 ==> final(log)@ == old(log)@.push(LogEvent::GameOverDraw),
        types_remaining(*world) == 1 ==> (exists|ct: CreatureType|
            type_alive(*world, ct) && final(log)@ == old(log)@.push(
                LogEvent::GameOverWinner { winner: ct },
            )),
        types_remaining(*world) >= 2 ==> final(log)@ == old(log)@,
{
    let n = world.len();
    let mut has_human = false;
    let mut has_goblin = false;
    let mut has_orc = false;
    let mut i: usize = 0;
    while i < n
        invariant
            n == world.n(),
            i <= n,
            has_human == (exists|k: int|
                0 <= k < i && (#[trigger] world.ents@[k]).alive && world.ents@[k].dead is None
                    && world.ents@[k].creature_type == Some(CreatureType::Human)),
            has_goblin == (exists|k: int|
                0 <= k < i && (#[trigger] world.ents@[k]).alive && world.ents@[k].dead is None
                    && world.ents@[k].creature_type == Some(CreatureType::Goblin)),
            has_orc == (exists|k: int|
                0 <= k < i && (#[trigger] world.ents@[k]).alive && world.ents@[k].dead is None
                    && world.ents@[k].creature_type == Some(CreatureType::Orc)),
        decreases n - i,
    {
        let rec = &world.ents[i];
        if rec.alive && rec.dead.is_none() {
            match &rec.creature_type {
                Some(CreatureType::Human) => {
                    has_human = true;
                },
                Some(CreatureType::Goblin) => {
                    has_goblin = true;
                },
                Some(CreatureType::Orc) => {
                    has_orc = true;
                },
                None => {},
            }
        }
        i = i + 1;
    }
    proof {
        assert(has_human == type_alive(*world, CreatureType::Human));
        assert(has_goblin == type_alive(*world, CreatureType::Goblin));
        assert(has_orc == type_alive(*world, CreatureType::Orc));
    }
    let count: i32 = (if has_human { 1 } else { 0 }) + (if has_goblin { 1 } else { 0 })
        + (if has_orc { 1 } else { 0 });
    if count == 0 {
        log.push(LogEvent::GameOverDraw);
        Some(EndGameEvent)
    } else if count == 1 {
        let winner = if has_human {
            CreatureType::Human
        } else if has_goblin {
            CreatureType::Goblin
        } else {
            CreatureType::Orc
        };
        log.push(LogEvent::GameOverWinner { winner });
        Some(EndGameEvent)
    } else {
        None
    }
}

} // verus!
