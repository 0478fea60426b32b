use vstd::prelude::*;
use crate::components::Severity;
use crate::components::SeverityLevel;

verus! {

/// A consumable item; once eaten it stays eaten.
#[derive(Clone, Copy, Debug, PartialEq, Eq, Structural)]
pub struct Food {
    pub eaten: bool,
}

/// Hunger drive of a creature; eating resets it to zero.
#[derive(Clone, Copy, Debug, PartialEq, Eq, Structural)]
pub struct Hunger(pub i32);

impl Hunger {
    /// Consumes the food: hunger is sated and the food is marked eaten.
    pub fn eat(&mut self, food: &mut Food)
        ensures
            final(self).0 == 0,
            final(food).eaten,
    {
        self.0 = 0;
        food.eaten = true;
    }
}

impl Severity for Hunger {
    open spec fn severity_spec(&self) -> SeverityLevel {
        if self.0 >= 100 {
            SeverityLevel::Max
        } else if self.0 > 0 {
            SeverityLevel::Moderate
        } else {
            SeverityLevel::Min
        }
    }

    fn get_severity(&self) -> (r: SeverityLevel)
        ensures
            r == self.severity_spec(),
    {
        if self.0 >= 100 {
            return SeverityLevel::Max;
        } else if self.0 > 0 {
            return SeverityLevel::Moderate;
        }
        SeverityLevel::Min
    }
}

/// The creature is hungry enough to forage: a living, named, placed
/// creature whose hunger is above the neutral threshold.
pub open spec fn hungry_due(w: crate::world::World, i: int) -> bool {
    &&& 0 <= i < w.n()
    &&& w.ents@[i].alive
    &&& w.ents@[i].name is Some
    &&& w.ents@[i].position is Some
    &&& (w.ents@[i].hunger matches Some(h) && h.0 > 0)
}

/// Item entity `j` is uneaten food within one cell of entity `i`.
pub open spec fn food_near(w: crate::world::World, i: int, j: int) -> bool {
    &&& 0 <= j < w.n()
    &&& w.ents@[j].alive
    &&& w.ents@[j].position is Some
    &&& (w.ents@[j].food matches Some(f) && !f.eaten)
    &&& (w.ents@[i].position matches Some(p) && w.ents@[j].position matches Some(q)
        && crate::position::dist2(p.0 as int, p.1 as int, q.0 as int, q.1 as int) <= 1)
}

/// Foraging: every living, placed, sufficiently hungry creature eats every
/// uneaten piece of food within one cell of it, sating its hunger; eaten
/// food stays eaten.
pub fn eat_nearby_food(
    world: &mut crate::world::World,
    log: &mut Vec<crate::log::LogEvent>,
)
    ensures
        final(world).n() == old(world).n(),
        forall|k: int|
            0 <= k < old(world).n() ==> #[trigger] final(world).ents@[k]
                == (crate::world::EntityData {
                hunger: final(world).ents@[k].hunger,
                food: final(world).ents@[k].food,
                ..old(world).ents@[k]
            }),
        forall|k: int|
            0 <= k < old(world).n() ==> (match (
                old(world).ents@[k].hunger,
                (#[trigger] final(world).ents@[k]).hunger,
            ) {
                (Some(h0), Some(h1)) => h1.0 == 0 || h1 == h0,
                (None, None) => true,
                _ => false,
            }),
        forall|k: int|
            0 <= k < old(world).n() ==> (match (
                old(world).ents@[k].food,
                (#[trigger] final(world).ents@[k]).food,
            ) {
                (Some(f0), Some(f1)) => f1 == f0 || f1.eaten,
                (None, None) => true,
                _ => false,
            }),
        // every hungry creature next to food ends sated, unless that very
        // piece was snapped up (and then it ends eaten)
        forall|a: int, b: int|
            hungry_due(*old(world), a) && #[trigger] food_near(*old(world), a, b)
                ==> (final(world).ents@[a].hunger == Some(Hunger(0))
                || ((#[trigger] final(world).ents@[b]).food matches Some(f) && f.eaten)),
        old(log)@.len() <= final(log)@.len(),
        forall|k: int| 0 <= k < old(log)@.len() ==> final(log)@[k] == old(log)@[k],
{
    let ghost w0 = *world;
    let n = world.len();
    let mut i: usize = 0;
    while i < n
        invariant
            n == world.n(),
            n == w0.n(),
            forall|k: int|
                0 <= k < w0.n() ==> #[trigger] world.ents@[k] == (crate::world::EntityData {
                    hunger: world.ents@[k].hunger,
                    food: world.ents@[k].food,
                    ..w0.ents@[k]
                }),
            forall|k: int|
                0 <= k < w0.n() ==> (match (w0.ents@[k].hunger, (#[trigger] world.ents@[k]).hunger) {
                    (Some(h0), Some(h1)) => h1.0 == 0 || h1 == h0,
                    (None, None) => true,
                    _ => false,
                }),
            forall|k: int|
                0 <= k < w0.n() ==> (match (w0.ents@[k].food, (#[trigger] world.ents@[k]).food) {
                    (Some(f0), Some(f1)) => f1 == f0 || f1.eaten,
                    (None, None) => true,
                    _ => false,
                }),
            forall|k: int|
                i <= k < w0.n() ==> (#[trigger] world.ents@[k]).hunger == w0.ents@[k].hunger,
            forall|a: int, b: int|
                hungry_due(w0, a) && #[trigger] food_near(w0, a, b) && a < i
                    ==> (world.ents@[a].hunger == Some(Hunger(0))
                    || ((#[trigger] world.ents@[b]).food matches Some(f) && f.eaten)),
            old(log)@.len() <= log@.len(),
            forall|k: int| 0 <= k < old(log)@.len() ==> log@[k] == old(log)@[k],
        decreases n - i,
    {
        let sub = &world.ents[i];
        let mut due = sub.alive && sub.name.is_some() && sub.position.is_some();
        if due {
            due = match &sub.hunger {
                Some(h) => match h.get_severity() {
                    SeverityLevel::Moderate | SeverityLevel::Max => true,
                    SeverityLevel::Min => false,
                },
                None => false,
            };
        }
        if due {
            let sub_pos = world.ents[i].position.unwrap();
            let sub_name = match &world.ents[i].name {
                Some(nm) => nm.0.clone(),
                None => "".to_owned(),
            };
            let mut j: usize = 0;
            while j < n
                invariant
                    n == world.n(),
                    n == w0.n(),
                    i < n,
                    forall|k: int|
                        0 <= k < w0.n() ==> #[trigger] world.ents@[k]
                            == (crate::world::EntityData {
                            hunger: world.ents@[k].hunger,
                            food: world.ents@[k].food,
                            ..w0.ents@[k]
                        }),
                    forall|k: int|
                        0 <= k < w0.n() ==> (match (
                            w0.ents@[k].hunger,
                            (#[trigger] world.ents@[k]).hunger,
                        ) {
                            (Some(h0), Some(h1)) => h1.0 == 0 || h1 == h0,
                            (None, None) => true,
                            _ => false,
                        }),
                    forall|k: int|
                        0 <= k < w0.n() ==> (match (
                            w0.ents@[k].food,
                            (#[trigger] world.ents@[k]).food,
                        ) {
                            (Some(f0), Some(f1)) => f1 == f0 || f1.eaten,
                            (None, None) => true,
                            _ => false,
                        }),
                    forall|k: int|
                        i < k < w0.n() ==> (#[trigger] world.ents@[k]).hunger
                            == w0.ents@[k].hunger,
                    hungry_due(w0, i as int),
                    world.ents@[i as int].position == Some(sub_pos),
                    forall|a: int, b: int|
                        hungry_due(w0, a) && #[trigger] food_near(w0, a, b) && (a < i as int || (
                        a == i as int && b < j)) ==> (world.ents@[a].hunger == Some(Hunger(0))
                            || ((#[trigger] world.ents@[b]).food matches Some(f) && f.eaten)),
                    old(log)@.len() <= log@.len(),
                    forall|k: int| 0 <= k < old(log)@.len() ==> log@[k] == old(log)@[k],
                decreases n - j,
            {
                let ghost w_j0 = *world;
                let tgt = &world.ents[j];
                let mut eats = tgt.alive && tgt.position.is_some() && world.ents[i].hunger.is_some();
                if eats {
                    eats = match &tgt.food {
                        Some(f) => !f.eaten,
                        None => false,
                    };
                }
                if eats {
                    let tgt_pos = world.ents[j].position.unwrap();
                    if crate::position::distance2d_pythagoras_squared(&sub_pos, &tgt_pos) <= 1 {
                        if i == j {
                            let ghost pre = *world;
                            let mut rec = world.extract(i);
                            match (&mut rec.hunger, &mut rec.food) {
                                (Some(h), Some(f)) => h.eat(f),
                                _ => {},
                            }
                            world.store(i, rec);
                            proof {
                                assert forall|k: int|
                                    0 <= k < w0.n() implies #[trigger] world.ents@[k]
                                        == (crate::world::EntityData {
                                        hunger: world.ents@[k].hunger,
                                        food: world.ents@[k].food,
                                        ..w0.ents@[k]
                                    }) by {
                                    if k != i as int {
                                        assert(world.ents@[k] == pre.ents@[k]);
                                    }
                                }
                            }
                        } else {
                            let ghost pre = *world;
                            let mut ri = world.extract(i);
                            let mut rj = world.extract(j);
                            match (&mut ri.hunger, &mut rj.food) {
                                (Some(h), Some(f)) => h.eat(f),
                                _ => {},
                            }
                            world.store(i, ri);
                            world.store(j, rj);
                            proof {
                                assert forall|k: int|
                                    0 <= k < w0.n() implies #[trigger] world.ents@[k]
                                        == (crate::world::EntityData {
                                        hunger: world.ents@[k].hunger,
                                        food: world.ents@[k].food,
                                        ..w0.ents@[k]
                                    }) by {
                                    if k != i as int && k != j as int {
                                        assert(world.ents@[k] == pre.ents@[k]);
                                    }
                                }
                            }
                        }
                        log.push(crate::log::LogEvent::Eats { subject: sub_name.clone() });
                    }
                }
                proof {
                    assert forall|a: int, b: int|
                        hungry_due(w0, a) && #[trigger] food_near(w0, a, b) && (a < i as int || (
                        a == i as int && b < j + 1)) implies (world.ents@[a].hunger == Some(
                        Hunger(0),
                    ) || ((#[trigger] world.ents@[b]).food matches Some(f) && f.eaten)) by {
                        if !(a == i as int && b == j as int) {
                            assert(w_j0.ents@[a].hunger == Some(Hunger(0))
                                || (w_j0.ents@[b].food matches Some(f) && f.eaten));
                        }
                    }
                }
                j = j + 1;
            }
            proof {
                assert forall|a: int, b: int|
                    hungry_due(w0, a) && #[trigger] food_near(w0, a, b) && a < i + 1
                        implies (world.ents@[a].hunger == Some(Hunger(0))
                        || ((#[trigger] world.ents@[b]).food matches Some(f) && f.eaten)) by {
                    if a == i as int {
                        assert(b < w0.n());
                    }
                }
            }
        } else {
            proof {
                assert(!hungry_due(w0, i as int));
            }
        }
        i = i + 1;
    }
}

} // verus!
