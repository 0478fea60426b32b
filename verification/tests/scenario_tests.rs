use dungeonsim::combat::attack;
use dungeonsim::combat::Aggression;
use dungeonsim::combat::Hp;
use dungeonsim::creature::CreatureType;
use dungeonsim::components::Name;
use dungeonsim::destination::select_target;
use dungeonsim::equipment::EquippedWeapon;
use dungeonsim::equipment::Equips;
use dungeonsim::equipment::Weapon;
use dungeonsim::fov::compute_fov;
use dungeonsim::fov::Point;
use dungeonsim::fov::Viewshed;
use dungeonsim::grid::GridMap;
use dungeonsim::grid::TileType;
use dungeonsim::log::LogEvent;
use dungeonsim::path::Moves;
use dungeonsim::position::Position;
use dungeonsim::rect::Rect;
use dungeonsim::render::Colour;
use dungeonsim::render::Render;
use dungeonsim::rng::DiceRng;
use dungeonsim::scheduler::tick;
use dungeonsim::world::EntityData;
use dungeonsim::world::World;
use dungeonsim::TickCount;

fn open_map(width: i32, height: i32) -> GridMap {
    GridMap {
        tiles: vec![TileType::Floor; (width * height) as usize],
        rooms: vec![Rect { x1: 0, y1: 0, x2: width - 2, y2: height - 2 }],
        width,
        height,
    }
}

fn creature(
    world: &mut World,
    name: &str,
    hp: i32,
    ct: CreatureType,
    pos: (i32, i32),
    range: i32,
) -> usize {
    let mut e = EntityData::blank();
    e.alive = true;
    e.name = Some(Name(name.to_string()));
    e.hp = Some(Hp(hp));
    e.aggression = Some(Aggression(100));
    e.creature_type = Some(ct);
    e.position = Some(Position(pos.0, pos.1));
    e.viewshed = Some(Viewshed { visible_tiles: Vec::new(), range });
    e.moves = Some(Moves);
    e.equips = Some(Equips);
    e.render = Some(Render { colour: Colour::White, glyph: "c".to_string() });
    world.spawn(e)
}

// Open room, agent at (1,1) with sight radius 4: (1,5) is exactly at the
// radius and visible, (1,6) is just past it and not.
#[test]
fn open_room_viewshed_boundary() {
    let map = open_map(10, 10);
    let tiles = compute_fov(&map, 1, 1, 4);
    assert!(tiles.contains(&Point { x: 1, y: 5 }));
    assert!(!tiles.contains(&Point { x: 1, y: 6 }));
}

#[test]
fn open_room_viewshed_is_bounded() {
    let map = open_map(10, 10);
    let tiles = compute_fov(&map, 1, 1, 4);
    for p in &tiles {
        assert!(p.x >= 0 && p.x < 10 && p.y >= 0 && p.y < 10);
        let dx = (p.x - 1) as i64;
        let dy = (p.y - 1) as i64;
        assert!(dx * dx + dy * dy <= 16);
    }
}

// Fixed roll 15 against armour class 10 hits, and the damage equals the
// sum the seeded dice produce.
#[test]
fn fixed_roll_hit_reduces_hp_by_rolled_sum() {
    let mut probe = DiceRng::seeded(42);
    let expected_damage = Weapon::Sword.get_damage(&mut probe);

    let mut rng = DiceRng::seeded(42);
    let mut hp = Hp(20);
    let (hit, damage) = attack(15, 0, 10, &Weapon::Sword, &mut rng, &mut hp);
    assert!(hit);
    assert_eq!(damage, expected_damage);
    assert_eq!(hp.0, 20 - expected_damage);
}

#[test]
fn fixed_roll_miss_changes_nothing() {
    let mut rng = DiceRng::seeded(42);
    let mut hp = Hp(20);
    let (hit, damage) = attack(5, 0, 10, &Weapon::Sword, &mut rng, &mut hp);
    assert!(!hit);
    assert_eq!(damage, 0);
    assert_eq!(hp.0, 20);
}

// A subject wielding Unarmed (power 3) next to a Sword (power 6) ends the
// tick with the Sword equipped and an Unarmed item dropped where it
// stands.
#[test]
fn unarmed_subject_swaps_to_sword() {
    let map = open_map(10, 10);
    let mut world = World::new();
    let subject = creature(&mut world, "Human", 15, CreatureType::Human, (2, 2), 4);
    {
        let mut rec = world.extract(subject);
        rec.equipped_weapon = Some(EquippedWeapon(Weapon::Unarmed));
        world.store(subject, rec);
    }
    let mut e = EntityData::blank();
    e.alive = true;
    e.name = Some(Name("Sword".to_string()));
    e.position = Some(Position(2, 3));
    e.weapon_item = Some(Weapon::Sword);
    let sword = world.spawn(e);

    let mut log: Vec<LogEvent> = Vec::new();
    let mut rng = DiceRng::seeded(7);
    let mut count = TickCount(0);
    tick(&mut world, &map, &mut log, &mut rng, &mut count);

    let subj = &world.ents[subject];
    assert_eq!(subj.equipped_weapon, Some(EquippedWeapon(Weapon::Sword)));
    assert!(!world.ents[sword].alive);
    let mut dropped_found = false;
    for e in &world.ents {
        if e.alive && e.weapon_item == Some(Weapon::Unarmed) {
            assert_eq!(e.position, Some(Position(2, 2)));
            dropped_found = true;
        }
    }
    assert!(dropped_found);
}

// An attack that brings hit points to exactly zero attaches the death
// marker the same tick, and targeting never selects the corpse afterwards.
#[test]
fn death_lands_same_tick_and_corpse_is_never_targeted() {
    // find a seed whose first twenty-sided roll hits armour class 10
    let mut seed: u64 = 0;
    loop {
        let mut probe = DiceRng::seeded(seed);
        if probe.range(1, 20) >= 10 {
            break;
        }
        seed += 1;
    }
    let mut probe = DiceRng::seeded(seed);
    let _roll = probe.range(1, 20);
    let damage = Weapon::Unarmed.get_damage(&mut probe);

    let map = open_map(10, 10);
    let mut world = World::new();
    let attacker = creature(&mut world, "Human", 15, CreatureType::Human, (2, 2), 4);
    let victim = creature(&mut world, "Goblin", damage, CreatureType::Goblin, (2, 3), 4);

    let mut log: Vec<LogEvent> = Vec::new();
    let mut rng = DiceRng::seeded(seed);
    let mut count = TickCount(0);
    tick(&mut world, &map, &mut log, &mut rng, &mut count);

    assert_eq!(world.ents[victim].hp, Some(Hp(0)));
    assert!(world.ents[victim].dead.is_some());
    assert!(world.ents[victim].moves.is_none());
    assert!(world.ents[victim].aggression.is_none());

    // the attacker saw the whole room this tick, yet the corpse is no
    // longer a candidate
    assert!(select_target(&world, attacker).is_none());

    // and the corpse never moves, bleeds or re-equips again
    let before = (
        world.ents[victim].position,
        world.ents[victim].hp,
        world.ents[victim].equipped_weapon,
    );
    let mut rng2 = DiceRng::seeded(seed + 1);
    tick(&mut world, &map, &mut log, &mut rng2, &mut count);
    assert_eq!(world.ents[victim].position, before.0);
    assert_eq!(world.ents[victim].hp, before.1);
    assert_eq!(world.ents[victim].equipped_weapon, before.2);
    assert!(world.ents[victim].dead.is_some());
}
