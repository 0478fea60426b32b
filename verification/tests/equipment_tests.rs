use dungeonsim::combat::Hp;
use dungeonsim::command::apply_commands;
use dungeonsim::command::Command;
use dungeonsim::components::Name;
use dungeonsim::creature::CreatureType;
use dungeonsim::equipment::get_armour;
use dungeonsim::equipment::get_shield;
use dungeonsim::equipment::get_weapon;
use dungeonsim::equipment::pick_up_gear;
use dungeonsim::equipment::Armour;
use dungeonsim::equipment::EquippedShield;
use dungeonsim::equipment::EquippedWeapon;
use dungeonsim::equipment::Equips;
use dungeonsim::equipment::Power;
use dungeonsim::equipment::Shield;
use dungeonsim::equipment::Weapon;
use dungeonsim::grid::GridMap;
use dungeonsim::grid::TileType;
use dungeonsim::log::LogEvent;
use dungeonsim::position::Position;
use dungeonsim::render::Colour;
use dungeonsim::world::EntityData;
use dungeonsim::world::World;

fn small_map() -> GridMap {
    GridMap {
        tiles: vec![TileType::Floor; 100],
        rooms: Vec::new(),
        width: 10,
        height: 10,
    }
}

fn holder(world: &mut World, pos: (i32, i32)) -> usize {
    let mut e = EntityData::blank();
    e.alive = true;
    e.name = Some(Name("Holder".to_string()));
    e.hp = Some(Hp(10));
    e.creature_type = Some(CreatureType::Human);
    e.position = Some(Position(pos.0, pos.1));
    e.equips = Some(Equips);
    world.spawn(e)
}

fn weapon_on_floor(world: &mut World, w: Weapon, pos: (i32, i32)) -> usize {
    let mut e = EntityData::blank();
    e.alive = true;
    e.name = Some(Name(w.get_name()));
    e.position = Some(Position(pos.0, pos.1));
    e.weapon_item = Some(w);
    world.spawn(e)
}

fn shield_on_floor(world: &mut World, s: Shield, pos: (i32, i32)) -> usize {
    let mut e = EntityData::blank();
    e.alive = true;
    e.name = Some(Name(s.get_name()));
    e.position = Some(Position(pos.0, pos.1));
    e.shield_item = Some(s);
    world.spawn(e)
}

fn run_pickup(world: &mut World, map: &GridMap) {
    let mut buf: Vec<Command> = Vec::new();
    let mut log: Vec<LogEvent> = Vec::new();
    pick_up_gear(world, map, &mut buf, &mut log);
    apply_commands(world, &mut buf, map);
}

#[test]
fn power_scores() {
    assert_eq!(Weapon::Unarmed.get_power(), 3);
    assert_eq!(Weapon::Sword.get_power(), 6);
    assert_eq!(Weapon::Nunchucks.get_power(), 8);
    assert_eq!(Weapon::GreatHammer.get_power(), 10);
    assert_eq!(Armour::Unarmoured.get_power(), 0);
    assert_eq!(Armour::ChainMail.get_power(), 1);
    assert_eq!(Armour::PlateMail.get_power(), 2);
    assert_eq!(Shield::Unshielded.get_power(), 0);
    assert_eq!(Shield::Buckler.get_power(), 1);
}

#[test]
fn names_and_glyphs() {
    assert_eq!(Weapon::GreatHammer.get_name(), "GreatHammer");
    assert_eq!(Weapon::GreatHammer.get_glyph(), "g");
    assert_eq!(Armour::ChainMail.get_name(), "ChainMail");
    assert_eq!(Armour::ChainMail.get_glyph(), "c");
    assert_eq!(Shield::Buckler.get_name(), "Buckler");
    assert_eq!(Shield::Buckler.get_glyph(), "b");
}

#[test]
fn empty_slots_fall_back_to_defaults() {
    assert_eq!(get_weapon(None), Weapon::Unarmed);
    assert_eq!(get_armour(None), Armour::Unarmoured);
    assert_eq!(get_shield(None), Shield::Unshielded);
    let w = EquippedWeapon(Weapon::Sword);
    assert_eq!(get_weapon(Some(&w)), Weapon::Sword);
}

#[test]
fn bundles_carry_the_item() {
    let b = Weapon::Nunchucks.get_bundle();
    assert_eq!(b.weapon, Weapon::Nunchucks);
    assert_eq!(b.render.colour, Colour::DarkYellow);
    assert_eq!(b.name.0, "Nunchucks");
    let b = Shield::Buckler.get_bundle();
    assert_eq!(b.shield, Shield::Buckler);
    assert_eq!(b.render.colour, Colour::DarkCyan);
    let b = Armour::PlateMail.get_bundle();
    assert_eq!(b.armour, Armour::PlateMail);
    assert_eq!(b.render.colour, Colour::Magenta);
}

#[test]
fn pickup_never_trades_down() {
    let map = small_map();
    let mut world = World::new();
    let s = holder(&mut world, (2, 2));
    {
        let mut rec = world.extract(s);
        rec.equipped_weapon = Some(EquippedWeapon(Weapon::GreatHammer));
        world.store(s, rec);
    }
    let floor_sword = weapon_on_floor(&mut world, Weapon::Sword, (2, 3));
    run_pickup(&mut world, &map);
    assert_eq!(world.ents[s].equipped_weapon, Some(EquippedWeapon(Weapon::GreatHammer)));
    assert!(world.ents[floor_sword].alive);
}

#[test]
fn first_claimant_wins_a_contested_item() {
    let map = small_map();
    let mut world = World::new();
    let first = holder(&mut world, (2, 2));
    let second = holder(&mut world, (2, 4));
    let item = weapon_on_floor(&mut world, Weapon::Sword, (2, 3));
    run_pickup(&mut world, &map);
    assert_eq!(world.ents[first].equipped_weapon, Some(EquippedWeapon(Weapon::Sword)));
    assert_eq!(world.ents[second].equipped_weapon, None);
    assert!(!world.ents[item].alive);
}

#[test]
fn shield_bearer_cannot_take_a_two_handed_weapon() {
    let map = small_map();
    let mut world = World::new();
    let s = holder(&mut world, (2, 2));
    {
        let mut rec = world.extract(s);
        rec.equipped_shield = Some(EquippedShield(Shield::Buckler));
        world.store(s, rec);
    }
    let hammer = weapon_on_floor(&mut world, Weapon::GreatHammer, (2, 3));
    run_pickup(&mut world, &map);
    assert_eq!(world.ents[s].equipped_weapon, None);
    assert!(world.ents[hammer].alive);
}

#[test]
fn two_handed_wielder_cannot_take_a_shield() {
    let map = small_map();
    let mut world = World::new();
    let s = holder(&mut world, (2, 2));
    {
        let mut rec = world.extract(s);
        rec.equipped_weapon = Some(EquippedWeapon(Weapon::GreatHammer));
        world.store(s, rec);
    }
    let buckler = shield_on_floor(&mut world, Shield::Buckler, (2, 3));
    run_pickup(&mut world, &map);
    assert_eq!(world.ents[s].equipped_shield, None);
    assert!(world.ents[buckler].alive);
}

#[test]
fn distant_items_are_ignored() {
    let map = small_map();
    let mut world = World::new();
    let s = holder(&mut world, (2, 2));
    let far = weapon_on_floor(&mut world, Weapon::Sword, (6, 6));
    run_pickup(&mut world, &map);
    assert_eq!(world.ents[s].equipped_weapon, None);
    assert!(world.ents[far].alive);
}
