use dungeonsim::cleanup::creature_type_count;
use dungeonsim::combat::Aggression;
use dungeonsim::combat::Dead;
use dungeonsim::combat::Hp;
use dungeonsim::components::Name;
use dungeonsim::components::Severity;
use dungeonsim::components::SeverityLevel;
use dungeonsim::creature::CreatureType;
use dungeonsim::destination::select_target;
use dungeonsim::destination::Destination;
use dungeonsim::equipment::EquippedArmour;
use dungeonsim::equipment::Armour;
use dungeonsim::fov::calculate_viewshed;
use dungeonsim::fov::compute_fov;
use dungeonsim::fov::Point;
use dungeonsim::fov::Viewshed;
use dungeonsim::grid::GridMap;
use dungeonsim::grid::TileType;
use dungeonsim::hunger::eat_nearby_food;
use dungeonsim::hunger::Food;
use dungeonsim::hunger::Hunger;
use dungeonsim::log::LogEvent;
use dungeonsim::path::move_path;
use dungeonsim::path::path_to_destination;
use dungeonsim::path::Moves;
use dungeonsim::path::Path;
use dungeonsim::position::distance2d_pythagoras_squared;
use dungeonsim::position::Position;
use dungeonsim::rect::Rect;
use dungeonsim::render::Colour;
use dungeonsim::render::Render;
use dungeonsim::rng::DiceRng;
use dungeonsim::scheduler::tick;
use dungeonsim::world::EntityData;
use dungeonsim::world::World;
use dungeonsim::TickCount;
use dungeonsim::command::apply_commands;
use dungeonsim::command::Command;

fn open_map(width: i32, height: i32) -> GridMap {
    GridMap {
        tiles: vec![TileType::Floor; (width * height) as usize],
        rooms: vec![Rect { x1: 0, y1: 0, x2: width - 2, y2: height - 2 }],
        width,
        height,
    }
}

fn creature(world: &mut World, name: &str, ct: CreatureType, pos: (i32, i32)) -> usize {
    let mut e = EntityData::blank();
    e.alive = true;
    e.name = Some(Name(name.to_string()));
    e.hp = Some(Hp(15));
    e.aggression = Some(Aggression(100));
    e.creature_type = Some(ct);
    e.position = Some(Position(pos.0, pos.1));
    e.viewshed = Some(Viewshed { visible_tiles: Vec::new(), range: 4 });
    e.moves = Some(Moves);
    e.render = Some(Render { colour: Colour::White, glyph: "c".to_string() });
    world.spawn(e)
}

#[test]
fn squared_distance_values() {
    assert_eq!(distance2d_pythagoras_squared(&Position(0, 0), &Position(3, 4)), 25);
    assert_eq!(distance2d_pythagoras_squared(&Position(2, 2), &Position(2, 2)), 0);
    assert_eq!(distance2d_pythagoras_squared(&Position(-1, 0), &Position(1, 0)), 4);
}

#[test]
fn targeting_prefers_the_nearest_enemy_and_never_its_own_kind() {
    let map = open_map(12, 12);
    let mut world = World::new();
    let hunter = creature(&mut world, "Hunter", CreatureType::Human, (2, 2));
    let kin = creature(&mut world, "Kin", CreatureType::Human, (3, 2));
    let near = creature(&mut world, "Near", CreatureType::Goblin, (4, 2));
    let far = creature(&mut world, "Far", CreatureType::Goblin, (2, 5));
    calculate_viewshed(&mut world, &map);
    let pick = select_target(&world, hunter).expect("an enemy is in sight");
    assert_eq!(pick.0, near);
    assert_eq!(pick.1, Position(4, 2));
    assert_ne!(pick.0, kin);
    assert_ne!(pick.0, far);
    assert_ne!(
        world.ents[pick.0].creature_type,
        world.ents[hunter].creature_type
    );
}

#[test]
fn targeting_ignores_the_dead_and_the_unseen() {
    let map = open_map(12, 12);
    let mut world = World::new();
    let hunter = creature(&mut world, "Hunter", CreatureType::Human, (2, 2));
    let corpse = creature(&mut world, "Corpse", CreatureType::Goblin, (3, 2));
    {
        let mut rec = world.extract(corpse);
        rec.dead = Some(Dead);
        world.store(corpse, rec);
    }
    // out of the hunter's sight radius
    let _hidden = creature(&mut world, "Hidden", CreatureType::Goblin, (10, 10));
    calculate_viewshed(&mut world, &map);
    assert!(select_target(&world, hunter).is_none());
}

#[test]
fn walls_block_line_of_sight() {
    let width = 7;
    let height = 7;
    let mut tiles = vec![TileType::Floor; (width * height) as usize];
    for y in 0..height {
        tiles[(y * width + 3) as usize] = TileType::Wall;
    }
    let map = GridMap { tiles, rooms: Vec::new(), width, height };
    let seen = compute_fov(&map, 1, 3, 5);
    // the wall itself is visible, the corridor behind it is not
    assert!(seen.contains(&Point { x: 3, y: 3 }));
    assert!(!seen.contains(&Point { x: 5, y: 3 }));
}

#[test]
fn movement_follows_the_route_then_clears_it() {
    let map = open_map(8, 8);
    let mut world = World::new();
    let walker = creature(&mut world, "Walker", CreatureType::Human, (1, 1));
    {
        let mut rec = world.extract(walker);
        rec.path = Some(Path {
            current: vec![(1, 1), (2, 1), (2, 2)],
            index: 0,
            destination: Position(2, 2),
        });
        rec.destination = Some(Destination { position: Position(2, 2) });
        world.store(walker, rec);
    }
    let mut buf: Vec<Command> = Vec::new();
    move_path(&mut world, &map, &mut buf);
    apply_commands(&mut world, &mut buf, &map);
    assert_eq!(world.ents[walker].position, Some(Position(1, 1)));
    let mut buf: Vec<Command> = Vec::new();
    move_path(&mut world, &map, &mut buf);
    apply_commands(&mut world, &mut buf, &map);
    assert_eq!(world.ents[walker].position, Some(Position(2, 1)));
    let mut buf: Vec<Command> = Vec::new();
    move_path(&mut world, &map, &mut buf);
    apply_commands(&mut world, &mut buf, &map);
    assert_eq!(world.ents[walker].position, Some(Position(2, 2)));
    // arrived: one more pass drops route and destination
    let mut buf: Vec<Command> = Vec::new();
    move_path(&mut world, &map, &mut buf);
    apply_commands(&mut world, &mut buf, &map);
    assert!(world.ents[walker].path.is_none());
    assert!(world.ents[walker].destination.is_none());
}

#[test]
fn route_planning_attaches_a_route_to_the_destination() {
    let map = open_map(8, 8);
    let mut world = World::new();
    let walker = creature(&mut world, "Walker", CreatureType::Human, (1, 1));
    {
        let mut rec = world.extract(walker);
        rec.destination = Some(Destination { position: Position(5, 5) });
        world.store(walker, rec);
    }
    let mut buf: Vec<Command> = Vec::new();
    let mut log: Vec<LogEvent> = Vec::new();
    path_to_destination(&world, &map, &mut buf, &mut log);
    apply_commands(&mut world, &mut buf, &map);
    let p = world.ents[walker].path.as_ref().expect("a route was attached");
    assert_eq!(p.index, 0);
    assert_eq!(p.current[0], (1, 1));
    assert_eq!(*p.current.last().unwrap(), (5, 5));
    assert_eq!(p.destination, Position(5, 5));
}

#[test]
fn targeting_sets_a_chase_destination_and_drops_the_route() {
    let map = open_map(12, 12);
    let mut world = World::new();
    let hunter = creature(&mut world, "Hunter", CreatureType::Human, (2, 2));
    let prey = creature(&mut world, "Prey", CreatureType::Goblin, (5, 2));
    {
        let mut rec = world.extract(hunter);
        rec.path = Some(Path { current: vec![(2, 2)], index: 0, destination: Position(9, 9) });
        rec.destination = Some(Destination { position: Position(9, 9) });
        world.store(hunter, rec);
    }
    calculate_viewshed(&mut world, &map);
    let mut buf: Vec<Command> = Vec::new();
    let mut log: Vec<LogEvent> = Vec::new();
    let mut rng = DiceRng::seeded(8);
    dungeonsim::destination::set_destination(&world, &map, &mut buf, &mut log, &mut rng);
    apply_commands(&mut world, &mut buf, &map);
    assert_eq!(
        world.ents[hunter].destination,
        Some(Destination { position: Position(5, 2) })
    );
    assert!(world.ents[hunter].path.is_none());
    let _ = prey;
}

#[test]
fn a_creature_with_nothing_to_chase_wanders_to_a_room_center() {
    let map = open_map(12, 12);
    let mut world = World::new();
    let loner = creature(&mut world, "Loner", CreatureType::Human, (2, 2));
    calculate_viewshed(&mut world, &map);
    let mut buf: Vec<Command> = Vec::new();
    let mut log: Vec<LogEvent> = Vec::new();
    let mut rng = DiceRng::seeded(8);
    dungeonsim::destination::set_destination(&world, &map, &mut buf, &mut log, &mut rng);
    apply_commands(&mut world, &mut buf, &map);
    let c = map.rooms[0].center();
    assert_eq!(
        world.ents[loner].destination,
        Some(Destination { position: Position(c.0, c.1) })
    );
}

#[test]
fn placement_assigns_room_interior_cells() {
    let map = open_map(12, 12);
    let mut world = World::new();
    let drifter = creature(&mut world, "Drifter", CreatureType::Human, (0, 0));
    {
        let mut rec = world.extract(drifter);
        rec.position = None;
        world.store(drifter, rec);
    }
    let mut buf: Vec<Command> = Vec::new();
    let mut rng = DiceRng::seeded(8);
    dungeonsim::position::assign_positions(&world, &map, &mut buf, &mut rng);
    apply_commands(&mut world, &mut buf, &map);
    let pos = world.ents[drifter].position.expect("a position was assigned");
    let room = &map.rooms[0];
    assert!(room.x1 < pos.0 && pos.0 <= room.x2);
    assert!(room.y1 < pos.1 && pos.1 <= room.y2);
}

#[test]
fn a_first_sighting_chases_instead_of_wandering() {
    let map = open_map(12, 12);
    let mut world = World::new();
    let hunter = creature(&mut world, "Hunter", CreatureType::Human, (2, 2));
    let prey = creature(&mut world, "Prey", CreatureType::Goblin, (5, 2));
    calculate_viewshed(&mut world, &map);
    let mut buf: Vec<Command> = Vec::new();
    let mut log: Vec<LogEvent> = Vec::new();
    let mut rng = DiceRng::seeded(8);
    dungeonsim::destination::set_destination(&world, &map, &mut buf, &mut log, &mut rng);
    apply_commands(&mut world, &mut buf, &map);
    assert_eq!(
        world.ents[hunter].destination,
        Some(Destination { position: Position(5, 2) })
    );
    let _ = prey;
}

#[test]
fn calm_creatures_greet_and_deal_no_damage() {
    let mut world = World::new();
    let a = creature(&mut world, "Calm", CreatureType::Human, (2, 2));
    {
        let mut rec = world.extract(a);
        rec.aggression = Some(Aggression(0));
        world.store(a, rec);
    }
    let b = creature(&mut world, "Bystander", CreatureType::Goblin, (2, 3));
    {
        let mut rec = world.extract(b);
        rec.aggression = Some(Aggression(0));
        world.store(b, rec);
    }
    let mut log: Vec<LogEvent> = Vec::new();
    let mut rng = DiceRng::seeded(3);
    dungeonsim::combat::fight(&mut world, &mut log, &mut rng);
    assert_eq!(world.ents[a].hp, Some(Hp(15)));
    assert_eq!(world.ents[b].hp, Some(Hp(15)));
    let mut greetings = 0;
    for ev in &log {
        match ev {
            LogEvent::Greeting { subject_id, target_id, .. } => {
                assert!(
                    (*subject_id == a && *target_id == b)
                        || (*subject_id == b && *target_id == a)
                );
                greetings += 1;
            }
            _ => panic!("only greetings belong in this log"),
        }
    }
    assert_eq!(greetings, 2);
}

#[test]
fn the_fallen_get_a_corpse_glyph_and_a_log_line() {
    let mut world = World::new();
    let goner = creature(&mut world, "Goner", CreatureType::Human, (2, 2));
    {
        let mut rec = world.extract(goner);
        rec.hp = Some(Hp(0));
        world.store(goner, rec);
    }
    let mut buf: Vec<Command> = Vec::new();
    let mut log: Vec<LogEvent> = Vec::new();
    dungeonsim::combat::death(&mut world, &mut buf, &mut log);
    apply_commands(&mut world, &mut buf, &open_map(8, 8));
    assert!(world.ents[goner].dead.is_some());
    assert!(world.ents[goner].moves.is_none());
    assert!(world.ents[goner].aggression.is_none());
    let render = world.ents[goner].render.as_ref().unwrap();
    assert_eq!(render.glyph, "%");
    assert!(matches!(
        log.last(),
        Some(LogEvent::Dies { subject_id, .. }) if *subject_id == goner
    ));
}

#[test]
fn win_condition_signals() {
    let mut world = World::new();
    let mut log: Vec<LogEvent> = Vec::new();
    // nobody left: a draw
    assert!(creature_type_count(&world, &mut log).is_some());
    assert!(matches!(log.last(), Some(LogEvent::GameOverDraw)));

    creature(&mut world, "Human", CreatureType::Human, (1, 1));
    let mut log: Vec<LogEvent> = Vec::new();
    assert!(creature_type_count(&world, &mut log).is_some());
    match log.last() {
        Some(LogEvent::GameOverWinner { winner }) => assert_eq!(*winner, CreatureType::Human),
        other => panic!("expected a winner event, got {:?}", other.is_some()),
    }

    creature(&mut world, "Goblin", CreatureType::Goblin, (2, 1));
    let mut log: Vec<LogEvent> = Vec::new();
    assert!(creature_type_count(&world, &mut log).is_none());
    assert!(log.is_empty());
}

#[test]
fn dead_creature_types_do_not_count() {
    let mut world = World::new();
    creature(&mut world, "Human", CreatureType::Human, (1, 1));
    let g = creature(&mut world, "Goblin", CreatureType::Goblin, (2, 1));
    {
        let mut rec = world.extract(g);
        rec.dead = Some(Dead);
        world.store(g, rec);
    }
    let mut log: Vec<LogEvent> = Vec::new();
    assert!(creature_type_count(&world, &mut log).is_some());
}

#[test]
fn the_dead_are_left_entirely_alone() {
    let map = open_map(10, 10);
    let mut world = World::new();
    let live = creature(&mut world, "Live", CreatureType::Human, (2, 2));
    let dead = creature(&mut world, "Fallen", CreatureType::Goblin, (2, 3));
    {
        let mut rec = world.extract(dead);
        rec.dead = Some(Dead);
        rec.moves = None;
        rec.aggression = None;
        rec.hp = Some(Hp(-2));
        rec.equipped_armour = Some(EquippedArmour(Armour::ChainMail));
        world.store(dead, rec);
    }
    let before = (
        world.ents[dead].position,
        world.ents[dead].hp,
        world.ents[dead].equipped_armour,
    );
    let mut log: Vec<LogEvent> = Vec::new();
    let mut rng = DiceRng::seeded(4);
    let mut count = TickCount(0);
    for _ in 0..5 {
        tick(&mut world, &map, &mut log, &mut rng, &mut count);
    }
    assert_eq!(world.ents[dead].position, before.0);
    assert_eq!(world.ents[dead].hp, before.1);
    assert_eq!(world.ents[dead].equipped_armour, before.2);
    assert!(world.ents[dead].dead.is_some());
    assert!(world.ents[live].alive);
    assert_eq!(count.0, 5);
}

#[test]
fn hunger_severity_and_eating() {
    assert_eq!(Hunger(120).get_severity(), SeverityLevel::Max);
    assert_eq!(Hunger(50).get_severity(), SeverityLevel::Moderate);
    assert_eq!(Hunger(0).get_severity(), SeverityLevel::Min);

    let mut h = Hunger(80);
    let mut f = Food { eaten: false };
    h.eat(&mut f);
    assert_eq!(h.0, 0);
    assert!(f.eaten);

    let mut world = World::new();
    let eater = creature(&mut world, "Eater", CreatureType::Human, (2, 2));
    {
        let mut rec = world.extract(eater);
        rec.hunger = Some(Hunger(50));
        world.store(eater, rec);
    }
    let mut e = EntityData::blank();
    e.alive = true;
    e.position = Some(Position(2, 3));
    e.food = Some(Food { eaten: false });
    let snack = world.spawn(e);
    let mut log: Vec<LogEvent> = Vec::new();
    eat_nearby_food(&mut world, &mut log);
    assert_eq!(world.ents[eater].hunger, Some(Hunger(0)));
    assert_eq!(world.ents[snack].food, Some(Food { eaten: true }));
    assert!(matches!(log.last(), Some(LogEvent::Eats { .. })));
}

#[test]
fn a_full_run_ends_with_one_faction_or_a_draw() {
    let mut rng = DiceRng::seeded(12);
    let map = GridMap::new_map_rooms_and_corridors(&mut rng);
    assert!(map.rooms.len() >= 1);
    let mut world = World::new();
    for i in 0..3 {
        creature(&mut world, &format!("Human{}", i), CreatureType::Human, (0, 0));
        creature(&mut world, &format!("Goblin{}", i), CreatureType::Goblin, (0, 0));
    }
    // strip the hand-given positions so placement assigns random rooms
    for i in 0..world.ents.len() {
        let mut rec = world.extract(i);
        rec.position = None;
        world.store(i, rec);
    }
    let mut log: Vec<LogEvent> = Vec::new();
    let mut count = TickCount(0);
    let mut over = false;
    for _ in 0..400 {
        if tick(&mut world, &map, &mut log, &mut rng, &mut count).is_some() {
            over = true;
            break;
        }
    }
    // whatever the outcome, every tick preserved the world's shape
    assert!(world.ents.len() >= 6);
    let _ = over;
}
