use dungeonsim::grid::GridMap;
use dungeonsim::grid::TileType;
use dungeonsim::grid::tile_to_char;
use dungeonsim::path::generate_path;
use dungeonsim::position::Position;
use dungeonsim::rng::DiceRng;

#[test]
fn generated_map_has_expected_dimensions() {
    let mut rng = DiceRng::seeded(1);
    let map = GridMap::new_map_rooms_and_corridors(&mut rng);
    assert_eq!(map.width, 100);
    assert_eq!(map.height, 40);
    assert_eq!(map.tiles.len(), 4000);
    assert!(map.rooms.len() <= 30);
}

#[test]
fn generated_rooms_are_carved_and_disjoint() {
    for seed in 0..5u64 {
        let mut rng = DiceRng::seeded(seed);
        let map = GridMap::new_map_rooms_and_corridors(&mut rng);
        for (a, ra) in map.rooms.iter().enumerate() {
            assert!(0 <= ra.x1 && ra.x1 < ra.x2 && ra.x2 < map.width);
            assert!(0 <= ra.y1 && ra.y1 < ra.y2 && ra.y2 < map.height);
            for y in ra.y1 + 1..=ra.y2 {
                for x in ra.x1 + 1..=ra.x2 {
                    let idx = map.xy_idx(x, y);
                    assert_eq!(map.tiles[idx], TileType::Floor);
                }
            }
            for (b, rb) in map.rooms.iter().enumerate() {
                if a != b {
                    assert!(!ra.intersect(rb));
                }
            }
        }
    }
}

#[test]
fn same_seed_reproduces_the_same_map() {
    let mut r1 = DiceRng::seeded(99);
    let mut r2 = DiceRng::seeded(99);
    let m1 = GridMap::new_map_rooms_and_corridors(&mut r1);
    let m2 = GridMap::new_map_rooms_and_corridors(&mut r2);
    assert_eq!(m1.tiles.len(), m2.tiles.len());
    for i in 0..m1.tiles.len() {
        assert_eq!(m1.tiles[i], m2.tiles[i]);
    }
    assert_eq!(m1.rooms.len(), m2.rooms.len());
    for i in 0..m1.rooms.len() {
        assert_eq!(m1.rooms[i], m2.rooms[i]);
    }
}

// Every pair of room centers in a generated map is connected by a
// walkable route.
#[test]
fn all_room_centers_are_mutually_reachable() {
    for seed in 0..3u64 {
        let mut rng = DiceRng::seeded(seed);
        let map = GridMap::new_map_rooms_and_corridors(&mut rng);
        assert!(map.rooms.len() >= 2, "generation produced too few rooms");
        let centers: Vec<(i32, i32)> = map.rooms.iter().map(|r| r.center()).collect();
        for a in &centers {
            for b in &centers {
                let route = generate_path(&map, &Position(a.0, a.1), &Position(b.0, b.1));
                assert!(route.is_some(), "no route between room centers");
                let route = route.unwrap();
                assert_eq!(route[0], (a.0, a.1));
                assert_eq!(*route.last().unwrap(), (b.0, b.1));
            }
        }
    }
}

#[test]
fn pathfinder_reports_unreachable_destinations() {
    // a wall splits the map in two
    let width = 7;
    let height = 3;
    let mut tiles = vec![TileType::Floor; (width * height) as usize];
    for y in 0..height {
        tiles[(y * width + 3) as usize] = TileType::Wall;
    }
    let map = GridMap { tiles, rooms: Vec::new(), width, height };
    assert!(generate_path(&map, &Position(1, 1), &Position(5, 1)).is_none());
    let there = generate_path(&map, &Position(1, 1), &Position(2, 1));
    assert!(there.is_some());
}

#[test]
fn pathfinder_route_walks_in_unit_steps_on_floor() {
    let mut rng = DiceRng::seeded(3);
    let map = GridMap::new_map_rooms_and_corridors(&mut rng);
    assert!(map.rooms.len() >= 2);
    let a = map.rooms[0].center();
    let b = map.rooms[1].center();
    let route = generate_path(&map, &Position(a.0, a.1), &Position(b.0, b.1)).unwrap();
    for w in route.windows(2) {
        let dx = (w[0].0 - w[1].0).abs();
        let dy = (w[0].1 - w[1].1).abs();
        assert_eq!(dx + dy, 1);
        let idx = map.xy_idx(w[1].0, w[1].1);
        assert_eq!(map.tiles[idx], TileType::Floor);
    }
}

#[test]
fn routes_in_the_open_are_shortest() {
    let map = GridMap {
        tiles: vec![TileType::Floor; 64],
        rooms: Vec::new(),
        width: 8,
        height: 8,
    };
    // start cell plus the Manhattan distance
    let route = generate_path(&map, &Position(1, 1), &Position(4, 1)).unwrap();
    assert_eq!(route.len(), 4);
    let route = generate_path(&map, &Position(1, 1), &Position(4, 3)).unwrap();
    assert_eq!(route.len(), 6);
}

#[test]
fn trivial_route_when_already_there() {
    let map = GridMap {
        tiles: vec![TileType::Floor; 9],
        rooms: Vec::new(),
        width: 3,
        height: 3,
    };
    let route = generate_path(&map, &Position(1, 1), &Position(1, 1)).unwrap();
    assert_eq!(route, vec![(1, 1)]);
}

#[test]
fn tile_glyphs() {
    assert_eq!(tile_to_char(&TileType::Floor), ".");
    assert_eq!(tile_to_char(&TileType::Wall), "#");
}

#[test]
fn xy_idx_is_row_major() {
    let map = GridMap {
        tiles: vec![TileType::Wall; 12],
        rooms: Vec::new(),
        width: 4,
        height: 3,
    };
    assert_eq!(map.xy_idx(0, 0), 0);
    assert_eq!(map.xy_idx(3, 0), 3);
    assert_eq!(map.xy_idx(0, 1), 4);
    assert_eq!(map.xy_idx(3, 2), 11);
}

#[test]
fn different_seeds_produce_different_draws() {
    let mut any_differ = false;
    for s in 0..8u64 {
        let mut a = DiceRng::seeded(s);
        let mut b = DiceRng::seeded(s + 1000);
        if a.range(1, 1000000) != b.range(1, 1000000) {
            any_differ = true;
        }
    }
    assert!(any_differ);
}

#[test]
fn rng_draws_stay_in_range() {
    let mut rng = DiceRng::seeded(5);
    for _ in 0..200 {
        let v = rng.range(1, 20);
        assert!((1..=20).contains(&v));
    }
    // a one-value range can only produce that value
    for _ in 0..10 {
        assert_eq!(rng.range(7, 7), 7);
    }
}
