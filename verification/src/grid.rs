use vstd::prelude::*;
use crate::rect::Rect;
use crate::rng::DiceRng;

verus! {

/// Classification of one map cell. Walls block movement and sight.
#[derive(Clone, Copy, Debug, PartialEq, Eq, Structural)]
pub enum TileType {
    Wall,
    Floor,
}

/// The static dungeon of one run: a `width x height` grid of tiles in
/// row-major order, plus the list of accepted rooms. Created once at run
/// start and read-only afterwards.
pub struct GridMap {
    pub tiles: Vec<TileType>,
    pub rooms: Vec<Rect>,
    pub width: i32,
    pub height: i32,
}

pub const MAP_WIDTH: i32 = 100;
pub const MAP_HEIGHT: i32 = 40;
pub const MAX_ROOMS: i32 = 30;
pub const MIN_ROOM_SIZE: i32 = 6;
pub const MAX_ROOM_SIZE: i32 = 10;

/// Cap on map dimensions; keeps every index and distance computation far
/// from machine limits.
pub const MAP_DIM_LIMIT: i32 = 4096;

impl GridMap {
    /// Structural invariant: positive bounded dimensions and a fully
    /// allocated tile grid.
    pub open spec fn inv(self) -> bool {
        &&& 0 < self.width <= MAP_DIM_LIMIT
        &&& 0 < self.height <= MAP_DIM_LIMIT
        &&& self.tiles@.len() == self.width * self.height
    }

    pub open spec fn in_bounds(self, x: int, y: int) -> bool {
        0 <= x < self.width && 0 <= y < self.height
    }

    pub open spec fn idx_of(self, x: int, y: int) -> int {
        y * self.width + x
    }

    pub open spec fn tile_at(self, x: int, y: int) -> TileType {
        self.tiles@[self.idx_of(x, y)]
    }

    pub open spec fn opaque_at(self, x: int, y: int) -> bool {
        self.tile_at(x, y) is Wall
    }

    /// A room lies strictly inside the grid, with a non-empty interior.
    pub open spec fn room_in_bounds(self, room: Rect) -> bool {
        &&& room.wf()
        &&& 0 <= room.x1
        &&& room.x2 < self.width
        &&& 0 <= room.y1
        &&& room.y2 < self.height
    }

    /// Every listed room lies inside the grid.
    pub open spec fn rooms_wf(self) -> bool {
        forall|i: int| 0 <= i < self.rooms@.len() ==> self.room_in_bounds(#[trigger] self.rooms@[i])
    }

    /// Row-major index of a coordinate pair.
    pub fn xy_idx(&self, x: i32, y: i32) -> (r: usize)
        requires
            self.inv(),
            self.in_bounds(x as int, y as int),
        ensures
            r == self.idx_of(x as int, y as int),
            r < self.tiles@.len(),
    {
        proof {
            lemma_row_major_bounds(self.width as int, self.height as int, x as int, y as int);
        }
        (y as usize) * (self.width as usize) + (x as usize)
    }

    /// Walls block line of sight.
    pub fn is_opaque(&self, idx: usize) -> (r: bool)
        requires
            idx < self.tiles@.len(),
        ensures
            r == (self.tiles@[idx as int] is Wall),
    {
        self.tiles[idx] == TileType::Wall
    }

    /// Turns the carved interior of `room` to floor; every other tile keeps
    /// its previous value.
    fn apply_room_to_map(&mut self, room: &Rect)
        requires
            old(self).inv(),
            old(self).room_in_bounds(*room),
        ensures
            final(self).inv(),
            final(self).width == old(self).width,
            final(self).height == old(self).height,
            final(self).rooms == old(self).rooms,
            forall|a: int, b: int|
                old(self).in_bounds(a, b) ==> #[trigger] final(self).tile_at(a, b) == (
                    if room.interior_contains(a, b) {
                        TileType::Floor
                    } else {
                        old(self).tile_at(a, b)
                    }),
    {
        let ghost orig = *self;
        let mut y: i32 = room.y1 + 1;
        while y <= room.y2
            invariant
                self.inv(),
                self.width == orig.width,
                self.height == orig.height,
                self.rooms == orig.rooms,
                orig.room_in_bounds(*room),
                room.y1 < y <= room.y2 + 1,
                forall|a: int, b: int|
                    orig.in_bounds(a, b) ==> #[trigger] self.tile_at(a, b) == (
                        if room.interior_contains(a, b) && b < y {
                            TileType::Floor
                        } else {
                            orig.tile_at(a, b)
                        }),
            decreases room.y2 + 1 - y,
        {
            let mut x: i32 = room.x1 + 1;
            while x <= room.x2
                invariant
                    self.inv(),
                    self.width == orig.width,
                    self.height == orig.height,
                    self.rooms == orig.rooms,
                    orig.room_in_bounds(*room),
                    room.y1 < y <= room.y2,
                    room.x1 < x <= room.x2 + 1,
                    forall|a: int, b: int|
                        orig.in_bounds(a, b) ==> #[trigger] self.tile_at(a, b) == (
                            if room.interior_contains(a, b) && (b < y || (b == y && a < x)) {
                                TileType::Floor
                            } else {
                                orig.tile_at(a, b)
                            }),
                decreases room.x2 + 1 - x,
            {
                let ghost before = *self;
                let idx = self.xy_idx(x, y);
                self.tiles.set(idx, TileType::Floor);
                proof {
                    assert forall|a: int, b: int|
                        orig.in_bounds(a, b) implies #[trigger] self.tile_at(a, b) == (
                            if room.interior_contains(a, b) && (b < y || (b == y && a < x + 1)) {
                                TileType::Floor
                            } else {
                                orig.tile_at(a, b)
                            }) by {
                        lemma_row_major_bounds(orig.width as int, orig.height as int, a, b);
                        lemma_row_major_bounds(orig.width as int, orig.height as int, x as int, y as int);
                        assert(before.tile_at(a, b) == (
                            if room.interior_contains(a, b) && (b < y || (b == y && a < x)) {
                                TileType::Floor
                            } else {
                                orig.tile_at(a, b)
                            }));
                        if before.idx_of(a, b) == before.idx_of(x as int, y as int) {
                            lemma_row_major_injective(
                                orig.width as int, a, b, x as int, y as int);
                        }
                    }
                }
                x = x + 1;
            }
            y = y + 1;
        }
    }

    /// Carves a one-tile-high horizontal corridor between the two columns at
    /// row `y`. Every write is bounds-checked, so any out-of-range part of
    /// the segment is simply skipped.
    fn apply_horizontal_tunnel(&mut self, x1: i32, x2: i32, y: i32)
        requires
            old(self).inv(),
        ensures
            final(self).inv(),
            final(self).width == old(self).width,
            final(self).height == old(self).height,
            final(self).rooms == old(self).rooms,
            forall|a: int, b: int|
                old(self).in_bounds(a, b) ==> #[trigger] final(self).tile_at(a, b) == (
                    if b == y && min_spec(x1 as int, x2 as int) <= a <= max_spec(x1 as int, x2 as int) {
                        TileType::Floor
                    } else {
                        old(self).tile_at(a, b)
                    }),
    {
        let ghost orig = *self;
        let lo: i64 = if x1 < x2 { x1 as i64 } else { x2 as i64 };
        let hi: i64 = if x1 < x2 { x2 as i64 } else { x1 as i64 };
        let mut x: i64 = lo;
        while x <= hi
            invariant
                self.inv(),
                self.width == orig.width,
                self.height == orig.height,
                self.rooms == orig.rooms,
                lo == min_spec(x1 as int, x2 as int),
                hi == max_spec(x1 as int, x2 as int),
                lo <= x <= hi + 1,
                forall|a: int, b: int|
                    orig.in_bounds(a, b) ==> #[trigger] self.tile_at(a, b) == (
                        if b == y && lo <= a < x {
                            TileType::Floor
                        } else {
                            orig.tile_at(a, b)
                        }),
            decreases hi + 1 - x,
        {
            if 0 <= x && x < self.width as i64 && 0 <= y && y < self.height {
                let ghost before = *self;
                let idx = self.xy_idx(x as i32, y);
                self.tiles.set(idx, TileType::Floor);
                proof {
                    assert forall|a: int, b: int|
                        orig.in_bounds(a, b) implies #[trigger] self.tile_at(a, b) == (
                            if b == y && lo <= a < x + 1 {
                                TileType::Floor
                            } else {
                                orig.tile_at(a, b)
                            }) by {
                        lemma_row_major_bounds(orig.width as int, orig.height as int, a, b);
                        lemma_row_major_bounds(orig.width as int, orig.height as int, x as int, y as int);
                        assert(before.tile_at(a, b) == (
                            if b == y && lo <= a < x {
                                TileType::Floor
                            } else {
                                orig.tile_at(a, b)
                            }));
                        if before.idx_of(a, b) == before.idx_of(x as int, y as int) {
                            lemma_row_major_injective(
                                orig.width as int, a, b, x as int, y as int);
                        }
                    }
                }
            }
            x = x + 1;
        }
    }

    /// Carves a one-tile-wide vertical corridor between the two rows at
    /// column `x`, bounds-checked like the horizontal case.
    fn apply_vertical_tunnel(&mut self, y1: i32, y2: i32, x: i32)
        requires
            old(self).inv(),
        ensures
            final(self).inv(),
            final(self).width == old(self).width,
            final(self).height == old(self).height,
            final(self).rooms == old(self).rooms,
            forall|a: int, b: int|
                old(self).in_bounds(a, b) ==> #[trigger] final(self).tile_at(a, b) == (
                    if a == x && min_spec(y1 as int, y2 as int) <= b <= max_spec(y1 as int, y2 as int) {
                        TileType::Floor
                    } else {
                        old(self).tile_at(a, b)
                    }),
    {
        let ghost orig = *self;
        let lo: i64 = if y1 < y2 { y1 as i64 } else { y2 as i64 };
        let hi: i64 = if y1 < y2 { y2 as i64 } else { y1 as i64 };
        let mut y: i64 = lo;
        while y <= hi
            invariant
                self.inv(),
                self.width == orig.width,
                self.height == orig.height,
                self.rooms == orig.rooms,
                lo == min_spec(y1 as int, y2 as int),
                hi == max_spec(y1 as int, y2 as int),
                lo <= y <= hi + 1,
                forall|a: int, b: int|
                    orig.in_bounds(a, b) ==> #[trigger] self.tile_at(a, b) == (
                        if a == x && lo <= b < y {
                            TileType::Floor
                        } else {
                            orig.tile_at(a, b)
                        }),
            decreases hi + 1 - y,
        {
            if 0 <= y && y < self.height as i64 && 0 <= x && x < self.width {
                let ghost before = *self;
                let idx = self.xy_idx(x, y as i32);
                self.tiles.set(idx, TileType::Floor);
                proof {
                    assert forall|a: int, b: int|
                        orig.in_bounds(a, b) implies #[trigger] self.tile_at(a, b) == (
                            if a == x && lo <= b < y + 1 {
                                TileType::Floor
                            } else {
                                orig.tile_at(a, b)
                            }) by {
                        lemma_row_major_bounds(orig.width as int, orig.height as int, a, b);
                        lemma_row_major_bounds(orig.width as int, orig.height as int, x as int, y as int);
                        assert(before.tile_at(a, b) == (
                            if a == x && lo <= b < y {
                                TileType::Floor
                            } else {
                                orig.tile_at(a, b)
                            }));
                        if before.idx_of(a, b) == before.idx_of(x as int, y as int) {
                            lemma_row_major_injective(
                                orig.width as int, a, b, x as int, y as int);
                        }
                    }
                }
            }
            y = y + 1;
        }
    }
}

/// Cell (a, b) lies on one of the two L-shaped corridors that can join the
/// centers `c1` and `c2`: a horizontal leg at either center's row and a
/// vertical leg at either center's column.
pub open spec fn l_corridor_between(c1: (int, int), c2: (int, int), a: int, b: int) -> bool {
    ||| (b == c1.1 && min_spec(c1.0, c2.0) <= a <= max_spec(c1.0, c2.0))
    ||| (a == c2.0 && min_spec(c1.1, c2.1) <= b <= max_spec(c1.1, c2.1))
    ||| (a == c1.0 && min_spec(c1.1, c2.1) <= b <= max_spec(c1.1, c2.1))
    ||| (b == c2.1 && min_spec(c1.0, c2.0) <= a <= max_spec(c1.0, c2.0))
}

impl GridMap {
    /// Cell (a, b) lies on a corridor joining the centers of consecutive
    /// rooms `k - 1` and `k`.
    pub open spec fn corridor_cell(self, k: int, a: int, b: int) -> bool {
        l_corridor_between(
            self.rooms@[k - 1].center_spec(),
            self.rooms@[k].center_spec(),
            a,
            b,
        )
    }

    /// Every floor cell was deliberately carved: it lies in some room's
    /// interior or on a corridor between consecutive rooms. Everything
    /// else is still wall.
    pub open spec fn carved_only(self) -> bool {
        forall|a: int, b: int|
            self.in_bounds(a, b) && !((#[trigger] self.tile_at(a, b)) is Wall) ==> ((exists|r: int|
                0 <= r < self.rooms@.len() && (#[trigger] self.rooms@[r]).interior_contains(a, b))
                || (exists|k: int|
                1 <= k < self.rooms@.len() && #[trigger] self.corridor_cell(k, a, b)))
    }

    /// The whole carved interior of `r` is floor.
    pub open spec fn interior_floor(self, r: Rect) -> bool {
        forall|a: int, b: int|
            r.interior_contains(a, b) ==> (#[trigger] self.tile_at(a, b)) is Floor
    }

    /// Room-and-corridor generator. Starts from an all-wall grid and makes a
    /// fixed number of placement attempts; each samples a rectangle of
    /// bounded size, rejects it if it overlaps an accepted room, and
    /// otherwise carves its interior and an L-shaped corridor to the
    /// previously accepted room's center. Always terminates; if every
    /// attempt is rejected the room list is empty and callers must treat
    /// that as a fatal configuration error.
    pub fn new_map_rooms_and_corridors(rng: &mut DiceRng) -> (map: GridMap)
        ensures
            map.inv(),
            map.width == MAP_WIDTH,
            map.height == MAP_HEIGHT,
            map.rooms_wf(),
            map.rooms@.len() <= MAX_ROOMS,
            forall|i: int, j: int|
                0 <= i < j < map.rooms@.len()
                    ==> !(#[trigger] map.rooms@[i]).intersect_spec(#[trigger] map.rooms@[j]),
            forall|i: int|
                0 <= i < map.rooms@.len() ==> map.interior_floor(#[trigger] map.rooms@[i]),
            map.rooms@.len() >= 1,
            map.carved_only(),
            map.centers_linked(),
            forall|i: int, j: int|
                0 <= i < map.rooms@.len() && 0 <= j < map.rooms@.len() && i != j
                    ==> crate::path::reachable(
                    map,
                    (#[trigger] map.rooms@[i]).center_spec().0,
                    map.rooms@[i].center_spec().1,
                    (#[trigger] map.rooms@[j]).center_spec().0,
                    map.rooms@[j].center_spec().1,
                ),
    {
        let mut map = GridMap {
            tiles: Vec::new(),
            rooms: Vec::new(),
            width: MAP_WIDTH,
            height: MAP_HEIGHT,
        };
        let total: usize = (MAP_WIDTH as usize) * (MAP_HEIGHT as usize);
        let mut k: usize = 0;
        while k < total
            invariant
                k <= total,
                total == MAP_WIDTH * MAP_HEIGHT,
                map.tiles@.len() == k,
                map.rooms@.len() == 0,
                map.width == MAP_WIDTH,
                map.height == MAP_HEIGHT,
                forall|t: int| 0 <= t < k ==> (#[trigger] map.tiles@[t]) is Wall,
            decreases total - k,
        {
            map.tiles.push(TileType::Wall);
            k = k + 1;
        }
        proof {
            assert forall|a: int, b: int|
                map.in_bounds(a, b) implies (#[trigger] map.tile_at(a, b)) is Wall by {
                lemma_row_major_bounds(map.width as int, map.height as int, a, b);
            }
        }

        let mut i: i32 = 0;
        while i < MAX_ROOMS
            invariant
                0 <= i <= MAX_ROOMS,
                map.inv(),
                map.width == MAP_WIDTH,
                map.height == MAP_HEIGHT,
                map.rooms_wf(),
                map.rooms@.len() <= i,
                forall|s: int, t: int|
                    0 <= s < t < map.rooms@.len()
                        ==> !(#[trigger] map.rooms@[s]).intersect_spec(#[trigger] map.rooms@[t]),
                forall|s: int|
                    0 <= s < map.rooms@.len() ==> map.interior_floor(#[trigger] map.rooms@[s]),
                map.centers_linked(),
                i >= 1 ==> map.rooms@.len() >= 1,
                map.carved_only(),
            decreases MAX_ROOMS - i,
        {
            let w = rng.range(MIN_ROOM_SIZE, MAX_ROOM_SIZE - 1);
            let h = rng.range(MIN_ROOM_SIZE, MAX_ROOM_SIZE - 1);
            let x = rng.range(1, map.width - w - 1) - 1;
            let y = rng.range(1, map.height - h - 1) - 1;
            let new_room = Rect::new(x, y, w, h);
            let mut ok = true;
            let mut j: usize = 0;
            while j < map.rooms.len()
                invariant
                    j <= map.rooms@.len(),
                    ok == (forall|t: int|
                        0 <= t < j ==> !new_room.intersect_spec(#[trigger] map.rooms@[t])),
                decreases map.rooms@.len() - j,
            {
                if new_room.intersect(&map.rooms[j]) {
                    ok = false;
                }
                j = j + 1;
            }
            if ok {
                let ghost m0 = map;
                map.apply_room_to_map(&new_room);
                let ghost m1 = map;
                if map.rooms.len() > 0 {
                    let new_center = new_room.center();
                    let prev_center_room = map.rooms[map.rooms.len() - 1];
                    proof {
                        assert(m0.room_in_bounds(m0.rooms@[m0.rooms@.len() - 1]));
                    }
                    let prev_center = prev_center_room.center();
                    let ghost pcx = prev_center.0 as int;
                    let ghost pcy = prev_center.1 as int;
                    let ghost ncx = new_center.0 as int;
                    let ghost ncy = new_center.1 as int;
                    let ghost pspec = m0.rooms@[m0.rooms@.len() - 1].center_spec();
                    let ghost nspec = new_room.center_spec();
                    if rng.range(0, 1) == 1 {
                        map.apply_horizontal_tunnel(prev_center.0, new_center.0, prev_center.1);
                        let ghost mmid = map;
                        map.apply_vertical_tunnel(prev_center.1, new_center.1, new_center.0);
                        proof {
                            assert forall|xx: int|
                                min_spec(pcx, ncx) <= xx <= max_spec(pcx, ncx)
                                    implies #[trigger] crate::path::traversable(map, xx, pcy) by {
                                assert(mmid.tile_at(xx, pcy) is Floor);
                                assert(map.tile_at(xx, pcy) is Floor);
                            }
                            assert forall|yy: int|
                                min_spec(pcy, ncy) <= yy <= max_spec(pcy, ncy)
                                    implies #[trigger] crate::path::traversable(map, ncx, yy) by {
                                assert(map.tile_at(ncx, yy) is Floor);
                            }
                            crate::path::lemma_straight_route_x(map, pcx, ncx, pcy);
                            crate::path::lemma_straight_route_x(map, ncx, pcx, pcy);
                            crate::path::lemma_straight_route_y(map, pcy, ncy, ncx);
                            crate::path::lemma_straight_route_y(map, ncy, pcy, ncx);
                            crate::path::lemma_reachable_trans(map, pcx, pcy, ncx, pcy, ncx, ncy);
                            crate::path::lemma_reachable_trans(map, ncx, ncy, ncx, pcy, pcx, pcy);
                            assert(crate::path::reachable(map, pspec.0, pspec.1, nspec.0, nspec.1));
                            assert(crate::path::reachable(map, nspec.0, nspec.1, pspec.0, pspec.1));
                            assert(pcx == pspec.0 && pcy == pspec.1 && ncx == nspec.0
                                && ncy == nspec.1);
                            assert forall|a2: int, b2: int|
                                m0.in_bounds(a2, b2) && !((map.tile_at(a2, b2)) is Wall)
                                    implies (!(m1.tile_at(a2, b2) is Wall) || (m0.rooms@.len()
                                    >= 1 && l_corridor_between(pspec, nspec, a2, b2))) by {
                                assert(mmid.tile_at(a2, b2) == mmid.tile_at(a2, b2));
                            }
                        }
                    } else {
                        map.apply_vertical_tunnel(prev_center.1, new_center.1, prev_center.0);
                        let ghost mmid = map;
                        map.apply_horizontal_tunnel(prev_center.0, new_center.0, new_center.1);
                        proof {
                            assert forall|yy: int|
                                min_spec(pcy, ncy) <= yy <= max_spec(pcy, ncy)
                                    implies #[trigger] crate::path::traversable(map, pcx, yy) by {
                                assert(mmid.tile_at(pcx, yy) is Floor);
                                assert(map.tile_at(pcx, yy) is Floor);
                            }
                            assert forall|xx: int|
                                min_spec(pcx, ncx) <= xx <= max_spec(pcx, ncx)
                                    implies #[trigger] crate::path::traversable(map, xx, ncy) by {
                                assert(map.tile_at(xx, ncy) is Floor);
                            }
                            crate::path::lemma_straight_route_y(map, pcy, ncy, pcx);
                            crate::path::lemma_straight_route_y(map, ncy, pcy, pcx);
                            crate::path::lemma_straight_route_x(map, pcx, ncx, ncy);
                            crate::path::lemma_straight_route_x(map, ncx, pcx, ncy);
                            crate::path::lemma_reachable_trans(map, pcx, pcy, pcx, ncy, ncx, ncy);
                            crate::path::lemma_reachable_trans(map, ncx, ncy, pcx, ncy, pcx, pcy);
                            assert(crate::path::reachable(map, pspec.0, pspec.1, nspec.0, nspec.1));
                            assert(crate::path::reachable(map, nspec.0, nspec.1, pspec.0, pspec.1));
                            assert(pcx == pspec.0 && pcy == pspec.1 && ncx == nspec.0
                                && ncy == nspec.1);
                            assert forall|a2: int, b2: int|
                                m0.in_bounds(a2, b2) && !((map.tile_at(a2, b2)) is Wall)
                                    implies (!(m1.tile_at(a2, b2) is Wall) || (m0.rooms@.len()
                                    >= 1 && l_corridor_between(pspec, nspec, a2, b2))) by {
                                assert(mmid.tile_at(a2, b2) == mmid.tile_at(a2, b2));
                            }
                        }
                    }
                }
                proof {
                    assert forall|a2: int, b2: int|
                        m0.in_bounds(a2, b2) && !((map.tile_at(a2, b2)) is Wall)
                            implies (!(m0.tile_at(a2, b2) is Wall) || new_room.interior_contains(
                            a2,
                            b2,
                        ) || (m0.rooms@.len() >= 1 && l_corridor_between(
                            m0.rooms@[m0.rooms@.len() - 1].center_spec(),
                            new_room.center_spec(),
                            a2,
                            b2,
                        ))) by {
                        assert(m1.tile_at(a2, b2) == m1.tile_at(a2, b2));
                    }
                }
                let ghost m3 = map;
                proof {
                    assert forall|a: int, b: int|
                        m1.in_bounds(a, b) && m1.tile_at(a, b) is Floor
                            implies (#[trigger] m3.tile_at(a, b)) is Floor by {
                        assert(m1.tile_at(a, b) is Floor);
                    }
                }
                map.rooms.push(new_room);
                proof {
                    let old_len = m0.rooms@.len() as int;
                    assert forall|a2: int, b2: int|
                        map.in_bounds(a2, b2) && !((#[trigger] map.tile_at(a2, b2)) is Wall)
                            implies ((exists|r: int|
                            0 <= r < map.rooms@.len() && (#[trigger] map.rooms@[r]).interior_contains(
                                a2,
                                b2,
                            )) || (exists|k: int|
                            1 <= k < map.rooms@.len() && #[trigger] map.corridor_cell(
                                k,
                                a2,
                                b2,
                            ))) by {
                        assert(map.tile_at(a2, b2) == m3.tile_at(a2, b2));
                        if !(m0.tile_at(a2, b2) is Wall) {
                            if exists|r: int|
                                0 <= r < m0.rooms@.len()
                                    && (#[trigger] m0.rooms@[r]).interior_contains(a2, b2) {
                                let r = choose|r: int|
                                    0 <= r < m0.rooms@.len()
                                        && (#[trigger] m0.rooms@[r]).interior_contains(a2, b2);
                                assert(map.rooms@[r] == m0.rooms@[r]);
                                assert(map.rooms@[r].interior_contains(a2, b2));
                            } else {
                                let k = choose|k: int|
                                    1 <= k < m0.rooms@.len() && #[trigger] m0.corridor_cell(
                                        k,
                                        a2,
                                        b2,
                                    );
                                assert(map.rooms@[k - 1] == m0.rooms@[k - 1]);
                                assert(map.rooms@[k] == m0.rooms@[k]);
                                assert(map.corridor_cell(k, a2, b2));
                            }
                        } else if new_room.interior_contains(a2, b2) {
                            assert(map.rooms@[map.rooms@.len() - 1] == new_room);
                            assert(map.rooms@[map.rooms@.len() - 1].interior_contains(a2, b2));
                        } else {
                            assert(old_len >= 1);
                            assert(map.rooms@[old_len - 1] == m0.rooms@[old_len - 1]);
                            assert(map.rooms@[old_len] == new_room);
                            assert(map.corridor_cell(old_len, a2, b2));
                        }
                    }
                    // every pre-existing floor cell survives all of this
                    // iteration's carving
                    assert forall|a: int, b: int|
                        m0.in_bounds(a, b) && !m0.opaque_at(a, b)
                            implies !(#[trigger] map.opaque_at(a, b)) by {
                        assert(m0.tile_at(a, b) is Floor);
                        assert(m1.tile_at(a, b) is Floor);
                        assert(m3.tile_at(a, b) is Floor);
                        assert(map.tile_at(a, b) == m3.tile_at(a, b));
                    }
                    // consecutive room centers stay connected, and the new
                    // room is linked to its predecessor
                    assert forall|k: int|
                        1 <= k < map.rooms@.len() implies crate::path::reachable(
                            map,
                            map.rooms@[k - 1].center_spec().0,
                            map.rooms@[k - 1].center_spec().1,
                            (#[trigger] map.rooms@[k]).center_spec().0,
                            map.rooms@[k].center_spec().1,
                        ) && crate::path::reachable(
                            map,
                            map.rooms@[k].center_spec().0,
                            map.rooms@[k].center_spec().1,
                            map.rooms@[k - 1].center_spec().0,
                            map.rooms@[k - 1].center_spec().1,
                        ) by {
                        if k < map.rooms@.len() - 1 {
                            assert(m0.rooms@[k - 1] == map.rooms@[k - 1]);
                            assert(m0.rooms@[k] == map.rooms@[k]);
                            crate::path::lemma_reachable_monotone(
                                m0, map,
                                m0.rooms@[k - 1].center_spec().0,
                                m0.rooms@[k - 1].center_spec().1,
                                m0.rooms@[k].center_spec().0,
                                m0.rooms@[k].center_spec().1,
                            );
                            crate::path::lemma_reachable_monotone(
                                m0, map,
                                m0.rooms@[k].center_spec().0,
                                m0.rooms@[k].center_spec().1,
                                m0.rooms@[k - 1].center_spec().0,
                                m0.rooms@[k - 1].center_spec().1,
                            );
                        } else {
                            let pspec = m0.rooms@[m0.rooms@.len() - 1].center_spec();
                            let nspec = new_room.center_spec();
                            assert(crate::path::reachable(m3, pspec.0, pspec.1, nspec.0, nspec.1));
                            assert(crate::path::reachable(m3, nspec.0, nspec.1, pspec.0, pspec.1));
                            assert forall|a: int, b: int|
                                m3.in_bounds(a, b) && !m3.opaque_at(a, b)
                                    implies !(#[trigger] map.opaque_at(a, b)) by {
                                assert(map.tile_at(a, b) == m3.tile_at(a, b));
                            }
                            crate::path::lemma_reachable_monotone(
                                m3, map, pspec.0, pspec.1, nspec.0, nspec.1,
                            );
                            crate::path::lemma_reachable_monotone(
                                m3, map, nspec.0, nspec.1, pspec.0, pspec.1,
                            );
                        }
                    }
                    assert forall|s: int|
                        0 <= s < map.rooms@.len()
                            implies map.interior_floor(#[trigger] map.rooms@[s]) by {
                        let r = map.rooms@[s];
                        assert forall|a: int, b: int|
                            r.interior_contains(a, b)
                                implies (#[trigger] map.tile_at(a, b)) is Floor by {
                            if s < map.rooms@.len() - 1 {
                                assert(m0.interior_floor(r));
                                assert(m0.tile_at(a, b) is Floor);
                                assert(m1.tile_at(a, b) is Floor);
                                assert(m3.tile_at(a, b) is Floor);
                            } else {
                                assert(m1.tile_at(a, b) is Floor);
                                assert(m3.tile_at(a, b) is Floor);
                            }
                        }
                    }
                }
            }
            i = i + 1;
        }
        proof {
            assert forall|a: int, b: int|
                0 <= a < map.rooms@.len() && 0 <= b < map.rooms@.len() && a != b
                    implies crate::path::reachable(
                    map,
                    (#[trigger] map.rooms@[a]).center_spec().0,
                    map.rooms@[a].center_spec().1,
                    (#[trigger] map.rooms@[b]).center_spec().0,
                    map.rooms@[b].center_spec().1,
                ) by {
                lemma_center_chain(map, a, b);
            }
        }
        map
    }
}

impl GridMap {
    /// Every accepted room's center is connected to its predecessor's, in
    /// both directions, by a walkable route.
    pub open spec fn centers_linked(self) -> bool {
        forall|k: int|
            1 <= k < self.rooms@.len() ==> crate::path::reachable(
                self,
                self.rooms@[k - 1].center_spec().0,
                self.rooms@[k - 1].center_spec().1,
                (#[trigger] self.rooms@[k]).center_spec().0,
                self.rooms@[k].center_spec().1,
            ) && crate::path::reachable(
                self,
                self.rooms@[k].center_spec().0,
                self.rooms@[k].center_spec().1,
                self.rooms@[k - 1].center_spec().0,
                self.rooms@[k - 1].center_spec().1,
            )
    }
}

/// Map connectivity: when consecutive room centers are linked, any two
/// room centers are connected by a walkable route, so a route search
/// between them cannot fail.
pub proof fn lemma_center_chain(m: GridMap, i: int, j: int)
    requires
        m.centers_linked(),
        0 <= i < m.rooms@.len(),
        0 <= j < m.rooms@.len(),
        i != j,
    ensures
        crate::path::reachable(
            m,
            m.rooms@[i].center_spec().0,
            m.rooms@[i].center_spec().1,
            m.rooms@[j].center_spec().0,
            m.rooms@[j].center_spec().1,
        ),
    decreases (if j > i { j - i } else { i - j }),
{
    if j == i + 1 {
        assert(1 <= j < m.rooms@.len());
    } else if j == i - 1 {
        assert(1 <= i < m.rooms@.len());
    } else if j > i {
        lemma_center_chain(m, i, j - 1);
        assert(1 <= j < m.rooms@.len());
        crate::path::lemma_reachable_trans(
            m,
            m.rooms@[i].center_spec().0,
            m.rooms@[i].center_spec().1,
            m.rooms@[j - 1].center_spec().0,
            m.rooms@[j - 1].center_spec().1,
            m.rooms@[j].center_spec().0,
            m.rooms@[j].center_spec().1,
        );
    } else {
        lemma_center_chain(m, i, j + 1);
        assert(1 <= j + 1 < m.rooms@.len());
        crate::path::lemma_reachable_trans(
            m,
            m.rooms@[i].center_spec().0,
            m.rooms@[i].center_spec().1,
            m.rooms@[j + 1].center_spec().0,
            m.rooms@[j + 1].center_spec().1,
            m.rooms@[j].center_spec().0,
            m.rooms@[j].center_spec().1,
        );
    }
}

pub open spec fn min_spec(a: int, b: int) -> int {
    if a < b { a } else { b }
}

pub open spec fn max_spec(a: int, b: int) -> int {
    if a < b { b } else { a }
}

/// A coordinate inside a `w x h` grid has a row-major index inside the grid,
/// and that index stays far below machine limits for bounded dimensions.
pub proof fn lemma_row_major_bounds(w: int, h: int, x: int, y: int)
    requires
        0 < w <= MAP_DIM_LIMIT,
        0 < h <= MAP_DIM_LIMIT,
        0 <= x < w,
        0 <= y < h,
    ensures
        0 <= y * w + x < w * h,
        0 <= y * w <= y * w + x,
        w * h <= 0x1000000,
    {
        assert(0 <= y * w + x < w * h && 0 <= y * w && w * h <= 0x1000000) by (nonlinear_arith)
            requires 0 < w <= 4096, 0 < h <= 4096, 0 <= x < w, 0 <= y < h;
    }

/// Row-major indexing is injective on in-bounds coordinates.
pub proof fn lemma_row_major_injective(w: int, x1: int, y1: int, x2: int, y2: int)
    requires
        0 < w,
        0 <= x1 < w,
        0 <= x2 < w,
        y1 * w + x1 == y2 * w + x2,
    ensures
        x1 == x2,
        y1 == y2,
    {
        assert(x1 == x2 && y1 == y2) by (nonlinear_arith)
            requires 0 < w, 0 <= x1 < w, 0 <= x2 < w, y1 * w + x1 == y2 * w + x2;
    }

/// Glyph used when a tile is drawn.
pub fn tile_to_char(tile: &TileType) -> (r: &'static str)
    ensures
        tile is Floor ==> r@ == "."@,
        tile is Wall ==> r@ == "#"@,
{
    match tile {
        TileType::Floor => ".",
        TileType::Wall => "#",
    }
}

} // verus!
