use vstd::prelude::*;
use crate::grid::GridMap;
use crate::grid::MAP_DIM_LIMIT;
use crate::position::dist2;

verus! {

/// A grid cell held in a viewshed.
#[derive(Clone, Copy, Debug, PartialEq, Eq, Structural)]
pub struct Point {
    pub x: i32,
    pub y: i32,
}

/// Per-creature field of view: the set of tiles currently in sight, and the
/// sight radius. Recomputed whenever the owner's position changes.
#[derive(Clone, Debug)]
pub struct Viewshed {
    pub visible_tiles: Vec<Point>,
    pub range: i32,
}

pub open spec fn abs_s(a: int) -> int {
    if a < 0 {
        -a
    } else {
        a
    }
}

pub open spec fn sgn(a: int) -> int {
    if a > 0 {
        1
    } else if a < 0 {
        -1
    } else {
        0
    }
}

/// Number of samples on the discrete sight line between two cells: the
/// larger coordinate difference.
pub open spec fn line_len(x0: int, y0: int, x1: int, y1: int) -> int {
    if abs_s(x1 - x0) < abs_s(y1 - y0) {
        abs_s(y1 - y0)
    } else {
        abs_s(x1 - x0)
    }
}

/// Rounded interpolation: `c / n` rounded to the nearest integer
/// (halves rounding up), for 0 < n.
pub open spec fn rd(c: int, n: int) -> int {
    (2 * c + n) / (2 * n)
}

/// X coordinate of the t-th sample on the sight line from x0 to x1, with n
/// samples in total.
pub open spec fn sample_x(x0: int, x1: int, t: int, n: int) -> int {
    x0 + sgn(x1 - x0) * rd(t * abs_s(x1 - x0), n)
}

/// The straight sight line from (x0, y0) to (x1, y1) crosses no wall
/// strictly between its endpoints, so the far cell can be seen (walls
/// themselves are visible from adjacent open cells).
pub open spec fn los_clear(m: GridMap, x0: int, y0: int, x1: int, y1: int) -> bool {
    forall|t: int|
        0 < t < line_len(x0, y0, x1, y1) ==> !m.opaque_at(
            #[trigger] sample_x(x0, x1, t, line_len(x0, y0, x1, y1)),
            sample_x(y0, y1, t, line_len(x0, y0, x1, y1)),
        )
}

/// A cell is visible from an origin within a sight radius when it is on the
/// map, within the radius (by squared Euclidean distance) and the line of
/// sight to it is unobstructed.
pub open spec fn visible(m: GridMap, ox: int, oy: int, range: int, x: int, y: int) -> bool {
    &&& m.in_bounds(x, y)
    &&& dist2(ox, oy, x, y) <= range * range
    &&& los_clear(m, ox, oy, x, y)
}

/// The interpolated offset stays between 0 and the total difference.
proof fn lemma_rd_bounds(c: int, cmax: int, n: int)
    requires
        0 < n,
        0 <= cmax,
        0 <= c <= n * cmax,
    ensures
        0 <= rd(c, n) <= cmax,
{
    let d = 2 * n;
    let x = 2 * c + n;
    let q = x / d;
    let r = x % d;
    vstd::arithmetic::div_mod::lemma_fundamental_div_mod(x, d);
    vstd::arithmetic::div_mod::lemma_mod_division_less_than_divisor(x, d);
    assert(0 <= q <= cmax) by (nonlinear_arith)
        requires
            0 < n,
            0 <= cmax,
            0 <= c <= n * cmax,
            d == 2 * n,
            x == 2 * c + n,
            x == d * q + r,
            0 <= r < d,
    ;
}

/// A point within `range` squared distance lies inside the axis-aligned
/// box of half-width `range` around the origin.
pub proof fn lemma_visible_box(ox: int, oy: int, range: int, a: int, b: int)
    requires
        0 <= range,
        dist2(ox, oy, a, b) <= range * range,
    ensures
        ox - range <= a <= ox + range,
        oy - range <= b <= oy + range,
{
    assert((ox - a) * (ox - a) + (oy - b) * (oy - b) <= range * range
        ==> (ox - range <= a <= ox + range && oy - range <= b <= oy + range))
        by (nonlinear_arith)
        requires 0 <= range;
}

/// Tests the discrete sight line between two cells for walls, excluding
/// both endpoints.
pub fn line_clear(map: &GridMap, x0: i32, y0: i32, x1: i32, y1: i32) -> (r: bool)
    requires
        map.inv(),
        map.in_bounds(x0 as int, y0 as int),
        map.in_bounds(x1 as int, y1 as int),
    ensures
        r == los_clear(*map, x0 as int, y0 as int, x1 as int, y1 as int),
{
    let dx: i64 = x1 as i64 - x0 as i64;
    let dy: i64 = y1 as i64 - y0 as i64;
    let adx: i64 = if dx < 0 { -dx } else { dx };
    let ady: i64 = if dy < 0 { -dy } else { dy };
    let sx: i64 = if dx > 0 { 1 } else if dx < 0 { -1 } else { 0 };
    let sy: i64 = if dy > 0 { 1 } else if dy < 0 { -1 } else { 0 };
    let n: i64 = if adx < ady { ady } else { adx };
    let ghost gn = line_len(x0 as int, y0 as int, x1 as int, y1 as int);
    assert(n == gn);
    let mut t: i64 = 1;
    while t < n
        invariant
            map.inv(),
            map.in_bounds(x0 as int, y0 as int),
            map.in_bounds(x1 as int, y1 as int),
            dx == x1 - x0,
            dy == y1 - y0,
            adx == abs_s(dx as int),
            ady == abs_s(dy as int),
            sx == sgn(dx as int),
            sy == sgn(dy as int),
            n == gn,
            gn == line_len(x0 as int, y0 as int, x1 as int, y1 as int),
            1 <= t,
            t <= n || n < 1,
            forall|u: int|
                0 < u < t ==> !map.opaque_at(
                    #[trigger] sample_x(x0 as int, x1 as int, u, gn),
                    sample_x(y0 as int, y1 as int, u, gn),
                ),
        decreases n - t,
    {
        proof {
            assert(0 <= t * adx < 0x1000000 && 0 <= t * ady < 0x1000000) by (nonlinear_arith)
                requires 0 <= t < 4096, 0 <= adx < 4096, 0 <= ady < 4096;
        }
        let cx: i64 = t * adx;
        let cy: i64 = t * ady;
        let qx: i64 = (2 * cx + n) / (2 * n);
        let qy: i64 = (2 * cy + n) / (2 * n);
        let xt: i64 = x0 as i64 + sx * qx;
        let yt: i64 = y0 as i64 + sy * qy;
        proof {
            assert(0 <= t * adx <= n * adx && 0 <= t * ady <= n * ady) by (nonlinear_arith)
                requires 0 < t < n, 0 <= adx, 0 <= ady;
            lemma_rd_bounds(t * adx, adx as int, n as int);
            lemma_rd_bounds(t * ady, ady as int, n as int);
            assert(qx == rd(t * adx, n as int));
            assert(qy == rd(t * ady, n as int));
            assert(xt == sample_x(x0 as int, x1 as int, t as int, gn));
            assert(yt == sample_x(y0 as int, y1 as int, t as int, gn));
            assert(map.in_bounds(xt as int, yt as int));
        }
        let idx = map.xy_idx(xt as i32, yt as i32);
        if map.is_opaque(idx) {
            proof {
                assert(map.opaque_at(
                    sample_x(x0 as int, x1 as int, t as int, gn),
                    sample_x(y0 as int, y1 as int, t as int, gn),
                ));
            }
            return false;
        }
        t = t + 1;
    }
    true
}

/// The point with the given coordinates.
pub open spec fn pt(x: i32, y: i32) -> Point {
    Point { x, y }
}

/// Recomputes a field of view from scratch: exactly the cells within the
/// sight radius whose line of sight from the origin is unobstructed,
/// clipped to the map bounds.
pub fn compute_fov(map: &GridMap, ox: i32, oy: i32, range: i32) -> (r: Vec<Point>)
    requires
        map.inv(),
        map.in_bounds(ox as int, oy as int),
        0 <= range <= MAP_DIM_LIMIT,
    ensures
        forall|i: int|
            0 <= i < r@.len() ==> visible(
                *map, ox as int, oy as int, range as int,
                (#[trigger] r@[i]).x as int, r@[i].y as int,
            ),
        forall|a: i32, b: i32|
            visible(*map, ox as int, oy as int, range as int, a as int, b as int)
                ==> r@.contains(#[trigger] pt(a, b)),
{
    let mut r: Vec<Point> = Vec::new();
    let y_lo: i32 = if oy > range { oy - range } else { 0 };
    let y_hi: i32 = if oy + range < map.height - 1 { oy + range } else { map.height - 1 };
    let x_lo: i32 = if ox > range { ox - range } else { 0 };
    let x_hi: i32 = if ox + range < map.width - 1 { ox + range } else { map.width - 1 };
    let mut y: i32 = y_lo;
    proof {
        assert forall|a: i32, b: i32|
            visible(*map, ox as int, oy as int, range as int, a as int, b as int) && b < y_lo
                implies r@.contains(#[trigger] pt(a, b)) by {
            lemma_visible_box(ox as int, oy as int, range as int, a as int, b as int);
        }
    }
    while y <= y_hi
        invariant
            map.inv(),
            map.in_bounds(ox as int, oy as int),
            0 <= range <= MAP_DIM_LIMIT,
            y_lo == if oy > range { oy - range } else { 0 },
            y_hi == if oy + range < map.height - 1 { oy + range } else { map.height - 1 },
            x_lo == if ox > range { ox - range } else { 0 },
            x_hi == if ox + range < map.width - 1 { ox + range } else { map.width - 1 },
            y_lo <= y <= y_hi + 1,
            forall|i: int|
                0 <= i < r@.len() ==> visible(
                    *map, ox as int, oy as int, range as int,
                    (#[trigger] r@[i]).x as int, r@[i].y as int,
                ),
            forall|a: i32, b: i32|
                visible(*map, ox as int, oy as int, range as int, a as int, b as int) && b < y
                    ==> r@.contains(#[trigger] pt(a, b)),
        decreases y_hi + 1 - y,
    {
        let mut x: i32 = x_lo;
        proof {
            assert forall|a: i32, b: i32|
                visible(*map, ox as int, oy as int, range as int, a as int, b as int)
                    && (b < y || (b == y && a < x_lo))
                    implies r@.contains(#[trigger] pt(a, b)) by {
                if b == y && a < x_lo {
                    lemma_visible_box(ox as int, oy as int, range as int, a as int, b as int);
                }
            }
        }
        while x <= x_hi
            invariant
                map.inv(),
                map.in_bounds(ox as int, oy as int),
                0 <= range <= MAP_DIM_LIMIT,
                y_lo == if oy > range { oy - range } else { 0 },
                y_hi == if oy + range < map.height - 1 { oy + range } else { map.height - 1 },
                x_lo == if ox > range { ox - range } else { 0 },
                x_hi == if ox + range < map.width - 1 { ox + range } else { map.width - 1 },
                y_lo <= y <= y_hi,
                x_lo <= x <= x_hi + 1,
                forall|i: int|
                    0 <= i < r@.len() ==> visible(
                        *map, ox as int, oy as int, range as int,
                        (#[trigger] r@[i]).x as int, r@[i].y as int,
                    ),
                forall|a: i32, b: i32|
                    visible(*map, ox as int, oy as int, range as int, a as int, b as int)
                        && (b < y || (b == y && a < x))
                        ==> r@.contains(#[trigger] pt(a, b)),
            decreases x_hi + 1 - x,
        {
            let ddx: i64 = ox as i64 - x as i64;
            let ddy: i64 = oy as i64 - y as i64;
            proof {
                assert(ddx * ddx + ddy * ddy < 0x10000000 && ddx * ddx >= 0 && ddy * ddy >= 0)
                    by (nonlinear_arith)
                    requires -8192 <= ddx <= 8192, -8192 <= ddy <= 8192;
                assert((range as i64) * (range as i64) < 0x10000000 && (range as i64) * (range as i64) >= 0)
                    by (nonlinear_arith)
                    requires 0 <= range <= 4096;
            }
            let dd: i64 = ddx * ddx + ddy * ddy;
            let within = dd <= (range as i64) * (range as i64);
            let ghost old_r = r@;
            if within {
                if line_clear(map, ox, oy, x, y) {
                    r.push(Point { x, y });
                }
            }
            proof {
                if within {
                    assert(dist2(ox as int, oy as int, x as int, y as int) == dd);
                }
                assert forall|a: i32, b: i32|
                    visible(*map, ox as int, oy as int, range as int, a as int, b as int)
                        && (b < y || (b == y && a < x + 1))
                        implies r@.contains(#[trigger] pt(a, b)) by {
                    if b == y && a == x {
                        assert(within) by {
                            assert(dist2(ox as int, oy as int, a as int, b as int)
                                <= (range as int) * (range as int));
                        };
                        assert(r@[r@.len() - 1] == pt(a, b));
                    } else {
                        assert(old_r.contains(pt(a, b)));
                        let i = choose|i: int| 0 <= i < old_r.len() && old_r[i] == pt(a, b);
                        assert(r@[i] == pt(a, b));
                    }
                }
            }
            x = x + 1;
        }
        proof {
            assert forall|a: i32, b: i32|
                visible(*map, ox as int, oy as int, range as int, a as int, b as int) && b < y + 1
                    implies r@.contains(#[trigger] pt(a, b)) by {
                if b == y {
                    lemma_visible_box(ox as int, oy as int, range as int, a as int, b as int);
                }
            }
        }
        y = y + 1;
    }
    proof {
        assert forall|a: i32, b: i32|
            visible(*map, ox as int, oy as int, range as int, a as int, b as int)
                implies r@.contains(#[trigger] pt(a, b)) by {
            lemma_visible_box(ox as int, oy as int, range as int, a as int, b as int);
        }
    }
    r
}

/// The viewshed holds exactly the cells visible from (px, py) within its
/// range: everything it lists is visible, and every visible cell is
/// listed.
pub open spec fn viewshed_exact(m: GridMap, v: Viewshed, px: int, py: int) -> bool {
    &&& forall|idx: int|
        0 <= idx < v.visible_tiles@.len() ==> visible(
            m,
            px,
            py,
            v.range as int,
            (#[trigger] v.visible_tiles@[idx]).x as int,
            v.visible_tiles@[idx].y as int,
        )
    &&& forall|a: i32, b: i32|
        visible(m, px, py, v.range as int, a as int, b as int) ==> v.visible_tiles@.contains(
            #[trigger] pt(a, b),
        )
}

/// The entity's field of view is recomputed this tick: it is a living,
/// sighted, placed entity.
pub open spec fn vs_due(w: crate::world::World, k: int) -> bool {
    &&& 0 <= k < w.n()
    &&& w.ents@[k].alive
    &&& w.ents@[k].viewshed is Some
    &&& w.ents@[k].position is Some
}

/// Visibility recompute: every living, sighted, placed entity's viewshed
/// is rebuilt from scratch from its current position — exactly the
/// in-range cells with an unobstructed line of sight, clipped to the map.
/// Every listed cell lies on the map within the squared sight radius.
pub fn calculate_viewshed(world: &mut crate::world::World, map: &GridMap)
    requires
        map.inv(),
        old(world).wf(*map),
    ensures
        final(world).wf(*map),
        final(world).n() == old(world).n(),
        forall|k: int|
            0 <= k < old(world).n() ==> #[trigger] final(world).ents@[k]
                == (crate::world::EntityData {
                viewshed: final(world).ents@[k].viewshed,
                ..old(world).ents@[k]
            }),
        forall|k: int|
            0 <= k < old(world).n() ==> (if vs_due(*old(world), k) {
                ((#[trigger] final(world).ents@[k]).viewshed matches Some(v)
                    && old(world).ents@[k].viewshed matches Some(v0) && v.range == v0.range
                    && (old(world).ents@[k].position matches Some(p) && viewshed_exact(
                    *map,
                    v,
                    p.0 as int,
                    p.1 as int,
                )))
            } else {
                final(world).ents@[k] == old(world).ents@[k]
            }),
{
    let ghost w0 = *world;
    let n = world.len();
    let mut i: usize = 0;
    while i < n
        invariant
            n == world.n(),
            n == w0.n(),
            map.inv(),
            world.wf(*map),
            i <= n,
            forall|k: int|
                0 <= k < w0.n() ==> #[trigger] world.ents@[k] == (crate::world::EntityData {
                    viewshed: world.ents@[k].viewshed,
                    ..w0.ents@[k]
                }),
            forall|k: int|
                0 <= k < w0.n() ==> (if vs_due(w0, k) && k < i {
                    ((#[trigger] world.ents@[k]).viewshed matches Some(v)
                        && w0.ents@[k].viewshed matches Some(v0) && v.range == v0.range
                        && (w0.ents@[k].position matches Some(p) && viewshed_exact(
                        *map,
                        v,
                        p.0 as int,
                        p.1 as int,
                    )))
                } else {
                    world.ents@[k] == w0.ents@[k]
                }),
        decreases n - i,
    {
        let rec = &world.ents[i];
        let due = rec.alive && rec.viewshed.is_some() && rec.position.is_some();
        if due {
            let pos = rec.position.unwrap();
            let range = match &world.ents[i].viewshed {
                Some(v) => v.range,
                None => 0,
            };
            proof {
                assert(crate::world::wf_ent(*map, w0.ents@[i as int]));
            }
            let tiles = compute_fov(map, pos.0, pos.1, range);
            let ghost pre = *world;
            let mut erec = world.extract(i);
            erec.viewshed = Some(Viewshed { visible_tiles: tiles, range });
            world.store(i, erec);
            proof {
                assert(vs_due(w0, i as int));
                assert forall|k: int|
                    0 <= k < w0.n() implies #[trigger] world.ents@[k]
                        == (crate::world::EntityData {
                        viewshed: world.ents@[k].viewshed,
                        ..w0.ents@[k]
                    }) by {
                    if k != i as int {
                        assert(world.ents@[k] == pre.ents@[k]);
                    }
                }
            }
        } else {
            proof {
                assert(!vs_due(w0, i as int));
            }
        }
        i = i + 1;
    }
}

} // verus!
