use vstd::prelude::*;
use vstd::arithmetic::div_mod::lemma_fundamental_div_mod;
use vstd::arithmetic::div_mod::lemma_fundamental_div_mod_converse_div;
use vstd::arithmetic::div_mod::lemma_fundamental_div_mod_converse_mod;
use vstd::arithmetic::div_mod::lemma_mod_division_less_than_divisor;
use vstd::set_lib::lemma_len_subset;
use vstd::set_lib::lemma_int_range;
use vstd::set_lib::set_int_range;
use crate::fov::abs_s;
use crate::grid::GridMap;
use crate::position::Position;

verus! {

/// Marker: this entity can move.
#[derive(Clone, Copy, Debug, PartialEq, Eq, Structural)]
pub struct Moves;

/// An ordered waypoint route plus a cursor; owned by the creature that
/// requested it and dropped when the destination changes or is reached.
#[derive(Clone, Debug)]
pub struct Path {
    pub current: Vec<(i32, i32)>,
    pub index: usize,
    pub destination: Position,
}

/// A cell creatures can stand on: on the map and not a wall.
pub open spec fn traversable(m: GridMap, x: int, y: int) -> bool {
    m.in_bounds(x, y) && !m.opaque_at(x, y)
}

/// One orthogonal step separates the two cells.
pub open spec fn adjacent(ax: int, ay: int, bx: int, by: int) -> bool {
    abs_s(ax - bx) + abs_s(ay - by) == 1
}

/// Column of a row-major tile index.
pub open spec fn ix(w: int, u: int) -> int {
    u % w
}

/// Row of a row-major tile index.
pub open spec fn iy(w: int, u: int) -> int {
    u / w
}

/// `s` is a walkable route: it starts at `(sx, sy)`, ends at `(dx, dy)`,
/// and every later waypoint is one orthogonal step from its predecessor and
/// stands on open floor.
pub open spec fn is_route(
    m: GridMap,
    s: Seq<(i32, i32)>,
    sx: int,
    sy: int,
    dx: int,
    dy: int,
) -> bool {
    &&& s.len() >= 1
    &&& s[0].0 == sx
    &&& s[0].1 == sy
    &&& s[s.len() - 1].0 == dx
    &&& s[s.len() - 1].1 == dy
    &&& forall|i: int|
        1 <= i < s.len() ==> adjacent(
            s[i - 1].0 as int,
            s[i - 1].1 as int,
            (#[trigger] s[i]).0 as int,
            s[i].1 as int,
        ) && traversable(m, s[i].0 as int, s[i].1 as int)
}

/// Some walkable route connects the two cells.
pub open spec fn reachable(m: GridMap, sx: int, sy: int, dx: int, dy: int) -> bool {
    exists|s: Seq<(i32, i32)>| is_route(m, s, sx, sy, dx, dy)
}

/// If the neighbor cell is walkable, it has been visited.
pub open spec fn nb_visited(m: GridMap, vis: Seq<bool>, x: int, y: int) -> bool {
    traversable(m, x, y) ==> vis[m.idx_of(x, y)]
}

/// All four orthogonal neighbors of a cell satisfy `nb_visited`.
pub open spec fn nb4_visited(m: GridMap, vis: Seq<bool>, x: int, y: int) -> bool {
    &&& nb_visited(m, vis, x + 1, y)
    &&& nb_visited(m, vis, x - 1, y)
    &&& nb_visited(m, vis, x, y + 1)
    &&& nb_visited(m, vis, x, y - 1)
}

/// If the neighbor cell is walkable, it has been visited and lies within
/// breadth layer `d`.
pub open spec fn nb_reached(
    m: GridMap,
    vis: Seq<bool>,
    dist: Seq<usize>,
    x: int,
    y: int,
    d: int,
) -> bool {
    traversable(m, x, y) ==> vis[m.idx_of(x, y)] && dist[m.idx_of(x, y)] <= d
}

/// All four orthogonal neighbors of a cell satisfy `nb_reached`.
pub open spec fn nb4_reached(
    m: GridMap,
    vis: Seq<bool>,
    dist: Seq<usize>,
    x: int,
    y: int,
    d: int,
) -> bool {
    &&& nb_reached(m, vis, dist, x + 1, y, d)
    &&& nb_reached(m, vis, dist, x - 1, y, d)
    &&& nb_reached(m, vis, dist, x, y + 1, d)
    &&& nb_reached(m, vis, dist, x, y - 1, d)
}

/// The cell's visited flag, under a name that quantifiers can key on.
pub open spec fn cell_visited(m: GridMap, vis: Seq<bool>, x: int, y: int) -> bool {
    vis[m.idx_of(x, y)]
}

/// The visited set is closed under walkable orthogonal steps.
pub open spec fn visited_closed(m: GridMap, vis: Seq<bool>) -> bool {
    forall|x: int, y: int|
        m.in_bounds(x, y) && #[trigger] cell_visited(m, vis, x, y) ==> nb4_visited(m, vis, x, y)
}

/// Every visited non-start cell is walkable and records a visited parent one
/// orthogonal step away, one breadth layer closer to the start.
pub open spec fn parents_ok(
    m: GridMap,
    vis: Seq<bool>,
    par: Seq<usize>,
    dist: Seq<usize>,
    start: int,
) -> bool {
    forall|u: int|
        0 <= u < vis.len() && vis[u] && u != start ==> traversable(
            m,
            ix(m.width as int, u),
            iy(m.width as int, u),
        ) && 0 <= #[trigger] par[u] < vis.len() && vis[par[u] as int] && adjacent(
            ix(m.width as int, par[u] as int),
            iy(m.width as int, par[u] as int),
            ix(m.width as int, u),
            iy(m.width as int, u),
        ) && dist[u] == dist[par[u] as int] + 1
}

/// Splits a row-major index of a bounded grid into its coordinates.
proof fn lemma_idx_coords(w: int, h: int, u: int)
    requires
        0 < w,
        0 < h,
        0 <= u < w * h,
    ensures
        0 <= ix(w, u) < w,
        0 <= iy(w, u) < h,
        iy(w, u) * w + ix(w, u) == u,
{
    lemma_fundamental_div_mod(u, w);
    lemma_mod_division_less_than_divisor(u, w);
    assert(0 <= u % w < w && 0 <= u / w < h && (u / w) * w + (u % w) == u) by (nonlinear_arith)
        requires
            0 < w,
            0 < h,
            0 <= u < w * h,
            u == w * (u / w) + (u % w),
            0 <= u % w < w,
    ;
}

/// A row-major index decomposes back into the coordinates it was built from.
proof fn lemma_coords_idx(w: int, x: int, y: int)
    requires
        0 < w,
        0 <= x < w,
        0 <= y,
    ensures
        ix(w, y * w + x) == x,
        iy(w, y * w + x) == y,
{
    lemma_fundamental_div_mod_converse_div(y * w + x, w, y, x);
    lemma_fundamental_div_mod_converse_mod(y * w + x, w, y, x);
}

/// Walking a route from a visited start through a closed visited set stays
/// inside the visited set.
proof fn lemma_route_visited(
    m: GridMap,
    vis: Seq<bool>,
    s: Seq<(i32, i32)>,
    sx: int,
    sy: int,
    dx: int,
    dy: int,
    i: int,
)
    requires
        m.inv(),
        vis.len() == m.width * m.height,
        visited_closed(m, vis),
        is_route(m, s, sx, sy, dx, dy),
        m.in_bounds(sx, sy),
        vis[m.idx_of(sx, sy)],
        0 <= i < s.len(),
    ensures
        m.in_bounds(s[i].0 as int, s[i].1 as int),
        vis[m.idx_of(s[i].0 as int, s[i].1 as int)],
    decreases i,
{
    let w = m.width as int;
    if i == 0 {
        lemma_row_major_bounds_wrap(m, sx, sy);
    } else {
        lemma_route_visited(m, vis, s, sx, sy, dx, dy, i - 1);
        let px = s[i - 1].0 as int;
        let py = s[i - 1].1 as int;
        let cx = s[i].0 as int;
        let cy = s[i].1 as int;
        assert(adjacent(px, py, cx, cy) && traversable(m, cx, cy));
        assert(vis[m.idx_of(px, py)]);
        assert(cell_visited(m, vis, px, py));
        assert(nb4_visited(m, vis, px, py));
        if cx == px + 1 && cy == py {
            assert(nb_visited(m, vis, px + 1, py));
        } else if cx == px - 1 && cy == py {
            assert(nb_visited(m, vis, px - 1, py));
        } else if cx == px && cy == py + 1 {
            assert(nb_visited(m, vis, px, py + 1));
        } else {
            assert(cx == px && cy == py - 1);
            assert(nb_visited(m, vis, px, py - 1));
        }
    }
}

/// Restates the index-bound lemma in terms of a map.
proof fn lemma_row_major_bounds_wrap(m: GridMap, x: int, y: int)
    requires
        m.inv(),
        m.in_bounds(x, y),
    ensures
        0 <= m.idx_of(x, y) < m.width * m.height,
        ix(m.width as int, m.idx_of(x, y)) == x,
        iy(m.width as int, m.idx_of(x, y)) == y,
{
    crate::grid::lemma_row_major_bounds(m.width as int, m.height as int, x, y);
    lemma_coords_idx(m.width as int, x, y);
}

/// Routes survive carving: a map change of the same dimensions that only
/// ever turns walls into floor keeps every route walkable.
pub proof fn lemma_route_monotone(
    m1: GridMap,
    m2: GridMap,
    s: Seq<(i32, i32)>,
    ax: int,
    ay: int,
    bx: int,
    by: int,
)
    requires
        m1.width == m2.width,
        m1.height == m2.height,
        forall|x: int, y: int|
            m1.in_bounds(x, y) && !m1.opaque_at(x, y) ==> !(#[trigger] m2.opaque_at(x, y)),
        is_route(m1, s, ax, ay, bx, by),
    ensures
        is_route(m2, s, ax, ay, bx, by),
{
    assert forall|i: int|
        1 <= i < s.len() implies adjacent(
            s[i - 1].0 as int,
            s[i - 1].1 as int,
            (#[trigger] s[i]).0 as int,
            s[i].1 as int,
        ) && traversable(m2, s[i].0 as int, s[i].1 as int) by {
        assert(traversable(m1, s[i].0 as int, s[i].1 as int));
        assert(!m2.opaque_at(s[i].0 as int, s[i].1 as int));
    }
}

/// Reachability survives carving.
pub proof fn lemma_reachable_monotone(
    m1: GridMap,
    m2: GridMap,
    ax: int,
    ay: int,
    bx: int,
    by: int,
)
    requires
        m1.width == m2.width,
        m1.height == m2.height,
        forall|x: int, y: int|
            m1.in_bounds(x, y) && !m1.opaque_at(x, y) ==> !(#[trigger] m2.opaque_at(x, y)),
        reachable(m1, ax, ay, bx, by),
    ensures
        reachable(m2, ax, ay, bx, by),
{
    let s = choose|s: Seq<(i32, i32)>| is_route(m1, s, ax, ay, bx, by);
    lemma_route_monotone(m1, m2, s, ax, ay, bx, by);
    assert(is_route(m2, s, ax, ay, bx, by));
}

/// Reachability is transitive: two routes glue at their shared endpoint.
pub proof fn lemma_reachable_trans(
    m: GridMap,
    ax: int,
    ay: int,
    bx: int,
    by: int,
    cx: int,
    cy: int,
)
    requires
        reachable(m, ax, ay, bx, by),
        reachable(m, bx, by, cx, cy),
    ensures
        reachable(m, ax, ay, cx, cy),
{
    let s1 = choose|s: Seq<(i32, i32)>| is_route(m, s, ax, ay, bx, by);
    let s2 = choose|s: Seq<(i32, i32)>| is_route(m, s, bx, by, cx, cy);
    let glued = s1 + s2.skip(1);
    assert(glued.len() == s1.len() + s2.len() - 1);
    assert(glued[0] == s1[0]);
    assert(glued[glued.len() - 1] == if s2.len() == 1 {
        s1[s1.len() - 1]
    } else {
        s2[s2.len() - 1]
    });
    assert forall|i: int|
        1 <= i < glued.len() implies adjacent(
            glued[i - 1].0 as int,
            glued[i - 1].1 as int,
            (#[trigger] glued[i]).0 as int,
            glued[i].1 as int,
        ) && traversable(m, glued[i].0 as int, glued[i].1 as int) by {
        if i < s1.len() {
            assert(glued[i] == s1[i]);
            assert(glued[i - 1] == s1[i - 1]);
        } else if i == s1.len() {
            assert(glued[i] == s2[1]);
            assert(glued[i - 1] == s1[s1.len() - 1]);
            assert(s2[0].0 == bx && s2[0].1 == by);
        } else {
            assert(glued[i] == s2[i - s1.len() + 1]);
            assert(glued[i - 1] == s2[i - s1.len()]);
        }
    }
    assert(is_route(m, glued, ax, ay, cx, cy));
}

/// A row of walkable cells carries a route between its two end columns.
pub proof fn lemma_straight_route_x(m: GridMap, x1: int, x2: int, y: int)
    requires
        m.inv(),
        forall|x: int|
            crate::grid::min_spec(x1, x2) <= x <= crate::grid::max_spec(x1, x2)
                ==> #[trigger] traversable(m, x, y),
    ensures
        reachable(m, x1, y, x2, y),
    decreases abs_s(x2 - x1),
{
    assert(traversable(m, x1, y));
    assert(traversable(m, x2, y));
    if x1 == x2 {
        let s = seq![((x1 as i32), (y as i32))];
        assert(s[0].0 as int == x1 && s[0].1 as int == y);
        assert(is_route(m, s, x1, y, x2, y));
    } else {
        let nxt: int = if x2 > x1 {
            x2 - 1
        } else {
            x2 + 1
        };
        lemma_straight_route_x(m, x1, nxt, y);
        let s = choose|s: Seq<(i32, i32)>| is_route(m, s, x1, y, nxt, y);
        let s2 = s.push(((x2 as i32), (y as i32)));
        assert forall|i: int|
            1 <= i < s2.len() implies adjacent(
                s2[i - 1].0 as int,
                s2[i - 1].1 as int,
                (#[trigger] s2[i]).0 as int,
                s2[i].1 as int,
            ) && traversable(m, s2[i].0 as int, s2[i].1 as int) by {
            if i < s.len() {
                assert(s2[i] == s[i]);
                assert(s2[i - 1] == s[i - 1]);
            } else {
                assert(s2[i] == ((x2 as i32), (y as i32)));
                assert(s2[i - 1] == s[s.len() - 1]);
            }
        }
        assert(is_route(m, s2, x1, y, x2, y));
    }
}

/// A column of walkable cells carries a route between its two end rows.
pub proof fn lemma_straight_route_y(m: GridMap, y1: int, y2: int, x: int)
    requires
        m.inv(),
        forall|y: int|
            crate::grid::min_spec(y1, y2) <= y <= crate::grid::max_spec(y1, y2)
                ==> #[trigger] traversable(m, x, y),
    ensures
        reachable(m, x, y1, x, y2),
    decreases abs_s(y2 - y1),
{
    assert(traversable(m, x, y1));
    assert(traversable(m, x, y2));
    if y1 == y2 {
        let s = seq![((x as i32), (y1 as i32))];
        assert(s[0].0 as int == x && s[0].1 as int == y1);
        assert(is_route(m, s, x, y1, x, y2));
    } else {
        let nxt: int = if y2 > y1 {
            y2 - 1
        } else {
            y2 + 1
        };
        lemma_straight_route_y(m, y1, nxt, x);
        let s = choose|s: Seq<(i32, i32)>| is_route(m, s, x, y1, x, nxt);
        let s2 = s.push(((x as i32), (y2 as i32)));
        assert forall|i: int|
            1 <= i < s2.len() implies adjacent(
                s2[i - 1].0 as int,
                s2[i - 1].1 as int,
                (#[trigger] s2[i]).0 as int,
                s2[i].1 as int,
            ) && traversable(m, s2[i].0 as int, s2[i].1 as int) by {
            if i < s.len() {
                assert(s2[i] == s[i]);
                assert(s2[i - 1] == s[i - 1]);
            } else {
                assert(s2[i] == ((x as i32), (y2 as i32)));
                assert(s2[i - 1] == s[s.len() - 1]);
            }
        }
        assert(is_route(m, s2, x, y1, x, y2));
    }
}

/// Growing the visited set without touching the layers of already visited
/// cells preserves `nb4_reached`.
proof fn lemma_nb4_reached_stable(
    m: GridMap,
    vis1: Seq<bool>,
    vis2: Seq<bool>,
    dist1: Seq<usize>,
    dist2: Seq<usize>,
    x: int,
    y: int,
    d: int,
)
    requires
        m.inv(),
        vis1.len() == m.width * m.height,
        vis2.len() == vis1.len(),
        dist1.len() == vis1.len(),
        dist2.len() == vis1.len(),
        forall|i: int| 0 <= i < vis1.len() && #[trigger] vis1[i] ==> vis2[i] && dist2[i] == dist1[i],
        nb4_reached(m, vis1, dist1, x, y, d),
    ensures
        nb4_reached(m, vis2, dist2, x, y, d),
{
    if traversable(m, x + 1, y) {
        lemma_row_major_bounds_wrap(m, x + 1, y);
        assert(vis1[m.idx_of(x + 1, y)]);
    }
    if traversable(m, x - 1, y) {
        lemma_row_major_bounds_wrap(m, x - 1, y);
        assert(vis1[m.idx_of(x - 1, y)]);
    }
    if traversable(m, x, y + 1) {
        lemma_row_major_bounds_wrap(m, x, y + 1);
        assert(vis1[m.idx_of(x, y + 1)]);
    }
    if traversable(m, x, y - 1) {
        lemma_row_major_bounds_wrap(m, x, y - 1);
        assert(vis1[m.idx_of(x, y - 1)]);
    }
}

/// Growing the visited set without touching the layers of already visited
/// cells preserves `nb_reached` for one cell.
proof fn lemma_nb_reached_stable(
    m: GridMap,
    vis1: Seq<bool>,
    vis2: Seq<bool>,
    dist1: Seq<usize>,
    dist2: Seq<usize>,
    x: int,
    y: int,
    d: int,
)
    requires
        m.inv(),
        vis1.len() == m.width * m.height,
        vis2.len() == vis1.len(),
        dist1.len() == vis1.len(),
        dist2.len() == vis1.len(),
        forall|i: int| 0 <= i < vis1.len() && #[trigger] vis1[i] ==> vis2[i] && dist2[i] == dist1[i],
        nb_reached(m, vis1, dist1, x, y, d),
    ensures
        nb_reached(m, vis2, dist2, x, y, d),
{
    if traversable(m, x, y) {
        lemma_row_major_bounds_wrap(m, x, y);
        assert(vis1[m.idx_of(x, y)]);
    }
}

/// Index `i` occurs somewhere in the queue.
pub open spec fn in_queue(q: Seq<usize>, i: int) -> bool {
    exists|k: int| 0 <= k < q.len() && #[trigger] q[k] == i
}

/// Working state of the breadth-first search: sizes line up, every queued
/// index is a visited in-range tile, every visited tile is queued, parents
/// record a valid walk tree, every fully processed queue entry has all its
/// walkable neighbors visited and is not the destination, and the ghost set
/// mirrors the visited flags (it bounds the breadth layers and pays for
/// termination).
pub open spec fn bfs_inv(
    m: GridMap,
    vis: Seq<bool>,
    par: Seq<usize>,
    dist: Seq<usize>,
    q: Seq<usize>,
    head: int,
    start: int,
    dest: int,
    vset: Set<int>,
) -> bool {
    &&& vis.len() == m.width * m.height
    &&& par.len() == vis.len()
    &&& dist.len() == vis.len()
    &&& 0 <= start < vis.len()
    &&& vis[start]
    &&& 0 <= dest < vis.len()
    &&& 0 <= head <= q.len()
    &&& forall|k: int| 0 <= k < q.len() ==> 0 <= #[trigger] q[k] < vis.len() && vis[q[k] as int]
    &&& forall|i: int| 0 <= i < vis.len() && #[trigger] vis[i] ==> in_queue(q, i)
    &&& parents_ok(m, vis, par, dist, start)
    &&& dist[start] == 0
    &&& forall|k: int|
        0 <= k < head ==> nb4_reached(
            m,
            vis,
            dist,
            ix(m.width as int, #[trigger] q[k] as int),
            iy(m.width as int, q[k] as int),
            dist[q[k] as int] + 1,
        )
    &&& forall|k: int| 0 <= k < head ==> #[trigger] q[k] != dest
    &&& forall|k1: int, k2: int|
        0 <= k1 <= k2 < q.len() ==> dist[#[trigger] q[k1] as int] <= dist[#[trigger] q[k2] as int]
    &&& (head < q.len() ==> dist[q[q.len() - 1] as int] <= dist[q[head] as int] + 1)
    &&& vset.finite()
    &&& forall|i: int| #[trigger] vset.contains(i) <==> (0 <= i < vis.len() && vis[i])
    &&& vset.len() <= vis.len()
    &&& forall|i: int| 0 <= i < vis.len() && #[trigger] vis[i] ==> dist[i] < vset.len()
}

/// Walking any route from the start, after `i` steps one is either at a
/// visited cell within breadth layer `i`, or some not-yet-processed queue
/// entry already lies within layer `i`.
proof fn lemma_route_layers(
    m: GridMap,
    vis: Seq<bool>,
    par: Seq<usize>,
    dist: Seq<usize>,
    q: Seq<usize>,
    head: int,
    start: int,
    dest: int,
    vset: Set<int>,
    s: Seq<(i32, i32)>,
    sx: int,
    sy: int,
    ex: int,
    ey: int,
    i: int,
)
    requires
        m.inv(),
        bfs_inv(m, vis, par, dist, q, head, start, dest, vset),
        is_route(m, s, sx, sy, ex, ey),
        m.in_bounds(sx, sy),
        start == m.idx_of(sx, sy),
        0 <= i < s.len(),
    ensures
        ({
            let idx = m.idx_of(s[i].0 as int, s[i].1 as int);
            m.in_bounds(s[i].0 as int, s[i].1 as int) && 0 <= idx < vis.len() && vis[idx]
                && dist[idx] <= i
        }) || (exists|k: int| head <= k < q.len() && dist[#[trigger] q[k] as int] <= i),
    decreases i,
{
    let wi = m.width as int;
    if i == 0 {
        lemma_row_major_bounds_wrap(m, sx, sy);
    } else {
        lemma_route_layers(m, vis, par, dist, q, head, start, dest, vset, s, sx, sy, ex, ey, i - 1);
        if exists|k: int| head <= k < q.len() && dist[#[trigger] q[k] as int] <= i - 1 {
            let k = choose|k: int| head <= k < q.len() && dist[#[trigger] q[k] as int] <= i - 1;
            assert(dist[q[k] as int] <= i);
        } else {
            let px = s[i - 1].0 as int;
            let py = s[i - 1].1 as int;
            let cx = s[i].0 as int;
            let cy = s[i].1 as int;
            let pidx = m.idx_of(px, py);
            assert(vis[pidx] && dist[pidx] <= i - 1);
            assert(adjacent(px, py, cx, cy) && traversable(m, cx, cy));
            lemma_row_major_bounds_wrap(m, px, py);
            lemma_row_major_bounds_wrap(m, cx, cy);
            assert(in_queue(q, pidx));
            let k = choose|k: int| 0 <= k < q.len() && #[trigger] q[k] == pidx;
            if k < head {
                assert(nb4_reached(m, vis, dist, ix(wi, q[k] as int), iy(wi, q[k] as int),
                    dist[q[k] as int] + 1));
                assert(ix(wi, pidx) == px && iy(wi, pidx) == py);
                if cx == px + 1 && cy == py {
                    assert(nb_reached(m, vis, dist, px + 1, py, dist[pidx] + 1));
                } else if cx == px - 1 && cy == py {
                    assert(nb_reached(m, vis, dist, px - 1, py, dist[pidx] + 1));
                } else if cx == px && cy == py + 1 {
                    assert(nb_reached(m, vis, dist, px, py + 1, dist[pidx] + 1));
                } else {
                    assert(cx == px && cy == py - 1);
                    assert(nb_reached(m, vis, dist, px, py - 1, dist[pidx] + 1));
                }
                assert(vis[m.idx_of(cx, cy)] && dist[m.idx_of(cx, cy)] <= dist[pidx] + 1 <= i);
            } else {
                assert(head <= k < q.len() && dist[q[k] as int] <= i - 1 + 1);
                assert(dist[q[k] as int] <= i);
            }
        }
    }
}

/// Offers one neighbor cell to the search: if it is on the map, walkable
/// and not yet visited, it is marked visited and queued with the popped
/// cell as its parent.
#[verifier::rlimit(100)]
fn bfs_try_push(
    map: &GridMap,
    visited: &mut Vec<bool>,
    parent: &mut Vec<usize>,
    dist: &mut Vec<usize>,
    queue: &mut Vec<usize>,
    u: usize,
    nx: i64,
    ny: i64,
    head: usize,
    start_idx: usize,
    dest_idx: usize,
    vset: Ghost<Set<int>>,
) -> (res: Ghost<Set<int>>)
    requires
        map.inv(),
        bfs_inv(
            *map, old(visited)@, old(parent)@, old(dist)@, old(queue)@,
            head as int, start_idx as int, dest_idx as int, vset@,
        ),
        u < old(visited)@.len(),
        old(visited)@[u as int],
        head < old(queue)@.len(),
        old(queue)@[head as int] == u,
        adjacent(ix(map.width as int, u as int), iy(map.width as int, u as int), nx as int, ny as int),
    ensures
        bfs_inv(
            *map, final(visited)@, final(parent)@, final(dist)@, final(queue)@,
            head as int, start_idx as int, dest_idx as int, res@,
        ),
        forall|i: int|
            0 <= i < old(visited)@.len() && #[trigger] old(visited)@[i] ==> final(visited)@[i]
                && final(dist)@[i] == old(dist)@[i],
        final(visited)@.len() == old(visited)@.len(),
        nb_reached(
            *map,
            final(visited)@,
            final(dist)@,
            nx as int,
            ny as int,
            old(dist)@[u as int] + 1,
        ),
        old(queue)@.len() <= final(queue)@.len(),
        forall|k: int| 0 <= k < old(queue)@.len() ==> final(queue)@[k] == old(queue)@[k],
        res@.len() - vset@.len() == final(queue)@.len() - old(queue)@.len(),
        vset@.len() <= res@.len(),
{
    let ghost m = *map;
    let ghost wi = map.width as int;
    if 0 <= nx && nx < map.width as i64 && 0 <= ny && ny < map.height as i64 {
        let vi = map.xy_idx(nx as i32, ny as i32);
        proof {
            crate::grid::lemma_row_major_bounds(wi, map.height as int, nx as int, ny as int);
            lemma_coords_idx(wi, nx as int, ny as int);
        }
        if visited[vi] {
            proof {
                // an already visited neighbor is somewhere in the queue, so
                // its layer is bounded by the frontier's layer plus one
                assert(in_queue(queue@, vi as int));
                let k = choose|k: int| 0 <= k < queue@.len() && #[trigger] queue@[k] == vi as int;
                if k <= head as int {
                    assert(dist@[queue@[k] as int] <= dist@[queue@[head as int] as int]);
                } else {
                    assert(dist@[queue@[head as int] as int] <= dist@[queue@[k] as int]);
                    assert(dist@[queue@[queue@.len() - 1] as int] <= dist@[u as int] + 1);
                    assert(dist@[queue@[k] as int] <= dist@[queue@[queue@.len() - 1] as int]);
                }
                assert(dist@[vi as int] <= dist@[u as int] + 1);
            }
        }
        if !visited[vi] && !map.is_opaque(vi) {
            let ghost old_vis = visited@;
            let ghost old_q = queue@;
            let du = dist[u];
            proof {
                assert(du < vset@.len());
            }
            visited.set(vi, true);
            parent.set(vi, u);
            dist.set(vi, du + 1);
            queue.push(vi);
            let ghost newset = vset@.insert(vi as int);
            proof {
                let ghost old_par = old(parent)@;
                let ghost old_dist = old(dist)@;
                vstd::set::axiom_set_insert_len(vset@, vi as int);
                // the ghost set still mirrors the visited flags
                assert forall|i: int|
                    #[trigger] newset.contains(i) <==> (0 <= i < visited@.len() && visited@[i]) by {
                }
                // and stays inside the index range, bounding its size
                lemma_int_range(0, old_vis.len() as int);
                assert forall|i: int| newset.contains(i)
                    implies #[trigger] set_int_range(0, old_vis.len() as int).contains(i) by {
                }
                lemma_len_subset(newset, set_int_range(0, old_vis.len() as int));
                // every queued index is a visited in-range tile
                assert forall|k: int|
                    0 <= k < queue@.len()
                        implies 0 <= #[trigger] queue@[k] < visited@.len()
                            && visited@[queue@[k] as int] by {
                    if k < old_q.len() {
                        assert(old_vis[old_q[k] as int]);
                    }
                }
                // every visited tile is somewhere in the queue
                assert forall|i: int|
                    0 <= i < visited@.len() && #[trigger] visited@[i]
                        implies in_queue(queue@, i) by {
                    if i == vi as int {
                        assert(queue@[queue@.len() - 1] == vi);
                    } else {
                        assert(old_vis[i]);
                        let k = choose|k: int| 0 <= k < old_q.len() && #[trigger] old_q[k] == i;
                        assert(queue@[k] == i);
                    }
                }
                // the parent tree still records a valid walk
                assert(parents_ok(m, visited@, parent@, dist@, start_idx as int)) by {
                    assert forall|t: int|
                        0 <= t < visited@.len() && #[trigger] visited@[t]
                            && t != start_idx as int implies {
                            &&& traversable(m, ix(wi, t), iy(wi, t))
                            &&& 0 <= parent@[t] < visited@.len()
                            &&& visited@[parent@[t] as int]
                            &&& adjacent(
                                ix(wi, parent@[t] as int), iy(wi, parent@[t] as int),
                                ix(wi, t), iy(wi, t),
                            )
                            &&& dist@[t] == dist@[parent@[t] as int] + 1
                        } by {
                        if t == vi as int {
                            assert(ix(wi, vi as int) == nx && iy(wi, vi as int) == ny);
                            assert(u != vi);
                            assert(visited@[u as int]);
                        } else {
                            assert(old_vis[t]);
                            assert(old_par[t] != vi as int);
                            assert(visited@[old_par[t] as int]);
                        }
                    }
                }
                // breadth layers stay below the number of visited tiles
                assert forall|i: int|
                    0 <= i < visited@.len() && #[trigger] visited@[i]
                        implies dist@[i] < newset.len() by {
                    if i != vi as int {
                        assert(old_vis[i] && old_dist[i] < vset@.len());
                    }
                }
                // the new queue stays sorted by breadth layer: the fresh
                // entry sits one layer above the popped head, at least as
                // deep as everything already queued
                assert forall|k: int|
                    0 <= k < old_q.len() implies queue@[k] != vi by {
                    assert(old_vis[old_q[k] as int]);
                }
                assert forall|k1: int, k2: int|
                    0 <= k1 <= k2 < queue@.len()
                        implies dist@[#[trigger] queue@[k1] as int]
                            <= dist@[#[trigger] queue@[k2] as int] by {
                    if k2 == queue@.len() - 1 {
                        if k1 < k2 {
                            assert(old_dist[old_q[k1] as int] <= old_dist[old_q[old_q.len() - 1] as int]);
                            assert(old_dist[old_q[old_q.len() - 1] as int]
                                <= old_dist[old_q[head as int] as int] + 1);
                        }
                    } else {
                        assert(old_dist[old_q[k1] as int] <= old_dist[old_q[k2] as int]);
                    }
                }
                // processed entries keep their layered closure
                assert forall|k: int|
                    0 <= k < head as int implies nb4_reached(
                        m, visited@, dist@,
                        ix(wi, #[trigger] queue@[k] as int), iy(wi, queue@[k] as int),
                        dist@[queue@[k] as int] + 1,
                    ) by {
                    assert(nb4_reached(
                        m, old_vis, old_dist,
                        ix(wi, old_q[k] as int), iy(wi, old_q[k] as int),
                        old_dist[old_q[k] as int] + 1,
                    ));
                    lemma_nb4_reached_stable(
                        m, old_vis, visited@, old_dist, dist@,
                        ix(wi, old_q[k] as int), iy(wi, old_q[k] as int),
                        old_dist[old_q[k] as int] + 1,
                    );
                    assert(queue@[k] == old_q[k]);
                    assert(old_vis[old_q[k] as int]);
                }
            }
            return Ghost(newset);
        }
    }
    Ghost(vset@)
}

/// Breadth-first search for a shortest walkable route from the current
/// position to the destination, over the four orthogonal neighbors with
/// unit cost per step. Returns a waypoint list (whose first entry is the
/// start cell) no longer than any other route when one exists, and `None`
/// exactly when the destination cannot be reached; the caller then leaves
/// the creature without a route.
#[verifier::rlimit(100)]
pub fn generate_path(
    map: &GridMap,
    position: &Position,
    destination: &Position,
) -> (r: Option<Vec<(i32, i32)>>)
    requires
        map.inv(),
        map.in_bounds(position.0 as int, position.1 as int),
    ensures
        (match r {
            Some(p) => is_route(
                *map, p@,
                position.0 as int, position.1 as int,
                destination.0 as int, destination.1 as int,
            ) && (forall|s: Seq<(i32, i32)>|
                is_route(
                    *map, s,
                    position.0 as int, position.1 as int,
                    destination.0 as int, destination.1 as int,
                ) ==> p@.len() <= s.len()),
            None => !reachable(
                *map,
                position.0 as int, position.1 as int,
                destination.0 as int, destination.1 as int,
            ),
        }),
{
    let ghost m = *map;
    let ghost wi = map.width as int;
    let ghost px = position.0 as int;
    let ghost py = position.1 as int;
    let ghost qx = destination.0 as int;
    let ghost qy = destination.1 as int;

    if destination.0 < 0 || destination.0 >= map.width || destination.1 < 0
        || destination.1 >= map.height {
        proof {
            assert(!reachable(m, px, py, qx, qy)) by {
                if reachable(m, px, py, qx, qy) {
                    let s = choose|s: Seq<(i32, i32)>| is_route(m, s, px, py, qx, qy);
                    if s.len() == 1 {
                        assert(s[0].0 == px && s[0].1 == py);
                    } else {
                        assert(traversable(m, s[s.len() - 1].0 as int, s[s.len() - 1].1 as int));
                    }
                }
            }
        }
        return None;
    }

    let w: usize = map.width as usize;
    proof {
        crate::grid::lemma_row_major_bounds(wi, map.height as int, 0, 0);
    }
    let n_tiles: usize = w * (map.height as usize);

    let start_idx: usize = map.xy_idx(position.0, position.1);
    let dest_idx: usize = map.xy_idx(destination.0, destination.1);
    proof {
        lemma_row_major_bounds_wrap(m, px, py);
        lemma_row_major_bounds_wrap(m, qx, qy);
    }

    let mut visited: Vec<bool> = Vec::new();
    let mut parent: Vec<usize> = Vec::new();
    let mut dist: Vec<usize> = Vec::new();
    let mut k0: usize = 0;
    while k0 < n_tiles
        invariant
            k0 <= n_tiles,
            visited@.len() == k0,
            parent@.len() == k0,
            dist@.len() == k0,
            forall|i: int| 0 <= i < k0 ==> !(#[trigger] visited@[i]),
            forall|i: int| 0 <= i < k0 ==> #[trigger] dist@[i] == 0,
        decreases n_tiles - k0,
    {
        visited.push(false);
        parent.push(0);
        dist.push(0);
        k0 = k0 + 1;
    }
    visited.set(start_idx, true);
    let mut queue: Vec<usize> = Vec::new();
    queue.push(start_idx);
    let mut head: usize = 0;
    let ghost mut vset: Set<int> = Set::empty().insert(start_idx as int);
    proof {
        vstd::set::axiom_set_insert_len(Set::<int>::empty(), start_idx as int);
        assert forall|i: int|
            0 <= i < visited@.len() && #[trigger] visited@[i] implies in_queue(queue@, i) by {
            assert(i == start_idx as int);
            assert(queue@[0] == start_idx);
        }
        assert(bfs_inv(
            m, visited@, parent@, dist@, queue@,
            head as int, start_idx as int, dest_idx as int, vset,
        ));
    }

    while head < queue.len()
        invariant
            map.inv(),
            m == *map,
            wi == map.width as int,
            w == map.width,
            map.in_bounds(px, py),
            map.in_bounds(qx, qy),
            px == position.0 as int,
            py == position.1 as int,
            qx == destination.0 as int,
            qy == destination.1 as int,
            start_idx as int == m.idx_of(px, py),
            dest_idx as int == m.idx_of(qx, qy),
            ix(wi, start_idx as int) == px,
            iy(wi, start_idx as int) == py,
            ix(wi, dest_idx as int) == qx,
            iy(wi, dest_idx as int) == qy,
            bfs_inv(
                m, visited@, parent@, dist@, queue@,
                head as int, start_idx as int, dest_idx as int, vset,
            ),
        decreases visited@.len() - vset.len(), queue@.len() - head,
    {
        let u = queue[head];
        if u == dest_idx {
            let route = reconstruct_route(map, &visited, &parent, &dist, start_idx, dest_idx);
            proof {
                // no route can undercut the breadth layer of the
                // destination, so the reconstructed one is shortest
                assert forall|s: Seq<(i32, i32)>|
                    is_route(m, s, px, py, qx, qy) implies route@.len() <= s.len() by {
                    lemma_route_layers(
                        m, visited@, parent@, dist@, queue@,
                        head as int, start_idx as int, dest_idx as int, vset,
                        s, px, py, qx, qy, s.len() - 1,
                    );
                    lemma_row_major_bounds_wrap(m, qx, qy);
                    let lidx = m.idx_of(s[s.len() - 1].0 as int, s[s.len() - 1].1 as int);
                    assert(s[s.len() - 1].0 as int == qx && s[s.len() - 1].1 as int == qy);
                    assert(lidx == dest_idx as int);
                    if !(visited@[lidx] && dist@[lidx] <= s.len() - 1) {
                        let k = choose|k: int|
                            head as int <= k < queue@.len()
                                && dist@[#[trigger] queue@[k] as int] <= s.len() - 1;
                        assert(dist@[queue@[head as int] as int] <= dist@[queue@[k] as int]);
                        assert(queue@[head as int] == u);
                    }
                    assert(dist@[dest_idx as int] <= s.len() - 1);
                }
            }
            return Some(route);
        }
        proof {
            lemma_idx_coords(wi, map.height as int, u as int);
        }
        let ux: usize = u % w;
        let uy: usize = u / w;
        let ghost q0 = queue@;
        let ghost v0 = visited@;
        let ghost d0 = dist@;
        let g1 = bfs_try_push(
            map, &mut visited, &mut parent, &mut dist, &mut queue,
            u, ux as i64 + 1, uy as i64, head, start_idx, dest_idx, Ghost(vset),
        );
        let ghost v1 = visited@;
        let ghost d1 = dist@;
        proof {
            vset = g1@;
        }
        let g2 = bfs_try_push(
            map, &mut visited, &mut parent, &mut dist, &mut queue,
            u, ux as i64 - 1, uy as i64, head, start_idx, dest_idx, Ghost(vset),
        );
        let ghost v2 = visited@;
        let ghost d2 = dist@;
        proof {
            vset = g2@;
        }
        let g3 = bfs_try_push(
            map, &mut visited, &mut parent, &mut dist, &mut queue,
            u, ux as i64, uy as i64 + 1, head, start_idx, dest_idx, Ghost(vset),
        );
        let ghost v3 = visited@;
        let ghost d3 = dist@;
        proof {
            vset = g3@;
        }
        let g4 = bfs_try_push(
            map, &mut visited, &mut parent, &mut dist, &mut queue,
            u, ux as i64, uy as i64 - 1, head, start_idx, dest_idx, Ghost(vset),
        );
        let ghost v4 = visited@;
        let ghost d4 = dist@;
        proof {
            vset = g4@;
            let uxi = ux as int;
            let uyi = uy as int;
            assert forall|i: int|
                0 <= i < v1.len() && #[trigger] v1[i] implies v4[i] && d4[i] == d1[i] by {}
            assert forall|i: int|
                0 <= i < v2.len() && #[trigger] v2[i] implies v4[i] && d4[i] == d2[i] by {}
            assert(d4[u as int] == d0[u as int]);
            lemma_nb_reached_stable(m, v1, v4, d1, d4, uxi + 1, uyi, d0[u as int] + 1);
            lemma_nb_reached_stable(m, v2, v4, d2, d4, uxi - 1, uyi, d0[u as int] + 1);
            lemma_nb_reached_stable(m, v3, v4, d3, d4, uxi, uyi + 1, d0[u as int] + 1);
            assert(nb4_reached(m, visited@, dist@, uxi, uyi, d4[u as int] + 1));
            // the freshly popped entry is now fully processed
            assert forall|k: int|
                0 <= k < head as int + 1 implies nb4_reached(
                    m, visited@, dist@,
                    ix(wi, #[trigger] queue@[k] as int), iy(wi, queue@[k] as int),
                    dist@[queue@[k] as int] + 1,
                ) by {
                if k == head as int {
                    assert(queue@[k] == q0[k]);
                    assert(queue@[k] == u);
                } else {
                    assert(nb4_reached(
                        m, visited@, dist@,
                        ix(wi, queue@[k] as int), iy(wi, queue@[k] as int),
                        dist@[queue@[k] as int] + 1,
                    ));
                }
            }
            assert forall|k: int| 0 <= k < head as int + 1 implies #[trigger] queue@[k]
                != dest_idx by {
                if k == head as int {
                    assert(queue@[k] == q0[k]);
                }
            }
            // the frontier bound moves with the head
            if head as int + 1 < queue@.len() {
                assert(dist@[queue@[queue@.len() - 1] as int]
                    <= dist@[queue@[head as int] as int] + 1);
                assert(dist@[queue@[head as int] as int]
                    <= dist@[queue@[head as int + 1] as int]);
            }
        }
        head = head + 1;
    }
    proof {
        assert(visited_closed(m, visited@)) by {
            assert forall|x: int, y: int|
                m.in_bounds(x, y) && #[trigger] cell_visited(m, visited@, x, y)
                    implies nb4_visited(m, visited@, x, y) by {
                lemma_row_major_bounds_wrap(m, x, y);
                let idx = m.idx_of(x, y);
                assert(visited@[idx]);
                assert(in_queue(queue@, idx));
                let k = choose|k: int| 0 <= k < queue@.len() && #[trigger] queue@[k] == idx;
                assert(k < head as int);
                assert(nb4_reached(
                    m, visited@, dist@,
                    ix(wi, queue@[k] as int), iy(wi, queue@[k] as int),
                    dist@[queue@[k] as int] + 1,
                ));
                assert(nb4_visited(m, visited@, ix(wi, queue@[k] as int), iy(wi, queue@[k] as int)));
            }
        }
        assert(!visited@[dest_idx as int]) by {
            if visited@[dest_idx as int] {
                assert(in_queue(queue@, dest_idx as int));
                let k = choose|k: int| 0 <= k < queue@.len() && #[trigger] queue@[k] == dest_idx as int;
                assert(k < head as int);
            }
        }
        assert(!reachable(m, px, py, qx, qy)) by {
            if reachable(m, px, py, qx, qy) {
                let s = choose|s: Seq<(i32, i32)>| is_route(m, s, px, py, qx, qy);
                lemma_route_visited(m, visited@, s, px, py, qx, qy, s.len() - 1);
                assert(visited@[m.idx_of(qx, qy)]);
            }
        }
    }
    None
}

/// The creature needs a route this tick: it is a living, mobile, named,
/// placed creature that has a destination but no route.
pub open spec fn route_due(w: crate::world::World, e: int) -> bool {
    &&& 0 <= e < w.n()
    &&& w.ents@[e].alive
    &&& w.ents@[e].moves is Some
    &&& w.ents@[e].name is Some
    &&& w.ents@[e].position is Some
    &&& w.ents@[e].destination is Some
    &&& w.ents@[e].path is None
}

/// Route planning: every mobile creature that has a destination but no
/// route gets a freshly computed route queued, starting at its current
/// cell with the cursor reset. A creature whose destination cannot be
/// reached is left without a route and stays where it is until targeting
/// picks somewhere new.
pub fn path_to_destination(
    world: &crate::world::World,
    map: &GridMap,
    buf: &mut Vec<crate::command::Command>,
    log: &mut Vec<crate::log::LogEvent>,
)
    requires
        map.inv(),
        world.wf(*map),
    ensures
        old(buf)@.len() <= final(buf)@.len(),
        forall|k: int| 0 <= k < old(buf)@.len() ==> final(buf)@[k] == old(buf)@[k],
        forall|k: int|
            old(buf)@.len() <= k < final(buf)@.len() ==> crate::command::cmd_wf(
                #[trigger] final(buf)@[k],
                *map,
            ) && crate::command::dead_safe(final(buf)@[k], *world)
                && crate::command::equip_mono_cmd(final(buf)@[k], *world),
        // every queued route really walks from its owner's cell to its
        // owner's destination
        forall|k: int|
            old(buf)@.len() <= k < final(buf)@.len() ==> ((#[trigger] final(buf)@[k]) matches
                crate::command::Command::InsertPath(e, p) && 0 <= e < world.n()
                && (world.ents@[e as int].position matches Some(sp)
                    && world.ents@[e as int].destination matches Some(dd) && is_route(
                    *map,
                    p.current@,
                    sp.0 as int,
                    sp.1 as int,
                    dd.position.0 as int,
                    dd.position.1 as int,
                ) && p.index == 0 && p.destination == dd.position)),
        // every creature that needs a route and whose destination can be
        // reached gets one queued
        forall|e: int|
            route_due(*world, e) && (world.ents@[e].position matches Some(sp)
                && world.ents@[e].destination matches Some(dd) && reachable(
                *map,
                sp.0 as int,
                sp.1 as int,
                dd.position.0 as int,
                dd.position.1 as int,
            )) ==> (exists|t: int|
                old(buf)@.len() <= t < final(buf)@.len() && ((#[trigger] final(buf)@[t]) matches
                    crate::command::Command::InsertPath(ee, p) && ee == e)),
        old(log)@.len() <= final(log)@.len(),
        forall|k: int| 0 <= k < old(log)@.len() ==> final(log)@[k] == old(log)@[k],
{
    let n = world.len();
    let mut i: usize = 0;
    while i < n
        invariant
            n == world.n(),
            map.inv(),
            world.wf(*map),
            old(buf)@.len() <= buf@.len(),
            forall|k: int| 0 <= k < old(buf)@.len() ==> buf@[k] == old(buf)@[k],
            forall|k: int|
                old(buf)@.len() <= k < buf@.len() ==> crate::command::cmd_wf(
                    #[trigger] buf@[k],
                    *map,
                ) && crate::command::dead_safe(buf@[k], *world)
                    && crate::command::equip_mono_cmd(buf@[k], *world),
            forall|k: int|
                old(buf)@.len() <= k < buf@.len() ==> ((#[trigger] buf@[k]) matches
                    crate::command::Command::InsertPath(e, p) && 0 <= e < world.n()
                    && (world.ents@[e as int].position matches Some(sp)
                        && world.ents@[e as int].destination matches Some(dd) && is_route(
                        *map,
                        p.current@,
                        sp.0 as int,
                        sp.1 as int,
                        dd.position.0 as int,
                        dd.position.1 as int,
                    ) && p.index == 0 && p.destination == dd.position)),
            forall|e: int|
                route_due(*world, e) && e < i && (world.ents@[e].position matches Some(sp)
                    && world.ents@[e].destination matches Some(dd) && reachable(
                    *map,
                    sp.0 as int,
                    sp.1 as int,
                    dd.position.0 as int,
                    dd.position.1 as int,
                )) ==> (exists|t: int|
                    old(buf)@.len() <= t < buf@.len() && ((#[trigger] buf@[t]) matches
                        crate::command::Command::InsertPath(ee, p) && ee == e)),
            old(log)@.len() <= log@.len(),
            forall|k: int| 0 <= k < old(log)@.len() ==> log@[k] == old(log)@[k],
        decreases n - i,
    {
        let ghost buf_i0 = buf@;
        let rec = &world.ents[i];
        let due = rec.alive && rec.moves.is_some() && rec.name.is_some() && rec.position.is_some()
            && rec.destination.is_some() && rec.path.is_none();
        if due {
            let pos = rec.position.unwrap();
            let dest = rec.destination.unwrap();
            let name = match &rec.name {
                Some(nm) => nm.0.clone(),
                None => "".to_owned(),
            };
            proof {
                assert(crate::world::wf_ent(*map, world.ents@[i as int]));
            }
            match generate_path(map, &pos, &dest.position) {
                Some(route) => {
                    let ghost groute = route@;
                    let p = Path { current: route, index: 0, destination: dest.position };
                    proof {
                        assert forall|j: int|
                            0 <= j < groute.len() implies map.in_bounds(
                                (#[trigger] groute[j]).0 as int,
                                groute[j].1 as int,
                            ) by {
                            if j == 0 {
                                assert(groute[0].0 == pos.0 && groute[0].1 == pos.1);
                            } else {
                                assert(traversable(*map, groute[j].0 as int, groute[j].1 as int));
                            }
                        }
                    }
                    buf.push(crate::command::Command::InsertPath(i, p));
                    log.push(crate::log::LogEvent::NowMoving { subject: name });
                },
                None => {},
            }
        }
        proof {
            assert forall|e: int|
                route_due(*world, e) && e < i + 1 && (world.ents@[e].position matches Some(sp)
                    && world.ents@[e].destination matches Some(dd) && reachable(
                    *map,
                    sp.0 as int,
                    sp.1 as int,
                    dd.position.0 as int,
                    dd.position.1 as int,
                )) implies (exists|t: int|
                    old(buf)@.len() <= t < buf@.len() && ((#[trigger] buf@[t]) matches
                        crate::command::Command::InsertPath(ee, p) && ee == e)) by {
                if e == i as int {
                    assert(buf@[buf@.len() - 1] matches crate::command::Command::InsertPath(ee, p)
                        && ee == i);
                } else {
                    let t = choose|t: int|
                        old(buf)@.len() <= t < buf_i0.len() && ((#[trigger] buf_i0[t]) matches
                            crate::command::Command::InsertPath(ee, p) && ee == e);
                    assert(buf@[t] == buf_i0[t]);
                }
            }
        }
        i = i + 1;
    }
}

/// Movement: every living, mobile, undead-free creature holding a route
/// with waypoints left steps onto the waypoint at the cursor and advances
/// the cursor; one that has walked past the last waypoint has arrived, so
/// its route removal and destination clearing are queued for the
/// synchronization point, freeing targeting to pick somewhere new.
pub fn move_path(
    world: &mut crate::world::World,
    map: &GridMap,
    buf: &mut Vec<crate::command::Command>,
)
    requires
        map.inv(),
        old(world).wf(*map),
    ensures
        final(world).wf(*map),
        final(world).n() == old(world).n(),
        forall|k: int|
            0 <= k < old(world).n() ==> #[trigger] final(world).ents@[k] == (crate::world::EntityData {
                position: final(world).ents@[k].position,
                path: final(world).ents@[k].path,
                ..old(world).ents@[k]
            }),
        // exactly how each creature moved
        forall|k: int|
            0 <= k < old(world).n() ==> (if mover_due(*old(world), k) {
                (old(world).ents@[k].path matches Some(p)
                    && final(world).ents@[k].position == Some(
                    Position(p.current@[p.index as int].0, p.current@[p.index as int].1),
                ) && (final(world).ents@[k].path matches Some(np) && np.current@ == p.current@
                    && np.index == p.index + 1 && np.destination == p.destination))
            } else {
                #[trigger] final(world).ents@[k] == old(world).ents@[k]
            }),
        forall|k: int|
            0 <= k < old(world).n() && old(world).ents@[k].dead is Some
                ==> #[trigger] final(world).ents@[k] == old(world).ents@[k],
        old(buf)@.len() <= final(buf)@.len(),
        forall|k: int| 0 <= k < old(buf)@.len() ==> final(buf)@[k] == old(buf)@[k],
        forall|k: int|
            old(buf)@.len() <= k < final(buf)@.len() ==> (forall|m2: GridMap|
                crate::command::cmd_wf(#[trigger] final(buf)@[k], m2)) && crate::command::dead_safe(
                final(buf)@[k],
                *old(world),
            ) && crate::command::equip_mono_cmd(final(buf)@[k], *old(world)),
        // every arrived creature has its route removal and destination
        // clearing queued
        forall|e: int|
            arrival_due(*old(world), e) ==> (exists|t: int|
                old(buf)@.len() <= t && t + 1 < final(buf)@.len() && final(buf)@[t] == (
                crate::command::Command::RemovePath(e as usize)) && (#[trigger] final(buf)@[t + 1])
                    == (crate::command::Command::ClearDestination(e as usize))),
{
    let ghost w0 = *world;
    let n = world.len();
    let mut i: usize = 0;
    while i < n
        invariant
            n == world.n(),
            n == w0.n(),
            map.inv(),
            world.wf(*map),
            i <= n,
            forall|k: int|
                0 <= k < w0.n() ==> #[trigger] world.ents@[k] == (crate::world::EntityData {
                    position: world.ents@[k].position,
                    path: world.ents@[k].path,
                    ..w0.ents@[k]
                }),
            forall|k: int|
                0 <= k < w0.n() ==> (if mover_due(w0, k) && k < i {
                    (w0.ents@[k].path matches Some(p) && world.ents@[k].position == Some(
                        Position(p.current@[p.index as int].0, p.current@[p.index as int].1),
                    ) && (world.ents@[k].path matches Some(np) && np.current@ == p.current@
                        && np.index == p.index + 1 && np.destination == p.destination))
                } else {
                    #[trigger] world.ents@[k] == w0.ents@[k]
                }),
            forall|k: int|
                0 <= k < w0.n() && w0.ents@[k].dead is Some
                    ==> #[trigger] world.ents@[k] == w0.ents@[k],
            old(buf)@.len() <= buf@.len(),
            forall|k: int| 0 <= k < old(buf)@.len() ==> buf@[k] == old(buf)@[k],
            forall|k: int|
                old(buf)@.len() <= k < buf@.len() ==> (forall|m2: GridMap|
                    crate::command::cmd_wf(#[trigger] buf@[k], m2)) && crate::command::dead_safe(
                    buf@[k],
                    w0,
                ) && crate::command::equip_mono_cmd(buf@[k], w0),
            forall|e: int|
                arrival_due(w0, e) && e < i ==> (exists|t: int|
                    old(buf)@.len() <= t && t + 1 < buf@.len() && buf@[t] == (
                    crate::command::Command::RemovePath(e as usize)) && (#[trigger] buf@[t + 1])
                        == (crate::command::Command::ClearDestination(e as usize))),
        decreases n - i,
    {
        let ghost buf_i0 = buf@;
        let rec = &world.ents[i];
        let due = rec.alive && rec.moves.is_some() && rec.dead.is_none() && rec.position.is_some()
            && rec.path.is_some();
        if due {
            let has_step = match &world.ents[i].path {
                Some(p) => p.index < p.current.len(),
                None => false,
            };
            if has_step {
                let ghost pre = *world;
                let mut erec = world.extract(i);
                let mut newpos: Option<Position> = None;
                match &mut erec.path {
                    Some(p) => {
                        let wp = p.current[p.index];
                        newpos = Some(Position(wp.0, wp.1));
                        p.index = p.index + 1;
                    },
                    None => {},
                }
                erec.position = newpos;
                world.store(i, erec);
                proof {
                    assert(crate::world::wf_ent(*map, pre.ents@[i as int]));
                    assert(mover_due(w0, i as int));
                    assert forall|k: int|
                        0 <= k < w0.n() implies #[trigger] world.ents@[k]
                            == (crate::world::EntityData {
                            position: world.ents@[k].position,
                            path: world.ents@[k].path,
                            ..w0.ents@[k]
                        }) by {
                        if k != i as int {
                            assert(world.ents@[k] == pre.ents@[k]);
                        }
                    }
                }
            } else {
                buf.push(crate::command::Command::RemovePath(i));
                buf.push(crate::command::Command::ClearDestination(i));
                proof {
                    assert(!mover_due(w0, i as int));
                    assert(buf@[buf@.len() - 2] == crate::command::Command::RemovePath(i));
                    assert(buf@[buf@.len() - 1] == crate::command::Command::ClearDestination(i));
                }
            }
        } else {
            proof {
                assert(!mover_due(w0, i as int));
                assert(!arrival_due(w0, i as int));
            }
        }
        proof {
            assert forall|e: int|
                arrival_due(w0, e) && e < i + 1 implies (exists|t: int|
                    old(buf)@.len() <= t && t + 1 < buf@.len() && buf@[t] == (
                    crate::command::Command::RemovePath(e as usize)) && (#[trigger] buf@[t + 1])
                        == (crate::command::Command::ClearDestination(e as usize))) by {
                if e != i as int {
                    let t = choose|t: int|
                        old(buf)@.len() <= t && t + 1 < buf_i0.len() && buf_i0[t] == (
                        crate::command::Command::RemovePath(e as usize)) && (#[trigger] buf_i0[t
                            + 1]) == (crate::command::Command::ClearDestination(e as usize));
                    assert(buf@[t] == buf_i0[t]);
                    assert(buf@[t + 1] == buf_i0[t + 1]);
                }
            }
        }
        i = i + 1;
    }
}

/// The creature has arrived this tick: it is alive, mobile, not dead,
/// placed, and holds a route whose cursor has run past the last waypoint.
pub open spec fn arrival_due(w: crate::world::World, k: int) -> bool {
    &&& 0 <= k < w.n()
    &&& w.ents@[k].alive
    &&& w.ents@[k].moves is Some
    &&& w.ents@[k].dead is None
    &&& w.ents@[k].position is Some
    &&& (w.ents@[k].path matches Some(p) && p.index >= p.current@.len())
}

/// The creature moves this tick: it is alive, mobile, not dead, placed,
/// and holds a route whose cursor still points at a waypoint.
pub open spec fn mover_due(w: crate::world::World, k: int) -> bool {
    &&& 0 <= k < w.n()
    &&& w.ents@[k].alive
    &&& w.ents@[k].moves is Some
    &&& w.ents@[k].dead is None
    &&& w.ents@[k].position is Some
    &&& (w.ents@[k].path matches Some(p) && p.index < p.current@.len())
}

/// Follows recorded parents from the destination back to the start, then
/// reverses the walk into a forward route.
fn reconstruct_route(
    map: &GridMap,
    visited: &Vec<bool>,
    parent: &Vec<usize>,
    dist: &Vec<usize>,
    start_idx: usize,
    dest_idx: usize,
) -> (r: Vec<(i32, i32)>)
    requires
        map.inv(),
        visited@.len() == map.width * map.height,
        parent@.len() == visited@.len(),
        dist@.len() == visited@.len(),
        start_idx < visited@.len(),
        dest_idx < visited@.len(),
        visited@[start_idx as int],
        visited@[dest_idx as int],
        dist@[start_idx as int] == 0,
        parents_ok(*map, visited@, parent@, dist@, start_idx as int),
    ensures
        is_route(
            *map,
            r@,
            ix(map.width as int, start_idx as int),
            iy(map.width as int, start_idx as int),
            ix(map.width as int, dest_idx as int),
            iy(map.width as int, dest_idx as int),
        ),
        r@.len() == dist@[dest_idx as int] + 1,
{
    let w: usize = map.width as usize;
    let ghost wi = map.width as int;
    let mut rev: Vec<(i32, i32)> = Vec::new();
    let mut cur: usize = dest_idx;
    proof {
        lemma_idx_coords(wi, map.height as int, cur as int);
    }
    let cx = (cur % w) as i32;
    let cy = (cur / w) as i32;
    rev.push((cx, cy));
    let ghost mut chain: Seq<int> = seq![dest_idx as int];
    while cur != start_idx
        invariant
            map.inv(),
            w == map.width,
            wi == map.width as int,
            visited@.len() == map.width * map.height,
            parent@.len() == visited@.len(),
            dist@.len() == visited@.len(),
            start_idx < visited@.len(),
            dest_idx < visited@.len(),
            visited@[start_idx as int],
            parents_ok(*map, visited@, parent@, dist@, start_idx as int),
            cur < visited@.len(),
            visited@[cur as int],
            chain.len() == rev@.len(),
            chain.len() >= 1,
            chain[0] == dest_idx as int,
            chain[chain.len() - 1] == cur as int,
            forall|k: int|
                0 <= k < chain.len() ==> 0 <= #[trigger] chain[k] < visited@.len()
                    && visited@[chain[k]] && rev@[k].0 == ix(wi, chain[k])
                    && rev@[k].1 == iy(wi, chain[k])
                    && dist@[chain[k]] == dist@[dest_idx as int] - k,
            forall|k: int|
                0 <= k < chain.len() - 1 ==> #[trigger] chain[k] != start_idx as int
                    && adjacent(
                        ix(wi, chain[k + 1]), iy(wi, chain[k + 1]),
                        ix(wi, chain[k]), iy(wi, chain[k]),
                    ) && traversable(*map, ix(wi, chain[k]), iy(wi, chain[k])),
        decreases dist@[cur as int],
    {
        let p = parent[cur];
        cur = p;
        proof {
            lemma_idx_coords(wi, map.height as int, cur as int);
        }
        let nx = (cur % w) as i32;
        let ny = (cur / w) as i32;
        rev.push((nx, ny));
        proof {
            chain = chain.push(cur as int);
        }
    }
    let ghost ll = chain.len();
    let mut path: Vec<(i32, i32)> = Vec::new();
    let len = rev.len();
    let mut k: usize = 0;
    while k < len
        invariant
            k <= len,
            len == rev@.len(),
            path@.len() == k,
            forall|j: int| 0 <= j < k ==> #[trigger] path@[j] == rev@[len - 1 - j],
        decreases len - k,
    {
        let e = rev[len - 1 - k];
        path.push(e);
        k = k + 1;
    }
    proof {
        assert forall|i: int| 1 <= i < path@.len() implies adjacent(
            path@[i - 1].0 as int,
            path@[i - 1].1 as int,
            (#[trigger] path@[i]).0 as int,
            path@[i].1 as int,
        ) && traversable(*map, path@[i].0 as int, path@[i].1 as int) by {
            let kk = ll - 1 - i;
            assert(path@[i] == rev@[kk]);
            assert(path@[i - 1] == rev@[kk + 1]);
            assert(chain[kk] != start_idx as int || kk >= 0);
            assert(adjacent(
                ix(wi, chain[kk + 1]), iy(wi, chain[kk + 1]),
                ix(wi, chain[kk]), iy(wi, chain[kk]),
            ));
            assert(traversable(*map, ix(wi, chain[kk]), iy(wi, chain[kk])));
        }
        assert(path@[0] == rev@[ll - 1]);
        assert(path@[path@.len() - 1] == rev@[0]);
        assert(dist@[chain[ll - 1]] == dist@[dest_idx as int] - (ll - 1));
        assert(path@.len() == dist@[dest_idx as int] + 1);
    }
    path
}

} // verus!
