//! Laws of the field-of-view pass on a grid without walls: a pass reveals
//! exactly the cells within its depth of the origin on both axes, so
//! visibility there is mutual.
use vstd::prelude::*;

use crate::physics::shadow_casting::{
    Direction, Pos, WallGrid, cell, cross_coord, cross_size, depth_coord, depth_size, is_vertical,
    lemma_index_in_range, pov_spec, row_tiles, scan_spec, symmetric, unit, walk_spec,
};
use crate::physics::row_geometry::{lemma_seed_span, seed_end, seed_start};
use crate::physics::visibility_laws::{
    fits, grows, lemma_grows_trans, lemma_index_injective, lemma_mark_grows, lemma_pov_steps,
    lemma_pov_within_depth, lemma_scan_grows, lemma_walk_grows, near,
};

verus! {

/// No cell holds a wall.
pub open spec fn wall_free(g: WallGrid) -> bool {
    forall|i: int| 0 <= i < g.walled.len() ==> !#[trigger] g.walled[i]
}

/// `vis` shows every cell in the grid of the quadrant's cone from `depth`
/// out to `max_depth`.
pub open spec fn open_cone_shown(
    g: WallGrid,
    vis: Seq<bool>,
    dir: Direction,
    origin: Pos,
    depth: int,
    max_depth: int,
) -> bool {
    forall|k: int, x: int|
        depth <= k <= max_depth && 0 <= depth_coord(dir, origin, k) < depth_size(
            dir,
            g.width,
            g.height,
        ) && 0 <= x < cross_size(dir, g.width, g.height) && cross_coord(dir, origin) - k <= x
            <= cross_coord(dir, origin) + k ==> vis[g.index(#[trigger] cell(dir, origin, k, x))]
}

/// The requirements shared by the lemmas on a grid without walls.
pub open spec fn open_grid(g: WallGrid, origin: Pos) -> bool {
    &&& g.wf()
    &&& g.width <= i32::MAX
    &&& g.height <= i32::MAX
    &&& wall_free(g)
    &&& g.in_bounds(origin)
}

/// A cell of the quadrant at `depth` whose coordinates lie in the grid: it
/// is in bounds and floor.
proof fn lemma_open_grid_cell(g: WallGrid, dir: Direction, origin: Pos, depth: int, x: int)
    requires
        open_grid(g, origin),
        0 <= depth_coord(dir, origin, depth) < depth_size(dir, g.width, g.height),
        0 <= x < cross_size(dir, g.width, g.height),
    ensures
        ({
            let t = cell(dir, origin, depth, x);
            &&& g.in_bounds(t)
            &&& g.is_floor(Some(t))
            &&& cross_coord(dir, t) == x
        }),
{
    let t = cell(dir, origin, depth, x);
    lemma_index_in_range(g.width, g.height, t);
}

/// The first-slope row at `depth` holds the cells of the cone at that depth
/// that lie in the grid.
proof fn lemma_open_tiles(g: WallGrid, dir: Direction, origin: Pos, depth: int)
    requires
        open_grid(g, origin),
        depth >= 1,
    ensures
        ({
            let tiles = row_tiles(
                g.width,
                g.height,
                dir,
                origin,
                depth,
                seed_start(dir),
                seed_end(dir),
            );
            let lo = vstd::math::max(cross_coord(dir, origin) - depth, 0);
            let hi = vstd::math::min(
                cross_coord(dir, origin) + depth,
                cross_size(dir, g.width, g.height) - 1,
            );
            let inside = 0 <= depth_coord(dir, origin, depth) < depth_size(dir, g.width, g.height);
            &&& inside ==> tiles.len() == hi - lo + 1
            &&& !inside ==> tiles.len() == 0
            &&& forall|j: int| 0 <= j < tiles.len() ==> #[trigger] tiles[j] == cell(dir, origin, depth, lo + j)
        }),
{
    lemma_seed_span(dir, origin, depth);
}

proof fn lemma_open_cone_grows(
    g: WallGrid,
    a: Seq<bool>,
    b: Seq<bool>,
    dir: Direction,
    origin: Pos,
    depth: int,
    max_depth: int,
)
    requires
        open_grid(g, origin),
        fits(g, a),
        grows(a, b),
        open_cone_shown(g, a, dir, origin, depth, max_depth),
    ensures
        open_cone_shown(g, b, dir, origin, depth, max_depth),
{
    assert forall|k: int, x: int|
        depth <= k <= max_depth && 0 <= depth_coord(dir, origin, k) < depth_size(
            dir,
            g.width,
            g.height,
        ) && 0 <= x < cross_size(dir, g.width, g.height) && cross_coord(dir, origin) - k <= x
            <= cross_coord(dir, origin) + k implies b[g.index(#[trigger] cell(dir, origin, k, x))] by {
        lemma_open_grid_cell(g, dir, origin, k, x);
        lemma_index_in_range(g.width, g.height, cell(dir, origin, k, x));
    }
}

/// Walking a first-slope row on a grid without walls shows its cells from
/// the `i`-th on and, when the row holds any cell, the cone beyond it.
proof fn lemma_walk_open_grid(
    g: WallGrid,
    dir: Direction,
    origin: Pos,
    max_depth: int,
    depth: int,
    tiles: Seq<Pos>,
    i: int,
    prev: Option<Pos>,
    vis: Seq<bool>,
)
    requires
        open_grid(g, origin),
        fits(g, vis),
        1 <= depth <= max_depth,
        tiles == row_tiles(g.width, g.height, dir, origin, depth, seed_start(dir), seed_end(dir)),
        0 <= i <= tiles.len(),
        i == 0 ==> prev is None,
        i > 0 ==> prev == Some(tiles[i - 1]),
    ensures
        ({
            let r = walk_spec(
                g,
                dir,
                origin,
                max_depth,
                depth,
                tiles,
                i,
                seed_start(dir),
                seed_end(dir),
                prev,
                vis,
            );
            let lo = vstd::math::max(cross_coord(dir, origin) - depth, 0);
            &&& forall|j: int| i <= j < tiles.len() ==> r[g.index(#[trigger] tiles[j])]
            &&& tiles.len() > 0 ==> open_cone_shown(g, r, dir, origin, depth + 1, max_depth)
        }),
    decreases max_depth + 1 - depth, 0int, tiles.len() - i,
{
    let c = cross_coord(dir, origin);
    let lo = vstd::math::max(c - depth, 0);
    lemma_open_tiles(g, dir, origin, depth);
    lemma_seed_span(dir, origin, depth);
    if i >= tiles.len() {
        if tiles.len() > 0 {
            lemma_open_grid_cell(g, dir, origin, depth, lo + i - 1);
            assert(g.is_floor(prev));
            lemma_scan_open_grid(g, dir, origin, max_depth, depth + 1, vis);
        }
    } else {
        let t = tiles[i];
        lemma_open_grid_cell(g, dir, origin, depth, lo + i);
        if i > 0 {
            lemma_open_grid_cell(g, dir, origin, depth, lo + i - 1);
        }
        assert(symmetric(dir, origin, depth, seed_start(dir), seed_end(dir), t));
        lemma_index_in_range(g.width, g.height, t);
        let vis1 = g.mark(vis, t);
        assert(vis1[g.index(t)]);
        lemma_mark_grows(g, vis, t);
        lemma_walk_open_grid(g, dir, origin, max_depth, depth, tiles, i + 1, Some(t), vis1);
        lemma_walk_grows(
            g,
            dir,
            origin,
            max_depth,
            depth,
            tiles,
            i + 1,
            seed_start(dir),
            seed_end(dir),
            Some(t),
            vis1,
        );
    }
}

/// Scanning the first-slope row at `depth` on a grid without walls shows
/// every cell of the cone in the grid from that depth out to `max_depth`.
proof fn lemma_scan_open_grid(
    g: WallGrid,
    dir: Direction,
    origin: Pos,
    max_depth: int,
    depth: int,
    vis: Seq<bool>,
)
    requires
        open_grid(g, origin),
        fits(g, vis),
        depth >= 1,
    ensures
        open_cone_shown(
            g,
            scan_spec(g, dir, origin, max_depth, depth, seed_start(dir), seed_end(dir), vis),
            dir,
            origin,
            depth,
            max_depth,
        ),
    decreases max_depth + 1 - depth, 1int, 0int,
{
    if depth <= max_depth {
        let tiles = row_tiles(g.width, g.height, dir, origin, depth, seed_start(dir), seed_end(dir));
        lemma_open_tiles(g, dir, origin, depth);
        lemma_walk_open_grid(g, dir, origin, max_depth, depth, tiles, 0, None, vis);
        let r = scan_spec(g, dir, origin, max_depth, depth, seed_start(dir), seed_end(dir), vis);
        let c = cross_coord(dir, origin);
        let lo = vstd::math::max(c - depth, 0);
        assert forall|k: int, x: int|
            depth <= k <= max_depth && 0 <= depth_coord(dir, origin, k) < depth_size(
                dir,
                g.width,
                g.height,
            ) && 0 <= x < cross_size(dir, g.width, g.height) && c - k <= x <= c + k implies r[g.index(
            #[trigger] cell(dir, origin, k, x),
        )] by {
            if k == depth {
                assert(tiles[x - lo] == cell(dir, origin, k, x));
            } else {
                assert(0 <= depth_coord(dir, origin, depth) < depth_size(dir, g.width, g.height));
            }
        }
    }
}

/// A layer of the grid's size with nothing visible.
pub open spec fn blank(g: WallGrid) -> Seq<bool> {
    Seq::new((g.width * g.height) as nat, |i: int| false)
}

/// A quadrant's cone cell in the grid is shown once its scan has run.
proof fn lemma_open_cone_has(
    g: WallGrid,
    vis: Seq<bool>,
    dir: Direction,
    origin: Pos,
    max_depth: int,
    p: Pos,
    depth: int,
)
    requires
        open_grid(g, origin),
        open_cone_shown(g, vis, dir, origin, 1, max_depth),
        g.in_bounds(p),
        1 <= depth <= max_depth,
        is_vertical(dir) ==> p.1 == depth_coord(dir, origin, depth),
        !is_vertical(dir) ==> p.0 == depth_coord(dir, origin, depth),
        -depth <= cross_coord(dir, p) - cross_coord(dir, origin) <= depth,
    ensures
        vis[g.index(p)],
{
    assert(cell(dir, origin, depth, cross_coord(dir, p)) == p);
}

/// On a grid without walls, a pass from a cell of the grid onto a layer
/// with nothing visible reveals the origin and exactly the cells within
/// `max_depth` of it on both axes.
pub proof fn lemma_open_grid_pov_exact(g: WallGrid, max_depth: int, origin: Pos, p: Pos)
    requires
        g.wf(),
        g.width <= i32::MAX,
        g.height <= i32::MAX,
        wall_free(g),
        g.in_bounds(origin),
        g.in_bounds(p),
    ensures
        pov_spec(g, max_depth, origin, blank(g))[g.index(p)] == (p == origin || near(
            origin,
            p,
            max_depth,
        )),
{
    let vis = blank(g);
    lemma_index_in_range(g.width, g.height, p);
    lemma_index_in_range(g.width, g.height, origin);
    lemma_pov_steps(g, max_depth, origin, vis);
    let v0 = g.mark(vis, origin);
    lemma_mark_grows(g, vis, origin);
    let n = Direction::North;
    let so = Direction::South;
    let e = Direction::East;
    let w = Direction::West;
    let v1 = scan_spec(g, n, origin, max_depth, 1, unit(1), unit(-1), v0);
    lemma_scan_open_grid(g, n, origin, max_depth, 1, v0);
    lemma_scan_grows(g, n, origin, max_depth, 1, unit(1), unit(-1), v0);
    let v2 = scan_spec(g, so, origin, max_depth, 1, unit(-1), unit(1), v1);
    lemma_scan_open_grid(g, so, origin, max_depth, 1, v1);
    lemma_scan_grows(g, so, origin, max_depth, 1, unit(-1), unit(1), v1);
    let v3 = scan_spec(g, e, origin, max_depth, 1, unit(-1), unit(1), v2);
    lemma_scan_open_grid(g, e, origin, max_depth, 1, v2);
    lemma_scan_grows(g, e, origin, max_depth, 1, unit(-1), unit(1), v2);
    let v4 = scan_spec(g, w, origin, max_depth, 1, unit(1), unit(-1), v3);
    lemma_scan_open_grid(g, w, origin, max_depth, 1, v3);
    lemma_scan_grows(g, w, origin, max_depth, 1, unit(1), unit(-1), v3);
    lemma_grows_trans(v1, v2, v3);
    lemma_grows_trans(v1, v3, v4);
    lemma_grows_trans(v2, v3, v4);
    lemma_grows_trans(v0, v1, v2);
    lemma_grows_trans(v0, v2, v4);
    lemma_open_cone_grows(g, v1, v4, n, origin, 1, max_depth);
    lemma_open_cone_grows(g, v2, v4, so, origin, 1, max_depth);
    lemma_open_cone_grows(g, v3, v4, e, origin, 1, max_depth);
    assert(v0[g.index(origin)]);
    if max_depth >= 0 {
        lemma_pov_within_depth(g, max_depth, origin, vis);
    } else {
        assert(v4 == v0);
        if g.index(p) == g.index(origin) {
            lemma_index_injective(g, p, origin);
        }
    }
    if p != origin && near(origin, p, max_depth) {
        let dx = p.0 - origin.0;
        let dy = p.1 - origin.1;
        if dy < 0 && -dy >= dx && -dy >= -dx {
            lemma_open_cone_has(g, v4, n, origin, max_depth, p, -dy);
        } else if dy > 0 && dy >= dx && dy >= -dx {
            lemma_open_cone_has(g, v4, so, origin, max_depth, p, dy);
        } else if dx > 0 {
            lemma_open_cone_has(g, v4, e, origin, max_depth, p, dx);
        } else {
            lemma_open_cone_has(g, v4, w, origin, max_depth, p, -dx);
        }
    }
}

/// On a grid without walls, visibility is mutual: a pass from `a` onto a
/// layer with nothing visible reveals `b` exactly when a pass from `b`
/// with the same depth reveals `a`.
pub proof fn lemma_open_grid_mutual(g: WallGrid, max_depth: int, a: Pos, b: Pos)
    requires
        g.wf(),
        g.width <= i32::MAX,
        g.height <= i32::MAX,
        wall_free(g),
        g.in_bounds(a),
        g.in_bounds(b),
    ensures
        pov_spec(g, max_depth, a, blank(g))[g.index(b)] == pov_spec(g, max_depth, b, blank(g))[g.index(
            a,
        )],
{
    lemma_open_grid_pov_exact(g, max_depth, a, b);
    lemma_open_grid_pov_exact(g, max_depth, b, a);
}

} // verus!
