//! Laws of the field-of-view pass, stated over the model in
//! `shadow_casting` and proved: a pass only reveals, reveals the origin and
//! the walls next to it, reveals the same cells whatever was visible
//! before, and stays within its depth.
use vstd::prelude::*;

use crate::physics::shadow_casting::{
    Direction, Pos, Slope, WallGrid, cell, cross_coord, depth_coord, is_vertical,
    lemma_index_in_range, pov_spec, row_first, row_last, row_tiles, scan_spec, slope_spec,
    symmetric, unit, walk_spec,
};
use crate::physics::row_geometry::{
    end_inside, lemma_row_span_inside, lemma_row_tile_at, lemma_seed_span, lemma_slope_inside,
    seed_end, seed_start, start_inside,
};

verus! {

/// A visibility layer that fits the grid.
pub open spec fn fits(g: WallGrid, vis: Seq<bool>) -> bool {
    vis.len() == g.width * g.height
}

/// `after` keeps every entry that `before` had set, and its length.
pub open spec fn grows(before: Seq<bool>, after: Seq<bool>) -> bool {
    &&& after.len() == before.len()
    &&& forall|i: int| 0 <= i < before.len() && #[trigger] before[i] ==> after[i]
}

pub(crate) proof fn lemma_mark_grows(g: WallGrid, vis: Seq<bool>, p: Pos)
    requires
        g.wf(),
        fits(g, vis),
    ensures
        grows(vis, g.mark(vis, p)),
{
    if g.in_bounds(p) {
        lemma_index_in_range(g.width, g.height, p);
    }
}

pub(crate) proof fn lemma_grows_trans(a: Seq<bool>, b: Seq<bool>, c: Seq<bool>)
    requires
        grows(a, b),
        grows(b, c),
    ensures
        grows(a, c),
{
}

/// Scanning a row only ever sets entries.
pub proof fn lemma_scan_grows(
    g: WallGrid,
    dir: Direction,
    origin: Pos,
    max_depth: int,
    depth: int,
    start: Slope,
    end: Slope,
    vis: Seq<bool>,
)
    requires
        g.wf(),
        fits(g, vis),
    ensures
        grows(vis, scan_spec(g, dir, origin, max_depth, depth, start, end, vis)),
    decreases max_depth + 1 - depth, 1int, 0int,
{
    if depth <= max_depth {
        let tiles = row_tiles(
            g.width,
            g.height,
            dir,
            origin,
            depth,
            start,
            end,
        );
        lemma_walk_grows(g, dir, origin, max_depth, depth, tiles, 0, start, end, None, vis);
    }
}

/// Walking the rest of a row only ever sets entries.
pub proof fn lemma_walk_grows(
    g: WallGrid,
    dir: Direction,
    origin: Pos,
    max_depth: int,
    depth: int,
    tiles: Seq<Pos>,
    i: int,
    start: Slope,
    end: Slope,
    prev: Option<Pos>,
    vis: Seq<bool>,
)
    requires
        g.wf(),
        fits(g, vis),
    ensures
        grows(vis, walk_spec(g, dir, origin, max_depth, depth, tiles, i, start, end, prev, vis)),
    decreases max_depth + 1 - depth, 0int, tiles.len() - i,
{
    if depth > max_depth {
    } else if i >= tiles.len() {
        if g.is_floor(prev) {
            lemma_scan_grows(g, dir, origin, max_depth, depth + 1, start, end, vis);
        }
    } else {
        let t = tiles[i];
        let vis1 = if g.is_wall(Some(t)) || symmetric(
            dir,
            origin,
            depth,
            start,
            end,
            t,
        ) {
            g.mark(vis, t)
        } else {
            vis
        };
        lemma_mark_grows(g, vis, t);
        let start1 = if g.is_wall(prev) && g.is_floor(Some(t)) {
            slope_spec(dir, origin, t)
        } else {
            start
        };
        let vis2 = if g.is_floor(prev) && g.is_wall(Some(t)) {
            scan_spec(
                g,
                dir,
                origin,
                max_depth,
                depth + 1,
                start1,
                slope_spec(dir, origin, t),
                vis1,
            )
        } else {
            vis1
        };
        if g.is_floor(prev) && g.is_wall(Some(t)) {
            lemma_scan_grows(
                g,
                dir,
                origin,
                max_depth,
                depth + 1,
                start1,
                slope_spec(dir, origin, t),
                vis1,
            );
        }
        lemma_grows_trans(vis, vis1, vis2);
        lemma_walk_grows(g, dir, origin, max_depth, depth, tiles, i + 1, start1, end, Some(t), vis2);
        lemma_grows_trans(
            vis,
            vis2,
            walk_spec(g, dir, origin, max_depth, depth, tiles, i + 1, start1, end, Some(t), vis2),
        );
    }
}

/// A pass never hides a cell: every entry set before `calculate_pov` is
/// still set after it, and the layer keeps its length.
pub proof fn lemma_pov_grows(g: WallGrid, max_depth: int, origin: Pos, vis: Seq<bool>)
    requires
        g.wf(),
        fits(g, vis),
    ensures
        grows(vis, pov_spec(g, max_depth, origin, vis)),
{
    let one = unit(1);
    let minus = unit(-1);
    let v0 = g.mark(vis, origin);
    lemma_mark_grows(g, vis, origin);
    let v1 = scan_spec(g, Direction::North, origin, max_depth, 1, one, minus, v0);
    lemma_scan_grows(g, Direction::North, origin, max_depth, 1, one, minus, v0);
    let v2 = scan_spec(g, Direction::South, origin, max_depth, 1, minus, one, v1);
    lemma_scan_grows(g, Direction::South, origin, max_depth, 1, minus, one, v1);
    let v3 = scan_spec(g, Direction::East, origin, max_depth, 1, minus, one, v2);
    lemma_scan_grows(g, Direction::East, origin, max_depth, 1, minus, one, v2);
    lemma_scan_grows(g, Direction::West, origin, max_depth, 1, one, minus, v3);
    lemma_grows_trans(vis, v0, v1);
    lemma_grows_trans(vis, v1, v2);
    lemma_grows_trans(vis, v2, v3);
    lemma_grows_trans(vis, v3, pov_spec(g, max_depth, origin, vis));
}

/// `pov_spec` as the origin followed by the four quadrant scans.
pub(crate) proof fn lemma_pov_steps(g: WallGrid, max_depth: int, origin: Pos, vis: Seq<bool>)
    ensures
        pov_spec(g, max_depth, origin, vis) == scan_spec(
            g,
            Direction::West,
            origin,
            max_depth,
            1,
            seed_start(Direction::West),
            seed_end(Direction::West),
            scan_spec(
                g,
                Direction::East,
                origin,
                max_depth,
                1,
                seed_start(Direction::East),
                seed_end(Direction::East),
                scan_spec(
                    g,
                    Direction::South,
                    origin,
                    max_depth,
                    1,
                    seed_start(Direction::South),
                    seed_end(Direction::South),
                    scan_spec(
                        g,
                        Direction::North,
                        origin,
                        max_depth,
                        1,
                        seed_start(Direction::North),
                        seed_end(Direction::North),
                        g.mark(vis, origin),
                    ),
                ),
            ),
        ),
{
}

/// A cell next to the origin, on the line of a quadrant's first row, is
/// one of that row's cells.
pub(crate) proof fn lemma_first_row_has(g: WallGrid, dir: Direction, origin: Pos, p: Pos) -> (j: int)
    requires
        g.wf(),
        g.width <= i32::MAX,
        g.height <= i32::MAX,
        g.in_bounds(p),
        is_vertical(dir) ==> p.1 == depth_coord(dir, origin, 1),
        !is_vertical(dir) ==> p.0 == depth_coord(dir, origin, 1),
        cross_coord(dir, origin) - 1 <= cross_coord(dir, p) <= cross_coord(dir, origin) + 1,
    ensures
        0 <= j < row_tiles(g.width, g.height, dir, origin, 1, seed_start(dir), seed_end(dir)).len(),
        row_tiles(g.width, g.height, dir, origin, 1, seed_start(dir), seed_end(dir))[j] == p,
{
    lemma_seed_span(dir, origin, 1);
    let lo = vstd::math::max(cross_coord(dir, origin) - 1, 0);
    cross_coord(dir, p) - lo
}

/// Walking a row sets the entry of every wall cell still ahead in it.
pub(crate) proof fn lemma_walk_shows_walls(
    g: WallGrid,
    dir: Direction,
    origin: Pos,
    max_depth: int,
    depth: int,
    tiles: Seq<Pos>,
    i: int,
    start: Slope,
    end: Slope,
    prev: Option<Pos>,
    vis: Seq<bool>,
    j: int,
)
    requires
        g.wf(),
        fits(g, vis),
        depth <= max_depth,
        0 <= i <= j < tiles.len(),
        g.in_bounds(tiles[j]),
        g.is_wall(Some(tiles[j])),
    ensures
        walk_spec(g, dir, origin, max_depth, depth, tiles, i, start, end, prev, vis)[g.index(
            tiles[j],
        )],
    decreases tiles.len() - i,
{
    let t = tiles[i];
    let vis1 = if g.is_wall(Some(t)) || symmetric(dir, origin, depth, start, end, t) {
        g.mark(vis, t)
    } else {
        vis
    };
    lemma_mark_grows(g, vis, t);
    let start1 = if g.is_wall(prev) && g.is_floor(Some(t)) {
        slope_spec(dir, origin, t)
    } else {
        start
    };
    let vis2 = if g.is_floor(prev) && g.is_wall(Some(t)) {
        scan_spec(g, dir, origin, max_depth, depth + 1, start1, slope_spec(dir, origin, t), vis1)
    } else {
        vis1
    };
    if g.is_floor(prev) && g.is_wall(Some(t)) {
        lemma_scan_grows(
            g,
            dir,
            origin,
            max_depth,
            depth + 1,
            start1,
            slope_spec(dir, origin, t),
            vis1,
        );
    }
    lemma_grows_trans(vis, vis1, vis2);
    let rest = walk_spec(g, dir, origin, max_depth, depth, tiles, i + 1, start1, end, Some(t), vis2);
    if i == j {
        lemma_index_in_range(g.width, g.height, t);
        assert(vis1[g.index(t)]);
        assert(vis2[g.index(t)]);
        lemma_walk_grows(g, dir, origin, max_depth, depth, tiles, i + 1, start1, end, Some(t), vis2);
        assert(rest[g.index(t)]);
    } else {
        lemma_walk_shows_walls(
            g,
            dir,
            origin,
            max_depth,
            depth,
            tiles,
            i + 1,
            start1,
            end,
            Some(t),
            vis2,
            j,
        );
    }
}

/// The origin is visible after a pass from it, wall or not.
pub proof fn lemma_origin_visible(g: WallGrid, max_depth: int, origin: Pos, vis: Seq<bool>)
    requires
        g.wf(),
        fits(g, vis),
        g.in_bounds(origin),
    ensures
        pov_spec(g, max_depth, origin, vis)[g.index(origin)],
{
    lemma_index_in_range(g.width, g.height, origin);
    let v0 = g.mark(vis, origin);
    assert(v0[g.index(origin)]);
    lemma_pov_from_origin_grows(g, max_depth, origin, vis);
}

/// Everything set once the origin is marked stays set through the four
/// quadrant scans.
pub(crate) proof fn lemma_pov_from_origin_grows(g: WallGrid, max_depth: int, origin: Pos, vis: Seq<bool>)
    requires
        g.wf(),
        fits(g, vis),
    ensures
        grows(g.mark(vis, origin), pov_spec(g, max_depth, origin, vis)),
{
    let v0 = g.mark(vis, origin);
    lemma_mark_grows(g, vis, origin);
    lemma_pov_steps(g, max_depth, origin, vis);
    let v1 = scan_spec(g, Direction::North, origin, max_depth, 1, unit(1), unit(-1), v0);
    lemma_scan_grows(g, Direction::North, origin, max_depth, 1, unit(1), unit(-1), v0);
    let v2 = scan_spec(g, Direction::South, origin, max_depth, 1, unit(-1), unit(1), v1);
    lemma_scan_grows(g, Direction::South, origin, max_depth, 1, unit(-1), unit(1), v1);
    let v3 = scan_spec(g, Direction::East, origin, max_depth, 1, unit(-1), unit(1), v2);
    lemma_scan_grows(g, Direction::East, origin, max_depth, 1, unit(-1), unit(1), v2);
    lemma_scan_grows(g, Direction::West, origin, max_depth, 1, unit(1), unit(-1), v3);
    lemma_grows_trans(v0, v1, v2);
    lemma_grows_trans(v0, v2, v3);
    lemma_grows_trans(v0, v3, pov_spec(g, max_depth, origin, vis));
}

/// A wall cell next to the origin, across a side or a corner, is visible
/// after any pass that reaches at least one row out.
pub proof fn lemma_adjacent_wall_visible(
    g: WallGrid,
    max_depth: int,
    origin: Pos,
    vis: Seq<bool>,
    p: Pos,
)
    requires
        g.wf(),
        g.width <= i32::MAX,
        g.height <= i32::MAX,
        fits(g, vis),
        max_depth >= 1,
        g.in_bounds(p),
        g.walled[g.index(p)],
        p != origin,
        origin.0 - 1 <= p.0 <= origin.0 + 1,
        origin.1 - 1 <= p.1 <= origin.1 + 1,
    ensures
        pov_spec(g, max_depth, origin, vis)[g.index(p)],
{
    lemma_index_in_range(g.width, g.height, p);
    lemma_pov_steps(g, max_depth, origin, vis);
    let v0 = g.mark(vis, origin);
    lemma_mark_grows(g, vis, origin);
    let v1 = scan_spec(g, Direction::North, origin, max_depth, 1, unit(1), unit(-1), v0);
    lemma_scan_grows(g, Direction::North, origin, max_depth, 1, unit(1), unit(-1), v0);
    let v2 = scan_spec(g, Direction::South, origin, max_depth, 1, unit(-1), unit(1), v1);
    lemma_scan_grows(g, Direction::South, origin, max_depth, 1, unit(-1), unit(1), v1);
    let v3 = scan_spec(g, Direction::East, origin, max_depth, 1, unit(-1), unit(1), v2);
    lemma_scan_grows(g, Direction::East, origin, max_depth, 1, unit(-1), unit(1), v2);
    let v4 = scan_spec(g, Direction::West, origin, max_depth, 1, unit(1), unit(-1), v3);
    lemma_scan_grows(g, Direction::West, origin, max_depth, 1, unit(1), unit(-1), v3);
    let dir = if p.0 == origin.0 + 1 {
        Direction::East
    } else if p.0 == origin.0 - 1 {
        Direction::West
    } else if p.1 == origin.1 - 1 {
        Direction::North
    } else {
        Direction::South
    };
    let j = lemma_first_row_has(g, dir, origin, p);
    let tiles = row_tiles(g.width, g.height, dir, origin, 1, seed_start(dir), seed_end(dir));
    let before = match dir {
        Direction::North => v0,
        Direction::South => v1,
        Direction::East => v2,
        Direction::West => v3,
    };
    lemma_walk_shows_walls(
        g,
        dir,
        origin,
        max_depth,
        1,
        tiles,
        0,
        seed_start(dir),
        seed_end(dir),
        None,
        before,
        j,
    );
    lemma_grows_trans(v1, v2, v3);
    lemma_grows_trans(v1, v3, v4);
    lemma_grows_trans(v2, v3, v4);
}

/// Entry-wise "or" of two layers.
pub open spec fn union(a: Seq<bool>, b: Seq<bool>) -> Seq<bool> {
    Seq::new(a.len(), |i: int| a[i] || b[i])
}

/// A layer of the same length as `vis` with nothing set, as left by
/// `clear_visible`.
pub open spec fn cleared(vis: Seq<bool>) -> Seq<bool> {
    Seq::new(vis.len(), |i: int| false)
}

pub(crate) proof fn lemma_mark_union(g: WallGrid, v: Seq<bool>, e: Seq<bool>, p: Pos)
    requires
        g.wf(),
        fits(g, v),
        e.len() == v.len(),
    ensures
        g.mark(union(v, e), p) == union(g.mark(v, p), e),
{
    if g.in_bounds(p) {
        lemma_index_in_range(g.width, g.height, p);
    }
    assert(g.mark(union(v, e), p) =~= union(g.mark(v, p), e));
}

/// What a scan sets does not depend on what was set before it.
pub proof fn lemma_scan_union(
    g: WallGrid,
    dir: Direction,
    origin: Pos,
    max_depth: int,
    depth: int,
    start: Slope,
    end: Slope,
    v: Seq<bool>,
    e: Seq<bool>,
)
    requires
        g.wf(),
        fits(g, v),
        e.len() == v.len(),
    ensures
        scan_spec(g, dir, origin, max_depth, depth, start, end, union(v, e)) == union(
            scan_spec(g, dir, origin, max_depth, depth, start, end, v),
            e,
        ),
    decreases max_depth + 1 - depth, 1int, 0int,
{
    if depth <= max_depth {
        let tiles = row_tiles(g.width, g.height, dir, origin, depth, start, end);
        lemma_walk_union(g, dir, origin, max_depth, depth, tiles, 0, start, end, None, v, e);
    }
}

/// The walking half of `lemma_scan_union`.
pub proof fn lemma_walk_union(
    g: WallGrid,
    dir: Direction,
    origin: Pos,
    max_depth: int,
    depth: int,
    tiles: Seq<Pos>,
    i: int,
    start: Slope,
    end: Slope,
    prev: Option<Pos>,
    v: Seq<bool>,
    e: Seq<bool>,
)
    requires
        g.wf(),
        fits(g, v),
        e.len() == v.len(),
    ensures
        walk_spec(g, dir, origin, max_depth, depth, tiles, i, start, end, prev, union(v, e))
            == union(walk_spec(g, dir, origin, max_depth, depth, tiles, i, start, end, prev, v), e),
    decreases max_depth + 1 - depth, 0int, tiles.len() - i,
{
    if depth > max_depth {
    } else if i >= tiles.len() {
        if g.is_floor(prev) {
            lemma_scan_union(g, dir, origin, max_depth, depth + 1, start, end, v, e);
        }
    } else {
        let t = tiles[i];
        let shown = g.is_wall(Some(t)) || symmetric(dir, origin, depth, start, end, t);
        let vis1 = if shown {
            g.mark(v, t)
        } else {
            v
        };
        lemma_mark_union(g, v, e, t);
        lemma_mark_grows(g, v, t);
        let start1 = if g.is_wall(prev) && g.is_floor(Some(t)) {
            slope_spec(dir, origin, t)
        } else {
            start
        };
        let split = g.is_floor(prev) && g.is_wall(Some(t));
        let vis2 = if split {
            scan_spec(g, dir, origin, max_depth, depth + 1, start1, slope_spec(dir, origin, t), vis1)
        } else {
            vis1
        };
        if split {
            lemma_scan_union(
                g,
                dir,
                origin,
                max_depth,
                depth + 1,
                start1,
                slope_spec(dir, origin, t),
                vis1,
                e,
            );
            lemma_scan_grows(
                g,
                dir,
                origin,
                max_depth,
                depth + 1,
                start1,
                slope_spec(dir, origin, t),
                vis1,
            );
        }
        lemma_walk_union(
            g,
            dir,
            origin,
            max_depth,
            depth,
            tiles,
            i + 1,
            start1,
            end,
            Some(t),
            vis2,
            e,
        );
    }
}

/// A pass sets the same cells whatever was visible before it.
pub proof fn lemma_pov_union(g: WallGrid, max_depth: int, origin: Pos, v: Seq<bool>, e: Seq<bool>)
    requires
        g.wf(),
        fits(g, v),
        e.len() == v.len(),
    ensures
        pov_spec(g, max_depth, origin, union(v, e)) == union(pov_spec(g, max_depth, origin, v), e),
{
    lemma_pov_steps(g, max_depth, origin, v);
    lemma_pov_steps(g, max_depth, origin, union(v, e));
    lemma_mark_union(g, v, e, origin);
    let v0 = g.mark(v, origin);
    lemma_mark_grows(g, v, origin);
    lemma_scan_union(g, Direction::North, origin, max_depth, 1, unit(1), unit(-1), v0, e);
    lemma_scan_grows(g, Direction::North, origin, max_depth, 1, unit(1), unit(-1), v0);
    let v1 = scan_spec(g, Direction::North, origin, max_depth, 1, unit(1), unit(-1), v0);
    lemma_scan_union(g, Direction::South, origin, max_depth, 1, unit(-1), unit(1), v1, e);
    lemma_scan_grows(g, Direction::South, origin, max_depth, 1, unit(-1), unit(1), v1);
    let v2 = scan_spec(g, Direction::South, origin, max_depth, 1, unit(-1), unit(1), v1);
    lemma_scan_union(g, Direction::East, origin, max_depth, 1, unit(-1), unit(1), v2, e);
    lemma_scan_grows(g, Direction::East, origin, max_depth, 1, unit(-1), unit(1), v2);
    let v3 = scan_spec(g, Direction::East, origin, max_depth, 1, unit(-1), unit(1), v2);
    lemma_scan_union(g, Direction::West, origin, max_depth, 1, unit(1), unit(-1), v3, e);
}

/// Running a pass a second time, with the same walls and origin, changes
/// nothing.
pub proof fn lemma_pov_idempotent(g: WallGrid, max_depth: int, origin: Pos, vis: Seq<bool>)
    requires
        g.wf(),
        fits(g, vis),
    ensures
        pov_spec(g, max_depth, origin, pov_spec(g, max_depth, origin, vis)) == pov_spec(
            g,
            max_depth,
            origin,
            vis,
        ),
{
    let blank = cleared(vis);
    let seen = pov_spec(g, max_depth, origin, blank);
    lemma_pov_grows(g, max_depth, origin, blank);
    assert(union(blank, vis) =~= vis);
    lemma_pov_union(g, max_depth, origin, blank, vis);
    let once = pov_spec(g, max_depth, origin, vis);
    assert(once == union(seen, vis));
    assert(union(blank, once) =~= once);
    lemma_pov_union(g, max_depth, origin, blank, once);
    assert(union(seen, once) =~= once);
}

/// Clearing the visible layer and running a pass gives the same layer
/// each time it is done with the same walls and origin.
pub proof fn lemma_cleared_pass_repeats(g: WallGrid, max_depth: int, origin: Pos, vis: Seq<bool>)
    requires
        g.wf(),
        fits(g, vis),
    ensures
        pov_spec(g, max_depth, origin, cleared(pov_spec(g, max_depth, origin, cleared(vis))))
            == pov_spec(g, max_depth, origin, cleared(vis)),
{
    let first = pov_spec(g, max_depth, origin, cleared(vis));
    lemma_pov_grows(g, max_depth, origin, cleared(vis));
    assert(cleared(first) =~= cleared(vis));
}

/// Cells within `d` of `origin` on both axes.
pub open spec fn near(origin: Pos, p: Pos, d: int) -> bool {
    &&& origin.0 - d <= p.0 <= origin.0 + d
    &&& origin.1 - d <= p.1 <= origin.1 + d
}

/// The cells within `d` of `origin` on both axes, as a region.
pub open spec fn near_region(origin: Pos, d: int) -> spec_fn(Pos) -> bool {
    |p: Pos| near(origin, p, d)
}

/// Every cell that `after` shows and `before` did not lies in `region`.
pub open spec fn new_cells_within(
    g: WallGrid,
    before: Seq<bool>,
    after: Seq<bool>,
    region: spec_fn(Pos) -> bool,
) -> bool {
    forall|p: Pos|
        g.in_bounds(p) && #[trigger] after[g.index(p)] && !before[g.index(p)] ==> region(p)
}

/// Distinct cells of the grid have distinct indices.
pub(crate) proof fn lemma_index_injective(g: WallGrid, p: Pos, q: Pos)
    requires
        g.wf(),
        g.in_bounds(p),
        g.in_bounds(q),
        g.index(p) == g.index(q),
    ensures
        p == q,
{
    let w = g.width;
    if p.1 < q.1 {
        assert(p.1 * w + p.0 < q.1 * w + q.0) by (nonlinear_arith)
            requires p.1 < q.1, 0 <= p.0 < w, 0 <= q.0;
    } else if p.1 > q.1 {
        assert(q.1 * w + q.0 < p.1 * w + p.0) by (nonlinear_arith)
            requires q.1 < p.1, 0 <= q.0 < w, 0 <= p.0;
    }
}

pub(crate) proof fn lemma_mark_within(g: WallGrid, vis: Seq<bool>, t: Pos, region: spec_fn(Pos) -> bool)
    requires
        g.wf(),
        fits(g, vis),
        region(t),
    ensures
        new_cells_within(g, vis, g.mark(vis, t), region),
{
    if g.in_bounds(t) {
        lemma_index_in_range(g.width, g.height, t);
        assert forall|p: Pos|
            g.in_bounds(p) && #[trigger] g.mark(vis, t)[g.index(p)] && !vis[g.index(p)] implies region(
            p,
        ) by {
            lemma_index_in_range(g.width, g.height, p);
            if g.index(p) == g.index(t) {
                lemma_index_injective(g, p, t);
            }
        }
    }
}

pub(crate) proof fn lemma_within_trans(
    g: WallGrid,
    a: Seq<bool>,
    b: Seq<bool>,
    c: Seq<bool>,
    region: spec_fn(Pos) -> bool,
)
    requires
        g.wf(),
        fits(g, a),
        grows(a, b),
        new_cells_within(g, a, b, region),
        new_cells_within(g, b, c, region),
    ensures
        new_cells_within(g, a, c, region),
{
    assert forall|p: Pos|
        g.in_bounds(p) && #[trigger] c[g.index(p)] && !a[g.index(p)] implies region(p) by {
        lemma_index_in_range(g.width, g.height, p);
        if b[g.index(p)] {
        } else {
        }
    }
}

/// Cells that a scan reveals lie within `max_depth` of the origin on both
/// axes, when its slopes are inside the quadrant.
pub proof fn lemma_scan_near(
    g: WallGrid,
    dir: Direction,
    origin: Pos,
    max_depth: int,
    depth: int,
    start: Slope,
    end: Slope,
    vis: Seq<bool>,
)
    requires
        g.wf(),
        g.width <= i32::MAX,
        g.height <= i32::MAX,
        fits(g, vis),
        depth >= 1,
        start_inside(dir, start),
        end_inside(dir, end),
    ensures
        new_cells_within(
            g,
            vis,
            scan_spec(g, dir, origin, max_depth, depth, start, end, vis),
            near_region(origin, max_depth),
        ),
    decreases max_depth + 1 - depth, 1int, 0int,
{
    if depth <= max_depth {
        let tiles = row_tiles(g.width, g.height, dir, origin, depth, start, end);
        lemma_walk_near(g, dir, origin, max_depth, depth, start, tiles, 0, start, end, None, vis);
    }
}

/// The walking half of `lemma_scan_near`.
pub proof fn lemma_walk_near(
    g: WallGrid,
    dir: Direction,
    origin: Pos,
    max_depth: int,
    depth: int,
    first: Slope,
    tiles: Seq<Pos>,
    i: int,
    start: Slope,
    end: Slope,
    prev: Option<Pos>,
    vis: Seq<bool>,
)
    requires
        g.wf(),
        g.width <= i32::MAX,
        g.height <= i32::MAX,
        fits(g, vis),
        depth >= 1,
        0 <= i,
        start_inside(dir, first),
        start_inside(dir, start),
        end_inside(dir, end),
        tiles == row_tiles(g.width, g.height, dir, origin, depth, first, end),
        prev is Some ==> i >= 1,
    ensures
        new_cells_within(
            g,
            vis,
            walk_spec(g, dir, origin, max_depth, depth, tiles, i, start, end, prev, vis),
            near_region(origin, max_depth),
        ),
    decreases max_depth + 1 - depth, 0int, tiles.len() - i,
{
    if depth > max_depth {
    } else if i >= tiles.len() {
        if g.is_floor(prev) {
            lemma_scan_near(g, dir, origin, max_depth, depth + 1, start, end, vis);
        }
    } else {
        let t = tiles[i];
        lemma_row_tile_at(g, dir, origin, depth, first, end, i);
        lemma_row_span_inside(dir, origin, depth, first, end);
        lemma_slope_inside(dir, origin, t, depth);
        assert(near(origin, t, max_depth));
        let shown = g.is_wall(Some(t)) || symmetric(dir, origin, depth, start, end, t);
        let vis1 = if shown {
            g.mark(vis, t)
        } else {
            vis
        };
        lemma_mark_grows(g, vis, t);
        lemma_mark_within(g, vis, t, near_region(origin, max_depth));
        let start1 = if g.is_wall(prev) && g.is_floor(Some(t)) {
            slope_spec(dir, origin, t)
        } else {
            start
        };
        let split = g.is_floor(prev) && g.is_wall(Some(t));
        let vis2 = if split {
            scan_spec(g, dir, origin, max_depth, depth + 1, start1, slope_spec(dir, origin, t), vis1)
        } else {
            vis1
        };
        if split {
            lemma_scan_near(
                g,
                dir,
                origin,
                max_depth,
                depth + 1,
                start1,
                slope_spec(dir, origin, t),
                vis1,
            );
            lemma_scan_grows(
                g,
                dir,
                origin,
                max_depth,
                depth + 1,
                start1,
                slope_spec(dir, origin, t),
                vis1,
            );
            lemma_within_trans(g, vis, vis1, vis2, near_region(origin, max_depth));
        }
        lemma_grows_trans(vis, vis1, vis2);
        lemma_walk_near(
            g,
            dir,
            origin,
            max_depth,
            depth,
            first,
            tiles,
            i + 1,
            start1,
            end,
            Some(t),
            vis2,
        );
        lemma_within_trans(
            g,
            vis,
            vis2,
            walk_spec(g, dir, origin, max_depth, depth, tiles, i + 1, start1, end, Some(t), vis2),
            near_region(origin, max_depth),
        );
    }
}

/// No pass reveals a cell further than `max_depth` cells from the origin
/// along either axis, whatever the walls.
pub proof fn lemma_pov_within_depth(g: WallGrid, max_depth: int, origin: Pos, vis: Seq<bool>)
    requires
        g.wf(),
        g.width <= i32::MAX,
        g.height <= i32::MAX,
        fits(g, vis),
        max_depth >= 0,
    ensures
        forall|p: Pos|
            g.in_bounds(p) && #[trigger] pov_spec(g, max_depth, origin, vis)[g.index(p)]
                && !vis[g.index(p)] ==> near(origin, p, max_depth),
{
    lemma_pov_steps(g, max_depth, origin, vis);
    let v0 = g.mark(vis, origin);
    lemma_mark_grows(g, vis, origin);
    lemma_mark_within(g, vis, origin, near_region(origin, max_depth));
    let v1 = scan_spec(g, Direction::North, origin, max_depth, 1, unit(1), unit(-1), v0);
    lemma_scan_grows(g, Direction::North, origin, max_depth, 1, unit(1), unit(-1), v0);
    lemma_scan_near(g, Direction::North, origin, max_depth, 1, unit(1), unit(-1), v0);
    let v2 = scan_spec(g, Direction::South, origin, max_depth, 1, unit(-1), unit(1), v1);
    lemma_scan_grows(g, Direction::South, origin, max_depth, 1, unit(-1), unit(1), v1);
    lemma_scan_near(g, Direction::South, origin, max_depth, 1, unit(-1), unit(1), v1);
    let v3 = scan_spec(g, Direction::East, origin, max_depth, 1, unit(-1), unit(1), v2);
    lemma_scan_grows(g, Direction::East, origin, max_depth, 1, unit(-1), unit(1), v2);
    lemma_scan_near(g, Direction::East, origin, max_depth, 1, unit(-1), unit(1), v2);
    let v4 = scan_spec(g, Direction::West, origin, max_depth, 1, unit(1), unit(-1), v3);
    lemma_scan_near(g, Direction::West, origin, max_depth, 1, unit(1), unit(-1), v3);
    lemma_within_trans(g, vis, v0, v1, near_region(origin, max_depth));
    lemma_grows_trans(vis, v0, v1);
    lemma_within_trans(g, vis, v1, v2, near_region(origin, max_depth));
    lemma_grows_trans(vis, v1, v2);
    lemma_within_trans(g, vis, v2, v3, near_region(origin, max_depth));
    lemma_grows_trans(vis, v2, v3);
    lemma_within_trans(g, vis, v3, v4, near_region(origin, max_depth));
}

} // verus!
