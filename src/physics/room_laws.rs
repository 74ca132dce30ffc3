//! Laws of the field-of-view pass in a rectangular room walled in on its
//! border: nothing outside the room is revealed, and in a room free of
//! inner walls, everything in it is.
use vstd::prelude::*;

use crate::physics::shadow_casting::{
    Direction, Pos, Slope, WallGrid, cell, cross_coord, depth_coord, is_vertical,
    lemma_index_in_range, pov_spec, row_first, row_last, row_tiles, scan_spec, slope_spec,
    symmetric, unit, walk_spec,
};
use crate::physics::row_geometry::{
    bound_at, end_inside, lemma_first_step, lemma_last_step, lemma_lower_narrowed,
    lemma_narrowed_first, lemma_narrowed_first_exact, lemma_narrowed_last,
    lemma_narrowed_last_exact, lemma_row_span_inside, lemma_row_tile_at, lemma_seed_span,
    lemma_slope_inside, lemma_upper_narrowed, seed_end, seed_start, start_inside,
};
use crate::physics::visibility_laws::{
    fits, grows, lemma_grows_trans, lemma_mark_grows, lemma_mark_within, lemma_pov_steps,
    lemma_scan_grows, lemma_walk_grows, lemma_within_trans, new_cells_within,
};

verus! {

/// A rectangle of cells, its border included.
pub struct Room {
    pub left: int,
    pub top: int,
    pub right: int,
    pub bottom: int,
}

impl Room {
    pub open spec fn contains(self, p: Pos) -> bool {
        self.left <= p.0 <= self.right && self.top <= p.1 <= self.bottom
    }

    /// Cells of the border.
    pub open spec fn on_border(self, p: Pos) -> bool {
        &&& self.contains(p)
        &&& p.0 == self.left || p.0 == self.right || p.1 == self.top || p.1 == self.bottom
    }

    /// Cells inside the border.
    pub open spec fn encloses(self, p: Pos) -> bool {
        self.left < p.0 < self.right && self.top < p.1 < self.bottom
    }

    /// The room lies in the grid and a wall stands on every border cell.
    pub open spec fn walled_in(self, g: WallGrid) -> bool {
        &&& 0 <= self.left < self.right < g.width
        &&& 0 <= self.top < self.bottom < g.height
        &&& forall|p: Pos| self.on_border(p) ==> #[trigger] g.walled[g.index(p)]
    }

    pub open spec fn region(self) -> spec_fn(Pos) -> bool {
        |p: Pos| self.contains(p)
    }

    /// The lowest cross coordinate of the room in the sweep of `dir`.
    pub open spec fn cross_lo(self, dir: Direction) -> int {
        if is_vertical(dir) {
            self.left
        } else {
            self.top
        }
    }

    pub open spec fn cross_hi(self, dir: Direction) -> int {
        if is_vertical(dir) {
            self.right
        } else {
            self.bottom
        }
    }

    /// The depth, from `origin`, of the wall that closes the sweep of `dir`.
    pub open spec fn far(self, dir: Direction, origin: Pos) -> int {
        match dir {
            Direction::North => origin.1 - self.top,
            Direction::South => self.bottom - origin.1,
            Direction::East => self.right - origin.0,
            Direction::West => origin.0 - self.left,
        }
    }
}

/// A cell of a row inside the room's depth, within its cross bounds, lies
/// in the room; on a cross bound or at the closing wall it is a wall.
pub(crate) proof fn lemma_room_cell(
    g: WallGrid,
    room: Room,
    dir: Direction,
    origin: Pos,
    depth: int,
    t: Pos,
)
    requires
        g.wf(),
        room.walled_in(g),
        room.encloses(origin),
        1 <= depth <= room.far(dir, origin),
        is_vertical(dir) ==> t.1 == depth_coord(dir, origin, depth),
        !is_vertical(dir) ==> t.0 == depth_coord(dir, origin, depth),
        room.cross_lo(dir) <= cross_coord(dir, t) <= room.cross_hi(dir),
    ensures
        room.contains(t),
        g.in_bounds(t),
        cross_coord(dir, t) == room.cross_lo(dir) ==> g.is_wall(Some(t)),
        cross_coord(dir, t) == room.cross_hi(dir) ==> g.is_wall(Some(t)),
        depth == room.far(dir, origin) ==> g.is_wall(Some(t)),
{
    assert(room.contains(t));
    if room.on_border(t) {
        assert(g.walled[g.index(t)]);
    }
}

/// Cells that a scan reveals lie in the room, when its row lies within
/// the room's cross bounds and its depth within the closing wall.
pub proof fn lemma_scan_in_room(
    g: WallGrid,
    room: Room,
    dir: Direction,
    origin: Pos,
    max_depth: int,
    depth: int,
    start: Slope,
    end: Slope,
    vis: Seq<bool>,
)
    requires
        g.wf(),
        g.width <= i32::MAX,
        g.height <= i32::MAX,
        fits(g, vis),
        room.walled_in(g),
        room.encloses(origin),
        1 <= depth <= room.far(dir, origin),
        start_inside(dir, start),
        end_inside(dir, end),
        row_first(dir, origin, depth, start) >= room.cross_lo(dir),
        row_last(dir, origin, depth, end) <= room.cross_hi(dir),
    ensures
        new_cells_within(
            g,
            vis,
            scan_spec(g, dir, origin, max_depth, depth, start, end, vis),
            room.region(),
        ),
    decreases max_depth + 1 - depth, 1int, 0int,
{
    if depth <= max_depth {
        let tiles = row_tiles(g.width, g.height, dir, origin, depth, start, end);
        lemma_walk_in_room(
            g,
            room,
            dir,
            origin,
            max_depth,
            depth,
            start,
            tiles,
            0,
            start,
            end,
            None,
            vis,
        );
    }
}

/// The walking half of `lemma_scan_in_room`: while no floor cell has been
/// met in the row, its start may still lie outside the room one row on.
pub proof fn lemma_walk_in_room(
    g: WallGrid,
    room: Room,
    dir: Direction,
    origin: Pos,
    max_depth: int,
    depth: int,
    first: Slope,
    tiles: Seq<Pos>,
    i: int,
    start: Slope,
    end: Slope,
    prev: Option<Pos>,
    vis: Seq<bool>,
)
    requires
        g.wf(),
        g.width <= i32::MAX,
        g.height <= i32::MAX,
        fits(g, vis),
        room.walled_in(g),
        room.encloses(origin),
        1 <= depth <= room.far(dir, origin),
        start_inside(dir, first),
        start_inside(dir, start),
        end_inside(dir, end),
        row_first(dir, origin, depth, first) >= room.cross_lo(dir),
        row_last(dir, origin, depth, end) <= room.cross_hi(dir),
        tiles == row_tiles(g.width, g.height, dir, origin, depth, first, end),
        0 <= i <= tiles.len(),
        i == 0 ==> prev is None && start == first,
        i > 0 ==> prev == Some(tiles[i - 1]),
        row_first(dir, origin, depth + 1, start) >= room.cross_lo(dir) || forall|j: int|
            0 <= j < i ==> !g.is_floor(Some(#[trigger] tiles[j])),
    ensures
        new_cells_within(
            g,
            vis,
            walk_spec(g, dir, origin, max_depth, depth, tiles, i, start, end, prev, vis),
            room.region(),
        ),
    decreases max_depth + 1 - depth, 0int, tiles.len() - i,
{
    lemma_row_span_inside(dir, origin, depth, first, end);
    if depth > max_depth {
    } else if i >= tiles.len() {
        if g.is_floor(prev) {
            let last = tiles[i - 1];
            lemma_row_tile_at(g, dir, origin, depth, first, end, i - 1);
            lemma_room_cell(g, room, dir, origin, depth, last);
            assert(cross_coord(dir, last) == row_last(dir, origin, depth, end));
            lemma_last_step(dir, origin, depth, end);
            lemma_scan_in_room(g, room, dir, origin, max_depth, depth + 1, start, end, vis);
        }
    } else {
        let t = tiles[i];
        lemma_row_tile_at(g, dir, origin, depth, first, end, i);
        lemma_room_cell(g, room, dir, origin, depth, t);
        lemma_slope_inside(dir, origin, t, depth);
        let shown = g.is_wall(Some(t)) || symmetric(dir, origin, depth, start, end, t);
        let vis1 = if shown {
            g.mark(vis, t)
        } else {
            vis
        };
        lemma_mark_grows(g, vis, t);
        lemma_mark_within(g, vis, t, room.region());
        let start1 = if g.is_wall(prev) && g.is_floor(Some(t)) {
            slope_spec(dir, origin, t)
        } else {
            start
        };
        if g.is_wall(prev) && g.is_floor(Some(t)) {
            let before = tiles[i - 1];
            lemma_row_tile_at(g, dir, origin, depth, first, end, i - 1);
            lemma_narrowed_first(dir, origin, t, depth);
        } else if i == 0 && g.is_floor(Some(t)) {
            lemma_first_step(dir, origin, depth, start);
        }
        let split = g.is_floor(prev) && g.is_wall(Some(t));
        let vis2 = if split {
            scan_spec(g, dir, origin, max_depth, depth + 1, start1, slope_spec(dir, origin, t), vis1)
        } else {
            vis1
        };
        if split {
            let before = tiles[i - 1];
            lemma_row_tile_at(g, dir, origin, depth, first, end, i - 1);
            lemma_room_cell(g, room, dir, origin, depth, before);
            lemma_narrowed_last(dir, origin, t, depth);
            lemma_scan_in_room(
                g,
                room,
                dir,
                origin,
                max_depth,
                depth + 1,
                start1,
                slope_spec(dir, origin, t),
                vis1,
            );
            lemma_scan_grows(
                g,
                dir,
                origin,
                max_depth,
                depth + 1,
                start1,
                slope_spec(dir, origin, t),
                vis1,
            );
            lemma_within_trans(g, vis, vis1, vis2, room.region());
        }
        lemma_grows_trans(vis, vis1, vis2);
        lemma_walk_in_room(
            g,
            room,
            dir,
            origin,
            max_depth,
            depth,
            first,
            tiles,
            i + 1,
            start1,
            end,
            Some(t),
            vis2,
        );
        lemma_within_trans(
            g,
            vis,
            vis2,
            walk_spec(g, dir, origin, max_depth, depth, tiles, i + 1, start1, end, Some(t), vis2),
            room.region(),
        );
    }
}

/// From inside a room walled in on every border cell, a pass reveals
/// nothing outside the room, whatever its depth.
pub proof fn lemma_pov_stays_in_room(
    g: WallGrid,
    room: Room,
    max_depth: int,
    origin: Pos,
    vis: Seq<bool>,
)
    requires
        g.wf(),
        g.width <= i32::MAX,
        g.height <= i32::MAX,
        fits(g, vis),
        room.walled_in(g),
        room.encloses(origin),
    ensures
        forall|p: Pos|
            g.in_bounds(p) && #[trigger] pov_spec(g, max_depth, origin, vis)[g.index(p)]
                && !vis[g.index(p)] ==> room.contains(p),
{
    let region = room.region();
    lemma_seed_span(Direction::North, origin, 1);
    lemma_seed_span(Direction::South, origin, 1);
    lemma_seed_span(Direction::East, origin, 1);
    lemma_seed_span(Direction::West, origin, 1);
    lemma_pov_steps(g, max_depth, origin, vis);
    let v0 = g.mark(vis, origin);
    lemma_mark_grows(g, vis, origin);
    lemma_mark_within(g, vis, origin, region);
    let v1 = scan_spec(g, Direction::North, origin, max_depth, 1, unit(1), unit(-1), v0);
    lemma_scan_grows(g, Direction::North, origin, max_depth, 1, unit(1), unit(-1), v0);
    lemma_scan_in_room(g, room, Direction::North, origin, max_depth, 1, unit(1), unit(-1), v0);
    let v2 = scan_spec(g, Direction::South, origin, max_depth, 1, unit(-1), unit(1), v1);
    lemma_scan_grows(g, Direction::South, origin, max_depth, 1, unit(-1), unit(1), v1);
    lemma_scan_in_room(g, room, Direction::South, origin, max_depth, 1, unit(-1), unit(1), v1);
    let v3 = scan_spec(g, Direction::East, origin, max_depth, 1, unit(-1), unit(1), v2);
    lemma_scan_grows(g, Direction::East, origin, max_depth, 1, unit(-1), unit(1), v2);
    lemma_scan_in_room(g, room, Direction::East, origin, max_depth, 1, unit(-1), unit(1), v2);
    let v4 = scan_spec(g, Direction::West, origin, max_depth, 1, unit(1), unit(-1), v3);
    lemma_scan_in_room(g, room, Direction::West, origin, max_depth, 1, unit(1), unit(-1), v3);
    lemma_within_trans(g, vis, v0, v1, region);
    lemma_grows_trans(vis, v0, v1);
    lemma_within_trans(g, vis, v1, v2, region);
    lemma_grows_trans(vis, v1, v2);
    lemma_within_trans(g, vis, v2, v3, region);
    lemma_grows_trans(vis, v2, v3);
    lemma_within_trans(g, vis, v3, v4, region);
}

impl Room {
    /// No wall stands inside the border.
    pub open spec fn open_inside(self, g: WallGrid) -> bool {
        forall|p: Pos| self.encloses(p) ==> !#[trigger] g.walled[g.index(p)]
    }

    /// Offset from the origin of the border line on the start side.
    pub open spec fn lo_off(self, dir: Direction, origin: Pos) -> int {
        self.cross_lo(dir) - cross_coord(dir, origin)
    }

    /// Offset from the origin of the border line on the end side.
    pub open spec fn hi_off(self, dir: Direction, origin: Pos) -> int {
        self.cross_hi(dir) - cross_coord(dir, origin)
    }

    /// Cross offsets, from the origin, of the cells of the quadrant's cone
    /// at `depth` that lie in the room.
    pub open spec fn span_lo(self, dir: Direction, origin: Pos, depth: int) -> int {
        vstd::math::max(-depth, self.lo_off(dir, origin))
    }

    pub open spec fn span_hi(self, dir: Direction, origin: Pos, depth: int) -> int {
        vstd::math::min(depth, self.hi_off(dir, origin))
    }

    /// Start slope of the row that reaches `depth` in an open room: the
    /// first slope until the start border is met, then the slope to the
    /// cell just inside it one row back.
    pub open spec fn canon_start(self, dir: Direction, origin: Pos, depth: int) -> Slope {
        if depth <= -self.lo_off(dir, origin) {
            seed_start(dir)
        } else {
            slope_spec(dir, origin, cell(dir, origin, depth - 1, self.cross_lo(dir) + 1))
        }
    }

    /// End slope of the row that reaches `depth` in an open room: the first
    /// slope until the end border is met, then the slope to that border
    /// one row back.
    pub open spec fn canon_end(self, dir: Direction, origin: Pos, depth: int) -> Slope {
        if depth <= self.hi_off(dir, origin) {
            seed_end(dir)
        } else {
            slope_spec(dir, origin, cell(dir, origin, depth - 1, self.cross_hi(dir)))
        }
    }

    /// `vis` shows every cell of the quadrant's cone in the room from
    /// `depth` out to the closing wall.
    pub open spec fn cone_shown(
        self,
        g: WallGrid,
        vis: Seq<bool>,
        dir: Direction,
        origin: Pos,
        depth: int,
    ) -> bool {
        forall|k: int, x: int|
            depth <= k <= self.far(dir, origin) && cross_coord(dir, origin) + self.span_lo(
                dir,
                origin,
                k,
            ) <= x <= cross_coord(dir, origin) + self.span_hi(dir, origin, k) ==> vis[g.index(
                #[trigger] cell(dir, origin, k, x),
            )]
    }
}

/// The requirements shared by the lemmas on an open room.
pub open spec fn open_room(g: WallGrid, room: Room, origin: Pos) -> bool {
    &&& g.wf()
    &&& g.width <= i32::MAX
    &&& g.height <= i32::MAX
    &&& room.walled_in(g)
    &&& room.open_inside(g)
    &&& room.encloses(origin)
}

/// A cell of the quadrant at `depth` with cross coordinate `x` in the room:
/// where it lies, and that it is a wall exactly on the border.
pub(crate) proof fn lemma_open_room_cell(
    g: WallGrid,
    room: Room,
    dir: Direction,
    origin: Pos,
    depth: int,
    x: int,
)
    requires
        open_room(g, room, origin),
        1 <= depth <= room.far(dir, origin),
        room.cross_lo(dir) <= x <= room.cross_hi(dir),
    ensures
        ({
            let t = cell(dir, origin, depth, x);
            &&& g.in_bounds(t)
            &&& room.contains(t)
            &&& cross_coord(dir, t) == x
            &&& is_vertical(dir) ==> t.1 == depth_coord(dir, origin, depth)
            &&& !is_vertical(dir) ==> t.0 == depth_coord(dir, origin, depth)
            &&& g.is_wall(Some(t)) <==> (x == room.cross_lo(dir) || x == room.cross_hi(dir) || depth
                == room.far(dir, origin))
            &&& g.is_floor(Some(t)) <==> !g.is_wall(Some(t))
        }),
{
    let t = cell(dir, origin, depth, x);
    assert(room.contains(t));
    if room.on_border(t) {
        assert(g.walled[g.index(t)]);
    } else {
        assert(room.encloses(t));
        assert(!g.walled[g.index(t)]);
    }
}

/// The row that reaches `depth` spans exactly the cone's cells in the room,
/// and its sector bounds let every floor cell of it be seen.
#[verifier::rlimit(40)]
pub(crate) proof fn lemma_canon_row(g: WallGrid, room: Room, dir: Direction, origin: Pos, depth: int)
    requires
        open_room(g, room, origin),
        1 <= depth <= room.far(dir, origin),
    ensures
        row_first(dir, origin, depth, room.canon_start(dir, origin, depth)) == cross_coord(
            dir,
            origin,
        ) + room.span_lo(dir, origin, depth),
        row_last(dir, origin, depth, room.canon_end(dir, origin, depth)) == cross_coord(dir, origin)
            + room.span_hi(dir, origin, depth),
        bound_at(dir, depth, room.canon_start(dir, origin, depth)) <= vstd::math::max(
            -depth,
            room.lo_off(dir, origin) + 1,
        ),
        room.span_lo(dir, origin, depth) == room.lo_off(dir, origin) ==> bound_at(
            dir,
            depth,
            room.canon_start(dir, origin, depth + 1),
        ) <= room.lo_off(dir, origin) + 1,
        bound_at(dir, depth, room.canon_end(dir, origin, depth)) >= vstd::math::min(
            depth,
            room.hi_off(dir, origin) - 1,
        ),
{
    let k = depth;
    let lo = room.lo_off(dir, origin);
    let hi = room.hi_off(dir, origin);
    lemma_seed_span(dir, origin, k);
    if k <= -lo {
    } else {
        let t0 = cell(dir, origin, k - 1, room.cross_lo(dir) + 1);
        lemma_open_room_cell(g, room, dir, origin, k - 1, room.cross_lo(dir) + 1);
        lemma_narrowed_first_exact(dir, origin, t0, k - 1);
        lemma_lower_narrowed(dir, origin, t0, k - 1, k);
    }
    if room.span_lo(dir, origin, k) == lo {
        let t0 = cell(dir, origin, k, room.cross_lo(dir) + 1);
        lemma_open_room_cell(g, room, dir, origin, k, room.cross_lo(dir) + 1);
        lemma_lower_narrowed(dir, origin, t0, k, k);
    }
    if k <= hi {
    } else {
        let t1 = cell(dir, origin, k - 1, room.cross_hi(dir));
        lemma_open_room_cell(g, room, dir, origin, k - 1, room.cross_hi(dir));
        lemma_narrowed_last_exact(dir, origin, t1, k - 1);
        lemma_upper_narrowed(dir, origin, t1, k - 1, k);
    }
}

/// The cells of the row that reaches `depth` in an open room.
pub(crate) proof fn lemma_canon_tiles(g: WallGrid, room: Room, dir: Direction, origin: Pos, depth: int)
    requires
        open_room(g, room, origin),
        1 <= depth <= room.far(dir, origin),
    ensures
        ({
            let tiles = row_tiles(
                g.width,
                g.height,
                dir,
                origin,
                depth,
                room.canon_start(dir, origin, depth),
                room.canon_end(dir, origin, depth),
            );
            let first = cross_coord(dir, origin) + room.span_lo(dir, origin, depth);
            &&& tiles.len() == room.span_hi(dir, origin, depth) - room.span_lo(dir, origin, depth)
                + 1
            &&& forall|j: int| 0 <= j < tiles.len() ==> #[trigger] tiles[j] == cell(dir, origin, depth, first + j)
        }),
{
    lemma_canon_row(g, room, dir, origin, depth);
    lemma_open_room_cell(g, room, dir, origin, depth, room.cross_lo(dir));
}

pub(crate) proof fn lemma_cone_grows(
    g: WallGrid,
    room: Room,
    a: Seq<bool>,
    b: Seq<bool>,
    dir: Direction,
    origin: Pos,
    depth: int,
)
    requires
        open_room(g, room, origin),
        fits(g, a),
        grows(a, b),
        depth >= 1,
        room.cone_shown(g, a, dir, origin, depth),
    ensures
        room.cone_shown(g, b, dir, origin, depth),
{
    assert forall|k: int, x: int|
        depth <= k <= room.far(dir, origin) && cross_coord(dir, origin) + room.span_lo(dir, origin, k)
            <= x <= cross_coord(dir, origin) + room.span_hi(dir, origin, k) implies b[g.index(
        #[trigger] cell(dir, origin, k, x),
    )] by {
        lemma_open_room_cell(g, room, dir, origin, k, x);
        lemma_index_in_range(g.width, g.height, cell(dir, origin, k, x));
    }
}

/// The start slope while walking the row that reaches `depth` in an open
/// room, before its `i`-th cell.
pub open spec fn walk_start(room: Room, dir: Direction, origin: Pos, depth: int, i: int) -> Slope {
    if room.span_lo(dir, origin, depth) == room.lo_off(dir, origin) && i >= 2 {
        room.canon_start(dir, origin, depth + 1)
    } else {
        room.canon_start(dir, origin, depth)
    }
}

/// One step of the walk along the row that reaches `depth` in an open
/// room: its cell is shown, the start moves as `walk_start` says, and a
/// child row is split off only at the end border, as the row that reaches
/// one depth further.
#[verifier::rlimit(60)]
pub(crate) proof fn lemma_open_room_step(
    g: WallGrid,
    room: Room,
    dir: Direction,
    origin: Pos,
    depth: int,
    tiles: Seq<Pos>,
    i: int,
    start: Slope,
    prev: Option<Pos>,
)
    requires
        open_room(g, room, origin),
        1 <= depth <= room.far(dir, origin),
        tiles == row_tiles(
            g.width,
            g.height,
            dir,
            origin,
            depth,
            room.canon_start(dir, origin, depth),
            room.canon_end(dir, origin, depth),
        ),
        0 <= i < tiles.len(),
        i == 0 ==> prev is None,
        i > 0 ==> prev == Some(tiles[i - 1]),
        depth < room.far(dir, origin) ==> start == walk_start(room, dir, origin, depth, i),
    ensures
        ({
            let t = tiles[i];
            let x = cross_coord(dir, origin) + room.span_lo(dir, origin, depth) + i;
            let start1 = if g.is_wall(prev) && g.is_floor(Some(t)) {
                slope_spec(dir, origin, t)
            } else {
                start
            };
            &&& t == cell(dir, origin, depth, x)
            &&& g.in_bounds(t)
            &&& g.is_wall(Some(t)) || symmetric(
                dir,
                origin,
                depth,
                start,
                room.canon_end(dir, origin, depth),
                t,
            )
            &&& depth < room.far(dir, origin) ==> start1 == walk_start(room, dir, origin, depth, i + 1)
            &&& g.is_floor(prev) && g.is_wall(Some(t)) ==> {
                &&& depth < room.far(dir, origin)
                &&& i == tiles.len() - 1
                &&& room.span_hi(dir, origin, depth) == room.hi_off(dir, origin)
                &&& start1 == room.canon_start(dir, origin, depth + 1)
                &&& slope_spec(dir, origin, t) == room.canon_end(dir, origin, depth + 1)
            }
        }),
{
    let cx = cross_coord(dir, origin);
    let lo = room.lo_off(dir, origin);
    let hi = room.hi_off(dir, origin);
    let sl = room.span_lo(dir, origin, depth);
    let sh = room.span_hi(dir, origin, depth);
    lemma_canon_row(g, room, dir, origin, depth);
    lemma_canon_tiles(g, room, dir, origin, depth);
    let x = cx + sl + i;
    let t = tiles[i];
    assert(t == cell(dir, origin, depth, x));
    lemma_open_room_cell(g, room, dir, origin, depth, x);
    if i > 0 {
        assert(tiles[i - 1] == cell(dir, origin, depth, x - 1));
        lemma_open_room_cell(g, room, dir, origin, depth, x - 1);
    }
    if sl != lo {
        assert(room.canon_start(dir, origin, depth) == room.canon_start(dir, origin, depth + 1));
    }
}

/// Walking the row that reaches `depth` in an open room shows its cells
/// from the `i`-th on, and, unless the row leads no further, every cell of
/// the cone beyond it.
#[verifier::rlimit(40)]
pub(crate) proof fn lemma_walk_open_room(
    g: WallGrid,
    room: Room,
    dir: Direction,
    origin: Pos,
    max_depth: int,
    depth: int,
    tiles: Seq<Pos>,
    i: int,
    start: Slope,
    end: Slope,
    prev: Option<Pos>,
    vis: Seq<bool>,
)
    requires
        open_room(g, room, origin),
        fits(g, vis),
        1 <= depth <= room.far(dir, origin) <= max_depth,
        tiles == row_tiles(
            g.width,
            g.height,
            dir,
            origin,
            depth,
            room.canon_start(dir, origin, depth),
            room.canon_end(dir, origin, depth),
        ),
        0 <= i <= tiles.len(),
        i == 0 ==> prev is None,
        i > 0 ==> prev == Some(tiles[i - 1]),
        depth < room.far(dir, origin) ==> start == walk_start(room, dir, origin, depth, i),
        end == room.canon_end(dir, origin, depth),
    ensures
        ({
            let r = walk_spec(g, dir, origin, max_depth, depth, tiles, i, start, end, prev, vis);
            let cx = cross_coord(dir, origin);
            &&& forall|x: int|
                cx + room.span_lo(dir, origin, depth) + i <= x <= cx + room.span_hi(dir, origin, depth)
                    ==> r[g.index(#[trigger] cell(dir, origin, depth, x))]
            &&& depth < room.far(dir, origin) && (i < tiles.len() || room.span_hi(dir, origin, depth)
                < room.hi_off(dir, origin)) ==> room.cone_shown(g, r, dir, origin, depth + 1)
        }),
    decreases max_depth + 1 - depth, 0int, tiles.len() - i,
{
    let cx = cross_coord(dir, origin);
    let sl = room.span_lo(dir, origin, depth);
    let sh = room.span_hi(dir, origin, depth);
    let far = room.far(dir, origin);
    lemma_canon_tiles(g, room, dir, origin, depth);
    let r = walk_spec(g, dir, origin, max_depth, depth, tiles, i, start, end, prev, vis);
    if i >= tiles.len() {
        if depth < far && sh < room.hi_off(dir, origin) {
            lemma_canon_row(g, room, dir, origin, depth);
            assert(tiles[i - 1] == cell(dir, origin, depth, cx + sh));
            lemma_open_room_cell(g, room, dir, origin, depth, cx + sh);
            assert(g.is_floor(prev));
            assert(start == room.canon_start(dir, origin, depth + 1));
            assert(end == room.canon_end(dir, origin, depth + 1));
            lemma_scan_open_room(g, room, dir, origin, max_depth, depth + 1, vis);
        }
    } else {
        let t = tiles[i];
        lemma_open_room_step(g, room, dir, origin, depth, tiles, i, start, prev);
        lemma_index_in_range(g.width, g.height, t);
        let vis1 = g.mark(vis, t);
        assert(vis1[g.index(t)]);
        lemma_mark_grows(g, vis, t);
        let start1 = if g.is_wall(prev) && g.is_floor(Some(t)) {
            slope_spec(dir, origin, t)
        } else {
            start
        };
        let split = g.is_floor(prev) && g.is_wall(Some(t));
        let vis2 = if split {
            scan_spec(g, dir, origin, max_depth, depth + 1, start1, slope_spec(dir, origin, t), vis1)
        } else {
            vis1
        };
        if split {
            lemma_scan_open_room(g, room, dir, origin, max_depth, depth + 1, vis1);
            lemma_scan_grows(
                g,
                dir,
                origin,
                max_depth,
                depth + 1,
                start1,
                slope_spec(dir, origin, t),
                vis1,
            );
        }
        lemma_grows_trans(vis, vis1, vis2);
        assert(vis2[g.index(t)]);
        lemma_walk_open_room(
            g,
            room,
            dir,
            origin,
            max_depth,
            depth,
            tiles,
            i + 1,
            start1,
            end,
            Some(t),
            vis2,
        );
        let rest = walk_spec(g, dir, origin, max_depth, depth, tiles, i + 1, start1, end, Some(t), vis2);
        lemma_walk_grows(g, dir, origin, max_depth, depth, tiles, i + 1, start1, end, Some(t), vis2);
        assert(r == rest);
        assert(rest[g.index(t)]);
        if split {
            lemma_cone_grows(g, room, vis2, rest, dir, origin, depth + 1);
        }
    }
}

/// Scanning the row that reaches `depth` in an open room shows every cell
/// of the cone from that depth out to the closing wall.
pub(crate) proof fn lemma_scan_open_room(
    g: WallGrid,
    room: Room,
    dir: Direction,
    origin: Pos,
    max_depth: int,
    depth: int,
    vis: Seq<bool>,
)
    requires
        open_room(g, room, origin),
        fits(g, vis),
        1 <= depth <= room.far(dir, origin) <= max_depth,
    ensures
        room.cone_shown(
            g,
            scan_spec(
                g,
                dir,
                origin,
                max_depth,
                depth,
                room.canon_start(dir, origin, depth),
                room.canon_end(dir, origin, depth),
                vis,
            ),
            dir,
            origin,
            depth,
        ),
    decreases max_depth + 1 - depth, 1int, 0int,
{
    let tiles = row_tiles(
        g.width,
        g.height,
        dir,
        origin,
        depth,
        room.canon_start(dir, origin, depth),
        room.canon_end(dir, origin, depth),
    );
    lemma_canon_tiles(g, room, dir, origin, depth);
    lemma_walk_open_room(
        g,
        room,
        dir,
        origin,
        max_depth,
        depth,
        tiles,
        0,
        room.canon_start(dir, origin, depth),
        room.canon_end(dir, origin, depth),
        None,
        vis,
    );
}

/// A quadrant's cone cell in the room is shown once its scan has run.
pub(crate) proof fn lemma_cone_has(
    g: WallGrid,
    room: Room,
    vis: Seq<bool>,
    dir: Direction,
    origin: Pos,
    p: Pos,
    depth: int,
)
    requires
        open_room(g, room, origin),
        room.cone_shown(g, vis, dir, origin, 1),
        room.contains(p),
        1 <= depth <= room.far(dir, origin),
        is_vertical(dir) ==> p.1 == depth_coord(dir, origin, depth),
        !is_vertical(dir) ==> p.0 == depth_coord(dir, origin, depth),
        -depth <= cross_coord(dir, p) - cross_coord(dir, origin) <= depth,
    ensures
        vis[g.index(p)],
{
    assert(cell(dir, origin, depth, cross_coord(dir, p)) == p);
}

/// From inside a room walled in on its border and free of walls within, a
/// pass deep enough to reach every border reveals every cell of the room,
/// border and corners included.
pub proof fn lemma_pov_shows_open_room(
    g: WallGrid,
    room: Room,
    max_depth: int,
    origin: Pos,
    vis: Seq<bool>,
)
    requires
        g.wf(),
        g.width <= i32::MAX,
        g.height <= i32::MAX,
        fits(g, vis),
        room.walled_in(g),
        room.open_inside(g),
        room.encloses(origin),
        max_depth >= room.right - room.left,
        max_depth >= room.bottom - room.top,
    ensures
        forall|p: Pos| room.contains(p) ==> #[trigger] pov_spec(g, max_depth, origin, vis)[g.index(p)],
{
    lemma_pov_steps(g, max_depth, origin, vis);
    let v0 = g.mark(vis, origin);
    lemma_mark_grows(g, vis, origin);
    let n = Direction::North;
    let so = Direction::South;
    let e = Direction::East;
    let w = Direction::West;
    assert(room.canon_start(n, origin, 1) == seed_start(n));
    assert(room.canon_end(n, origin, 1) == seed_end(n));
    assert(room.canon_start(so, origin, 1) == seed_start(so));
    assert(room.canon_end(so, origin, 1) == seed_end(so));
    assert(room.canon_start(e, origin, 1) == seed_start(e));
    assert(room.canon_end(e, origin, 1) == seed_end(e));
    assert(room.canon_start(w, origin, 1) == seed_start(w));
    assert(room.canon_end(w, origin, 1) == seed_end(w));
    let v1 = scan_spec(g, n, origin, max_depth, 1, unit(1), unit(-1), v0);
    lemma_scan_open_room(g, room, n, origin, max_depth, 1, v0);
    lemma_scan_grows(g, n, origin, max_depth, 1, unit(1), unit(-1), v0);
    let v2 = scan_spec(g, so, origin, max_depth, 1, unit(-1), unit(1), v1);
    lemma_scan_open_room(g, room, so, origin, max_depth, 1, v1);
    lemma_scan_grows(g, so, origin, max_depth, 1, unit(-1), unit(1), v1);
    let v3 = scan_spec(g, e, origin, max_depth, 1, unit(-1), unit(1), v2);
    lemma_scan_open_room(g, room, e, origin, max_depth, 1, v2);
    lemma_scan_grows(g, e, origin, max_depth, 1, unit(-1), unit(1), v2);
    let v4 = scan_spec(g, w, origin, max_depth, 1, unit(1), unit(-1), v3);
    lemma_scan_open_room(g, room, w, origin, max_depth, 1, v3);
    lemma_scan_grows(g, w, origin, max_depth, 1, unit(1), unit(-1), v3);
    lemma_grows_trans(v1, v2, v3);
    lemma_grows_trans(v1, v3, v4);
    lemma_grows_trans(v2, v3, v4);
    lemma_grows_trans(v0, v1, v2);
    lemma_grows_trans(v0, v2, v4);
    lemma_cone_grows(g, room, v1, v4, n, origin, 1);
    lemma_cone_grows(g, room, v2, v4, so, origin, 1);
    lemma_cone_grows(g, room, v3, v4, e, origin, 1);
    assert forall|p: Pos| room.contains(p) implies #[trigger] v4[g.index(p)] by {
        let dx = p.0 - origin.0;
        let dy = p.1 - origin.1;
        if p == origin {
            lemma_index_in_range(g.width, g.height, origin);
            assert(v0[g.index(origin)]);
        } else if dy < 0 && -dy >= dx && -dy >= -dx {
            lemma_cone_has(g, room, v4, n, origin, p, -dy);
        } else if dy > 0 && dy >= dx && dy >= -dx {
            lemma_cone_has(g, room, v4, so, origin, p, dy);
        } else if dx > 0 {
            lemma_cone_has(g, room, v4, e, origin, p, dx);
        } else {
            lemma_cone_has(g, room, v4, w, origin, p, -dx);
        }
    }
}

} // verus!
