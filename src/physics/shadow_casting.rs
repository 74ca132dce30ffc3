//! Symmetric shadow casting over a rectangular grid.
//!
//! The field of view is computed one quadrant at a time. Each quadrant is
//! swept row by row outward from the origin; a row is the angular interval
//! between two slopes at a given depth. Walls narrow the interval or split
//! off a child interval that continues one row further out.
//!
//! Slopes are exact fractions, so every boundary test is decided without
//! rounding error.
use vstd::prelude::*;

verus! {

/// A grid position `(x, y)`.
pub type Pos = (i32, i32);

/// The four quadrants that a field of view is swept in.
#[derive(Clone, Copy, Debug, PartialEq, Eq, Structural)]
pub enum Direction {
    North,
    South,
    East,
    West,
}

/// Largest magnitude of a slope's numerator and denominator.
pub const SLOPE_LIMIT: i64 = 0x4_0000_0000;

/// A slope given as the exact fraction `num / den`.
#[derive(Clone, Copy, Debug, PartialEq, Eq, Structural)]
pub struct Slope {
    pub num: i64,
    pub den: i64,
}

impl Slope {
    /// The denominator is positive and both parts are bounded.
    pub open spec fn wf(self) -> bool {
        &&& 0 < self.den <= SLOPE_LIMIT
        &&& -SLOPE_LIMIT <= self.num <= SLOPE_LIMIT
    }

    /// The fraction `num / den`, brought to a positive denominator.
    pub fn new(num: i64, den: i64) -> (r: Slope)
        requires
            den != 0,
            -SLOPE_LIMIT <= num <= SLOPE_LIMIT,
            -SLOPE_LIMIT <= den <= SLOPE_LIMIT,
        ensures
            r.wf(),
            den > 0 ==> r.num == num && r.den == den,
            den < 0 ==> r.num == -num && r.den == -den,
    {
        if den > 0 {
            Slope { num, den }
        } else {
            Slope { num: -num, den: -den }
        }
    }
}

/// `a / b` rounded down, for `b != 0`.
pub open spec fn floor_div(a: int, b: int) -> int {
    if b > 0 {
        a / b
    } else {
        (-a) / (-b)
    }
}

/// `a / b` rounded up, for `b != 0`.
pub open spec fn ceil_div(a: int, b: int) -> int {
    -floor_div(-a, b)
}

/// `a / b` rounded toward zero, for `b != 0`.
pub open spec fn trunc_div(a: int, b: int) -> int {
    if (a >= 0) == (b > 0) {
        floor_div(a, b)
    } else {
        ceil_div(a, b)
    }
}

/// The walls of a `width` by `height` grid, stored row by row.
pub struct WallGrid {
    pub width: int,
    pub height: int,
    pub walled: Seq<bool>,
}

impl WallGrid {
    /// Positive sides and one wall entry per cell.
    pub open spec fn wf(self) -> bool {
        &&& self.width > 0
        &&& self.height > 0
        &&& self.walled.len() == self.width * self.height
    }

    pub open spec fn in_bounds(self, p: Pos) -> bool {
        0 <= p.0 < self.width && 0 <= p.1 < self.height
    }

    pub open spec fn index(self, p: Pos) -> int {
        p.1 * self.width + p.0
    }

    /// A present, in-bounds cell without a wall.
    pub open spec fn is_floor(self, t: Option<Pos>) -> bool {
        match t {
            Some(p) => self.in_bounds(p) && !self.walled[self.index(p)],
            None => false,
        }
    }

    /// A present cell that is not floor; an absent cell is neither.
    pub open spec fn is_wall(self, t: Option<Pos>) -> bool {
        match t {
            Some(_) => !self.is_floor(t),
            None => false,
        }
    }

    /// `cells` with the entry of `p` set, when `p` lies in the grid.
    pub open spec fn mark(self, cells: Seq<bool>, p: Pos) -> Seq<bool> {
        if self.in_bounds(p) {
            cells.update(self.index(p), true)
        } else {
            cells
        }
    }
}

/// North and South sweep rows of constant y; East and West columns of constant x.
pub open spec fn is_vertical(dir: Direction) -> bool {
    dir == Direction::North || dir == Direction::South
}

/// The sign of the step away from the origin.
pub open spec fn outward(dir: Direction) -> int {
    match dir {
        Direction::North | Direction::West => -1,
        Direction::South | Direction::East => 1,
    }
}

/// The coordinate along the sweep of the row at `depth`.
pub open spec fn depth_coord(dir: Direction, origin: Pos, depth: int) -> int {
    if is_vertical(dir) {
        origin.1 + outward(dir) * depth
    } else {
        origin.0 + outward(dir) * depth
    }
}

/// The coordinate of `p` across the sweep.
pub open spec fn cross_coord(dir: Direction, p: Pos) -> int {
    if is_vertical(dir) {
        p.0 as int
    } else {
        p.1 as int
    }
}

/// The cell of the row at `depth` whose cross coordinate is `c`.
pub open spec fn cell(dir: Direction, origin: Pos, depth: int, c: int) -> Pos {
    if is_vertical(dir) {
        (c as i32, depth_coord(dir, origin, depth) as i32)
    } else {
        (depth_coord(dir, origin, depth) as i32, c as i32)
    }
}

/// Numerator of the distance across the sweep, at `depth`, of the line
/// that `s` describes: `depth * s` for East and West, `depth / s` for
/// North and South.
pub open spec fn reach_num(dir: Direction, depth: int, s: Slope) -> int {
    if is_vertical(dir) {
        depth * s.den
    } else {
        depth * s.num
    }
}

/// Denominator matching `reach_num`.
pub open spec fn reach_den(dir: Direction, s: Slope) -> int {
    if is_vertical(dir) {
        s.num as int
    } else {
        s.den as int
    }
}

/// Cross coordinate of the first cell of a row: the reach of the start
/// slope plus one half, rounded down.
pub open spec fn row_first(dir: Direction, origin: Pos, depth: int, start: Slope) -> int {
    let a = reach_num(dir, depth, start);
    let b = reach_den(dir, start);
    cross_coord(dir, origin) + outward(dir) * floor_div(2 * a + b, 2 * b)
}

/// Cross coordinate of the last cell of a row: the reach of the end slope
/// minus one half, rounded up.
pub open spec fn row_last(dir: Direction, origin: Pos, depth: int, end: Slope) -> int {
    let a = reach_num(dir, depth, end);
    let b = reach_den(dir, end);
    cross_coord(dir, origin) + outward(dir) * ceil_div(2 * a - b, 2 * b)
}

/// Number of cells across the sweep.
pub open spec fn cross_size(dir: Direction, width: int, height: int) -> int {
    if is_vertical(dir) {
        width
    } else {
        height
    }
}

/// Number of cells along the sweep.
pub open spec fn depth_size(dir: Direction, width: int, height: int) -> int {
    if is_vertical(dir) {
        height
    } else {
        width
    }
}

/// The cells of a row that lie in a `width` by `height` grid, in order of
/// increasing cross coordinate. Cells outside the grid are left out.
pub open spec fn row_tiles(
    width: int,
    height: int,
    dir: Direction,
    origin: Pos,
    depth: int,
    start: Slope,
    end: Slope,
) -> Seq<Pos> {
    let lo = vstd::math::max(row_first(dir, origin, depth, start), 0);
    let hi = vstd::math::min(row_last(dir, origin, depth, end), cross_size(dir, width, height) - 1);
    let dc = depth_coord(dir, origin, depth);
    if 0 <= dc < depth_size(dir, width, height) && lo <= hi {
        Seq::new((hi - lo + 1) as nat, |i: int| cell(dir, origin, depth, lo + i))
    } else {
        Seq::empty()
    }
}

/// Whether the cross coordinate of `p` lies between the reaches, rounded
/// toward zero, of the start and end slopes at `depth`.
pub open spec fn symmetric(
    dir: Direction,
    origin: Pos,
    depth: int,
    start: Slope,
    end: Slope,
    p: Pos,
) -> bool {
    let lower = cross_coord(dir, origin) + outward(dir) * trunc_div(
        reach_num(dir, depth, start),
        reach_den(dir, start),
    );
    let upper = cross_coord(dir, origin) + outward(dir) * trunc_div(
        reach_num(dir, depth, end),
        reach_den(dir, end),
    );
    lower <= cross_coord(dir, p) <= upper
}

/// The slope from `from` to a corner of `to`: `(2 dy - 1) / (2 dx)` for
/// East and West, `2 dy / (2 dx - 1)` for North and South.
pub open spec fn slope_num(dir: Direction, from: Pos, to: Pos) -> int {
    if is_vertical(dir) {
        2 * (to.1 - from.1)
    } else {
        2 * (to.1 - from.1) - 1
    }
}

pub open spec fn slope_den(dir: Direction, from: Pos, to: Pos) -> int {
    if is_vertical(dir) {
        2 * (to.0 - from.0) - 1
    } else {
        2 * (to.0 - from.0)
    }
}

/// `slope_num / slope_den` brought to a positive denominator.
pub open spec fn slope_spec(dir: Direction, from: Pos, to: Pos) -> Slope {
    let n = slope_num(dir, from, to);
    let d = slope_den(dir, from, to);
    if d > 0 {
        Slope { num: n as i64, den: d as i64 }
    } else {
        Slope { num: (-n) as i64, den: (-d) as i64 }
    }
}

/// Visibility after scanning the row at `depth` between `start` and `end`,
/// and every row that the scan leads to, up to `max_depth`.
pub open spec fn scan_spec(
    g: WallGrid,
    dir: Direction,
    origin: Pos,
    max_depth: int,
    depth: int,
    start: Slope,
    end: Slope,
    vis: Seq<bool>,
) -> Seq<bool>
    decreases max_depth + 1 - depth, 1int, 0int,
{
    if depth > max_depth {
        vis
    } else {
        let tiles = row_tiles(g.width, g.height, dir, origin, depth, start, end);
        walk_spec(g, dir, origin, max_depth, depth, tiles, 0, start, end, None, vis)
    }
}

/// Visibility after walking the cells `tiles[i..]` of a row whose slopes
/// are now `start` and `end`, `prev` being the cell walked last.
pub open spec fn walk_spec(
    g: WallGrid,
    dir: Direction,
    origin: Pos,
    max_depth: int,
    depth: int,
    tiles: Seq<Pos>,
    i: int,
    start: Slope,
    end: Slope,
    prev: Option<Pos>,
    vis: Seq<bool>,
) -> Seq<bool>
    decreases max_depth + 1 - depth, 0int, tiles.len() - i,
{
    if depth > max_depth {
        vis
    } else if i >= tiles.len() {
        if g.is_floor(prev) {
            scan_spec(g, dir, origin, max_depth, depth + 1, start, end, vis)
        } else {
            vis
        }
    } else {
        let t = tiles[i];
        let vis1 = if g.is_wall(Some(t)) || symmetric(dir, origin, depth, start, end, t) {
            g.mark(vis, t)
        } else {
            vis
        };
        let start1 = if g.is_wall(prev) && g.is_floor(Some(t)) {
            slope_spec(dir, origin, t)
        } else {
            start
        };
        let vis2 = if g.is_floor(prev) && g.is_wall(Some(t)) {
            scan_spec(g, dir, origin, max_depth, depth + 1, start1, slope_spec(dir, origin, t), vis1)
        } else {
            vis1
        };
        walk_spec(g, dir, origin, max_depth, depth, tiles, i + 1, start1, end, Some(t), vis2)
    }
}

/// The slope `v / 1`.
pub open spec fn unit(v: int) -> Slope {
    Slope { num: v as i64, den: 1 }
}

/// Visibility after a full field-of-view pass from `origin`: the origin,
/// then the four quadrants, each from a first row spanning slopes -1 to 1.
pub open spec fn pov_spec(g: WallGrid, max_depth: int, origin: Pos, vis: Seq<bool>) -> Seq<bool> {
    let v0 = g.mark(vis, origin);
    let v1 = scan_spec(g, Direction::North, origin, max_depth, 1, unit(1), unit(-1), v0);
    let v2 = scan_spec(g, Direction::South, origin, max_depth, 1, unit(-1), unit(1), v1);
    let v3 = scan_spec(g, Direction::East, origin, max_depth, 1, unit(-1), unit(1), v2);
    scan_spec(g, Direction::West, origin, max_depth, 1, unit(1), unit(-1), v3)
}

/// Bound on the wide operands handed to the division helpers.
pub const WIDE_LIMIT: i128 = 0x1_0000_0000_0000_0000_0000;

/// Bound on the numerator of a reach: a depth times a slope part.
pub const REACH_LIMIT: i128 = 0x4_0000_0000_0000_0000;

/// `floor_div` on machine integers.
fn floor_div_wide(a: i128, b: i128) -> (r: i128)
    requires
        b != 0,
        -WIDE_LIMIT <= a <= WIDE_LIMIT,
        -WIDE_LIMIT <= b <= WIDE_LIMIT,
    ensures
        r == floor_div(a as int, b as int),
        -WIDE_LIMIT <= r <= WIDE_LIMIT,
{
    let (a, b) = if b > 0 { (a, b) } else { (-a, -b) };
    let m: u128 = if a >= 0 { a as u128 } else { (-a) as u128 };
    let q: u128 = m / (b as u128);
    let rem: u128 = m % (b as u128);
    proof {
        vstd::arithmetic::div_mod::lemma_fundamental_div_mod(m as int, b as int);
        assert(q <= m) by {
            vstd::arithmetic::div_mod::lemma_div_is_ordered_by_denominator(m as int, 1, b as int);
        }
    }
    if a >= 0 {
        q as i128
    } else if rem == 0 {
        proof {
            assert(a == b * (-(q as int)) + 0) by (nonlinear_arith)
                requires a == -(m as int), m == b * q + rem, rem == 0;
            vstd::arithmetic::div_mod::lemma_fundamental_div_mod_converse(a as int, b as int, -(q as int), 0);
        }
        -(q as i128)
    } else {
        proof {
            assert(a == b * (-(q as int) - 1) + (b - rem)) by (nonlinear_arith)
                requires a == -(m as int), m == b * q + rem;
            assert(q < m) by (nonlinear_arith)
                requires m == b * q + rem, b >= 1, rem >= 1, q >= 0;
            vstd::arithmetic::div_mod::lemma_fundamental_div_mod_converse(
                a as int, b as int, -(q as int) - 1, b - rem);
        }
        -(q as i128) - 1
    }
}

/// `ceil_div` on machine integers.
fn ceil_div_wide(a: i128, b: i128) -> (r: i128)
    requires
        b != 0,
        -WIDE_LIMIT <= a <= WIDE_LIMIT,
        -WIDE_LIMIT <= b <= WIDE_LIMIT,
    ensures
        r == ceil_div(a as int, b as int),
        -WIDE_LIMIT <= r <= WIDE_LIMIT,
{
    -floor_div_wide(-a, b)
}

/// `trunc_div` on machine integers.
fn trunc_div_wide(a: i128, b: i128) -> (r: i128)
    requires
        b != 0,
        -WIDE_LIMIT <= a <= WIDE_LIMIT,
        -WIDE_LIMIT <= b <= WIDE_LIMIT,
    ensures
        r == trunc_div(a as int, b as int),
{
    if (a >= 0) == (b > 0) {
        floor_div_wide(a, b)
    } else {
        ceil_div_wide(a, b)
    }
}

fn vertical(direction: Direction) -> (r: bool)
    ensures
        r == is_vertical(direction),
{
    match direction {
        Direction::North | Direction::South => true,
        Direction::East | Direction::West => false,
    }
}

/// The slope from `pos1` to a corner of `pos2`, as seen in the quadrant
/// of `direction`.
pub fn slope(direction: Direction, pos1: Pos, pos2: Pos) -> (r: Slope)
    requires
        !is_vertical(direction) ==> pos1.0 != pos2.0,
    ensures
        r == slope_spec(direction, pos1, pos2),
        r.wf(),
        is_vertical(direction) && pos1.1 != pos2.1 ==> r.num != 0,
{
    let dx = pos2.0 as i64 - pos1.0 as i64;
    let dy = pos2.1 as i64 - pos1.1 as i64;
    if vertical(direction) {
        Slope::new(dy * 2, dx * 2 - 1)
    } else {
        Slope::new(dy * 2 - 1, dx * 2)
    }
}

/// Numerator and denominator of the reach of `s` at `depth`.
fn reach(direction: Direction, depth: i32, s: Slope) -> (r: (i128, i128))
    requires
        depth >= 1,
        s.wf(),
        is_vertical(direction) ==> s.num != 0,
    ensures
        r.0 == reach_num(direction, depth as int, s),
        r.1 == reach_den(direction, s),
        r.1 != 0,
        -REACH_LIMIT <= r.0 <= REACH_LIMIT,
        -SLOPE_LIMIT <= r.1 <= SLOPE_LIMIT,
{
    let d = depth as i128;
    let part: i128 = if vertical(direction) { s.den as i128 } else { s.num as i128 };
    proof {
        assert(-REACH_LIMIT <= d * part <= REACH_LIMIT)
            by (nonlinear_arith)
            requires 1 <= d <= 0x8000_0000, -0x4_0000_0000i128 <= part <= 0x4_0000_0000i128;
    }
    if vertical(direction) {
        (d * part, s.num as i128)
    } else {
        (d * part, s.den as i128)
    }
}

/// The first and last cells, in wide coordinates, of the row at `depth`
/// between `start_slope` and `end_slope`.
pub fn get_pos(
    origin: Pos,
    depth: i32,
    start_slope: Slope,
    end_slope: Slope,
    direction: Direction,
) -> (r: ((i128, i128), (i128, i128)))
    requires
        depth >= 1,
        start_slope.wf(),
        end_slope.wf(),
        is_vertical(direction) ==> start_slope.num != 0 && end_slope.num != 0,
    ensures
        is_vertical(direction) ==> {
            &&& r.0.0 == row_first(direction, origin, depth as int, start_slope)
            &&& r.1.0 == row_last(direction, origin, depth as int, end_slope)
            &&& r.0.1 == depth_coord(direction, origin, depth as int)
            &&& r.1.1 == depth_coord(direction, origin, depth as int)
        },
        !is_vertical(direction) ==> {
            &&& r.0.1 == row_first(direction, origin, depth as int, start_slope)
            &&& r.1.1 == row_last(direction, origin, depth as int, end_slope)
            &&& r.0.0 == depth_coord(direction, origin, depth as int)
            &&& r.1.0 == depth_coord(direction, origin, depth as int)
        },
{
    let (sa, sb) = reach(direction, depth, start_slope);
    let (ea, eb) = reach(direction, depth, end_slope);
    let first = floor_div_wide(2 * sa + sb, 2 * sb);
    let last = ceil_div_wide(2 * ea - eb, 2 * eb);
    let ox = origin.0 as i128;
    let oy = origin.1 as i128;
    let d = depth as i128;
    match direction {
        Direction::North => ((ox - first, oy - d), (ox - last, oy - d)),
        Direction::South => ((ox + first, oy + d), (ox + last, oy + d)),
        Direction::East => ((ox + d, oy + first), (ox + d, oy + last)),
        Direction::West => ((ox - d, oy - first), (ox - d, oy - last)),
    }
}

/// Whether the cross coordinate of `pos` lies within the row's sector,
/// its bounds rounded toward zero: a floor cell is seen only then.
pub fn is_symmetric(row: &Row, direction: Direction, origin: Pos, pos: Pos) -> (r: bool)
    requires
        row.wf(direction),
    ensures
        r == symmetric(direction, origin, row.depth as int, row.start_slope, row.end_slope, pos),
{
    let (sa, sb) = reach(direction, row.depth, row.start_slope);
    let (ea, eb) = reach(direction, row.depth, row.end_slope);
    let lo = trunc_div_wide(sa, sb);
    let hi = trunc_div_wide(ea, eb);
    let ox = origin.0 as i128;
    let oy = origin.1 as i128;
    let px = pos.0 as i128;
    let py = pos.1 as i128;
    match direction {
        Direction::North => px >= ox - lo && px <= ox - hi,
        Direction::South => px >= ox + lo && px <= ox + hi,
        Direction::East => py >= oy + lo && py <= oy + hi,
        Direction::West => py >= oy - lo && py <= oy - hi,
    }
}

/// One row of a sweep: the cells at `depth` between two slopes.
#[derive(Clone, Copy, Debug)]
pub struct Row {
    pub depth: i32,
    pub start_slope: Slope,
    pub end_slope: Slope,
}

impl Row {
    /// The depth is positive and the slopes are usable in `dir`: in North
    /// and South a slope is divided by, so it is not zero.
    pub open spec fn wf(self, dir: Direction) -> bool {
        &&& self.depth >= 1
        &&& self.start_slope.wf()
        &&& self.end_slope.wf()
        &&& is_vertical(dir) ==> self.start_slope.num != 0 && self.end_slope.num != 0
    }

    pub fn new(depth: i32, start_slope: Slope, end_slope: Slope) -> (r: Row)
        ensures
            r.depth == depth,
            r.start_slope == start_slope,
            r.end_slope == end_slope,
    {
        Row { depth, start_slope, end_slope }
    }

    /// The row one step further out, between the same slopes.
    pub fn next(&self) -> (r: Row)
        requires
            self.depth < i32::MAX,
        ensures
            r.depth == self.depth + 1,
            r.start_slope == self.start_slope,
            r.end_slope == self.end_slope,
    {
        Row { depth: self.depth + 1, start_slope: self.start_slope, end_slope: self.end_slope }
    }

    /// The cells of this row that lie in a `width` by `height` grid, in
    /// order of increasing cross coordinate.
    pub fn tiles(&self, origin: Pos, direction: Direction, width: i32, height: i32) -> (r: Vec<Pos>)
        requires
            self.wf(direction),
            width > 0,
            height > 0,
        ensures
            r@ == row_tiles(
                width as int,
                height as int,
                direction,
                origin,
                self.depth as int,
                self.start_slope,
                self.end_slope,
            ),
    {
        let (start_pos, end_pos) = get_pos(
            origin,
            self.depth,
            self.start_slope,
            self.end_slope,
            direction,
        );
        let is_vert = vertical(direction);
        let (dc, first, last, across, along) = if is_vert {
            (start_pos.1, start_pos.0, end_pos.0, width, height)
        } else {
            (start_pos.0, start_pos.1, end_pos.1, height, width)
        };
        let ghost spec_tiles = row_tiles(
            width as int,
            height as int,
            direction,
            origin,
            self.depth as int,
            self.start_slope,
            self.end_slope,
        );
        let mut tiles: Vec<Pos> = Vec::new();
        if dc < 0 || dc >= along as i128 {
            proof {
                assert(tiles@ =~= spec_tiles);
            }
            return tiles;
        }
        let lo: i128 = if first > 0 { first } else { 0 };
        let hi: i128 = if last < (across - 1) as i128 { last } else { (across - 1) as i128 };
        let mut c: i128 = lo;
        while c <= hi
            invariant
                0 <= lo <= c,
                c <= hi + 1 || c == lo,
                hi < across,
                0 <= dc < along,
                lo == vstd::math::max(row_first(direction, origin, self.depth as int, self.start_slope), 0),
                hi == vstd::math::min(
                    row_last(direction, origin, self.depth as int, self.end_slope),
                    cross_size(direction, width as int, height as int) - 1,
                ),
                dc == depth_coord(direction, origin, self.depth as int),
                is_vert == is_vertical(direction),
                across == cross_size(direction, width as int, height as int),
                along == depth_size(direction, width as int, height as int),
                tiles@ =~= Seq::new(
                    (c - lo) as nat,
                    |i: int| cell(direction, origin, self.depth as int, lo + i),
                ),
            decreases hi + 1 - c,
        {
            let t: Pos = if is_vert { (c as i32, dc as i32) } else { (dc as i32, c as i32) };
            tiles.push(t);
            c = c + 1;
        }
        proof {
            if lo <= hi {
                assert(c == hi + 1);
                assert(spec_tiles == Seq::new(
                    (hi - lo + 1) as nat,
                    |i: int| cell(direction, origin, self.depth as int, lo + i),
                ));
                assert(tiles@ =~= spec_tiles);
            } else {
                assert(spec_tiles == Seq::<Pos>::empty());
                assert(tiles@ =~= spec_tiles);
            }
        }
        tiles
    }
}


pub proof fn lemma_index_in_range(width: int, height: int, p: Pos)
    requires
        width > 0,
        height > 0,
        0 <= p.0 < width,
        0 <= p.1 < height,
    ensures
        0 <= p.1 * width + p.0 < width * height,
{
    assert(0 <= p.1 * width + p.0 < width * height) by (nonlinear_arith)
        requires width > 0, height > 0, 0 <= p.0 < width, 0 <= p.1 < height;
}

/// A row at a positive depth never passes through the origin's line.
proof fn lemma_depth_coord_moves(dir: Direction, origin: Pos, depth: int)
    requires
        depth >= 1,
    ensures
        is_vertical(dir) ==> depth_coord(dir, origin, depth) != origin.1,
        !is_vertical(dir) ==> depth_coord(dir, origin, depth) != origin.0,
{
}

/// Every cell of a row lies in the grid, at the row's depth coordinate.
proof fn lemma_row_tiles(
    width: int,
    height: int,
    dir: Direction,
    origin: Pos,
    depth: int,
    start: Slope,
    end: Slope,
)
    requires
        0 < width <= i32::MAX,
        0 < height <= i32::MAX,
    ensures
        forall|j: int|
            0 <= j < row_tiles(width, height, dir, origin, depth, start, end).len() ==> {
                let t = #[trigger] row_tiles(width, height, dir, origin, depth, start, end)[j];
                &&& 0 <= t.0 < width
                &&& 0 <= t.1 < height
                &&& is_vertical(dir) ==> t.1 == depth_coord(dir, origin, depth)
                &&& !is_vertical(dir) ==> t.0 == depth_coord(dir, origin, depth)
            },
{
    let tiles = row_tiles(width, height, dir, origin, depth, start, end);
    let lo = vstd::math::max(row_first(dir, origin, depth, start), 0);
    let hi = vstd::math::min(row_last(dir, origin, depth, end), cross_size(dir, width, height) - 1);
    assert forall|j: int| 0 <= j < tiles.len() implies {
        let t = #[trigger] tiles[j];
        &&& 0 <= t.0 < width
        &&& 0 <= t.1 < height
        &&& is_vertical(dir) ==> t.1 == depth_coord(dir, origin, depth)
        &&& !is_vertical(dir) ==> t.0 == depth_coord(dir, origin, depth)
    } by {
        assert(tiles[j] == cell(dir, origin, depth, lo + j));
        assert(0 <= lo + j <= hi);
    }
}

/// Which cells of a `width` by `height` grid block light and which are
/// visible, both stored row by row.
pub struct LightMap {
    pub width: i32,
    pub height: i32,
    pub visible: Vec<bool>,
    pub walled: Vec<bool>,
}

impl LightMap {
    /// Both layers hold one entry per cell.
    pub open spec fn wf(&self) -> bool {
        &&& self.width > 0
        &&& self.height > 0
        &&& self.width * self.height <= i32::MAX
        &&& self.visible@.len() == self.width * self.height
        &&& self.walled@.len() == self.width * self.height
    }

    /// The wall layer.
    pub open spec fn walls(&self) -> WallGrid {
        WallGrid { width: self.width as int, height: self.height as int, walled: self.walled@ }
    }

    /// A present, in-bounds cell marked visible.
    pub open spec fn visible_at(&self, tile: Option<Pos>) -> bool {
        match tile {
            Some(p) => self.walls().in_bounds(p) && self.visible@[self.walls().index(p)],
            None => false,
        }
    }

    /// A grid with no walls and nothing visible. Both sides are positive
    /// and the number of cells fits an `i32`.
    pub fn new(width: i32, height: i32) -> (r: LightMap)
        requires
            width > 0,
            height > 0,
            width * height <= i32::MAX,
        ensures
            r.wf(),
            r.width == width,
            r.height == height,
            r.visible@ == Seq::new((width * height) as nat, |i: int| false),
            r.walled@ == Seq::new((width * height) as nat, |i: int| false),
    {
        let mut visible: Vec<bool> = Vec::new();
        let mut walled: Vec<bool> = Vec::new();
        proof {
            assert(width * height > 0) by (nonlinear_arith)
                requires width > 0, height > 0;
        }
        let n: i32 = width * height;
        let mut i: i32 = 0;
        while i < n
            invariant
                0 <= i <= n,
                n == width * height,
                visible@ == Seq::new(i as nat, |j: int| false),
                walled@ == Seq::new(i as nat, |j: int| false),
            decreases n - i,
        {
            visible.push(false);
            walled.push(false);
            i = i + 1;
            proof {
                assert(visible@ =~= Seq::new(i as nat, |j: int| false));
                assert(walled@ =~= Seq::new(i as nat, |j: int| false));
            }
        }
        LightMap { width, height, visible, walled }
    }

    /// Removes every wall.
    pub fn clear_wall(&mut self)
        requires
            old(self).wf(),
        ensures
            final(self).wf(),
            final(self).width == old(self).width,
            final(self).height == old(self).height,
            final(self).visible@ == old(self).visible@,
            final(self).walled@ == Seq::new(old(self).walled@.len(), |i: int| false),
    {
        let n = self.walled.len();
        let mut i: usize = 0;
        while i < n
            invariant
                0 <= i <= n,
                n == self.walled@.len(),
                self.wf(),
                self.width == old(self).width,
                self.height == old(self).height,
                self.visible@ == old(self).visible@,
                forall|j: int| 0 <= j < i ==> !self.walled@[j],
            decreases n - i,
        {
            self.walled.set(i, false);
            i = i + 1;
        }
        proof {
            assert(self.walled@ =~= Seq::new(old(self).walled@.len(), |i: int| false));
        }
    }

    /// Marks every cell not visible.
    pub fn clear_visible(&mut self)
        requires
            old(self).wf(),
        ensures
            final(self).wf(),
            final(self).width == old(self).width,
            final(self).height == old(self).height,
            final(self).walled@ == old(self).walled@,
            final(self).visible@ == Seq::new(old(self).visible@.len(), |i: int| false),
    {
        let n = self.visible.len();
        let mut i: usize = 0;
        while i < n
            invariant
                0 <= i <= n,
                n == self.visible@.len(),
                self.wf(),
                self.width == old(self).width,
                self.height == old(self).height,
                self.walled@ == old(self).walled@,
                forall|j: int| 0 <= j < i ==> !self.visible@[j],
            decreases n - i,
        {
            self.visible.set(i, false);
            i = i + 1;
        }
        proof {
            assert(self.visible@ =~= Seq::new(old(self).visible@.len(), |i: int| false));
        }
    }

    fn index(&self, pos: Pos) -> (r: usize)
        requires
            self.wf(),
            self.walls().in_bounds(pos),
        ensures
            r == self.walls().index(pos),
            r < self.width * self.height,
    {
        proof {
            lemma_index_in_range(self.width as int, self.height as int, pos);
        }
        (pos.1 * self.width + pos.0) as usize
    }

    fn in_bounds(&self, pos: Pos) -> (r: bool)
        ensures
            r == self.walls().in_bounds(pos),
    {
        pos.0 >= 0 && pos.1 >= 0 && pos.0 < self.width && pos.1 < self.height
    }

    /// Marks the cell at `pos` as a wall; a position outside the grid is
    /// ignored.
    pub fn set_wall(&mut self, pos: Pos)
        requires
            old(self).wf(),
        ensures
            final(self).wf(),
            final(self).width == old(self).width,
            final(self).height == old(self).height,
            final(self).visible@ == old(self).visible@,
            final(self).walled@ == old(self).walls().mark(old(self).walled@, pos),
    {
        if self.in_bounds(pos) {
            let idx = self.index(pos);
            self.walled.set(idx, true);
        }
    }

    /// Marks the cell at `pos` as visible; a position outside the grid is
    /// ignored.
    pub fn reveal_at(&mut self, pos: Pos)
        requires
            old(self).wf(),
        ensures
            final(self).wf(),
            final(self).width == old(self).width,
            final(self).height == old(self).height,
            final(self).walled@ == old(self).walled@,
            final(self).visible@ == old(self).walls().mark(old(self).visible@, pos),
    {
        if self.in_bounds(pos) {
            let idx = self.index(pos);
            self.visible.set(idx, true);
        }
    }

    /// Whether `tile` is present, in the grid, and not a wall.
    pub fn is_floor(&self, tile: &Option<Pos>) -> (r: bool)
        requires
            self.wf(),
        ensures
            r == self.walls().is_floor(*tile),
    {
        match tile {
            Some(pos) => {
                if self.in_bounds(*pos) {
                    let idx = self.index(*pos);
                    !self.walled[idx]
                } else {
                    false
                }
            },
            None => false,
        }
    }

    /// Whether `tile` is present and not floor. An absent tile is neither
    /// wall nor floor.
    pub fn is_wall(&self, tile: &Option<Pos>) -> (r: bool)
        requires
            self.wf(),
        ensures
            r == self.walls().is_wall(*tile),
    {
        match tile {
            Some(_) => !self.is_floor(tile),
            None => false,
        }
    }

    /// Whether `tile` is present, in the grid, and visible.
    pub fn is_visible(&self, tile: &Option<Pos>) -> (r: bool)
        requires
            self.wf(),
        ensures
            r == self.visible_at(*tile),
    {
        match tile {
            Some(pos) => {
                if self.in_bounds(*pos) {
                    let idx = self.index(*pos);
                    self.visible[idx]
                } else {
                    false
                }
            },
            None => false,
        }
    }
}


impl LightMap {
    /// Sweeps `old_row` in the quadrant of `direction`, revealing what is
    /// seen from `origin`, and goes on into the rows it leads to, up to
    /// `max_depth`.
    pub fn scan(&mut self, direction: Direction, origin: Pos, old_row: &Row, max_depth: i32)
        requires
            old(self).wf(),
            old_row.wf(direction),
        ensures
            final(self).wf(),
            final(self).width == old(self).width,
            final(self).height == old(self).height,
            final(self).walled@ == old(self).walled@,
            final(self).visible@ == scan_spec(
                old(self).walls(),
                direction,
                origin,
                max_depth as int,
                old_row.depth as int,
                old_row.start_slope,
                old_row.end_slope,
                old(self).visible@,
            ),
        decreases max_depth + 1 - old_row.depth,
    {
        let ghost g = self.walls();
        let ghost target = scan_spec(
            g,
            direction,
            origin,
            max_depth as int,
            old_row.depth as int,
            old_row.start_slope,
            old_row.end_slope,
            self.visible@,
        );
        let mut row = Row::new(old_row.depth, old_row.start_slope, old_row.end_slope);
        if row.depth > max_depth {
            return;
        }
        let tiles: Vec<Pos> = row.tiles(origin, direction, self.width, self.height);
        proof {
            lemma_row_tiles(
                g.width,
                g.height,
                direction,
                origin,
                row.depth as int,
                row.start_slope,
                row.end_slope,
            );
        }
        let mut prev_tile: Option<Pos> = None;
        let mut i: usize = 0;
        while i < tiles.len()
            invariant
                0 <= i <= tiles@.len(),
                self.wf(),
                self.walls() == g,
                g.width == self.width,
                g.height == self.height,
                row.wf(direction),
                row.depth == old_row.depth,
                row.depth <= max_depth,
                row.end_slope == old_row.end_slope,
                tiles@ == row_tiles(
                    g.width,
                    g.height,
                    direction,
                    origin,
                    row.depth as int,
                    old_row.start_slope,
                    old_row.end_slope,
                ),
                forall|j: int|
                    0 <= j < tiles@.len() ==> {
                        let t = #[trigger] tiles@[j];
                        &&& 0 <= t.0 < g.width
                        &&& 0 <= t.1 < g.height
                        &&& is_vertical(direction) ==> t.1 == depth_coord(
                            direction,
                            origin,
                            row.depth as int,
                        )
                        &&& !is_vertical(direction) ==> t.0 == depth_coord(
                            direction,
                            origin,
                            row.depth as int,
                        )
                    },
                walk_spec(
                    g,
                    direction,
                    origin,
                    max_depth as int,
                    row.depth as int,
                    tiles@,
                    i as int,
                    row.start_slope,
                    row.end_slope,
                    prev_tile,
                    self.visible@,
                ) == target,
            decreases tiles@.len() - i,
        {
            let tile = tiles[i];
            proof {
                lemma_depth_coord_moves(direction, origin, row.depth as int);
            }
            if self.is_wall(&Some(tile)) || is_symmetric(&row, direction, origin, tile) {
                self.reveal_at(tile);
            }
            if self.is_wall(&prev_tile) && self.is_floor(&Some(tile)) {
                row.start_slope = slope(direction, origin, tile);
            }
            if self.is_floor(&prev_tile) && self.is_wall(&Some(tile)) {
                if row.depth < max_depth {
                    let mut next_row = row.next();
                    next_row.end_slope = slope(direction, origin, tile);
                    self.scan(direction, origin, &next_row, max_depth);
                } else {
                    proof {
                        assert(scan_spec(
                            g,
                            direction,
                            origin,
                            max_depth as int,
                            row.depth + 1,
                            row.start_slope,
                            slope_spec(direction, origin, tile),
                            self.visible@,
                        ) == self.visible@);
                    }
                }
            }
            prev_tile = Some(tile);
            i = i + 1;
        }
        if self.is_floor(&prev_tile) {
            if row.depth < max_depth {
                let next_row = row.next();
                self.scan(direction, origin, &next_row, max_depth);
            } else {
                proof {
                    assert(scan_spec(
                        g,
                        direction,
                        origin,
                        max_depth as int,
                        row.depth + 1,
                        row.start_slope,
                        row.end_slope,
                        self.visible@,
                    ) == self.visible@);
                }
            }
        }
    }

    /// Reveals `origin`, then everything seen from it in each of the four
    /// quadrants, up to `depth` rows out. The pass only ever adds to what
    /// is visible, shows the origin when it lies in the grid, and shows
    /// nothing newly that lies further than `depth` cells from the origin
    /// along either axis.
    pub fn calculate_pov(&mut self, depth: i32, origin: Pos)
        requires
            old(self).wf(),
        ensures
            final(self).wf(),
            final(self).width == old(self).width,
            final(self).height == old(self).height,
            final(self).walled@ == old(self).walled@,
            final(self).visible@ == pov_spec(old(self).walls(), depth as int, origin, old(self).visible@),
            forall|i: int|
                0 <= i < old(self).visible@.len() && #[trigger] old(self).visible@[i]
                    ==> final(self).visible@[i],
            old(self).walls().in_bounds(origin) ==> final(self).visible_at(Some(origin)),
            depth >= 0 ==> forall|p: Pos|
                #[trigger] final(self).visible_at(Some(p)) && !old(self).visible_at(Some(p))
                    ==> origin.0 - depth <= p.0 <= origin.0 + depth && origin.1 - depth <= p.1
                    <= origin.1 + depth,
    {
        proof {
            let g = self.walls();
            crate::physics::visibility_laws::lemma_pov_grows(g, depth as int, origin, self.visible@);
            if g.in_bounds(origin) {
                crate::physics::visibility_laws::lemma_origin_visible(
                    g,
                    depth as int,
                    origin,
                    self.visible@,
                );
            }
            if depth >= 0 {
                crate::physics::visibility_laws::lemma_pov_within_depth(
                    g,
                    depth as int,
                    origin,
                    self.visible@,
                );
            }
        }
        self.reveal_at(origin);
        let row_north = Row::new(1, Slope::new(1, 1), Slope::new(-1, 1));
        let row_south = Row::new(1, Slope::new(-1, 1), Slope::new(1, 1));
        let row_east = Row::new(1, Slope::new(-1, 1), Slope::new(1, 1));
        let row_west = Row::new(1, Slope::new(1, 1), Slope::new(-1, 1));
        self.scan(Direction::North, origin, &row_north, depth);
        self.scan(Direction::South, origin, &row_south, depth);
        self.scan(Direction::East, origin, &row_east, depth);
        self.scan(Direction::West, origin, &row_west, depth);
    }
}

} // verus!
