//! Arithmetic facts about rows and slopes: where a row starts and ends at a
//! given depth, how a narrowed slope moves the next row, and the sector
//! bounds that decide which floor cells are seen.
use vstd::prelude::*;

use crate::physics::shadow_casting::{
    Direction, Pos, Slope, WallGrid, ceil_div, cell, cross_coord, cross_size, depth_coord,
    floor_div, is_vertical, outward, reach_den, reach_num, row_first, row_last, row_tiles,
    slope_den, slope_num, slope_spec, trunc_div, unit,
};

verus! {

/// The slopes that each quadrant's first row starts from.
pub open spec fn seed_start(dir: Direction) -> Slope {
    match dir {
        Direction::North | Direction::West => unit(1),
        Direction::South | Direction::East => unit(-1),
    }
}

pub open spec fn seed_end(dir: Direction) -> Slope {
    match dir {
        Direction::North | Direction::West => unit(-1),
        Direction::South | Direction::East => unit(1),
    }
}

pub(crate) proof fn lemma_floor_div_at_least(x: int, y: int, m: int)
    requires
        y != 0,
        y > 0 ==> x >= m * y,
        y < 0 ==> x <= m * y,
    ensures
        floor_div(x, y) >= m,
{
    let (xx, yy) = if y > 0 { (x, y) } else { (-x, -y) };
    assert(xx >= m * yy) by (nonlinear_arith)
        requires y != 0, y > 0 ==> x >= m * y, y < 0 ==> x <= m * y,
            xx == (if y > 0 { x } else { -x }), yy == (if y > 0 { y } else { -y });
    vstd::arithmetic::div_mod::lemma_fundamental_div_mod(xx, yy);
    let q = xx / yy;
    if q < m {
        assert(xx < m * yy) by (nonlinear_arith)
            requires xx == yy * q + xx % yy, 0 <= xx % yy < yy, q < m, yy > 0;
    }
}

pub(crate) proof fn lemma_floor_div_at_most(x: int, y: int, m: int)
    requires
        y != 0,
        y > 0 ==> x < (m + 1) * y,
        y < 0 ==> x > (m + 1) * y,
    ensures
        floor_div(x, y) <= m,
{
    let (xx, yy) = if y > 0 { (x, y) } else { (-x, -y) };
    assert(xx < (m + 1) * yy) by (nonlinear_arith)
        requires y != 0, y > 0 ==> x < (m + 1) * y, y < 0 ==> x > (m + 1) * y,
            xx == (if y > 0 { x } else { -x }), yy == (if y > 0 { y } else { -y });
    vstd::arithmetic::div_mod::lemma_fundamental_div_mod(xx, yy);
    let q = xx / yy;
    if q > m {
        assert(xx >= (m + 1) * yy) by (nonlinear_arith)
            requires xx == yy * q + xx % yy, 0 <= xx % yy < yy, q > m, yy > 0;
    }
}

/// The start slope does not lean past the quadrant's start diagonal.
pub open spec fn start_inside(dir: Direction, s: Slope) -> bool {
    let a = reach_num(dir, 1, s);
    let b = reach_den(dir, s);
    &&& b != 0
    &&& b > 0 ==> outward(dir) * a >= -b
    &&& b < 0 ==> outward(dir) * a <= -b
}

/// The end slope does not lean past the quadrant's end diagonal.
pub open spec fn end_inside(dir: Direction, s: Slope) -> bool {
    let a = reach_num(dir, 1, s);
    let b = reach_den(dir, s);
    &&& b != 0
    &&& b > 0 ==> outward(dir) * a <= b
    &&& b < 0 ==> outward(dir) * a >= b
}

/// A row between inside slopes stays within `depth` cells of the origin's
/// cross coordinate.
pub(crate) proof fn lemma_row_span_inside(dir: Direction, origin: Pos, depth: int, s: Slope, e: Slope)
    requires
        depth >= 1,
        start_inside(dir, s),
        end_inside(dir, e),
    ensures
        row_first(dir, origin, depth, s) >= cross_coord(dir, origin) - depth,
        row_last(dir, origin, depth, e) <= cross_coord(dir, origin) + depth,
{
    let k = depth;
    let sg = outward(dir);
    let a = reach_num(dir, 1, s);
    let b = reach_den(dir, s);
    assert(reach_num(dir, k, s) == k * a);
    // first = cross + sg * floor((2ka + b) / 2b) >= cross - k
    if sg == 1 {
        assert(b > 0 ==> 2 * (k * a) + b >= (-k) * (2 * b)) by (nonlinear_arith)
            requires k >= 1, b > 0 ==> a >= -b;
        assert(b < 0 ==> 2 * (k * a) + b <= (-k) * (2 * b)) by (nonlinear_arith)
            requires k >= 1, b < 0 ==> a <= -b;
        lemma_floor_div_at_least(2 * (k * a) + b, 2 * b, -k);
    } else {
        assert(b > 0 ==> 2 * (k * a) + b < (k + 1) * (2 * b)) by (nonlinear_arith)
            requires k >= 1, b > 0 ==> -a >= -b;
        assert(b < 0 ==> 2 * (k * a) + b > (k + 1) * (2 * b)) by (nonlinear_arith)
            requires k >= 1, b < 0 ==> -a <= -b;
        lemma_floor_div_at_most(2 * (k * a) + b, 2 * b, k);
    }
    let c = reach_num(dir, 1, e);
    let d = reach_den(dir, e);
    assert(reach_num(dir, k, e) == k * c);
    // last = cross + sg * ceil((2kc - d) / 2d) = cross - sg * floor((d - 2kc) / 2d)
    if sg == 1 {
        assert(d > 0 ==> d - 2 * (k * c) >= (-k) * (2 * d)) by (nonlinear_arith)
            requires k >= 1, d > 0 ==> c <= d;
        assert(d < 0 ==> d - 2 * (k * c) <= (-k) * (2 * d)) by (nonlinear_arith)
            requires k >= 1, d < 0 ==> c >= d;
        lemma_floor_div_at_least(d - 2 * (k * c), 2 * d, -k);
    } else {
        assert(d > 0 ==> d - 2 * (k * c) < (k + 1) * (2 * d)) by (nonlinear_arith)
            requires k >= 1, d > 0 ==> -c <= d;
        assert(d < 0 ==> d - 2 * (k * c) > (k + 1) * (2 * d)) by (nonlinear_arith)
            requires k >= 1, d < 0 ==> -c >= d;
        lemma_floor_div_at_most(d - 2 * (k * c), 2 * d, k);
    }
    assert(-(2 * (k * c) - d) == d - 2 * (k * c));
}

/// The slope to a cell of the row at `depth` is inside on the start side
/// unless the cell is the row's outermost one on that side, and inside on
/// the end side for every cell of the row.
pub(crate) proof fn lemma_slope_inside(dir: Direction, origin: Pos, t: Pos, depth: int)
    requires
        depth >= 1,
        is_vertical(dir) ==> t.1 == depth_coord(dir, origin, depth),
        !is_vertical(dir) ==> t.0 == depth_coord(dir, origin, depth),
    ensures
        cross_coord(dir, t) - cross_coord(dir, origin) >= 1 - depth ==> start_inside(
            dir,
            slope_spec(dir, origin, t),
        ),
        cross_coord(dir, t) - cross_coord(dir, origin) <= depth ==> end_inside(
            dir,
            slope_spec(dir, origin, t),
        ),
{
}

/// The `j`-th cell of a row: in the grid, on the row's line, and `j` past
/// the first cross coordinate that lies in the grid.
pub(crate) proof fn lemma_row_tile_at(
    g: WallGrid,
    dir: Direction,
    origin: Pos,
    depth: int,
    s: Slope,
    e: Slope,
    j: int,
)
    requires
        g.wf(),
        g.width <= i32::MAX,
        g.height <= i32::MAX,
        0 <= j < row_tiles(g.width, g.height, dir, origin, depth, s, e).len(),
    ensures
        ({
            let t = row_tiles(g.width, g.height, dir, origin, depth, s, e)[j];
            &&& g.in_bounds(t)
            &&& is_vertical(dir) ==> t.1 == depth_coord(dir, origin, depth)
            &&& !is_vertical(dir) ==> t.0 == depth_coord(dir, origin, depth)
            &&& cross_coord(dir, t) == vstd::math::max(row_first(dir, origin, depth, s), 0) + j
            &&& cross_coord(dir, t) <= row_last(dir, origin, depth, e)
        }),
{
    let lo = vstd::math::max(row_first(dir, origin, depth, s), 0);
    let hi = vstd::math::min(
        row_last(dir, origin, depth, e),
        cross_size(dir, g.width, g.height) - 1,
    );
    assert(row_tiles(g.width, g.height, dir, origin, depth, s, e)[j] == cell(
        dir,
        origin,
        depth,
        lo + j,
    ));
}

pub(crate) proof fn lemma_floor_div_bounds(x: int, y: int)
    requires
        y != 0,
    ensures
        y > 0 ==> floor_div(x, y) * y <= x < (floor_div(x, y) + 1) * y,
        y < 0 ==> floor_div(x, y) * y >= x > (floor_div(x, y) + 1) * y,
{
    let (xx, yy) = if y > 0 { (x, y) } else { (-x, -y) };
    vstd::arithmetic::div_mod::lemma_fundamental_div_mod(xx, yy);
    let q = xx / yy;
    assert(q * yy <= xx < (q + 1) * yy) by (nonlinear_arith)
        requires xx == yy * q + xx % yy, 0 <= xx % yy < yy;
    if y < 0 {
        assert(q * y >= x > (q + 1) * y) by (nonlinear_arith)
            requires q * yy <= xx < (q + 1) * yy, xx == -x, yy == -y;
    }
}

/// One row further out, the first cell moves at most one step toward the
/// start side.
pub(crate) proof fn lemma_first_step(dir: Direction, origin: Pos, depth: int, s: Slope)
    requires
        depth >= 1,
        start_inside(dir, s),
    ensures
        row_first(dir, origin, depth + 1, s) >= row_first(dir, origin, depth, s) - 1,
{
    let k = depth;
    let a = reach_num(dir, 1, s);
    let b = reach_den(dir, s);
    assert(reach_num(dir, k, s) == k * a);
    assert(reach_num(dir, k + 1, s) == (k + 1) * a);
    let x0 = 2 * (k * a) + b;
    let x1 = 2 * ((k + 1) * a) + b;
    assert(x1 == x0 + 2 * a) by (nonlinear_arith)
        requires x0 == 2 * (k * a) + b, x1 == 2 * ((k + 1) * a) + b;
    let q = floor_div(x0, 2 * b);
    lemma_floor_div_bounds(x0, 2 * b);
    if outward(dir) == 1 {
        // a / b >= -1
        assert(b > 0 ==> x1 >= (q - 1) * (2 * b)) by (nonlinear_arith)
            requires b > 0 ==> q * (2 * b) <= x0, b > 0 ==> a >= -b, x1 == x0 + 2 * a;
        assert(b < 0 ==> x1 <= (q - 1) * (2 * b)) by (nonlinear_arith)
            requires b < 0 ==> q * (2 * b) >= x0, b < 0 ==> a <= -b, x1 == x0 + 2 * a;
        lemma_floor_div_at_least(x1, 2 * b, q - 1);
    } else {
        // a / b <= 1
        assert(b > 0 ==> x1 < (q + 2) * (2 * b)) by (nonlinear_arith)
            requires b > 0 ==> x0 < (q + 1) * (2 * b), b > 0 ==> -a >= -b, x1 == x0 + 2 * a;
        assert(b < 0 ==> x1 > (q + 2) * (2 * b)) by (nonlinear_arith)
            requires b < 0 ==> x0 > (q + 1) * (2 * b), b < 0 ==> -a <= -b, x1 == x0 + 2 * a;
        lemma_floor_div_at_most(x1, 2 * b, q + 1);
    }
}

/// One row further out, the last cell moves at most one step toward the
/// end side.
pub(crate) proof fn lemma_last_step(dir: Direction, origin: Pos, depth: int, e: Slope)
    requires
        depth >= 1,
        end_inside(dir, e),
    ensures
        row_last(dir, origin, depth + 1, e) <= row_last(dir, origin, depth, e) + 1,
{
    let k = depth;
    let c = reach_num(dir, 1, e);
    let d = reach_den(dir, e);
    assert(reach_num(dir, k, e) == k * c);
    assert(reach_num(dir, k + 1, e) == (k + 1) * c);
    // last = cross + sg * ceil((2kc - d) / 2d) = cross - sg * floor((d - 2kc) / 2d)
    let x0 = d - 2 * (k * c);
    let x1 = d - 2 * ((k + 1) * c);
    assert(x1 == x0 - 2 * c) by (nonlinear_arith)
        requires x0 == d - 2 * (k * c), x1 == d - 2 * ((k + 1) * c);
    assert(-(2 * (k * c) - d) == x0);
    assert(-(2 * ((k + 1) * c) - d) == x1);
    let q = floor_div(x0, 2 * d);
    lemma_floor_div_bounds(x0, 2 * d);
    if outward(dir) == 1 {
        // c / d <= 1: floor(x1) >= q - 1
        assert(d > 0 ==> x1 >= (q - 1) * (2 * d)) by (nonlinear_arith)
            requires d > 0 ==> q * (2 * d) <= x0, d > 0 ==> c <= d, x1 == x0 - 2 * c;
        assert(d < 0 ==> x1 <= (q - 1) * (2 * d)) by (nonlinear_arith)
            requires d < 0 ==> q * (2 * d) >= x0, d < 0 ==> c >= d, x1 == x0 - 2 * c;
        lemma_floor_div_at_least(x1, 2 * d, q - 1);
    } else {
        // c / d >= -1: floor(x1) <= q + 1
        assert(d > 0 ==> x1 < (q + 2) * (2 * d)) by (nonlinear_arith)
            requires d > 0 ==> x0 < (q + 1) * (2 * d), d > 0 ==> -c <= d, x1 == x0 - 2 * c;
        assert(d < 0 ==> x1 > (q + 2) * (2 * d)) by (nonlinear_arith)
            requires d < 0 ==> x0 > (q + 1) * (2 * d), d < 0 ==> -c >= d, x1 == x0 - 2 * c;
        lemma_floor_div_at_most(x1, 2 * d, q + 1);
    }
}

/// The slope to a cell at cross offset `c` in the row at `depth` leans
/// `(2c - 1) / (2 depth)` across the sweep.
pub(crate) proof fn lemma_slope_lean(dir: Direction, origin: Pos, t: Pos, depth: int)
    requires
        depth >= 1,
        is_vertical(dir) ==> t.1 == depth_coord(dir, origin, depth),
        !is_vertical(dir) ==> t.0 == depth_coord(dir, origin, depth),
    ensures
        ({
            let sl = slope_spec(dir, origin, t);
            let c = cross_coord(dir, t) - cross_coord(dir, origin);
            &&& reach_den(dir, sl) != 0
            &&& outward(dir) * reach_num(dir, 1, sl) * (2 * depth) == (2 * c - 1) * reach_den(
                dir,
                sl,
            )
        }),
{
    let sl = slope_spec(dir, origin, t);
    let c = cross_coord(dir, t) - cross_coord(dir, origin);
    let k = depth;
    let a = reach_num(dir, 1, sl);
    let b = reach_den(dir, sl);
    let n = slope_num(dir, origin, t);
    let d = slope_den(dir, origin, t);
    assert(d > 0 ==> sl.num == n && sl.den == d);
    assert(d < 0 ==> sl.num == -n && sl.den == -d);
    let sg = outward(dir);
    if is_vertical(dir) {
        assert(t.1 == origin.1 + sg * k);
        assert(n == 2 * sg * k) by (nonlinear_arith)
            requires t.1 == origin.1 + sg * k, n == 2 * (t.1 - origin.1);
        assert(d == 2 * c - 1);
        assert(a == sl.den && b == sl.num);
        assert(sg * a * (2 * k) == (2 * c - 1) * b) by (nonlinear_arith)
            requires
                n == 2 * sg * k, d == 2 * c - 1, sg == 1 || sg == -1,
                d > 0 ==> a == d && b == n, d < 0 ==> a == -d && b == -n;
        assert(b != 0) by (nonlinear_arith)
            requires n == 2 * sg * k, d == 2 * c - 1, sg == 1 || sg == -1, k >= 1,
                d > 0 ==> b == n, d < 0 ==> b == -n;
    } else {
        assert(t.0 == origin.0 + sg * k);
        assert(d == 2 * sg * k) by (nonlinear_arith)
            requires t.0 == origin.0 + sg * k, d == 2 * (t.0 - origin.0);
        assert(n == 2 * c - 1);
        assert(a == sl.num && b == sl.den);
        assert(sg * a * (2 * k) == (2 * c - 1) * b) by (nonlinear_arith)
            requires
                d == 2 * sg * k, n == 2 * c - 1, sg == 1 || sg == -1, k >= 1,
                d > 0 ==> a == n && b == d, d < 0 ==> a == -n && b == -d;
        assert(b != 0) by (nonlinear_arith)
            requires d == 2 * sg * k, sg == 1 || sg == -1, k >= 1,
                d > 0 ==> b == d, d < 0 ==> b == -d;
    }
}

/// After narrowing the start to a cell that is not the row's first, the
/// next row starts no earlier than the cell before it.
pub(crate) proof fn lemma_narrowed_first(dir: Direction, origin: Pos, t: Pos, depth: int)
    requires
        depth >= 1,
        is_vertical(dir) ==> t.1 == depth_coord(dir, origin, depth),
        !is_vertical(dir) ==> t.0 == depth_coord(dir, origin, depth),
        cross_coord(dir, t) - cross_coord(dir, origin) >= 1 - depth,
    ensures
        row_first(dir, origin, depth + 1, slope_spec(dir, origin, t)) >= cross_coord(dir, t) - 1,
{
    lemma_slope_lean(dir, origin, t, depth);
    let sl = slope_spec(dir, origin, t);
    let c = cross_coord(dir, t) - cross_coord(dir, origin);
    let k = depth;
    let a = reach_num(dir, 1, sl);
    let b = reach_den(dir, sl);
    assert(reach_num(dir, k + 1, sl) == (k + 1) * a);
    let x = 2 * ((k + 1) * a) + b;
    let y = 2 * b;
    if outward(dir) == 1 {
        assert(a * (2 * k) == (2 * c - 1) * b) by (nonlinear_arith)
            requires outward(dir) == 1, outward(dir) * a * (2 * k) == (2 * c - 1) * b;
        assert(k * (x - (c - 1) * y) == b * (2 * c - 1 + 2 * k)) by (nonlinear_arith)
            requires a * (2 * k) == (2 * c - 1) * b, x == 2 * ((k + 1) * a) + b, y == 2 * b;
        assert(b > 0 ==> x >= (c - 1) * y) by (nonlinear_arith)
            requires k * (x - (c - 1) * y) == b * (2 * c - 1 + 2 * k), k >= 1, c >= 1 - k;
        assert(b < 0 ==> x <= (c - 1) * y) by (nonlinear_arith)
            requires k * (x - (c - 1) * y) == b * (2 * c - 1 + 2 * k), k >= 1, c >= 1 - k;
        lemma_floor_div_at_least(x, y, c - 1);
        assert(floor_div(x, y) >= c - 1);
        assert(row_first(dir, origin, k + 1, sl) == cross_coord(dir, origin) + floor_div(x, y));
    } else {
        assert(-a * (2 * k) == (2 * c - 1) * b) by (nonlinear_arith)
            requires outward(dir) == -1, outward(dir) * a * (2 * k) == (2 * c - 1) * b;
        assert(k * (x - (2 - c) * y) == b * (1 - 2 * c - 2 * k)) by (nonlinear_arith)
            requires -a * (2 * k) == (2 * c - 1) * b, x == 2 * ((k + 1) * a) + b, y == 2 * b;
        assert(b > 0 ==> x < (2 - c) * y) by (nonlinear_arith)
            requires k * (x - (2 - c) * y) == b * (1 - 2 * c - 2 * k), k >= 1, c >= 1 - k;
        assert(b < 0 ==> x > (2 - c) * y) by (nonlinear_arith)
            requires k * (x - (2 - c) * y) == b * (1 - 2 * c - 2 * k), k >= 1, c >= 1 - k;
        lemma_floor_div_at_most(x, y, 1 - c);
        assert(row_first(dir, origin, k + 1, sl) == cross_coord(dir, origin) - floor_div(x, y));
    }
}

/// A child row ended by the slope to a wall cell ends no later than that
/// cell.
pub(crate) proof fn lemma_narrowed_last(dir: Direction, origin: Pos, t: Pos, depth: int)
    requires
        depth >= 1,
        is_vertical(dir) ==> t.1 == depth_coord(dir, origin, depth),
        !is_vertical(dir) ==> t.0 == depth_coord(dir, origin, depth),
        cross_coord(dir, t) - cross_coord(dir, origin) <= depth,
    ensures
        row_last(dir, origin, depth + 1, slope_spec(dir, origin, t)) <= cross_coord(dir, t),
{
    lemma_slope_lean(dir, origin, t, depth);
    let sl = slope_spec(dir, origin, t);
    let c = cross_coord(dir, t) - cross_coord(dir, origin);
    let k = depth;
    let a = reach_num(dir, 1, sl);
    let b = reach_den(dir, sl);
    assert(reach_num(dir, k + 1, sl) == (k + 1) * a);
    let z = b - 2 * ((k + 1) * a);
    let y = 2 * b;
    assert(-(2 * ((k + 1) * a) - b) == z);
    if outward(dir) == 1 {
        assert(a * (2 * k) == (2 * c - 1) * b) by (nonlinear_arith)
            requires outward(dir) == 1, outward(dir) * a * (2 * k) == (2 * c - 1) * b;
        assert(k * (z + c * y) == b * (2 * k - 2 * c + 1)) by (nonlinear_arith)
            requires a * (2 * k) == (2 * c - 1) * b, z == b - 2 * ((k + 1) * a), y == 2 * b;
        assert(b > 0 ==> z >= (-c) * y) by (nonlinear_arith)
            requires k * (z + c * y) == b * (2 * k - 2 * c + 1), k >= 1, c <= k;
        assert(b < 0 ==> z <= (-c) * y) by (nonlinear_arith)
            requires k * (z + c * y) == b * (2 * k - 2 * c + 1), k >= 1, c <= k;
        lemma_floor_div_at_least(z, y, -c);
        assert(row_last(dir, origin, k + 1, sl) == cross_coord(dir, origin) - floor_div(z, y));
    } else {
        assert(-a * (2 * k) == (2 * c - 1) * b) by (nonlinear_arith)
            requires outward(dir) == -1, outward(dir) * a * (2 * k) == (2 * c - 1) * b;
        assert(k * (z - (c + 1) * y) == b * (2 * c - 1 - 2 * k)) by (nonlinear_arith)
            requires -a * (2 * k) == (2 * c - 1) * b, z == b - 2 * ((k + 1) * a), y == 2 * b;
        assert(b > 0 ==> z < (c + 1) * y) by (nonlinear_arith)
            requires k * (z - (c + 1) * y) == b * (2 * c - 1 - 2 * k), k >= 1, c <= k;
        assert(b < 0 ==> z > (c + 1) * y) by (nonlinear_arith)
            requires k * (z - (c + 1) * y) == b * (2 * c - 1 - 2 * k), k >= 1, c <= k;
        lemma_floor_div_at_most(z, y, c);
        assert(row_last(dir, origin, k + 1, sl) == cross_coord(dir, origin) + floor_div(z, y));
    }
}

/// The first rows of a quadrant span `depth` cells to each side.
pub(crate) proof fn lemma_seed_span(dir: Direction, origin: Pos, depth: int)
    requires
        depth >= 1,
    ensures
        row_first(dir, origin, depth, seed_start(dir)) == cross_coord(dir, origin) - depth,
        row_last(dir, origin, depth, seed_end(dir)) == cross_coord(dir, origin) + depth,
        outward(dir) * trunc_div(
            reach_num(dir, depth, seed_start(dir)),
            reach_den(dir, seed_start(dir)),
        ) == -depth,
        outward(dir) * trunc_div(reach_num(dir, depth, seed_end(dir)), reach_den(dir, seed_end(dir)))
            == depth,
{
    let k = depth;
    vstd::arithmetic::div_mod::lemma_fundamental_div_mod_converse(2 * k + 1, 2, k, 1);
    vstd::arithmetic::div_mod::lemma_fundamental_div_mod_converse(-2 * k + 1, 2, -k, 1);
    vstd::arithmetic::div_mod::lemma_fundamental_div_mod_converse(2 * k - 1, 2, k - 1, 1);
    vstd::arithmetic::div_mod::lemma_fundamental_div_mod_converse(-2 * k - 1, 2, -k - 1, 1);
    vstd::arithmetic::div_mod::lemma_fundamental_div_mod_converse(k, 1, k, 0);
    vstd::arithmetic::div_mod::lemma_fundamental_div_mod_converse(-k, 1, -k, 0);
    let s = seed_start(dir);
    let e = seed_end(dir);
    assert(unit(1).num == 1 && unit(-1).num == -1 && unit(1).den == 1 && unit(-1).den == 1);
    match dir {
        Direction::North => {
            assert(reach_num(dir, k, s) == k && reach_den(dir, s) == 1);
            assert(reach_num(dir, k, e) == k && reach_den(dir, e) == -1);
        },
        Direction::South => {
            assert(reach_num(dir, k, s) == k && reach_den(dir, s) == -1);
            assert(reach_num(dir, k, e) == k && reach_den(dir, e) == 1);
        },
        Direction::East => {
            assert(reach_num(dir, k, s) == -k && reach_den(dir, s) == 1);
            assert(reach_num(dir, k, e) == k && reach_den(dir, e) == 1);
        },
        Direction::West => {
            assert(reach_num(dir, k, s) == k && reach_den(dir, s) == 1);
            assert(reach_num(dir, k, e) == -k && reach_den(dir, e) == 1);
        },
    }
}

/// Narrowed to a cell at or before the origin's line, the next row starts
/// exactly one cell before it.
pub(crate) proof fn lemma_narrowed_first_exact(dir: Direction, origin: Pos, t: Pos, depth: int)
    requires
        depth >= 1,
        is_vertical(dir) ==> t.1 == depth_coord(dir, origin, depth),
        !is_vertical(dir) ==> t.0 == depth_coord(dir, origin, depth),
        1 - depth <= cross_coord(dir, t) - cross_coord(dir, origin) <= 0,
    ensures
        row_first(dir, origin, depth + 1, slope_spec(dir, origin, t)) == cross_coord(dir, t) - 1,
{
    lemma_narrowed_first(dir, origin, t, depth);
    lemma_slope_lean(dir, origin, t, depth);
    let sl = slope_spec(dir, origin, t);
    let c = cross_coord(dir, t) - cross_coord(dir, origin);
    let j = depth;
    let a = reach_num(dir, 1, sl);
    let b = reach_den(dir, sl);
    assert(reach_num(dir, j + 1, sl) == (j + 1) * a);
    let x = 2 * ((j + 1) * a) + b;
    let y = 2 * b;
    if outward(dir) == 1 {
        assert(a * (2 * j) == (2 * c - 1) * b) by (nonlinear_arith)
            requires outward(dir) == 1, outward(dir) * a * (2 * j) == (2 * c - 1) * b;
        assert(j * (x - c * y) == b * (2 * c - 1)) by (nonlinear_arith)
            requires a * (2 * j) == (2 * c - 1) * b, x == 2 * ((j + 1) * a) + b, y == 2 * b;
        assert(b > 0 ==> x < c * y) by (nonlinear_arith)
            requires j * (x - c * y) == b * (2 * c - 1), j >= 1, c <= 0;
        assert(b < 0 ==> x > c * y) by (nonlinear_arith)
            requires j * (x - c * y) == b * (2 * c - 1), j >= 1, c <= 0;
        lemma_floor_div_at_most(x, y, c - 1);
        assert(outward(dir) * floor_div(2 * reach_num(dir, j + 1, sl) + b, y) == floor_div(x, y))
            by (nonlinear_arith)
            requires outward(dir) == 1, 2 * reach_num(dir, j + 1, sl) + b == x;
        assert(row_first(dir, origin, j + 1, sl) == cross_coord(dir, origin) + floor_div(x, y));
    } else {
        assert(-a * (2 * j) == (2 * c - 1) * b) by (nonlinear_arith)
            requires outward(dir) == -1, outward(dir) * a * (2 * j) == (2 * c - 1) * b;
        assert(j * (x - (1 - c) * y) == b * (1 - 2 * c)) by (nonlinear_arith)
            requires -a * (2 * j) == (2 * c - 1) * b, x == 2 * ((j + 1) * a) + b, y == 2 * b;
        assert(b > 0 ==> x >= (1 - c) * y) by (nonlinear_arith)
            requires j * (x - (1 - c) * y) == b * (1 - 2 * c), j >= 1, c <= 0;
        assert(b < 0 ==> x <= (1 - c) * y) by (nonlinear_arith)
            requires j * (x - (1 - c) * y) == b * (1 - 2 * c), j >= 1, c <= 0;
        lemma_floor_div_at_least(x, y, 1 - c);
        assert(row_first(dir, origin, j + 1, sl) == cross_coord(dir, origin) - floor_div(x, y));
    }
}

/// Ended by a wall past the origin's line, the next row ends exactly at
/// that wall's cross coordinate.
pub(crate) proof fn lemma_narrowed_last_exact(dir: Direction, origin: Pos, t: Pos, depth: int)
    requires
        depth >= 1,
        is_vertical(dir) ==> t.1 == depth_coord(dir, origin, depth),
        !is_vertical(dir) ==> t.0 == depth_coord(dir, origin, depth),
        1 <= cross_coord(dir, t) - cross_coord(dir, origin) <= depth,
    ensures
        row_last(dir, origin, depth + 1, slope_spec(dir, origin, t)) == cross_coord(dir, t),
{
    lemma_narrowed_last(dir, origin, t, depth);
    lemma_slope_lean(dir, origin, t, depth);
    let sl = slope_spec(dir, origin, t);
    let c = cross_coord(dir, t) - cross_coord(dir, origin);
    let j = depth;
    let a = reach_num(dir, 1, sl);
    let b = reach_den(dir, sl);
    assert(reach_num(dir, j + 1, sl) == (j + 1) * a);
    let z = b - 2 * ((j + 1) * a);
    let y = 2 * b;
    assert(-(2 * ((j + 1) * a) - b) == z);
    if outward(dir) == 1 {
        assert(a * (2 * j) == (2 * c - 1) * b) by (nonlinear_arith)
            requires outward(dir) == 1, outward(dir) * a * (2 * j) == (2 * c - 1) * b;
        assert(j * (z - (1 - c) * y) == b * (1 - 2 * c)) by (nonlinear_arith)
            requires a * (2 * j) == (2 * c - 1) * b, z == b - 2 * ((j + 1) * a), y == 2 * b;
        assert(b > 0 ==> z < (1 - c) * y) by (nonlinear_arith)
            requires j * (z - (1 - c) * y) == b * (1 - 2 * c), j >= 1, c >= 1;
        assert(b < 0 ==> z > (1 - c) * y) by (nonlinear_arith)
            requires j * (z - (1 - c) * y) == b * (1 - 2 * c), j >= 1, c >= 1;
        lemma_floor_div_at_most(z, y, -c);
        assert(ceil_div(2 * reach_num(dir, j + 1, sl) - b, y)
            == -floor_div(z, y));
        assert(outward(dir) * ceil_div(
            2 * reach_num(dir, j + 1, sl) - b,
            y,
        ) == -floor_div(z, y)) by (nonlinear_arith)
            requires
                outward(dir) == 1,
                ceil_div(2 * reach_num(dir, j + 1, sl) - b, y)
                    == -floor_div(z, y);
        assert(row_last(dir, origin, j + 1, sl) == cross_coord(dir, origin) - floor_div(z, y));
    } else {
        assert(-a * (2 * j) == (2 * c - 1) * b) by (nonlinear_arith)
            requires outward(dir) == -1, outward(dir) * a * (2 * j) == (2 * c - 1) * b;
        assert(j * (z - c * y) == b * (2 * c - 1)) by (nonlinear_arith)
            requires -a * (2 * j) == (2 * c - 1) * b, z == b - 2 * ((j + 1) * a), y == 2 * b;
        assert(b > 0 ==> z >= c * y) by (nonlinear_arith)
            requires j * (z - c * y) == b * (2 * c - 1), j >= 1, c >= 1;
        assert(b < 0 ==> z <= c * y) by (nonlinear_arith)
            requires j * (z - c * y) == b * (2 * c - 1), j >= 1, c >= 1;
        lemma_floor_div_at_least(z, y, c);
        assert(row_last(dir, origin, j + 1, sl) == cross_coord(dir, origin) + floor_div(z, y));
    }
}

pub(crate) proof fn lemma_trunc_div_neg(x: int, y: int)
    requires
        y != 0,
    ensures
        trunc_div(-x, y) == -trunc_div(x, y),
{
    if x == 0 {
        vstd::arithmetic::div_mod::lemma_fundamental_div_mod_converse(0, if y > 0 { y } else { -y }, 0, 0);
    }
}

/// `outward * trunc(reach)` of the slope to a cell at cross offset `c` of
/// the row at `j`, taken at depth `k`, as the rounded fraction
/// `k (2c - 1) / 2j`: numerator and denominator with the same ratio.
pub(crate) proof fn lemma_lean_at(dir: Direction, origin: Pos, t: Pos, j: int, k: int) -> (r: (int, int))
    requires
        1 <= j,
        is_vertical(dir) ==> t.1 == depth_coord(dir, origin, j),
        !is_vertical(dir) ==> t.0 == depth_coord(dir, origin, j),
    ensures
        ({
            let sl = slope_spec(dir, origin, t);
            let c = cross_coord(dir, t) - cross_coord(dir, origin);
            &&& r.1 != 0
            &&& r.0 * (2 * j) == k * (2 * c - 1) * r.1
            &&& outward(dir) * trunc_div(reach_num(dir, k, sl), reach_den(dir, sl)) == trunc_div(
                r.0,
                r.1,
            )
        }),
{
    lemma_slope_lean(dir, origin, t, j);
    let sl = slope_spec(dir, origin, t);
    let c = cross_coord(dir, t) - cross_coord(dir, origin);
    let a = reach_num(dir, 1, sl);
    let b = reach_den(dir, sl);
    let sg = outward(dir);
    assert(reach_num(dir, k, sl) == k * a);
    lemma_trunc_div_neg(k * a, b);
    let x = sg * (k * a);
    assert(x * (2 * j) == k * (2 * c - 1) * b) by (nonlinear_arith)
        requires sg * a * (2 * j) == (2 * c - 1) * b, x == sg * (k * a);
    if sg == 1 {
        assert(x == k * a);
    } else {
        assert(x == -(k * a));
    }
    (x, b)
}

/// The sector's lower bound at depth `k`, from the slope to a cell at or
/// before the origin's line in an earlier or the same row, is at most
/// that cell's cross offset.
pub(crate) proof fn lemma_lower_narrowed(dir: Direction, origin: Pos, t: Pos, j: int, k: int)
    requires
        1 <= j <= k,
        is_vertical(dir) ==> t.1 == depth_coord(dir, origin, j),
        !is_vertical(dir) ==> t.0 == depth_coord(dir, origin, j),
        cross_coord(dir, t) - cross_coord(dir, origin) <= 0,
    ensures
        outward(dir) * trunc_div(
            reach_num(dir, k, slope_spec(dir, origin, t)),
            reach_den(dir, slope_spec(dir, origin, t)),
        ) <= cross_coord(dir, t) - cross_coord(dir, origin),
{
    let (x, y) = lemma_lean_at(dir, origin, t, j, k);
    let c = cross_coord(dir, t) - cross_coord(dir, origin);
    assert((2 * j) * (x - c * y) == y * (2 * c * (k - j) - k)) by (nonlinear_arith)
        requires x * (2 * j) == k * (2 * c - 1) * y;
    assert(y > 0 ==> x < c * y && x < 0) by (nonlinear_arith)
        requires (2 * j) * (x - c * y) == y * (2 * c * (k - j) - k), 1 <= j <= k, c <= 0;
    assert(y < 0 ==> x > c * y && x > 0) by (nonlinear_arith)
        requires (2 * j) * (x - c * y) == y * (2 * c * (k - j) - k), 1 <= j <= k, c <= 0;
    assert(y > 0 ==> -x >= (-c) * y) by (nonlinear_arith)
        requires y > 0 ==> x < c * y;
    assert(y < 0 ==> -x <= (-c) * y) by (nonlinear_arith)
        requires y < 0 ==> x > c * y;
    lemma_floor_div_at_least(-x, y, -c);
}

/// The sector's upper bound at depth `k`, from the slope to a cell past
/// the origin's line in an earlier or the same row, is at least one less
/// than that cell's cross offset.
pub(crate) proof fn lemma_upper_narrowed(dir: Direction, origin: Pos, t: Pos, j: int, k: int)
    requires
        1 <= j <= k,
        is_vertical(dir) ==> t.1 == depth_coord(dir, origin, j),
        !is_vertical(dir) ==> t.0 == depth_coord(dir, origin, j),
        cross_coord(dir, t) - cross_coord(dir, origin) >= 1,
    ensures
        outward(dir) * trunc_div(
            reach_num(dir, k, slope_spec(dir, origin, t)),
            reach_den(dir, slope_spec(dir, origin, t)),
        ) >= cross_coord(dir, t) - cross_coord(dir, origin) - 1,
{
    let (x, y) = lemma_lean_at(dir, origin, t, j, k);
    let c = cross_coord(dir, t) - cross_coord(dir, origin);
    assert((2 * j) * (x - (c - 1) * y) == y * ((2 * c - 1) * (k - j) + j)) by (
    nonlinear_arith)
        requires x * (2 * j) == k * (2 * c - 1) * y;
    assert(y > 0 ==> x >= (c - 1) * y && x > 0) by (nonlinear_arith)
        requires
            (2 * j) * (x - (c - 1) * y) == y * ((2 * c - 1) * (k - j) + j),
            1 <= j <= k,
            c >= 1,
            x * (2 * j) == k * (2 * c - 1) * y;
    assert(y < 0 ==> x <= (c - 1) * y && x < 0) by (nonlinear_arith)
        requires
            (2 * j) * (x - (c - 1) * y) == y * ((2 * c - 1) * (k - j) + j),
            1 <= j <= k,
            c >= 1,
            x * (2 * j) == k * (2 * c - 1) * y;
    lemma_floor_div_at_least(x, y, c - 1);
}

/// The sector bound at `depth` of a slope, as an offset from the origin.
pub open spec fn bound_at(dir: Direction, depth: int, s: Slope) -> int {
    outward(dir) * trunc_div(reach_num(dir, depth, s), reach_den(dir, s))
}

} // verus!
