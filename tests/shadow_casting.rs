use sdl_isometric::physics::shadow_casting::{
    get_pos, is_symmetric, slope, Direction, LightMap, Row, Slope,
};

fn visible_cells(m: &LightMap) -> Vec<(i32, i32)> {
    let mut cells = Vec::new();
    for y in 0..m.height {
        for x in 0..m.width {
            if m.is_visible(&Some((x, y))) {
                cells.push((x, y));
            }
        }
    }
    cells
}

fn unit(v: i64) -> Slope {
    Slope::new(v, 1)
}

#[test]
fn new_map_is_empty() {
    let m = LightMap::new(4, 3);
    assert_eq!(m.width, 4);
    assert_eq!(m.height, 3);
    assert_eq!(m.visible.len(), 12);
    assert_eq!(m.walled.len(), 12);
    assert!(m.visible.iter().all(|v| !v));
    assert!(m.walled.iter().all(|w| !w));
}

#[test]
fn set_wall_marks_one_cell() {
    let mut m = LightMap::new(4, 3);
    m.set_wall((2, 1));
    assert!(m.walled[1 * 4 + 2]);
    assert_eq!(m.walled.iter().filter(|w| **w).count(), 1);
    assert!(m.is_wall(&Some((2, 1))));
    assert!(!m.is_floor(&Some((2, 1))));
    assert!(m.is_floor(&Some((1, 1))));
}

#[test]
fn out_of_bounds_positions_are_ignored() {
    let mut m = LightMap::new(4, 3);
    m.set_wall((-1, 1));
    m.set_wall((4, 0));
    m.set_wall((0, 3));
    m.reveal_at((-1, 0));
    m.reveal_at((0, -1));
    m.reveal_at((4, 2));
    assert!(m.walled.iter().all(|w| !w));
    assert!(m.visible.iter().all(|v| !v));
}

#[test]
fn absent_and_outside_tiles_are_classified() {
    let m = LightMap::new(4, 3);
    assert!(!m.is_floor(&None));
    assert!(!m.is_wall(&None));
    assert!(!m.is_visible(&None));
    assert!(!m.is_floor(&Some((-1, 1))));
    assert!(m.is_wall(&Some((-1, 1))));
    assert!(m.is_wall(&Some((4, 0))));
    assert!(!m.is_visible(&Some((4, 0))));
}

#[test]
fn reveal_and_clear_visible() {
    let mut m = LightMap::new(4, 3);
    m.reveal_at((3, 2));
    assert!(m.is_visible(&Some((3, 2))));
    assert!(!m.is_visible(&Some((2, 2))));
    m.clear_visible();
    assert!(!m.is_visible(&Some((3, 2))));
}

#[test]
fn clear_wall_keeps_visibility() {
    let mut m = LightMap::new(4, 3);
    m.set_wall((0, 0));
    m.set_wall((3, 2));
    m.reveal_at((1, 1));
    m.clear_wall();
    assert!(m.walled.iter().all(|w| !w));
    assert!(m.is_visible(&Some((1, 1))));
}

#[test]
fn open_grid_reveals_square_within_depth() {
    let mut m = LightMap::new(10, 5);
    m.calculate_pov(3, (3, 3));
    for y in 0..5 {
        for x in 0..10 {
            let near = (x - 3i32).abs() <= 3 && (y - 3i32).abs() <= 3;
            assert_eq!(m.is_visible(&Some((x, y))), near, "cell ({}, {})", x, y);
        }
    }
}

#[test]
fn wall_east_of_origin_hides_cells_behind_it() {
    let mut m = LightMap::new(10, 5);
    m.set_wall((4, 3));
    m.calculate_pov(3, (3, 3));
    assert!(m.is_visible(&Some((4, 3))));
    assert!(!m.is_visible(&Some((5, 3))));
    assert!(!m.is_visible(&Some((6, 3))));
    assert!(m.is_visible(&Some((4, 2))));
    assert!(m.is_visible(&Some((4, 4))));
}

#[test]
fn origin_is_visible_even_when_walled() {
    let mut m = LightMap::new(5, 5);
    m.set_wall((2, 2));
    m.calculate_pov(0, (2, 2));
    assert!(m.is_visible(&Some((2, 2))));
    assert_eq!(visible_cells(&m), vec![(2, 2)]);
}

#[test]
fn adjacent_walls_are_revealed() {
    let mut m = LightMap::new(5, 5);
    for p in [(1, 1), (2, 1), (3, 1), (1, 2), (3, 2), (1, 3), (2, 3), (3, 3)] {
        m.set_wall(p);
    }
    m.calculate_pov(1, (2, 2));
    for p in [(1, 1), (2, 1), (3, 1), (1, 2), (3, 2), (1, 3), (2, 3), (3, 3)] {
        assert!(m.is_visible(&Some(p)), "wall {:?}", p);
    }
    assert_eq!(visible_cells(&m).len(), 9);
}

#[test]
fn closed_room_shows_inside_and_walls_only() {
    let mut m = LightMap::new(12, 10);
    for y in 2..8 {
        for x in 2..9 {
            if x == 2 || x == 8 || y == 2 || y == 7 {
                m.set_wall((x, y));
            }
        }
    }
    m.calculate_pov(20, (4, 4));
    for y in 0..10 {
        for x in 0..12 {
            let in_room = (2..=8).contains(&x) && (2..=7).contains(&y);
            assert_eq!(m.is_visible(&Some((x, y))), in_room, "cell ({}, {})", x, y);
        }
    }
}

#[test]
fn nothing_beyond_depth_is_revealed() {
    let mut m = LightMap::new(20, 20);
    m.calculate_pov(4, (10, 10));
    for (x, y) in visible_cells(&m) {
        assert!((x - 10).abs() <= 4 && (y - 10).abs() <= 4, "cell ({}, {})", x, y);
    }
    assert_eq!(visible_cells(&m).len(), 81);
}

#[test]
fn open_grid_visibility_is_mutual() {
    let mut a = LightMap::new(8, 8);
    a.calculate_pov(5, (1, 2));
    let mut b = LightMap::new(8, 8);
    b.calculate_pov(5, (5, 6));
    assert!(a.is_visible(&Some((5, 6))));
    assert!(b.is_visible(&Some((1, 2))));
}

#[test]
fn repeated_pass_after_clear_is_identical() {
    let mut m = LightMap::new(9, 7);
    m.set_wall((4, 2));
    m.set_wall((5, 3));
    m.set_wall((2, 5));
    m.clear_visible();
    m.calculate_pov(6, (3, 3));
    let first = m.visible.clone();
    m.clear_visible();
    m.calculate_pov(6, (3, 3));
    assert_eq!(m.visible, first);
    m.calculate_pov(6, (3, 3));
    assert_eq!(m.visible, first);
}

#[test]
fn pass_keeps_earlier_visibility() {
    let mut m = LightMap::new(9, 7);
    m.reveal_at((8, 6));
    m.set_wall((4, 3));
    m.calculate_pov(2, (1, 1));
    assert!(m.is_visible(&Some((8, 6))));
    assert!(m.is_visible(&Some((1, 1))));
}

#[test]
fn corner_wall_casts_shadow_diagonally() {
    let mut m = LightMap::new(6, 6);
    m.set_wall((3, 2));
    m.calculate_pov(5, (0, 0));
    assert!(m.is_visible(&Some((3, 2))));
    assert!(!m.is_visible(&Some((5, 3))));
    assert_eq!(visible_cells(&m).len(), 35);
}

#[test]
fn origin_outside_grid_does_not_panic() {
    let mut m = LightMap::new(4, 4);
    m.calculate_pov(3, (-2, 1));
    assert!(visible_cells(&m).is_empty());
    let mut far = LightMap::new(4, 4);
    far.calculate_pov(i32::MAX, (i32::MIN, i32::MAX));
    assert!(visible_cells(&far).is_empty());
}

#[test]
fn slope_points_at_cell_corners() {
    let s = slope(Direction::East, (3, 3), (5, 1));
    assert_eq!((s.num, s.den), (-5, 4));
    let s = slope(Direction::North, (3, 3), (1, 1));
    assert_eq!((s.num, s.den), (4, 5));
    let s = slope(Direction::West, (3, 3), (1, 4));
    assert_eq!((s.num, s.den), (-1, 4));
}

#[test]
fn row_bounds_and_tiles() {
    let row = Row::new(2, unit(-1), unit(1));
    let next = row.next();
    assert_eq!(next.depth, 3);
    assert_eq!(get_pos((3, 3), 2, unit(-1), unit(1), Direction::East), ((5, 1), (5, 5)));
    assert_eq!(get_pos((3, 3), 2, unit(1), unit(-1), Direction::North), ((1, 1), (5, 1)));
    assert_eq!(get_pos((3, 3), 2, unit(-1), unit(1), Direction::South), ((1, 5), (5, 5)));
    assert_eq!(get_pos((3, 3), 2, unit(1), unit(-1), Direction::West), ((1, 1), (1, 5)));
    assert_eq!(
        row.tiles((3, 3), Direction::East, 10, 5),
        vec![(5, 1), (5, 2), (5, 3), (5, 4)]
    );
    assert_eq!(row.tiles((3, 3), Direction::South, 10, 5), Vec::<(i32, i32)>::new());
}

#[test]
fn symmetric_test_truncates_toward_zero() {
    let row = Row::new(3, Slope::new(-1, 2), unit(1));
    assert!(!is_symmetric(&row, Direction::East, (0, 0), (3, -2)));
    assert!(is_symmetric(&row, Direction::East, (0, 0), (3, -1)));
    assert!(is_symmetric(&row, Direction::East, (0, 0), (3, 3)));
    assert!(!is_symmetric(&row, Direction::East, (0, 0), (3, 4)));
}

#[test]
fn open_grid_visibility_is_mutual_for_all_pairs() {
    let (w, h, d) = (6, 5, 2);
    let mut seen = Vec::new();
    for y in 0..h {
        for x in 0..w {
            let mut m = LightMap::new(w, h);
            m.calculate_pov(d, (x, y));
            seen.push(m);
        }
    }
    for a in 0..(w * h) {
        for b in 0..(w * h) {
            let pa = (a % w, a / w);
            let pb = (b % w, b / w);
            let a_sees_b = seen[a as usize].is_visible(&Some(pb));
            let b_sees_a = seen[b as usize].is_visible(&Some(pa));
            assert_eq!(a_sees_b, b_sees_a, "{:?} {:?}", pa, pb);
            let near = (pa.0 - pb.0).abs() <= d && (pa.1 - pb.1).abs() <= d;
            assert_eq!(a_sees_b, near, "{:?} {:?}", pa, pb);
        }
    }
}

#[test]
fn room_seen_from_its_corner_cell() {
    let mut m = LightMap::new(11, 9);
    for y in 1..8 {
        for x in 2..10 {
            if x == 2 || x == 9 || y == 1 || y == 7 {
                m.set_wall((x, y));
            }
        }
    }
    m.calculate_pov(12, (3, 2));
    for y in 0..9 {
        for x in 0..11 {
            let in_room = (2..=9).contains(&x) && (1..=7).contains(&y);
            assert_eq!(m.is_visible(&Some((x, y))), in_room, "cell ({}, {})", x, y);
        }
    }
}

#[test]
fn depth_below_one_reveals_only_the_origin() {
    let mut m = LightMap::new(5, 5);
    m.calculate_pov(-3, (1, 4));
    assert_eq!(visible_cells(&m), vec![(1, 4)]);
}
