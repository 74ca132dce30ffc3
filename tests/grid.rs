use sdl_isometric::ascii::grid::Grid;
use sdl_isometric::entities::facing_to_direction;
use sdl_isometric::Direction;

#[test]
fn grid_new_keeps_fields() {
    let g = Grid::new(-3, 4, 5, 6);
    assert_eq!(g, Grid { x: -3, y: 4, w: 5, h: 6 });
}

#[test]
fn overlapping_rectangles_collide() {
    let a = Grid::new(0, 0, 4, 4);
    let b = Grid::new(3, 3, 2, 2);
    assert!(a.aabb(&b));
    assert!(b.aabb(&a));
}

#[test]
fn touching_rectangles_do_not_collide() {
    let a = Grid::new(0, 0, 4, 4);
    let right = Grid::new(4, 0, 2, 2);
    let below = Grid::new(0, 4, 2, 2);
    assert!(!a.aabb(&right));
    assert!(!a.aabb(&below));
}

#[test]
fn unit_cell_inside_room_collides() {
    let room = Grid::new(2, 2, 5, 3);
    assert!(room.aabb(&Grid::new(6, 4, 1, 1)));
    assert!(!room.aabb(&Grid::new(7, 4, 1, 1)));
}

#[test]
fn huge_rectangles_do_not_wrap() {
    let a = Grid::new(i32::MAX, 0, u32::MAX, 1);
    let b = Grid::new(0, 0, 1, 1);
    assert!(!a.aabb(&b));
    let c = Grid::new(i32::MIN, i32::MIN, u32::MAX, u32::MAX);
    assert!(c.aabb(&b));
}

#[test]
fn facing_maps_to_direction() {
    assert_eq!(facing_to_direction((1, 0)), Direction::Right);
    assert_eq!(facing_to_direction((-2, 5)), Direction::Left);
    assert_eq!(facing_to_direction((0, -1)), Direction::Up);
    assert_eq!(facing_to_direction((0, 3)), Direction::Down);
    assert_eq!(facing_to_direction((0, 0)), Direction::Stop);
    assert_eq!(facing_to_direction((4, -4)), Direction::Right);
}
