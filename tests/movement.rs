use roguelike::geometry::Point;
use roguelike::map::{Tile, TileMap};
use roguelike::movement::{try_move, Intent};

#[test]
fn steps_onto_floor_only() {
    let mut map = TileMap::new();
    map.set(Point::new(5, 5), Tile::Floor);
    map.set(Point::new(6, 5), Tile::Floor);
    let start = Point::new(5, 5);
    assert_eq!(try_move(&map, start, Intent::MoveRight), Point::new(6, 5));
    assert_eq!(try_move(&map, start, Intent::MoveLeft), start);
    assert_eq!(try_move(&map, start, Intent::MoveUp), start);
    assert_eq!(try_move(&map, start, Intent::MoveDown), start);
}

#[test]
fn never_steps_off_the_map() {
    let mut map = TileMap::new();
    map.set(Point::new(0, 0), Tile::Floor);
    let corner = Point::new(0, 0);
    assert_eq!(try_move(&map, corner, Intent::MoveLeft), corner);
    assert_eq!(try_move(&map, corner, Intent::MoveUp), corner);
    let far = Point::new(i32::MAX, i32::MIN);
    assert_eq!(try_move(&map, far, Intent::MoveRight), far);
    assert_eq!(try_move(&map, far, Intent::MoveUp), far);
}

#[test]
fn intent_deltas() {
    assert_eq!(Intent::MoveUp.delta(), Point::new(0, -1));
    assert_eq!(Intent::MoveDown.delta(), Point::new(0, 1));
    assert_eq!(Intent::MoveLeft.delta(), Point::new(-1, 0));
    assert_eq!(Intent::MoveRight.delta(), Point::new(1, 0));
}
