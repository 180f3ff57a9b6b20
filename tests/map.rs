use roguelike::geometry::{Point, Rect};
use roguelike::map::{Curve, Direction, Tile, TileMap, MAP_HEIGHT, MAP_WIDTH, NUM_TILES};

#[test]
fn new_map_is_all_void() {
    let map = TileMap::new();
    assert_eq!(map.tiles.len(), NUM_TILES as usize);
    assert!(map.tiles.iter().all(|t| *t == Tile::Void));
}

#[test]
fn out_of_bounds_lookups_are_absent() {
    let mut map = TileMap::new();
    map.set(Point::new(0, 0), Tile::Floor);
    let outside = [
        Point::new(-1, 0),
        Point::new(0, -1),
        Point::new(MAP_WIDTH, 0),
        Point::new(0, MAP_HEIGHT),
        Point::new(i32::MIN, i32::MAX),
        Point::new(i32::MAX, i32::MIN),
    ];
    for p in outside {
        assert!(!TileMap::in_bounds(p));
        assert_eq!(map.at(p), None);
        assert!(!map.can_enter(p));
    }
}

#[test]
fn set_out_of_bounds_is_ignored() {
    let mut map = TileMap::new();
    map.set(Point::new(MAP_WIDTH, 3), Tile::Floor);
    map.set(Point::new(-1, -1), Tile::Floor);
    assert!(map.tiles.iter().all(|t| *t == Tile::Void));
}

#[test]
fn set_then_at_and_can_enter() {
    let mut map = TileMap::new();
    let p = Point::new(7, 3);
    map.set(p, Tile::Floor);
    assert_eq!(map.at(p), Some(Tile::Floor));
    assert!(map.can_enter(p));
    assert_eq!(map.tiles[(7 + 3 * MAP_WIDTH) as usize], Tile::Floor);
    map.set(p, Tile::Wall(Curve::Concave, Direction::N));
    assert_eq!(map.at(p), Some(Tile::Wall(Curve::Concave, Direction::N)));
    assert!(!map.can_enter(p));
    assert!(!map.can_enter(Point::new(8, 3)));
}

#[test]
fn borrow_mut_at_edits_in_place() {
    let mut map = TileMap::new();
    if let Some(t) = map.borrow_mut_at(Point::new(79, 49)) {
        *t = Tile::Floor;
    } else {
        panic!("corner cell is on the map");
    }
    assert!(map.borrow_mut_at(Point::new(80, 49)).is_none());
    assert_eq!(map.at(Point::new(79, 49)), Some(Tile::Floor));
}

#[test]
fn coordinate_iter_is_row_major() {
    let mut map = TileMap::new();
    map.set(Point::new(1, 0), Tile::Floor);
    let cells = map.coordinate_iter();
    assert_eq!(cells.len(), 4000);
    assert_eq!(cells[0], (Point::new(0, 0), Tile::Void));
    assert_eq!(cells[1], (Point::new(1, 0), Tile::Floor));
    assert_eq!(cells[80], (Point::new(0, 1), Tile::Void));
    assert_eq!(cells[3999], (Point::new(79, 49), Tile::Void));
}

#[test]
fn direction_opposites_and_offsets() {
    let all = [
        Direction::N,
        Direction::S,
        Direction::E,
        Direction::W,
        Direction::NW,
        Direction::NE,
        Direction::SW,
        Direction::SE,
    ];
    for d in all {
        let a = Point::from(d);
        let b = Point::from(d.opposite());
        assert_eq!((a.x + b.x, a.y + b.y), (0, 0));
        assert_eq!(d.opposite().opposite(), d);
    }
    assert_eq!(Direction::NW.opposite(), Direction::SE);
    assert_eq!(Point::from(Direction::N), Point::new(0, -1));
    assert_eq!(Point::from(Direction::SE), Point::new(1, 1));
}

#[test]
fn rect_center_and_intersection() {
    let r = Rect::with_size(2, 3, 4, 5);
    assert_eq!(r, Rect { x1: 2, y1: 3, x2: 6, y2: 8 });
    assert_eq!(r.center(), Point::new(4, 5));
    let odd = Rect::with_size(1, 1, 3, 3);
    assert_eq!(odd.center(), Point::new(2, 2));
    assert!(r.intersect(&Rect::with_size(6, 8, 2, 2)));
    assert!(!r.intersect(&Rect::with_size(7, 3, 2, 2)));
    let negative = Rect { x1: -5, y1: -5, x2: 0, y2: 0 };
    assert_eq!(negative.center(), Point::new(-2, -2));
}
