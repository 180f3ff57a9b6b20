use std::collections::VecDeque;

use bracket_lib::prelude::RandomNumberGenerator;
use roguelike::builder::{Builder, DEFAULT_MAX_ROOMS};
use roguelike::collapse::{collapse_thin_walls, Axis};
use roguelike::geometry::{Point, Rect};
use roguelike::map::{Curve, Direction, Tile, TileMap, MAP_HEIGHT, MAP_WIDTH};
use roguelike::walls::{build_walls, wall_for};

fn floor_reachable_from(map: &TileMap, start: Point) -> Vec<bool> {
    let mut seen = vec![false; (MAP_WIDTH * MAP_HEIGHT) as usize];
    let mut queue = VecDeque::new();
    if map.can_enter(start) {
        seen[(start.x + start.y * MAP_WIDTH) as usize] = true;
        queue.push_back(start);
    }
    while let Some(p) = queue.pop_front() {
        for (dx, dy) in [(1, 0), (-1, 0), (0, 1), (0, -1)] {
            let q = Point::new(p.x + dx, p.y + dy);
            if map.can_enter(q) && !seen[(q.x + q.y * MAP_WIDTH) as usize] {
                seen[(q.x + q.y * MAP_WIDTH) as usize] = true;
                queue.push_back(q);
            }
        }
    }
    seen
}

fn room_strictly_inside(r: &Rect) -> bool {
    r.x1 > 0 && r.x1 < MAP_WIDTH && r.x2 > 0 && r.x2 < MAP_WIDTH && r.y1 > 0 && r.y1 < MAP_HEIGHT
        && r.y2 > 0 && r.y2 < MAP_HEIGHT
}

#[test]
fn seeded_build_end_to_end() {
    let mut rng = RandomNumberGenerator::seeded(20);
    let builder = Builder::new(&mut rng);
    assert_eq!(builder.max_rooms, DEFAULT_MAX_ROOMS);
    let built = builder.build();
    assert_eq!(built.rooms.len(), 20);
    assert!(built.map.tiles.iter().any(|t| *t == Tile::Floor));
    assert!(built.map.tiles.iter().any(|t| matches!(t, Tile::Wall(_, _))));
}

#[test]
fn built_rooms_are_inside_floor_sorted_and_connected() {
    for seed in [1u64, 7, 99, 12345] {
        let mut rng = RandomNumberGenerator::seeded(seed);
        let built = Builder::new(&mut rng).build();
        let rooms = &built.rooms;
        assert_eq!(rooms.len(), 20);
        for r in rooms {
            assert!(room_strictly_inside(r));
            for y in r.y1..r.y2 {
                for x in r.x1..r.x2 {
                    assert_eq!(built.map.at(Point::new(x, y)), Some(Tile::Floor));
                }
            }
        }
        for pair in rooms.windows(2) {
            assert!(pair[0].center().x <= pair[1].center().x);
        }
        let seen = floor_reachable_from(&built.map, rooms[0].center());
        for r in rooms {
            let c = r.center();
            assert!(seen[(c.x + c.y * MAP_WIDTH) as usize]);
        }
    }
}

#[test]
fn room_placement_only_paints_rooms() {
    let mut rng = RandomNumberGenerator::seeded(3);
    let mut builder = Builder::new(&mut rng);
    builder.build_random_rooms();
    assert_eq!(builder.rooms.len(), 20);
    for y in 0..MAP_HEIGHT {
        for x in 0..MAP_WIDTH {
            let covered = builder.rooms.iter().any(|r| r.x1 <= x && x < r.x2 && r.y1 <= y && y < r.y2);
            let expected = if covered { Tile::Floor } else { Tile::Void };
            assert_eq!(builder.map.at(Point::new(x, y)), Some(expected));
        }
    }
}

#[test]
fn tunnels_connect_room_centers() {
    let mut rng = RandomNumberGenerator::seeded(11);
    let mut builder = Builder::new(&mut rng);
    builder.build_random_rooms();
    builder.dig_random_tunnels();
    let seen = floor_reachable_from(&builder.map, builder.rooms[5].center());
    for r in &builder.rooms {
        let c = r.center();
        assert!(seen[(c.x + c.y * MAP_WIDTH) as usize]);
    }
}

#[test]
fn sort_rooms_keeps_equal_keys_in_order() {
    let a = Rect::with_size(10, 1, 2, 2);
    let b = Rect::with_size(2, 5, 2, 2);
    let c = Rect::with_size(10, 9, 2, 2);
    let mut rooms = vec![a, b, c];
    Builder::sort_rooms_by_center_x(&mut rooms);
    assert_eq!(rooms, vec![b, a, c]);
}

#[test]
fn room_intersection_is_reported() {
    let mut rng = RandomNumberGenerator::seeded(5);
    let mut builder = Builder::new(&mut rng);
    builder.rooms.push(Rect::with_size(5, 5, 4, 4));
    assert!(builder.room_intersection(Rect::with_size(9, 9, 2, 2)));
    assert!(!builder.room_intersection(Rect::with_size(10, 5, 2, 2)));
    assert!(Builder::room_in_bounds(&Rect::with_size(1, 1, 78, 48)));
    assert!(!Builder::room_in_bounds(&Rect::with_size(1, 1, 79, 2)));
    assert!(!Builder::room_in_bounds(&Rect::with_size(0, 1, 3, 2)));
}

fn column_with_floors(x: i32, floors: &[i32]) -> TileMap {
    let mut map = TileMap::new();
    for y in floors {
        map.set(Point::new(x, *y), Tile::Floor);
    }
    map
}

#[test]
fn vertical_collapse_fills_short_runs() {
    let mut map = column_with_floors(3, &[10, 14, 20]);
    collapse_thin_walls(&mut map, Axis::Vertical, 4);
    for y in 11..14 {
        assert_eq!(map.at(Point::new(3, y)), Some(Tile::Floor));
    }
    for y in (0..10).chain(15..20).chain(21..50) {
        assert_eq!(map.at(Point::new(3, y)), Some(Tile::Void));
    }
    assert_eq!(map.at(Point::new(4, 12)), Some(Tile::Void));
}

#[test]
fn horizontal_collapse_fills_single_gaps() {
    let mut map = TileMap::new();
    for x in [10, 12, 15] {
        map.set(Point::new(x, 20), Tile::Floor);
    }
    collapse_thin_walls(&mut map, Axis::Horizontal, 2);
    assert_eq!(map.at(Point::new(11, 20)), Some(Tile::Floor));
    assert_eq!(map.at(Point::new(13, 20)), Some(Tile::Void));
    assert_eq!(map.at(Point::new(14, 20)), Some(Tile::Void));
}

#[test]
fn collapse_counts_runs_across_walls() {
    let mut map = TileMap::new();
    map.set(Point::new(0, 2), Tile::Wall(Curve::Concave, Direction::N));
    map.set(Point::new(0, 5), Tile::Floor);
    collapse_thin_walls(&mut map, Axis::Vertical, 4);
    assert_eq!(map.at(Point::new(0, 0)), Some(Tile::Floor));
    assert_eq!(map.at(Point::new(0, 1)), Some(Tile::Floor));
    assert_eq!(map.at(Point::new(0, 3)), Some(Tile::Void));
    assert_eq!(map.at(Point::new(0, 4)), Some(Tile::Void));
}

#[test]
fn collapse_twice_equals_once() {
    let mut rng = RandomNumberGenerator::seeded(8);
    let mut builder = Builder::new(&mut rng);
    builder.build_random_rooms();
    builder.dig_random_tunnels();
    for (axis, threshold) in [(Axis::Vertical, 4), (Axis::Horizontal, 2)] {
        let mut once = TileMap { tiles: builder.map.tiles.clone() };
        collapse_thin_walls(&mut once, axis, threshold);
        let mut twice = TileMap { tiles: once.tiles.clone() };
        collapse_thin_walls(&mut twice, axis, threshold);
        assert_eq!(once.tiles, twice.tiles);
    }
}

#[test]
fn walls_take_their_shape_from_floor() {
    let mut map = TileMap::new();
    map.set(Point::new(5, 5), Tile::Floor);
    assert_eq!(wall_for(&map, Point::new(5, 4)), Tile::Wall(Curve::Concave, Direction::N));
    assert_eq!(wall_for(&map, Point::new(5, 6)), Tile::Wall(Curve::Concave, Direction::S));
    assert_eq!(wall_for(&map, Point::new(4, 4)), Tile::Wall(Curve::Concave, Direction::NW));
    assert_eq!(wall_for(&map, Point::new(6, 5)), Tile::Wall(Curve::Concave, Direction::E));
    assert_eq!(wall_for(&map, Point::new(8, 8)), Tile::Void);
    map.set(Point::new(4, 6), Tile::Floor);
    map.set(Point::new(5, 6), Tile::Floor);
    assert_eq!(wall_for(&map, Point::new(4, 5)), Tile::Wall(Curve::Convex, Direction::SE));
}

#[test]
fn build_walls_changes_only_void() {
    let mut map = TileMap::new();
    for x in 10..14 {
        for y in 10..13 {
            map.set(Point::new(x, y), Tile::Floor);
        }
    }
    map.set(Point::new(9, 9), Tile::Wall(Curve::Convex, Direction::S));
    let before = map.tiles.clone();
    build_walls(&mut map);
    for (b, a) in before.iter().zip(map.tiles.iter()) {
        if *b != Tile::Void {
            assert_eq!(a, b);
        }
    }
    assert_eq!(map.at(Point::new(9, 9)), Some(Tile::Wall(Curve::Convex, Direction::S)));
    assert_eq!(map.at(Point::new(11, 9)), Some(Tile::Wall(Curve::Concave, Direction::N)));
    assert_eq!(map.at(Point::new(14, 11)), Some(Tile::Wall(Curve::Concave, Direction::E)));
    assert_eq!(map.at(Point::new(14, 13)), Some(Tile::Wall(Curve::Concave, Direction::SE)));
    assert_eq!(map.at(Point::new(9, 10)), Some(Tile::Wall(Curve::Concave, Direction::W)));
    assert_eq!(map.at(Point::new(0, 0)), Some(Tile::Void));
}

#[test]
fn place_room_accepts_inside_even_when_overlapping() {
    let mut rng = RandomNumberGenerator::seeded(9);
    let mut builder = Builder::new(&mut rng);
    let first = Rect::with_size(5, 5, 4, 4);
    let second = Rect::with_size(7, 7, 3, 3);
    builder.place_room(first);
    builder.place_room(second);
    assert_eq!(builder.rooms, vec![first, second]);
    for y in 0..MAP_HEIGHT {
        for x in 0..MAP_WIDTH {
            let inside = |r: &Rect| r.x1 <= x && x < r.x2 && r.y1 <= y && y < r.y2;
            let expected = if inside(&first) || inside(&second) { Tile::Floor } else { Tile::Void };
            assert_eq!(builder.map.at(Point::new(x, y)), Some(expected));
        }
    }
}

#[test]
fn place_room_rejects_outside_the_edges() {
    let mut rng = RandomNumberGenerator::seeded(9);
    let mut builder = Builder::new(&mut rng);
    builder.place_room(Rect::with_size(75, 3, 5, 2));
    builder.place_room(Rect::with_size(0, 3, 4, 2));
    builder.place_room(Rect::with_size(3, 45, 4, 5));
    assert!(builder.rooms.is_empty());
    assert!(builder.map.tiles.iter().all(|t| *t == Tile::Void));
}

fn floor_cells(map: &TileMap) -> Vec<(i32, i32)> {
    let mut cells = Vec::new();
    for y in 0..MAP_HEIGHT {
        for x in 0..MAP_WIDTH {
            if map.at(Point::new(x, y)) == Some(Tile::Floor) {
                cells.push((x, y));
            }
        }
    }
    cells
}

#[test]
fn tunnel_shape_follows_the_flip() {
    let mut map = TileMap::new();
    Builder::dig_tunnel(&mut map, Point::new(2, 3), Point::new(4, 1), true);
    assert_eq!(floor_cells(&map), vec![(4, 1), (4, 2), (2, 3), (3, 3), (4, 3)]);
    let mut map = TileMap::new();
    Builder::dig_tunnel(&mut map, Point::new(2, 3), Point::new(4, 1), false);
    assert_eq!(floor_cells(&map), vec![(2, 1), (3, 1), (4, 1), (2, 2), (2, 3)]);
}
