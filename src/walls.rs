//! Wall shapes: each `Void` cell next to floor becomes a wall whose curve and
//! direction follow the floor around it.
use vstd::prelude::*;

use crate::geometry::Point;
use crate::map::{cell, in_bounds_spec, index_of, is_floor, lemma_index_of, Curve, Direction, Tile, TileMap, MAP_HEIGHT, MAP_WIDTH, NUM_TILES};

verus! {

/// The neighbour of `(x, y)` toward `d` is floor.
pub open spec fn floor_toward(tiles: Seq<Tile>, x: int, y: int, d: Direction) -> bool {
    is_floor(tiles, x + d.offset().x, y + d.offset().y)
}

/// Floor on all three sides of a corner, the diagonal `d` in the middle.
pub open spec fn floor_corner(tiles: Seq<Tile>, x: int, y: int, side1: Direction, d: Direction, side2: Direction) -> bool {
    floor_toward(tiles, x, y, side1) && floor_toward(tiles, x, y, d) && floor_toward(tiles, x, y, side2)
}

/// The first direction, in the order N, S, W, E, NE, NW, SE, SW, with floor
/// toward it.
pub open spec fn first_floor_side(tiles: Seq<Tile>, x: int, y: int) -> Option<Direction> {
    if floor_toward(tiles, x, y, Direction::N) {
        Some(Direction::N)
    } else if floor_toward(tiles, x, y, Direction::S) {
        Some(Direction::S)
    } else if floor_toward(tiles, x, y, Direction::W) {
        Some(Direction::W)
    } else if floor_toward(tiles, x, y, Direction::E) {
        Some(Direction::E)
    } else if floor_toward(tiles, x, y, Direction::NE) {
        Some(Direction::NE)
    } else if floor_toward(tiles, x, y, Direction::NW) {
        Some(Direction::NW)
    } else if floor_toward(tiles, x, y, Direction::SE) {
        Some(Direction::SE)
    } else if floor_toward(tiles, x, y, Direction::SW) {
        Some(Direction::SW)
    } else {
        None
    }
}

/// What a `Void` cell at `(x, y)` becomes. A corner with floor on all three
/// sides (checked NW, NE, SW, SE in turn) gives a convex wall named by the
/// corner's diagonal; otherwise the first floor side gives a concave wall
/// facing away from it; with no floor around, the cell stays `Void`.
pub open spec fn wall_shape(tiles: Seq<Tile>, x: int, y: int) -> Tile {
    if floor_corner(tiles, x, y, Direction::W, Direction::NW, Direction::N) {
        Tile::Wall(Curve::Convex, Direction::NW)
    } else if floor_corner(tiles, x, y, Direction::E, Direction::NE, Direction::N) {
        Tile::Wall(Curve::Convex, Direction::NE)
    } else if floor_corner(tiles, x, y, Direction::W, Direction::SW, Direction::S) {
        Tile::Wall(Curve::Convex, Direction::SW)
    } else if floor_corner(tiles, x, y, Direction::E, Direction::SE, Direction::S) {
        Tile::Wall(Curve::Convex, Direction::SE)
    } else {
        match first_floor_side(tiles, x, y) {
            Some(d) => Tile::Wall(Curve::Concave, d.opposite_spec()),
            None => Tile::Void,
        }
    }
}

/// `after` is `before` with every `Void` cell replaced by its wall shape, all
/// shapes judged on `before`.
pub open spec fn is_walled_of(after: Seq<Tile>, before: Seq<Tile>) -> bool {
    &&& before.len() == NUM_TILES
    &&& after.len() == NUM_TILES
    &&& forall|x: int, y: int|
        in_bounds_spec(x, y) ==> #[trigger] cell(after, x, y) == if cell(before, x, y) == Tile::Void {
            wall_shape(before, x, y)
        } else {
            cell(before, x, y)
        }
}

fn floor_toward_exec(map: &TileMap, center: Point, d: Direction) -> (r: bool)
    requires
        map.wf(),
        in_bounds_spec(center.x as int, center.y as int),
    ensures
        r == floor_toward(map.tiles@, center.x as int, center.y as int, d),
{
    let step = Point::from(d);
    map.can_enter(Point::new(center.x + step.x, center.y + step.y))
}

/// The wall shape of the cell at `center`, judged on `map`.
pub fn wall_for(map: &TileMap, center: Point) -> (r: Tile)
    requires
        map.wf(),
        in_bounds_spec(center.x as int, center.y as int),
    ensures
        r == wall_shape(map.tiles@, center.x as int, center.y as int),
{
    let w = floor_toward_exec(map, center, Direction::W);
    let e = floor_toward_exec(map, center, Direction::E);
    let n = floor_toward_exec(map, center, Direction::N);
    let s = floor_toward_exec(map, center, Direction::S);
    let nw = floor_toward_exec(map, center, Direction::NW);
    let ne = floor_toward_exec(map, center, Direction::NE);
    let sw = floor_toward_exec(map, center, Direction::SW);
    let se = floor_toward_exec(map, center, Direction::SE);
    if w && nw && n {
        return Tile::Wall(Curve::Convex, Direction::NW);
    }
    if e && ne && n {
        return Tile::Wall(Curve::Convex, Direction::NE);
    }
    if w && sw && s {
        return Tile::Wall(Curve::Convex, Direction::SW);
    }
    if e && se && s {
        return Tile::Wall(Curve::Convex, Direction::SE);
    }
    let side = if n {
        Direction::N
    } else if s {
        Direction::S
    } else if w {
        Direction::W
    } else if e {
        Direction::E
    } else if ne {
        Direction::NE
    } else if nw {
        Direction::NW
    } else if se {
        Direction::SE
    } else if sw {
        Direction::SW
    } else {
        return Tile::Void;
    };
    Tile::Wall(Curve::Concave, side.opposite())
}

/// Gives every `Void` cell its wall shape. All shapes are judged on the map
/// as it was before the pass, so the order of the cells does not matter;
/// floor and walls already present are left as they are.
pub fn build_walls(map: &mut TileMap)
    requires
        old(map).wf(),
    ensures
        final(map).wf(),
        is_walled_of(final(map).tiles@, old(map).tiles@),
        forall|x: int, y: int|
            in_bounds_spec(x, y) && cell(old(map).tiles@, x, y) != Tile::Void ==> #[trigger] cell(
                final(map).tiles@,
                x,
                y,
            ) == cell(old(map).tiles@, x, y),
{
    let mut next: Vec<Tile> = Vec::new();
    let mut y: i32 = 0;
    while y < MAP_HEIGHT
        invariant
            map.wf(),
            0 <= y <= MAP_HEIGHT,
            next@.len() == y * MAP_WIDTH,
            forall|x2: int, y2: int|
                in_bounds_spec(x2, y2) && y2 < y ==> #[trigger] next@[index_of(x2, y2)] == if cell(
                    map.tiles@,
                    x2,
                    y2,
                ) == Tile::Void {
                    wall_shape(map.tiles@, x2, y2)
                } else {
                    cell(map.tiles@, x2, y2)
                },
        decreases MAP_HEIGHT - y,
    {
        let mut x: i32 = 0;
        while x < MAP_WIDTH
            invariant
                map.wf(),
                0 <= y < MAP_HEIGHT,
                0 <= x <= MAP_WIDTH,
                next@.len() == y * MAP_WIDTH + x,
                forall|x2: int, y2: int|
                    in_bounds_spec(x2, y2) && (y2 < y || (y2 == y && x2 < x)) ==> #[trigger] next@[index_of(
                        x2,
                        y2,
                    )] == if cell(map.tiles@, x2, y2) == Tile::Void {
                        wall_shape(map.tiles@, x2, y2)
                    } else {
                        cell(map.tiles@, x2, y2)
                    },
            decreases MAP_WIDTH - x,
        {
            let p = Point::new(x, y);
            proof {
                lemma_index_of(x as int, y as int);
            }
            let tile = self_or_wall(map, p);
            let ghost before = next@;
            next.push(tile);
            proof {
                assert forall|x2: int, y2: int| in_bounds_spec(x2, y2) && (y2 < y || (y2 == y && x2 < x + 1)) implies #[trigger] next@[index_of(
                    x2,
                    y2,
                )] == if cell(map.tiles@, x2, y2) == Tile::Void {
                    wall_shape(map.tiles@, x2, y2)
                } else {
                    cell(map.tiles@, x2, y2)
                } by {
                    if x2 != x || y2 != y {
                        assert(index_of(x2, y2) < before.len());
                        assert(next@[index_of(x2, y2)] == before[index_of(x2, y2)]);
                    }
                }
            }
            x = x + 1;
        }
        y = y + 1;
    }
    proof {
        assert forall|x2: int, y2: int| in_bounds_spec(x2, y2) implies #[trigger] cell(next@, x2, y2) == if cell(
            map.tiles@,
            x2,
            y2,
        ) == Tile::Void {
            wall_shape(map.tiles@, x2, y2)
        } else {
            cell(map.tiles@, x2, y2)
        } by {
            assert(next@[index_of(x2, y2)] == cell(next@, x2, y2));
        }
    }
    map.tiles = next;
}

/// The tile at `p` after the pass: its wall shape if it is `Void`, else itself.
fn self_or_wall(map: &TileMap, p: Point) -> (r: Tile)
    requires
        map.wf(),
        in_bounds_spec(p.x as int, p.y as int),
    ensures
        r == if cell(map.tiles@, p.x as int, p.y as int) == Tile::Void {
            wall_shape(map.tiles@, p.x as int, p.y as int)
        } else {
            cell(map.tiles@, p.x as int, p.y as int)
        },
{
    match map.at(p) {
        Some(Tile::Void) => wall_for(map, p),
        Some(t) => t,
        None => Tile::Void,
    }
}

} // verus!
