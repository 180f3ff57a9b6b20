//! The tile grid: a fixed-size map of tiles addressed by grid coordinates.
use vstd::prelude::*;

use crate::geometry::Point;

verus! {

pub const MAP_WIDTH: i32 = 80;

pub const MAP_HEIGHT: i32 = 50;

pub const NUM_TILES: i32 = MAP_WIDTH * MAP_HEIGHT;

/// The eight compass directions.
#[derive(Clone, Copy, Debug, PartialEq, Eq, Structural)]
pub enum Direction {
    N,
    S,
    E,
    W,
    NW,
    NE,
    SW,
    SE,
}

/// How a wall bends around the floor next to it.
#[derive(Clone, Copy, Debug, PartialEq, Eq, Structural)]
pub enum Curve {
    Concave,
    Convex,
}

impl Direction {
    /// The unit step in this direction; north is toward smaller `y`.
    pub open spec fn offset(self) -> Point {
        match self {
            Direction::NW => Point { x: -1i32, y: -1i32 },
            Direction::N => Point { x: 0, y: -1i32 },
            Direction::NE => Point { x: 1, y: -1i32 },
            Direction::W => Point { x: -1i32, y: 0 },
            Direction::E => Point { x: 1, y: 0 },
            Direction::SW => Point { x: -1i32, y: 1 },
            Direction::S => Point { x: 0, y: 1 },
            Direction::SE => Point { x: 1, y: 1 },
        }
    }

    pub open spec fn opposite_spec(self) -> Direction {
        match self {
            Direction::NW => Direction::SE,
            Direction::N => Direction::S,
            Direction::NE => Direction::SW,
            Direction::W => Direction::E,
            Direction::E => Direction::W,
            Direction::SW => Direction::NE,
            Direction::S => Direction::N,
            Direction::SE => Direction::NW,
        }
    }

    pub fn opposite(self) -> (r: Direction)
        ensures
            r == self.opposite_spec(),
            r.offset().x == -self.offset().x,
            r.offset().y == -self.offset().y,
    {
        match self {
            Direction::NW => Direction::SE,
            Direction::N => Direction::S,
            Direction::NE => Direction::SW,
            Direction::W => Direction::E,
            Direction::E => Direction::W,
            Direction::SW => Direction::NE,
            Direction::S => Direction::N,
            Direction::SE => Direction::NW,
        }
    }
}

impl From<Direction> for Point {
    fn from(d: Direction) -> (r: Point) {
        match d {
            Direction::NW => Point::new(-1, -1),
            Direction::N => Point::new(0, -1),
            Direction::NE => Point::new(1, -1),
            Direction::W => Point::new(-1, 0),
            Direction::E => Point::new(1, 0),
            Direction::SW => Point::new(-1, 1),
            Direction::S => Point::new(0, 1),
            Direction::SE => Point::new(1, 1),
        }
    }
}

impl vstd::std_specs::convert::FromSpecImpl<Direction> for Point {
    open spec fn obeys_from_spec() -> bool {
        true
    }

    open spec fn from_spec(d: Direction) -> Point {
        d.offset()
    }
}

/// One cell of the map.
#[derive(Clone, Copy, Debug, PartialEq, Eq, Structural)]
pub enum Tile {
    Wall(Curve, Direction),
    Floor,
    Void,
}

pub open spec fn in_bounds_spec(x: int, y: int) -> bool {
    0 <= x < MAP_WIDTH && 0 <= y < MAP_HEIGHT
}

/// Row-major position of an in-bounds cell in the tile vector.
pub open spec fn index_of(x: int, y: int) -> int {
    x + y * MAP_WIDTH
}

/// The tile stored for `(x, y)`; meaningful for in-bounds coordinates.
pub open spec fn cell(tiles: Seq<Tile>, x: int, y: int) -> Tile {
    tiles[index_of(x, y)]
}

/// Distinct in-bounds coordinates occupy distinct positions of the tile vector.
pub proof fn lemma_index_of(x: int, y: int)
    requires
        in_bounds_spec(x, y),
    ensures
        0 <= index_of(x, y) < NUM_TILES,
        forall|x2: int, y2: int|
            in_bounds_spec(x2, y2) && index_of(x2, y2) == index_of(x, y) ==> x2 == x && y2 == y,
{
    assert forall|x2: int, y2: int|
        in_bounds_spec(x2, y2) && index_of(x2, y2) == index_of(x, y) implies x2 == x && y2 == y by {
        if y2 < y {
            assert(index_of(x2, y2) < index_of(x, y));
        } else if y2 > y {
            assert(index_of(x2, y2) > index_of(x, y));
        }
    }
}

/// The grid coordinate stored at position `i` of the tile vector.
pub open spec fn point_of_index(i: int) -> Point {
    Point { x: (i % MAP_WIDTH as int) as i32, y: (i / MAP_WIDTH as int) as i32 }
}

/// The tile at `(x, y)` of a tile vector, `None` off the grid.
pub open spec fn lookup(tiles: Seq<Tile>, x: int, y: int) -> Option<Tile> {
    if in_bounds_spec(x, y) {
        Some(cell(tiles, x, y))
    } else {
        None
    }
}

pub open spec fn is_floor(tiles: Seq<Tile>, x: int, y: int) -> bool {
    lookup(tiles, x, y) == Some(Tile::Floor)
}

/// A fixed-size grid of tiles, stored row by row.
pub struct TileMap {
    pub tiles: Vec<Tile>,
}

impl TileMap {
    pub open spec fn wf(&self) -> bool {
        self.tiles@.len() == NUM_TILES
    }

    pub open spec fn tile_at(&self, p: Point) -> Option<Tile> {
        lookup(self.tiles@, p.x as int, p.y as int)
    }

    /// A map with every cell `Void`.
    pub fn new() -> (r: TileMap)
        ensures
            r.wf(),
            forall|i: int| 0 <= i < r.tiles@.len() ==> r.tiles@[i] == Tile::Void,
    {
        TileMap { tiles: vec![Tile::Void; NUM_TILES as usize] }
    }

    pub fn in_bounds(point: Point) -> (r: bool)
        ensures
            r == in_bounds_spec(point.x as int, point.y as int),
    {
        point.x >= 0 && point.y >= 0 && point.x < MAP_WIDTH && point.y < MAP_HEIGHT
    }

    /// The tile at `point`, or `None` when it lies off the map.
    pub fn at(&self, point: Point) -> (r: Option<Tile>)
        requires
            self.wf(),
        ensures
            r == self.tile_at(point),
            !in_bounds_spec(point.x as int, point.y as int) ==> r.is_none(),
    {
        if !Self::in_bounds(point) {
            return None;
        }
        Some(self.tiles[(point.x + point.y * MAP_WIDTH) as usize])
    }

    /// Overwrites the tile at `point`; does nothing off the map.
    pub fn set(&mut self, point: Point, new_tile: Tile)
        requires
            old(self).wf(),
        ensures
            final(self).wf(),
            in_bounds_spec(point.x as int, point.y as int) ==> final(self).tiles@ == old(
                self,
            ).tiles@.update(index_of(point.x as int, point.y as int), new_tile),
            !in_bounds_spec(point.x as int, point.y as int) ==> final(self).tiles@ == old(
                self,
            ).tiles@,
    {
        if let Some(tile) = self.borrow_mut_at(point) {
            *tile = new_tile;
        }
    }

    /// A mutable reference to the tile at `point`, or `None` when it lies off the map.
    pub fn borrow_mut_at(&mut self, point: Point) -> (r: Option<&mut Tile>)
        requires
            old(self).wf(),
        ensures
            r.is_some() == in_bounds_spec(point.x as int, point.y as int),
            match r {
                Some(t) => {
                    &&& *t == old(self).tiles@[index_of(point.x as int, point.y as int)]
                    &&& final(self).tiles@ == old(self).tiles@.update(
                        index_of(point.x as int, point.y as int),
                        *final(t),
                    )
                },
                None => final(self).tiles@ == old(self).tiles@,
            },
    {
        if !Self::in_bounds(point) {
            return None;
        }
        Some(&mut self.tiles[(point.x + point.y * MAP_WIDTH) as usize])
    }

    /// Whether a walker may stand on `point`: only floor cells on the map qualify.
    pub fn can_enter(&self, point: Point) -> (r: bool)
        requires
            self.wf(),
        ensures
            r == (self.tile_at(point) == Some(Tile::Floor)),
            !in_bounds_spec(point.x as int, point.y as int) ==> !r,
    {
        match self.at(point) {
            Some(Tile::Floor) => true,
            _ => false,
        }
    }

    /// Every cell with its coordinate, in storage order (`x` varies fastest).
    pub fn coordinate_iter(&self) -> (r: Vec<(Point, Tile)>)
        requires
            self.wf(),
        ensures
            r@.len() == NUM_TILES,
            forall|i: int|
                0 <= i < NUM_TILES ==> #[trigger] r@[i] == (point_of_index(i), self.tiles@[i]),
    {
        let mut out: Vec<(Point, Tile)> = Vec::new();
        let mut i: usize = 0;
        while i < self.tiles.len()
            invariant
                self.wf(),
                i <= NUM_TILES,
                out@.len() == i,
                forall|k: int| 0 <= k < i ==> #[trigger] out@[k] == (point_of_index(k), self.tiles@[k]),
            decreases NUM_TILES - i,
        {
            let p = Point::new((i as i32) % MAP_WIDTH, (i as i32) / MAP_WIDTH);
            out.push((p, self.tiles[i]));
            i = i + 1;
        }
        out
    }
}

} // verus!
