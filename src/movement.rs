//! Player movement: one orthogonal step, taken only onto floor.
use vstd::prelude::*;

use crate::geometry::Point;
use crate::map::{is_floor, TileMap, MAP_HEIGHT, MAP_WIDTH};

verus! {

/// A requested step.
#[derive(Clone, Copy, Debug, PartialEq, Eq, Structural)]
pub enum Intent {
    MoveUp,
    MoveDown,
    MoveLeft,
    MoveRight,
}

impl Intent {
    pub open spec fn dx(self) -> int {
        match self {
            Intent::MoveLeft => -1,
            Intent::MoveRight => 1,
            _ => 0,
        }
    }

    pub open spec fn dy(self) -> int {
        match self {
            Intent::MoveUp => -1,
            Intent::MoveDown => 1,
            _ => 0,
        }
    }

    /// The step as a point offset; up is toward smaller `y`.
    pub fn delta(self) -> (r: Point)
        ensures
            r.x == self.dx(),
            r.y == self.dy(),
    {
        match self {
            Intent::MoveUp => Point::new(0, -1),
            Intent::MoveDown => Point::new(0, 1),
            Intent::MoveLeft => Point::new(-1, 0),
            Intent::MoveRight => Point::new(1, 0),
        }
    }
}

/// Where a walker at `position` ends up after `intent`: the neighbouring
/// cell if it is floor on the map, else where it was.
pub fn try_move(map: &TileMap, position: Point, intent: Intent) -> (r: Point)
    requires
        map.wf(),
    ensures
        is_floor(map.tiles@, position.x + intent.dx(), position.y + intent.dy()) ==> r.x
            == position.x + intent.dx() && r.y == position.y + intent.dy(),
        !is_floor(map.tiles@, position.x + intent.dx(), position.y + intent.dy()) ==> r == position,
{
    let delta = intent.delta();
    let x = position.x as i64 + delta.x as i64;
    let y = position.y as i64 + delta.y as i64;
    if x < 0 || y < 0 || x >= MAP_WIDTH as i64 || y >= MAP_HEIGHT as i64 {
        return position;
    }
    let target = Point::new(x as i32, y as i32);
    if map.can_enter(target) {
        target
    } else {
        position
    }
}

} // verus!
