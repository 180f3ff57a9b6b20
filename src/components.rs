//! Entity components kept by the game: positions and the left-walking system.
use vstd::prelude::*;

use crate::geometry::Point;

verus! {

/// Where an entity stands.
#[derive(Clone, Copy, Debug, PartialEq, Eq, Structural)]
pub struct Position(pub Point);

impl Position {
    pub fn new(x: i32, y: i32) -> (r: Position)
        ensures
            r == Position(Point { x, y }),
    {
        Position(Point::new(x, y))
    }
}

/// Moves every entity it is run on one cell to the left each tick.
pub struct LeftWalker {}

impl LeftWalker {
    pub fn run(&mut self, positions: &mut Vec<Position>)
        requires
            forall|i: int| 0 <= i < old(positions)@.len() ==> (#[trigger] old(positions)@[i]).0.x > i32::MIN,
        ensures
            final(positions)@.len() == old(positions)@.len(),
            forall|i: int|
                0 <= i < old(positions)@.len() ==> #[trigger] final(positions)@[i] == Position(
                    Point { x: (old(positions)@[i].0.x - 1) as i32, y: old(positions)@[i].0.y },
                ),
    {
        let n = positions.len();
        let mut i: usize = 0;
        while i < n
            invariant
                n == positions@.len(),
                n == old(positions)@.len(),
                i <= n,
                forall|j: int| i <= j < n ==> #[trigger] positions@[j] == old(positions)@[j],
                forall|j: int| 0 <= j < n ==> (#[trigger] old(positions)@[j]).0.x > i32::MIN,
                forall|j: int|
                    0 <= j < i ==> #[trigger] positions@[j] == Position(
                        Point { x: (old(positions)@[j].0.x - 1) as i32, y: old(positions)@[j].0.y },
                    ),
            decreases n - i,
        {
            let p = positions[i];
            positions.set(i, Position(Point { x: p.0.x - 1, y: p.0.y }));
            i = i + 1;
        }
    }
}

} // verus!
