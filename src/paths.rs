//! Walking over floor: 4-connected paths and reachability between cells.
use vstd::prelude::*;

use crate::geometry::Point;
use crate::map::{is_floor, Tile};

verus! {

/// `a` and `b` are orthogonal neighbours.
pub open spec fn adjacent(a: Point, b: Point) -> bool {
    ||| a.x == b.x && (a.y - b.y == 1 || b.y - a.y == 1)
    ||| a.y == b.y && (a.x - b.x == 1 || b.x - a.x == 1)
}

pub open spec fn on_floor(tiles: Seq<Tile>, p: Point) -> bool {
    is_floor(tiles, p.x as int, p.y as int)
}

/// A non-empty walk over floor cells, each step to an orthogonal neighbour.
pub open spec fn is_floor_path(tiles: Seq<Tile>, path: Seq<Point>) -> bool {
    &&& path.len() > 0
    &&& forall|i: int| 0 <= i < path.len() ==> on_floor(tiles, #[trigger] path[i])
    &&& forall|i: int| 0 <= i < path.len() - 1 ==> #[trigger] adjacent(path[i], path[i + 1])
}

/// A flood fill over floor started at `a` reaches `b`.
pub open spec fn reachable(tiles: Seq<Tile>, a: Point, b: Point) -> bool {
    exists|path: Seq<Point>| #[trigger] is_floor_path(tiles, path) && path[0] == a && path.last() == b
}

/// Every floor cell of `before` is still floor in `after`.
pub open spec fn floor_kept(before: Seq<Tile>, after: Seq<Tile>) -> bool {
    forall|x: int, y: int| #[trigger] is_floor(before, x, y) ==> is_floor(after, x, y)
}

pub proof fn lemma_reachable_refl(tiles: Seq<Tile>, a: Point)
    requires
        on_floor(tiles, a),
    ensures
        reachable(tiles, a, a),
{
    let path = seq![a];
    assert(is_floor_path(tiles, path));
}

pub proof fn lemma_reachable_trans(tiles: Seq<Tile>, a: Point, b: Point, c: Point)
    requires
        reachable(tiles, a, b),
        reachable(tiles, b, c),
    ensures
        reachable(tiles, a, c),
{
    let p = choose|p: Seq<Point>| #[trigger] is_floor_path(tiles, p) && p[0] == a && p.last() == b;
    let q = choose|q: Seq<Point>| #[trigger] is_floor_path(tiles, q) && q[0] == b && q.last() == c;
    let r = p + q.subrange(1, q.len() as int);
    assert forall|i: int| 0 <= i < r.len() implies on_floor(tiles, #[trigger] r[i]) by {
        if i >= p.len() {
            assert(r[i] == q[i - p.len() + 1]);
        }
    }
    assert forall|i: int| 0 <= i < r.len() - 1 implies #[trigger] adjacent(r[i], r[i + 1]) by {
        if i + 1 < p.len() {
            assert(adjacent(p[i], p[i + 1]));
        } else if i + 1 == p.len() {
            assert(r[i] == q[0]);
            assert(r[i + 1] == q[1]);
            assert(adjacent(q[0], q[1]));
        } else {
            assert(r[i] == q[i - p.len() + 1]);
            assert(r[i + 1] == q[i - p.len() + 2]);
            assert(adjacent(q[i - p.len() + 1], q[i - p.len() + 2]));
        }
    }
    if q.len() == 1 {
        assert(r =~= p);
    } else {
        assert(r.last() == q.last());
    }
    assert(is_floor_path(tiles, r));
}

pub proof fn lemma_reachable_sym(tiles: Seq<Tile>, a: Point, b: Point)
    requires
        reachable(tiles, a, b),
    ensures
        reachable(tiles, b, a),
{
    let p = choose|p: Seq<Point>| #[trigger] is_floor_path(tiles, p) && p[0] == a && p.last() == b;
    let n = p.len() as int;
    let r = Seq::new(n as nat, |i: int| p[n - 1 - i]);
    assert forall|i: int| 0 <= i < r.len() implies on_floor(tiles, #[trigger] r[i]) by {
        assert(on_floor(tiles, p[n - 1 - i]));
    }
    assert forall|i: int| 0 <= i < r.len() - 1 implies #[trigger] adjacent(r[i], r[i + 1]) by {
        assert(adjacent(p[n - 2 - i], p[n - 2 - i + 1]));
    }
    assert(is_floor_path(tiles, r));
}

pub proof fn lemma_reachable_kept(before: Seq<Tile>, after: Seq<Tile>, a: Point, b: Point)
    requires
        reachable(before, a, b),
        floor_kept(before, after),
    ensures
        reachable(after, a, b),
{
    let p = choose|p: Seq<Point>| #[trigger] is_floor_path(before, p) && p[0] == a && p.last() == b;
    assert forall|i: int| 0 <= i < p.len() implies on_floor(after, #[trigger] p[i]) by {
        assert(on_floor(before, p[i]));
    }
    assert(is_floor_path(after, p));
}

/// A straight row of floor cells joins its two ends.
pub proof fn lemma_row_reachable(tiles: Seq<Tile>, x1: i32, x2: i32, y: i32)
    requires
        forall|x: int|
            (x1 <= x <= x2 || x2 <= x <= x1) ==> #[trigger] is_floor(tiles, x, y as int),
    ensures
        reachable(tiles, Point { x: x1, y }, Point { x: x2, y }),
{
    let n = if x1 <= x2 { x2 - x1 + 1 } else { x1 - x2 + 1 };
    let p = Seq::new(n as nat, |k: int| Point { x: (if x1 <= x2 { x1 + k } else { x1 - k }) as i32, y });
    assert forall|i: int| 0 <= i < p.len() implies on_floor(tiles, #[trigger] p[i]) by {
        let x = if x1 <= x2 { x1 + i } else { x1 - i };
        assert(is_floor(tiles, x, y as int));
    }
    assert forall|i: int| 0 <= i < p.len() - 1 implies #[trigger] adjacent(p[i], p[i + 1]) by {}
    assert(p.last() == Point { x: x2, y });
    assert(is_floor_path(tiles, p));
}

/// A straight column of floor cells joins its two ends.
pub proof fn lemma_column_reachable(tiles: Seq<Tile>, x: i32, y1: i32, y2: i32)
    requires
        forall|y: int|
            (y1 <= y <= y2 || y2 <= y <= y1) ==> #[trigger] is_floor(tiles, x as int, y),
    ensures
        reachable(tiles, Point { x, y: y1 }, Point { x, y: y2 }),
{
    let n = if y1 <= y2 { y2 - y1 + 1 } else { y1 - y2 + 1 };
    let p = Seq::new(n as nat, |k: int| Point { x, y: (if y1 <= y2 { y1 + k } else { y1 - k }) as i32 });
    assert forall|i: int| 0 <= i < p.len() implies on_floor(tiles, #[trigger] p[i]) by {
        let y = if y1 <= y2 { y1 + i } else { y1 - i };
        assert(is_floor(tiles, x as int, y));
    }
    assert forall|i: int| 0 <= i < p.len() - 1 implies #[trigger] adjacent(p[i], p[i + 1]) by {}
    assert(p.last() == Point { x, y: y2 });
    assert(is_floor_path(tiles, p));
}

} // verus!
