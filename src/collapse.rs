//! Thin-wall collapse: short runs of `Void` along a column or a row become floor.
use vstd::prelude::*;

use crate::geometry::Point;
use crate::paths::floor_kept;
use crate::map::{is_floor, cell, in_bounds_spec, index_of, lemma_index_of, Tile, TileMap, MAP_HEIGHT, MAP_WIDTH, NUM_TILES};

verus! {

/// The direction in which runs of `Void` are measured.
#[derive(Clone, Copy, Debug, PartialEq, Eq, Structural)]
pub enum Axis {
    /// Along each column, top to bottom.
    Vertical,
    /// Along each row, left to right.
    Horizontal,
}

/// Number of lines (columns or rows) on the map.
pub open spec fn line_count(axis: Axis) -> int {
    match axis {
        Axis::Vertical => MAP_WIDTH as int,
        Axis::Horizontal => MAP_HEIGHT as int,
    }
}

/// Number of cells on one line.
pub open spec fn line_len(axis: Axis) -> int {
    match axis {
        Axis::Vertical => MAP_HEIGHT as int,
        Axis::Horizontal => MAP_WIDTH as int,
    }
}

pub open spec fn line_x(axis: Axis, a: int, k: int) -> int {
    match axis {
        Axis::Vertical => a,
        Axis::Horizontal => k,
    }
}

pub open spec fn line_y(axis: Axis, a: int, k: int) -> int {
    match axis {
        Axis::Vertical => k,
        Axis::Horizontal => a,
    }
}

/// The `k`-th cell of line `a`.
pub open spec fn line_cell(tiles: Seq<Tile>, axis: Axis, a: int, k: int) -> Tile {
    cell(tiles, line_x(axis, a, k), line_y(axis, a, k))
}

/// Length of the run of `Void` that ends at position `k` of the line. Floor
/// ends a run; a wall neither ends nor lengthens it.
pub open spec fn void_run(tiles: Seq<Tile>, axis: Axis, a: int, k: int) -> int
    decreases k + 1,
{
    if k < 0 {
        0
    } else {
        match line_cell(tiles, axis, a, k) {
            Tile::Void => void_run(tiles, axis, a, k - 1) + 1,
            Tile::Floor => 0,
            Tile::Wall(_, _) => void_run(tiles, axis, a, k - 1),
        }
    }
}

/// The run length recorded for a cell: its run if it is `Void`, else zero.
pub open spec fn run_mark(tiles: Seq<Tile>, axis: Axis, a: int, k: int) -> int {
    if line_cell(tiles, axis, a, k) == Tile::Void {
        void_run(tiles, axis, a, k)
    } else {
        0
    }
}

/// The largest mark from position `k` toward the end of the line, up to the
/// first zero mark.
pub open spec fn longest_run(tiles: Seq<Tile>, axis: Axis, a: int, k: int) -> int
    decreases line_len(axis) - k,
{
    if k >= line_len(axis) || run_mark(tiles, axis, a, k) == 0 {
        0
    } else {
        let rest = longest_run(tiles, axis, a, k + 1);
        if run_mark(tiles, axis, a, k) > rest {
            run_mark(tiles, axis, a, k)
        } else {
            rest
        }
    }
}

/// What the pass makes of the `k`-th cell of line `a`: `Void` whose longest
/// run falls short of `threshold` becomes floor, everything else stays.
pub open spec fn collapsed_tile(tiles: Seq<Tile>, axis: Axis, threshold: int, a: int, k: int) -> Tile {
    if line_cell(tiles, axis, a, k) == Tile::Void && longest_run(tiles, axis, a, k) < threshold {
        Tile::Floor
    } else {
        line_cell(tiles, axis, a, k)
    }
}

/// `after` is the result of one collapse pass over `before`.
pub open spec fn is_collapse_of(after: Seq<Tile>, before: Seq<Tile>, axis: Axis, threshold: int) -> bool {
    &&& before.len() == NUM_TILES
    &&& after.len() == NUM_TILES
    &&& forall|a: int, k: int|
        0 <= a < line_count(axis) && 0 <= k < line_len(axis) ==> #[trigger] line_cell(after, axis, a, k)
            == collapsed_tile(before, axis, threshold, a, k)
}

pub open spec fn has_no_walls(tiles: Seq<Tile>) -> bool {
    forall|i: int| 0 <= i < tiles.len() ==> !(#[trigger] tiles[i] is Wall)
}

proof fn lemma_line_in_bounds(axis: Axis, a: int, k: int)
    requires
        0 <= a < line_count(axis),
        0 <= k < line_len(axis),
    ensures
        in_bounds_spec(line_x(axis, a, k), line_y(axis, a, k)),
{
}

proof fn lemma_void_run_bounds(tiles: Seq<Tile>, axis: Axis, a: int, k: int)
    ensures
        k < 0 ==> void_run(tiles, axis, a, k) == 0,
        k >= 0 ==> 0 <= void_run(tiles, axis, a, k) <= k + 1,
        k >= 0 && line_cell(tiles, axis, a, k) == Tile::Void ==> void_run(tiles, axis, a, k) >= 1,
    decreases k + 1,
{
    if k >= 0 {
        lemma_void_run_bounds(tiles, axis, a, k - 1);
    }
}

fn line_point(axis: Axis, a: i32, k: i32) -> (r: Point)
    ensures
        r.x == line_x(axis, a as int, k as int),
        r.y == line_y(axis, a as int, k as int),
{
    match axis {
        Axis::Vertical => Point { x: a, y: k },
        Axis::Horizontal => Point { x: k, y: a },
    }
}

/// Runs one collapse pass along `axis`: every `Void` cell whose run of
/// `Void` (as `longest_run` measures it) is shorter than `threshold` becomes
/// floor. Runs are measured on the map as it was before the pass.
pub fn collapse_thin_walls(map: &mut TileMap, axis: Axis, threshold: i32)
    requires
        old(map).wf(),
    ensures
        final(map).wf(),
        is_collapse_of(final(map).tiles@, old(map).tiles@, axis, threshold as int),
{
    let ghost before = map.tiles@;
    let lines: i32 = match axis {
        Axis::Vertical => MAP_WIDTH,
        Axis::Horizontal => MAP_HEIGHT,
    };
    let len: i32 = match axis {
        Axis::Vertical => MAP_HEIGHT,
        Axis::Horizontal => MAP_WIDTH,
    };
    let mut runners: Vec<i32> = vec![0; NUM_TILES as usize];
    let mut a: i32 = 0;
    while a < lines
        invariant
            map.wf(),
            map.tiles@ == before,
            lines == line_count(axis),
            len == line_len(axis),
            0 <= a <= lines,
            runners@.len() == NUM_TILES,
            forall|a2: int, k2: int|
                0 <= a2 < lines && 0 <= k2 < len ==> #[trigger] runners@[index_of(
                    line_x(axis, a2, k2),
                    line_y(axis, a2, k2),
                )] == if a2 < a {
                    run_mark(before, axis, a2, k2)
                } else {
                    0
                },
        decreases lines - a,
    {
        let mut runner: i32 = 0;
        let mut k: i32 = 0;
        while k < len
            invariant
                map.wf(),
                map.tiles@ == before,
                lines == line_count(axis),
                len == line_len(axis),
                0 <= a < lines,
                0 <= k <= len,
                runner == void_run(before, axis, a as int, k - 1),
                runners@.len() == NUM_TILES,
                forall|a2: int, k2: int|
                    0 <= a2 < lines && 0 <= k2 < len ==> #[trigger] runners@[index_of(
                        line_x(axis, a2, k2),
                        line_y(axis, a2, k2),
                    )] == if a2 < a || (a2 == a && k2 < k) {
                        run_mark(before, axis, a2, k2)
                    } else {
                        0
                    },
            decreases len - k,
        {
            let p = line_point(axis, a, k);
            proof {
                lemma_line_in_bounds(axis, a as int, k as int);
                lemma_index_of(p.x as int, p.y as int);
                lemma_void_run_bounds(before, axis, a as int, k as int);
                lemma_void_run_bounds(before, axis, a as int, k - 1);
            }
            let idx = (p.x + p.y * MAP_WIDTH) as usize;
            let ghost old_runners = runners@;
            match map.at(p) {
                Some(Tile::Void) => {
                    runner = runner + 1;
                    runners.set(idx, runner);
                },
                Some(Tile::Floor) => {
                    runner = 0;
                    runners.set(idx, runner);
                },
                _ => {},
            }
            proof {
                assert forall|a2: int, k2: int| 0 <= a2 < lines && 0 <= k2 < len implies #[trigger] runners@[index_of(
                    line_x(axis, a2, k2),
                    line_y(axis, a2, k2),
                )] == if a2 < a || (a2 == a && k2 < k + 1) {
                    run_mark(before, axis, a2, k2)
                } else {
                    0
                } by {
                    lemma_line_in_bounds(axis, a2, k2);
                    lemma_index_of(line_x(axis, a2, k2), line_y(axis, a2, k2));
                    assert(old_runners[index_of(line_x(axis, a2, k2), line_y(axis, a2, k2))]
                        == if a2 < a || (a2 == a && k2 < k) {
                        run_mark(before, axis, a2, k2)
                    } else {
                        0
                    });
                }
            }
            k = k + 1;
        }
        a = a + 1;
    }
    a = 0;
    while a < lines
        invariant
            map.wf(),
            before.len() == NUM_TILES,
            lines == line_count(axis),
            len == line_len(axis),
            0 <= a <= lines,
            runners@.len() == NUM_TILES,
            forall|a2: int, k2: int|
                0 <= a2 < lines && 0 <= k2 < len ==> #[trigger] runners@[index_of(
                    line_x(axis, a2, k2),
                    line_y(axis, a2, k2),
                )] == run_mark(before, axis, a2, k2),
            forall|a2: int, k2: int|
                0 <= a2 < lines && 0 <= k2 < len ==> #[trigger] line_cell(map.tiles@, axis, a2, k2)
                    == if a2 < a {
                    collapsed_tile(before, axis, threshold as int, a2, k2)
                } else {
                    line_cell(before, axis, a2, k2)
                },
        decreases lines - a,
    {
        let mut longest: i32 = 0;
        let mut k: i32 = len;
        while k > 0
            invariant
                map.wf(),
                before.len() == NUM_TILES,
                lines == line_count(axis),
                len == line_len(axis),
                0 <= a < lines,
                0 <= k <= len,
                longest == longest_run(before, axis, a as int, k as int),
                runners@.len() == NUM_TILES,
                forall|a2: int, k2: int|
                    0 <= a2 < lines && 0 <= k2 < len ==> #[trigger] runners@[index_of(
                        line_x(axis, a2, k2),
                        line_y(axis, a2, k2),
                    )] == run_mark(before, axis, a2, k2),
                forall|a2: int, k2: int|
                    0 <= a2 < lines && 0 <= k2 < len ==> #[trigger] line_cell(map.tiles@, axis, a2, k2)
                        == if a2 < a || (a2 == a && k2 >= k) {
                        collapsed_tile(before, axis, threshold as int, a2, k2)
                    } else {
                        line_cell(before, axis, a2, k2)
                    },
            decreases k,
        {
            let pos = k - 1;
            let p = line_point(axis, a, pos);
            proof {
                lemma_line_in_bounds(axis, a as int, pos as int);
                lemma_index_of(p.x as int, p.y as int);
                lemma_void_run_bounds(before, axis, a as int, pos as int);
            }
            let current = runners[(p.x + p.y * MAP_WIDTH) as usize];
            let ghost mid = map.tiles@;
            if current == 0 {
                longest = 0;
            } else {
                if current > longest {
                    longest = current;
                }
                if longest < threshold {
                    map.set(p, Tile::Floor);
                }
            }
            proof {
                assert(longest == longest_run(before, axis, a as int, pos as int));
                assert forall|a2: int, k2: int| 0 <= a2 < lines && 0 <= k2 < len implies #[trigger] line_cell(
                    map.tiles@,
                    axis,
                    a2,
                    k2,
                ) == if a2 < a || (a2 == a && k2 >= pos) {
                    collapsed_tile(before, axis, threshold as int, a2, k2)
                } else {
                    line_cell(before, axis, a2, k2)
                } by {
                    lemma_line_in_bounds(axis, a2, k2);
                    lemma_index_of(line_x(axis, a2, k2), line_y(axis, a2, k2));
                    assert(line_cell(mid, axis, a2, k2) == if a2 < a || (a2 == a && k2 >= k) {
                        collapsed_tile(before, axis, threshold as int, a2, k2)
                    } else {
                        line_cell(before, axis, a2, k2)
                    });
                }
            }
            k = pos;
        }
        a = a + 1;
    }
}

/// Inside a run of `Void` on a wall-free line, `longest_run` does not change
/// from one cell to the next.
proof fn lemma_longest_run_constant(tiles: Seq<Tile>, axis: Axis, a: int, k: int)
    requires
        0 <= k,
        k + 1 < line_len(axis),
        line_cell(tiles, axis, a, k) == Tile::Void,
        line_cell(tiles, axis, a, k + 1) == Tile::Void,
    ensures
        longest_run(tiles, axis, a, k) == longest_run(tiles, axis, a, k + 1),
{
    lemma_void_run_bounds(tiles, axis, a, k);
    lemma_void_run_bounds(tiles, axis, a, k + 1);
    assert(run_mark(tiles, axis, a, k + 1) == run_mark(tiles, axis, a, k) + 1);
    if k + 2 < line_len(axis) {
        assert(longest_run(tiles, axis, a, k + 1) >= run_mark(tiles, axis, a, k + 1));
    }
}

/// At the last `Void` of a run, `longest_run` is the run's length.
proof fn lemma_longest_run_at_end(tiles: Seq<Tile>, axis: Axis, a: int, k: int)
    requires
        0 <= k < line_len(axis),
        line_cell(tiles, axis, a, k) == Tile::Void,
        k + 1 == line_len(axis) || line_cell(tiles, axis, a, k + 1) != Tile::Void,
    ensures
        longest_run(tiles, axis, a, k) == void_run(tiles, axis, a, k),
{
    lemma_void_run_bounds(tiles, axis, a, k);
    assert(longest_run(tiles, axis, a, k + 1) == 0);
}

proof fn lemma_once_keeps_void_run(
    before: Seq<Tile>,
    once: Seq<Tile>,
    axis: Axis,
    threshold: int,
    a: int,
    k: int,
)
    requires
        has_no_walls(before),
        is_collapse_of(once, before, axis, threshold),
        0 <= a < line_count(axis),
        0 <= k < line_len(axis),
        line_cell(once, axis, a, k) == Tile::Void,
    ensures
        void_run(once, axis, a, k) == void_run(before, axis, a, k),
    decreases k,
{
    assert(line_cell(once, axis, a, k) == collapsed_tile(before, axis, threshold, a, k));
    assert(line_cell(before, axis, a, k) == Tile::Void);
    assert(void_run(once, axis, a, k) == void_run(once, axis, a, k - 1) + 1);
    assert(void_run(before, axis, a, k) == void_run(before, axis, a, k - 1) + 1);
    if k > 0 {
        lemma_line_in_bounds(axis, a, k - 1);
        lemma_index_of(line_x(axis, a, k - 1), line_y(axis, a, k - 1));
        let prev = line_cell(before, axis, a, k - 1);
        assert(before[index_of(line_x(axis, a, k - 1), line_y(axis, a, k - 1))] == prev);
        assert(line_cell(once, axis, a, k - 1) == collapsed_tile(before, axis, threshold, a, k - 1));
        if prev == Tile::Void {
            lemma_longest_run_constant(before, axis, a, k - 1);
            lemma_once_keeps_void_run(before, once, axis, threshold, a, k - 1);
        } else {
            assert(prev == Tile::Floor);
            assert(void_run(once, axis, a, k - 1) == 0);
            assert(void_run(before, axis, a, k - 1) == 0);
        }
    }
}

proof fn lemma_once_keeps_longest_run(
    before: Seq<Tile>,
    once: Seq<Tile>,
    axis: Axis,
    threshold: int,
    a: int,
    k: int,
)
    requires
        has_no_walls(before),
        is_collapse_of(once, before, axis, threshold),
        0 <= a < line_count(axis),
        0 <= k < line_len(axis),
        line_cell(once, axis, a, k) == Tile::Void,
    ensures
        longest_run(once, axis, a, k) == longest_run(before, axis, a, k),
    decreases line_len(axis) - k,
{
    assert(line_cell(once, axis, a, k) == collapsed_tile(before, axis, threshold, a, k));
    lemma_once_keeps_void_run(before, once, axis, threshold, a, k);
    lemma_void_run_bounds(before, axis, a, k);
    assert(run_mark(once, axis, a, k) == run_mark(before, axis, a, k));
    if k + 1 < line_len(axis) {
        lemma_line_in_bounds(axis, a, k + 1);
        lemma_index_of(line_x(axis, a, k + 1), line_y(axis, a, k + 1));
        let next = line_cell(before, axis, a, k + 1);
        assert(before[index_of(line_x(axis, a, k + 1), line_y(axis, a, k + 1))] == next);
        assert(line_cell(once, axis, a, k + 1) == collapsed_tile(before, axis, threshold, a, k + 1));
        if line_cell(once, axis, a, k + 1) == Tile::Void {
            lemma_once_keeps_longest_run(before, once, axis, threshold, a, k + 1);
        } else if next == Tile::Void {
            lemma_longest_run_constant(before, axis, a, k);
        } else {
            assert(longest_run(once, axis, a, k + 1) == 0);
            lemma_longest_run_at_end(before, axis, a, k);
        }
    } else {
        assert(longest_run(once, axis, a, k + 1) == 0);
        lemma_longest_run_at_end(before, axis, a, k);
    }
}

/// Every index of the tile vector is the position of an in-bounds cell.
pub proof fn lemma_index_covers(i: int)
    requires
        0 <= i < NUM_TILES,
    ensures
        in_bounds_spec(i % MAP_WIDTH as int, i / MAP_WIDTH as int),
        index_of(i % MAP_WIDTH as int, i / MAP_WIDTH as int) == i,
{
    vstd::arithmetic::div_mod::lemma_fundamental_div_mod(i, MAP_WIDTH as int);
}

/// On a map without walls a collapse pass is idempotent: running it on its
/// own output changes nothing.
pub proof fn lemma_collapse_idempotent(
    before: Seq<Tile>,
    once: Seq<Tile>,
    twice: Seq<Tile>,
    axis: Axis,
    threshold: int,
)
    requires
        has_no_walls(before),
        is_collapse_of(once, before, axis, threshold),
        is_collapse_of(twice, once, axis, threshold),
    ensures
        twice == once,
{
    assert forall|a: int, k: int| 0 <= a < line_count(axis) && 0 <= k < line_len(axis) implies #[trigger] line_cell(
        twice,
        axis,
        a,
        k,
    ) == line_cell(once, axis, a, k) by {
        assert(line_cell(once, axis, a, k) == collapsed_tile(before, axis, threshold, a, k));
        if line_cell(once, axis, a, k) == Tile::Void {
            lemma_once_keeps_longest_run(before, once, axis, threshold, a, k);
        }
    }
    assert forall|i: int| 0 <= i < NUM_TILES implies twice[i] == once[i] by {
        lemma_index_covers(i);
        let x = i % MAP_WIDTH as int;
        let y = i / MAP_WIDTH as int;
        match axis {
            Axis::Vertical => assert(line_cell(twice, axis, x, y) == line_cell(once, axis, x, y)),
            Axis::Horizontal => assert(line_cell(twice, axis, y, x) == line_cell(once, axis, y, x)),
        }
    }
    assert(twice =~= once);
}

/// A collapse pass never takes floor away.
pub proof fn lemma_collapse_keeps_floor(before: Seq<Tile>, after: Seq<Tile>, axis: Axis, threshold: int)
    requires
        is_collapse_of(after, before, axis, threshold),
    ensures
        floor_kept(before, after),
{
    assert forall|x: int, y: int| #[trigger] is_floor(before, x, y) implies is_floor(after, x, y) by {
        match axis {
            Axis::Vertical => assert(line_cell(after, axis, x, y) == collapsed_tile(before, axis, threshold, x, y)),
            Axis::Horizontal => assert(line_cell(after, axis, y, x) == collapsed_tile(before, axis, threshold, y, x)),
        }
    }
}

} // verus!
