//! The dungeon builder: rooms, tunnels, thin-wall collapse and wall shapes.
use vstd::prelude::*;

use bracket_lib::prelude::RandomNumberGenerator;

use crate::collapse::{collapse_thin_walls, is_collapse_of, lemma_collapse_keeps_floor, Axis};
use crate::geometry::{Point, Rect};
use crate::map::{cell, in_bounds_spec, index_of, lemma_index_of, is_floor, Tile, TileMap, MAP_HEIGHT, MAP_WIDTH, NUM_TILES};
use crate::paths::{
    floor_kept, lemma_column_reachable, lemma_reachable_kept, lemma_reachable_refl,
    lemma_reachable_sym, lemma_reachable_trans, lemma_row_reachable, on_floor, reachable,
};
use crate::random::random_range;
use crate::walls::{build_walls, is_walled_of};

verus! {

pub const DEFAULT_MAX_ROOMS: usize = 20;

/// Smallest room side; sides are drawn from `MIN_ROOM_SIZE..MAX_ROOM_SIZE`.
pub const MIN_ROOM_SIZE: i32 = 2;

pub const MAX_ROOM_SIZE: i32 = 10;

/// Runs of `Void` down a column shorter than this become floor.
pub const VERTICAL_MIN_RUN: i32 = 4;

/// Runs of `Void` along a row shorter than this become floor.
pub const HORIZONTAL_MIN_RUN: i32 = 2;

/// Candidates drawn before room placement gives up. Any envelope that admits
/// rooms at all fills the dungeon long before this.
pub const MAX_ROOM_ATTEMPTS: u64 = 1_000_000;

/// All four edges of the room lie strictly inside the map.
pub open spec fn room_in_bounds_spec(r: Rect) -> bool {
    &&& 0 < r.x1 < MAP_WIDTH
    &&& 0 < r.x2 < MAP_WIDTH
    &&& 0 < r.y1 < MAP_HEIGHT
    &&& 0 < r.y2 < MAP_HEIGHT
}

/// A room the builder accepts: inside the map edges and not empty.
pub open spec fn valid_room(r: Rect) -> bool {
    room_in_bounds_spec(r) && r.x1 < r.x2 && r.y1 < r.y2
}

/// Every cell of the room is floor.
pub open spec fn room_is_floor(tiles: Seq<Tile>, r: Rect) -> bool {
    forall|x: int, y: int| #[trigger] r.contains(x, y) ==> is_floor(tiles, x, y)
}

/// `after` is `before` with the cells of `r` turned to floor.
pub open spec fn paints_room(before: Seq<Tile>, after: Seq<Tile>, r: Rect) -> bool {
    &&& after.len() == before.len()
    &&& forall|x: int, y: int|
        in_bounds_spec(x, y) ==> #[trigger] cell(after, x, y) == if r.contains(x, y) {
            Tile::Floor
        } else {
            cell(before, x, y)
        }
}

/// A candidate as room placement draws it: top-left corner in
/// `[1, MAP_WIDTH) x [1, MAP_HEIGHT)`, sides in `[MIN_ROOM_SIZE, MAX_ROOM_SIZE)`.
pub open spec fn is_candidate(r: Rect) -> bool {
    &&& 1 <= r.x1 < MAP_WIDTH
    &&& 1 <= r.y1 < MAP_HEIGHT
    &&& r.x1 + MIN_ROOM_SIZE <= r.x2 < r.x1 + MAX_ROOM_SIZE
    &&& r.y1 + MIN_ROOM_SIZE <= r.y2 < r.y1 + MAX_ROOM_SIZE
}

/// The outcome of offering candidate `c`: inside the map edges it is
/// appended and painted, outside it changes nothing.
pub open spec fn places_room(
    rooms_before: Seq<Rect>,
    before: Seq<Tile>,
    rooms_after: Seq<Rect>,
    after: Seq<Tile>,
    c: Rect,
) -> bool {
    &&& room_in_bounds_spec(c) ==> rooms_after == rooms_before.push(c) && paints_room(before, after, c)
    &&& !room_in_bounds_spec(c) ==> rooms_after == rooms_before && after == before
}

pub open spec fn between(v: int, a: int, b: int) -> bool {
    a <= v <= b || b <= v <= a
}

/// `(x, y)` lies on the L-shaped tunnel from `a` to `b`: along row `a.y` to
/// column `b.x` and then down that column when `horizontal_first`, else down
/// column `a.x` to row `b.y` and then along that row.
pub open spec fn on_tunnel(a: Point, b: Point, horizontal_first: bool, x: int, y: int) -> bool {
    if horizontal_first {
        (y == a.y && between(x, a.x as int, b.x as int)) || (x == b.x && between(y, a.y as int, b.y as int))
    } else {
        (x == a.x && between(y, a.y as int, b.y as int)) || (y == b.y && between(x, a.x as int, b.x as int))
    }
}

/// `(x, y)` lies on one of the first `count` tunnels, the one from room `i`
/// to room `i + 1` shaped by `flips[i]`.
pub open spec fn carved(rooms: Seq<Rect>, flips: Seq<bool>, count: int, x: int, y: int) -> bool {
    exists|i: int|
        0 <= i < count && #[trigger] on_tunnel(rooms[i].center_spec(), rooms[i + 1].center_spec(), flips[i], x, y)
}

/// `after` is `before` with the tunnels between consecutive `rooms` carved,
/// one coin flip per tunnel.
pub open spec fn is_tunnels_of(after: Seq<Tile>, before: Seq<Tile>, rooms: Seq<Rect>, flips: Seq<bool>) -> bool {
    &&& after.len() == before.len()
    &&& flips.len() == if rooms.len() == 0 { 0 } else { rooms.len() - 1 }
    &&& forall|x: int, y: int|
        in_bounds_spec(x, y) ==> #[trigger] cell(after, x, y) == if carved(rooms, flips, flips.len() as int, x, y) {
            Tile::Floor
        } else {
            cell(before, x, y)
        }
}

/// Some room of `rooms` from position `from` on covers `(x, y)`.
pub open spec fn covered_from(rooms: Seq<Rect>, from: int, x: int, y: int) -> bool {
    exists|k: int| from <= k < rooms.len() && #[trigger] rooms[k].contains(x, y)
}

/// Rooms in order of their centers' `x`.
pub open spec fn sorted_by_center_x(rooms: Seq<Rect>) -> bool {
    forall|a: int, b: int|
        0 <= a < b < rooms.len() ==> (#[trigger] rooms[a]).center_spec().x <= (#[trigger] rooms[b]).center_spec().x
}

/// From the center of every room a flood fill over floor reaches the center
/// of every other room.
pub open spec fn rooms_connected(tiles: Seq<Tile>, rooms: Seq<Rect>) -> bool {
    forall|i: int, j: int|
        0 <= i < rooms.len() && 0 <= j < rooms.len() ==> reachable(
            tiles,
            (#[trigger] rooms[i]).center_spec(),
            (#[trigger] rooms[j]).center_spec(),
        )
}

/// `after` differs from `before` only where it has floor.
pub open spec fn only_floor_added(before: Seq<Tile>, after: Seq<Tile>) -> bool {
    &&& after.len() == before.len()
    &&& forall|x: int, y: int|
        in_bounds_spec(x, y) ==> #[trigger] cell(after, x, y) == cell(before, x, y) || cell(
            after,
            x,
            y,
        ) == Tile::Floor
}

proof fn lemma_swap_to_multiset(s: Seq<Rect>, i: int, j: int)
    requires
        0 <= i < s.len(),
        0 <= j < s.len(),
    ensures
        s.update(i, s[j]).update(j, s[i]).to_multiset() == s.to_multiset(),
{
    broadcast use vstd::seq_lib::to_multiset_update, vstd::seq_lib::to_multiset_contains, vstd::multiset::group_multiset_axioms;

    let m = s.to_multiset();
    let t = s.update(i, s[j]);
    assert(t[j] == s[j]);
    assert(s.contains(s[i]));
    assert(m.count(s[i]) > 0);
    let m1 = m.insert(s[j]).remove(s[i]);
    assert(t.to_multiset() == m1);
    let m2 = m1.insert(s[i]).remove(s[j]);
    assert(t.update(j, s[i]).to_multiset() == m2);
    assert forall|v: Rect| m2.count(v) == m.count(v) by {}
    assert(m2 =~= m);
}

proof fn lemma_valid_room_center(r: Rect)
    requires
        valid_room(r),
    ensures
        r.has_center(),
        r.contains(r.center_spec().x as int, r.center_spec().y as int),
        in_bounds_spec(r.center_spec().x as int, r.center_spec().y as int),
{
}

proof fn lemma_rooms_stay(before: Seq<Tile>, after: Seq<Tile>, rooms: Seq<Rect>)
    requires
        floor_kept(before, after),
        rooms_connected(before, rooms),
        forall|k: int| 0 <= k < rooms.len() ==> room_is_floor(before, #[trigger] rooms[k]),
    ensures
        rooms_connected(after, rooms),
        forall|k: int| 0 <= k < rooms.len() ==> room_is_floor(after, #[trigger] rooms[k]),
{
    assert forall|i: int, j: int| 0 <= i < rooms.len() && 0 <= j < rooms.len() implies reachable(
        after,
        (#[trigger] rooms[i]).center_spec(),
        (#[trigger] rooms[j]).center_spec(),
    ) by {
        lemma_reachable_kept(before, after, rooms[i].center_spec(), rooms[j].center_spec());
    }
    assert forall|k: int| 0 <= k < rooms.len() implies room_is_floor(after, #[trigger] rooms[k]) by {
        assert forall|x: int, y: int| #[trigger] rooms[k].contains(x, y) implies is_floor(after, x, y) by {
            assert(is_floor(before, x, y));
        }
    }
}

/// `after` is `before` with every cell of every room turned to floor.
pub open spec fn paints_rooms(before: Seq<Tile>, after: Seq<Tile>, rooms: Seq<Rect>) -> bool {
    &&& after.len() == before.len()
    &&& forall|x: int, y: int|
        in_bounds_spec(x, y) ==> #[trigger] cell(after, x, y) == if covered_from(rooms, 0, x, y) {
            Tile::Floor
        } else {
            cell(before, x, y)
        }
}

/// `result` comes out of the four phases run on `initial` with `rooms`: the
/// rooms painted, one tunnel per consecutive pair (one coin flip each), the
/// column collapse, the row collapse, and the wall shapes.
pub open spec fn generated_from(initial: Seq<Tile>, rooms: Seq<Rect>, result: Seq<Tile>) -> bool {
    exists|placed: Seq<Tile>, flips: Seq<bool>, dug: Seq<Tile>, vertical: Seq<Tile>, horizontal: Seq<Tile>|
        #[trigger] paints_rooms(initial, placed, rooms) && #[trigger] is_tunnels_of(dug, placed, rooms, flips)
            && #[trigger] is_collapse_of(vertical, dug, Axis::Vertical, VERTICAL_MIN_RUN as int)
            && #[trigger] is_collapse_of(horizontal, vertical, Axis::Horizontal, HORIZONTAL_MIN_RUN as int)
            && #[trigger] is_walled_of(result, horizontal)
}

/// The builder's state: the map being carved, the rooms placed so far, and
/// the random source that drives placement and tunnel shapes.
pub struct Builder<'a> {
    pub map: TileMap,
    pub rooms: Vec<Rect>,
    pub max_rooms: usize,
    pub rng: &'a mut RandomNumberGenerator,
}

impl<'a> Builder<'a> {
    /// A builder over an all-`Void` map with no rooms, aiming for twenty rooms.
    pub fn new(rng: &'a mut RandomNumberGenerator) -> (r: Builder<'a>)
        ensures
            r.map.wf(),
            forall|i: int| 0 <= i < NUM_TILES ==> r.map.tiles@[i] == Tile::Void,
            r.rooms@.len() == 0,
            r.max_rooms == DEFAULT_MAX_ROOMS,
    {
        Builder { map: TileMap::new(), rooms: Vec::new(), max_rooms: DEFAULT_MAX_ROOMS, rng }
    }

    /// Whether `new_room` overlaps or touches a room placed earlier.
    pub fn room_intersection(&self, new_room: Rect) -> (r: bool)
        ensures
            r == exists|k: int| 0 <= k < self.rooms@.len() && new_room.intersects(#[trigger] self.rooms@[k]),
    {
        let mut k: usize = 0;
        while k < self.rooms.len()
            invariant
                k <= self.rooms@.len(),
                forall|j: int| 0 <= j < k ==> !new_room.intersects(#[trigger] self.rooms@[j]),
            decreases self.rooms@.len() - k,
        {
            if new_room.intersect(&self.rooms[k]) {
                return true;
            }
            k = k + 1;
        }
        false
    }

    /// A candidate room: corner in `[1, MAP_WIDTH) x [1, MAP_HEIGHT)`, sides in
    /// `[MIN_ROOM_SIZE, MAX_ROOM_SIZE)`.
    fn new_room(&mut self) -> (r: Rect)
        ensures
            is_candidate(r),
            final(self).map == old(self).map,
            final(self).rooms == old(self).rooms,
            final(self).max_rooms == old(self).max_rooms,
    {
        let x = random_range(self.rng, 1, MAP_WIDTH);
        let y = random_range(self.rng, 1, MAP_HEIGHT);
        let w = random_range(self.rng, MIN_ROOM_SIZE, MAX_ROOM_SIZE);
        let h = random_range(self.rng, MIN_ROOM_SIZE, MAX_ROOM_SIZE);
        Rect::with_size(x, y, w, h)
    }

    pub fn room_in_bounds(rect: &Rect) -> (r: bool)
        ensures
            r == room_in_bounds_spec(*rect),
    {
        rect.x1 > 0 && rect.x1 < MAP_WIDTH && rect.x2 > 0 && rect.x2 < MAP_WIDTH && rect.y1 > 0
            && rect.y1 < MAP_HEIGHT && rect.y2 > 0 && rect.y2 < MAP_HEIGHT
    }

    /// Turns every cell of `room` to floor.
    fn dig_room(map: &mut TileMap, room: Rect)
        requires
            old(map).wf(),
            valid_room(room),
        ensures
            final(map).wf(),
            paints_room(old(map).tiles@, final(map).tiles@, room),
    {
        let ghost before = map.tiles@;
        let mut y: i32 = room.y1;
        while y < room.y2
            invariant
                map.wf(),
                before.len() == NUM_TILES,
                valid_room(room),
                room.y1 <= y <= room.y2,
                forall|x2: int, y2: int|
                    in_bounds_spec(x2, y2) ==> #[trigger] cell(map.tiles@, x2, y2) == if room.contains(x2, y2) && y2 < y {
                        Tile::Floor
                    } else {
                        cell(before, x2, y2)
                    },
            decreases room.y2 - y,
        {
            let mut x: i32 = room.x1;
            while x < room.x2
                invariant
                    map.wf(),
                    before.len() == NUM_TILES,
                    valid_room(room),
                    room.y1 <= y < room.y2,
                    room.x1 <= x <= room.x2,
                    forall|x2: int, y2: int|
                        in_bounds_spec(x2, y2) ==> #[trigger] cell(map.tiles@, x2, y2) == if room.contains(x2, y2) && (y2 < y || (y2 == y && x2 < x)) {
                            Tile::Floor
                        } else {
                            cell(before, x2, y2)
                        },
                decreases room.x2 - x,
            {
                let ghost mid = map.tiles@;
                map.set(Point { x, y }, Tile::Floor);
                proof {
                    lemma_index_of(x as int, y as int);
                    assert forall|x2: int, y2: int| in_bounds_spec(x2, y2) implies #[trigger] cell(map.tiles@, x2, y2)
                        == if x2 == x && y2 == y { Tile::Floor } else { cell(mid, x2, y2) } by {
                        lemma_index_of(x2, y2);
                    }
                }
                x = x + 1;
            }
            y = y + 1;
        }
    }

    /// Accepts `candidate` when all its edges lie strictly inside the map:
    /// its cells become floor and it is appended to the rooms, whether or not
    /// it overlaps an earlier room. Otherwise nothing changes.
    pub fn place_room(&mut self, candidate: Rect)
        requires
            old(self).map.wf(),
            candidate.x1 < candidate.x2,
            candidate.y1 < candidate.y2,
        ensures
            final(self).map.wf(),
            final(self).max_rooms == old(self).max_rooms,
            places_room(old(self).rooms@, old(self).map.tiles@, final(self).rooms@, final(self).map.tiles@, candidate),
    {
        let _overlaps = self.room_intersection(candidate);
        if !Self::room_in_bounds(&candidate) {
            return;
        }
        Self::dig_room(&mut self.map, candidate);
        self.rooms.push(candidate);
    }

    /// Draws one candidate room (see `new_room`) and hands it to `place_room`.
    pub fn try_dig_random_room(&mut self)
        requires
            old(self).map.wf(),
        ensures
            final(self).map.wf(),
            final(self).max_rooms == old(self).max_rooms,
            exists|c: Rect|
                #[trigger] is_candidate(c) && places_room(
                    old(self).rooms@,
                    old(self).map.tiles@,
                    final(self).rooms@,
                    final(self).map.tiles@,
                    c,
                ),
            final(self).rooms@.len() == old(self).rooms@.len() || final(self).rooms@.len()
                == old(self).rooms@.len() + 1,
            final(self).rooms@.subrange(0, old(self).rooms@.len() as int) == old(self).rooms@,
            final(self).rooms@.len() == old(self).rooms@.len() ==> final(self).map.tiles@
                == old(self).map.tiles@,
            final(self).rooms@.len() == old(self).rooms@.len() + 1 ==> {
                &&& valid_room(final(self).rooms@.last())
                &&& paints_room(old(self).map.tiles@, final(self).map.tiles@, final(self).rooms@.last())
            },
    {
        let candidate = self.new_room();
        self.place_room(candidate);
        proof {
            assert(is_candidate(candidate));
            if room_in_bounds_spec(candidate) {
                assert(self.rooms@.subrange(0, self.rooms@.len() - 1) =~= old(self).rooms@);
            }
        }
    }

    /// Places rooms until there are `max_rooms` of them (or the attempt limit
    /// is spent). Each placed room lies strictly inside the map edges, and the
    /// map changes exactly by turning the cells of the new rooms to floor.
    pub fn build_random_rooms(&mut self)
        requires
            old(self).map.wf(),
        ensures
            final(self).map.wf(),
            final(self).max_rooms == old(self).max_rooms,
            old(self).rooms@.len() <= old(self).max_rooms ==> final(self).rooms@.len()
                <= final(self).max_rooms,
            final(self).rooms@.len() >= old(self).rooms@.len(),
            final(self).rooms@.subrange(0, old(self).rooms@.len() as int) == old(self).rooms@,
            forall|k: int|
                old(self).rooms@.len() <= k < final(self).rooms@.len() ==> valid_room(
                    #[trigger] final(self).rooms@[k],
                ),
            forall|k: int|
                old(self).rooms@.len() <= k < final(self).rooms@.len() ==> room_is_floor(
                    final(self).map.tiles@,
                    #[trigger] final(self).rooms@[k],
                ),
            forall|x: int, y: int|
                in_bounds_spec(x, y) ==> #[trigger] cell(final(self).map.tiles@, x, y) == if covered_from(
                    final(self).rooms@,
                    old(self).rooms@.len() as int,
                    x,
                    y,
                ) {
                    Tile::Floor
                } else {
                    cell(old(self).map.tiles@, x, y)
                },
    {
        let ghost start = self.rooms@.len() as int;
        let ghost before = self.map.tiles@;
        let mut attempts: u64 = 0;
        while self.rooms.len() < self.max_rooms && attempts < MAX_ROOM_ATTEMPTS
            invariant
                self.map.wf(),
                before.len() == NUM_TILES,
                self.max_rooms == old(self).max_rooms,
                start == old(self).rooms@.len(),
                before == old(self).map.tiles@,
                start <= self.rooms@.len(),
                start <= self.max_rooms ==> self.rooms@.len() <= self.max_rooms,
                self.rooms@.subrange(0, start) == old(self).rooms@,
                forall|k: int| start <= k < self.rooms@.len() ==> valid_room(#[trigger] self.rooms@[k]),
                forall|x: int, y: int|
                    in_bounds_spec(x, y) ==> #[trigger] cell(self.map.tiles@, x, y) == if covered_from(
                        self.rooms@,
                        start,
                        x,
                        y,
                    ) {
                        Tile::Floor
                    } else {
                        cell(before, x, y)
                    },
            decreases MAX_ROOM_ATTEMPTS - attempts,
        {
            let ghost rooms_before = self.rooms@;
            let ghost mid = self.map.tiles@;
            self.try_dig_random_room();
            attempts = attempts + 1;
            proof {
                if self.rooms@.len() == rooms_before.len() {
                    assert(self.rooms@ =~= rooms_before);
                } else {
                    let r = self.rooms@.last();
                    assert(self.rooms@.subrange(0, start) =~= rooms_before.subrange(0, start));
                    assert forall|k: int| start <= k < self.rooms@.len() implies valid_room(
                        #[trigger] self.rooms@[k],
                    ) by {
                        if k < rooms_before.len() {
                            assert(self.rooms@[k] == rooms_before[k]);
                        }
                    }
                    assert forall|x: int, y: int| in_bounds_spec(x, y) implies #[trigger] cell(
                        self.map.tiles@,
                        x,
                        y,
                    ) == if covered_from(self.rooms@, start, x, y) {
                        Tile::Floor
                    } else {
                        cell(before, x, y)
                    } by {
                        if covered_from(rooms_before, start, x, y) {
                            let k = choose|k: int| start <= k < rooms_before.len() && #[trigger] rooms_before[k].contains(x, y);
                            assert(self.rooms@[k] == rooms_before[k]);
                        }
                        if r.contains(x, y) {
                            assert(self.rooms@[self.rooms@.len() - 1].contains(x, y));
                        }
                        if covered_from(self.rooms@, start, x, y) {
                            let k = choose|k: int| start <= k < self.rooms@.len() && #[trigger] self.rooms@[k].contains(x, y);
                            if k < rooms_before.len() {
                                assert(self.rooms@[k] == rooms_before[k]);
                            }
                        }
                    }
                }
            }
        }
        proof {
            assert forall|k: int| start <= k < self.rooms@.len() implies room_is_floor(
                self.map.tiles@,
                #[trigger] self.rooms@[k],
            ) by {
                assert forall|x: int, y: int| #[trigger] self.rooms@[k].contains(x, y) implies is_floor(self.map.tiles@, x, y) by {
                    assert(covered_from(self.rooms@, start, x, y));
                }
            }
        }
    }

    /// Orders `rooms` by the `x` of their centers (insertion sort, so rooms
    /// with equal keys keep their order).
    pub fn sort_rooms_by_center_x(rooms: &mut Vec<Rect>)
        requires
            forall|k: int| 0 <= k < old(rooms)@.len() ==> valid_room(#[trigger] old(rooms)@[k]),
        ensures
            final(rooms)@.len() == old(rooms)@.len(),
            final(rooms)@.to_multiset() == old(rooms)@.to_multiset(),
            sorted_by_center_x(final(rooms)@),
            forall|k: int| 0 <= k < final(rooms)@.len() ==> valid_room(#[trigger] final(rooms)@[k]),
    {
        let n = rooms.len();
        let mut i: usize = 0;
        while i < n
            invariant
                n == rooms@.len(),
                i <= n,
                rooms@.to_multiset() == old(rooms)@.to_multiset(),
                forall|k: int| 0 <= k < n ==> valid_room(#[trigger] rooms@[k]),
                forall|a: int, b: int|
                    0 <= a < b < i ==> (#[trigger] rooms@[a]).center_spec().x <= (
                    #[trigger] rooms@[b]).center_spec().x,
            decreases n - i,
        {
            let mut j: usize = i;
            while j > 0 && rooms[j - 1].center().x > rooms[j].center().x
                invariant
                    n == rooms@.len(),
                    j <= i < n,
                    rooms@.to_multiset() == old(rooms)@.to_multiset(),
                    forall|k: int| 0 <= k < n ==> valid_room(#[trigger] rooms@[k]),
                    forall|a: int, b: int|
                        0 <= a < b <= i && a != j && b != j ==> (#[trigger] rooms@[a]).center_spec().x
                            <= (#[trigger] rooms@[b]).center_spec().x,
                    forall|b: int|
                        j < b <= i ==> rooms@[j as int].center_spec().x <= (
                        #[trigger] rooms@[b]).center_spec().x,
                decreases j,
            {
                let ghost before = rooms@;
                let a = rooms[j - 1];
                let b = rooms[j];
                rooms.set(j - 1, b);
                rooms.set(j, a);
                proof {
                    lemma_swap_to_multiset(before, j - 1, j as int);
                    assert(rooms@ == before.update(j - 1, before[j as int]).update(
                        j as int,
                        before[j - 1],
                    ));
                }
                j = j - 1;
            }
            proof {
                assert forall|a: int, b: int| 0 <= a < b < i + 1 implies (
                #[trigger] rooms@[a]).center_spec().x <= (#[trigger] rooms@[b]).center_spec().x by {
                    if b == j && a < j - 1 {
                        assert(rooms@[a].center_spec().x <= rooms@[j - 1].center_spec().x);
                    }
                }
            }
            i = i + 1;
        }
    }

    /// Turns the cells from `(x1, y)` to `(x2, y)`, both ends included, to floor.
    fn dig_horizontal_tunnel(map: &mut TileMap, x1: i32, x2: i32, y: i32)
        requires
            old(map).wf(),
            in_bounds_spec(x1 as int, y as int),
            in_bounds_spec(x2 as int, y as int),
        ensures
            final(map).wf(),
            forall|x3: int, y3: int|
                in_bounds_spec(x3, y3) ==> #[trigger] cell(final(map).tiles@, x3, y3) == if y3 == y
                    && (x1 <= x3 <= x2 || x2 <= x3 <= x1) {
                    Tile::Floor
                } else {
                    cell(old(map).tiles@, x3, y3)
                },
    {
        let ghost before = map.tiles@;
        let lo = if x1 < x2 { x1 } else { x2 };
        let hi = if x1 < x2 { x2 } else { x1 };
        let mut x: i32 = lo;
        while x <= hi
            invariant
                map.wf(),
                before.len() == NUM_TILES,
                0 <= lo <= x <= hi + 1,
                hi < MAP_WIDTH,
                0 <= y < MAP_HEIGHT,
                lo == x1 || lo == x2,
                hi == x1 || hi == x2,
                lo <= hi,
                x1 <= hi && x2 <= hi && lo <= x1 && lo <= x2,
                forall|x3: int, y3: int|
                    in_bounds_spec(x3, y3) ==> #[trigger] cell(map.tiles@, x3, y3) == if y3 == y && lo
                        <= x3 < x {
                        Tile::Floor
                    } else {
                        cell(before, x3, y3)
                    },
            decreases hi + 1 - x,
        {
            let ghost mid = map.tiles@;
            map.set(Point { x, y }, Tile::Floor);
            proof {
                lemma_index_of(x as int, y as int);
                assert forall|x3: int, y3: int| in_bounds_spec(x3, y3) implies #[trigger] cell(
                    map.tiles@,
                    x3,
                    y3,
                ) == if x3 == x && y3 == y {
                    Tile::Floor
                } else {
                    cell(mid, x3, y3)
                } by {
                    lemma_index_of(x3, y3);
                }
            }
            x = x + 1;
        }
    }

    /// Turns the cells from `(x, y1)` to `(x, y2)`, both ends included, to floor.
    fn dig_vertical_tunnel(map: &mut TileMap, x: i32, y1: i32, y2: i32)
        requires
            old(map).wf(),
            in_bounds_spec(x as int, y1 as int),
            in_bounds_spec(x as int, y2 as int),
        ensures
            final(map).wf(),
            forall|x3: int, y3: int|
                in_bounds_spec(x3, y3) ==> #[trigger] cell(final(map).tiles@, x3, y3) == if x3 == x
                    && (y1 <= y3 <= y2 || y2 <= y3 <= y1) {
                    Tile::Floor
                } else {
                    cell(old(map).tiles@, x3, y3)
                },
    {
        let ghost before = map.tiles@;
        let lo = if y1 < y2 { y1 } else { y2 };
        let hi = if y1 < y2 { y2 } else { y1 };
        let mut y: i32 = lo;
        while y <= hi
            invariant
                map.wf(),
                before.len() == NUM_TILES,
                0 <= lo <= y <= hi + 1,
                hi < MAP_HEIGHT,
                0 <= x < MAP_WIDTH,
                lo <= hi,
                y1 <= hi && y2 <= hi && lo <= y1 && lo <= y2,
                lo == y1 || lo == y2,
                hi == y1 || hi == y2,
                forall|x3: int, y3: int|
                    in_bounds_spec(x3, y3) ==> #[trigger] cell(map.tiles@, x3, y3) == if x3 == x && lo
                        <= y3 < y {
                        Tile::Floor
                    } else {
                        cell(before, x3, y3)
                    },
            decreases hi + 1 - y,
        {
            let ghost mid = map.tiles@;
            map.set(Point { x, y }, Tile::Floor);
            proof {
                lemma_index_of(x as int, y as int);
                assert forall|x3: int, y3: int| in_bounds_spec(x3, y3) implies #[trigger] cell(
                    map.tiles@,
                    x3,
                    y3,
                ) == if x3 == x && y3 == y {
                    Tile::Floor
                } else {
                    cell(mid, x3, y3)
                } by {
                    lemma_index_of(x3, y3);
                }
            }
            y = y + 1;
        }
    }

    /// Carves the L-shaped tunnel from `prev` to `next` (see `on_tunnel`):
    /// along a row then a column when `horizontal_first`, else the other way
    /// round. Every cell of it becomes floor, both ends included.
    pub fn dig_tunnel(map: &mut TileMap, prev: Point, next: Point, horizontal_first: bool)
        requires
            old(map).wf(),
            in_bounds_spec(prev.x as int, prev.y as int),
            in_bounds_spec(next.x as int, next.y as int),
        ensures
            final(map).wf(),
            forall|x: int, y: int|
                in_bounds_spec(x, y) ==> #[trigger] cell(final(map).tiles@, x, y) == if on_tunnel(
                    prev,
                    next,
                    horizontal_first,
                    x,
                    y,
                ) {
                    Tile::Floor
                } else {
                    cell(old(map).tiles@, x, y)
                },
            reachable(final(map).tiles@, prev, next),
    {
        if horizontal_first {
            Self::dig_horizontal_tunnel(map, prev.x, next.x, prev.y);
            let ghost after_row = map.tiles@;
            Self::dig_vertical_tunnel(map, next.x, prev.y, next.y);
            proof {
                let t = map.tiles@;
                assert forall|x: int| (prev.x <= x <= next.x || next.x <= x <= prev.x) implies #[trigger] is_floor(t, x, prev.y as int) by {
                    assert(cell(after_row, x, prev.y as int) == Tile::Floor);
                }
                assert forall|y: int| (prev.y <= y <= next.y || next.y <= y <= prev.y) implies #[trigger] is_floor(t, next.x as int, y) by {
                    assert(cell(t, next.x as int, y) == Tile::Floor);
                }
                let bend = Point { x: next.x, y: prev.y };
                lemma_row_reachable(t, prev.x, next.x, prev.y);
                lemma_column_reachable(t, next.x, prev.y, next.y);
                lemma_reachable_trans(t, prev, bend, next);
            }
        } else {
            Self::dig_vertical_tunnel(map, prev.x, prev.y, next.y);
            let ghost after_column = map.tiles@;
            Self::dig_horizontal_tunnel(map, prev.x, next.x, next.y);
            proof {
                let t = map.tiles@;
                assert forall|y: int| (prev.y <= y <= next.y || next.y <= y <= prev.y) implies #[trigger] is_floor(t, prev.x as int, y) by {
                    assert(cell(after_column, prev.x as int, y) == Tile::Floor);
                }
                assert forall|x: int| (prev.x <= x <= next.x || next.x <= x <= prev.x) implies #[trigger] is_floor(t, x, next.y as int) by {
                    assert(cell(t, x, next.y as int) == Tile::Floor);
                }
                let bend = Point { x: prev.x, y: next.y };
                lemma_column_reachable(t, prev.x, prev.y, next.y);
                lemma_row_reachable(t, prev.x, next.x, next.y);
                lemma_reachable_trans(t, prev, bend, next);
            }
        }
    }

    /// Orders the rooms by the `x` of their centers, then joins each room to
    /// the next one with an L-shaped tunnel; a coin flip picks whether the
    /// tunnel runs horizontally or vertically first. Afterwards a flood fill
    /// over floor from any room's center reaches every other room's center.
    pub fn dig_random_tunnels(&mut self)
        requires
            old(self).map.wf(),
            forall|k: int|
                0 <= k < old(self).rooms@.len() ==> valid_room(#[trigger] old(self).rooms@[k])
                    && room_is_floor(old(self).map.tiles@, old(self).rooms@[k]),
        ensures
            final(self).map.wf(),
            final(self).max_rooms == old(self).max_rooms,
            final(self).rooms@.to_multiset() == old(self).rooms@.to_multiset(),
            sorted_by_center_x(final(self).rooms@),
            forall|k: int|
                0 <= k < final(self).rooms@.len() ==> valid_room(#[trigger] final(self).rooms@[k]),
            exists|flips: Seq<bool>|
                #[trigger] is_tunnels_of(final(self).map.tiles@, old(self).map.tiles@, final(self).rooms@, flips),
            only_floor_added(old(self).map.tiles@, final(self).map.tiles@),
            floor_kept(old(self).map.tiles@, final(self).map.tiles@),
            rooms_connected(final(self).map.tiles@, final(self).rooms@),
    {
        broadcast use vstd::seq_lib::to_multiset_contains;

        Self::sort_rooms_by_center_x(&mut self.rooms);
        let ghost start = self.map.tiles@;
        let ghost rooms = self.rooms@;
        proof {
            assert forall|k: int| 0 <= k < rooms.len() implies on_floor(
                start,
                (#[trigger] rooms[k]).center_spec(),
            ) by {
                assert(rooms.to_multiset().count(rooms[k]) > 0);
                assert(old(self).rooms@.contains(rooms[k]));
                let j = choose|j: int| 0 <= j < old(self).rooms@.len() && old(self).rooms@[j] == rooms[k];
                assert(valid_room(old(self).rooms@[j]));
                lemma_valid_room_center(rooms[k]);
                let c = rooms[k].center_spec();
                assert(rooms[k].contains(c.x as int, c.y as int));
            }
        }
        let n = self.rooms.len();
        if n == 0 {
            proof {
                assert(is_tunnels_of(self.map.tiles@, start, rooms, Seq::empty()));
            }
            return;
        }
        let ghost mut flips: Seq<bool> = Seq::empty();
        proof {
            lemma_reachable_refl(start, rooms[0].center_spec());
        }
        let mut i: usize = 0;
        while i + 1 < n
            invariant
                self.map.wf(),
                start.len() == NUM_TILES,
                n == rooms.len(),
                1 <= n,
                i < n,
                self.rooms@ == rooms,
                self.max_rooms == old(self).max_rooms,
                forall|k: int| 0 <= k < n ==> valid_room(#[trigger] rooms[k]),
                forall|k: int| 0 <= k < n ==> on_floor(start, (#[trigger] rooms[k]).center_spec()),
                floor_kept(start, self.map.tiles@),
                only_floor_added(start, self.map.tiles@),
                flips.len() == i,
                forall|x: int, y: int|
                    in_bounds_spec(x, y) ==> #[trigger] cell(self.map.tiles@, x, y) == if carved(
                        rooms,
                        flips,
                        i as int,
                        x,
                        y,
                    ) {
                        Tile::Floor
                    } else {
                        cell(start, x, y)
                    },
                forall|k: int|
                    0 <= k <= i ==> reachable(
                        self.map.tiles@,
                        rooms[0].center_spec(),
                        (#[trigger] rooms[k]).center_spec(),
                    ),
            decreases n - i,
        {
            proof {
                lemma_valid_room_center(rooms[i as int]);
                lemma_valid_room_center(rooms[i + 1]);
            }
            let prev = self.rooms[i].center();
            let next = self.rooms[i + 1].center();
            let ghost mid = self.map.tiles@;
            let horizontal_first = random_range(self.rng, 0, 2) == 1;
            Self::dig_tunnel(&mut self.map, prev, next, horizontal_first);
            proof {
                let t = self.map.tiles@;
                let flips2 = flips.push(horizontal_first);
                assert forall|x: int, y: int| in_bounds_spec(x, y) implies #[trigger] cell(t, x, y) == if carved(
                    rooms,
                    flips2,
                    i + 1,
                    x,
                    y,
                ) {
                    Tile::Floor
                } else {
                    cell(start, x, y)
                } by {
                    if carved(rooms, flips, i as int, x, y) {
                        let j = choose|j: int| 0 <= j < i && #[trigger] on_tunnel(rooms[j].center_spec(), rooms[j + 1].center_spec(), flips[j], x, y);
                        assert(flips2[j] == flips[j]);
                        assert(on_tunnel(rooms[j].center_spec(), rooms[j + 1].center_spec(), flips2[j], x, y));
                    }
                    if on_tunnel(prev, next, horizontal_first, x, y) {
                        assert(flips2[i as int] == horizontal_first);
                        assert(on_tunnel(rooms[i as int].center_spec(), rooms[i + 1].center_spec(), flips2[i as int], x, y));
                    }
                    if carved(rooms, flips2, i + 1, x, y) {
                        let j = choose|j: int| 0 <= j < i + 1 && #[trigger] on_tunnel(rooms[j].center_spec(), rooms[j + 1].center_spec(), flips2[j], x, y);
                        if j < i {
                            assert(flips2[j] == flips[j]);
                            assert(on_tunnel(rooms[j].center_spec(), rooms[j + 1].center_spec(), flips[j], x, y));
                        }
                    }
                }
                flips = flips2;
            }
            proof {
                let t = self.map.tiles@;
                assert(floor_kept(mid, t));
                assert forall|k: int| 0 <= k <= i + 1 implies reachable(
                    t,
                    rooms[0].center_spec(),
                    (#[trigger] rooms[k]).center_spec(),
                ) by {
                    if k <= i {
                        lemma_reachable_kept(mid, t, rooms[0].center_spec(), rooms[k].center_spec());
                    } else {
                        lemma_reachable_kept(mid, t, rooms[0].center_spec(), rooms[i as int].center_spec());
                        lemma_reachable_trans(t, rooms[0].center_spec(), prev, next);
                    }
                }
            }
            i = i + 1;
        }
        proof {
            let t = self.map.tiles@;
            assert forall|a: int, b: int| 0 <= a < n && 0 <= b < n implies reachable(
                t,
                (#[trigger] rooms[a]).center_spec(),
                (#[trigger] rooms[b]).center_spec(),
            ) by {
                lemma_reachable_sym(t, rooms[0].center_spec(), rooms[a].center_spec());
                lemma_reachable_trans(t, rooms[a].center_spec(), rooms[0].center_spec(), rooms[b].center_spec());
            }
            assert(is_tunnels_of(t, start, rooms, flips));
        }
    }

    /// Turns to floor every `Void` cell whose run down its column is shorter
    /// than `VERTICAL_MIN_RUN`.
    pub fn collapse_thin_vertical_walls(&mut self)
        requires
            old(self).map.wf(),
        ensures
            final(self).map.wf(),
            final(self).rooms == old(self).rooms,
            final(self).max_rooms == old(self).max_rooms,
            is_collapse_of(final(self).map.tiles@, old(self).map.tiles@, Axis::Vertical, VERTICAL_MIN_RUN as int),
    {
        collapse_thin_walls(&mut self.map, Axis::Vertical, VERTICAL_MIN_RUN);
    }

    /// Turns to floor every `Void` cell whose run along its row is shorter
    /// than `HORIZONTAL_MIN_RUN`.
    pub fn collapse_thin_horizontal_walls(&mut self)
        requires
            old(self).map.wf(),
        ensures
            final(self).map.wf(),
            final(self).rooms == old(self).rooms,
            final(self).max_rooms == old(self).max_rooms,
            is_collapse_of(final(self).map.tiles@, old(self).map.tiles@, Axis::Horizontal, HORIZONTAL_MIN_RUN as int),
    {
        collapse_thin_walls(&mut self.map, Axis::Horizontal, HORIZONTAL_MIN_RUN);
    }

    /// Gives every `Void` cell next to floor its wall shape.
    pub fn build_walls(&mut self)
        requires
            old(self).map.wf(),
        ensures
            final(self).map.wf(),
            final(self).rooms == old(self).rooms,
            final(self).max_rooms == old(self).max_rooms,
            is_walled_of(final(self).map.tiles@, old(self).map.tiles@),
    {
        build_walls(&mut self.map);
    }

    /// Runs the four phases in order: room placement, tunnels, thin-wall
    /// collapse (columns, then rows) and wall shapes. Every room lies strictly
    /// inside the map edges with all its cells floor, the rooms are ordered by
    /// the `x` of their centers, and a flood fill over floor from any room's
    /// center reaches every other room's center.
    pub fn build(self) -> (r: Builder<'a>)
        requires
            self.map.wf(),
            self.rooms@.len() <= self.max_rooms,
            forall|k: int|
                0 <= k < self.rooms@.len() ==> valid_room(#[trigger] self.rooms@[k]) && room_is_floor(
                    self.map.tiles@,
                    self.rooms@[k],
                ),
        ensures
            r.map.wf(),
            r.max_rooms == self.max_rooms,
            self.rooms@.len() <= r.rooms@.len() <= r.max_rooms,
            sorted_by_center_x(r.rooms@),
            forall|k: int|
                0 <= k < r.rooms@.len() ==> valid_room(#[trigger] r.rooms@[k]) && room_is_floor(
                    r.map.tiles@,
                    r.rooms@[k],
                ),
            rooms_connected(r.map.tiles@, r.rooms@),
            generated_from(self.map.tiles@, r.rooms@, r.map.tiles@),
    {
        broadcast use vstd::seq_lib::to_multiset_len, vstd::seq_lib::to_multiset_contains;

        let mut builder = self;

        let ghost start = builder.map.tiles@;
        let ghost start_rooms = builder.rooms@;
        builder.build_random_rooms();
        proof {
            let t = builder.map.tiles@;
            let rooms = builder.rooms@;
            assert forall|k: int| 0 <= k < rooms.len() implies valid_room(#[trigger] rooms[k]) && room_is_floor(t, rooms[k]) by {
                if k < start_rooms.len() {
                    assert(rooms.subrange(0, start_rooms.len() as int)[k] == rooms[k]);
                    assert(valid_room(rooms[k]));
                    assert forall|x: int, y: int| #[trigger] rooms[k].contains(x, y) implies is_floor(t, x, y) by {
                        assert(is_floor(start, x, y));
                    }
                }
            }
        }
        let ghost placed = builder.rooms@;
        let ghost placed_tiles = builder.map.tiles@;
        builder.dig_random_tunnels();
        proof {
            let t = builder.map.tiles@;
            let rooms = builder.rooms@;
            assert(rooms.len() == placed.len()) by {
                assert(rooms.to_multiset().len() == placed.to_multiset().len());
            }
            assert forall|k: int| 0 <= k < rooms.len() implies room_is_floor(t, #[trigger] rooms[k]) by {
                assert(rooms.to_multiset().count(rooms[k]) > 0);
                assert(placed.contains(rooms[k]));
                let j = choose|j: int| 0 <= j < placed.len() && placed[j] == rooms[k];
                assert forall|x: int, y: int| #[trigger] placed[j].contains(x, y) implies is_floor(t, x, y) by {
                    assert(room_is_floor(placed_tiles, placed[j]));
                    assert(is_floor(placed_tiles, x, y));
                }
            }
        }
        let ghost dug = builder.map.tiles@;
        let ghost flips = choose|f: Seq<bool>| is_tunnels_of(dug, placed_tiles, builder.rooms@, f);
        proof {
            let rooms = builder.rooms@;
            assert forall|x: int, y: int| in_bounds_spec(x, y) implies #[trigger] cell(placed_tiles, x, y) == if covered_from(rooms, 0, x, y) {
                Tile::Floor
            } else {
                cell(start, x, y)
            } by {
                if covered_from(rooms, 0, x, y) {
                    let k = choose|k: int| 0 <= k < rooms.len() && #[trigger] rooms[k].contains(x, y);
                    assert(rooms.to_multiset().count(rooms[k]) > 0);
                    assert(placed.contains(rooms[k]));
                    let j = choose|j: int| 0 <= j < placed.len() && placed[j] == rooms[k];
                    if j < start_rooms.len() {
                        assert(placed.subrange(0, start_rooms.len() as int)[j] == placed[j]);
                        assert(room_is_floor(start, start_rooms[j]));
                        assert(is_floor(start, x, y));
                    } else {
                        assert(placed[j].contains(x, y));
                        assert(covered_from(placed, start_rooms.len() as int, x, y));
                    }
                } else if covered_from(placed, start_rooms.len() as int, x, y) {
                    let j = choose|j: int| start_rooms.len() <= j < placed.len() && #[trigger] placed[j].contains(x, y);
                    assert(placed.to_multiset().count(placed[j]) > 0);
                    assert(rooms.contains(placed[j]));
                    let k = choose|k: int| 0 <= k < rooms.len() && rooms[k] == placed[j];
                    assert(rooms[k].contains(x, y));
                }
            }
            assert(paints_rooms(start, placed_tiles, rooms));
        }
        builder.collapse_thin_vertical_walls();
        proof {
            lemma_collapse_keeps_floor(dug, builder.map.tiles@, Axis::Vertical, VERTICAL_MIN_RUN as int);
            lemma_rooms_stay(dug, builder.map.tiles@, builder.rooms@);
        }
        let ghost vertical = builder.map.tiles@;
        builder.collapse_thin_horizontal_walls();
        proof {
            lemma_collapse_keeps_floor(vertical, builder.map.tiles@, Axis::Horizontal, HORIZONTAL_MIN_RUN as int);
            lemma_rooms_stay(vertical, builder.map.tiles@, builder.rooms@);
        }
        let ghost horizontal = builder.map.tiles@;
        builder.build_walls();
        proof {
            let t = builder.map.tiles@;
            assert forall|x: int, y: int| #[trigger] is_floor(horizontal, x, y) implies is_floor(t, x, y) by {
                assert(cell(t, x, y) == cell(horizontal, x, y));
            }
            lemma_rooms_stay(horizontal, t, builder.rooms@);
            assert(paints_rooms(start, placed_tiles, builder.rooms@) && is_tunnels_of(dug, placed_tiles, builder.rooms@, flips)
                && is_collapse_of(vertical, dug, Axis::Vertical, VERTICAL_MIN_RUN as int)
                && is_collapse_of(horizontal, vertical, Axis::Horizontal, HORIZONTAL_MIN_RUN as int)
                && is_walled_of(t, horizontal));
        }
        builder
    }
}

} // verus!
