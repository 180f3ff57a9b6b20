//! Where the player and the monsters start, and how monsters look.
use vstd::prelude::*;

use bracket_lib::prelude::RandomNumberGenerator;

use crate::geometry::{Point, Rect};
use crate::random::random_range;

verus! {

pub open spec fn monster_glyph_spec(roll: i32) -> char {
    if roll == 0 {
        'E'
    } else if roll == 1 {
        'O'
    } else if roll == 2 {
        'o'
    } else {
        'g'
    }
}

/// The glyph of a monster for a roll in `0..4`: `E`, `O`, `o`, then `g` for
/// anything else.
pub fn monster_glyph(roll: i32) -> (r: char)
    ensures
        r == monster_glyph_spec(roll),
{
    match roll {
        0 => 'E',
        1 => 'O',
        2 => 'o',
        _ => 'g',
    }
}

/// A monster glyph for a roll drawn from `0..4`.
pub fn random_monster_glyph(rng: &mut RandomNumberGenerator) -> (r: char)
    ensures
        exists|roll: i32| 0 <= roll < 4 && r == monster_glyph_spec(roll),
{
    let roll = random_range(rng, 0, 4);
    monster_glyph(roll)
}

/// The center of each room, in order: the first is the player's start, the
/// others are where monsters appear.
pub fn spawn_points(rooms: &Vec<Rect>) -> (r: Vec<Point>)
    requires
        forall|k: int| 0 <= k < rooms@.len() ==> (#[trigger] rooms@[k]).has_center(),
    ensures
        r@.len() == rooms@.len(),
        forall|k: int| 0 <= k < rooms@.len() ==> #[trigger] r@[k] == rooms@[k].center_spec(),
{
    let mut out: Vec<Point> = Vec::new();
    let mut k: usize = 0;
    while k < rooms.len()
        invariant
            k <= rooms@.len(),
            out@.len() == k,
            forall|j: int| 0 <= j < rooms@.len() ==> (#[trigger] rooms@[j]).has_center(),
            forall|j: int| 0 <= j < k ==> #[trigger] out@[j] == rooms@[j].center_spec(),
        decreases rooms@.len() - k,
    {
        out.push(rooms[k].center());
        k = k + 1;
    }
    out
}

} // verus!
