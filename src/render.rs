//! What to draw for the visible part of the map: glyphs per tile, placed in
//! camera space.
use vstd::prelude::*;

use crate::camera::{lemma_view_points_contains, view_points, Camera};
use crate::geometry::Point;
use crate::map::{lookup, Curve, Direction, Tile, TileMap, MAP_HEIGHT, MAP_WIDTH};

verus! {

/// The draw layer a glyph goes to: plain tiles, or corner pieces.
#[derive(Clone, Copy, Debug, PartialEq, Eq, Structural)]
pub enum Layer {
    Basic,
    Corner,
}

/// One glyph of a tile, `dy` rows below the tile's own cell (`-1` is above).
#[derive(Clone, Copy, Debug, PartialEq, Eq, Structural)]
pub struct Glyph {
    pub layer: Layer,
    pub dy: i32,
    pub glyph: char,
}

/// A glyph at a camera-space position.
#[derive(Clone, Copy, Debug, PartialEq, Eq, Structural)]
pub struct DrawCommand {
    pub layer: Layer,
    pub x: i32,
    pub y: i32,
    pub glyph: char,
}

pub open spec fn glyph(layer: Layer, dy: i32, c: char) -> Glyph {
    Glyph { layer, dy, glyph: c }
}

/// The glyphs drawn for a tile, in drawing order. Convex walls facing
/// straight N, S, E or W draw nothing.
pub open spec fn tile_glyphs_spec(tile: Tile) -> Seq<Glyph> {
    match tile {
        Tile::Void => seq![glyph(Layer::Basic, 0, '$')],
        Tile::Floor => seq![glyph(Layer::Basic, 0, '.')],
        Tile::Wall(Curve::Convex, Direction::NE) => seq![glyph(Layer::Corner, 0, '2'), glyph(Layer::Corner, 1, 'B')],
        Tile::Wall(Curve::Convex, Direction::NW) => seq![glyph(Layer::Corner, 1, 'A'), glyph(Layer::Corner, 0, '1')],
        Tile::Wall(Curve::Convex, Direction::SE) => seq![glyph(Layer::Corner, 0, 'b'), glyph(Layer::Corner, -1i32, 'R')],
        Tile::Wall(Curve::Convex, Direction::SW) => seq![glyph(Layer::Corner, 0, 'a'), glyph(Layer::Corner, -1i32, 'Q')],
        Tile::Wall(Curve::Concave, Direction::NW) => seq![glyph(Layer::Corner, 0, 'X'), glyph(Layer::Corner, -1i32, 'H')],
        Tile::Wall(Curve::Concave, Direction::N) => seq![glyph(Layer::Basic, 0, 'Y'), glyph(Layer::Basic, -1i32, 'I')],
        Tile::Wall(Curve::Concave, Direction::NE) => seq![glyph(Layer::Corner, 0, 'Z'), glyph(Layer::Corner, -1i32, 'J')],
        Tile::Wall(Curve::Concave, Direction::W) => seq![glyph(Layer::Basic, 0, 'h')],
        Tile::Wall(Curve::Concave, Direction::E) => seq![glyph(Layer::Basic, 0, 'j')],
        Tile::Wall(Curve::Concave, Direction::SW) => seq![glyph(Layer::Corner, 0, 'x')],
        Tile::Wall(Curve::Concave, Direction::S) => seq![glyph(Layer::Basic, 0, 'y')],
        Tile::Wall(Curve::Concave, Direction::SE) => seq![glyph(Layer::Corner, 0, 'z')],
        Tile::Wall(_, _) => seq![],
    }
}

/// The glyphs of `tile`, in drawing order.
pub fn tile_glyphs(tile: Tile) -> (r: Vec<Glyph>)
    ensures
        r@ == tile_glyphs_spec(tile),
{
    let g = |layer: Layer, dy: i32, c: char| -> (r: Glyph)
        ensures
            r == glyph(layer, dy, c),
        { Glyph { layer, dy, glyph: c } };
    let r = match tile {
        Tile::Void => vec![g(Layer::Basic, 0, '$')],
        Tile::Floor => vec![g(Layer::Basic, 0, '.')],
        Tile::Wall(Curve::Convex, Direction::NE) => vec![g(Layer::Corner, 0, '2'), g(Layer::Corner, 1, 'B')],
        Tile::Wall(Curve::Convex, Direction::NW) => vec![g(Layer::Corner, 1, 'A'), g(Layer::Corner, 0, '1')],
        Tile::Wall(Curve::Convex, Direction::SE) => vec![g(Layer::Corner, 0, 'b'), g(Layer::Corner, -1, 'R')],
        Tile::Wall(Curve::Convex, Direction::SW) => vec![g(Layer::Corner, 0, 'a'), g(Layer::Corner, -1, 'Q')],
        Tile::Wall(Curve::Concave, Direction::NW) => vec![g(Layer::Corner, 0, 'X'), g(Layer::Corner, -1, 'H')],
        Tile::Wall(Curve::Concave, Direction::N) => vec![g(Layer::Basic, 0, 'Y'), g(Layer::Basic, -1, 'I')],
        Tile::Wall(Curve::Concave, Direction::NE) => vec![g(Layer::Corner, 0, 'Z'), g(Layer::Corner, -1, 'J')],
        Tile::Wall(Curve::Concave, Direction::W) => vec![g(Layer::Basic, 0, 'h')],
        Tile::Wall(Curve::Concave, Direction::E) => vec![g(Layer::Basic, 0, 'j')],
        Tile::Wall(Curve::Concave, Direction::SW) => vec![g(Layer::Corner, 0, 'x')],
        Tile::Wall(Curve::Concave, Direction::S) => vec![g(Layer::Basic, 0, 'y')],
        Tile::Wall(Curve::Concave, Direction::SE) => vec![g(Layer::Corner, 0, 'z')],
        Tile::Wall(_, _) => Vec::new(),
    };
    proof {
        assert(r@ =~= tile_glyphs_spec(tile));
    }
    r
}

/// `g` drawn for the tile at camera-space position `at`.
pub open spec fn placed(g: Glyph, at: Point) -> DrawCommand {
    DrawCommand { layer: g.layer, x: at.x, y: (at.y + g.dy) as i32, glyph: g.glyph }
}

/// The commands for world point `p`: its tile's glyphs at its camera-space
/// position, or nothing when `p` lies off the map.
pub open spec fn point_commands(tiles: Seq<Tile>, camera: Camera, p: Point) -> Seq<DrawCommand> {
    match lookup(tiles, p.x as int, p.y as int) {
        Some(t) => tile_glyphs_spec(t).map_values(|g: Glyph| placed(g, camera.camera_space(p))),
        None => seq![],
    }
}

/// The commands for `points`, in their order.
pub open spec fn commands_for(tiles: Seq<Tile>, camera: Camera, points: Seq<Point>) -> Seq<DrawCommand>
    decreases points.len(),
{
    if points.len() == 0 {
        seq![]
    } else {
        commands_for(tiles, camera, points.drop_last()) + point_commands(tiles, camera, points.last())
    }
}

/// Everything to draw for the map under `camera`: for each point of the
/// camera's window, in the window's order, the glyphs of the tile there,
/// placed in camera space. Points off the map draw nothing.
pub fn map_draw_commands(map: &TileMap, camera: &Camera) -> (r: Vec<DrawCommand>)
    requires
        map.wf(),
        camera.left_x >= i32::MIN + MAP_WIDTH,
        camera.top_y >= i32::MIN + MAP_HEIGHT + 1,
    ensures
        r@ == commands_for(
            map.tiles@,
            *camera,
            view_points(camera.left_x as int, camera.right_x as int, camera.top_y as int, camera.bottom_y as int),
        ),
{
    let points = camera.worldspace_view_iter();
    let ghost all = points@;
    let mut out: Vec<DrawCommand> = Vec::new();
    let mut i: usize = 0;
    while i < points.len()
        invariant
            map.wf(),
            camera.left_x >= i32::MIN + MAP_WIDTH,
            camera.top_y >= i32::MIN + MAP_HEIGHT + 1,
            all == points@,
            all == view_points(camera.left_x as int, camera.right_x as int, camera.top_y as int, camera.bottom_y as int),
            i <= all.len(),
            out@ == commands_for(map.tiles@, *camera, all.take(i as int)),
        decreases all.len() - i,
    {
        let p = points[i];
        proof {
            lemma_view_points_contains(camera.left_x as int, camera.right_x as int, camera.top_y as int, camera.bottom_y as int, p);
            assert(all.contains(p)) by {
                assert(all[i as int] == p);
            }
            assert(all.take(i + 1).drop_last() =~= all.take(i as int));
        }
        let ghost base = out@;
        match map.at(p) {
            Some(tile) => {
                let at = camera.to_camera_space(&p);
                let glyphs = tile_glyphs(tile);
                let mut j: usize = 0;
                while j < glyphs.len()
                    invariant
                        glyphs@ == tile_glyphs_spec(tile),
                        0 <= at.y <= MAP_HEIGHT as int - 1 - camera.top_y,
                        camera.top_y >= i32::MIN + MAP_HEIGHT + 1,
                        j <= glyphs@.len(),
                        out@ == base + glyphs@.take(j as int).map_values(|g: Glyph| placed(g, at)),
                    decreases glyphs@.len() - j,
                {
                    let g = glyphs[j];
                    proof {
                        assert(-1 <= g.dy <= 1) by {
                            assert(glyphs@.contains(g)) by {
                                assert(glyphs@[j as int] == g);
                            }
                        }
                    }
                    out.push(DrawCommand { layer: g.layer, x: at.x, y: at.y + g.dy, glyph: g.glyph });
                    proof {
                        assert(glyphs@.take(j + 1).map_values(|g: Glyph| placed(g, at)) =~= glyphs@.take(
                            j as int,
                        ).map_values(|g: Glyph| placed(g, at)).push(placed(g, at)));
                    }
                    j = j + 1;
                }
                proof {
                    assert(glyphs@.take(j as int) =~= glyphs@);
                }
            },
            None => {
                proof {
                    assert(out@ =~= base + seq![]);
                }
            },
        }
        i = i + 1;
    }
    proof {
        assert(all.take(i as int) =~= all);
    }
    out
}

} // verus!
