use roguelike::camera::Camera;
use roguelike::geometry::Point;
use roguelike::map::{Curve, Direction, Tile, TileMap};
use roguelike::render::{map_draw_commands, tile_glyphs, DrawCommand, Glyph, Layer};

#[test]
fn glyphs_of_plain_tiles() {
    assert_eq!(tile_glyphs(Tile::Floor), vec![Glyph { layer: Layer::Basic, dy: 0, glyph: '.' }]);
    assert_eq!(tile_glyphs(Tile::Void), vec![Glyph { layer: Layer::Basic, dy: 0, glyph: '$' }]);
}

#[test]
fn glyphs_of_walls() {
    assert_eq!(
        tile_glyphs(Tile::Wall(Curve::Convex, Direction::NW)),
        vec![
            Glyph { layer: Layer::Corner, dy: 1, glyph: 'A' },
            Glyph { layer: Layer::Corner, dy: 0, glyph: '1' },
        ]
    );
    assert_eq!(
        tile_glyphs(Tile::Wall(Curve::Concave, Direction::N)),
        vec![
            Glyph { layer: Layer::Basic, dy: 0, glyph: 'Y' },
            Glyph { layer: Layer::Basic, dy: -1, glyph: 'I' },
        ]
    );
    assert_eq!(
        tile_glyphs(Tile::Wall(Curve::Concave, Direction::SE)),
        vec![Glyph { layer: Layer::Corner, dy: 0, glyph: 'z' }]
    );
    assert!(tile_glyphs(Tile::Wall(Curve::Convex, Direction::N)).is_empty());
}

#[test]
fn draw_commands_clip_to_the_map() {
    let mut map = TileMap::new();
    map.set(Point::new(0, 0), Tile::Floor);
    map.set(Point::new(1, 0), Tile::Wall(Curve::Concave, Direction::N));
    let camera = Camera::new(&Point::new(0, 0), 4, 2);
    let commands = map_draw_commands(&map, &camera);
    // window x in -2..2, y in -1..=1; on the map: x 0..2, y 0..=1
    assert_eq!(
        commands,
        vec![
            DrawCommand { layer: Layer::Basic, x: 2, y: 1, glyph: '.' },
            DrawCommand { layer: Layer::Basic, x: 2, y: 2, glyph: '$' },
            DrawCommand { layer: Layer::Basic, x: 3, y: 1, glyph: 'Y' },
            DrawCommand { layer: Layer::Basic, x: 3, y: 0, glyph: 'I' },
            DrawCommand { layer: Layer::Basic, x: 3, y: 2, glyph: '$' },
        ]
    );
}
