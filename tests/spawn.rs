use bracket_lib::prelude::RandomNumberGenerator;
use roguelike::components::{LeftWalker, Position};
use roguelike::geometry::{Point, Rect};
use roguelike::spawn::{monster_glyph, random_monster_glyph, spawn_points};

#[test]
fn monster_glyph_per_roll() {
    assert_eq!(monster_glyph(0), 'E');
    assert_eq!(monster_glyph(1), 'O');
    assert_eq!(monster_glyph(2), 'o');
    assert_eq!(monster_glyph(3), 'g');
}

#[test]
fn random_monster_glyph_is_one_of_four() {
    let mut rng = RandomNumberGenerator::seeded(4);
    let mut seen = Vec::new();
    for _ in 0..100 {
        let g = random_monster_glyph(&mut rng);
        assert!(['E', 'O', 'o', 'g'].contains(&g));
        if !seen.contains(&g) {
            seen.push(g);
        }
    }
    assert!(seen.len() > 1);
}

#[test]
fn spawn_points_are_room_centers() {
    let rooms = vec![Rect::with_size(1, 1, 4, 4), Rect::with_size(10, 20, 5, 3)];
    assert_eq!(spawn_points(&rooms), vec![Point::new(3, 3), Point::new(12, 21)]);
    assert!(spawn_points(&Vec::new()).is_empty());
}

#[test]
fn left_walker_moves_left() {
    let mut walker = LeftWalker {};
    let mut positions = vec![Position::new(5, 2), Position::new(0, -3)];
    walker.run(&mut positions);
    assert_eq!(positions, vec![Position::new(4, 2), Position::new(-1, -3)]);
}
