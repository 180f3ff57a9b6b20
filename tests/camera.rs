use roguelike::camera::Camera;
use roguelike::geometry::Point;

#[test]
fn view_of_eight_by_six_camera() {
    let camera = Camera::new(&Point::new(10, 10), 8, 6);
    let view = camera.worldspace_view_iter();
    assert_eq!(view.len(), 56);
    let mut expected = Vec::new();
    for x in 6..14 {
        for y in 7..=13 {
            expected.push(Point::new(x, y));
        }
    }
    assert_eq!(view, expected);
    assert_eq!(camera.to_camera_space(&Point::new(6, 7)), Point::new(0, 0));
}

#[test]
fn edges_follow_truncating_division() {
    let camera = Camera::new(&Point::new(0, 0), 7, 5);
    assert_eq!((camera.left_x, camera.right_x), (-3, 3));
    assert_eq!((camera.top_y, camera.bottom_y), (-2, 2));
    assert_eq!(camera.worldspace_view_iter().len(), 6 * 5);
    let flipped = Camera::new(&Point::new(0, 0), -3, -3);
    assert_eq!((flipped.left_x, flipped.right_x), (1, -1));
    assert!(flipped.worldspace_view_iter().is_empty());
}

#[test]
fn update_recenters() {
    let mut camera = Camera::new(&Point::new(0, 0), 40, 25);
    camera.update(&Point::new(30, 20));
    assert_eq!(camera.left_x, 10);
    assert_eq!(camera.right_x, 50);
    assert_eq!(camera.top_y, 8);
    assert_eq!(camera.bottom_y, 32);
    assert_eq!((camera.width, camera.height), (40, 25));
}

#[test]
fn camera_space_round_trip() {
    let camera = Camera::new(&Point::new(-4, 17), 9, 4);
    for p in camera.worldspace_view_iter() {
        let c = camera.to_camera_space(&p);
        assert!(c.x >= 0 && c.y >= 0);
        assert_eq!(Point::new(c.x + camera.left_x, c.y + camera.top_y), p);
    }
    assert_eq!(camera.to_camera_space(&Point::new(100, 100)), Point::new(108, 85));
}
