//! The viewport: a window of world space centered on a focus point.
use vstd::prelude::*;

use crate::geometry::{half_toward_zero, Point};

verus! {

/// The cells of column `x` from `top` to `bottom`, both included.
pub open spec fn column_points(x: int, top: int, bottom: int) -> Seq<Point> {
    Seq::new(if bottom >= top { (bottom - top + 1) as nat } else { 0 }, |k: int| Point { x: x as i32, y: (top + k) as i32 })
}

/// The points of `[left, right) x [top, bottom]`, column by column.
pub open spec fn view_points(left: int, right: int, top: int, bottom: int) -> Seq<Point>
    decreases right - left,
{
    if right <= left {
        Seq::empty()
    } else {
        view_points(left, right - 1, top, bottom) + column_points(right - 1, top, bottom)
    }
}

/// A window of `width` by `height` around `focus` has all four edges in `i32`.
pub open spec fn window_fits(focus: Point, width: i32, height: i32) -> bool {
    &&& i32::MIN <= focus.x - half_toward_zero(width as int) <= i32::MAX
    &&& i32::MIN <= focus.x + half_toward_zero(width as int) <= i32::MAX
    &&& i32::MIN <= focus.y - half_toward_zero(height as int) <= i32::MAX
    &&& i32::MIN <= focus.y + half_toward_zero(height as int) <= i32::MAX
}

/// The visible window: columns `left_x..right_x` (right edge excluded) and
/// rows `top_y..=bottom_y` (bottom edge included).
#[derive(Clone, Copy, Debug, Default)]
pub struct Camera {
    pub width: i32,
    pub height: i32,
    pub left_x: i32,
    pub right_x: i32,
    pub top_y: i32,
    pub bottom_y: i32,
}

impl Camera {
    pub open spec fn centered_on(&self, focus: Point) -> bool {
        &&& self.left_x == focus.x - half_toward_zero(self.width as int)
        &&& self.right_x == focus.x + half_toward_zero(self.width as int)
        &&& self.top_y == focus.y - half_toward_zero(self.height as int)
        &&& self.bottom_y == focus.y + half_toward_zero(self.height as int)
    }

    pub open spec fn in_window(&self, p: Point) -> bool {
        self.left_x <= p.x < self.right_x && self.top_y <= p.y <= self.bottom_y
    }

    pub open spec fn camera_space(&self, p: Point) -> Point {
        Point { x: (p.x - self.left_x) as i32, y: (p.y - self.top_y) as i32 }
    }

    /// A camera of `width` by `height` centered on `player_position`.
    pub fn new(player_position: &Point, width: i32, height: i32) -> (r: Camera)
        requires
            window_fits(*player_position, width, height),
        ensures
            r.width == width,
            r.height == height,
            r.centered_on(*player_position),
    {
        let mut camera = Camera { width, height, left_x: 0, right_x: 0, top_y: 0, bottom_y: 0 };
        camera.update(player_position);
        camera
    }

    /// Recenters the window on `point`, keeping its size.
    pub fn update(&mut self, point: &Point)
        requires
            window_fits(*point, old(self).width, old(self).height),
        ensures
            final(self).width == old(self).width,
            final(self).height == old(self).height,
            final(self).centered_on(*point),
    {
        self.left_x = point.x - self.width / 2;
        self.right_x = point.x + self.width / 2;
        self.top_y = point.y - self.height / 2;
        self.bottom_y = point.y + self.height / 2;
    }

    /// Every world point of the window, `x` in the outer order and `y` in the
    /// inner one.
    pub fn worldspace_view_iter(&self) -> (r: Vec<Point>)
        ensures
            r@ == view_points(self.left_x as int, self.right_x as int, self.top_y as int, self.bottom_y as int),
    {
        let mut out: Vec<Point> = Vec::new();
        let mut x: i64 = self.left_x as i64;
        if self.right_x <= self.left_x {
            return out;
        }
        while x < self.right_x as i64
            invariant
                self.left_x <= x <= self.right_x,
                out@ == view_points(self.left_x as int, x as int, self.top_y as int, self.bottom_y as int),
            decreases self.right_x - x,
        {
            let ghost before = out@;
            let mut y: i64 = self.top_y as i64;
            while y <= self.bottom_y as i64
                invariant
                    self.left_x <= x < self.right_x,
                    self.top_y <= y,
                    y <= self.bottom_y + 1 || y == self.top_y,
                    before == view_points(self.left_x as int, x as int, self.top_y as int, self.bottom_y as int),
                    out@ == before + column_points(x as int, self.top_y as int, (y - 1) as int),
                decreases self.bottom_y + 1 - y,
            {
                let ghost mid = out@;
                out.push(Point { x: x as i32, y: y as i32 });
                proof {
                    let c0 = column_points(x as int, self.top_y as int, (y - 1) as int);
                    let c1 = column_points(x as int, self.top_y as int, y as int);
                    assert(c1 =~= c0.push(Point { x: x as i32, y: y as i32 }));
                    assert(out@ =~= before + c1);
                }
                y = y + 1;
            }
            proof {
                let c = column_points(x as int, self.top_y as int, self.bottom_y as int);
                if self.bottom_y < self.top_y {
                    assert(column_points(x as int, self.top_y as int, (y - 1) as int) =~= c);
                }
                assert(view_points(self.left_x as int, x + 1, self.top_y as int, self.bottom_y as int) == before + c);
            }
            x = x + 1;
        }
        out
    }

    /// `point` relative to the window's top-left corner; no clipping.
    pub fn to_camera_space(&self, point: &Point) -> (r: Point)
        requires
            i32::MIN <= point.x - self.left_x <= i32::MAX,
            i32::MIN <= point.y - self.top_y <= i32::MAX,
        ensures
            r == self.camera_space(*point),
    {
        Point { x: point.x - self.left_x, y: point.y - self.top_y }
    }
}

/// The window holds exactly the points of `[left_x, right_x) x [top_y, bottom_y]`.
pub proof fn lemma_view_points_contains(left: int, right: int, top: int, bottom: int, p: Point)
    requires
        i32::MIN <= left,
        right <= i32::MAX,
        i32::MIN <= top,
        bottom <= i32::MAX,
    ensures
        view_points(left, right, top, bottom).contains(p) <==> (left <= p.x < right && top <= p.y <= bottom),
    decreases right - left,
{
    if right > left {
        lemma_view_points_contains(left, right - 1, top, bottom, p);
        let rest = view_points(left, right - 1, top, bottom);
        let col = column_points(right - 1, top, bottom);
        if left <= p.x < right && top <= p.y <= bottom {
            if p.x == right - 1 {
                assert(col[p.y - top] == p);
                assert((rest + col)[rest.len() + p.y - top] == p);
            } else {
                let i = choose|i: int| 0 <= i < rest.len() && rest[i] == p;
                assert((rest + col)[i] == p);
            }
        }
        if (rest + col).contains(p) {
            let i = choose|i: int| 0 <= i < (rest + col).len() && (rest + col)[i] == p;
            if i >= rest.len() {
                assert(col[i - rest.len()] == p);
            } else {
                assert(rest[i] == p);
            }
        }
    }
}

/// Mapping a window point to camera space and adding the window's top-left
/// corner back gives the point again.
pub proof fn lemma_camera_space_round_trip(camera: Camera, focus: Point, p: Point)
    requires
        camera.centered_on(focus),
        camera.in_window(p),
    ensures
        i32::MIN <= p.x - camera.left_x <= i32::MAX,
        i32::MIN <= p.y - camera.top_y <= i32::MAX,
        camera.camera_space(p).x + camera.left_x == p.x,
        camera.camera_space(p).y + camera.top_y == p.y,
{
}

} // verus!
