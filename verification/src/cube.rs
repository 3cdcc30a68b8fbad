//! The cuboid wireframe: a front rectangle, a back rectangle offset by
//! a fixed half-diagonal depth vector, and four connecting edges, all
//! drawn in one color per draw call.  This is a pseudo-3-D offset, not
//! a projection.

use vstd::prelude::*;

use crate::canvas::Displayable;
use crate::canvas::PixelWrite;
use crate::color::Color;
use crate::drawable::Drawable;
use crate::line::draw_line;
use crate::line::line_pixels;
use crate::num::div_trunc;
use crate::num::div_trunc_i64;
use crate::point::Point;
use crate::rectangle::Rectangle;
use crate::rectangle::rect_pixels;

verus! {

/// A cuboid, given by the two opposite corners of its front face.
/// The back face is derived at draw time and never stored.
#[derive(Clone, Copy, Debug, PartialEq, Eq, Structural)]
pub struct Cube {
    pub front_corner_a: Point,
    pub front_corner_b: Point,
}

/// The depth offset of the back face: half the front diagonal,
/// truncated toward zero, with the vertical component inverted.
pub open spec fn cube_depth(cube: Cube) -> (int, int) {
    (
        div_trunc(cube.front_corner_a.x - cube.front_corner_b.x, 2),
        -div_trunc(cube.front_corner_a.y - cube.front_corner_b.y, 2),
    )
}

/// The two opposite corners of the derived back face.
pub open spec fn cube_back_a(cube: Cube) -> (int, int) {
    (cube.front_corner_a.x + cube_depth(cube).0, cube.front_corner_a.y + cube_depth(cube).1)
}

/// The two opposite corners of the derived back face.
pub open spec fn cube_back_b(cube: Cube) -> (int, int) {
    (cube.front_corner_b.x + cube_depth(cube).0, cube.front_corner_b.y + cube_depth(cube).1)
}

/// The rectangle of the front face, in color `c`.
pub open spec fn cube_front_rect(cube: Cube, c: Color) -> Rectangle {
    Rectangle {
        corner_a: cube.front_corner_a,
        corner_b: cube.front_corner_b,
        corner_c: Point { x: cube.front_corner_a.x, y: cube.front_corner_b.y },
        corner_d: Point { x: cube.front_corner_b.x, y: cube.front_corner_a.y },
        rect_color: c,
    }
}

/// The rectangle of the derived back face, in color `c`.
pub open spec fn cube_back_rect(cube: Cube, c: Color) -> Rectangle {
    let ba = cube_back_a(cube);
    let bb = cube_back_b(cube);
    Rectangle {
        corner_a: Point { x: ba.0 as i32, y: ba.1 as i32 },
        corner_b: Point { x: bb.0 as i32, y: bb.1 as i32 },
        corner_c: Point { x: ba.0 as i32, y: bb.1 as i32 },
        corner_d: Point { x: bb.0 as i32, y: ba.1 as i32 },
        rect_color: c,
    }
}

/// The pixel writes of one cuboid draw in color `c`: the front
/// rectangle, the back rectangle, then the four connecting edges
/// between corresponding corners.
pub open spec fn cube_pixels(cube: Cube, c: Color) -> Seq<PixelWrite> {
    let fr = cube_front_rect(cube, c);
    let br = cube_back_rect(cube, c);
    rect_pixels(fr, c) + rect_pixels(br, c) + line_pixels(fr.corner_a, br.corner_a, c)
        + line_pixels(fr.corner_b, br.corner_b, c) + line_pixels(fr.corner_c, br.corner_c, c)
        + line_pixels(fr.corner_d, br.corner_d, c)
}

impl Cube {
    /// A cuboid from the two opposite corners of its front face.
    pub fn new(first_point: &Point, second_point: &Point) -> (cube: Cube)
        ensures
            cube == (Cube { front_corner_a: *first_point, front_corner_b: *second_point }),
    {
        Cube { front_corner_a: *first_point, front_corner_b: *second_point }
    }
}

impl Drawable for Cube {
    /// The derived back corners stay within coordinate range: a
    /// machine limit, not a geometric one.
    open spec fn fits(&self) -> bool {
        &&& i32::MIN <= cube_back_a(*self).0 <= i32::MAX
        &&& i32::MIN <= cube_back_a(*self).1 <= i32::MAX
        &&& i32::MIN <= cube_back_b(*self).0 <= i32::MAX
        &&& i32::MIN <= cube_back_b(*self).1 <= i32::MAX
    }

    open spec fn pixels(&self, c: Color) -> Seq<PixelWrite> {
        cube_pixels(*self, c)
    }

    /// Drawing a cuboid draws its front and back rectangles and the
    /// four connecting edges, all in one random opaque color.
    #[verifier::rlimit(100)]
    fn draw<D: Displayable>(&self, canvas: &mut D)
        ensures
            exists|c: Color|
                c.a == 255 && final(canvas).writes() == old(canvas).writes()
                    + #[trigger] self.pixels(c),
    {
        let ghost entry = canvas.writes();
        let cube_color = self.color();
        let front_a = self.front_corner_a;
        let front_b = self.front_corner_b;
        let depth_x: i64 = div_trunc_i64(front_a.x as i64 - front_b.x as i64, 2);
        let depth_y: i64 = -div_trunc_i64(front_a.y as i64 - front_b.y as i64, 2);
        let back_a = Point::new((front_a.x as i64 + depth_x) as i32, (front_a.y as i64 + depth_y) as i32);
        let back_b = Point::new((front_b.x as i64 + depth_x) as i32, (front_b.y as i64 + depth_y) as i32);
        let mut front_face = Rectangle::new(&front_a, &front_b);
        let mut back_face = Rectangle::new(&back_a, &back_b);
        front_face.rect_color = cube_color;
        back_face.rect_color = cube_color;
        proof {
            assert(front_face == cube_front_rect(*self, cube_color));
            assert(back_face == cube_back_rect(*self, cube_color));
        }
        front_face.draw(canvas);
        back_face.draw(canvas);
        draw_line(canvas, &front_face.corner_a, &back_face.corner_a, cube_color);
        draw_line(canvas, &front_face.corner_b, &back_face.corner_b, cube_color);
        draw_line(canvas, &front_face.corner_c, &back_face.corner_c, cube_color);
        draw_line(canvas, &front_face.corner_d, &back_face.corner_d, cube_color);
        let ghost done = canvas.writes();
        proof {
            assert(done =~= entry + cube_pixels(*self, cube_color));
            assert(self.pixels(cube_color) == cube_pixels(*self, cube_color));
        }
    }
}

/// Law: every pixel write of one cuboid draw carries the one color of
/// that draw call.
pub proof fn lemma_cube_one_color(cube: Cube, c: Color, k: int)
    requires
        0 <= k < cube_pixels(cube, c).len(),
    ensures
        cube_pixels(cube, c)[k].color == c,
{
}

} // verus!
