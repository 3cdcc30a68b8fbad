//! The triangle: three vertices, drawn as three edges sharing one
//! fixed color.

use vstd::prelude::*;

use crate::canvas::Displayable;
use crate::canvas::PixelWrite;
use crate::color::Color;
use crate::drawable::Drawable;
use crate::line::draw_line;
use crate::line::line_pixels;
use crate::point::Point;

verus! {

/// A triangle: three vertices, no derived state.
#[derive(Clone, Copy, Debug, PartialEq, Eq, Structural)]
pub struct Triangle {
    pub a: Point,
    pub b: Point,
    pub c: Point,
}

/// The pixel writes of one triangle draw: the edges `a -> c`,
/// `c -> b` and `b -> a`, all in opaque white.
pub open spec fn triangle_pixels(tri: Triangle) -> Seq<PixelWrite> {
    let white = Color { r: 255, g: 255, b: 255, a: 255 };
    line_pixels(tri.a, tri.c, white) + line_pixels(tri.c, tri.b, white) + line_pixels(
        tri.b,
        tri.a,
        white,
    )
}

impl Triangle {
    /// A triangle from references to its three vertices.
    pub fn new(first_vertex: &Point, second_vertex: &Point, third_vertex: &Point) -> (tri: Triangle)
        ensures
            tri == (Triangle { a: *first_vertex, b: *second_vertex, c: *third_vertex }),
    {
        Triangle { a: *first_vertex, b: *second_vertex, c: *third_vertex }
    }
}

impl Drawable for Triangle {
    open spec fn fits(&self) -> bool {
        true
    }

    open spec fn pixels(&self, c: Color) -> Seq<PixelWrite> {
        triangle_pixels(*self)
    }

    /// Drawing a triangle draws its three edges, all in one shared
    /// color (opaque white).
    fn draw<D: Displayable>(&self, canvas: &mut D)
        ensures
            final(canvas).writes() == old(canvas).writes() + self.pixels(
                (Color { r: 255, g: 255, b: 255, a: 255 }),
            ),
    {
        let white = Color::rgb(255, 255, 255);
        let ghost entry = canvas.writes();
        draw_line(canvas, &self.a, &self.c, white);
        draw_line(canvas, &self.c, &self.b, white);
        draw_line(canvas, &self.b, &self.a, white);
        let ghost done = canvas.writes();
        proof {
            assert(done =~= entry + triangle_pixels(*self));
            assert(self.pixels(white) == triangle_pixels(*self));
        }
    }
}

} // verus!
