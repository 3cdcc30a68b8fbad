//! The rectangle: two opposite corners given, the other two derived,
//! drawn as a closed quadrilateral of four lines in one color.

use vstd::prelude::*;

use crate::canvas::Displayable;
use crate::canvas::PixelWrite;
use crate::color::Color;
use crate::drawable::Drawable;
use crate::line::draw_line;
use crate::line::line_pixels;
use crate::point::Point;

verus! {

/// A rectangle: corners `a` and `b` are the two given opposite
/// corners, `c` and `d` the derived ones, and `rect_color` the single
/// color every edge is drawn in (white unless overridden).
#[derive(Clone, Copy, Debug, PartialEq, Eq, Structural)]
pub struct Rectangle {
    pub corner_a: Point,
    pub corner_b: Point,
    pub corner_c: Point,
    pub corner_d: Point,
    pub rect_color: Color,
}

/// The pixel writes of one rectangle draw in color `c`: the four
/// edges `a -> c -> b -> d -> a`, each a discrete line.
pub open spec fn rect_pixels(rect: Rectangle, c: Color) -> Seq<PixelWrite> {
    line_pixels(rect.corner_a, rect.corner_c, c) + line_pixels(rect.corner_c, rect.corner_b, c)
        + line_pixels(rect.corner_b, rect.corner_d, c) + line_pixels(
        rect.corner_d,
        rect.corner_a,
        c,
    )
}

impl Rectangle {
    /// A rectangle from two opposite corners; the two missing corners
    /// are derived, and the color defaults to opaque white.
    pub fn new(first_corner: &Point, second_corner: &Point) -> (rect: Rectangle)
        ensures
            rect.corner_a == *first_corner,
            rect.corner_b == *second_corner,
            rect.corner_c == (Point { x: first_corner.x, y: second_corner.y }),
            rect.corner_d == (Point { x: second_corner.x, y: first_corner.y }),
            rect.rect_color == (Color { r: 255, g: 255, b: 255, a: 255 }),
    {
        Rectangle {
            corner_a: *first_corner,
            corner_b: *second_corner,
            corner_c: Point { x: first_corner.x, y: second_corner.y },
            corner_d: Point { x: second_corner.x, y: first_corner.y },
            rect_color: Color::rgb(255, 255, 255),
        }
    }
}

impl Drawable for Rectangle {
    open spec fn fits(&self) -> bool {
        true
    }

    open spec fn pixels(&self, c: Color) -> Seq<PixelWrite> {
        rect_pixels(*self, self.rect_color)
    }

    /// Drawing a rectangle draws its four edges `a -> c -> b -> d ->
    /// a`, all in its stored color.
    fn draw<D: Displayable>(&self, canvas: &mut D)
        ensures
            final(canvas).writes() == old(canvas).writes() + self.pixels(self.rect_color),
    {
        let ghost entry = canvas.writes();
        draw_line(canvas, &self.corner_a, &self.corner_c, self.rect_color);
        draw_line(canvas, &self.corner_c, &self.corner_b, self.rect_color);
        draw_line(canvas, &self.corner_b, &self.corner_d, self.rect_color);
        draw_line(canvas, &self.corner_d, &self.corner_a, self.rect_color);
        let ghost done = canvas.writes();
        proof {
            assert(done =~= entry + rect_pixels(*self, self.rect_color));
            assert(self.pixels(self.rect_color) == rect_pixels(*self, self.rect_color));
        }
    }
}

} // verus!
