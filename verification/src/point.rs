//! The basic 2-D integer coordinate.

use vstd::prelude::*;

use crate::canvas::Displayable;
use crate::canvas::PixelWrite;
use crate::color::Color;
use crate::drawable::Drawable;
use crate::error::ShapeError;
use crate::rng::rand_int_range;

verus! {

/// A 2-D integer coordinate.  Immutable value type: a point has no
/// identity beyond its coordinates.
#[derive(Clone, Copy, Debug, PartialEq, Eq, Structural)]
pub struct Point {
    pub x: i32,
    pub y: i32,
}

impl Point {
    /// Construct a point from its two coordinates.
    pub fn new(pos_x: i32, pos_y: i32) -> (p: Self)
        ensures
            p.x == pos_x,
            p.y == pos_y,
    {
        Self { x: pos_x, y: pos_y }
    }

    /// A uniformly random point with each coordinate drawn
    /// independently from the half-open range `[1, bound)`, where the
    /// bounds are the canvas dimensions.  A degenerate range (either
    /// bound at most 1) is reported, never sampled.
    pub fn random(canvas_width: i32, canvas_height: i32) -> (res: Result<Point, ShapeError>)
        ensures
            res is Ok <==> (canvas_width > 1 && canvas_height > 1),
            res is Err ==> res->Err_0 == ShapeError::InvalidBounds,
            res is Ok ==> 1 <= res->Ok_0.x < canvas_width && 1 <= res->Ok_0.y < canvas_height,
    {
        if canvas_width > 1 && canvas_height > 1 {
            let rand_x = rand_int_range(1, canvas_width);
            let rand_y = rand_int_range(1, canvas_height);
            Ok(Self::new(rand_x, rand_y))
        } else {
            Err(ShapeError::InvalidBounds)
        }
    }
}

impl Drawable for Point {
    open spec fn fits(&self) -> bool {
        true
    }

    open spec fn pixels(&self, c: Color) -> Seq<PixelWrite> {
        seq![PixelWrite { x: self.x, y: self.y, color: c }]
    }

    /// Drawing a point sets its single pixel, in a random opaque
    /// color.
    fn draw<D: Displayable>(&self, canvas: &mut D)
        ensures
            exists|c: Color|
                c.a == 255 && final(canvas).writes() == old(canvas).writes()
                    + #[trigger] self.pixels(c),
    {
        let ghost entry = canvas.writes();
        let draw_color = self.color();
        canvas.display(self.x, self.y, draw_color);
        proof {
            assert(entry.push((PixelWrite { x: self.x, y: self.y, color: draw_color })) =~= entry
                + self.pixels(draw_color));
        }
    }
}

} // verus!
