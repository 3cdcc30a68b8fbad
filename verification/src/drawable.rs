//! The shape capability: everything drawable renders itself onto a
//! canvas capability by emitting pixel-set calls.

use vstd::prelude::*;

use crate::canvas::Displayable;
use crate::canvas::PixelWrite;
use crate::color::Color;
use crate::color::random_color;

verus! {

/// A drawable shape.  `pixels(c)` is the exact sequence of pixel-set
/// calls one `draw` emits when it renders in color `c`; a shape with a
/// stored color ignores `c`.  `draw` appends exactly that sequence to
/// the canvas, for the color it chose; `fits` is the coordinate-fit
/// condition (a machine limit, not a geometric one) under which the
/// shape's arithmetic stays in range.
pub trait Drawable {
    /// The coordinate-fit condition under which `draw` may be called.
    spec fn fits(&self) -> bool;

    /// The pixel writes one `draw` call emits when rendering in `c`.
    spec fn pixels(&self, c: Color) -> Seq<PixelWrite>;

    /// Render self onto the canvas: append this shape's pixel writes,
    /// in some color, to the canvas log.  Never reads the canvas back.
    fn draw<D: Displayable>(&self, canvas: &mut D)
        requires
            self.fits(),
        ensures
            exists|c: Color| final(canvas).writes() == old(canvas).writes() + self.pixels(c),
    ;

    /// Produce a color for one draw call; by default a uniformly
    /// random opaque color.
    fn color(&self) -> (c: Color)
        ensures
            c.a == 255,
    {
        random_color()
    }
}

} // verus!
