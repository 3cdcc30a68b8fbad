//! The canvas capability: the one external interface the core draws
//! through, plus a verified in-memory canvas for inspecting output.

use vstd::prelude::*;

use crate::color::Color;

verus! {

/// One pixel-set call: a coordinate pair and the color written there.
#[derive(Clone, Copy, Debug, PartialEq, Eq, Structural)]
pub struct PixelWrite {
    pub x: i32,
    pub y: i32,
    pub color: Color,
}

/// The canvas capability.  A canvas accepts pixel writes and promises
/// nothing about bounds: out-of-range coordinates are its concern.
/// `writes` is the abstract log of every pixel-set call received, in
/// order; `display` appends exactly one entry to it.
pub trait Displayable {
    /// The pixel-set calls received so far, oldest first.
    spec fn writes(&self) -> Seq<PixelWrite>;

    /// Set pixel `(coord_x, coord_y)` to `pixel_color`.
    fn display(&mut self, coord_x: i32, coord_y: i32, pixel_color: Color)
        ensures
            final(self).writes() == old(self).writes().push(
                (PixelWrite { x: coord_x, y: coord_y, color: pixel_color }),
            ),
    ;
}

/// An in-memory canvas: a plain log of the pixel writes it received.
/// It never clips and never de-duplicates.
pub struct Buffer {
    pub written: Vec<PixelWrite>,
}

impl Buffer {
    /// An empty canvas.
    pub fn new() -> (buf: Buffer)
        ensures
            buf.writes() == Seq::<PixelWrite>::empty(),
    {
        Buffer { written: Vec::new() }
    }
}

/// Send a precomputed list of pixel writes to a canvas, in order.
pub fn display_writes<D: Displayable>(image: &mut D, list: &Vec<PixelWrite>)
    ensures
        final(image).writes() == old(image).writes() + list@,
{
    let mut idx: usize = 0;
    while idx < list.len()
        invariant
            idx as int <= list@.len(),
            image.writes() == old(image).writes() + list@.take(idx as int),
        decreases list@.len() - idx as int,
    {
        let w = list[idx];
        image.display(w.x, w.y, w.color);
        idx = idx + 1;
        proof {
            assert(list@.take(idx as int) =~= list@.take(idx as int - 1).push(
                list@[idx as int - 1],
            ));
        }
    }
    proof {
        assert(list@.take(list@.len() as int) =~= list@);
    }
}

impl Displayable for Buffer {
    open spec fn writes(&self) -> Seq<PixelWrite> {
        self.written@
    }

    fn display(&mut self, coord_x: i32, coord_y: i32, pixel_color: Color) {
        self.written.push(PixelWrite { x: coord_x, y: coord_y, color: pixel_color });
    }
}

} // verus!
