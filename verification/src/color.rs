//! RGBA colors as plain byte quadruples.

use vstd::prelude::*;

use crate::rng::rand_int_range;

verus! {

/// An RGBA color; each channel is one byte.  Value type with no
/// identity beyond its channels.
#[derive(Clone, Copy, Debug, PartialEq, Eq, Structural)]
pub struct Color {
    pub r: u8,
    pub g: u8,
    pub b: u8,
    pub a: u8,
}

impl Color {
    /// An opaque color from its three channels; alpha is fixed at 255.
    pub fn rgb(red: u8, green: u8, blue: u8) -> (c: Color)
        ensures
            c == (Color { r: red, g: green, b: blue, a: 255 }),
    {
        Color { r: red, g: green, b: blue, a: 255 }
    }

    /// Opaque white, the fixed default color of some shapes.
    pub fn white() -> (c: Color)
        ensures
            c == (Color { r: 255, g: 255, b: 255, a: 255 }),
    {
        Color::rgb(255, 255, 255)
    }
}

/// A uniformly random opaque color: each of the three color channels
/// is drawn independently over the full byte range, alpha is 255.
pub fn random_color() -> (c: Color)
    ensures
        c.a == 255,
{
    let red = rand_int_range(0, 256);
    let green = rand_int_range(0, 256);
    let blue = rand_int_range(0, 256);
    Color::rgb(red as u8, green as u8, blue as u8)
}

} // verus!
