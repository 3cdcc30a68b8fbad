//! Construction-time error conditions.  Rasterization itself is total
//! and never fails once inputs are valid.

use vstd::prelude::*;

verus! {

/// The two error conditions of the core.  Both are surfaced
/// immediately at construction time; there is no recovery inside the
/// core.
#[derive(Clone, Copy, Debug, PartialEq, Eq, Structural)]
pub enum ShapeError {
    /// A random request was given a degenerate or inverted sampling
    /// range.
    InvalidBounds,
    /// A circle was requested with a negative radius.
    InvalidRadius,
}

} // verus!
