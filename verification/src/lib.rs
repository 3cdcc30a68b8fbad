//! A small vector-to-raster rendering core.
//!
//! Shapes described by integer coordinates (points, lines, circles,
//! rectangles, triangles, pentagons, cuboids) are scan-converted into
//! discrete pixel writes on an abstract canvas capability, using only
//! integer arithmetic.  Every rasterizer carries a contract that pins
//! down exactly which pixels it emits.

mod canvas;
mod circle;
mod color;
mod cube;
mod drawable;
mod error;
mod line;
mod num;
mod pentagon;
mod point;
mod rectangle;
mod rng;
mod triangle;

pub use canvas::Buffer;
pub use canvas::Displayable;
pub use canvas::PixelWrite;
pub use canvas::display_writes;
pub use circle::Circle;
pub use circle::circle_points;
pub use color::Color;
pub use color::random_color;
pub use cube::Cube;
pub use drawable::Drawable;
pub use error::ShapeError;
pub use line::Line;
pub use line::draw_line;
pub use line::line_points;
pub use num::abs_i;
pub use pentagon::Pentagon;
pub use point::Point;
pub use rectangle::Rectangle;
pub use triangle::Triangle;
