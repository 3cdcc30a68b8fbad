//! The circle rasterizer: midpoint scan-conversion with 8-fold octant
//! symmetry.  Only one octant is computed explicitly; every emitted
//! column is reflected eight ways about the center.

use vstd::prelude::*;

use crate::canvas::Displayable;
use crate::canvas::PixelWrite;
use crate::canvas::display_writes;
use crate::color::Color;
use crate::drawable::Drawable;
use crate::error::ShapeError;
use crate::point::Point;
use crate::rng::rand_int_range;

verus! {

/// The scaled midpoint test value `x^2 + (y + 1/2)^2 - r^2 - 1/4`:
/// positive exactly when the midpoint between rows `y` and `y + 1`
/// lies strictly outside the circle of radius `r`.
pub open spec fn circle_f(r: int, x: int, y: int) -> int {
    x * x + y * y + y - r * r
}

/// Row of the explicitly computed octant at column `x`: it starts at
/// `-r` and steps one row toward 0 whenever the midpoint leaves the
/// circle.
pub open spec fn oct_y(r: int, x: int) -> int
    decreases x,
{
    if x <= 0 {
        -r
    } else if circle_f(r, x, oct_y(r, x - 1)) > 0 {
        oct_y(r, x - 1) + 1
    } else {
        oct_y(r, x - 1)
    }
}

/// Least column at or after `x` at which the octant loop stops,
/// having met its diagonal.
pub open spec fn oct_n_from(r: int, x: int) -> int
    decreases r + 1 - x,
{
    if x < 1 || x > r {
        x
    } else if x >= -oct_y(r, x - 1) {
        x
    } else {
        oct_n_from(r, x + 1)
    }
}

/// Number of columns the octant loop of radius `r` emits.
pub open spec fn oct_n(r: int) -> int {
    if r <= 0 {
        0
    } else {
        oct_n_from(r, 1)
    }
}

/// The eight symmetric reflections of octant point `(x, y)` about the
/// center, in emission order.
pub open spec fn ring8(x: int, y: int, j: int) -> (int, int) {
    if j == 0 {
        (x, y)
    } else if j == 1 {
        (-x, y)
    } else if j == 2 {
        (x, -y)
    } else if j == 3 {
        (-x, -y)
    } else if j == 4 {
        (y, x)
    } else if j == 5 {
        (y, -x)
    } else if j == 6 {
        (-y, x)
    } else {
        (-y, -x)
    }
}

/// Offset, relative to the center, of the `k`-th pixel write of a
/// circle draw with positive radius.
pub open spec fn circle_offset(r: int, k: int) -> (int, int) {
    ring8(k / 8, oct_y(r, k / 8), k % 8)
}

/// The pixel writes of one circle draw: for radius 0 the center point
/// alone, otherwise the eight reflections of every octant column.
pub open spec fn circle_pixels(center: Point, r: int, c: Color) -> Seq<PixelWrite> {
    if r <= 0 {
        seq![PixelWrite { x: center.x, y: center.y, color: c }]
    } else {
        Seq::new(
            (8 * oct_n(r)) as nat,
            |k: int|
                PixelWrite {
                    x: (center.x + circle_offset(r, k).0) as i32,
                    y: (center.y + circle_offset(r, k).1) as i32,
                    color: c,
                },
        )
    }
}

/// Division and remainder of `8 * q + j` by 8, for one reflection
/// index `j`.
proof fn lemma_split8(q: int, j: int)
    requires
        0 <= j < 8,
    ensures
        (8 * q + j) / 8 == q,
        (8 * q + j) % 8 == j,
{
    vstd::arithmetic::div_mod::lemma_fundamental_div_mod_converse(8 * q + j, 8, q, j);
}

/// The octant row never drops below `-r`: it starts at `-r` and only
/// ever steps up by one.
proof fn lemma_oct_y_lower(r: int, x: int)
    requires
        r >= 1,
    ensures
        oct_y(r, x) >= -r,
        oct_y(r, x) >= oct_y(r, x - 1),
    decreases x,
{
    if x <= 0 {
    } else {
        lemma_oct_y_lower(r, x - 1);
    }
}

/// If the loop ran exactly for the columns below `n` and stopped at
/// `n`, then `n` is the octant column count.
proof fn lemma_oct_n_from_eq(r: int, lo: int, n: int)
    requires
        r >= 1,
        1 <= lo <= n,
        forall|x1: int| lo <= x1 < n ==> x1 < -#[trigger] oct_y(r, x1 - 1),
        n >= -oct_y(r, n - 1),
    ensures
        oct_n_from(r, lo) == n,
    decreases n - lo,
{
    if lo == n {
    } else {
        assert(lo < -oct_y(r, lo - 1));
        lemma_oct_y_lower(r, lo - 1);
        assert(lo <= r);
        lemma_oct_n_from_eq(r, lo + 1, n);
    }
}

/// Compute every pixel write of the discrete circle of the given
/// center, radius and color, by the midpoint octant method.  The
/// coordinate-fit preconditions are machine limits: every emitted
/// coordinate lies within `radius` of the center.
pub fn circle_points(center: Point, radius: i32, color: Color) -> (out: Vec<PixelWrite>)
    requires
        radius >= 0,
        i32::MIN <= center.x - radius,
        center.x + radius <= i32::MAX,
        i32::MIN <= center.y - radius,
        center.y + radius <= i32::MAX,
    ensures
        out@ == circle_pixels(center, radius as int, color),
{
    let mut out: Vec<PixelWrite> = Vec::new();
    if radius == 0 {
        out.push(PixelWrite { x: center.x, y: center.y, color });
        proof {
            assert(out@ =~= circle_pixels(center, 0, color));
        }
        return out;
    }
    let r64: i64 = radius as i64;
    let cx: i64 = center.x as i64;
    let cy: i64 = center.y as i64;
    let ghost ri: int = radius as int;
    let mut x: i64 = 0;
    let mut y: i64 = -r64;
    let mut p: i64 = -r64;
    proof {
        assert(circle_f(ri, 0, -ri) == -ri) by (nonlinear_arith);
        assert(circle_f(ri, -1, -ri) == 1 - ri) by (nonlinear_arith);
        assert(circle_f(ri, -1, -ri - 1) == ri + 1) by (nonlinear_arith);
    }
    while x < -y
        invariant
            1 <= r64 <= 0x8000_0000,
            r64 as int == ri,
            cx as int == center.x as int,
            cy as int == center.y as int,
            i32::MIN <= center.x - ri,
            center.x + ri <= i32::MAX,
            i32::MIN <= center.y - ri,
            center.y + ri <= i32::MAX,
            0 <= x <= r64,
            -r64 <= y <= 0,
            y as int == oct_y(ri, x as int - 1),
            p as int == circle_f(ri, x as int, y as int),
            circle_f(ri, x as int - 1, y as int) <= 0,
            circle_f(ri, x as int - 1, y as int - 1) > 0,
            out@.len() == 8 * (x as int),
            forall|k: int|
                0 <= k < out@.len() ==> #[trigger] out@[k] == (PixelWrite {
                    x: (center.x + circle_offset(ri, k).0) as i32,
                    y: (center.y + circle_offset(ri, k).1) as i32,
                    color: color,
                }),
            forall|x1: int| 0 <= x1 < x as int ==> x1 < -#[trigger] oct_y(ri, x1 - 1),
        decreases r64 - x,
    {
        let ghost xi: int = x as int;
        let ghost yh: int = y as int;
        let ghost ph: int = p as int;
        proof {
            // The finite differences of the midpoint value, and the
            // bounds on p at the head that keep the updates in range.
            assert(circle_f(ri, xi, yh) == circle_f(ri, xi - 1, yh) + 2 * xi - 1)
                by (nonlinear_arith);
            assert(circle_f(ri, xi, yh) == circle_f(ri, xi, yh - 1) + 2 * yh) by (nonlinear_arith);
            assert(circle_f(ri, xi, yh - 1) == circle_f(ri, xi - 1, yh - 1) + 2 * xi - 1)
                by (nonlinear_arith);
            assert(circle_f(ri, xi, yh + 1) == circle_f(ri, xi, yh) + 2 * yh + 2)
                by (nonlinear_arith);
            assert(circle_f(ri, xi + 1, yh + 1) == circle_f(ri, xi, yh) + 2 * (xi + yh) + 3)
                by (nonlinear_arith);
            assert(circle_f(ri, xi + 1, yh) == circle_f(ri, xi, yh) + 2 * xi + 1)
                by (nonlinear_arith);
            assert(-2 * ri <= ph <= 2 * ri - 1);
        }
        if p > 0 {
            y = y + 1;
            p = p + 2 * (x + y) + 1;
        } else {
            p = p + 2 * x + 1;
        }
        let ghost yi: int = y as int;
        proof {
            // The updated row is the octant row of this column, and it
            // satisfies the midpoint characterization at this column.
            assert(yi == oct_y(ri, xi));
            if ph > 0 {
                assert(circle_f(ri, xi, yi) <= 2 * (xi + yh) + 1);
                assert(circle_f(ri, xi, yi) <= 0);
                assert(circle_f(ri, xi, yi - 1) == ph);
            } else {
                assert(circle_f(ri, xi, yi) == ph);
                if xi == 0 {
                    assert(yh == -ri);
                    assert(circle_f(ri, 0, -ri - 1) == ri) by (nonlinear_arith);
                } else {
                    assert(circle_f(ri, xi, yi - 1) == circle_f(ri, xi - 1, yh - 1) + 2 * xi - 1);
                }
            }
            assert(circle_f(ri, xi, yi) <= 0);
            assert(circle_f(ri, xi, yi - 1) > 0);
        }
        out.push(PixelWrite { x: (cx + x) as i32, y: (cy + y) as i32, color });
        out.push(PixelWrite { x: (cx - x) as i32, y: (cy + y) as i32, color });
        out.push(PixelWrite { x: (cx + x) as i32, y: (cy - y) as i32, color });
        out.push(PixelWrite { x: (cx - x) as i32, y: (cy - y) as i32, color });
        out.push(PixelWrite { x: (cx + y) as i32, y: (cy + x) as i32, color });
        out.push(PixelWrite { x: (cx + y) as i32, y: (cy - x) as i32, color });
        out.push(PixelWrite { x: (cx - y) as i32, y: (cy + x) as i32, color });
        out.push(PixelWrite { x: (cx - y) as i32, y: (cy - x) as i32, color });
        proof {
            lemma_split8(xi, 0);
            lemma_split8(xi, 1);
            lemma_split8(xi, 2);
            lemma_split8(xi, 3);
            lemma_split8(xi, 4);
            lemma_split8(xi, 5);
            lemma_split8(xi, 6);
            lemma_split8(xi, 7);
        }
        x = x + 1;
    }
    proof {
        let xe: int = x as int;
        assert(xe >= 1);
        lemma_oct_n_from_eq(ri, 1, xe);
        assert(out@ =~= circle_pixels(center, ri, color));
    }
    out
}

/// A circle: a center and a non-negative radius.
#[derive(Clone, Copy, Debug, PartialEq, Eq, Structural)]
pub struct Circle {
    pub center: Point,
    pub radius: i32,
}

impl Circle {
    /// A circle from its center and radius.  A negative radius is
    /// reported, never clamped.
    pub fn new(center_pos: Point, radius_val: i32) -> (res: Result<Circle, ShapeError>)
        ensures
            res is Ok <==> radius_val >= 0,
            res is Err ==> res->Err_0 == ShapeError::InvalidRadius,
            res is Ok ==> res->Ok_0 == (Circle { center: center_pos, radius: radius_val }),
    {
        if radius_val >= 0 {
            Ok(Circle { center: center_pos, radius: radius_val })
        } else {
            Err(ShapeError::InvalidRadius)
        }
    }

    /// A circle with a uniformly random center inside the canvas and a
    /// uniformly random radius below half the smaller canvas
    /// dimension.  A degenerate canvas is reported, never sampled.
    pub fn random(canvas_width: i32, canvas_height: i32) -> (res: Result<Circle, ShapeError>)
        ensures
            res is Ok <==> (canvas_width > 1 && canvas_height > 1),
            res is Err ==> res->Err_0 == ShapeError::InvalidBounds,
            res is Ok ==> {
                let c = res->Ok_0;
                &&& 1 <= c.center.x < canvas_width
                &&& 1 <= c.center.y < canvas_height
                &&& 0 <= c.radius
                &&& 2 * c.radius < vstd::math::min(canvas_width as int, canvas_height as int)
            },
    {
        let random_point = match Point::random(canvas_width, canvas_height) {
            Ok(pt) => pt,
            Err(e) => {
                return Err(e);
            },
        };
        let smaller = if canvas_width < canvas_height {
            canvas_width
        } else {
            canvas_height
        };
        let half = smaller / 2;
        let random_radius = rand_int_range(0, half);
        proof {
            vstd::arithmetic::div_mod::lemma_fundamental_div_mod(smaller as int, 2);
            vstd::arithmetic::div_mod::lemma_mod_bound(smaller as int, 2);
        }
        match Circle::new(random_point, random_radius) {
            Ok(c) => Ok(c),
            Err(_) => Err(ShapeError::InvalidBounds),
        }
    }
}

impl Drawable for Circle {
    /// The radius is non-negative and the circle's bounding square
    /// stays within coordinate range.
    open spec fn fits(&self) -> bool {
        &&& self.radius >= 0
        &&& i32::MIN <= self.center.x - self.radius
        &&& self.center.x + self.radius <= i32::MAX
        &&& i32::MIN <= self.center.y - self.radius
        &&& self.center.y + self.radius <= i32::MAX
    }

    open spec fn pixels(&self, c: Color) -> Seq<PixelWrite> {
        circle_pixels(self.center, self.radius as int, c)
    }

    /// Drawing a circle emits exactly the midpoint-octant pixels of
    /// its boundary, all in one random opaque color.
    fn draw<D: Displayable>(&self, canvas: &mut D)
        ensures
            exists|c: Color|
                c.a == 255 && final(canvas).writes() == old(canvas).writes()
                    + #[trigger] self.pixels(c),
    {
        let draw_color = self.color();
        let pts = circle_points(self.center, self.radius, draw_color);
        display_writes(canvas, &pts);
        proof {
            assert(self.pixels(draw_color) == circle_pixels(
                self.center,
                self.radius as int,
                draw_color,
            ));
        }
    }
}

/// One reflection step: every ring of eight reflections is closed
/// under flipping either coordinate's sign and under swapping the two
/// coordinates.
proof fn lemma_ring8_mirror(x: int, y: int, j: int)
    requires
        0 <= j < 8,
    ensures
        exists|j1: int|
            0 <= j1 < 8 && #[trigger] ring8(x, y, j1) == (-ring8(x, y, j).0, ring8(x, y, j).1),
        exists|j1: int|
            0 <= j1 < 8 && #[trigger] ring8(x, y, j1) == (ring8(x, y, j).0, -ring8(x, y, j).1),
        exists|j1: int|
            0 <= j1 < 8 && #[trigger] ring8(x, y, j1) == (ring8(x, y, j).1, ring8(x, y, j).0),
{
    let jx = if j == 0 {
        1int
    } else if j == 1 {
        0int
    } else if j == 2 {
        3int
    } else if j == 3 {
        2int
    } else if j == 4 {
        6int
    } else if j == 5 {
        7int
    } else if j == 6 {
        4int
    } else {
        5int
    };
    assert(ring8(x, y, jx) == (-ring8(x, y, j).0, ring8(x, y, j).1));
    let jy = if j == 0 {
        2int
    } else if j == 1 {
        3int
    } else if j == 2 {
        0int
    } else if j == 3 {
        1int
    } else if j == 4 {
        5int
    } else if j == 5 {
        4int
    } else if j == 6 {
        7int
    } else {
        6int
    };
    assert(ring8(x, y, jy) == (ring8(x, y, j).0, -ring8(x, y, j).1));
    let js = if j == 0 {
        4int
    } else if j == 1 {
        5int
    } else if j == 2 {
        6int
    } else if j == 3 {
        7int
    } else if j == 4 {
        0int
    } else if j == 5 {
        1int
    } else if j == 6 {
        2int
    } else {
        3int
    };
    assert(ring8(x, y, js) == (ring8(x, y, j).1, ring8(x, y, j).0));
}

/// The set of offsets (relative to the center) that a circle draw of
/// radius `r >= 1` emits.
pub open spec fn circle_offset_set(r: int) -> Set<(int, int)> {
    Set::new(|o: (int, int)| exists|k: int| 0 <= k < 8 * oct_n(r) && circle_offset(r, k) == o)
}

/// If an offset is emitted, so are its three elementary reflections.
proof fn lemma_circle_mirror_once(r: int, u: int, v: int)
    requires
        r >= 1,
        circle_offset_set(r).contains((u, v)),
    ensures
        circle_offset_set(r).contains((-u, v)),
        circle_offset_set(r).contains((u, -v)),
        circle_offset_set(r).contains((v, u)),
{
    let k = choose|k: int| 0 <= k < 8 * oct_n(r) && circle_offset(r, k) == (u, v);
    let q = k / 8;
    let j = k % 8;
    vstd::arithmetic::div_mod::lemma_fundamental_div_mod(k, 8);
    vstd::arithmetic::div_mod::lemma_mod_bound(k, 8);
    let cy = oct_y(r, q);
    lemma_ring8_mirror(q, cy, j);
    let jx = choose|j1: int| 0 <= j1 < 8 && #[trigger] ring8(q, cy, j1) == (-u, v);
    let jy = choose|j1: int| 0 <= j1 < 8 && #[trigger] ring8(q, cy, j1) == (u, -v);
    let js = choose|j1: int| 0 <= j1 < 8 && #[trigger] ring8(q, cy, j1) == (v, u);
    lemma_split8(q, jx);
    lemma_split8(q, jy);
    lemma_split8(q, js);
    assert(circle_offset(r, 8 * q + jx) == (-u, v));
    assert(circle_offset(r, 8 * q + jy) == (u, -v));
    assert(circle_offset(r, 8 * q + js) == (v, u));
}

/// Law: for every radius `r >= 1`, the set of offsets the circle
/// rasterizer emits is symmetric under the eight reflections
/// `(+-x, +-y)` and `(+-y, +-x)` about the center.
pub proof fn lemma_circle_symmetry(r: int, u: int, v: int)
    requires
        r >= 1,
    ensures
        circle_offset_set(r).contains((u, v)) <==> circle_offset_set(r).contains((-u, v)),
        circle_offset_set(r).contains((u, v)) <==> circle_offset_set(r).contains((u, -v)),
        circle_offset_set(r).contains((u, v)) <==> circle_offset_set(r).contains((v, u)),
{
    if circle_offset_set(r).contains((u, v)) {
        lemma_circle_mirror_once(r, u, v);
    }
    if circle_offset_set(r).contains((-u, v)) {
        lemma_circle_mirror_once(r, -u, v);
    }
    if circle_offset_set(r).contains((u, -v)) {
        lemma_circle_mirror_once(r, u, -v);
    }
    if circle_offset_set(r).contains((v, u)) {
        lemma_circle_mirror_once(r, v, u);
    }
}

/// Law: two draws of the same circle differ only in color, never in
/// geometry: pixel for pixel, the coordinates are the same whatever
/// colors the draws chose.
pub proof fn lemma_circle_color_independent(center: Point, r: int, c1: Color, c2: Color, k: int)
    requires
        0 <= k < circle_pixels(center, r, c1).len(),
    ensures
        circle_pixels(center, r, c1).len() == circle_pixels(center, r, c2).len(),
        circle_pixels(center, r, c1)[k].x == circle_pixels(center, r, c2)[k].x,
        circle_pixels(center, r, c1)[k].y == circle_pixels(center, r, c2)[k].y,
{
}

/// Law: a circle of radius 0 emits exactly the center point, once.
pub proof fn lemma_circle_degenerate(center: Point, c: Color)
    ensures
        circle_pixels(center, 0, c) == seq![
            PixelWrite { x: center.x, y: center.y, color: c },
        ],
{
}

} // verus!
