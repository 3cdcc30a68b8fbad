//! The line rasterizer: an incremental integer decision-variable
//! scan-conversion of the 8-connected discrete segment between two
//! points, together with its exact pixel-level specification.
//!
//! The specification is closed-form rather than algorithmic: pixel `i`
//! advances the major axis by exactly `i` steps, and places the minor
//! axis at the integer nearest to the ideal line (exact halves rounded
//! away from the start), which is what the decision variable computes.

use vstd::prelude::*;

use vstd::math::max;

use crate::canvas::Displayable;
use crate::canvas::PixelWrite;
use crate::color::Color;
use crate::drawable::Drawable;
use crate::error::ShapeError;
use crate::num::abs_i;
use crate::num::lemma_nearest_div_bound;
use crate::num::lemma_nearest_div_exact;
use crate::num::lemma_nearest_div_range;
use crate::num::lemma_nearest_div_unique;
use crate::num::lemma_nearest_div_zero;
use crate::num::nearest_div;
use crate::point::Point;

verus! {

/// Horizontal span of the segment.
pub open spec fn line_adx(a: Point, b: Point) -> int {
    abs_i(b.x - a.x)
}

/// Vertical span of the segment.
pub open spec fn line_ady(a: Point, b: Point) -> int {
    abs_i(b.y - a.y)
}

/// Direction of one step from `from` toward `to`.
pub open spec fn step_sign(from: int, to: int) -> int {
    if from < to {
        1
    } else {
        -1
    }
}

/// Number of pixels on the discrete line from `a` to `b`, endpoints
/// included: one per major-axis step.
pub open spec fn line_len(a: Point, b: Point) -> int {
    1 + max(line_adx(a, b), line_ady(a, b))
}

/// Minor-axis offset (in steps, always non-negative) of pixel `i`:
/// the rounded value of `i * minor_span / major_span`.
pub open spec fn line_minor(a: Point, b: Point, i: int) -> int {
    let adx = line_adx(a, b);
    let ady = line_ady(a, b);
    if adx == 0 && ady == 0 {
        0
    } else if ady <= adx {
        nearest_div(i * ady, adx)
    } else {
        nearest_div(i * adx, ady)
    }
}

/// The `i`-th pixel of the discrete line from `a` to `b`, for
/// `0 <= i < line_len(a, b)`.
pub open spec fn line_pixel(a: Point, b: Point, i: int) -> (int, int) {
    let adx = line_adx(a, b);
    let ady = line_ady(a, b);
    let sx = step_sign(a.x as int, b.x as int);
    let sy = step_sign(a.y as int, b.y as int);
    if adx == 0 && ady == 0 {
        (a.x as int, a.y as int)
    } else if ady <= adx {
        (a.x + i * sx, a.y + sy * line_minor(a, b, i))
    } else {
        (a.x + sx * line_minor(a, b, i), a.y + i * sy)
    }
}

/// The decision variable held by the rasterizer just before it emits
/// pixel `i`.
pub open spec fn line_decision(a: Point, b: Point, i: int) -> int {
    let adx = line_adx(a, b);
    let ady = line_ady(a, b);
    if ady <= adx {
        adx * (line_minor(a, b, i) + 1) - ady * (i + 1)
    } else {
        adx * (i + 1) - ady * (line_minor(a, b, i) + 1)
    }
}

/// The pixel writes of one line draw: every pixel of the discrete
/// line, in order from `a` to `b`, all in color `c`.
pub open spec fn line_pixels(a: Point, b: Point, c: Color) -> Seq<PixelWrite> {
    Seq::new(
        line_len(a, b) as nat,
        |i: int|
            PixelWrite {
                x: line_pixel(a, b, i).0 as i32,
                y: line_pixel(a, b, i).1 as i32,
                color: c,
            },
    )
}

/// Shallow-slope step: when the major axis is x, the x coordinate
/// advances on every step, and the decision value tells whether the
/// minor offset advances.
proof fn lemma_step_shallow(adx: int, ady: int, i: int, q: int)
    requires
        0 < adx,
        0 <= ady <= adx,
        0 <= i,
        q == nearest_div(i * ady, adx),
    ensures
        2 * (adx * (q + 1) - ady * (i + 1)) > -ady,
        2 * (adx * (q + 1) - ady * (i + 1)) <= adx ==> nearest_div((i + 1) * ady, adx) == q + 1,
        2 * (adx * (q + 1) - ady * (i + 1)) > adx ==> nearest_div((i + 1) * ady, adx) == q,
{
    let p2 = 2 * (adx * (q + 1) - ady * (i + 1));
    lemma_nearest_div_bound(i * ady, adx);
    let d2 = 2 * (adx * q - i * ady);
    assert(p2 == d2 + 2 * adx - 2 * ady) by (nonlinear_arith)
        requires
            p2 == 2 * (adx * (q + 1) - ady * (i + 1)),
            d2 == 2 * (adx * q - i * ady),
    ;
    assert(p2 > -ady);
    if p2 <= adx {
        assert(-adx < 2 * (adx * (q + 1) - (i + 1) * ady) <= adx) by (nonlinear_arith)
            requires
                0 < adx,
                0 <= ady <= adx,
                p2 == d2 + 2 * adx - 2 * ady,
                -adx < d2 <= adx,
                p2 <= adx,
                p2 == 2 * (adx * (q + 1) - ady * (i + 1)),
                d2 == 2 * (adx * q - i * ady),
        ;
        lemma_nearest_div_unique((i + 1) * ady, adx, q + 1);
    } else {
        assert(-adx < 2 * (adx * q - (i + 1) * ady) <= adx) by (nonlinear_arith)
            requires
                0 < adx,
                0 <= ady <= adx,
                p2 == d2 + 2 * adx - 2 * ady,
                -adx < d2 <= adx,
                p2 > adx,
                d2 == 2 * (adx * q - i * ady),
        ;
        lemma_nearest_div_unique((i + 1) * ady, adx, q);
    }
}

/// Steep-slope step: when the major axis is y, the y coordinate
/// advances on every step, and the decision value tells whether the
/// minor offset advances.
proof fn lemma_step_steep(adx: int, ady: int, i: int, q: int)
    requires
        0 <= adx < ady,
        0 <= i,
        q == nearest_div(i * adx, ady),
    ensures
        2 * (adx * (i + 1) - ady * (q + 1)) <= adx,
        2 * (adx * (i + 1) - ady * (q + 1)) >= -ady ==> nearest_div((i + 1) * adx, ady) == q + 1,
        2 * (adx * (i + 1) - ady * (q + 1)) < -ady ==> nearest_div((i + 1) * adx, ady) == q,
{
    let p2 = 2 * (adx * (i + 1) - ady * (q + 1));
    lemma_nearest_div_bound(i * adx, ady);
    let e2 = 2 * (ady * q - i * adx);
    assert(p2 == -e2 + 2 * adx - 2 * ady) by (nonlinear_arith)
        requires
            p2 == 2 * (adx * (i + 1) - ady * (q + 1)),
            e2 == 2 * (ady * q - i * adx),
    ;
    assert(p2 <= adx);
    if p2 >= -ady {
        assert(-ady < 2 * (ady * (q + 1) - (i + 1) * adx) <= ady) by (nonlinear_arith)
            requires
                0 <= adx < ady,
                p2 == -e2 + 2 * adx - 2 * ady,
                -ady < e2 <= ady,
                p2 >= -ady,
                e2 == 2 * (ady * q - i * adx),
        ;
        lemma_nearest_div_unique((i + 1) * adx, ady, q + 1);
    } else {
        assert(-ady < 2 * (ady * q - (i + 1) * adx) <= ady) by (nonlinear_arith)
            requires
                0 <= adx < ady,
                p2 == -e2 + 2 * adx - 2 * ady,
                -ady < e2 <= ady,
                p2 < -ady,
                e2 == 2 * (ady * q - i * adx),
        ;
        lemma_nearest_div_unique((i + 1) * adx, ady, q);
    }
}

/// Every pixel of the line lies in the bounding box of its endpoints.
pub proof fn lemma_line_pixel_in_box(a: Point, b: Point, i: int)
    requires
        0 <= i < line_len(a, b),
    ensures
        vstd::math::min(a.x as int, b.x as int) <= line_pixel(a, b, i).0 <= max(
            a.x as int,
            b.x as int,
        ),
        vstd::math::min(a.y as int, b.y as int) <= line_pixel(a, b, i).1 <= max(
            a.y as int,
            b.y as int,
        ),
{
    let adx = line_adx(a, b);
    let ady = line_ady(a, b);
    let sx = step_sign(a.x as int, b.x as int);
    let sy = step_sign(a.y as int, b.y as int);
    if adx == 0 && ady == 0 {
    } else if ady <= adx {
        assert(0 <= i * ady <= ady * adx) by (nonlinear_arith)
            requires
                0 <= i <= adx,
                0 <= ady,
        ;
        lemma_nearest_div_range(i * ady, adx, ady);
        let q = line_minor(a, b, i);
        if (a.x as int) < b.x as int {
            assert(i * sx == i) by (nonlinear_arith)
                requires
                    sx == 1,
            ;
        } else {
            assert(i * sx == -i) by (nonlinear_arith)
                requires
                    sx == -1,
            ;
        }
        if (a.y as int) < b.y as int {
            assert(sy * q == q) by (nonlinear_arith)
                requires
                    sy == 1,
            ;
        } else {
            assert(sy * q == -q) by (nonlinear_arith)
                requires
                    sy == -1,
            ;
        }
    } else {
        assert(0 <= i * adx <= adx * ady) by (nonlinear_arith)
            requires
                0 <= i <= ady,
                0 <= adx,
        ;
        lemma_nearest_div_range(i * adx, ady, adx);
        let q = line_minor(a, b, i);
        if (a.y as int) < b.y as int {
            assert(i * sy == i) by (nonlinear_arith)
                requires
                    sy == 1,
            ;
        } else {
            assert(i * sy == -i) by (nonlinear_arith)
                requires
                    sy == -1,
            ;
        }
        if (a.x as int) < b.x as int {
            assert(sx * q == q) by (nonlinear_arith)
                requires
                    sx == 1,
            ;
        } else {
            assert(sx * q == -q) by (nonlinear_arith)
                requires
                    sx == -1,
            ;
        }
    }
}

/// The decision variable stays within twice the sum of the spans.
proof fn lemma_line_decision_bound(a: Point, b: Point, i: int)
    requires
        0 <= i < line_len(a, b),
    ensures
        abs_i(line_decision(a, b, i)) <= 2 * (line_adx(a, b) + line_ady(a, b)),
{
    let adx = line_adx(a, b);
    let ady = line_ady(a, b);
    let q = line_minor(a, b, i);
    if adx == 0 && ady == 0 {
        assert(line_decision(a, b, i) == 0) by (nonlinear_arith)
            requires
                line_decision(a, b, i) == adx * (q + 1) - ady * (i + 1),
                adx == 0,
                ady == 0,
        ;
    } else if ady <= adx {
        lemma_nearest_div_bound(i * ady, adx);
        assert(abs_i(adx * (q + 1) - ady * (i + 1)) <= 2 * (adx + ady)) by (nonlinear_arith)
            requires
                0 < adx,
                0 <= ady,
                -adx < 2 * (adx * q - i * ady) <= adx,
        ;
    } else {
        lemma_nearest_div_bound(i * adx, ady);
        assert(abs_i(adx * (i + 1) - ady * (q + 1)) <= 2 * (adx + ady)) by (nonlinear_arith)
            requires
                0 < ady,
                0 <= adx,
                -ady < 2 * (ady * q - i * adx) <= ady,
        ;
    }
}

/// The initial decision value is `adx - ady`.
proof fn lemma_line_decision_init(a: Point, b: Point)
    ensures
        line_decision(a, b, 0) == line_adx(a, b) - line_ady(a, b),
        line_minor(a, b, 0) == 0,
{
    let adx = line_adx(a, b);
    let ady = line_ady(a, b);
    if adx == 0 && ady == 0 {
    } else if ady <= adx {
        lemma_nearest_div_zero(adx);
        assert(0 * ady == 0) by (nonlinear_arith);
    } else {
        lemma_nearest_div_zero(ady);
        assert(0 * adx == 0) by (nonlinear_arith);
    }
}

/// One step of the rasterizer: how pixel `i + 1` and the next decision
/// value follow from pixel `i`, split by the two tests the algorithm
/// makes on the doubled decision value.
proof fn lemma_line_step(a: Point, b: Point, i: int)
    requires
        0 <= i < line_len(a, b) - 1,
    ensures
        ({
            let adx = line_adx(a, b);
            let ady = line_ady(a, b);
            let sx = step_sign(a.x as int, b.x as int);
            let sy = step_sign(a.y as int, b.y as int);
            let p = line_decision(a, b, i);
            let p2 = 2 * p;
            let px = line_pixel(a, b, i);
            let nx = line_pixel(a, b, i + 1);
            let np = line_decision(a, b, i + 1);
            &&& (p2 >= -ady && p2 <= adx) ==> (nx.0 == px.0 + sx && nx.1 == px.1 + sy && np == p
                - ady + adx)
            &&& (p2 >= -ady && !(p2 <= adx)) ==> (nx.0 == px.0 + sx && nx.1 == px.1 && np == p
                - ady)
            &&& (!(p2 >= -ady) && p2 <= adx) ==> (nx.0 == px.0 && nx.1 == px.1 + sy && np == p
                + adx)
            &&& (p2 >= -ady || p2 <= adx)
        }),
{
    let adx = line_adx(a, b);
    let ady = line_ady(a, b);
    let q = line_minor(a, b, i);
    let nq = line_minor(a, b, i + 1);
    let p = line_decision(a, b, i);
    let p2 = 2 * p;
    let sx = step_sign(a.x as int, b.x as int);
    let sy = step_sign(a.y as int, b.y as int);
    assert((i + 1) * sx == i * sx + sx) by (nonlinear_arith);
    assert((i + 1) * sy == i * sy + sy) by (nonlinear_arith);
    assert(sy * (q + 1) == sy * q + sy) by (nonlinear_arith);
    assert(sx * (q + 1) == sx * q + sx) by (nonlinear_arith);
    if ady <= adx {
        lemma_step_shallow(adx, ady, i, q);
        assert(p2 > -ady);
        if p2 <= adx {
            assert(nq == q + 1);
            assert(line_decision(a, b, i + 1) == p - ady + adx) by (nonlinear_arith)
                requires
                    line_decision(a, b, i + 1) == adx * (nq + 1) - ady * (i + 2),
                    p == adx * (q + 1) - ady * (i + 1),
                    nq == q + 1,
            ;
        } else {
            assert(nq == q);
            assert(line_decision(a, b, i + 1) == p - ady) by (nonlinear_arith)
                requires
                    line_decision(a, b, i + 1) == adx * (nq + 1) - ady * (i + 2),
                    p == adx * (q + 1) - ady * (i + 1),
                    nq == q,
            ;
        }
    } else {
        lemma_step_steep(adx, ady, i, q);
        assert(p2 <= adx);
        if p2 >= -ady {
            assert(nq == q + 1);
            assert(line_decision(a, b, i + 1) == p - ady + adx) by (nonlinear_arith)
                requires
                    line_decision(a, b, i + 1) == adx * (i + 2) - ady * (nq + 1),
                    p == adx * (i + 1) - ady * (q + 1),
                    nq == q + 1,
            ;
        } else {
            assert(nq == q);
            assert(line_decision(a, b, i + 1) == p + adx) by (nonlinear_arith)
                requires
                    line_decision(a, b, i + 1) == adx * (i + 2) - ady * (nq + 1),
                    p == adx * (i + 1) - ady * (q + 1),
                    nq == q,
            ;
        }
    }
}

/// Law: the discrete line from `a` to `b` starts at `a`, ends at `b`,
/// and has exactly `max(|dx|, |dy|) + 1` pixels; each consecutive pair
/// of pixels differs by at most one on each axis and is distinct, so
/// the rasterizer advances by strictly one pixel per step.
pub proof fn lemma_line_rasterizer(a: Point, b: Point)
    ensures
        line_len(a, b) == 1 + max(abs_i(b.x - a.x), abs_i(b.y - a.y)),
        line_pixel(a, b, 0) == (a.x as int, a.y as int),
        line_pixel(a, b, line_len(a, b) - 1) == (b.x as int, b.y as int),
        forall|i: int|
            0 <= i < line_len(a, b) - 1 ==> {
                let px = #[trigger] line_pixel(a, b, i);
                let nx = line_pixel(a, b, i + 1);
                abs_i(nx.0 - px.0) <= 1 && abs_i(nx.1 - px.1) <= 1 && nx != px
            },
{
    let adx = line_adx(a, b);
    let ady = line_ady(a, b);
    let sx = step_sign(a.x as int, b.x as int);
    let sy = step_sign(a.y as int, b.y as int);
    lemma_line_decision_init(a, b);
    let last = line_len(a, b) - 1;
    if adx == 0 && ady == 0 {
    } else if ady <= adx {
        lemma_nearest_div_exact(ady, adx);
        assert(adx * ady == ady * adx) by (nonlinear_arith);
        assert(line_minor(a, b, last) == ady);
    } else {
        lemma_nearest_div_exact(adx, ady);
        assert(ady * adx == adx * ady) by (nonlinear_arith);
        assert(line_minor(a, b, last) == adx);
    }
    assert forall|i: int| 0 <= i < line_len(a, b) - 1 implies {
        let px = #[trigger] line_pixel(a, b, i);
        let nx = line_pixel(a, b, i + 1);
        abs_i(nx.0 - px.0) <= 1 && abs_i(nx.1 - px.1) <= 1 && nx != px
    } by {
        lemma_line_step(a, b, i);
    }
}

/// Law: a degenerate line whose endpoints coincide is a single pixel,
/// equal to that endpoint.
pub proof fn lemma_line_degenerate(a: Point, b: Point)
    requires
        a == b,
    ensures
        line_len(a, b) == 1,
        line_pixel(a, b, 0) == (a.x as int, a.y as int),
{
}

/// Compute every pixel of the discrete line from `a` to `b`, in order,
/// by the incremental decision-variable method.
pub fn line_points(a: Point, b: Point) -> (pts: Vec<Point>)
    ensures
        pts@.len() == line_len(a, b),
        forall|i: int|
            0 <= i < pts@.len() ==> (#[trigger] pts@[i]).x as int == line_pixel(a, b, i).0
                && pts@[i].y as int == line_pixel(a, b, i).1,
{
    let x0: i64 = a.x as i64;
    let y0: i64 = a.y as i64;
    let x1: i64 = b.x as i64;
    let y1: i64 = b.y as i64;
    let dx: i64 = if x1 >= x0 {
        x1 - x0
    } else {
        x0 - x1
    };
    let dy: i64 = if y1 >= y0 {
        y0 - y1
    } else {
        y1 - y0
    };
    let sx: i64 = if x0 < x1 {
        1
    } else {
        -1
    };
    let sy: i64 = if y0 < y1 {
        1
    } else {
        -1
    };
    let steps: i64 = if dx >= -dy {
        dx
    } else {
        -dy
    };
    let mut p: i64 = dx + dy;
    let mut x: i64 = x0;
    let mut y: i64 = y0;
    let mut pts: Vec<Point> = Vec::new();
    let mut k: i64 = 0;
    proof {
        lemma_line_decision_init(a, b);
    }
    while k < steps
        invariant
            dx as int == line_adx(a, b),
            dy as int == -line_ady(a, b),
            sx as int == step_sign(a.x as int, b.x as int),
            sy as int == step_sign(a.y as int, b.y as int),
            steps as int == line_len(a, b) - 1,
            0 <= k <= steps,
            pts@.len() == k as int,
            forall|j: int|
                0 <= j < k as int ==> (#[trigger] pts@[j]).x as int == line_pixel(a, b, j).0
                    && pts@[j].y as int == line_pixel(a, b, j).1,
            x as int == line_pixel(a, b, k as int).0,
            y as int == line_pixel(a, b, k as int).1,
            p as int == line_decision(a, b, k as int),
        decreases steps - k,
    {
        proof {
            lemma_line_pixel_in_box(a, b, k as int);
            lemma_line_pixel_in_box(a, b, k as int + 1);
            lemma_line_decision_bound(a, b, k as int);
            lemma_line_step(a, b, k as int);
        }
        pts.push(Point { x: x as i32, y: y as i32 });
        let e: i64 = 2 * p;
        if e >= dy {
            p = p + dy;
            x = x + sx;
        }
        if e <= dx {
            p = p + dx;
            y = y + sy;
        }
        k = k + 1;
    }
    proof {
        lemma_line_pixel_in_box(a, b, k as int);
    }
    pts.push(Point { x: x as i32, y: y as i32 });
    pts
}

/// Rasterize the line from `a` to `b` onto the canvas: one pixel-set
/// call per pixel of the discrete line, in order, all in `color`.
pub fn draw_line<D: Displayable>(image: &mut D, a: &Point, b: &Point, color: Color)
    ensures
        final(image).writes() == old(image).writes() + line_pixels(*a, *b, color),
{
    let pts = line_points(*a, *b);
    let mut idx: usize = 0;
    while idx < pts.len()
        invariant
            idx as int <= pts@.len(),
            pts@.len() == line_len(*a, *b),
            forall|j: int|
                0 <= j < pts@.len() ==> (#[trigger] pts@[j]).x as int == line_pixel(*a, *b, j).0
                    && pts@[j].y as int == line_pixel(*a, *b, j).1,
            image.writes() == old(image).writes() + line_pixels(*a, *b, color).take(idx as int),
        decreases pts@.len() - idx as int,
    {
        let pt = pts[idx];
        image.display(pt.x, pt.y, color);
        idx = idx + 1;
        proof {
            assert(line_pixels(*a, *b, color).take(idx as int) =~= line_pixels(
                *a,
                *b,
                color,
            ).take(idx as int - 1).push(line_pixels(*a, *b, color)[idx as int - 1]));
        }
    }
    proof {
        assert(line_pixels(*a, *b, color).take(pts@.len() as int) =~= line_pixels(*a, *b, color));
    }
}

/// The pixel writes of drawing a sequence of lines one after the
/// other, each with its own stored color.
pub open spec fn lines_pixels(edges: Seq<Line>) -> Seq<PixelWrite>
    decreases edges.len(),
{
    if edges.len() == 0 {
        Seq::empty()
    } else {
        lines_pixels(edges.drop_last()) + line_pixels(
            edges.last().a,
            edges.last().b,
            edges.last().color,
        )
    }
}

/// A line segment with a color fixed at construction: every draw of
/// the same line emits the same pixel writes.
#[derive(Clone, Copy, Debug, PartialEq, Eq, Structural)]
pub struct Line {
    pub a: Point,
    pub b: Point,
    pub color: Color,
}

impl Line {
    /// A line from `begin` to `finish` drawn in `stroke_color`.
    pub fn new(begin: Point, finish: Point, stroke_color: Color) -> (l: Line)
        ensures
            l == (Line { a: begin, b: finish, color: stroke_color }),
    {
        Line { a: begin, b: finish, color: stroke_color }
    }

    /// A line between two uniformly random points of the canvas, in a
    /// uniformly random opaque color.  A degenerate canvas is
    /// reported, never sampled.
    pub fn random(canvas_width: i32, canvas_height: i32) -> (res: Result<Line, ShapeError>)
        ensures
            res is Ok <==> (canvas_width > 1 && canvas_height > 1),
            res is Err ==> res->Err_0 == ShapeError::InvalidBounds,
            res is Ok ==> {
                let l = res->Ok_0;
                &&& 1 <= l.a.x < canvas_width
                &&& 1 <= l.a.y < canvas_height
                &&& 1 <= l.b.x < canvas_width
                &&& 1 <= l.b.y < canvas_height
                &&& l.color.a == 255
            },
    {
        let first_point = match Point::random(canvas_width, canvas_height) {
            Ok(p) => p,
            Err(e) => {
                return Err(e);
            },
        };
        let second_point = match Point::random(canvas_width, canvas_height) {
            Ok(p) => p,
            Err(e) => {
                return Err(e);
            },
        };
        Ok(Line::new(first_point, second_point, first_point.color()))
    }
}

impl Drawable for Line {
    open spec fn fits(&self) -> bool {
        true
    }

    open spec fn pixels(&self, c: Color) -> Seq<PixelWrite> {
        line_pixels(self.a, self.b, self.color)
    }

    /// Drawing a line emits exactly the pixels of the discrete line
    /// between its endpoints, in its stored color.
    fn draw<D: Displayable>(&self, canvas: &mut D)
        ensures
            final(canvas).writes() == old(canvas).writes() + self.pixels(self.color),
    {
        draw_line(canvas, &self.a, &self.b, self.color);
    }
}

} // verus!
