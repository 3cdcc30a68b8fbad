//! The pentagon: five edges of equal length walked from an origin at
//! headings of 72-degree increments, built once at construction.
//!
//! The trigonometry of the five fixed headings is carried as integer
//! constants scaled by one million (cosine and sine of `k * 72`
//! degrees, rounded to the nearest millionth), and each step offset is
//! the product truncated toward zero, as a unit-length walk computes
//! it.

use vstd::prelude::*;

use crate::canvas::Displayable;
use crate::canvas::PixelWrite;
use crate::color::Color;
use crate::drawable::Drawable;
use crate::line::Line;
use crate::line::lines_pixels;
use crate::num::abs_i;
use crate::num::div_trunc;
use crate::num::div_trunc_i64;
use crate::num::lemma_div_trunc_bound;
use crate::point::Point;

verus! {

/// Cosine of `k * 72` degrees, in millionths.
pub open spec fn penta_cos(k: int) -> int {
    if k == 0 {
        1000000
    } else if k == 1 {
        309017
    } else if k == 2 {
        -809017
    } else if k == 3 {
        -809017
    } else {
        309017
    }
}

/// Sine of `k * 72` degrees, in millionths.
pub open spec fn penta_sin(k: int) -> int {
    if k == 0 {
        0
    } else if k == 1 {
        951057
    } else if k == 2 {
        587785
    } else if k == 3 {
        -587785
    } else {
        -951057
    }
}

/// The offset of the pentagon's `k`-th edge: the edge length scaled
/// by the heading's cosine and sine, truncated toward zero.
pub open spec fn penta_step(e: int, k: int) -> (int, int) {
    (div_trunc(e * penta_cos(k), 1000000), div_trunc(e * penta_sin(k), 1000000))
}

/// The `k`-th vertex of the pentagon walk: the origin advanced by the
/// first `k` edge offsets.
pub open spec fn penta_vertex(origin: Point, e: int, k: int) -> (int, int)
    decreases k,
{
    if k <= 0 {
        (origin.x as int, origin.y as int)
    } else {
        let prev = penta_vertex(origin, e, k - 1);
        let step = penta_step(e, k - 1);
        (prev.0 + step.0, prev.1 + step.1)
    }
}

/// The `k`-th vertex as a point (well-defined under the fit
/// precondition of `Pentagon::new`).
pub open spec fn penta_vertex_pt(origin: Point, e: int, k: int) -> Point {
    Point { x: penta_vertex(origin, e, k).0 as i32, y: penta_vertex(origin, e, k).1 as i32 }
}

/// The five edges of the pentagon walk, all in one color.
pub open spec fn penta_edges(origin: Point, e: int, c: Color) -> Seq<Line> {
    Seq::new(
        5,
        |k: int|
            Line {
                a: penta_vertex_pt(origin, e, k),
                b: penta_vertex_pt(origin, e, k + 1),
                color: c,
            },
    )
}

/// A pentagon: its five edges, fixed at construction.
pub struct Pentagon {
    pub edge_lines: Vec<Line>,
}

/// Exec table of `penta_cos`.
fn penta_cos_exec(k: usize) -> (c: i64)
    requires
        k < 5,
    ensures
        c as int == penta_cos(k as int),
        -1000000 <= c <= 1000000,
{
    if k == 0 {
        1000000
    } else if k == 1 {
        309017
    } else if k == 2 {
        -809017
    } else if k == 3 {
        -809017
    } else {
        309017
    }
}

/// Exec table of `penta_sin`.
fn penta_sin_exec(k: usize) -> (s: i64)
    requires
        k < 5,
    ensures
        s as int == penta_sin(k as int),
        -1000000 <= s <= 1000000,
{
    if k == 0 {
        0
    } else if k == 1 {
        951057
    } else if k == 2 {
        587785
    } else if k == 3 {
        -587785
    } else {
        -951057
    }
}

/// Every pentagon vertex stays within `5 * |e|` of the origin on each
/// axis.
proof fn lemma_penta_vertex_bound(origin: Point, e: int, k: int)
    requires
        0 <= k <= 5,
    ensures
        abs_i(penta_vertex(origin, e, k).0 - origin.x) <= k * abs_i(e),
        abs_i(penta_vertex(origin, e, k).1 - origin.y) <= k * abs_i(e),
    decreases k,
{
    if k > 0 {
        lemma_penta_vertex_bound(origin, e, k - 1);
        lemma_penta_step_bound(e, k - 1);
        assert((k - 1) * abs_i(e) + abs_i(e) == k * abs_i(e)) by (nonlinear_arith);
    } else {
        assert(0 * abs_i(e) == 0) by (nonlinear_arith);
    }
}

/// Each pentagon step offset is at most the edge length in magnitude.
proof fn lemma_penta_step_bound(e: int, k: int)
    ensures
        abs_i(penta_step(e, k).0) <= abs_i(e),
        abs_i(penta_step(e, k).1) <= abs_i(e),
{
    assert(abs_i(e * penta_cos(k)) <= abs_i(e) * 1000000) by (nonlinear_arith)
        requires
            -1000000 <= penta_cos(k) <= 1000000,
    ;
    assert(abs_i(e * penta_sin(k)) <= abs_i(e) * 1000000) by (nonlinear_arith)
        requires
            -1000000 <= penta_sin(k) <= 1000000,
    ;
    lemma_div_trunc_bound(e * penta_cos(k), 1000000, abs_i(e));
    lemma_div_trunc_bound(e * penta_sin(k), 1000000, abs_i(e));
}

impl Pentagon {
    /// Build the pentagon that starts at `origin` with heading 0 and
    /// walks five edges of length `edge_length`, turning 72 degrees
    /// after each; all five edges share one random opaque color.  The
    /// fit precondition is a machine limit: every vertex stays within
    /// `5 * |edge_length|` of the origin on each axis.
    pub fn new(origin: &Point, edge_length: i32) -> (shape: Pentagon)
        requires
            i32::MIN <= origin.x - 5 * abs_i(edge_length as int),
            origin.x + 5 * abs_i(edge_length as int) <= i32::MAX,
            i32::MIN <= origin.y - 5 * abs_i(edge_length as int),
            origin.y + 5 * abs_i(edge_length as int) <= i32::MAX,
        ensures
            exists|c: Color|
                c.a == 255 && shape.edge_lines@ == #[trigger] penta_edges(
                    *origin,
                    edge_length as int,
                    c,
                ),
            shape.edge_lines@.len() == 5,
    {
        let ghost e: int = edge_length as int;
        let shape_color = origin.color();
        let mut edge_lines: Vec<Line> = Vec::new();
        let mut cur_x: i64 = origin.x as i64;
        let mut cur_y: i64 = origin.y as i64;
        let mut k: usize = 0;
        while k < 5
            invariant
                k <= 5,
                shape_color.a == 255,
                i32::MIN <= origin.x - 5 * abs_i(e),
                origin.x + 5 * abs_i(e) <= i32::MAX,
                i32::MIN <= origin.y - 5 * abs_i(e),
                origin.y + 5 * abs_i(e) <= i32::MAX,
                e == edge_length as int,
                cur_x as int == penta_vertex(*origin, e, k as int).0,
                cur_y as int == penta_vertex(*origin, e, k as int).1,
                edge_lines@.len() == k as int,
                forall|j: int|
                    0 <= j < k as int ==> #[trigger] edge_lines@[j] == (Line {
                        a: penta_vertex_pt(*origin, e, j),
                        b: penta_vertex_pt(*origin, e, j + 1),
                        color: shape_color,
                    }),
            decreases 5 - k,
        {
            proof {
                lemma_penta_vertex_bound(*origin, e, k as int);
                lemma_penta_vertex_bound(*origin, e, k as int + 1);
                lemma_penta_step_bound(e, k as int);
                assert(k as int * abs_i(e) <= 5 * abs_i(e) && (k as int + 1) * abs_i(e) <= 5
                    * abs_i(e)) by (nonlinear_arith)
                    requires
                        0 <= k as int <= 4,
                        0 <= abs_i(e),
                ;
            }
            let cosine = penta_cos_exec(k);
            let sine = penta_sin_exec(k);
            let off_x = div_trunc_i64(edge_length as i64 * cosine, 1000000);
            let off_y = div_trunc_i64(edge_length as i64 * sine, 1000000);
            let nxt_x = cur_x + off_x;
            let nxt_y = cur_y + off_y;
            edge_lines.push(
                Line::new(
                    Point::new(cur_x as i32, cur_y as i32),
                    Point::new(nxt_x as i32, nxt_y as i32),
                    shape_color,
                ),
            );
            cur_x = nxt_x;
            cur_y = nxt_y;
            k = k + 1;
        }
        proof {
            assert(edge_lines@ =~= penta_edges(*origin, e, shape_color));
        }
        Pentagon { edge_lines }
    }
}

impl Drawable for Pentagon {
    open spec fn fits(&self) -> bool {
        true
    }

    open spec fn pixels(&self, c: Color) -> Seq<PixelWrite> {
        lines_pixels(self.edge_lines@)
    }

    /// Drawing a pentagon draws its five stored edges in order, each
    /// in its stored color.
    fn draw<D: Displayable>(&self, canvas: &mut D)
        ensures
            final(canvas).writes() == old(canvas).writes() + lines_pixels(self.edge_lines@),
    {
        let mut idx: usize = 0;
        while idx < self.edge_lines.len()
            invariant
                idx as int <= self.edge_lines@.len(),
                canvas.writes() == old(canvas).writes() + lines_pixels(
                    self.edge_lines@.take(idx as int),
                ),
            decreases self.edge_lines@.len() - idx as int,
        {
            let edge = self.edge_lines[idx];
            edge.draw(canvas);
            idx = idx + 1;
            proof {
                let taken = self.edge_lines@.take(idx as int);
                assert(taken.drop_last() =~= self.edge_lines@.take(idx as int - 1));
                assert(taken.last() == self.edge_lines@[idx as int - 1]);
            }
        }
        proof {
            assert(self.edge_lines@.take(self.edge_lines@.len() as int) =~= self.edge_lines@);
            assert(self.pixels((Color { r: 255, g: 255, b: 255, a: 255 })) == lines_pixels(
                self.edge_lines@,
            ));
        }
    }
}

} // verus!
