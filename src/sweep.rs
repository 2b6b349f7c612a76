//! Filled triangles drawn as horizontal spans, row by row.
use vstd::prelude::*;

use crate::canvas::{
    lemma_pixel_index_bounds, lemma_pixel_index_injective, lemma_pixel_index_split, pixel_index,
    Canvas, CanvasModel,
};
use crate::colors::Rgba;
use crate::lines::{sort_by_y, sorted_by_y, Point};
use crate::triangles::{max3, min3};

verus! {

/// `n / d` rounded toward zero; zero when `d` is zero.
pub open spec fn trunc_div(n: int, d: int) -> int {
    if d == 0 {
        0
    } else if n >= 0 {
        n / d
    } else {
        -((-n) / d)
    }
}

/// The point `num / den` of the way along a run of `delta` from `from`,
/// rounded toward `from`.
pub open spec fn lerp(from: int, delta: int, num: int, den: int) -> int {
    from + trunc_div(delta * num, den)
}

pub open spec fn between(x: int, a: int, b: int) -> bool {
    (a <= x <= b) || (b <= x <= a)
}

/// The ends of the span of row `y` in the lower part of a triangle whose
/// vertices are sorted by y.
pub open spec fn verbose_lower(t0: Point, t1: Point, t2: Point, y: int) -> (int, int) {
    (
        lerp(t0.x as int, t2.x - t0.x, y - t0.y, t2.y - t0.y),
        lerp(t0.x as int, t1.x - t0.x, y - t0.y, t1.y - t0.y),
    )
}

/// The ends of the span of row `y` in the upper part.
pub open spec fn verbose_upper(t0: Point, t1: Point, t2: Point, y: int) -> (int, int) {
    (
        lerp(t0.x as int, t2.x - t0.x, y - t0.y, t2.y - t0.y),
        lerp(t2.x as int, t2.x - t1.x, y - t2.y, t2.y - t1.y),
    )
}

/// Whether the verbose sweep of the sorted triangle paints (x, y).
pub open spec fn verbose_covers(t0: Point, t1: Point, t2: Point, x: int, y: int) -> bool {
    ||| (t0.y <= y <= t1.y && between(
        x,
        verbose_lower(t0, t1, t2, y).0,
        verbose_lower(t0, t1, t2, y).1,
    ))
    ||| (t1.y <= y <= t2.y && between(
        x,
        verbose_upper(t0, t1, t2, y).0,
        verbose_upper(t0, t1, t2, y).1,
    ))
}

/// The ends of the span of row `t0.y + i` of the compact sweep.
pub open spec fn compact_span(t0: Point, t1: Point, t2: Point, i: int) -> (int, int) {
    let second_half = i > t1.y - t0.y || t1.y == t0.y;
    (
        lerp(t0.x as int, t2.x - t0.x, i, t2.y - t0.y),
        if second_half {
            lerp(t1.x as int, t2.x - t1.x, i - (t1.y - t0.y), t2.y - t1.y)
        } else {
            lerp(t0.x as int, t1.x - t0.x, i, t1.y - t0.y)
        },
    )
}

/// Whether the compact sweep of the sorted triangle paints (x, y); its top
/// row is left out.
pub open spec fn compact_covers(t0: Point, t1: Point, t2: Point, x: int, y: int) -> bool {
    t0.y <= y < t2.y && between(
        x,
        compact_span(t0, t1, t2, y - t0.y).0,
        compact_span(t0, t1, t2, y - t0.y).1,
    )
}

/// The canvas with the pixels that `covers` names painted `c`.
pub open spec fn painted_where(m: CanvasModel, covers: spec_fn(int, int) -> bool, c: Rgba) -> CanvasModel {
    let w = m.width as int;
    CanvasModel {
        pixels: Seq::new(
            m.pixels.len(),
            |i: int|
                if covers(i % w, i / w) {
                    c
                } else {
                    m.pixels[i]
                },
        ),
        ..m
    }
}

proof fn lemma_trunc_div_within(delta: int, num: int, den: int)
    requires
        0 <= num <= den,
        den > 0,
    ensures
        between(trunc_div(delta * num, den), 0, delta),
{
    if delta >= 0 {
        assert(0 <= delta * num <= delta * den) by (nonlinear_arith)
            requires
                0 <= num <= den,
                delta >= 0,
        ;
        vstd::arithmetic::div_mod::lemma_div_is_ordered(delta * num, delta * den, den);
        vstd::arithmetic::div_mod::lemma_div_pos_is_pos(delta * num, den);
        vstd::arithmetic::div_mod::lemma_div_multiples_vanish(delta, den);
        assert(delta * den == den * delta) by (nonlinear_arith);
    } else {
        assert(0 <= (-delta) * num <= (-delta) * den) by (nonlinear_arith)
            requires
                0 <= num <= den,
                delta < 0,
        ;
        assert(-(delta * num) == (-delta) * num) by (nonlinear_arith);
        vstd::arithmetic::div_mod::lemma_div_is_ordered((-delta) * num, (-delta) * den, den);
        vstd::arithmetic::div_mod::lemma_div_pos_is_pos((-delta) * num, den);
        vstd::arithmetic::div_mod::lemma_div_multiples_vanish(-delta, den);
        assert((-delta) * den == den * (-delta)) by (nonlinear_arith);
    }
}

/// A span end stays between the two vertices it runs between.
proof fn lemma_lerp_between(from: int, to: int, num: int, den: int)
    requires
        0 <= num <= den,
    ensures
        between(lerp(from, to - from, num, den), from, to),
{
    if den > 0 {
        lemma_trunc_div_within(to - from, num, den);
    }
}

/// The same, for a span end measured back from the upper vertex.
proof fn lemma_lerp_back_between(from: int, other: int, num: int, den: int)
    requires
        -den <= num <= 0,
    ensures
        between(lerp(from, from - other, num, den), from, other),
{
    if den > 0 {
        assert((from - other) * num == (other - from) * (-num)) by (nonlinear_arith);
        lemma_trunc_div_within(other - from, -num, den);
    }
}

proof fn lemma_product_fits(a: int, b: int)
    requires
        -0x8000_0000 <= a <= 0x8000_0000,
        -0x8000_0000 <= b <= 0x8000_0000,
    ensures
        -0x4000_0000_0000_0000 <= a * b <= 0x4000_0000_0000_0000,
{
    assert(-0x4000_0000_0000_0000 <= a * b <= 0x4000_0000_0000_0000) by (nonlinear_arith)
        requires
            -0x8000_0000 <= a <= 0x8000_0000,
            -0x8000_0000 <= b <= 0x8000_0000,
    ;
}

/// One end of a span: `from + (delta * num) / den`, rounded toward `from`.
fn lerp_exec(from: i64, delta: i64, num: i64, den: i64) -> (r: i64)
    requires
        -0x8000_0000 <= from <= 0x8000_0000,
        -0x8000_0000 <= delta <= 0x8000_0000,
        -0x8000_0000 <= num <= 0x8000_0000,
        den >= 0,
    ensures
        r == lerp(from as int, delta as int, num as int, den as int),
{
    proof {
        lemma_product_fits(delta as int, num as int);
    }
    let q = trunc_div_exec(delta * num, den);
    proof {
        let n = delta as int * num as int;
        let d = den as int;
        if d > 0 {
            if n >= 0 {
                vstd::arithmetic::div_mod::lemma_div_pos_is_pos(n, d);
                vstd::arithmetic::div_mod::lemma_div_nonincreasing(n, d);
            } else {
                vstd::arithmetic::div_mod::lemma_div_pos_is_pos(-n, d);
                vstd::arithmetic::div_mod::lemma_div_nonincreasing(-n, d);
            }
        }
    }
    from + q
}

fn trunc_div_exec(n: i64, d: i64) -> (r: i64)
    requires
        d >= 0,
        n > i64::MIN,
    ensures
        r == trunc_div(n as int, d as int),
{
    if d == 0 {
        0
    } else if n >= 0 {
        n / d
    } else {
        -((-n) / d)
    }
}

impl Canvas {
    /// Paints row `y` from column `a` to column `b`, ends included, in
    /// either order.
    fn fill_row(&mut self, a: i64, b: i64, y: i64, color: Rgba)
        requires
            old(self).wf(),
            0 <= a < old(self)@.width,
            0 <= b < old(self)@.width,
            0 <= y < old(self)@.height,
            a <= i32::MAX,
            b <= i32::MAX,
            y <= i32::MAX,
        ensures
            final(self).wf(),
            final(self)@.width == old(self)@.width,
            final(self)@.height == old(self)@.height,
            final(self)@.depths == old(self)@.depths,
            forall|px: int, py: int|
                old(self)@.in_bounds(px, py) ==> #[trigger] final(self)@.pixel(px, py) == if py == y
                    && between(px, a as int, b as int) {
                    color
                } else {
                    old(self)@.pixel(px, py)
                },
    {
        let ghost orig = self@;
        let (lo, hi) = if a > b {
            (b, a)
        } else {
            (a, b)
        };
        let mut j = lo;
        while j <= hi
            invariant
                self.wf(),
                orig.wf(),
                self@.width == orig.width,
                self@.height == orig.height,
                self@.depths == orig.depths,
                0 <= lo <= hi < orig.width,
                hi <= i32::MAX,
                0 <= y < orig.height,
                y <= i32::MAX,
                lo == if a > b {
                    b
                } else {
                    a
                },
                hi == if a > b {
                    a
                } else {
                    b
                },
                lo <= j <= hi + 1,
                forall|px: int, py: int|
                    orig.in_bounds(px, py) ==> #[trigger] self@.pixel(px, py) == if py == y && lo
                        <= px < j {
                        color
                    } else {
                        orig.pixel(px, py)
                    },
            decreases hi + 1 - j,
        {
            let ghost before = self@;
            self.set_pixel(j as i32, y as i32, color);
            proof {
                assert forall|px: int, py: int| orig.in_bounds(px, py) implies #[trigger] self@.pixel(
                    px,
                    py,
                ) == if py == y && lo <= px < j + 1 {
                    color
                } else {
                    orig.pixel(px, py)
                } by {
                    lemma_pixel_index_bounds(orig.width, orig.height, px, py);
                    lemma_pixel_index_bounds(orig.width, orig.height, j as int, y as int);
                    if pixel_index(orig.width, px, py) == pixel_index(orig.width, j as int, y as int) {
                        lemma_pixel_index_injective(orig.width, px, py, j as int, y as int);
                    }
                    assert(before.pixel(px, py) == before.pixels[pixel_index(orig.width, px, py)]);
                }
            }
            j = j + 1;
        }
    }

    /// Fills a triangle by sweeping rows: from the lowest vertex (by y) to
    /// the middle one, then from the middle one to the highest, each row a
    /// span between two edges. A triangle whose vertices share one y is
    /// skipped.
    pub fn triangle_linesweep_verbose(&mut self, pts: &[Point], color: Rgba)
        requires
            old(self).wf(),
            pts@.len() == 3,
            (pts@[0].y == pts@[1].y && pts@[0].y == pts@[2].y) || (old(self)@.in_bounds(
                pts@[0].x as int,
                pts@[0].y as int,
            ) && old(self)@.in_bounds(pts@[1].x as int, pts@[1].y as int) && old(
                self,
            )@.in_bounds(pts@[2].x as int, pts@[2].y as int)),
        ensures
            final(self).wf(),
            ({
                let (t0, t1, t2) = sorted_by_y(pts@[0], pts@[1], pts@[2]);
                if pts@[0].y == pts@[1].y && pts@[0].y == pts@[2].y {
                    final(self)@ == old(self)@
                } else {
                    final(self)@ == painted_where(
                        old(self)@,
                        |x: int, y: int| verbose_covers(t0, t1, t2, x, y),
                        color,
                    )
                }
            }),
    {
        if pts[0].y == pts[1].y && pts[0].y == pts[2].y {
            return;
        }
        let ghost orig = self@;
        let (t0, t1, t2) = sort_by_y(pts[0], pts[1], pts[2]);
        assert(orig.in_bounds(t0.x as int, t0.y as int));
        assert(orig.in_bounds(t1.x as int, t1.y as int));
        assert(orig.in_bounds(t2.x as int, t2.y as int));
        assert(t0.y <= t1.y <= t2.y && t0.y < t2.y);
        let (x0, y0, x1, y1, x2, y2) = (
            t0.x as i64,
            t0.y as i64,
            t1.x as i64,
            t1.y as i64,
            t2.x as i64,
            t2.y as i64,
        );
        let total = y2 - y0;
        let mut y = y0;
        while y <= y1
            invariant
                self.wf(),
                orig.wf(),
                self@.width == orig.width,
                self@.height == orig.height,
                self@.depths == orig.depths,
                orig.in_bounds(x0 as int, y0 as int),
                orig.in_bounds(x1 as int, y1 as int),
                orig.in_bounds(x2 as int, y2 as int),
                x0 == t0.x && y0 == t0.y && x1 == t1.x && y1 == t1.y && x2 == t2.x && y2 == t2.y,
                0 <= x0 <= i32::MAX && 0 <= x1 <= i32::MAX && 0 <= x2 <= i32::MAX,
                y0 <= y1 <= y2,
                total == y2 - y0,
                total > 0,
                y0 <= y <= y1 + 1,
                forall|px: int, py: int|
                    orig.in_bounds(px, py) ==> #[trigger] self@.pixel(px, py) == if y0 <= py < y
                        && between(
                        px,
                        verbose_lower(t0, t1, t2, py).0,
                        verbose_lower(t0, t1, t2, py).1,
                    ) {
                        color
                    } else {
                        orig.pixel(px, py)
                    },
            decreases y1 + 1 - y,
        {
            let a = lerp_exec(x0, x2 - x0, y - y0, total);
            let b = lerp_exec(x0, x1 - x0, y - y0, y1 - y0);
            proof {
                lemma_lerp_between(x0 as int, x2 as int, y - y0, total as int);
                lemma_lerp_between(x0 as int, x1 as int, y - y0, y1 - y0);
            }
            assert(a == verbose_lower(t0, t1, t2, y as int).0);
            assert(b == verbose_lower(t0, t1, t2, y as int).1);
            self.fill_row(a, b, y, color);
            y = y + 1;
        }
        let mut y = y1;
        while y <= y2
            invariant
                self.wf(),
                orig.wf(),
                self@.width == orig.width,
                self@.height == orig.height,
                self@.depths == orig.depths,
                orig.in_bounds(x0 as int, y0 as int),
                orig.in_bounds(x1 as int, y1 as int),
                orig.in_bounds(x2 as int, y2 as int),
                x0 == t0.x && y0 == t0.y && x1 == t1.x && y1 == t1.y && x2 == t2.x && y2 == t2.y,
                0 <= x0 <= i32::MAX && 0 <= x1 <= i32::MAX && 0 <= x2 <= i32::MAX,
                y0 <= y1 <= y2,
                total == y2 - y0,
                total > 0,
                y1 <= y <= y2 + 1,
                forall|px: int, py: int|
                    orig.in_bounds(px, py) ==> #[trigger] self@.pixel(px, py) == if (y0 <= py <= y1
                        && between(
                        px,
                        verbose_lower(t0, t1, t2, py).0,
                        verbose_lower(t0, t1, t2, py).1,
                    )) || (y1 <= py < y && between(
                        px,
                        verbose_upper(t0, t1, t2, py).0,
                        verbose_upper(t0, t1, t2, py).1,
                    )) {
                        color
                    } else {
                        orig.pixel(px, py)
                    },
            decreases y2 + 1 - y,
        {
            let a = lerp_exec(x0, x2 - x0, y - y0, total);
            let b = lerp_exec(x2, x2 - x1, y - y2, y2 - y1);
            proof {
                lemma_lerp_between(x0 as int, x2 as int, y - y0, total as int);
                lemma_lerp_back_between(x2 as int, x1 as int, y - y2, y2 - y1);
            }
            assert(a == verbose_upper(t0, t1, t2, y as int).0);
            assert(b == verbose_upper(t0, t1, t2, y as int).1);
            self.fill_row(a, b, y, color);
            y = y + 1;
        }
        proof {
            let target = painted_where(
                orig,
                |x: int, y: int| verbose_covers(t0, t1, t2, x, y),
                color,
            );
            let w = orig.width as int;
            assert forall|i: int| 0 <= i < self@.pixels.len() implies self@.pixels[i]
                == target.pixels[i] by {
                lemma_pixel_index_split(orig.width, orig.height, i);
                assert(self@.pixel(i % w, i / w) == self@.pixels[i]);
            }
            assert(self@.pixels =~= target.pixels);
        }
    }

    /// Fills a triangle by sweeping rows in one pass from the lowest vertex
    /// (by y) up to, but not including, the row of the highest. A triangle
    /// whose vertices share one y is skipped.
    pub fn triangle_linesweep_compact(&mut self, pts: &[Point], color: Rgba)
        requires
            old(self).wf(),
            pts@.len() == 3,
            (pts@[0].y == pts@[1].y && pts@[0].y == pts@[2].y) || (old(self)@.in_bounds(
                pts@[0].x as int,
                pts@[0].y as int,
            ) && old(self)@.in_bounds(pts@[1].x as int, pts@[1].y as int) && old(
                self,
            )@.in_bounds(pts@[2].x as int, pts@[2].y as int)),
        ensures
            final(self).wf(),
            ({
                let (t0, t1, t2) = sorted_by_y(pts@[0], pts@[1], pts@[2]);
                if pts@[0].y == pts@[1].y && pts@[0].y == pts@[2].y {
                    final(self)@ == old(self)@
                } else {
                    final(self)@ == painted_where(
                        old(self)@,
                        |x: int, y: int| compact_covers(t0, t1, t2, x, y),
                        color,
                    )
                }
            }),
    {
        if pts[0].y == pts[1].y && pts[0].y == pts[2].y {
            return;
        }
        let ghost orig = self@;
        let (t0, t1, t2) = sort_by_y(pts[0], pts[1], pts[2]);
        assert(orig.in_bounds(t0.x as int, t0.y as int));
        assert(orig.in_bounds(t1.x as int, t1.y as int));
        assert(orig.in_bounds(t2.x as int, t2.y as int));
        assert(t0.y <= t1.y <= t2.y && t0.y < t2.y);
        let (x0, y0, x1, y1, x2, y2) = (
            t0.x as i64,
            t0.y as i64,
            t1.x as i64,
            t1.y as i64,
            t2.x as i64,
            t2.y as i64,
        );
        let total = y2 - y0;
        let mut i: i64 = 0;
        while i < total
            invariant
                self.wf(),
                orig.wf(),
                self@.width == orig.width,
                self@.height == orig.height,
                self@.depths == orig.depths,
                orig.in_bounds(x0 as int, y0 as int),
                orig.in_bounds(x1 as int, y1 as int),
                orig.in_bounds(x2 as int, y2 as int),
                x0 == t0.x && y0 == t0.y && x1 == t1.x && y1 == t1.y && x2 == t2.x && y2 == t2.y,
                0 <= x0 <= i32::MAX && 0 <= x1 <= i32::MAX && 0 <= x2 <= i32::MAX,
                y0 <= y1 <= y2,
                total == y2 - y0,
                total > 0,
                0 <= i <= total,
                forall|px: int, py: int|
                    orig.in_bounds(px, py) ==> #[trigger] self@.pixel(px, py) == if y0 <= py < y0
                        + i && between(
                        px,
                        compact_span(t0, t1, t2, py - y0).0,
                        compact_span(t0, t1, t2, py - y0).1,
                    ) {
                        color
                    } else {
                        orig.pixel(px, py)
                    },
            decreases total - i,
        {
            let second_half = i > y1 - y0 || y1 == y0;
            let a = lerp_exec(x0, x2 - x0, i, total);
            let b = if second_half {
                lerp_exec(x1, x2 - x1, i - (y1 - y0), y2 - y1)
            } else {
                lerp_exec(x0, x1 - x0, i, y1 - y0)
            };
            proof {
                lemma_lerp_between(x0 as int, x2 as int, i as int, total as int);
                if second_half {
                    lemma_lerp_between(x1 as int, x2 as int, i - (y1 - y0), y2 - y1);
                } else {
                    lemma_lerp_between(x0 as int, x1 as int, i as int, y1 - y0);
                }
            }
            assert(a == compact_span(t0, t1, t2, i as int).0);
            assert(b == compact_span(t0, t1, t2, i as int).1);
            self.fill_row(a, b, y0 + i, color);
            i = i + 1;
        }
        proof {
            let target = painted_where(
                orig,
                |x: int, y: int| compact_covers(t0, t1, t2, x, y),
                color,
            );
            let w = orig.width as int;
            assert forall|k: int| 0 <= k < self@.pixels.len() implies self@.pixels[k]
                == target.pixels[k] by {
                lemma_pixel_index_split(orig.width, orig.height, k);
                assert(self@.pixel(k % w, k / w) == self@.pixels[k]);
            }
            assert(self@.pixels =~= target.pixels);
        }
    }
}

} // verus!
