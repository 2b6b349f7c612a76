//! Filled triangles on whole-pixel vertices.
use vstd::prelude::*;

use crate::canvas::{
    lemma_pixel_index_bounds, lemma_pixel_index_injective, lemma_pixel_index_split, pixel_index,
    Canvas, CanvasModel,
};
use crate::colors::{random_color, Rgba};
use crate::lines::{face_views, faces_fit};
use crate::model::{Face, FacePoint};
use crate::lines::Point;
use crate::maths::{yolo_max, yolo_min};

verus! {

/// Barycentric coordinates of a point against a triangle, as exact
/// fractions `alpha / denom`, `beta / denom`, `gamma / denom` with a positive
/// denominator. `alpha` weighs the first vertex, `beta` the second, `gamma`
/// the third.
#[derive(Clone, Copy, Debug, PartialEq, Eq, Structural)]
pub struct Barycentric {
    pub alpha: i128,
    pub beta: i128,
    pub gamma: i128,
    pub denom: i128,
}

/// The z part of the cross product of (C.x - A.x, B.x - A.x, A.x - P.x) and
/// (C.y - A.y, B.y - A.y, A.y - P.y): twice the signed area of the triangle.
pub open spec fn cross_z(a: Point, b: Point, c: Point) -> int {
    (c.x - a.x) * (b.y - a.y) - (b.x - a.x) * (c.y - a.y)
}

/// The x part of that cross product, for P = (x, y).
pub open spec fn cross_x(a: Point, b: Point, x: int, y: int) -> int {
    (b.x - a.x) * (a.y - y) - (a.x - x) * (b.y - a.y)
}

/// The y part of that cross product, for P = (x, y).
pub open spec fn cross_y(a: Point, c: Point, x: int, y: int) -> int {
    (a.x - x) * (c.y - a.y) - (c.x - a.x) * (a.y - y)
}

/// The barycentric coordinates of (x, y) against the triangle (a, b, c):
/// `(1 - (u + v) / w, v / w, u / w)` for the cross product `(u, v, w)`, as
/// numerators over a positive common denominator, the last of the four. A
/// degenerate triangle (w = 0) gives (-1, 1, 1), which no test for a point
/// inside accepts.
pub open spec fn weights(a: Point, b: Point, c: Point, x: int, y: int) -> (int, int, int, int) {
    let u = cross_x(a, b, x, y);
    let v = cross_y(a, c, x, y);
    let w = cross_z(a, b, c);
    if w == 0 {
        (-1, 1, 1, 1)
    } else if w > 0 {
        (w - u - v, v, u, w)
    } else {
        (u + v - w, -v, -u, -w)
    }
}

pub open spec fn barycentric_of(a: Point, b: Point, c: Point, p: Point) -> Barycentric {
    let t = weights(a, b, c, p.x as int, p.y as int);
    Barycentric { alpha: t.0 as i128, beta: t.1 as i128, gamma: t.2 as i128, denom: t.3 as i128 }
}

/// Whether (x, y) lies in the triangle: no barycentric coordinate is negative.
pub open spec fn inside(a: Point, b: Point, c: Point, x: int, y: int) -> bool {
    let t = weights(a, b, c, x, y);
    t.0 >= 0 && t.1 >= 0 && t.2 >= 0
}

proof fn lemma_mul_small(d1: int, d2: int)
    requires
        -0x1_0000_0000 < d1 < 0x1_0000_0000,
        -0x1_0000_0000 < d2 < 0x1_0000_0000,
    ensures
        -0x1_0000_0000_0000_0000 <= d1 * d2 <= 0x1_0000_0000_0000_0000,
{
    assert(-0x1_0000_0000_0000_0000 <= d1 * d2 <= 0x1_0000_0000_0000_0000) by (nonlinear_arith)
        requires
            -0x1_0000_0000 < d1 < 0x1_0000_0000,
            -0x1_0000_0000 < d2 < 0x1_0000_0000,
    ;
}

pub open spec fn min3(a: int, b: int, c: int) -> int {
    if a <= b && a <= c {
        a
    } else if b <= c {
        b
    } else {
        c
    }
}

pub open spec fn max3(a: int, b: int, c: int) -> int {
    if a >= b && a >= c {
        a
    } else if b >= c {
        b
    } else {
        c
    }
}

/// The barycentric coordinates weigh the vertices into the point:
/// `alpha * A + beta * B + gamma * C == denom * P`, for both coordinates.
pub proof fn lemma_barycentric_weighs(a: Point, b: Point, c: Point, px: int, py: int)
    requires
        cross_z(a, b, c) != 0,
    ensures
        ({
            let t = weights(a, b, c, px, py);
            &&& t.0 * a.x + t.1 * b.x + t.2 * c.x == t.3 * px
            &&& t.0 * a.y + t.1 * b.y + t.2 * c.y == t.3 * py
            &&& t.0 + t.1 + t.2 == t.3
            &&& t.3 > 0
        }),
{
    let u = cross_x(a, b, px, py);
    let v = cross_y(a, c, px, py);
    let w = cross_z(a, b, c);
    let (ax, ay, bx, by, cx, cy) = (
        a.x as int,
        a.y as int,
        b.x as int,
        b.y as int,
        c.x as int,
        c.y as int,
    );
    let (qx, qy, rx, ry, dx, dy) = (bx - ax, by - ay, cx - ax, cy - ay, ax - px, ay - py);
    assert((dx * ry - rx * dy) * qx + (qx * dy - dx * qy) * rx == -((rx * qy - qx * ry) * dx))
        by (nonlinear_arith);
    assert((dx * ry - rx * dy) * qy + (qx * dy - dx * qy) * ry == -((rx * qy - qx * ry) * dy))
        by (nonlinear_arith);
    assert(v * qx + u * rx == -(w * dx));
    assert(v * qy + u * ry == -(w * dy));
    assert((w - u - v) * ax == w * ax - u * ax - v * ax) by (nonlinear_arith);
    assert(v * qx == v * bx - v * ax) by (nonlinear_arith)
        requires
            qx == bx - ax,
    ;
    assert(u * rx == u * cx - u * ax) by (nonlinear_arith)
        requires
            rx == cx - ax,
    ;
    assert(w * dx == w * ax - w * px) by (nonlinear_arith)
        requires
            dx == ax - px,
    ;
    assert((w - u - v) * ay == w * ay - u * ay - v * ay) by (nonlinear_arith);
    assert(v * qy == v * by - v * ay) by (nonlinear_arith)
        requires
            qy == by - ay,
    ;
    assert(u * ry == u * cy - u * ay) by (nonlinear_arith)
        requires
            ry == cy - ay,
    ;
    assert(w * dy == w * ay - w * py) by (nonlinear_arith)
        requires
            dy == ay - py,
    ;
    if w < 0 {
        assert((u + v - w) * ax + (-v) * bx + (-u) * cx == (-w) * px) by (nonlinear_arith)
            requires
                (w - u - v) * ax + v * bx + u * cx == w * px,
        ;
        assert((u + v - w) * ay + (-v) * by + (-u) * cy == (-w) * py) by (nonlinear_arith)
            requires
                (w - u - v) * ay + v * by + u * cy == w * py,
        ;
    }
}

proof fn lemma_convex_between(al: int, be: int, ga: int, d: int, a: int, b: int, c: int, p: int)
    requires
        al >= 0,
        be >= 0,
        ga >= 0,
        d > 0,
        al + be + ga == d,
        al * a + be * b + ga * c == d * p,
    ensures
        min3(a, b, c) <= p <= max3(a, b, c),
{
    let m = min3(a, b, c);
    let n = max3(a, b, c);
    assert(d * m <= d * p) by (nonlinear_arith)
        requires
            al >= 0,
            be >= 0,
            ga >= 0,
            al + be + ga == d,
            al * a + be * b + ga * c == d * p,
            m <= a,
            m <= b,
            m <= c,
    ;
    assert(d * p <= d * n) by (nonlinear_arith)
        requires
            al >= 0,
            be >= 0,
            ga >= 0,
            al + be + ga == d,
            al * a + be * b + ga * c == d * p,
            n >= a,
            n >= b,
            n >= c,
    ;
    assert(m <= p) by (nonlinear_arith)
        requires
            d > 0,
            d * m <= d * p,
    ;
    assert(p <= n) by (nonlinear_arith)
        requires
            d > 0,
            d * p <= d * n,
    ;
}

/// A point inside a triangle lies in the box spanned by its vertices.
pub proof fn lemma_inside_within_box(a: Point, b: Point, c: Point, x: int, y: int)
    requires
        inside(a, b, c, x, y),
    ensures
        min3(a.x as int, b.x as int, c.x as int) <= x <= max3(a.x as int, b.x as int, c.x as int),
        min3(a.y as int, b.y as int, c.y as int) <= y <= max3(a.y as int, b.y as int, c.y as int),
{
    let t = weights(a, b, c, x, y);
    lemma_barycentric_weighs(a, b, c, x, y);
    lemma_convex_between(t.0, t.1, t.2, t.3, a.x as int, b.x as int, c.x as int, x);
    lemma_convex_between(t.0, t.1, t.2, t.3, a.y as int, b.y as int, c.y as int, y);
}

/// The barycentric coordinates of `p` against the triangle `pts`.
pub fn barycentric_coords_2d(pts: &[Point], p: Point) -> (r: Barycentric)
    requires
        pts@.len() == 3,
    ensures
        r == barycentric_of(pts@[0], pts@[1], pts@[2], p),
        (r.alpha as int, r.beta as int, r.gamma as int, r.denom as int) == weights(
            pts@[0],
            pts@[1],
            pts@[2],
            p.x as int,
            p.y as int,
        ),
        r.denom > 0,
        r.alpha + r.beta + r.gamma == r.denom,
{
    let a = pts[0];
    let b = pts[1];
    let c = pts[2];
    let bx = b.x as i128 - a.x as i128;
    let by = b.y as i128 - a.y as i128;
    let cx = c.x as i128 - a.x as i128;
    let cy = c.y as i128 - a.y as i128;
    let dx = a.x as i128 - p.x as i128;
    let dy = a.y as i128 - p.y as i128;
    proof {
        lemma_mul_small(bx as int, dy as int);
        lemma_mul_small(dx as int, by as int);
        lemma_mul_small(dx as int, cy as int);
        lemma_mul_small(cx as int, dy as int);
        lemma_mul_small(cx as int, by as int);
        lemma_mul_small(bx as int, cy as int);
    }
    let u = bx * dy - dx * by;
    let v = dx * cy - cx * dy;
    let w = cx * by - bx * cy;
    if w == 0 {
        Barycentric { alpha: -1, beta: 1, gamma: 1, denom: 1 }
    } else if w > 0 {
        Barycentric { alpha: w - u - v, beta: v, gamma: u, denom: w }
    } else {
        Barycentric { alpha: u + v - w, beta: -v, gamma: -u, denom: -w }
    }
}

/// The canvas with every pixel inside the triangle (a, b, c) painted `color`.
pub open spec fn filled(m: CanvasModel, a: Point, b: Point, c: Point, color: Rgba) -> CanvasModel {
    let w = m.width as int;
    CanvasModel {
        pixels: Seq::new(
            m.pixels.len(),
            |i: int|
                if inside(a, b, c, i % w, i / w) {
                    color
                } else {
                    m.pixels[i]
                },
        ),
        ..m
    }
}

/// The bounding box of three coordinates clamped to `0..=limit`, as the
/// rasterizer computes it.
fn clamped_range(a: i32, b: i32, c: i32, limit: i64) -> (r: (i64, i64))
    requires
        limit >= 0,
    ensures
        r.0 == if min3(a as int, b as int, c as int) < 0 {
            0
        } else if min3(a as int, b as int, c as int) > limit {
            limit as int
        } else {
            min3(a as int, b as int, c as int)
        },
        r.1 == if max3(a as int, b as int, c as int) < 0 {
            0
        } else if max3(a as int, b as int, c as int) > limit {
            limit as int
        } else {
            max3(a as int, b as int, c as int)
        },
{
    let mut lo: i64 = limit;
    let mut hi: i64 = 0;
    lo = yolo_max(0, yolo_min(lo, a as i64));
    hi = yolo_min(limit, yolo_max(hi, a as i64));
    lo = yolo_max(0, yolo_min(lo, b as i64));
    hi = yolo_min(limit, yolo_max(hi, b as i64));
    lo = yolo_max(0, yolo_min(lo, c as i64));
    hi = yolo_min(limit, yolo_max(hi, c as i64));
    (lo, hi)
}

/// Every pixel that filling a triangle changes has all three barycentric
/// coordinates non-negative.
pub proof fn lemma_filled_pixels_inside(
    m: CanvasModel,
    a: Point,
    b: Point,
    c: Point,
    color: Rgba,
    x: int,
    y: int,
)
    requires
        m.wf(),
        m.in_bounds(x, y),
        filled(m, a, b, c, color).pixel(x, y) != m.pixel(x, y),
    ensures
        weights(a, b, c, x, y).0 >= 0,
        weights(a, b, c, x, y).1 >= 0,
        weights(a, b, c, x, y).2 >= 0,
{
    let i = pixel_index(m.width, x, y);
    lemma_pixel_index_bounds(m.width, m.height, x, y);
    lemma_pixel_index_split(m.width, m.height, i);
    lemma_pixel_index_injective(m.width, i % (m.width as int), i / (m.width as int), x, y);
}

/// A triangle that lies wholly to one side of the canvas leaves it unchanged.
pub proof fn lemma_triangle_outside_unchanged(
    m: CanvasModel,
    a: Point,
    b: Point,
    c: Point,
    color: Rgba,
)
    requires
        m.wf(),
        (a.x < 0 && b.x < 0 && c.x < 0) || (a.y < 0 && b.y < 0 && c.y < 0) || (a.x >= m.width
            && b.x >= m.width && c.x >= m.width) || (a.y >= m.height && b.y >= m.height && c.y
            >= m.height),
    ensures
        filled(m, a, b, c, color) == m,
{
    let target = filled(m, a, b, c, color);
    let w = m.width as int;
    assert forall|i: int| 0 <= i < m.pixels.len() implies target.pixels[i] == m.pixels[i] by {
        lemma_pixel_index_split(m.width, m.height, i);
        if inside(a, b, c, i % w, i / w) {
            lemma_inside_within_box(a, b, c, i % w, i / w);
        }
    }
    assert(target.pixels =~= m.pixels);
}

/// A triangle of zero area, such as one whose three vertices fall on one
/// pixel, is discarded: filling it leaves the canvas unchanged.
pub proof fn lemma_degenerate_triangle_unchanged(
    m: CanvasModel,
    a: Point,
    b: Point,
    c: Point,
    color: Rgba,
)
    requires
        m.wf(),
        cross_z(a, b, c) == 0,
    ensures
        filled(m, a, b, c, color) == m,
{
    let target = filled(m, a, b, c, color);
    assert(target.pixels =~= m.pixels);
}

/// The canvas after each face, in turn, is filled with its colour from `colors`.
pub open spec fn colored_faces_of(
    m: CanvasModel,
    faces: Seq<Seq<FacePoint>>,
    screen: Seq<Point>,
    colors: Seq<Rgba>,
) -> CanvasModel
    decreases faces.len(),
{
    if faces.len() == 0 {
        m
    } else {
        let f = faces.last();
        filled(
            colored_faces_of(m, faces.drop_last(), screen, colors),
            screen[f[0].vertices_index as int],
            screen[f[1].vertices_index as int],
            screen[f[2].vertices_index as int],
            colors[faces.len() - 1],
        )
    }
}

pub open spec fn is_random_color(c: Rgba) -> bool {
    c.r < 255 && c.g < 255 && c.b < 255 && c.a == 255
}

proof fn lemma_colored_faces_prefix(
    m: CanvasModel,
    faces: Seq<Seq<FacePoint>>,
    screen: Seq<Point>,
    colors: Seq<Rgba>,
    more: Seq<Rgba>,
)
    ensures
        colored_faces_of(m, faces, screen, colors) == colored_faces_of(
            m,
            faces,
            screen,
            colors + more,
        ) || colors.len() < faces.len(),
    decreases faces.len(),
{
    if faces.len() > 0 && colors.len() >= faces.len() {
        lemma_colored_faces_prefix(m, faces.drop_last(), screen, colors, more);
        assert((colors + more)[faces.len() - 1] == colors[faces.len() - 1]);
    }
}

impl Canvas {
    /// Fills a triangle: every pixel of its bounding box, clamped to the
    /// canvas, whose barycentric coordinates are all non-negative is painted.
    pub fn triangle_barycentric(&mut self, pts: &[Point], color: Rgba)
        requires
            old(self).wf(),
            old(self)@.width > 0,
            old(self)@.height > 0,
            pts@.len() == 3,
        ensures
            final(self).wf(),
            final(self)@ == filled(old(self)@, pts@[0], pts@[1], pts@[2], color),
    {
        let ghost orig = self@;
        let ghost (a, b, c) = (pts@[0], pts@[1], pts@[2]);
        let width = self.width();
        let height = self.height();
        // no coordinate exceeds i32::MAX, so a wider canvas clamps the same way
        let limit_x: i64 = if width - 1 > 0x7fff_ffff {
            0x7fff_ffff
        } else {
            (width - 1) as i64
        };
        let limit_y: i64 = if height - 1 > 0x7fff_ffff {
            0x7fff_ffff
        } else {
            (height - 1) as i64
        };
        let (min_x, max_x) = clamped_range(pts[0].x, pts[1].x, pts[2].x, limit_x);
        let (min_y, max_y) = clamped_range(pts[0].y, pts[1].y, pts[2].y, limit_y);
        let mut x = min_x;
        while x <= max_x
            invariant
                self.wf(),
                orig.wf(),
                self@.width == orig.width,
                self@.height == orig.height,
                self@.depths == orig.depths,
                width == orig.width,
                height == orig.height,
                pts@.len() == 3,
                a == pts@[0],
                b == pts@[1],
                c == pts@[2],
                0 <= min_x,
                max_x < width,
                max_x <= i32::MAX,
                0 <= min_y,
                max_y < height,
                max_y <= i32::MAX,
                min_x <= x <= max_x + 1 || x == min_x,
                forall|px: int, py: int|
                    orig.in_bounds(px, py) ==> #[trigger] self@.pixel(px, py) == if min_x <= px < x
                        && min_y <= py <= max_y && inside(a, b, c, px, py) {
                        color
                    } else {
                        orig.pixel(px, py)
                    },
            decreases max_x + 1 - x,
        {
            let mut y = min_y;
            while y <= max_y
                invariant
                    self.wf(),
                    orig.wf(),
                    self@.width == orig.width,
                    self@.height == orig.height,
                    self@.depths == orig.depths,
                    width == orig.width,
                    height == orig.height,
                    pts@.len() == 3,
                    a == pts@[0],
                    b == pts@[1],
                    c == pts@[2],
                    0 <= min_x <= x <= max_x,
                    max_x < width,
                    max_x <= i32::MAX,
                    0 <= min_y,
                    max_y < height,
                    max_y <= i32::MAX,
                    min_y <= y <= max_y + 1 || y == min_y,
                    forall|px: int, py: int|
                        orig.in_bounds(px, py) ==> #[trigger] self@.pixel(px, py) == if ((min_x
                            <= px < x && min_y <= py <= max_y) || (px == x && min_y <= py < y))
                            && inside(a, b, c, px, py) {
                            color
                        } else {
                            orig.pixel(px, py)
                        },
                decreases max_y + 1 - y,
            {
                let bc = barycentric_coords_2d(pts, Point { x: x as i32, y: y as i32 });
                if bc.alpha >= 0 && bc.beta >= 0 && bc.gamma >= 0 {
                    let ghost before = self@;
                    self.set_pixel(x as i32, y as i32, color);
                    proof {
                        assert forall|px: int, py: int| orig.in_bounds(px, py) implies #[trigger] self@.pixel(px, py)
                            == if ((min_x <= px < x && min_y <= py <= max_y) || (px == x && min_y
                            <= py < y + 1)) && inside(a, b, c, px, py) {
                            color
                        } else {
                            orig.pixel(px, py)
                        } by {
                            lemma_pixel_index_bounds(orig.width, orig.height, px, py);
                            lemma_pixel_index_bounds(orig.width, orig.height, x as int, y as int);
                            if pixel_index(orig.width, px, py) == pixel_index(orig.width, x as int, y as int) {
                                lemma_pixel_index_injective(orig.width, px, py, x as int, y as int);
                            }
                            assert(before.pixel(px, py) == before.pixels[pixel_index(orig.width, px, py)]);
                        }
                    }
                }
                y = y + 1;
            }
            x = x + 1;
        }
        proof {
            let target = filled(orig, a, b, c, color);
            let w = orig.width as int;
            assert forall|i: int| 0 <= i < self@.pixels.len() implies self@.pixels[i] == target.pixels[i] by {
                lemma_pixel_index_split(orig.width, orig.height, i);
                let px = i % w;
                let py = i / w;
                if inside(a, b, c, px, py) {
                    lemma_inside_within_box(a, b, c, px, py);
                }
                assert(self@.pixel(px, py) == self@.pixels[i]);
            }
            assert(self@.pixels =~= target.pixels);
        }
    }

    /// Fills every face, each corner at the screen point of its vertex, in a
    /// colour of its own drawn at random.
    pub fn model_colored_triangles(&mut self, faces: &Vec<Face>, screen: &Vec<Point>)
        requires
            old(self).wf(),
            old(self)@.width > 0,
            old(self)@.height > 0,
            faces_fit(face_views(faces@), screen@),
        ensures
            final(self).wf(),
            exists|colors: Seq<Rgba>|
                {
                    &&& colors.len() == faces@.len()
                    &&& forall|i: int| 0 <= i < colors.len() ==> is_random_color(#[trigger] colors[i])
                    &&& final(self)@ == colored_faces_of(old(self)@, face_views(faces@), screen@, colors)
                },
    {
        let ghost orig = self@;
        let ghost fv = face_views(faces@);
        let ghost mut colors: Seq<Rgba> = Seq::empty();
        let mut i: usize = 0;
        while i < faces.len()
            invariant
                self.wf(),
                orig.wf(),
                self@.width == orig.width,
                self@.height == orig.height,
                orig.width > 0,
                orig.height > 0,
                fv == face_views(faces@),
                faces_fit(fv, screen@),
                0 <= i <= faces@.len(),
                colors.len() == i,
                forall|k: int| 0 <= k < colors.len() ==> is_random_color(#[trigger] colors[k]),
                self@ == colored_faces_of(orig, fv.take(i as int), screen@, colors),
            decreases faces@.len() - i,
        {
            let face = &faces[i];
            assert(fv[i as int] == face.points@);
            let pts = vec![
                screen[face.points[0].vertices_index],
                screen[face.points[1].vertices_index],
                screen[face.points[2].vertices_index],
            ];
            let color = random_color();
            proof {
                lemma_colored_faces_prefix(orig, fv.take(i as int), screen@, colors, seq![color]);
            }
            self.triangle_barycentric(pts.as_slice(), color);
            proof {
                let next = colors.push(color);
                assert(colors + seq![color] =~= next);
                assert(fv.take(i + 1).drop_last() =~= fv.take(i as int));
                assert(fv.take(i + 1).last() == fv[i as int]);
                assert(next[i as int] == color);
                colors = next;
            }
            i = i + 1;
        }
        proof {
            assert(fv.take(i as int) =~= fv);
        }
    }
}

} // verus!
