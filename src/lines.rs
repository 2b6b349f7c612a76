//! Integer line drawing and wireframe triangles.
use vstd::prelude::*;

use crate::canvas::{lemma_pixel_index_bounds, Canvas, CanvasModel};
use crate::colors::{blue, blue_value, green, green_value, red, red_value, Rgba};
use crate::model::{Face, FacePoint};

verus! {

/// A point of the screen, in whole pixels.
#[derive(Clone, Copy, Debug, PartialEq, Eq, Structural)]
pub struct Point {
    pub x: i32,
    pub y: i32,
}

impl Point {
    pub fn new(x: i32, y: i32) -> (p: Point)
        ensures
            p == (Point { x, y }),
    {
        Point { x, y }
    }
}

pub open spec fn abs(v: int) -> int {
    if v < 0 {
        -v
    } else {
        v
    }
}

/// The endpoints of a line after the preparation of Bresenham's algorithm:
/// on a steep line x and y trade roles, then the endpoints are ordered by x.
pub struct LineSetup {
    pub steep: bool,
    pub x0: int,
    pub y0: int,
    pub x1: int,
    pub y1: int,
}

pub open spec fn line_setup(x0: int, y0: int, x1: int, y1: int) -> LineSetup {
    let steep = abs(x0 - x1) < abs(y0 - y1);
    let a0 = if steep {
        y0
    } else {
        x0
    };
    let b0 = if steep {
        x0
    } else {
        y0
    };
    let a1 = if steep {
        y1
    } else {
        x1
    };
    let b1 = if steep {
        x1
    } else {
        y1
    };
    if a0 > a1 {
        LineSetup { steep, x0: a1, y0: b1, x1: a0, y1: b0 }
    } else {
        LineSetup { steep, x0: a0, y0: b0, x1: a1, y1: b1 }
    }
}

/// After `k` columns of Bresenham's algorithm with run `dx` and doubled rise
/// `derror2`: how many rows the line has moved, and the doubled error term.
pub open spec fn bresenham(dx: int, derror2: int, k: nat) -> (int, int)
    decreases k,
{
    if k == 0 {
        (0, 0)
    } else {
        let prev = bresenham(dx, derror2, (k - 1) as nat);
        let e = prev.1 + derror2;
        if e > dx {
            (prev.0 + 1, e - 2 * dx)
        } else {
            (prev.0, e)
        }
    }
}

/// The `k`-th pixel of the line from (x0, y0) to (x1, y1).
pub open spec fn line_point(x0: int, y0: int, x1: int, y1: int, k: int) -> (int, int) {
    let s = line_setup(x0, y0, x1, y1);
    let c = bresenham(s.x1 - s.x0, 2 * abs(s.y1 - s.y0), k as nat).0;
    let y = if s.y1 > s.y0 {
        s.y0 + c
    } else {
        s.y0 - c
    };
    if s.steep {
        (y, s.x0 + k)
    } else {
        (s.x0 + k, y)
    }
}

/// The pixels of the line from (x0, y0) to (x1, y1), one per column of its
/// longer axis; the far endpoint is left out.
pub open spec fn line_points(x0: int, y0: int, x1: int, y1: int) -> Seq<(int, int)> {
    let s = line_setup(x0, y0, x1, y1);
    Seq::new((s.x1 - s.x0) as nat, |k: int| line_point(x0, y0, x1, y1, k))
}

/// The canvas after each of `pts`, in order, is painted `c`.
pub open spec fn painted(m: CanvasModel, pts: Seq<(int, int)>, c: Rgba) -> CanvasModel
    decreases pts.len(),
{
    if pts.len() == 0 {
        m
    } else {
        let p = pts.last();
        painted(m, pts.drop_last(), c).with_pixel(p.0, p.1, c)
    }
}


/// The three points ordered by y, the earlier of two with equal y first.
pub open spec fn sorted_by_y(a: Point, b: Point, c: Point) -> (Point, Point, Point) {
    if a.y <= b.y {
        if b.y <= c.y {
            (a, b, c)
        } else if a.y <= c.y {
            (a, c, b)
        } else {
            (c, a, b)
        }
    } else {
        if a.y <= c.y {
            (b, a, c)
        } else if b.y <= c.y {
            (b, c, a)
        } else {
            (c, b, a)
        }
    }
}

/// Orders three points by y, stably.
pub fn sort_by_y(a: Point, b: Point, c: Point) -> (r: (Point, Point, Point))
    ensures
        r == sorted_by_y(a, b, c),
{
    if a.y <= b.y {
        if b.y <= c.y {
            (a, b, c)
        } else if a.y <= c.y {
            (a, c, b)
        } else {
            (c, a, b)
        }
    } else {
        if a.y <= c.y {
            (b, a, c)
        } else if b.y <= c.y {
            (b, c, a)
        } else {
            (c, b, a)
        }
    }
}

pub open spec fn segment(a: Point, b: Point) -> Seq<(int, int)> {
    line_points(a.x as int, a.y as int, b.x as int, b.y as int)
}


/// The corners of each face.
pub open spec fn face_views(faces: Seq<Face>) -> Seq<Seq<FacePoint>> {
    faces.map_values(|f: Face| f@)
}

/// The canvas after the outline of each face is drawn in turn, each corner
/// at the screen point of its vertex.
pub open spec fn wireframe_of(
    m: CanvasModel,
    faces: Seq<Seq<FacePoint>>,
    screen: Seq<Point>,
    c: Rgba,
) -> CanvasModel
    decreases faces.len(),
{
    if faces.len() == 0 {
        m
    } else {
        let f = faces.last();
        let p0 = screen[f[0].vertices_index as int];
        let p1 = screen[f[1].vertices_index as int];
        let p2 = screen[f[2].vertices_index as int];
        let before = wireframe_of(m, faces.drop_last(), screen, c);
        painted(
            painted(painted(before, segment(p0, p1), c), segment(p1, p2), c),
            segment(p2, p0),
            c,
        )
    }
}

/// Faces that are triangles whose vertices all have a screen point.
pub open spec fn faces_fit(faces: Seq<Seq<FacePoint>>, screen: Seq<Point>) -> bool {
    forall|i: int|
        0 <= i < faces.len() ==> (#[trigger] faces[i]).len() == 3 && faces[i][0].vertices_index
            < screen.len() && faces[i][1].vertices_index < screen.len()
            && faces[i][2].vertices_index < screen.len()
}

proof fn lemma_bresenham_bounds(dx: int, dy: int, k: nat)
    requires
        0 <= dy <= dx,
        dx > 0,
    ensures
        -dx < bresenham(dx, 2 * dy, k).1 <= dx,
        bresenham(dx, 2 * dy, k).1 == 2 * k * dy - 2 * dx * bresenham(dx, 2 * dy, k).0,
        bresenham(dx, 2 * dy, k).0 >= 0,
    decreases k,
{
    if k > 0 {
        let j = (k - 1) as nat;
        lemma_bresenham_bounds(dx, dy, j);
        let c = bresenham(dx, 2 * dy, j).0;
        let e = bresenham(dx, 2 * dy, j).1;
        if e + 2 * dy > dx {
            assert(e + 2 * dy - 2 * dx == 2 * k * dy - 2 * dx * (c + 1)) by (nonlinear_arith)
                requires
                    e == 2 * j * dy - 2 * dx * c,
                    k == j + 1,
            ;
        } else {
            assert(e + 2 * dy == 2 * k * dy - 2 * dx * c) by (nonlinear_arith)
                requires
                    e == 2 * j * dy - 2 * dx * c,
                    k == j + 1,
            ;
        }
    } else {
        assert(2 * k * dy == 0 && 2 * dx * 0 == 0) by (nonlinear_arith)
            requires
                k == 0,
        ;
    }
}

proof fn lemma_bresenham_rows(dx: int, dy: int, k: nat)
    requires
        0 <= dy <= dx,
        dx > 0,
        k <= dx,
    ensures
        0 <= bresenham(dx, 2 * dy, k).0 <= dy,
{
    lemma_bresenham_bounds(dx, dy, k);
    let c = bresenham(dx, 2 * dy, k).0;
    let e = bresenham(dx, 2 * dy, k).1;
    assert(2 * k * dy <= 2 * dx * dy) by (nonlinear_arith)
        requires
            0 <= k <= dx,
            0 <= dy,
    ;
    assert(c <= dy) by (nonlinear_arith)
        requires
            e == 2 * k * dy - 2 * dx * c,
            -dx < e,
            2 * k * dy <= 2 * dx * dy,
            dx > 0,
    ;
}

/// Every pixel of a line lies in the box spanned by its endpoints.
pub proof fn lemma_line_point_bounds(x0: int, y0: int, x1: int, y1: int, k: int)
    requires
        0 <= k < line_points(x0, y0, x1, y1).len(),
    ensures
        ({
            let p = line_point(x0, y0, x1, y1, k);
            &&& (x0 <= p.0 <= x1 || x1 <= p.0 <= x0)
            &&& (y0 <= p.1 <= y1 || y1 <= p.1 <= y0)
        }),
{
    let s = line_setup(x0, y0, x1, y1);
    let dx = s.x1 - s.x0;
    let dy = abs(s.y1 - s.y0);
    lemma_bresenham_rows(dx, dy, k as nat);
}

/// A line drawn from its far endpoint back to its near one covers the same
/// pixels, in the same order.
pub proof fn lemma_line_points_reversed(x0: int, y0: int, x1: int, y1: int)
    ensures
        line_points(x0, y0, x1, y1) == line_points(x1, y1, x0, y0),
{
    let s = line_setup(x0, y0, x1, y1);
    let r = line_setup(x1, y1, x0, y0);
    if s.x1 != s.x0 {
        assert(s == r);
        assert(line_points(x0, y0, x1, y1) =~= line_points(x1, y1, x0, y0));
    } else {
        assert(r.x1 == r.x0);
        assert(line_points(x0, y0, x1, y1) =~= line_points(x1, y1, x0, y0));
    }
}

/// Drawing a line from either end paints the same canvas.
pub proof fn lemma_line_either_direction(m: CanvasModel, a: Point, b: Point, c: Rgba)
    ensures
        painted(m, line_points(a.x as int, a.y as int, b.x as int, b.y as int), c) == painted(
            m,
            line_points(b.x as int, b.y as int, a.x as int, a.y as int),
            c,
        ),
{
    lemma_line_points_reversed(a.x as int, a.y as int, b.x as int, b.y as int);
}

/// Painting pixels of a canvas keeps its size and its depths.
pub proof fn lemma_painted_shape(m: CanvasModel, pts: Seq<(int, int)>, c: Rgba)
    requires
        m.wf(),
        forall|k: int| 0 <= k < pts.len() ==> m.in_bounds(#[trigger] pts[k].0, pts[k].1),
    ensures
        painted(m, pts, c).wf(),
        painted(m, pts, c).width == m.width,
        painted(m, pts, c).height == m.height,
        painted(m, pts, c).depths == m.depths,
    decreases pts.len(),
{
    if pts.len() > 0 {
        let p = pts[pts.len() - 1];
        assert(m.in_bounds(p.0, p.1));
        assert forall|k: int|
            0 <= k < pts.drop_last().len() implies m.in_bounds(
            #[trigger] pts.drop_last()[k].0,
            pts.drop_last()[k].1,
        ) by {
            assert(pts.drop_last()[k] == pts[k]);
        }
        lemma_painted_shape(m, pts.drop_last(), c);
        lemma_pixel_index_bounds(m.width, m.height, p.0, p.1);
    }
}

impl Canvas {
    /// Draws the line from (x0, y0) towards (x1, y1) with Bresenham's
    /// algorithm in integer arithmetic, one pixel per column of the longer
    /// axis; the far endpoint itself is not drawn.
    pub fn line_fastest(&mut self, x0: i32, y0: i32, x1: i32, y1: i32, color: Rgba)
        requires
            old(self).wf(),
            old(self)@.in_bounds(x0 as int, y0 as int),
            old(self)@.in_bounds(x1 as int, y1 as int),
        ensures
            final(self).wf(),
            final(self)@ == painted(
                old(self)@,
                line_points(x0 as int, y0 as int, x1 as int, y1 as int),
                color,
            ),
            final(self)@.width == old(self)@.width,
            final(self)@.height == old(self)@.height,
            final(self)@.depths == old(self)@.depths,
    {
        let ghost orig = self@;
        let ghost pts = line_points(x0 as int, y0 as int, x1 as int, y1 as int);
        let ghost s = line_setup(x0 as int, y0 as int, x1 as int, y1 as int);
        let ax0 = x0 as i64;
        let ay0 = y0 as i64;
        let ax1 = x1 as i64;
        let ay1 = y1 as i64;
        let dx_abs = if ax0 > ax1 {
            ax0 - ax1
        } else {
            ax1 - ax0
        };
        let dy_abs = if ay0 > ay1 {
            ay0 - ay1
        } else {
            ay1 - ay0
        };
        let steep = dx_abs < dy_abs;
        let (mut a0, mut b0, mut a1, mut b1) = if steep {
            (ay0, ax0, ay1, ax1)
        } else {
            (ax0, ay0, ax1, ay1)
        };
        if a0 > a1 {
            let t = a0;
            a0 = a1;
            a1 = t;
            let t = b0;
            b0 = b1;
            b1 = t;
        }
        assert(s == (LineSetup { steep, x0: a0 as int, y0: b0 as int, x1: a1 as int, y1: b1 as int }));
        let dx = a1 - a0;
        let dy = b1 - b0;
        let derror2 = if dy < 0 {
            -dy * 2
        } else {
            dy * 2
        };
        let step: i64 = if b1 > b0 {
            1
        } else {
            -1
        };
        let mut error2: i64 = 0;
        let mut rows: i64 = 0;
        let mut y = b0;
        let mut x = a0;
        proof {
            assert(pts.take(0) =~= Seq::<(int, int)>::empty());
            assert forall|k: int| 0 <= k < pts.len() implies orig.in_bounds(
                #[trigger] pts[k].0,
                pts[k].1,
            ) by {
                lemma_line_point_bounds(x0 as int, y0 as int, x1 as int, y1 as int, k);
            }
        }
        while x < a1
            invariant
                self.wf(),
                orig.wf(),
                self@ == painted(orig, pts.take(x - a0), color),
                pts == line_points(x0 as int, y0 as int, x1 as int, y1 as int),
                s == line_setup(x0 as int, y0 as int, x1 as int, y1 as int),
                s == (LineSetup {
                    steep,
                    x0: a0 as int,
                    y0: b0 as int,
                    x1: a1 as int,
                    y1: b1 as int,
                }),
                orig.in_bounds(x0 as int, y0 as int),
                orig.in_bounds(x1 as int, y1 as int),
                dx == a1 - a0,
                dy == b1 - b0,
                derror2 == 2 * abs(dy as int),
                step == if b1 > b0 {
                    1int
                } else {
                    -1int
                },
                a0 <= x <= a1,
                (rows as int, error2 as int) == bresenham(dx as int, derror2 as int, (x - a0) as nat),
                y == if b1 > b0 {
                    b0 + rows
                } else {
                    b0 - rows
                },
                0 <= rows <= abs(dy as int),
                -dx <= error2 <= dx,
                pts.len() == dx,
                forall|k: int|
                    0 <= k < pts.len() ==> orig.in_bounds(#[trigger] pts[k].0, pts[k].1),
            decreases a1 - x,
        {
            proof {
                lemma_bresenham_bounds(dx as int, abs(dy as int), (x - a0) as nat);
                lemma_bresenham_rows(dx as int, abs(dy as int), (x - a0) as nat);
                lemma_line_point_bounds(x0 as int, y0 as int, x1 as int, y1 as int, x - a0);
                lemma_painted_shape(orig, pts.take(x - a0), color);
            }
            let ghost k = x - a0;
            assert(pts[k] == line_point(x0 as int, y0 as int, x1 as int, y1 as int, k));
            if steep {
                self.set_pixel(y as i32, x as i32, color);
            } else {
                self.set_pixel(x as i32, y as i32, color);
            }
            proof {
                assert(pts.take(k + 1).drop_last() =~= pts.take(k));
                assert(pts.take(k + 1).last() == pts[k]);
            }
            error2 = error2 + derror2;
            if error2 > dx {
                y = y + step;
                rows = rows + 1;
                error2 = error2 - dx * 2;
            }
            x = x + 1;
            proof {
                lemma_bresenham_rows(dx as int, abs(dy as int), (x - a0) as nat);
                lemma_bresenham_bounds(dx as int, abs(dy as int), (x - a0) as nat);
            }
        }
        proof {
            assert(pts.take(x - a0) =~= pts);
            lemma_painted_shape(orig, pts, color);
        }
    }

    /// Draws the line from `p1` towards `p2`.
    pub fn line(&mut self, p1: Point, p2: Point, color: Rgba)
        requires
            old(self).wf(),
            old(self)@.in_bounds(p1.x as int, p1.y as int),
            old(self)@.in_bounds(p2.x as int, p2.y as int),
        ensures
            final(self).wf(),
            final(self)@ == painted(old(self)@, segment(p1, p2), color),
            final(self)@.width == old(self)@.width,
            final(self)@.height == old(self)@.height,
            final(self)@.depths == old(self)@.depths,
    {
        self.line_fastest(p1.x, p1.y, p2.x, p2.y, color);
    }

    /// Draws the outline of a triangle: its three edges in turn.
    pub fn triangle_wireframe(&mut self, t0: Point, t1: Point, t2: Point, color: Rgba)
        requires
            old(self).wf(),
            old(self)@.in_bounds(t0.x as int, t0.y as int),
            old(self)@.in_bounds(t1.x as int, t1.y as int),
            old(self)@.in_bounds(t2.x as int, t2.y as int),
        ensures
            final(self).wf(),
            final(self)@ == painted(
                painted(painted(old(self)@, segment(t0, t1), color), segment(t1, t2), color),
                segment(t2, t0),
                color,
            ),
            final(self)@.width == old(self)@.width,
            final(self)@.height == old(self)@.height,
            final(self)@.depths == old(self)@.depths,
    {
        self.line(t0, t1, color);
        self.line(t1, t2, color);
        self.line(t2, t0, color);
    }

    /// Draws the outline of a triangle with its edges told apart: from the
    /// lowest to the highest vertex in red, from the lowest to the middle one
    /// in green, from the middle to the highest one in blue (by y).
    pub fn triangle_debug(&mut self, t0: Point, t1: Point, t2: Point)
        requires
            old(self).wf(),
            old(self)@.in_bounds(t0.x as int, t0.y as int),
            old(self)@.in_bounds(t1.x as int, t1.y as int),
            old(self)@.in_bounds(t2.x as int, t2.y as int),
        ensures
            final(self).wf(),
            ({
                let (a, b, c) = sorted_by_y(t0, t1, t2);
                final(self)@ == painted(
                    painted(
                        painted(old(self)@, segment(c, a), red_value()),
                        segment(a, b),
                        green_value(),
                    ),
                    segment(b, c),
                    blue_value(),
                )
            }),
    {
        let (a, b, c) = sort_by_y(t0, t1, t2);
        self.line(c, a, red());
        self.line(a, b, green());
        self.line(b, c, blue());
    }

    /// Draws the outline of every face, each corner at the screen point of
    /// its vertex.
    pub fn model_wireframe(&mut self, faces: &Vec<Face>, screen: &Vec<Point>, color: Rgba)
        requires
            old(self).wf(),
            faces_fit(face_views(faces@), screen@),
            forall|k: int|
                0 <= k < screen@.len() ==> old(self)@.in_bounds(
                    #[trigger] screen@[k].x as int,
                    screen@[k].y as int,
                ),
        ensures
            final(self).wf(),
            final(self)@ == wireframe_of(old(self)@, face_views(faces@), screen@, color),
    {
        let ghost orig = self@;
        let ghost fv = face_views(faces@);
        let mut i: usize = 0;
        while i < faces.len()
            invariant
                self.wf(),
                self@.width == orig.width,
                self@.height == orig.height,
                fv == face_views(faces@),
                faces_fit(fv, screen@),
                forall|k: int|
                    0 <= k < screen@.len() ==> orig.in_bounds(
                        #[trigger] screen@[k].x as int,
                        screen@[k].y as int,
                    ),
                0 <= i <= faces@.len(),
                self@ == wireframe_of(orig, fv.take(i as int), screen@, color),
            decreases faces@.len() - i,
        {
            let face = &faces[i];
            assert(fv[i as int] == face.points@);
            let p0 = screen[face.points[0].vertices_index];
            let p1 = screen[face.points[1].vertices_index];
            let p2 = screen[face.points[2].vertices_index];
            self.triangle_wireframe(p0, p1, p2, color);
            proof {
                assert(fv.take(i + 1).drop_last() =~= fv.take(i as int));
                assert(fv.take(i + 1).last() == fv[i as int]);
            }
            i = i + 1;
        }
        proof {
            assert(fv.take(i as int) =~= fv);
        }
    }
}

} // verus!
