use vstd::prelude::*;

use crate::colors::Rgba;
use crate::depth::Depth;

verus! {

/// Position of pixel (x, y) in a row-major buffer whose rows are `width` long.
pub open spec fn pixel_index(width: nat, x: int, y: int) -> int {
    y * width + x
}

pub proof fn lemma_pixel_index_bounds(width: nat, height: nat, x: int, y: int)
    requires
        0 <= x < width,
        0 <= y < height,
    ensures
        0 <= pixel_index(width, x, y) < width * height,
        pixel_index(width, x, y) <= y * width + x,
{
    assert(0 <= y * width) by (nonlinear_arith)
        requires
            0 <= y,
    ;
    assert(y * width + x < width * height) by (nonlinear_arith)
        requires
            0 <= x < width,
            0 <= y < height,
    ;
}

pub proof fn lemma_row_start_bounds(width: nat, height: nat, y: int)
    requires
        0 <= y < height,
    ensures
        0 <= y * width,
        y * width + width <= width * height,
{
    assert(0 <= y * width && y * width + width <= width * height) by (nonlinear_arith)
        requires
            0 <= y < height,
    ;
}

pub proof fn lemma_pixel_index_injective(width: nat, x1: int, y1: int, x2: int, y2: int)
    requires
        0 <= x1 < width,
        0 <= x2 < width,
        0 <= y1,
        0 <= y2,
        pixel_index(width, x1, y1) == pixel_index(width, x2, y2),
    ensures
        x1 == x2,
        y1 == y2,
{
    assert(y1 == y2) by (nonlinear_arith)
        requires
            0 <= x1 < width,
            0 <= x2 < width,
            0 <= y1,
            0 <= y2,
            y1 * width + x1 == y2 * width + x2,
    ;
}

pub proof fn lemma_pixel_index_split(width: nat, height: nat, i: int)
    requires
        0 <= i < width * height,
    ensures
        0 <= i % (width as int) < width,
        0 <= i / (width as int) < height,
        i == pixel_index(width, i % (width as int), i / (width as int)),
{
    let w = width as int;
    assert(w > 0) by (nonlinear_arith)
        requires
            0 <= i < width * height,
            w == width,
    ;
    vstd::arithmetic::div_mod::lemma_fundamental_div_mod(i, w);
    vstd::arithmetic::div_mod::lemma_mod_bound(i, w);
    vstd::arithmetic::div_mod::lemma_div_pos_is_pos(i, w);
    assert(i / w < height) by (nonlinear_arith)
        requires
            w > 0,
            i == w * (i / w) + i % w,
            0 <= i % w,
            i < w * height,
    ;
    assert(i == (i / w) * w + i % w) by (nonlinear_arith)
        requires
            i == w * (i / w) + i % w,
    ;
}

/// The mathematical content of a canvas.
pub struct CanvasModel {
    pub width: nat,
    pub height: nat,
    /// Colours, row-major.
    pub pixels: Seq<Rgba>,
    /// Depths, row-major.
    pub depths: Seq<Depth>,
}

impl CanvasModel {
    /// Both buffers hold exactly one entry per pixel.
    pub open spec fn wf(self) -> bool {
        &&& self.pixels.len() == self.width * self.height
        &&& self.depths.len() == self.width * self.height
    }

    pub open spec fn in_bounds(self, x: int, y: int) -> bool {
        0 <= x < self.width && 0 <= y < self.height
    }

    pub open spec fn pixel(self, x: int, y: int) -> Rgba {
        self.pixels[pixel_index(self.width, x, y)]
    }

    pub open spec fn depth(self, x: int, y: int) -> Depth {
        self.depths[pixel_index(self.width, x, y)]
    }

    pub open spec fn with_pixel(self, x: int, y: int, c: Rgba) -> CanvasModel {
        CanvasModel { pixels: self.pixels.update(pixel_index(self.width, x, y), c), ..self }
    }

    pub open spec fn with_depth(self, x: int, y: int, d: Depth) -> CanvasModel {
        CanvasModel { depths: self.depths.update(pixel_index(self.width, x, y), d), ..self }
    }

    /// The canvas after a fragment of colour `c` at depth `z` reaches pixel
    /// (x, y): it is kept only where it lies strictly nearer than what the
    /// depth buffer holds there, so the first of equal depths wins and a NaN
    /// on either side keeps nothing.
    pub open spec fn with_fragment(self, x: int, y: int, z: Depth, c: Rgba) -> CanvasModel {
        if z.nearer(self.depth(x, y)) {
            self.with_pixel(x, y, c).with_depth(x, y, z)
        } else {
            self
        }
    }

    /// The canvas with its rows in reverse order; depths are left alone.
    pub open spec fn flipped(self) -> CanvasModel {
        let w = self.width as int;
        let h = self.height as int;
        CanvasModel {
            pixels: Seq::new(
                self.pixels.len(),
                |i: int| self.pixels[pixel_index(self.width, i % w, h - 1 - i / w)],
            ),
            ..self
        }
    }
}

/// A fragment offered to a canvas: a pixel, a depth and a colour.
pub struct Fragment {
    pub x: int,
    pub y: int,
    pub z: Depth,
    pub color: Rgba,
}

/// The canvas after the fragments are offered to it in order.
pub open spec fn with_fragments(m: CanvasModel, frags: Seq<Fragment>) -> CanvasModel
    decreases frags.len(),
{
    if frags.len() == 0 {
        m
    } else {
        let f = frags.last();
        with_fragments(m, frags.drop_last()).with_fragment(f.x, f.y, f.z, f.color)
    }
}

/// The largest of `start` and the ranks of the fragments that reach (x, y).
pub open spec fn max_rank_at(frags: Seq<Fragment>, x: int, y: int, start: int) -> int
    decreases frags.len(),
{
    if frags.len() == 0 {
        start
    } else {
        let f = frags.last();
        let before = max_rank_at(frags.drop_last(), x, y, start);
        if f.x == x && f.y == y && f.z.rank() > before {
            f.z.rank()
        } else {
            before
        }
    }
}

/// No fragment carries a NaN depth.
pub open spec fn fragments_are_numbers(frags: Seq<Fragment>) -> bool {
    forall|k: int| 0 <= k < frags.len() ==> !(#[trigger] frags[k]).z.is_nan()
}

pub open spec fn fragments_in_bounds(m: CanvasModel, frags: Seq<Fragment>) -> bool {
    forall|k: int| 0 <= k < frags.len() ==> m.in_bounds(#[trigger] frags[k].x, frags[k].y)
}

/// Whatever fragments reach a canvas, its two buffers keep one entry per
/// pixel and its size does not change.
pub proof fn lemma_fragments_keep_shape(m: CanvasModel, frags: Seq<Fragment>)
    requires
        m.wf(),
        fragments_in_bounds(m, frags),
    ensures
        with_fragments(m, frags).wf(),
        with_fragments(m, frags).width == m.width,
        with_fragments(m, frags).height == m.height,
    decreases frags.len(),
{
    if frags.len() > 0 {
        let f = frags.last();
        assert(m.in_bounds(frags[frags.len() - 1].x, frags[frags.len() - 1].y));
        lemma_fragments_keep_shape(m, frags.drop_last());
        lemma_pixel_index_bounds(m.width, m.height, f.x, f.y);
    }
}

/// After any sequence of fragments, the depth of every pixel is the largest
/// of its first depth and the depths of the fragments that reached it: the
/// depth buffer holds the nearest fragment written so far.
pub proof fn lemma_depth_is_nearest_fragment(
    m: CanvasModel,
    frags: Seq<Fragment>,
    x: int,
    y: int,
)
    requires
        m.wf(),
        fragments_in_bounds(m, frags),
        fragments_are_numbers(frags),
        m.in_bounds(x, y),
        !m.depth(x, y).is_nan(),
    ensures
        with_fragments(m, frags).depth(x, y).rank() == max_rank_at(
            frags,
            x,
            y,
            m.depth(x, y).rank(),
        ),
        !with_fragments(m, frags).depth(x, y).is_nan(),
    decreases frags.len(),
{
    if frags.len() > 0 {
        let f = frags.last();
        let rest = frags.drop_last();
        assert(m.in_bounds(frags[frags.len() - 1].x, frags[frags.len() - 1].y));
        assert(!frags[frags.len() - 1].z.is_nan());
        assert(fragments_are_numbers(rest)) by {
            assert forall|k: int| 0 <= k < rest.len() implies !(#[trigger] rest[k]).z.is_nan() by {
                assert(rest[k] == frags[k]);
            }
        }
        assert(fragments_in_bounds(m, rest)) by {
            assert forall|k: int| 0 <= k < rest.len() implies m.in_bounds(
                #[trigger] rest[k].x,
                rest[k].y,
            ) by {
                assert(rest[k] == frags[k]);
            }
        }
        lemma_depth_is_nearest_fragment(m, rest, x, y);
        lemma_fragments_keep_shape(m, rest);
        lemma_pixel_index_bounds(m.width, m.height, f.x, f.y);
        lemma_pixel_index_bounds(m.width, m.height, x, y);
        if pixel_index(m.width, x, y) == pixel_index(m.width, f.x, f.y) {
            lemma_pixel_index_injective(m.width, x, y, f.x, f.y);
        }
    }
}

/// Offering a canvas fragments none of which lies nearer than what its
/// pixel already holds leaves the canvas as it was; and it is left as it was
/// only then.
pub proof fn lemma_fragments_idempotent(m: CanvasModel, frags: Seq<Fragment>)
    requires
        m.wf(),
        fragments_in_bounds(m, frags),
        fragments_are_numbers(frags),
        forall|k: int|
            0 <= k < frags.len() ==> !m.depth((#[trigger] frags[k]).x, frags[k].y).is_nan(),
    ensures
        with_fragments(m, frags) == m <==> forall|k: int|
            0 <= k < frags.len() ==> (#[trigger] frags[k]).z.rank() <= m.depth(
                frags[k].x,
                frags[k].y,
            ).rank(),
{
    if forall|k: int|
        0 <= k < frags.len() ==> (#[trigger] frags[k]).z.rank() <= m.depth(
            frags[k].x,
            frags[k].y,
        ).rank() {
        lemma_no_nearer_fragment_unchanged(m, frags);
    }
    if with_fragments(m, frags) == m {
        assert forall|k: int| 0 <= k < frags.len() implies (#[trigger] frags[k]).z.rank()
            <= m.depth(frags[k].x, frags[k].y).rank() by {
            assert(m.in_bounds(frags[k].x, frags[k].y));
            lemma_depth_is_nearest_fragment(m, frags, frags[k].x, frags[k].y);
            lemma_max_rank_covers(frags, k, m.depth(frags[k].x, frags[k].y).rank());
        }
    }
}

proof fn lemma_no_nearer_fragment_unchanged(m: CanvasModel, frags: Seq<Fragment>)
    requires
        m.wf(),
        fragments_in_bounds(m, frags),
        forall|k: int|
            0 <= k < frags.len() ==> (#[trigger] frags[k]).z.rank() <= m.depth(
                frags[k].x,
                frags[k].y,
            ).rank(),
    ensures
        with_fragments(m, frags) == m,
    decreases frags.len(),
{
    if frags.len() > 0 {
        let rest = frags.drop_last();
        assert forall|k: int| 0 <= k < rest.len() implies (#[trigger] rest[k]).z.rank()
            <= m.depth(rest[k].x, rest[k].y).rank() by {
            assert(rest[k] == frags[k]);
        }
        assert(fragments_in_bounds(m, rest)) by {
            assert forall|k: int| 0 <= k < rest.len() implies m.in_bounds(
                #[trigger] rest[k].x,
                rest[k].y,
            ) by {
                assert(rest[k] == frags[k]);
            }
        }
        lemma_no_nearer_fragment_unchanged(m, rest);
        assert(frags[frags.len() - 1] == frags.last());
    }
}

proof fn lemma_max_rank_covers(frags: Seq<Fragment>, k: int, start: int)
    requires
        0 <= k < frags.len(),
    ensures
        max_rank_at(frags, frags[k].x, frags[k].y, start) >= frags[k].z.rank(),
        max_rank_at(frags, frags[k].x, frags[k].y, start) >= start,
    decreases frags.len(),
{
    lemma_max_rank_at_least_start(frags, frags[k].x, frags[k].y, start);
    if k < frags.len() - 1 {
        let rest = frags.drop_last();
        assert(rest[k] == frags[k]);
        lemma_max_rank_covers(rest, k, start);
    }
}

proof fn lemma_max_rank_at_least_start(frags: Seq<Fragment>, x: int, y: int, start: int)
    ensures
        max_rank_at(frags, x, y, start) >= start,
    decreases frags.len(),
{
    if frags.len() > 0 {
        lemma_max_rank_at_least_start(frags.drop_last(), x, y, start);
    }
}

/// Flipping the rows of a canvas twice gives back the canvas.
pub proof fn lemma_flip_y_twice(m: CanvasModel)
    requires
        m.wf(),
    ensures
        m.flipped().flipped() == m,
{
    let w = m.width as int;
    let h = m.height as int;
    let once = m.flipped();
    let twice = once.flipped();
    assert forall|i: int| 0 <= i < m.pixels.len() implies twice.pixels[i] == m.pixels[i] by {
        lemma_pixel_index_split(m.width, m.height, i);
        let x = i % w;
        let y = i / w;
        let j = pixel_index(m.width, x, h - 1 - y);
        lemma_pixel_index_bounds(m.width, m.height, x, h - 1 - y);
        lemma_pixel_index_split(m.width, m.height, j);
        lemma_pixel_index_injective(m.width, j % w, j / w, x, h - 1 - y);
    }
    assert(twice.pixels =~= m.pixels);
}

/// A colour buffer and a depth buffer of the same size, row-major.
#[derive(Clone, Debug)]
pub struct Canvas {
    width: usize,
    height: usize,
    pixels: Vec<Rgba>,
    z_buffer: Vec<Depth>,
}

impl View for Canvas {
    type V = CanvasModel;

    closed spec fn view(&self) -> CanvasModel {
        CanvasModel {
            width: self.width as nat,
            height: self.height as nat,
            pixels: self.pixels@,
            depths: self.z_buffer@,
        }
    }
}

impl Canvas {
    pub open spec fn wf(&self) -> bool {
        self@.wf()
    }

    /// A canvas of `width` by `height` pixels, all of colour (0, 0, 0, 0) and
    /// at depth negative infinity.
    pub fn new(width: usize, height: usize) -> (c: Canvas)
        requires
            width * height <= usize::MAX,
        ensures
            c.wf(),
            c@.width == width,
            c@.height == height,
            forall|i: int|
                0 <= i < width * height ==> #[trigger] c@.pixels[i] == (Rgba {
                    r: 0,
                    g: 0,
                    b: 0,
                    a: 0,
                }),
            forall|i: int|
                0 <= i < width * height ==> #[trigger] c@.depths[i] == Depth::neg_infinity_value(),
    {
        let n = width * height;
        let mut pixels: Vec<Rgba> = Vec::new();
        let mut z_buffer: Vec<Depth> = Vec::new();
        let mut i: usize = 0;
        while i < n
            invariant
                i <= n,
                n == width * height,
                pixels@.len() == i,
                z_buffer@.len() == i,
                forall|j: int| 0 <= j < i ==> #[trigger] pixels@[j] == (Rgba { r: 0, g: 0, b: 0, a: 0 }),
                forall|j: int| 0 <= j < i ==> #[trigger] z_buffer@[j] == Depth::neg_infinity_value(),
            decreases n - i,
        {
            pixels.push(Rgba { r: 0, g: 0, b: 0, a: 0 });
            z_buffer.push(Depth::neg_infinity());
            i = i + 1;
        }
        Canvas { width, height, pixels, z_buffer }
    }

    pub fn width(&self) -> (w: usize)
        ensures
            w == self@.width,
    {
        self.width
    }

    pub fn height(&self) -> (h: usize)
        ensures
            h == self@.height,
    {
        self.height
    }

    /// The colour buffer, row-major.
    pub fn pixels(&self) -> (p: &[Rgba])
        ensures
            p@ == self@.pixels,
    {
        self.pixels.as_slice()
    }

    /// A handle on the whole colour buffer, row-major; the depth buffer and
    /// the size stay as they are.
    pub fn pixels_mut(&mut self) -> (p: &mut [Rgba])
        ensures
            p@ == old(self)@.pixels,
            final(self)@ == (CanvasModel { pixels: final(p)@, ..old(self)@ }),
    {
        self.pixels.as_mut_slice()
    }

    /// The depth buffer, row-major.
    pub fn z_buffer(&self) -> (z: &[Depth])
        ensures
            z@ == self@.depths,
    {
        self.z_buffer.as_slice()
    }

    fn index(&self, x: i32, y: i32) -> (i: usize)
        requires
            self.wf(),
            self@.in_bounds(x as int, y as int),
        ensures
            i == pixel_index(self@.width, x as int, y as int),
            i < self@.pixels.len(),
    {
        let n = self.pixels.len();
        proof {
            lemma_pixel_index_bounds(self@.width, self@.height, x as int, y as int);
        }
        let row = y as usize * self.width;
        row + x as usize
    }

    pub fn pixel(&self, x: i32, y: i32) -> (c: Rgba)
        requires
            self.wf(),
            self@.in_bounds(x as int, y as int),
        ensures
            c == self@.pixel(x as int, y as int),
    {
        let i = self.index(x, y);
        self.pixels[i]
    }

    /// A handle on the colour of pixel (x, y).
    pub fn pixel_mut(&mut self, x: i32, y: i32) -> (p: &mut Rgba)
        requires
            old(self).wf(),
            old(self)@.in_bounds(x as int, y as int),
        ensures
            *p == old(self)@.pixel(x as int, y as int),
            final(self)@ == old(self)@.with_pixel(x as int, y as int, *final(p)),
    {
        let i = self.index(x, y);
        &mut self.pixels[i]
    }

    pub fn z_buffer_at(&self, x: i32, y: i32) -> (d: Depth)
        requires
            self.wf(),
            self@.in_bounds(x as int, y as int),
        ensures
            d == self@.depth(x as int, y as int),
    {
        let i = self.index(x, y);
        self.z_buffer[i]
    }

    /// A handle on the depth of pixel (x, y).
    pub fn z_buffer_at_mut(&mut self, x: i32, y: i32) -> (d: &mut Depth)
        requires
            old(self).wf(),
            old(self)@.in_bounds(x as int, y as int),
        ensures
            *d == old(self)@.depth(x as int, y as int),
            final(self)@ == old(self)@.with_depth(x as int, y as int, *final(d)),
    {
        let i = self.index(x, y);
        &mut self.z_buffer[i]
    }

    /// Reverses the order of the rows of the colour buffer, so that row y and
    /// row height - 1 - y trade places. The depth buffer is left alone.
    pub fn flip_y(&mut self)
        requires
            old(self).wf(),
        ensures
            final(self).wf(),
            final(self)@ == old(self)@.flipped(),
    {
        let width = self.width;
        let height = self.height;
        let ghost orig = self@;
        let ghost w = width as nat;
        let ghost h = height as int;
        let n = self.pixels.len();
        let mut y: usize = 0;
        while y < height / 2
            invariant
                self.wf(),
                self.width == width,
                self.height == height,
                orig.width == width,
                orig.height == height,
                orig.wf(),
                w == width,
                h == height,
                width * height <= usize::MAX,
                self.z_buffer@ == orig.depths,
                y <= height / 2,
                forall|xx: int, yy: int|
                    0 <= xx < width && 0 <= yy < height ==> #[trigger] self@.pixel(xx, yy) == if yy
                        < y || yy >= h - y {
                        orig.pixel(xx, h - 1 - yy)
                    } else {
                        orig.pixel(xx, yy)
                    },
            decreases height / 2 - y,
        {
            let ghost y_int = y as int;
            proof {
                lemma_row_start_bounds(w, height as nat, y as int);
                lemma_row_start_bounds(w, height as nat, h - 1 - y);
            }
            let y0 = y * width;
            let y1 = (height - y - 1) * width;
            let mut x: usize = 0;
            while x < width
                invariant
                    self.wf(),
                    self.width == width,
                    self.height == height,
                    orig.width == width,
                    orig.height == height,
                    orig.wf(),
                    w == width,
                    h == height,
                    width * height <= usize::MAX,
                    self.z_buffer@ == orig.depths,
                    y < height / 2,
                    y_int == y,
                    y0 == y * width,
                    y1 == (h - 1 - y) * width,
                    x <= width,
                    forall|xx: int, yy: int|
                        0 <= xx < width && 0 <= yy < height ==> #[trigger] self@.pixel(xx, yy)
                            == if yy < y || yy >= h - y || ((yy == y || yy == h - 1 - y) && xx
                            < x) {
                            orig.pixel(xx, h - 1 - yy)
                        } else {
                            orig.pixel(xx, yy)
                        },
                decreases width - x,
            {
                proof {
                    lemma_pixel_index_bounds(w, height as nat, x as int, y as int);
                    lemma_pixel_index_bounds(w, height as nat, x as int, h - 1 - y);
                }
                let a = y0 + x;
                let b = y1 + x;
                let ghost before = self@;
                let pa = self.pixels[a];
                let pb = self.pixels[b];
                self.pixels.set(a, pb);
                self.pixels.set(b, pa);
                proof {
                    assert forall|xx: int, yy: int|
                        0 <= xx < width && 0 <= yy < height implies #[trigger] self@.pixel(xx, yy)
                            == if yy < y || yy >= h - y || ((yy == y || yy == h - 1 - y) && xx
                            < x + 1) {
                            orig.pixel(xx, h - 1 - yy)
                        } else {
                            orig.pixel(xx, yy)
                        } by {
                        lemma_pixel_index_bounds(w, height as nat, xx, yy);
                        let before_a = before.pixel(x as int, y as int);
                        let before_b = before.pixel(x as int, h - 1 - y);
                        let before_here = before.pixel(xx, yy);
                        assert(pa == before_a);
                        assert(pb == before_b);
                        if pixel_index(w, xx, yy) == a as int {
                            lemma_pixel_index_injective(w, xx, yy, x as int, y as int);
                            assert(self@.pixel(xx, yy) == pb);
                        } else if pixel_index(w, xx, yy) == b as int {
                            lemma_pixel_index_injective(w, xx, yy, x as int, h - 1 - y);
                            assert(self@.pixel(xx, yy) == pa);
                        } else {
                            assert(self@.pixel(xx, yy) == before_here);
                        }
                    }
                }
                x = x + 1;
            }
            y = y + 1;
        }
        proof {
            let cur = self@;
            let target = orig.flipped();
            assert forall|i: int| 0 <= i < cur.pixels.len() implies cur.pixels[i]
                == target.pixels[i] by {
                lemma_pixel_index_split(w, height as nat, i);
                let xx = i % (w as int);
                let yy = i / (w as int);
                assert(cur.pixel(xx, yy) == orig.pixel(xx, h - 1 - yy));
            }
            assert(cur.pixels =~= target.pixels);
        }
    }

    pub fn set_pixel(&mut self, x: i32, y: i32, c: Rgba)
        requires
            old(self).wf(),
            old(self)@.in_bounds(x as int, y as int),
        ensures
            final(self)@ == old(self)@.with_pixel(x as int, y as int, c),
            final(self).wf(),
    {
        let i = self.index(x, y);
        self.pixels.set(i, c);
    }

    /// Whether a fragment at depth `z` would pass the depth test at (x, y).
    pub fn depth_test(&self, x: i32, y: i32, z: Depth) -> (r: bool)
        requires
            self.wf(),
            self@.in_bounds(x as int, y as int),
        ensures
            r == z.nearer(self@.depth(x as int, y as int)),
    {
        let i = self.index(x, y);
        z.is_nearer_than(&self.z_buffer[i])
    }

    /// Offers a fragment of colour `c` at depth `z` to pixel (x, y). It is
    /// written, colour and depth, only if it passes the depth test.
    pub fn put_fragment(&mut self, x: i32, y: i32, z: Depth, c: Rgba) -> (written: bool)
        requires
            old(self).wf(),
            old(self)@.in_bounds(x as int, y as int),
        ensures
            final(self).wf(),
            final(self)@ == old(self)@.with_fragment(x as int, y as int, z, c),
            written == z.nearer(old(self)@.depth(x as int, y as int)),
    {
        let i = self.index(x, y);
        if z.is_nearer_than(&self.z_buffer[i]) {
            self.z_buffer.set(i, z);
            self.pixels.set(i, c);
            true
        } else {
            false
        }
    }
}

} // verus!
