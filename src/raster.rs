use vstd::prelude::*;

verus! {

/// Depth that a cleared pixel holds. It stands for an infinitely far depth:
/// no fragment is farther, and a fragment at this depth never passes the test.
pub const DEPTH_CLEAR: i32 = 2147483647;

/// A CPU-resident render target: packed RGBA8 pixels in row-major order and a
/// depth value per pixel, both of `width * height` entries.
pub struct SoftwareDevice {
    pub framebuffer: Vec<u32>,
    pub depthbuffer: Vec<i32>,
    pub width: usize,
    pub height: usize,
}

/// Row-major index of pixel `(x, y)` in a buffer `w` pixels wide.
pub open spec fn pixel_index(w: int, x: int, y: int) -> int {
    y * w + x
}

pub(crate) proof fn lemma_index_in_range(w: int, h: int, x: int, y: int)
    requires
        0 <= x < w,
        0 <= y < h,
    ensures
        0 <= pixel_index(w, x, y) < w * h,
{
    assert(0 <= y * w + x < w * h) by (nonlinear_arith)
        requires
            0 <= x < w,
            0 <= y < h,
    ;
}

pub(crate) proof fn lemma_index_unique(w: int, x1: int, y1: int, x2: int, y2: int)
    requires
        0 <= x1 < w,
        0 <= x2 < w,
        0 <= y1,
        0 <= y2,
        x1 != x2 || y1 != y2,
    ensures
        pixel_index(w, x1, y1) != pixel_index(w, x2, y2),
{
    if y1 == y2 {
    } else if y1 < y2 {
        assert(y1 * w + x1 < y2 * w + x2) by (nonlinear_arith)
            requires
                0 <= x1 < w,
                0 <= x2 < w,
                y1 < y2,
        ;
    } else {
        assert(y2 * w + x2 < y1 * w + x1) by (nonlinear_arith)
            requires
                0 <= x1 < w,
                0 <= x2 < w,
                y2 < y1,
        ;
    }
}


/// `|a - b|`.
pub open spec fn span(a: int, b: int) -> int {
    if a <= b { b - a } else { a - b }
}

/// The coordinate `n` steps from `a` towards `b`.
pub open spec fn advance(a: int, b: int, n: int) -> int {
    if a < b { a + n } else { a - n }
}

/// After `k` steps along the major axis of a line whose extents are `minor`
/// and `major`, the offset along its minor axis: `k * minor / major` rounded
/// to the nearest integer, halves rounded up.
pub open spec fn minor_offset(k: int, minor: int, major: int) -> int {
    if major == 0 { 0 } else { (2 * minor * k + major) / (2 * major) }
}

/// Number of steps of the line from `(x0, y0)` to `(x1, y1)`: its extent along
/// the major axis. The line covers one more pixel than that.
pub open spec fn line_steps(x0: int, y0: int, x1: int, y1: int) -> int {
    if span(x0, x1) >= span(y0, y1) { span(x0, x1) } else { span(y0, y1) }
}

/// Pixel `k` of the line from `(x0, y0)` to `(x1, y1)`: `k` steps along the
/// major axis, and the nearest pixel to the ideal line across it.
pub open spec fn line_point(x0: int, y0: int, x1: int, y1: int, k: int) -> (int, int) {
    let dx = span(x0, x1);
    let dy = span(y0, y1);
    if dx >= dy {
        (advance(x0, x1, k), advance(y0, y1, minor_offset(k, dy, dx)))
    } else {
        (advance(x0, x1, minor_offset(k, dx, dy)), advance(y0, y1, k))
    }
}

/// `(x, y)` is one of the first `n` pixels of the line.
pub open spec fn on_line_prefix(x0: int, y0: int, x1: int, y1: int, n: int, x: int, y: int) -> bool {
    exists|k: int| 0 <= k < n && #[trigger] line_point(x0, y0, x1, y1, k) == (x, y)
}

/// `(x, y)` is a pixel of the line, endpoints included.
pub open spec fn on_line(x0: int, y0: int, x1: int, y1: int, x: int, y: int) -> bool {
    on_line_prefix(x0, y0, x1, y1, line_steps(x0, y0, x1, y1) + 1, x, y)
}

proof fn lemma_minor_offset_bounds(k: int, m: int, big: int)
    requires
        0 <= m <= big,
        0 < big,
        0 <= k,
    ensures
        2 * big * minor_offset(k, m, big) <= 2 * m * k + big,
        2 * m * k + big < 2 * big * minor_offset(k, m, big) + 2 * big,
        0 <= minor_offset(k, m, big),
        k <= big ==> minor_offset(k, m, big) <= m,
        minor_offset(big, m, big) == m,
        minor_offset(0, m, big) == 0,
{
    assert(2 * m * 0 + big == 0 * (2 * big) + big) by (nonlinear_arith);
    vstd::arithmetic::div_mod::lemma_fundamental_div_mod_converse(2 * m * 0 + big, 2 * big, 0, big);
    let q = minor_offset(k, m, big);
    let n = 2 * m * k + big;
    assert(n >= 0) by (nonlinear_arith)
        requires
            0 <= m,
            0 < big,
            0 <= k,
            n == 2 * m * k + big,
    ;
    vstd::arithmetic::div_mod::lemma_fundamental_div_mod(n, 2 * big);
    vstd::arithmetic::div_mod::lemma_mod_pos_bound(n, 2 * big);
    vstd::arithmetic::div_mod::lemma_div_pos_is_pos(n, 2 * big);
    assert(2 * big * q == (2 * big) * (n / (2 * big)));
    if k <= big {
        assert(m * k <= m * big) by (nonlinear_arith)
            requires
                0 <= m,
                k <= big,
        ;
        assert(2 * m * k + big < 2 * big * (m + 1)) by (nonlinear_arith)
            requires
                m * k <= m * big,
                0 < big,
        ;
        assert(q <= m) by (nonlinear_arith)
            requires
                2 * big * q <= 2 * m * k + big,
                2 * m * k + big < 2 * big * (m + 1),
                0 < big,
        ;
    }
    assert(2 * m * big + big == m * (2 * big) + big) by (nonlinear_arith);
    vstd::arithmetic::div_mod::lemma_fundamental_div_mod_converse(
        2 * m * big + big,
        2 * big,
        m,
        big,
    );
}

/// One step of the offset: it grows by one exactly when the midpoint test of
/// the line algorithm says so.
proof fn lemma_minor_offset_step(k: int, m: int, big: int)
    requires
        0 <= m <= big,
        0 < big,
        0 <= k,
    ensures
        minor_offset(k + 1, m, big) == if big * (2 * minor_offset(k, m, big) + 1) <= 2 * m * (k
            + 1) {
            minor_offset(k, m, big) + 1
        } else {
            minor_offset(k, m, big)
        },
{
    let q = minor_offset(k, m, big);
    lemma_minor_offset_bounds(k, m, big);
    let n = 2 * m * (k + 1) + big;
    assert(n == 2 * m * k + big + 2 * m) by (nonlinear_arith)
        requires
            n == 2 * m * (k + 1) + big,
    ;
    assert(big * (2 * q + 1) == 2 * big * q + big) by (nonlinear_arith);
    if big * (2 * q + 1) <= 2 * m * (k + 1) {
        assert((q + 1) * (2 * big) == 2 * big * q + 2 * big) by (nonlinear_arith);
        vstd::arithmetic::div_mod::lemma_fundamental_div_mod_converse(
            n,
            2 * big,
            q + 1,
            n - (q + 1) * (2 * big),
        );
    } else {
        assert(q * (2 * big) == 2 * big * q) by (nonlinear_arith);
        vstd::arithmetic::div_mod::lemma_fundamental_div_mod_converse(
            n,
            2 * big,
            q,
            n - q * (2 * big),
        );
    }
}

/// The error term of the line algorithm after `k` major steps, in terms of
/// the offset: its sign tests decide the next step.
proof fn lemma_line_step(k: int, m: int, big: int)
    requires
        0 <= m <= big,
        0 < big,
        0 <= k,
    ensures
        ({
            let q = minor_offset(k, m, big);
            let e = big * (1 + q) - m * (1 + k);
            &&& 2 * e > -m - 1
            &&& -2 * big <= e <= 2 * big
            &&& (2 * e <= big) == (minor_offset(k + 1, m, big) == q + 1)
            &&& (2 * e > big) == (minor_offset(k + 1, m, big) == q)
            &&& big * (1 + (q + 1)) - m * (1 + (k + 1)) == e + big - m
            &&& big * (1 + q) - m * (1 + (k + 1)) == e - m
        }),
{
    let q = minor_offset(k, m, big);
    let e = big * (1 + q) - m * (1 + k);
    lemma_minor_offset_bounds(k, m, big);
    lemma_minor_offset_step(k, m, big);
    let bq = big * q;
    let mk = m * k;
    assert(e == big + bq - m - mk) by (nonlinear_arith)
        requires
            e == big * (1 + q) - m * (1 + k),
            bq == big * q,
            mk == m * k,
    ;
    assert(2 * big * q == 2 * bq && 2 * m * k == 2 * mk) by (nonlinear_arith)
        requires
            bq == big * q,
            mk == m * k,
    ;
    assert(big * (2 * q + 1) == 2 * bq + big && 2 * m * (k + 1) == 2 * mk + 2 * m)
        by (nonlinear_arith)
        requires
            bq == big * q,
            mk == m * k,
    ;
    assert(big * (1 + (q + 1)) - m * (1 + (k + 1)) == e + big - m) by (nonlinear_arith)
        requires
            e == big * (1 + q) - m * (1 + k),
    ;
    assert(big * (1 + q) - m * (1 + (k + 1)) == e - m) by (nonlinear_arith)
        requires
            e == big * (1 + q) - m * (1 + k),
    ;
}

/// `after` is `before` with the first `n` pixels of the line drawn over it at
/// depth 0.
pub open spec fn line_overlay(
    before: &SoftwareDevice,
    after: &SoftwareDevice,
    x0: int,
    y0: int,
    x1: int,
    y1: int,
    n: int,
    color: u32,
) -> bool {
    &&& after.wf()
    &&& after.width == before.width
    &&& after.height == before.height
    &&& forall|x: int, y: int|
        before.in_bounds(x, y) ==> #[trigger] after.pixel(x, y) == if on_line_prefix(
            x0,
            y0,
            x1,
            y1,
            n,
            x,
            y,
        ) && 0 < before.depth_at(x, y) {
            color
        } else {
            before.pixel(x, y)
        }
    &&& forall|x: int, y: int|
        before.in_bounds(x, y) ==> #[trigger] after.depth_at(x, y) == if on_line_prefix(
            x0,
            y0,
            x1,
            y1,
            n,
            x,
            y,
        ) && 0 < before.depth_at(x, y) {
            0i32
        } else {
            before.depth_at(x, y)
        }
}

proof fn lemma_line_overlay_pixel(
    before: &SoftwareDevice,
    mid: &SoftwareDevice,
    after: &SoftwareDevice,
    x0: int,
    y0: int,
    x1: int,
    y1: int,
    n: int,
    color: u32,
    px: int,
    py: int,
    x: int,
    y: int,
)
    requires
        0 <= n,
        before.wf(),
        line_overlay(before, mid, x0, y0, x1, y1, n, color),
        line_point(x0, y0, x1, y1, n) == (px, py),
        0 <= px,
        0 <= py,
        after.wf(),
        after.width == mid.width,
        after.height == mid.height,
        ({
            let i = pixel_index(mid.width as int, px, py);
            if mid.in_bounds(px, py) && 0 < mid.depth_at(px, py) {
                &&& after.framebuffer@ == mid.framebuffer@.update(i, color)
                &&& after.depthbuffer@ == mid.depthbuffer@.update(i, 0i32)
            } else {
                &&& after.framebuffer@ == mid.framebuffer@
                &&& after.depthbuffer@ == mid.depthbuffer@
            }
        }),
        before.in_bounds(x, y),
    ensures
        after.pixel(x, y) == if on_line_prefix(x0, y0, x1, y1, n + 1, x, y) && 0
            < before.depth_at(x, y) {
            color
        } else {
            before.pixel(x, y)
        },
        after.depth_at(x, y) == if on_line_prefix(x0, y0, x1, y1, n + 1, x, y) && 0
            < before.depth_at(x, y) {
            0i32
        } else {
            before.depth_at(x, y)
        },
{
    let w = before.width as int;
    lemma_index_in_range(w, before.height as int, x, y);
    let i = pixel_index(w, x, y);
    let hit = on_line_prefix(x0, y0, x1, y1, n, x, y) && 0 < before.depth_at(x, y);
    assert(mid.pixel(x, y) == if hit { color } else { before.pixel(x, y) });
    assert(mid.depth_at(x, y) == if hit { 0i32 } else { before.depth_at(x, y) });
    if x == px && y == py {
        assert(on_line_prefix(x0, y0, x1, y1, n + 1, x, y)) by {
            assert(line_point(x0, y0, x1, y1, n) == (x, y));
        }
        if 0 < mid.depth_at(px, py) {
            assert(after.framebuffer@[i] == color);
            assert(after.depthbuffer@[i] == 0i32);
        } else {
            assert(after.framebuffer@[i] == mid.framebuffer@[i]);
        }
    } else {
        if px < w && py < before.height {
            lemma_index_unique(w, x, y, px, py);
            lemma_index_in_range(w, before.height as int, px, py);
        }
        assert(after.framebuffer@[i] == mid.framebuffer@[i]);
        assert(after.depthbuffer@[i] == mid.depthbuffer@[i]);
        if on_line_prefix(x0, y0, x1, y1, n + 1, x, y) {
            let k = choose|k: int|
                0 <= k < n + 1 && #[trigger] line_point(x0, y0, x1, y1, k) == (x, y);
            assert(k != n);
            assert(on_line_prefix(x0, y0, x1, y1, n, x, y));
        }
        if on_line_prefix(x0, y0, x1, y1, n, x, y) {
            let k = choose|k: int|
                0 <= k < n && #[trigger] line_point(x0, y0, x1, y1, k) == (x, y);
            assert(on_line_prefix(x0, y0, x1, y1, n + 1, x, y));
        }
    }
}

proof fn lemma_line_overlay_step(
    before: &SoftwareDevice,
    mid: &SoftwareDevice,
    after: &SoftwareDevice,
    x0: int,
    y0: int,
    x1: int,
    y1: int,
    n: int,
    color: u32,
    px: int,
    py: int,
)
    requires
        0 <= n,
        before.wf(),
        line_overlay(before, mid, x0, y0, x1, y1, n, color),
        line_point(x0, y0, x1, y1, n) == (px, py),
        0 <= px,
        0 <= py,
        after.wf(),
        after.width == mid.width,
        after.height == mid.height,
        ({
            let i = pixel_index(mid.width as int, px, py);
            if mid.in_bounds(px, py) && 0 < mid.depth_at(px, py) {
                &&& after.framebuffer@ == mid.framebuffer@.update(i, color)
                &&& after.depthbuffer@ == mid.depthbuffer@.update(i, 0i32)
            } else {
                &&& after.framebuffer@ == mid.framebuffer@
                &&& after.depthbuffer@ == mid.depthbuffer@
            }
        }),
    ensures
        line_overlay(before, after, x0, y0, x1, y1, n + 1, color),
{
    assert forall|x: int, y: int| before.in_bounds(x, y) implies #[trigger] after.pixel(x, y)
        == if on_line_prefix(x0, y0, x1, y1, n + 1, x, y) && 0 < before.depth_at(x, y) {
        color
    } else {
        before.pixel(x, y)
    } by {
        lemma_line_overlay_pixel(before, mid, after, x0, y0, x1, y1, n, color, px, py, x, y);
    }
    assert forall|x: int, y: int| before.in_bounds(x, y) implies #[trigger] after.depth_at(x, y)
        == if on_line_prefix(x0, y0, x1, y1, n + 1, x, y) && 0 < before.depth_at(x, y) {
        0i32
    } else {
        before.depth_at(x, y)
    } by {
        lemma_line_overlay_pixel(before, mid, after, x0, y0, x1, y1, n, color, px, py, x, y);
    }
}

/// The line starts at `(x0, y0)`, ends at `(x1, y1)`, and its
/// `line_steps + 1` pixels are pairwise distinct: every pixel of the line is
/// visited exactly once.
pub proof fn lemma_line_shape(x0: int, y0: int, x1: int, y1: int)
    ensures
        line_point(x0, y0, x1, y1, 0) == (x0, y0),
        line_point(x0, y0, x1, y1, line_steps(x0, y0, x1, y1)) == (x1, y1),
        forall|a: int, b: int|
            0 <= a < b <= line_steps(x0, y0, x1, y1) ==> line_point(x0, y0, x1, y1, a)
                != line_point(x0, y0, x1, y1, b),
{
    let dx = span(x0, x1);
    let dy = span(y0, y1);
    if dx >= dy {
        if dx > 0 {
            lemma_minor_offset_bounds(0, dy, dx);
            lemma_minor_offset_bounds(dx, dy, dx);
        }
    } else {
        lemma_minor_offset_bounds(0, dx, dy);
        lemma_minor_offset_bounds(dy, dx, dy);
    }
}

impl SoftwareDevice {
    /// Both buffers hold exactly one entry per pixel.
    pub open spec fn wf(&self) -> bool {
        &&& self.framebuffer@.len() == self.width * self.height
        &&& self.depthbuffer@.len() == self.width * self.height
        &&& self.width * self.height <= usize::MAX
    }

    pub open spec fn in_bounds(&self, x: int, y: int) -> bool {
        0 <= x < self.width && 0 <= y < self.height
    }

    /// The color stored for pixel `(x, y)`.
    pub open spec fn pixel(&self, x: int, y: int) -> u32 {
        self.framebuffer@[pixel_index(self.width as int, x, y)]
    }

    /// The depth stored for pixel `(x, y)`.
    pub open spec fn depth_at(&self, x: int, y: int) -> i32 {
        self.depthbuffer@[pixel_index(self.width as int, x, y)]
    }

    /// A `width` by `height` target, every pixel 0 and every depth cleared.
    pub fn new(width: usize, height: usize) -> (r: Self)
        requires
            width * height <= usize::MAX,
        ensures
            r.wf(),
            r.width == width,
            r.height == height,
            forall|i: int| 0 <= i < width * height ==> r.framebuffer@[i] == 0u32,
            forall|i: int| 0 <= i < width * height ==> r.depthbuffer@[i] == DEPTH_CLEAR,
    {
        let n = width * height;
        let mut framebuffer: Vec<u32> = Vec::new();
        let mut depthbuffer: Vec<i32> = Vec::new();
        let mut i: usize = 0;
        while i < n
            invariant
                i <= n,
                framebuffer@.len() == i,
                depthbuffer@.len() == i,
                forall|j: int| 0 <= j < i ==> framebuffer@[j] == 0u32,
                forall|j: int| 0 <= j < i ==> depthbuffer@[j] == DEPTH_CLEAR,
            decreases n - i,
        {
            framebuffer.push(0);
            depthbuffer.push(DEPTH_CLEAR);
            i = i + 1;
        }
        SoftwareDevice { framebuffer, depthbuffer, width, height }
    }

    /// Sets every pixel to `color` and every depth to `DEPTH_CLEAR`.
    pub fn clear(&mut self, color: u32)
        requires
            old(self).wf(),
        ensures
            final(self).wf(),
            final(self).width == old(self).width,
            final(self).height == old(self).height,
            forall|i: int|
                0 <= i < final(self).framebuffer@.len() ==> final(self).framebuffer@[i] == color,
            forall|i: int|
                0 <= i < final(self).depthbuffer@.len() ==> final(self).depthbuffer@[i]
                    == DEPTH_CLEAR,
            forall|x: int, y: int|
                final(self).in_bounds(x, y) ==> final(self).pixel(x, y) == color
                    && final(self).depth_at(x, y) == DEPTH_CLEAR,
    {
        let n = self.framebuffer.len();
        let mut i: usize = 0;
        while i < n
            invariant
                i <= n,
                n == self.width * self.height,
                self.wf(),
                self.width == old(self).width,
                self.height == old(self).height,
                forall|j: int| 0 <= j < i ==> self.framebuffer@[j] == color,
                forall|j: int| 0 <= j < i ==> self.depthbuffer@[j] == DEPTH_CLEAR,
            decreases n - i,
        {
            self.framebuffer.set(i, color);
            self.depthbuffer.set(i, DEPTH_CLEAR);
            i = i + 1;
        }
        assert forall|x: int, y: int| self.in_bounds(x, y) implies self.pixel(x, y) == color
            && self.depth_at(x, y) == DEPTH_CLEAR by {
            lemma_index_in_range(self.width as int, self.height as int, x, y);
        }
    }

    /// Writes `color` and `depth` at `(x, y)` when the pixel exists and `depth`
    /// is strictly nearer than the stored depth; otherwise changes nothing.
    pub fn draw_pixel(&mut self, x: usize, y: usize, color: u32, depth: i32)
        requires
            old(self).wf(),
        ensures
            final(self).wf(),
            final(self).width == old(self).width,
            final(self).height == old(self).height,
            ({
                let i = pixel_index(old(self).width as int, x as int, y as int);
                if old(self).in_bounds(x as int, y as int) && depth < old(self).depth_at(
                    x as int,
                    y as int,
                ) {
                    &&& final(self).framebuffer@ == old(self).framebuffer@.update(i, color)
                    &&& final(self).depthbuffer@ == old(self).depthbuffer@.update(i, depth)
                } else {
                    &&& final(self).framebuffer@ == old(self).framebuffer@
                    &&& final(self).depthbuffer@ == old(self).depthbuffer@
                }
            }),
    {
        if x < self.width && y < self.height {
            proof {
                lemma_index_in_range(self.width as int, self.height as int, x as int, y as int);
            }
            let idx = y * self.width + x;
            if depth < self.depthbuffer[idx] {
                self.framebuffer.set(idx, color);
                self.depthbuffer.set(idx, depth);
            }
        }
    }
    /// Draws the line from `(x0, y0)` to `(x1, y1)` with Bresenham's algorithm.
    /// Each of its `line_steps + 1` pixels, endpoints included, goes through the
    /// depth test at depth 0, so that lines overlay what lies behind them.
    pub fn draw_line(&mut self, x0: usize, y0: usize, x1: usize, y1: usize, color: u32)
        requires
            old(self).wf(),
        ensures
            line_overlay(
                old(self),
                final(self),
                x0 as int,
                y0 as int,
                x1 as int,
                y1 as int,
                line_steps(x0 as int, y0 as int, x1 as int, y1 as int) + 1,
                color,
            ),
    {
        let ax = x0 as i128;
        let ay = y0 as i128;
        let bx = x1 as i128;
        let by = y1 as i128;
        let dx: i128 = if ax <= bx { bx - ax } else { ax - bx };
        let sx: i128 = if ax < bx { 1 } else { -1 };
        let dy: i128 = if ay <= by { ay - by } else { by - ay };
        let sy: i128 = if ay < by { 1 } else { -1 };
        let ghost ddy: int = -dy;
        let ghost steps = line_steps(x0 as int, y0 as int, x1 as int, y1 as int);
        let mut err: i128 = dx + dy;
        let mut x: i128 = ax;
        let mut y: i128 = ay;
        let ghost mut k: int = 0;
        let mut done = false;
        proof {
            assert(dx >= ddy ==> minor_offset(0, ddy, dx as int) == 0) by {
                if dx > 0 && ddy <= dx {
                    lemma_minor_offset_bounds(0, ddy, dx as int);
                }
            }
            assert(dx < ddy ==> minor_offset(0, dx as int, ddy) == 0) by {
                if dx < ddy {
                    lemma_minor_offset_bounds(0, dx as int, ddy);
                }
            }
            assert(line_overlay(&*old(self), &*self, x0 as int, y0 as int, x1 as int, y1 as int, 0, color));
            if dx >= ddy {
                assert(err == dx * (1 + minor_offset(0, ddy, dx as int)) - ddy * (1 + 0));
            } else {
                assert(err == -(ddy * (1 + minor_offset(0, dx as int, ddy)) - dx * (1 + 0)));
            }
        }
        while !done
            invariant
                self.wf(),
                old(self).wf(),
                line_overlay(old(self), self, x0 as int, y0 as int, x1 as int, y1 as int, k, color),
                ax == x0,
                ay == y0,
                bx == x1,
                by == y1,
                dx == span(x0 as int, x1 as int),
                ddy == span(y0 as int, y1 as int),
                dy == -ddy,
                sx == (if ax < bx { 1int } else { -1int }),
                sy == (if ay < by { 1int } else { -1int }),
                steps == line_steps(x0 as int, y0 as int, x1 as int, y1 as int),
                0 <= k <= steps + 1,
                done ==> k == steps + 1,
                !done ==> k <= steps && (x as int, y as int) == line_point(
                    x0 as int,
                    y0 as int,
                    x1 as int,
                    y1 as int,
                    k,
                ),
                !done && dx >= ddy ==> err == dx * (1 + minor_offset(k, ddy, dx as int)) - ddy * (
                1 + k),
                !done && dx < ddy ==> err == -(ddy * (1 + minor_offset(k, dx as int, ddy)) - dx * (1
                    + k)),
            decreases steps + 1 - k,
        {
            proof {
                if dx >= ddy && dx > 0 {
                    lemma_minor_offset_bounds(k, ddy, dx as int);
                }
                if dx < ddy {
                    lemma_minor_offset_bounds(k, dx as int, ddy);
                }
            }
            let ghost mid = *self;
            self.draw_pixel(x as usize, y as usize, color, 0);
            proof {
                lemma_line_overlay_step(
                    old(self),
                    &mid,
                    self,
                    x0 as int,
                    y0 as int,
                    x1 as int,
                    y1 as int,
                    k,
                    color,
                    x as int,
                    y as int,
                );
            }
            if x == bx && y == by {
                proof {
                    if dx >= ddy {
                        if k < dx {
                            assert(x != bx);
                        }
                    } else {
                        if k < ddy {
                            assert(y != by);
                        }
                    }
                }
                done = true;
            } else {
                proof {
                    if dx >= ddy {
                        if dx > 0 {
                            lemma_minor_offset_bounds(dx as int, ddy, dx as int);
                            lemma_line_step(k, ddy, dx as int);
                        }
                    } else {
                        lemma_minor_offset_bounds(ddy, dx as int, ddy);
                        lemma_line_step(k, dx as int, ddy);
                    }
                }
                let e2 = 2 * err;
                if e2 >= dy {
                    err = err + dy;
                    x = x + sx;
                }
                if e2 <= dx {
                    err = err + dx;
                    y = y + sy;
                }
            }
            proof {
                k = k + 1;
            }
        }
    }
}

} // verus!
