use vstd::prelude::*;
use crate::color::{channel, packed, rgba, unpack_channel};
use crate::raster::{SoftwareDevice, pixel_index, lemma_index_in_range, lemma_index_unique};

verus! {

/// Sub-pixel precision of triangle vertices: `SUBPIXEL` units make one pixel.
pub const SUBPIXEL: i64 = 256;

/// A triangle vertex in screen space: position in sub-pixel units and depth.
#[derive(Clone, Copy, Debug)]
pub struct ScreenVertex {
    pub x: i32,
    pub y: i32,
    pub depth: i32,
}

/// Coordinate of the center of pixel column (or row) `p`, in sub-pixel units.
pub open spec fn pixel_center(p: int) -> int {
    p * SUBPIXEL + SUBPIXEL / 2
}

/// Twice the signed area of the triangle.
pub open spec fn area2(v0: ScreenVertex, v1: ScreenVertex, v2: ScreenVertex) -> int {
    (v1.y - v2.y) * (v0.x - v2.x) + (v2.x - v1.x) * (v0.y - v2.y)
}

/// Unnormalized barycentric weight of vertex `k` at point `(px, py)`: the
/// signed area of the sub-triangle opposite that vertex. The three sum to
/// `area2`.
pub open spec fn raw_weight(
    v0: ScreenVertex,
    v1: ScreenVertex,
    v2: ScreenVertex,
    px: int,
    py: int,
    k: int,
) -> int {
    let e0 = (v1.y - v2.y) * (px - v2.x) + (v2.x - v1.x) * (py - v2.y);
    let e1 = (v2.y - v0.y) * (px - v2.x) + (v0.x - v2.x) * (py - v2.y);
    if k == 0 {
        e0
    } else if k == 1 {
        e1
    } else {
        area2(v0, v1, v2) - e0 - e1
    }
}

/// Barycentric weight of vertex `k` at `(px, py)`, scaled by `|area2|`: the
/// real weight is `weight / |area2|`, whatever the triangle's winding.
pub open spec fn weight(
    v0: ScreenVertex,
    v1: ScreenVertex,
    v2: ScreenVertex,
    px: int,
    py: int,
    k: int,
) -> int {
    if area2(v0, v1, v2) < 0 {
        -raw_weight(v0, v1, v2, px, py, k)
    } else {
        raw_weight(v0, v1, v2, px, py, k)
    }
}

pub open spec fn abs_area2(v0: ScreenVertex, v1: ScreenVertex, v2: ScreenVertex) -> int {
    if area2(v0, v1, v2) < 0 {
        -area2(v0, v1, v2)
    } else {
        area2(v0, v1, v2)
    }
}

/// The triangle has nonzero area and `(px, py)` lies inside it or on its
/// boundary: all three barycentric weights are non-negative.
pub open spec fn covers(v0: ScreenVertex, v1: ScreenVertex, v2: ScreenVertex, px: int, py: int) -> bool {
    &&& area2(v0, v1, v2) != 0
    &&& weight(v0, v1, v2, px, py, 0) >= 0
    &&& weight(v0, v1, v2, px, py, 1) >= 0
    &&& weight(v0, v1, v2, px, py, 2) >= 0
}

/// `(w0 * a + w1 * b + w2 * c) / total`, rounded down.
pub open spec fn mix(w0: int, w1: int, w2: int, total: int, a: int, b: int, c: int) -> int {
    (w0 * a + w1 * b + w2 * c) / total
}

/// Depth interpolated at `(px, py)` from the vertices' depths, rounded down.
pub open spec fn fragment_depth(
    v0: ScreenVertex,
    v1: ScreenVertex,
    v2: ScreenVertex,
    px: int,
    py: int,
) -> int {
    mix(
        weight(v0, v1, v2, px, py, 0),
        weight(v0, v1, v2, px, py, 1),
        weight(v0, v1, v2, px, py, 2),
        abs_area2(v0, v1, v2),
        v0.depth as int,
        v1.depth as int,
        v2.depth as int,
    )
}

/// Channel `k` interpolated at `(px, py)` from the vertex colors, truncated.
pub open spec fn fragment_channel(
    v0: ScreenVertex,
    v1: ScreenVertex,
    v2: ScreenVertex,
    c0: u32,
    c1: u32,
    c2: u32,
    px: int,
    py: int,
    k: u32,
) -> int {
    mix(
        weight(v0, v1, v2, px, py, 0),
        weight(v0, v1, v2, px, py, 1),
        weight(v0, v1, v2, px, py, 2),
        abs_area2(v0, v1, v2),
        channel(c0, k) as int,
        channel(c1, k) as int,
        channel(c2, k) as int,
    )
}

/// Color interpolated at `(px, py)`, channel by channel.
pub open spec fn fragment_color(
    v0: ScreenVertex,
    v1: ScreenVertex,
    v2: ScreenVertex,
    c0: u32,
    c1: u32,
    c2: u32,
    px: int,
    py: int,
) -> u32 {
    packed(
        fragment_channel(v0, v1, v2, c0, c1, c2, px, py, 0) as u8,
        fragment_channel(v0, v1, v2, c0, c1, c2, px, py, 1) as u8,
        fragment_channel(v0, v1, v2, c0, c1, c2, px, py, 2) as u8,
        fragment_channel(v0, v1, v2, c0, c1, c2, px, py, 3) as u8,
    )
}

proof fn lemma_mul_bound(a: int, b: int, ba: int, bb: int)
    requires
        -ba <= a <= ba,
        -bb <= b <= bb,
    ensures
        -(ba * bb) <= a * b <= ba * bb,
{
    assert(-(ba * bb) <= a * b <= ba * bb) by (nonlinear_arith)
        requires
            -ba <= a <= ba,
            -bb <= b <= bb,
    ;
}

/// The three weights sum to `|area2|`.
proof fn lemma_weights_sum(v0: ScreenVertex, v1: ScreenVertex, v2: ScreenVertex, px: int, py: int)
    ensures
        weight(v0, v1, v2, px, py, 0) + weight(v0, v1, v2, px, py, 1) + weight(v0, v1, v2, px, py, 2)
            == abs_area2(v0, v1, v2),
{
}

/// A weighted mean with non-negative weights lies between the least and the
/// greatest of the values.
pub proof fn lemma_mix_bounds(w0: int, w1: int, w2: int, total: int, a: int, b: int, c: int, lo: int, hi: int)
    requires
        w0 >= 0,
        w1 >= 0,
        w2 >= 0,
        w0 + w1 + w2 == total,
        total > 0,
        lo <= a <= hi,
        lo <= b <= hi,
        lo <= c <= hi,
    ensures
        lo <= mix(w0, w1, w2, total, a, b, c) <= hi,
        total * lo <= w0 * a + w1 * b + w2 * c <= total * hi,
{
    let n = w0 * a + w1 * b + w2 * c;
    assert(total * lo <= n <= total * hi) by (nonlinear_arith)
        requires
            w0 >= 0,
            w1 >= 0,
            w2 >= 0,
            w0 + w1 + w2 == total,
            lo <= a <= hi,
            lo <= b <= hi,
            lo <= c <= hi,
            n == w0 * a + w1 * b + w2 * c,
    ;
    let q = n / total;
    vstd::arithmetic::div_mod::lemma_fundamental_div_mod(n, total);
    vstd::arithmetic::div_mod::lemma_mod_bound(n, total);
    assert(lo <= q <= hi) by (nonlinear_arith)
        requires
            total * lo <= n <= total * hi,
            n == total * q + n % total,
            0 <= n % total < total,
    ;
}

proof fn lemma_cross(a1: int, a2: int, a3: int, a4: int, a5: int, qx: int, qy: int)
    requires
        a5 == -a4,
    ensures
        (a1 * qx + a3 * qy) * a2 + (a5 * qx + a2 * qy) * (-a3) == (a1 * a2 + a3 * a4) * qx,
        (a1 * qx + a3 * qy) * a4 + (a5 * qx + a2 * qy) * a1 == (a1 * a2 + a3 * a4) * qy,
{
    vstd::arithmetic::mul::lemma_mul_is_distributive_add_other_way(a2, a1 * qx, a3 * qy);
    vstd::arithmetic::mul::lemma_mul_is_distributive_add_other_way(-a3, a5 * qx, a2 * qy);
    vstd::arithmetic::mul::lemma_mul_is_distributive_add_other_way(qx, a1 * a2, a3 * a4);
    vstd::arithmetic::mul::lemma_mul_is_distributive_add_other_way(a4, a1 * qx, a3 * qy);
    vstd::arithmetic::mul::lemma_mul_is_distributive_add_other_way(a1, a5 * qx, a2 * qy);
    vstd::arithmetic::mul::lemma_mul_is_distributive_add_other_way(qy, a1 * a2, a3 * a4);
    assert(a1 * qx * a2 == a1 * a2 * qx) by (nonlinear_arith);
    assert(a3 * qy * a2 == a2 * qy * a3) by (nonlinear_arith);
    assert(a5 * qx * (-a3) == a3 * a4 * qx) by (nonlinear_arith)
        requires
            a5 == -a4,
    ;
    assert(a2 * qy * (-a3) == -(a2 * qy * a3)) by (nonlinear_arith);
    assert(a1 * qx * a4 == -(a5 * qx * a1)) by (nonlinear_arith)
        requires
            a5 == -a4,
    ;
    assert(a3 * qy * a4 == a3 * a4 * qy) by (nonlinear_arith);
    assert(a2 * qy * a1 == a1 * a2 * qy) by (nonlinear_arith);
}

/// At a point that the triangle covers, the interpolated depth lies between
/// the least and the greatest vertex depth, so it fits the depth buffer.
pub proof fn lemma_fragment_depth_in_range(
    v0: ScreenVertex,
    v1: ScreenVertex,
    v2: ScreenVertex,
    px: int,
    py: int,
)
    requires
        covers(v0, v1, v2, px, py),
    ensures
        fragment_depth(v0, v1, v2, px, py) >= v0.depth || fragment_depth(v0, v1, v2, px, py)
            >= v1.depth || fragment_depth(v0, v1, v2, px, py) >= v2.depth,
        fragment_depth(v0, v1, v2, px, py) <= v0.depth || fragment_depth(v0, v1, v2, px, py)
            <= v1.depth || fragment_depth(v0, v1, v2, px, py) <= v2.depth,
        i32::MIN <= fragment_depth(v0, v1, v2, px, py) <= i32::MAX,
{
    lemma_weights_sum(v0, v1, v2, px, py);
    let lo: int = if v0.depth <= v1.depth && v0.depth <= v2.depth {
        v0.depth as int
    } else if v1.depth <= v2.depth {
        v1.depth as int
    } else {
        v2.depth as int
    };
    let hi: int = if v0.depth >= v1.depth && v0.depth >= v2.depth {
        v0.depth as int
    } else if v1.depth >= v2.depth {
        v1.depth as int
    } else {
        v2.depth as int
    };
    lemma_mix_bounds(
        weight(v0, v1, v2, px, py, 0),
        weight(v0, v1, v2, px, py, 1),
        weight(v0, v1, v2, px, py, 2),
        abs_area2(v0, v1, v2),
        v0.depth as int,
        v1.depth as int,
        v2.depth as int,
        lo,
        hi,
    );
}

/// A point that the triangle covers lies within its bounding box.
proof fn lemma_covered_in_box(v0: ScreenVertex, v1: ScreenVertex, v2: ScreenVertex, px: int, py: int)
    requires
        covers(v0, v1, v2, px, py),
    ensures
        px >= v0.x || px >= v1.x || px >= v2.x,
        px <= v0.x || px <= v1.x || px <= v2.x,
        py >= v0.y || py >= v1.y || py >= v2.y,
        py <= v0.y || py <= v1.y || py <= v2.y,
{
    let w0 = weight(v0, v1, v2, px, py, 0);
    let w1 = weight(v0, v1, v2, px, py, 1);
    let w2 = weight(v0, v1, v2, px, py, 2);
    let t = abs_area2(v0, v1, v2);
    lemma_weights_sum(v0, v1, v2, px, py);
    let (qx, qy) = (px - v2.x, py - v2.y);
    lemma_cross(v1.y - v2.y, v0.x - v2.x, v2.x - v1.x, v0.y - v2.y, v2.y - v0.y, qx, qy);
    let e0 = raw_weight(v0, v1, v2, px, py, 0);
    let e1 = raw_weight(v0, v1, v2, px, py, 1);
    let a = area2(v0, v1, v2);
    assert(e0 * (v0.x - v2.x) + e1 * (v1.x - v2.x) == a * qx && e0 * (v0.y - v2.y) + e1 * (v1.y
        - v2.y) == a * qy);
    if a < 0 {
        assert(w0 * (v0.x - v2.x) + w1 * (v1.x - v2.x) == t * qx && w0 * (v0.y - v2.y) + w1 * (
        v1.y - v2.y) == t * qy) by (nonlinear_arith)
            requires
                e0 * (v0.x - v2.x) + e1 * (v1.x - v2.x) == a * qx,
                e0 * (v0.y - v2.y) + e1 * (v1.y - v2.y) == a * qy,
                w0 == -e0,
                w1 == -e1,
                t == -a,
        ;
    }
    assert(t * px == w0 * v0.x + w1 * v1.x + w2 * v2.x) by (nonlinear_arith)
        requires
            w0 * (v0.x - v2.x) + w1 * (v1.x - v2.x) == t * qx,
            qx == px - v2.x,
            w0 + w1 + w2 == t,
    ;
    assert(t * py == w0 * v0.y + w1 * v1.y + w2 * v2.y) by (nonlinear_arith)
        requires
            w0 * (v0.y - v2.y) + w1 * (v1.y - v2.y) == t * qy,
            qy == py - v2.y,
            w0 + w1 + w2 == t,
    ;
    assert(px >= v0.x || px >= v1.x || px >= v2.x) by (nonlinear_arith)
        requires
            t * px == w0 * v0.x + w1 * v1.x + w2 * v2.x,
            w0 >= 0,
            w1 >= 0,
            w2 >= 0,
            w0 + w1 + w2 == t,
            t > 0,
    ;
    assert(px <= v0.x || px <= v1.x || px <= v2.x) by (nonlinear_arith)
        requires
            t * px == w0 * v0.x + w1 * v1.x + w2 * v2.x,
            w0 >= 0,
            w1 >= 0,
            w2 >= 0,
            w0 + w1 + w2 == t,
            t > 0,
    ;
    assert(py >= v0.y || py >= v1.y || py >= v2.y) by (nonlinear_arith)
        requires
            t * py == w0 * v0.y + w1 * v1.y + w2 * v2.y,
            w0 >= 0,
            w1 >= 0,
            w2 >= 0,
            w0 + w1 + w2 == t,
            t > 0,
    ;
    assert(py <= v0.y || py <= v1.y || py <= v2.y) by (nonlinear_arith)
        requires
            t * py == w0 * v0.y + w1 * v1.y + w2 * v2.y,
            w0 >= 0,
            w1 >= 0,
            w2 >= 0,
            w0 + w1 + w2 == t,
            t > 0,
    ;
}

/// `mix` commutes with adding one constant to all three values.
proof fn lemma_mix_shift(w0: int, w1: int, w2: int, total: int, a: int, b: int, c: int, d: int)
    requires
        w0 + w1 + w2 == total,
        total > 0,
    ensures
        mix(w0, w1, w2, total, a + d, b + d, c + d) == mix(w0, w1, w2, total, a, b, c) + d,
{
    let n = w0 * a + w1 * b + w2 * c;
    assert(w0 * (a + d) + w1 * (b + d) + w2 * (c + d) == n + total * d) by (nonlinear_arith)
        requires
            n == w0 * a + w1 * b + w2 * c,
            w0 + w1 + w2 == total,
    ;
    vstd::arithmetic::div_mod::lemma_fundamental_div_mod(n, total);
    vstd::arithmetic::div_mod::lemma_mod_bound(n, total);
    let q = n / total;
    assert(n + total * d == (q + d) * total + n % total) by (nonlinear_arith)
        requires
            n == total * q + n % total,
    ;
    vstd::arithmetic::div_mod::lemma_fundamental_div_mod_converse(
        n + total * d,
        total,
        q + d,
        n % total,
    );
}

/// The weights of `(px, py)`, each scaled by `|area2|`, and `|area2|` itself.
fn barycentric(px: i128, py: i128, v0: ScreenVertex, v1: ScreenVertex, v2: ScreenVertex) -> (r: (
    i128,
    i128,
    i128,
    i128,
))
    requires
        -4294967296 <= px <= 4294967296,
        -4294967296 <= py <= 4294967296,
    ensures
        r.0 == weight(v0, v1, v2, px as int, py as int, 0),
        r.1 == weight(v0, v1, v2, px as int, py as int, 1),
        r.2 == weight(v0, v1, v2, px as int, py as int, 2),
        r.3 == abs_area2(v0, v1, v2),
        r.3 <= 0x400000000000000000,
{
    let a1 = v1.y as i128 - v2.y as i128;
    let a2 = v0.x as i128 - v2.x as i128;
    let a3 = v2.x as i128 - v1.x as i128;
    let a4 = v0.y as i128 - v2.y as i128;
    let a5 = v2.y as i128 - v0.y as i128;
    let qx = px - v2.x as i128;
    let qy = py - v2.y as i128;
    proof {
        let b32: int = 4294967296;
        let b34: int = 17179869184;
        lemma_mul_bound(a1 as int, a2 as int, b32, b32);
        lemma_mul_bound(a3 as int, a4 as int, b32, b32);
        lemma_mul_bound(a1 as int, qx as int, b32, b34);
        lemma_mul_bound(a3 as int, qy as int, b32, b34);
        lemma_mul_bound(a5 as int, qx as int, b32, b34);
        lemma_mul_bound(a2 as int, qy as int, b32, b34);
    }
    let area = a1 * a2 + a3 * a4;
    let e0 = a1 * qx + a3 * qy;
    let e1 = a5 * qx + a2 * qy;
    let e2 = area - e0 - e1;
    if area < 0 {
        (-e0, -e1, -e2, -area)
    } else {
        (e0, e1, e2, area)
    }
}

/// `mix` of non-negative values below 2^33 with weights up to 2^70.
fn mix_values(w0: i128, w1: i128, w2: i128, total: i128, a: i128, b: i128, c: i128) -> (r: i128)
    requires
        w0 >= 0,
        w1 >= 0,
        w2 >= 0,
        w0 + w1 + w2 == total,
        0 < total <= 0x400000000000000000,
        0 <= a <= 0x200000000,
        0 <= b <= 0x200000000,
        0 <= c <= 0x200000000,
    ensures
        r == mix(w0 as int, w1 as int, w2 as int, total as int, a as int, b as int, c as int),
{
    proof {
        let bw: int = 0x400000000000000000;
        let bv: int = 0x200000000;
        lemma_mul_bound(w0 as int, a as int, bw, bv);
        lemma_mul_bound(w1 as int, b as int, bw, bv);
        lemma_mul_bound(w2 as int, c as int, bw, bv);
    }
    let n = w0 * a + w1 * b + w2 * c;
    n / total
}

/// Interpolates one channel of three packed colors.
fn mix_channel(w0: i128, w1: i128, w2: i128, total: i128, c0: u32, c1: u32, c2: u32, k: u32) -> (r: u8)
    requires
        w0 >= 0,
        w1 >= 0,
        w2 >= 0,
        w0 + w1 + w2 == total,
        0 < total <= 0x400000000000000000,
        k < 4,
    ensures
        r as int == mix(
            w0 as int,
            w1 as int,
            w2 as int,
            total as int,
            channel(c0, k) as int,
            channel(c1, k) as int,
            channel(c2, k) as int,
        ),
{
    let a = unpack_channel(c0, k) as i128;
    let b = unpack_channel(c1, k) as i128;
    let c = unpack_channel(c2, k) as i128;
    let m = mix_values(w0, w1, w2, total, a, b, c);
    proof {
        lemma_mix_bounds(w0 as int, w1 as int, w2 as int, total as int, a as int, b as int, c as int, 0, 255);
    }
    m as u8
}

/// Blends three packed colors channel by channel with the given weights, each
/// channel truncated.
fn interpolate_color(c0: u32, c1: u32, c2: u32, w0: i128, w1: i128, w2: i128, total: i128) -> (r: u32)
    requires
        w0 >= 0,
        w1 >= 0,
        w2 >= 0,
        w0 + w1 + w2 == total,
        0 < total <= 0x400000000000000000,
    ensures
        r == packed(
            mix(w0 as int, w1 as int, w2 as int, total as int, channel(c0, 0) as int, channel(c1, 0) as int, channel(c2, 0) as int) as u8,
            mix(w0 as int, w1 as int, w2 as int, total as int, channel(c0, 1) as int, channel(c1, 1) as int, channel(c2, 1) as int) as u8,
            mix(w0 as int, w1 as int, w2 as int, total as int, channel(c0, 2) as int, channel(c1, 2) as int, channel(c2, 2) as int) as u8,
            mix(w0 as int, w1 as int, w2 as int, total as int, channel(c0, 3) as int, channel(c1, 3) as int, channel(c2, 3) as int) as u8,
        ),
{
    let r = mix_channel(w0, w1, w2, total, c0, c1, c2, 0);
    let g = mix_channel(w0, w1, w2, total, c0, c1, c2, 1);
    let b = mix_channel(w0, w1, w2, total, c0, c1, c2, 2);
    let a = mix_channel(w0, w1, w2, total, c0, c1, c2, 3);
    rgba(r, g, b, a)
}

/// Interpolates the three depths with the given weights, rounding down.
fn interpolate_depth(d0: i32, d1: i32, d2: i32, w0: i128, w1: i128, w2: i128, total: i128) -> (r: i32)
    requires
        w0 >= 0,
        w1 >= 0,
        w2 >= 0,
        w0 + w1 + w2 == total,
        0 < total <= 0x400000000000000000,
    ensures
        r as int == mix(w0 as int, w1 as int, w2 as int, total as int, d0 as int, d1 as int, d2 as int),
{
    let shift: i128 = 0x80000000;
    let m = mix_values(w0, w1, w2, total, d0 as i128 + shift, d1 as i128 + shift, d2 as i128 + shift);
    proof {
        lemma_mix_shift(w0 as int, w1 as int, w2 as int, total as int, d0 as int, d1 as int, d2 as int, shift as int);
        lemma_mix_bounds(w0 as int, w1 as int, w2 as int, total as int, d0 as int, d1 as int, d2 as int, -0x80000000, 0x7fffffff);
    }
    (m - shift) as i32
}

/// Pixel `(x, y)` of `before` takes the triangle's fragment: the triangle
/// covers the pixel's center, and the fragment is nearer than the stored depth.
pub open spec fn triangle_hit(
    before: &SoftwareDevice,
    v0: ScreenVertex,
    v1: ScreenVertex,
    v2: ScreenVertex,
    x: int,
    y: int,
) -> bool {
    &&& covers(v0, v1, v2, pixel_center(x), pixel_center(y))
    &&& fragment_depth(v0, v1, v2, pixel_center(x), pixel_center(y)) < before.depth_at(x, y)
}

/// `after` is `before` with the triangle drawn over the pixels that `done`
/// selects.
pub open spec fn triangle_overlay_on(
    before: &SoftwareDevice,
    after: &SoftwareDevice,
    v0: ScreenVertex,
    v1: ScreenVertex,
    v2: ScreenVertex,
    c0: u32,
    c1: u32,
    c2: u32,
    done: spec_fn(int, int) -> bool,
) -> bool {
    &&& after.wf()
    &&& after.width == before.width
    &&& after.height == before.height
    &&& forall|x: int, y: int|
        before.in_bounds(x, y) ==> #[trigger] after.pixel(x, y) == if done(x, y) && triangle_hit(
            before,
            v0,
            v1,
            v2,
            x,
            y,
        ) {
            fragment_color(v0, v1, v2, c0, c1, c2, pixel_center(x), pixel_center(y))
        } else {
            before.pixel(x, y)
        }
    &&& forall|x: int, y: int|
        before.in_bounds(x, y) ==> #[trigger] after.depth_at(x, y) == if done(x, y)
            && triangle_hit(before, v0, v1, v2, x, y) {
            fragment_depth(v0, v1, v2, pixel_center(x), pixel_center(y)) as i32
        } else {
            before.depth_at(x, y)
        }
}

/// `after` is `before` with the triangle drawn: each pixel whose center the
/// triangle covers goes through the depth test with the interpolated depth
/// and color; every other pixel keeps its color and depth.
pub open spec fn triangle_overlay(
    before: &SoftwareDevice,
    after: &SoftwareDevice,
    v0: ScreenVertex,
    v1: ScreenVertex,
    v2: ScreenVertex,
    c0: u32,
    c1: u32,
    c2: u32,
) -> bool {
    triangle_overlay_on(before, after, v0, v1, v2, c0, c1, c2, |x: int, y: int| true)
}

proof fn lemma_triangle_pixel(
    before: &SoftwareDevice,
    mid: &SoftwareDevice,
    after: &SoftwareDevice,
    v0: ScreenVertex,
    v1: ScreenVertex,
    v2: ScreenVertex,
    c0: u32,
    c1: u32,
    c2: u32,
    done: spec_fn(int, int) -> bool,
    px: int,
    py: int,
    x: int,
    y: int,
)
    requires
        before.wf(),
        triangle_overlay_on(before, mid, v0, v1, v2, c0, c1, c2, done),
        before.in_bounds(px, py),
        !done(px, py),
        before.in_bounds(x, y),
        after.wf(),
        after.width == mid.width,
        after.height == mid.height,
        ({
            let cx = pixel_center(px);
            let cy = pixel_center(py);
            let i = pixel_index(mid.width as int, px, py);
            if covers(v0, v1, v2, cx, cy) && fragment_depth(v0, v1, v2, cx, cy) < mid.depth_at(px, py) {
                &&& after.framebuffer@ == mid.framebuffer@.update(i, fragment_color(v0, v1, v2, c0, c1, c2, cx, cy))
                &&& after.depthbuffer@ == mid.depthbuffer@.update(i, fragment_depth(v0, v1, v2, cx, cy) as i32)
            } else {
                &&& after.framebuffer@ == mid.framebuffer@
                &&& after.depthbuffer@ == mid.depthbuffer@
            }
        }),
    ensures
        ({
            let hit = (done(x, y) || (x == px && y == py)) && triangle_hit(before, v0, v1, v2, x, y);
            &&& after.pixel(x, y) == if hit {
                fragment_color(v0, v1, v2, c0, c1, c2, pixel_center(x), pixel_center(y))
            } else {
                before.pixel(x, y)
            }
            &&& after.depth_at(x, y) == if hit {
                fragment_depth(v0, v1, v2, pixel_center(x), pixel_center(y)) as i32
            } else {
                before.depth_at(x, y)
            }
        }),
{
    let w = before.width as int;
    lemma_index_in_range(w, before.height as int, x, y);
    lemma_index_in_range(w, before.height as int, px, py);
    let i = pixel_index(w, x, y);
    assert(mid.pixel(x, y) == mid.pixel(x, y));
    assert(mid.depth_at(x, y) == mid.depth_at(x, y));
    if x == px && y == py {
        let cx = pixel_center(px);
        let cy = pixel_center(py);
        assert(mid.depth_at(px, py) == before.depth_at(px, py));
        if covers(v0, v1, v2, cx, cy) && fragment_depth(v0, v1, v2, cx, cy) < mid.depth_at(px, py) {
            assert(after.depthbuffer@[i] == fragment_depth(v0, v1, v2, cx, cy) as i32);
            assert(after.framebuffer@[i] == fragment_color(v0, v1, v2, c0, c1, c2, cx, cy));
            assert(triangle_hit(before, v0, v1, v2, x, y));
            assert(after.pixel(x, y) == after.framebuffer@[i]);
            assert(after.depth_at(x, y) == fragment_depth(v0, v1, v2, pixel_center(x), pixel_center(y)) as i32);
        } else {
            assert(after.depthbuffer@[i] == mid.depthbuffer@[i]);
            assert(after.framebuffer@[i] == mid.framebuffer@[i]);
            assert(!triangle_hit(before, v0, v1, v2, x, y));
            assert(after.pixel(x, y) == mid.pixel(x, y));
            assert(mid.pixel(x, y) == before.pixel(x, y));
            assert(after.depth_at(x, y) == before.depth_at(x, y));
        }
    } else {
        lemma_index_unique(w, x, y, px, py);
        assert(after.framebuffer@[i] == mid.framebuffer@[i]);
        assert(after.depthbuffer@[i] == mid.depthbuffer@[i]);
        assert(after.depth_at(x, y) == mid.depth_at(x, y));
        assert(after.pixel(x, y) == mid.pixel(x, y));
        if done(x, y) && triangle_hit(before, v0, v1, v2, x, y) {
            assert(after.depth_at(x, y) == fragment_depth(v0, v1, v2, pixel_center(x), pixel_center(y)) as i32);
        } else {
            assert(after.depth_at(x, y) == before.depth_at(x, y));
        }
    }
    let hit = (done(x, y) || (x == px && y == py)) && triangle_hit(before, v0, v1, v2, x, y);
    if hit {
        assert(after.depth_at(x, y) == fragment_depth(v0, v1, v2, pixel_center(x), pixel_center(y)) as i32);
        assert(after.pixel(x, y) == fragment_color(v0, v1, v2, c0, c1, c2, pixel_center(x), pixel_center(y)));
    } else {
        assert(after.depth_at(x, y) == before.depth_at(x, y));
        assert(after.pixel(x, y) == before.pixel(x, y));
    }
}
proof fn lemma_triangle_step(
    before: &SoftwareDevice,
    mid: &SoftwareDevice,
    after: &SoftwareDevice,
    v0: ScreenVertex,
    v1: ScreenVertex,
    v2: ScreenVertex,
    c0: u32,
    c1: u32,
    c2: u32,
    done: spec_fn(int, int) -> bool,
    done2: spec_fn(int, int) -> bool,
    px: int,
    py: int,
)
    requires
        before.wf(),
        triangle_overlay_on(before, mid, v0, v1, v2, c0, c1, c2, done),
        before.in_bounds(px, py),
        !done(px, py),
        forall|a: int, b: int| #[trigger] done2(a, b) == (done(a, b) || (a == px && b == py)),
        after.wf(),
        after.width == mid.width,
        after.height == mid.height,
        ({
            let cx = pixel_center(px);
            let cy = pixel_center(py);
            let i = pixel_index(mid.width as int, px, py);
            if covers(v0, v1, v2, cx, cy) && fragment_depth(v0, v1, v2, cx, cy) < mid.depth_at(px, py) {
                &&& after.framebuffer@ == mid.framebuffer@.update(i, fragment_color(v0, v1, v2, c0, c1, c2, cx, cy))
                &&& after.depthbuffer@ == mid.depthbuffer@.update(i, fragment_depth(v0, v1, v2, cx, cy) as i32)
            } else {
                &&& after.framebuffer@ == mid.framebuffer@
                &&& after.depthbuffer@ == mid.depthbuffer@
            }
        }),
    ensures
        triangle_overlay_on(before, after, v0, v1, v2, c0, c1, c2, done2),
{
    assert forall|x: int, y: int| before.in_bounds(x, y) implies #[trigger] after.pixel(x, y)
        == if done2(x, y) && triangle_hit(before, v0, v1, v2, x, y) {
        fragment_color(v0, v1, v2, c0, c1, c2, pixel_center(x), pixel_center(y))
    } else {
        before.pixel(x, y)
    } by {
        lemma_triangle_pixel(before, mid, after, v0, v1, v2, c0, c1, c2, done, px, py, x, y);
    }
    assert forall|x: int, y: int| before.in_bounds(x, y) implies #[trigger] after.depth_at(x, y)
        == if done2(x, y) && triangle_hit(before, v0, v1, v2, x, y) {
        fragment_depth(v0, v1, v2, pixel_center(x), pixel_center(y)) as i32
    } else {
        before.depth_at(x, y)
    } by {
        lemma_triangle_pixel(before, mid, after, v0, v1, v2, c0, c1, c2, done, px, py, x, y);
    }
}

/// A pixel outside the bounding box that `draw_triangle` scans is not covered.
proof fn lemma_box_covers(
    v0: ScreenVertex,
    v1: ScreenVertex,
    v2: ScreenVertex,
    min_vx: int,
    max_vx: int,
    min_vy: int,
    max_vy: int,
    x: int,
    y: int,
)
    requires
        min_vx <= v0.x && min_vx <= v1.x && min_vx <= v2.x,
        max_vx >= v0.x && max_vx >= v1.x && max_vx >= v2.x,
        min_vy <= v0.y && min_vy <= v1.y && min_vy <= v2.y,
        max_vy >= v0.y && max_vy >= v1.y && max_vy >= v2.y,
        0 <= x,
        0 <= y,
        covers(v0, v1, v2, pixel_center(x), pixel_center(y)),
    ensures
        0 <= max_vx,
        0 <= max_vy,
        min_vx <= 0 || min_vx / 256 <= x,
        x <= max_vx / 256,
        min_vy <= 0 || min_vy / 256 <= y,
        y <= max_vy / 256,
{
    lemma_covered_in_box(v0, v1, v2, pixel_center(x), pixel_center(y));
}

impl SoftwareDevice {
    /// Fills the triangle `v0 v1 v2` with colors interpolated from `color0`,
    /// `color1`, `color2`. Every pixel of the framebuffer whose center the
    /// triangle covers, within its bounding box clamped to the framebuffer,
    /// goes through the depth test with the interpolated depth; depth and
    /// channels are interpolated linearly in screen space and rounded down.
    /// A triangle of zero area is skipped and leaves both buffers unchanged.
    pub fn draw_triangle(
        &mut self,
        v0: ScreenVertex,
        v1: ScreenVertex,
        v2: ScreenVertex,
        color0: u32,
        color1: u32,
        color2: u32,
    )
        requires
            old(self).wf(),
        ensures
            triangle_overlay(old(self), final(self), v0, v1, v2, color0, color1, color2),
            area2(v0, v1, v2) == 0 ==> final(self).framebuffer@ == old(self).framebuffer@
                && final(self).depthbuffer@ == old(self).depthbuffer@,
    {
        let ghost before = *self;
        let (_, _, _, total) = barycentric(0, 0, v0, v1, v2);
        let min_vx: i32 = if v0.x <= v1.x && v0.x <= v2.x { v0.x } else if v1.x <= v2.x { v1.x } else { v2.x };
        let max_vx: i32 = if v0.x >= v1.x && v0.x >= v2.x { v0.x } else if v1.x >= v2.x { v1.x } else { v2.x };
        let min_vy: i32 = if v0.y <= v1.y && v0.y <= v2.y { v0.y } else if v1.y <= v2.y { v1.y } else { v2.y };
        let max_vy: i32 = if v0.y >= v1.y && v0.y >= v2.y { v0.y } else if v1.y >= v2.y { v1.y } else { v2.y };
        if total == 0 || max_vx < 0 || max_vy < 0 || self.width == 0 || self.height == 0 {
            proof {
                assert forall|x: int, y: int| before.in_bounds(x, y) implies !covers(
                    v0,
                    v1,
                    v2,
                    pixel_center(x),
                    pixel_center(y),
                ) by {
                    if covers(v0, v1, v2, pixel_center(x), pixel_center(y)) {
                        lemma_box_covers(v0, v1, v2, min_vx as int, max_vx as int, min_vy as int, max_vy as int, x, y);
                    }
                }
            }
            return;
        }
        let min_x: usize = if min_vx <= 0 { 0 } else { (min_vx / 256) as usize };
        let min_y: usize = if min_vy <= 0 { 0 } else { (min_vy / 256) as usize };
        let mx: usize = (max_vx / 256) as usize;
        let my: usize = (max_vy / 256) as usize;
        let max_x: usize = if mx < self.width - 1 { mx } else { self.width - 1 };
        let max_y: usize = if my < self.height - 1 { my } else { self.height - 1 };
        let mut y: usize = min_y;
        while y <= max_y
            invariant
                before == *old(self),
                before.wf(),
                self.wf(),
                0 < total <= 0x400000000000000000,
                total == abs_area2(v0, v1, v2),
                max_x < self.width,
                max_y < self.height,
                max_x <= max_vx / 256,
                max_y <= max_vy / 256,
                0 <= max_vx,
                min_y <= y,
                y <= max_y + 1 || y == min_y,
                triangle_overlay_on(
                    &before,
                    self,
                    v0,
                    v1,
                    v2,
                    color0,
                    color1,
                    color2,
                    |a: int, b: int| min_x <= a <= max_x && min_y <= b < y,
                ),
            decreases max_y + 1 - y,
        {
            let mut x: usize = min_x;
            while x <= max_x
                invariant
                    before == *old(self),
                    before.wf(),
                    self.wf(),
                    0 < total <= 0x400000000000000000,
                    total == abs_area2(v0, v1, v2),
                    max_x < self.width,
                    max_y < self.height,
                    max_x <= max_vx / 256,
                    max_y <= max_vy / 256,
                    0 <= max_vx,
                    min_y <= y <= max_y,
                    min_x <= x,
                    x <= max_x + 1 || x == min_x,
                    triangle_overlay_on(
                        &before,
                        self,
                        v0,
                        v1,
                        v2,
                        color0,
                        color1,
                        color2,
                        |a: int, b: int| (min_x <= a <= max_x && min_y <= b < y) || (b == y && min_x <= a < x),
                    ),
                decreases max_x + 1 - x,
            {
                let px = x as i128 * 256 + 128;
                let py = y as i128 * 256 + 128;
                let (w0, w1, w2, t) = barycentric(px, py, v0, v1, v2);
                let ghost mid = *self;
                let ghost done = |a: int, b: int| (min_x <= a <= max_x && min_y <= b < y) || (b == y && min_x <= a < x);
                let ghost done2 = |a: int, b: int| (min_x <= a <= max_x && min_y <= b < y) || (b == y && min_x <= a < x + 1);
                if w0 >= 0 && w1 >= 0 && w2 >= 0 {
                    let depth = interpolate_depth(v0.depth, v1.depth, v2.depth, w0, w1, w2, t);
                    let color = interpolate_color(color0, color1, color2, w0, w1, w2, t);
                    self.draw_pixel(x, y, color, depth);
                }
                proof {
                    lemma_triangle_step(&before, &mid, self, v0, v1, v2, color0, color1, color2, done, done2, x as int, y as int);
                }
                x = x + 1;
            }
            y = y + 1;
        }
        proof {
            let done = |a: int, b: int| min_x <= a <= max_x && min_y <= b < y;
            assert forall|x: int, y: int| before.in_bounds(x, y) && !done(x, y) implies !covers(
                v0,
                v1,
                v2,
                pixel_center(x),
                pixel_center(y),
            ) by {
                if covers(v0, v1, v2, pixel_center(x), pixel_center(y)) {
                    lemma_box_covers(v0, v1, v2, min_vx as int, max_vx as int, min_vy as int, max_vy as int, x, y);
                }
            }
            assert forall|x: int, y: int| before.in_bounds(x, y) implies #[trigger] self.pixel(x, y)
                == if triangle_hit(&before, v0, v1, v2, x, y) {
                fragment_color(v0, v1, v2, color0, color1, color2, pixel_center(x), pixel_center(y))
            } else {
                before.pixel(x, y)
            } by {
                assert(self.pixel(x, y) == self.pixel(x, y));
                if covers(v0, v1, v2, pixel_center(x), pixel_center(y)) {
                    lemma_box_covers(v0, v1, v2, min_vx as int, max_vx as int, min_vy as int, max_vy as int, x, y);
                }
            }
            assert forall|x: int, y: int| before.in_bounds(x, y) implies #[trigger] self.depth_at(x, y)
                == if triangle_hit(&before, v0, v1, v2, x, y) {
                fragment_depth(v0, v1, v2, pixel_center(x), pixel_center(y)) as i32
            } else {
                before.depth_at(x, y)
            } by {
                assert(self.depth_at(x, y) == self.depth_at(x, y));
                if covers(v0, v1, v2, pixel_center(x), pixel_center(y)) {
                    lemma_box_covers(v0, v1, v2, min_vx as int, max_vx as int, min_vy as int, max_vy as int, x, y);
                }
            }
        }
    }
}

} // verus!
