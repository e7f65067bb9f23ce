use vstd::prelude::*;

verus! {

/// The packed value of a color whose channels are `r`, `g`, `b`, `a`, from the
/// least significant byte to the most significant one.
pub open spec fn packed(r: u8, g: u8, b: u8, a: u8) -> u32 {
    (r as int + 256 * g as int + 65536 * b as int + 16777216 * a as int) as u32
}

/// Channel `k` (0 = red, 1 = green, 2 = blue, 3 = alpha) of a packed color.
pub open spec fn channel(c: u32, k: u32) -> u8 {
    ((c >> ((8 * k) as u32)) & 0xff) as u8
}

proof fn lemma_pack(r: u32, g: u32, b: u32, a: u32)
    requires
        r < 256,
        g < 256,
        b < 256,
        a < 256,
    ensures
        (a << 24) | (b << 16) | (g << 8) | r == r + 256 * g + 65536 * b + 16777216 * a,
        (((a << 24) | (b << 16) | (g << 8) | r) >> 0) & 0xff == r,
        (((a << 24) | (b << 16) | (g << 8) | r) >> 8) & 0xff == g,
        (((a << 24) | (b << 16) | (g << 8) | r) >> 16) & 0xff == b,
        (((a << 24) | (b << 16) | (g << 8) | r) >> 24) & 0xff == a,
{
    assert((a << 24) | (b << 16) | (g << 8) | r == r + 256 * g + 65536 * b + 16777216 * a)
        by (bit_vector)
        requires
            r < 256,
            g < 256,
            b < 256,
            a < 256,
    ;
    assert((((a << 24) | (b << 16) | (g << 8) | r) >> 0) & 0xff == r
        && (((a << 24) | (b << 16) | (g << 8) | r) >> 8) & 0xff == g
        && (((a << 24) | (b << 16) | (g << 8) | r) >> 16) & 0xff == b
        && (((a << 24) | (b << 16) | (g << 8) | r) >> 24) & 0xff == a) by (bit_vector)
        requires
            r < 256,
            g < 256,
            b < 256,
            a < 256,
    ;
}

/// Packs four 8-bit channels into one RGBA8 value, red in the lowest byte.
pub fn rgba(r: u8, g: u8, b: u8, a: u8) -> (c: u32)
    ensures
        c == packed(r, g, b, a),
        channel(c, 0) == r,
        channel(c, 1) == g,
        channel(c, 2) == b,
        channel(c, 3) == a,
{
    proof {
        lemma_pack(r as u32, g as u32, b as u32, a as u32);
    }
    ((a as u32) << 24) | ((b as u32) << 16) | ((g as u32) << 8) | (r as u32)
}

/// Extracts channel `k` of a packed color.
pub fn unpack_channel(c: u32, k: u32) -> (v: u8)
    requires
        k < 4,
    ensures
        v == channel(c, k),
{
    ((c >> (8 * k)) & 0xff) as u8
}

} // verus!
