//! Texture pipeline helpers: the mip chain length of an image and the
//! shapes the BC7 texture compressor hands to a BNTX writer.
use vstd::prelude::*;

verus! {

/// BC7 encoder quality presets, fastest to slowest.
#[derive(Debug, Clone, Copy, PartialEq, Eq, Structural)]
pub enum Bc7Quality {
    UltraFast,
    Fast,
    Basic,
    Slow,
}

/// The result of compressing an image: swizzled block bytes for a BNTX
/// texture data block and the metadata the texture entry records.
#[derive(Debug, Clone)]
pub struct CompressedTexture {
    pub width: u32,
    pub height: u32,
    pub mip_count: u32,
    pub array_count: u32,
    /// Swizzled BC7 bytes.
    pub swizzled_data: Vec<u8>,
    /// Block-height log2 used for swizzling.
    pub block_height_log2: u32,
    /// Total size of the block bytes before swizzling over all levels.
    pub image_size: u32,
}

/// Half a dimension, at least 1.
pub open spec fn halve(x: int) -> int {
    if x / 2 >= 1 { x / 2 } else { 1 }
}

/// A dimension, at least 1.
pub open spec fn at_least_one(x: int) -> int {
    if x >= 1 { x } else { 1 }
}

/// The number of levels in a full mip chain from `w` x `h` down to 1 x 1:
/// each level halves both sides (never below 1).
pub open spec fn mip_chain(w: int, h: int) -> int
    decreases at_least_one(w) + at_least_one(h),
{
    if w <= 1 && h <= 1 {
        1
    } else {
        1 + mip_chain(halve(w), halve(h))
    }
}

/// The number of mip levels in a full chain for a `width` x `height` image.
pub fn natural_mip_count(width: u32, height: u32) -> (c: u32)
    ensures
        c == mip_chain(width as int, height as int),
{
    let mut count: u32 = 1;
    let mut w = width;
    let mut h = height;
    assert(w <= (0xffff_ffffu32 >> 0u32) && h <= (0xffff_ffffu32 >> 0u32)) by (bit_vector);
    while w > 1 || h > 1
        invariant
            1 <= count <= 32,
            w <= (0xffff_ffffu32 >> ((count - 1) as u32)),
            h <= (0xffff_ffffu32 >> ((count - 1) as u32)),
            count + mip_chain(w as int, h as int) == 1 + mip_chain(width as int, height as int),
        decreases at_least_one(w as int) + at_least_one(h as int),
    {
        let c = count;
        assert(c <= 31 && w / 2 <= (0xffff_ffffu32 >> c) && h / 2 <= (0xffff_ffffu32 >> c) && 1 <= (0xffff_ffffu32
            >> c)) by (bit_vector)
            requires
                1 <= c <= 32,
                w <= (0xffff_ffffu32 >> ((c - 1) as u32)),
                h <= (0xffff_ffffu32 >> ((c - 1) as u32)),
                w > 1 || h > 1,
        ;
        w = if w / 2 >= 1 { w / 2 } else { 1 };
        h = if h / 2 >= 1 { h / 2 } else { 1 };
        count += 1;
    }
    count
}

/// `value` rounded up to a multiple of `multiple` (of 1 when it is 0).
pub fn round_up(value: u32, multiple: u32) -> (r: u32)
    requires
        value as int + multiple as int <= u32::MAX,
    ensures
        ({
            let m: int = if multiple >= 1 { multiple as int } else { 1 };
            r == (value as int + m - 1) / m * m
        }),
{
    let m = if multiple >= 1 { multiple } else { 1 };
    let q = value / m + if value % m != 0 { 1 } else { 0 };
    assert(q as int * m as int <= value as int + m as int && q as int == (value as int + m as int - 1) / (
    m as int)) by (nonlinear_arith)
        requires
            m >= 1,
            q as int == value as int / m as int + if value as int % m as int != 0 { 1int } else { 0int },
    ;
    q * m
}

} // verus!
