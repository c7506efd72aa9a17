//! Single-pixel arithmetic: luma and the gray preview of one pixel.

use vstd::prelude::*;

verus! {

/// One RGBA8 pixel: red, green, blue, alpha.
pub type Rgba8 = (u8, u8, u8, u8);

/// The fully cleared pixel.
pub open spec fn clear_pixel() -> Rgba8 {
    (0u8, 0u8, 0u8, 0u8)
}

/// An opaque pixel whose three colour channels all hold `level`.
pub open spec fn opaque_gray(level: u8) -> Rgba8 {
    (level, level, level, 255u8)
}

/// BT.601 luma with integer weights: `(299 R + 587 G + 114 B) / 1000`, truncated.
pub open spec fn luma_value(r: u8, g: u8, b: u8) -> int {
    (299 * r + 587 * g + 114 * b) / 1000
}

/// The luma of a pixel's colour channels.
pub open spec fn pixel_luma(p: Rgba8) -> int {
    luma_value(p.0, p.1, p.2)
}

/// Luma never leaves the range of a channel, and a gray colour is its own luma.
pub proof fn lemma_luma_range(r: u8, g: u8, b: u8)
    ensures
        0 <= luma_value(r, g, b) <= 255,
        r == g && g == b ==> luma_value(r, g, b) == r,
{
}

/// Computes the luma of a colour.
pub fn luma(r: u8, g: u8, b: u8) -> (l: u8)
    ensures
        l == luma_value(r, g, b),
{
    let weighted: u32 = 299 * (r as u32) + 587 * (g as u32) + 114 * (b as u32);
    (weighted / 1000) as u8
}

/// What the gray preview makes of one pixel: a transparent pixel is cleared, any other
/// becomes an opaque gray of its luma.
pub open spec fn gray_of(p: Rgba8) -> Rgba8 {
    if p.3 == 0 {
        clear_pixel()
    } else {
        opaque_gray(pixel_luma(p) as u8)
    }
}

/// Computes the gray preview of one pixel.
pub fn gray_pixel(p: Rgba8) -> (q: Rgba8)
    ensures
        q == gray_of(p),
{
    if p.3 == 0 {
        (0, 0, 0, 0)
    } else {
        let l = luma(p.0, p.1, p.2);
        (l, l, l, 255)
    }
}

} // verus!
