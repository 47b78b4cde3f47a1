//! The on-board WS2812 RGB LED driven as a gray level: R = G = B, in
//! proportion to a brightness percentage.

use vstd::prelude::*;

use crate::light_state::LEVEL_MAX;

verus! {

/// Percentage shown as half white.
pub const HALF_PERCENT: u8 = 50;

/// Gray component of half white ("medio blanco", RGB 128,128,128).
pub const HALF_GRAY: u8 = 128;

/// The gray component for `percent`: the integer rule of three
/// `min(percent, 100) * 255 / 100`, except that 50 percent is half white
/// (128).
pub open spec fn gray_component(percent: u8) -> u8 {
    let p: int = if percent <= LEVEL_MAX { percent as int } else { LEVEL_MAX as int };
    if p == HALF_PERCENT {
        HALF_GRAY
    } else {
        (p * 255 / 100) as u8
    }
}

/// The gray component (0..255) shown for a brightness percentage; values
/// above 100 saturate.
pub fn gray_level(percent: u8) -> (c: u8)
    ensures
        c == gray_component(percent),
{
    let p: u32 = if percent <= LEVEL_MAX { percent as u32 } else { LEVEL_MAX as u32 };
    if p == HALF_PERCENT as u32 {
        HALF_GRAY
    } else {
        ((p * 255) / 100) as u8
    }
}

/// Percent 0 is black, percent 50 is half white (128), percent 100 and
/// above is full white, and a higher percentage never gives a darker gray.
pub proof fn lemma_gray_level_range(a: u8, b: u8)
    ensures
        gray_component(0) == 0,
        gray_component(50) == 128,
        a >= 100 ==> gray_component(a) == 255,
        a <= b ==> gray_component(a) <= gray_component(b),
{
    let pa: int = if a <= 100 { a as int } else { 100 };
    let pb: int = if b <= 100 { b as int } else { 100 };
    assert(pa * 255 / 100 <= 255) by (nonlinear_arith)
        requires
            0 <= pa <= 100,
    ;
    assert(pb * 255 / 100 <= 255) by (nonlinear_arith)
        requires
            0 <= pb <= 100,
    ;
    if a <= b {
        assert(pa * 255 / 100 <= pb * 255 / 100) by (nonlinear_arith)
            requires
                0 <= pa <= pb,
        ;
        if pa < 50 {
            assert(pa * 255 / 100 <= 124) by (nonlinear_arith)
                requires
                    0 <= pa <= 49,
            ;
        }
        if pb > 50 {
            assert(pb * 255 / 100 >= 130) by (nonlinear_arith)
                requires
                    51 <= pb <= 100,
            ;
        }
    }
}

/// The pixel `(r, g, b)` that shows `percent` as a gray.
pub fn gray_pixel(percent: u8) -> (px: (u8, u8, u8))
    ensures
        px == (gray_component(percent), gray_component(percent), gray_component(percent)),
{
    let c = gray_level(percent);
    (c, c, c)
}

} // verus!
