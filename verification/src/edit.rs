//! Integer filters of the non-destructive editor. The colour operations
//! themselves are floating point and live with the caller.
use vstd::prelude::*;

use crate::retouch::{blurred_byte, window_mean_at};

verus! {

/// 3x3 box blur of an RGB8 image (the blur the unsharp mask subtracts):
/// the output holds exactly the `w * h` pixels, each byte the floored mean of
/// its channel over the 3x3 window around its pixel, clipped to the image.
/// The radius argument is not used. Pixel indices are computed in 32-bit
/// signed arithmetic, so the image holds at most `i32::MAX` bytes.
pub fn box_blur(rgb: &[u8], w: u32, h: u32, _radius: u32) -> (r: Vec<u8>)
    requires
        3 * (w * h) <= rgb.len(),
        3 * (w * h) <= i32::MAX,
    ensures
        r@.len() == 3 * (w * h),
        forall|i: int|
            0 <= i < 3 * (w * h) ==> #[trigger] r@[i] == blurred_byte(rgb@, w as int, h as int, i, 1),
{
    let wu = w as usize;
    let hu = h as usize;
    assert(wu * hu == w * h);
    let n = 3 * (wu * hu);
    let mut out: Vec<u8> = Vec::new();
    let mut i: usize = 0;
    while i < n
        invariant
            n == 3 * (wu * hu) <= rgb.len(),
            wu == w,
            hu == h,
            i <= n,
            out@.len() == i,
            forall|j: int| 0 <= j < i ==> #[trigger] out@[j] == blurred_byte(rgb@, w as int, h as int, j, 1),
        decreases n - i,
    {
        let p = i / 3;
        let c = i % 3;
        assert(wu > 0 && p < wu * hu) by (nonlinear_arith)
            requires
                i < 3 * (wu * hu),
                p == i / 3,
        ;
        let x = p % wu;
        let y = p / wu;
        assert(y < hu) by (nonlinear_arith)
            requires
                p < wu * hu,
                y == p / wu,
                wu > 0,
        ;
        out.push(window_mean_at(rgb, wu, hu, x, y, c, 1));
        i = i + 1;
    }
    out
}

} // verus!
