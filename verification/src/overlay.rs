//! Pure placement and visibility rules for the desktop-overlay companion
//! tool.

use vstd::prelude::*;

verus! {

/// The overlay is visible exactly when it is toggled on and neither high
/// contrast nor a fullscreen foreground window suppresses it.
pub fn should_show(toggled_on: bool, high_contrast: bool, fullscreen: bool) -> (r: bool)
    ensures
        r == (toggled_on && !high_contrast && !fullscreen),
{
    toggled_on && !high_contrast && !fullscreen
}

/// Division by two that rounds toward zero, as machine division does.
pub open spec fn spec_half_toward_zero(d: int) -> int {
    if d >= 0 {
        d / 2
    } else {
        -((-d) / 2)
    }
}

/// Top-center position of a text line within a work area
/// `(left, top, right, bottom)`: horizontally centered, `margin` below the
/// top edge.
pub fn calc_top_center(work: (i32, i32, i32, i32), text_w: i32, _text_h: i32, margin: i32) -> (r: (
    i32,
    i32,
))
    requires
        -0x2000_0000 <= work.0 <= 0x2000_0000,
        -0x2000_0000 <= work.1 <= 0x2000_0000,
        -0x2000_0000 <= work.2 <= 0x2000_0000,
        -0x2000_0000 <= text_w <= 0x2000_0000,
        -0x2000_0000 <= margin <= 0x2000_0000,
    ensures
        r.0 == work.0 + spec_half_toward_zero(work.2 - work.0 - text_w),
        r.1 == work.1 + margin,
{
    let (left, top, right, _bottom) = work;
    let work_w = right - left;
    let d = work_w - text_w;
    let half = if d >= 0 {
        d / 2
    } else {
        -((-d) / 2)
    };
    let x = left + half;
    let y = top + margin;
    (x, y)
}

} // verus!
