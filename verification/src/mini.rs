//! Where the tray mini-player opens: the bottom-right corner of the primary
//! monitor, just above the taskbar.
use vstd::prelude::*;

verus! {

/// The gap kept to the monitor's right edge, in pixels.
pub const MINI_MARGIN: i32 = 12;

/// The room left for the taskbar at the bottom, in pixels.
pub const MINI_TASKBAR: i32 = 56;

/// The mini-player's size when the window cannot report its own.
pub const MINI_DEFAULT_WIDTH: u32 = 320;
pub const MINI_DEFAULT_HEIGHT: u32 = 300;

/// The window size used: the reported one, else the default.
pub open spec fn mini_size(win: Option<(u32, u32)>) -> (u32, u32) {
    match win {
        Some(s) => s,
        None => (MINI_DEFAULT_WIDTH, MINI_DEFAULT_HEIGHT),
    }
}

/// The top-left corner of the mini-player on a monitor at (`mx`, `my`) of
/// `mw` × `mh` pixels, for a window of `ww` × `wh` (sizes taken as `i32`).
pub open spec fn mini_corner(mx: int, my: int, mw: int, mh: int, ww: int, wh: int) -> (int, int) {
    (mx + mw - ww - MINI_MARGIN, my + mh - wh - MINI_TASKBAR)
}

/// Whether every step of the corner's arithmetic stays within `i32`.
pub open spec fn mini_fits(mx: i32, my: i32, mw: u32, mh: u32, win: Option<(u32, u32)>) -> bool {
    let (ww, wh) = mini_size(win);
    let (a, b) = (mx + (mw as i32), my + (mh as i32));
    &&& i32::MIN <= a <= i32::MAX
    &&& i32::MIN <= a - (ww as i32) <= i32::MAX
    &&& i32::MIN <= a - (ww as i32) - MINI_MARGIN <= i32::MAX
    &&& i32::MIN <= b <= i32::MAX
    &&& i32::MIN <= b - (wh as i32) <= i32::MAX
    &&& i32::MIN <= b - (wh as i32) - MINI_TASKBAR <= i32::MAX
}

/// Where to put the mini-player: flush with the monitor's right edge less
/// the margin, and its bottom above the taskbar. `win` is the window's
/// reported size, if it could report one.
pub fn mini_position(mx: i32, my: i32, mw: u32, mh: u32, win: Option<(u32, u32)>) -> (r: (i32, i32))
    requires
        mini_fits(mx, my, mw, mh, win),
    ensures
        r.0 == mini_corner(mx as int, my as int, (mw as i32) as int, (mh as i32) as int,
            (mini_size(win).0 as i32) as int, (mini_size(win).1 as i32) as int).0,
        r.1 == mini_corner(mx as int, my as int, (mw as i32) as int, (mh as i32) as int,
            (mini_size(win).0 as i32) as int, (mini_size(win).1 as i32) as int).1,
{
    let (ww, wh) = match win {
        Some(s) => s,
        None => (MINI_DEFAULT_WIDTH, MINI_DEFAULT_HEIGHT),
    };
    let x = mx + mw as i32 - ww as i32 - MINI_MARGIN;
    let y = my + mh as i32 - wh as i32 - MINI_TASKBAR;
    (x, y)
}

} // verus!
