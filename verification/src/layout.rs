//! Where the overlay pill sits on its monitor.
use vstd::prelude::*;

verus! {

/// Screen corner the overlay is pinned to.
#[derive(Clone, Copy, Debug, PartialEq, Eq, Structural)]
pub enum Corner {
    Tl,
    Tr,
    Bl,
    Br,
}

impl Default for Corner {
    /// Top right.
    fn default() -> (r: Self)
        ensures
            r == Corner::Tr,
    {
        Corner::Tr
    }
}

pub open spec fn is_left(c: Corner) -> bool {
    c == Corner::Tl || c == Corner::Bl
}

pub open spec fn is_top(c: Corner) -> bool {
    c == Corner::Tl || c == Corner::Tr
}

/// Left edge of the window: `inset` in from the monitor's left or right
/// edge.
pub open spec fn origin_x(c: Corner, mon_x: int, mon_w: int, win_w: int, inset: int) -> int {
    if is_left(c) {
        mon_x + inset
    } else {
        mon_x + mon_w - win_w - inset
    }
}

/// Top edge of the window: `inset` in from the monitor's top or bottom
/// edge.
pub open spec fn origin_y(c: Corner, mon_y: int, mon_h: int, win_h: int, inset: int) -> int {
    if is_top(c) {
        mon_y + inset
    } else {
        mon_y + mon_h - win_h - inset
    }
}

pub open spec fn fits_i32(x: int) -> bool {
    i32::MIN <= x <= i32::MAX
}

/// Top-left position of a `win_w` x `win_h` window pinned to `corner` of a
/// monitor at (`mon_x`, `mon_y`) of size `mon_w` x `mon_h`, `inset` pixels
/// from its edges.
pub fn corner_origin(
    corner: Corner,
    mon_x: i32,
    mon_y: i32,
    mon_w: i32,
    mon_h: i32,
    win_w: i32,
    win_h: i32,
    inset: i32,
) -> (r: (i32, i32))
    requires
        is_left(corner) ==> fits_i32(mon_x + inset),
        !is_left(corner) ==> fits_i32(mon_x + mon_w) && fits_i32(mon_x + mon_w - win_w) && fits_i32(
            mon_x + mon_w - win_w - inset,
        ),
        is_top(corner) ==> fits_i32(mon_y + inset),
        !is_top(corner) ==> fits_i32(mon_y + mon_h) && fits_i32(mon_y + mon_h - win_h) && fits_i32(
            mon_y + mon_h - win_h - inset,
        ),
    ensures
        r.0 == origin_x(corner, mon_x as int, mon_w as int, win_w as int, inset as int),
        r.1 == origin_y(corner, mon_y as int, mon_h as int, win_h as int, inset as int),
{
    let x = match corner {
        Corner::Tl | Corner::Bl => mon_x + inset,
        Corner::Tr | Corner::Br => mon_x + mon_w - win_w - inset,
    };
    let y = match corner {
        Corner::Tl | Corner::Tr => mon_y + inset,
        Corner::Bl | Corner::Br => mon_y + mon_h - win_h - inset,
    };
    (x, y)
}

} // verus!
