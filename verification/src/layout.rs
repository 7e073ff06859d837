//! Screen rectangles and centring a box in one.
use vstd::prelude::*;

verus! {

/// A rectangle of terminal cells: its top-left corner and its size.
#[derive(Clone, Copy, Debug, PartialEq, Eq, Structural)]
pub struct Area {
    pub x: u16,
    pub y: u16,
    pub width: u16,
    pub height: u16,
}

impl Area {
    /// A rectangle whose width and height are cut so that it ends within the `u16`
    /// coordinate range, as the terminal library's rectangles are.
    pub fn new(x: u16, y: u16, width: u16, height: u16) -> (a: Area)
        ensures
            a.x == x,
            a.y == y,
            a.width == if width > u16::MAX - x {
                (u16::MAX - x) as u16
            } else {
                width
            },
            a.height == if height > u16::MAX - y {
                (u16::MAX - y) as u16
            } else {
                height
            },
            a.fits(),
    {
        let max_width = u16::MAX - x;
        let max_height = u16::MAX - y;
        let width = if width > max_width {
            max_width
        } else {
            width
        };
        let height = if height > max_height {
            max_height
        } else {
            height
        };
        Area { x, y, width, height }
    }

    /// Whether the rectangle ends within the `u16` coordinate range.
    pub open spec fn fits(self) -> bool {
        self.x + self.width <= u16::MAX && self.y + self.height <= u16::MAX
    }
}

/// A box of `w` by `h` cells centred in `area` (rounding toward the top left), cut to
/// the area's size.
pub fn center(area: Area, w: u16, h: u16) -> (r: Area)
    requires
        area.fits(),
    ensures
        r.x == area.x + (if area.width > w {
            area.width - w
        } else {
            0
        }) / 2,
        r.y == area.y + (if area.height > h {
            area.height - h
        } else {
            0
        }) / 2,
        r.width == if w < area.width {
            w
        } else {
            area.width
        },
        r.height == if h < area.height {
            h
        } else {
            area.height
        },
        r.fits(),
{
    let x = area.x + area.width.saturating_sub(w) / 2;
    let y = area.y + area.height.saturating_sub(h) / 2;
    Area::new(x, y, if w < area.width {
        w
    } else {
        area.width
    }, if h < area.height {
        h
    } else {
        area.height
    })
}

} // verus!
