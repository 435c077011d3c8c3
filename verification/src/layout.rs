//! Areas of the window.

use vstd::prelude::*;

verus! {

/// A part of the window, in columns and rows.
#[derive(Clone, Copy, PartialEq, Eq, Debug)]
pub struct Rect {
    pub x: u16,
    pub y: u16,
    pub width: u16,
    pub height: u16,
}

impl Rect {
    /// Whether the area ends where columns and rows can still be counted.
    pub open spec fn fits(self) -> bool {
        &&& self.x + self.width <= 65535
        &&& self.y + self.height <= 65535
    }

    /// Whether `self` lies in `area`.
    pub open spec fn within(self, area: Rect) -> bool {
        &&& area.x <= self.x
        &&& area.y <= self.y
        &&& self.x + self.width <= area.x + area.width
        &&& self.y + self.height <= area.y + area.height
    }
}

/// What is asked of the height of a part.
#[derive(Clone, Copy, PartialEq, Eq, Debug)]
pub enum Limit {
    /// At least so many rows.
    Min(u16),
    /// So many rows.
    Length(u16),
    /// This share of the whole.
    Ratio(u32, u32),
}

/// Whether `ratatui::layout::Layout` can share an area out so, under these limits. How it weighs
/// limits that cannot all be met is left to it; its solver goes through hash maps, so that
/// nothing is said of two calls giving the same parts.
pub uninterp spec fn can_split(area: Rect, limits: (Limit, Limit), parts: (Rect, Rect)) -> bool;

/// `ratatui::layout::Layout::areas` of a vertical layout: two parts one above the other, which
/// are as wide as the area and lie in it, as its solver is required to place them. What rows they
/// get is what `can_split` says; a part ends where rows can still be counted.
#[verifier::external_body]
pub(crate) fn split(area: Rect, limits: (Limit, Limit)) -> (r: (Rect, Rect))
    ensures
        can_split(area, limits, r),
        r.0.x == area.x && r.0.width == area.width,
        r.1.x == area.x && r.1.width == area.width,
        r.0.y + r.0.height <= 65535,
        r.1.y + r.1.height <= 65535,
        area.fits() ==> r.0.within(area) && r.1.within(area),
{
    let outside = |l: Limit| match l {
        Limit::Min(n) => ratatui::layout::Constraint::Min(n),
        Limit::Length(n) => ratatui::layout::Constraint::Length(n),
        Limit::Ratio(n, d) => ratatui::layout::Constraint::Ratio(n, d),
    };
    let whole = ratatui::layout::Rect { x: area.x, y: area.y, width: area.width, height: area.height };
    let [a, b] = ratatui::layout::Layout::vertical([outside(limits.0), outside(limits.1)]).areas(whole);
    let inside = |r: ratatui::layout::Rect| Rect { x: r.x, y: r.y, width: r.width, height: r.height };
    (inside(a), inside(b))
}

/// The area of at most `w` columns and `h` rows in the middle of `area`.
pub open spec fn middle(area: Rect, w: u16, h: u16) -> Rect {
    let w = if w <= area.width {
        w
    } else {
        area.width
    };
    let h = if h <= area.height {
        h
    } else {
        area.height
    };
    Rect {
        x: (area.x + (area.width - w) / 2) as u16,
        y: (area.y + (area.height - h) / 2) as u16,
        width: w,
        height: h,
    }
}

/// The area of at most `w` columns and `h` rows in the middle of `area`.
pub fn centered(area: Rect, w: u16, h: u16) -> (r: Rect)
    requires
        area.fits(),
    ensures
        r == middle(area, w, h),
{
    let w = if w <= area.width { w } else { area.width };
    let h = if h <= area.height { h } else { area.height };
    Rect {
        x: area.x + (area.width - w) / 2,
        y: area.y + (area.height - h) / 2,
        width: w,
        height: h,
    }
}

/// What is centred lies within the area, has the size asked for as far as there is room, and
/// leaves as much on either side, but for one column or row.
pub proof fn centered_is_in_the_middle(area: Rect, w: u16, h: u16)
    requires
        area.fits(),
    ensures
        ({
            let r = middle(area, w, h);
            let left = r.x - area.x;
            let right = area.x + area.width - (r.x + r.width);
            let above = r.y - area.y;
            let below = area.y + area.height - (r.y + r.height);
            &&& r.within(area)
            &&& w <= area.width ==> r.width == w
            &&& h <= area.height ==> r.height == h
            &&& 0 <= right - left <= 1
            &&& 0 <= below - above <= 1
        }),
{
}

/// What a border around `area` leaves of it.
pub open spec fn bordered(area: Rect) -> Rect {
    Rect {
        x: if area.width > 0 {
            (area.x + 1) as u16
        } else {
            area.x
        },
        y: if area.height > 0 {
            (area.y + 1) as u16
        } else {
            area.y
        },
        width: if area.width >= 2 {
            (area.width - 2) as u16
        } else {
            0
        },
        height: if area.height >= 2 {
            (area.height - 2) as u16
        } else {
            0
        },
    }
}

/// What a border leaves lies within the area.
pub proof fn bordered_is_within(area: Rect)
    requires
        area.fits(),
    ensures
        bordered(area).within(area),
{
}

/// What a border around `area` leaves of it.
pub fn inner(area: Rect) -> (r: Rect)
    requires
        area.fits(),
    ensures
        r == bordered(area),
{
    Rect {
        x: if area.width > 0 { area.x + 1 } else { area.x },
        y: if area.height > 0 { area.y + 1 } else { area.y },
        width: area.width.saturating_sub(2),
        height: area.height.saturating_sub(2),
    }
}

} // verus!
