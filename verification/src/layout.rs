//! Placement of the help popup and scrolling of the detail panel.

use vstd::prelude::*;

verus! {

/// A rectangle of terminal cells: top-left corner and size.
#[derive(Clone, Copy, Debug, PartialEq, Eq, Structural)]
pub struct Area {
    pub x: u16,
    pub y: u16,
    pub width: u16,
    pub height: u16,
}

/// `len` cut back so that a span starting at `start` ends by `u16::MAX`.
pub open spec fn clamp_len(start: u16, len: u16) -> u16 {
    if len > u16::MAX - start {
        (u16::MAX - start) as u16
    } else {
        len
    }
}

/// `ratatui::layout::Rect::new`: the rectangle at `(x, y)` of the given
/// size, with width and height cut back so that it ends by `u16::MAX`
/// (ratatui's source computes exactly this, without panicking).
#[verifier::external_body]
fn rect_new(x: u16, y: u16, width: u16, height: u16) -> (r: Area)
    ensures
        r == (Area { x, y, width: clamp_len(x, width), height: clamp_len(y, height) }),
{
    let r = ratatui::layout::Rect::new(x, y, width, height);
    Area { x: r.x, y: r.y, width: r.width, height: r.height }
}

pub open spec fn saturating_sub16(a: u16, b: u16) -> u16 {
    if a >= b {
        (a - b) as u16
    } else {
        0
    }
}

/// The rectangle of size `w` by `h` centred in `area` (rounding towards the
/// top left).
pub open spec fn centered(area: Area, w: u16, h: u16) -> Area {
    let x = (area.x + saturating_sub16(area.width, w) / 2) as u16;
    let y = (area.y + saturating_sub16(area.height, h) / 2) as u16;
    Area { x, y, width: clamp_len(x, w), height: clamp_len(y, h) }
}

/// Whether centring in `area` stays within the coordinate range.
pub open spec fn centering_fits(area: Area, w: u16, h: u16) -> bool {
    &&& area.x + saturating_sub16(area.width, w) / 2 <= u16::MAX
    &&& area.y + saturating_sub16(area.height, h) / 2 <= u16::MAX
}

/// Whether `inner` lies within `outer`.
pub open spec fn contains_area(outer: Area, inner: Area) -> bool {
    &&& outer.x <= inner.x
    &&& outer.y <= inner.y
    &&& inner.x + inner.width <= outer.x + outer.width
    &&& inner.y + inner.height <= outer.y + outer.height
}

/// Centres a `w` by `h` rectangle in `area`.
pub fn centered_rect(area: Area, w: u16, h: u16) -> (r: Area)
    requires
        centering_fits(area, w, h),
    ensures
        r == centered(area, w, h),
        w <= area.width && h <= area.height ==> contains_area(area, r),
{
    let x = area.x + area.width.saturating_sub(w) / 2;
    let y = area.y + area.height.saturating_sub(h) / 2;
    rect_new(x, y, w, h)
}

/// The size of the help popup in an area: 50 by 18 cells, less if the area
/// is smaller than that plus a margin of 4.
pub open spec fn help_popup(area: Area) -> Area {
    centered(area, popup_width(area), popup_height(area))
}

/// Width of the help popup: 50, or the area's width less 4 if that is less.
pub open spec fn popup_width(area: Area) -> u16 {
    if 50 <= saturating_sub16(area.width, 4) {
        50u16
    } else {
        saturating_sub16(area.width, 4)
    }
}

/// Height of the help popup: 18, or the area's height less 4 if that is less.
pub open spec fn popup_height(area: Area) -> u16 {
    if 18 <= saturating_sub16(area.height, 4) {
        18u16
    } else {
        saturating_sub16(area.height, 4)
    }
}

/// Where the help popup goes in `area`; it always lies within the area.
pub fn help_popup_area(area: Area) -> (r: Area)
    requires
        centering_fits(area, popup_width(area), popup_height(area)),
    ensures
        r == help_popup(area),
        contains_area(area, r),
{
    let sw = area.width.saturating_sub(4);
    let sh = area.height.saturating_sub(4);
    let w = if 50 <= sw { 50 } else { sw };
    let h = if 18 <= sh { 18 } else { sh };
    centered_rect(area, w, h)
}

/// How far the detail panel can scroll: the number of lines (taken modulo
/// 2^16, as a 16-bit count) beyond those the panel shows inside its border.
pub open spec fn max_scroll(line_count: usize, area_height: u16) -> u16 {
    saturating_sub16(line_count as u16, saturating_sub16(area_height, 2))
}

/// The largest scroll offset of the detail panel for `line_count` lines in a
/// panel `area_height` rows high.
pub fn detail_max_scroll(line_count: usize, area_height: u16) -> (r: u16)
    ensures
        r == max_scroll(line_count, area_height),
{
    let visible = area_height.saturating_sub(2);
    (line_count as u16).saturating_sub(visible)
}

} // verus!
