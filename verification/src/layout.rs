use vstd::prelude::*;
use crate::app::Rect;
use ratatui::layout::{Constraint, Direction, Layout};

verus! {

/// The three areas that ratatui's `Layout` gives for three percentage
/// constraints (`first`, `middle`, `last`) along one direction of `area`.
pub uninterp spec fn percent_split(vertical: bool, first: u16, middle: u16, last: u16, area: Rect) -> (
    Rect,
    Rect,
    Rect,
);

/// The part `part` of a split of `area` along one direction: it keeps the
/// area's extent across that direction and lies within the area along it.
pub open spec fn part_of(vertical: bool, part: Rect, area: Rect) -> bool {
    if vertical {
        &&& part.x == area.x
        &&& part.width == area.width
        &&& area.y <= part.y
        &&& part.y + part.height <= area.y + area.height
    } else {
        &&& part.y == area.y
        &&& part.height == area.height
        &&& area.x <= part.x
        &&& part.x + part.width <= area.x + area.width
    }
}

/// `ratatui::layout::Layout::areas` for three `Constraint::Percentage`s, vertical
/// or horizontal: the result is the one `percent_split` names; each area keeps
/// the outer area's extent across the split and lies within it along the split
/// (the solver holds every segment inside the area as a required constraint).
/// Where the solver places the segment ends is not restated here.
#[verifier::external_body]
fn split_percentages(vertical: bool, first: u16, middle: u16, last: u16, area: Rect) -> (r: (
    Rect,
    Rect,
    Rect,
))
    ensures
        r == percent_split(vertical, first, middle, last, area),
        part_of(vertical, r.0, area),
        part_of(vertical, r.1, area),
        part_of(vertical, r.2, area),
{
    let direction = if vertical { Direction::Vertical } else { Direction::Horizontal };
    let outer = ratatui::layout::Rect { x: area.x, y: area.y, width: area.width, height: area.height };
    let cs = [Constraint::Percentage(first), Constraint::Percentage(middle), Constraint::Percentage(last)];
    let [a, b, c] = Layout::default().direction(direction).constraints(cs).areas::<3>(outer);
    (
        Rect { x: a.x, y: a.y, width: a.width, height: a.height },
        Rect { x: b.x, y: b.y, width: b.width, height: b.height },
        Rect { x: c.x, y: c.y, width: c.width, height: c.height },
    )
}

/// A rectangle of `percent_x` by `percent_y` percent of `area`, centred in it;
/// it lies inside `area`.
pub fn centered_rect(percent_x: u16, percent_y: u16, area: Rect) -> (r: Rect)
    requires
        percent_x <= 100,
        percent_y <= 100,
    ensures
        area.x <= r.x,
        r.x + r.width <= area.x + area.width,
        area.y <= r.y,
        r.y + r.height <= area.y + area.height,
        r == percent_split(
            false,
            ((100 - percent_x) / 2) as u16,
            percent_x,
            ((100 - percent_x) / 2) as u16,
            percent_split(
                true,
                ((100 - percent_y) / 2) as u16,
                percent_y,
                ((100 - percent_y) / 2) as u16,
                area,
            ).1,
        ).1,
{
    let side_y = (100 - percent_y) / 2;
    let rows = split_percentages(true, side_y, percent_y, side_y, area);
    let side_x = (100 - percent_x) / 2;
    let cols = split_percentages(false, side_x, percent_x, side_x, rows.1);
    cols.1
}

} // verus!
