//! How the terminal's area is shared out among panels.
use ratatui::layout::{Constraint, Direction, Layout, Rect};
use vstd::prelude::*;

verus! {

/// A part of the terminal, in character cells.
#[derive(Clone, Copy, PartialEq, Eq, Structural, Debug)]
pub struct Area {
    pub x: u16,
    pub y: u16,
    pub width: u16,
    pub height: u16,
}

/// How much of the space a part wants.
#[derive(Clone, Copy, PartialEq, Eq, Structural, Debug)]
pub enum Size {
    /// So many cells.
    Length(u16),
    /// At least so many cells.
    Min(u16),
    /// So many hundredths of the whole.
    Percentage(u16),
}

/// How the parts of an area lie.
#[derive(Clone, Copy, PartialEq, Eq, Structural, Debug)]
pub enum Axis {
    /// Below each other.
    Vertical,
    /// Side by side.
    Horizontal,
}

/// How an area is to be divided.
pub struct Plan {
    pub axis: Axis,
    /// What each part wants.
    pub sizes: Vec<Size>,
}

/// A divided area.
pub struct Panes {
    pub plan: Plan,
    /// The parts.
    pub areas: Vec<Area>,
}

/// Whether `part` lies within `area`, and reaches across all of it in the direction in
/// which it was not divided.
pub open spec fn is_part(part: Area, area: Area, axis: Axis) -> bool {
    match axis {
        Axis::Vertical => {
            &&& part.x == area.x && part.width == area.width
            &&& area.y <= part.y && part.y + part.height <= area.y + area.height
        },
        Axis::Horizontal => {
            &&& part.y == area.y && part.height == area.height
            &&& area.x <= part.x && part.x + part.width <= area.x + area.width
        },
    }
}

/// How far an area reaches in a direction.
pub open spec fn extent(area: Area, axis: Axis) -> nat {
    match axis {
        Axis::Vertical => area.height as nat,
        Axis::Horizontal => area.width as nat,
    }
}

/// Where an area begins in a direction.
pub open spec fn start(area: Area, axis: Axis) -> nat {
    match axis {
        Axis::Vertical => area.y as nat,
        Axis::Horizontal => area.x as nat,
    }
}

/// Where an area ends in a direction.
pub open spec fn end(area: Area, axis: Axis) -> nat {
    match axis {
        Axis::Vertical => (area.y + area.height) as nat,
        Axis::Horizontal => (area.x + area.width) as nat,
    }
}

/// The cells of an area in a direction that lie on the terminal, which has no cell beyond
/// the largest 16-bit number.
pub open spec fn room(area: Area, axis: Axis) -> nat {
    if end(area, axis) <= u16::MAX {
        extent(area, axis)
    } else {
        (u16::MAX - start(area, axis)) as nat
    }
}

/// The cells, or hundredths, that a size asks for.
pub open spec fn wanted(size: Size) -> nat {
    match size {
        Size::Length(n) => n as nat,
        Size::Min(n) => n as nat,
        Size::Percentage(n) => n as nat,
    }
}

/// What sizes ask for together.
pub open spec fn all_wanted(sizes: Seq<Size>) -> nat
    decreases sizes.len(),
{
    if sizes.len() == 0 {
        0
    } else {
        all_wanted(sizes.drop_last()) + wanted(sizes.last())
    }
}

/// What the sizes that ask for a least number of cells ask for together.
pub open spec fn least_wanted(sizes: Seq<Size>) -> nat
    decreases sizes.len(),
{
    if sizes.len() == 0 {
        0
    } else {
        least_wanted(sizes.drop_last()) + if sizes.last() is Min {
            wanted(sizes.last())
        } else {
            0
        }
    }
}

/// Whether all sizes are numbers of cells; a least number is below the 15th power of two.
pub open spec fn all_lengths(sizes: Seq<Size>) -> bool {
    forall|i: int|
        0 <= i < sizes.len() ==> match #[trigger] sizes[i] {
            Size::Length(_) => true,
            Size::Min(n) => n <= i16::MAX,
            Size::Percentage(_) => false,
        }
}

/// Whether all sizes are percentages of no more than the whole together.
pub open spec fn percentages_fit(sizes: Seq<Size>) -> bool {
    &&& forall|i: int| 0 <= i < sizes.len() ==> (#[trigger] sizes[i]) is Percentage
    &&& all_wanted(sizes) <= 100
}

/// Whether some size can take up more than it asks for.
pub open spec fn can_grow(sizes: Seq<Size>) -> bool {
    exists|i: int| 0 <= i < sizes.len() && (#[trigger] sizes[i]) is Min
}

/// Whether the parts follow each other without gaps, the first from where the area begins.
pub open spec fn in_line(parts: Seq<Area>, area: Area, axis: Axis) -> bool {
    &&& parts.len() > 0 ==> start(parts[0], axis) == start(area, axis)
    &&& forall|i: int|
        0 < i < parts.len() ==> start(#[trigger] parts[i], axis) == end(parts[i - 1], axis)
}

/// Whether the last part reaches to the end of the area.
pub open spec fn to_the_end(parts: Seq<Area>, area: Area, axis: Axis) -> bool {
    parts.len() > 0 && end(parts.last(), axis) == start(area, axis) + room(area, axis)
}

/// Whether a part has the cells that its size is due, where the sizes ask for `all` cells
/// together, those with a least number for `least` of them, and there are `space`. Where
/// there are enough, each gets what it asks for. Where there are not, the least numbers go
/// first: they are met and the others give way, or only they get anything.
pub open spec fn is_due(part: nat, size: Size, all: nat, least: nat, space: nat) -> bool {
    match size {
        Size::Length(n) => if all <= space {
            part == n
        } else if least <= space {
            part <= n
        } else {
            part == 0
        },
        Size::Min(n) => if all <= space {
            part >= n
        } else if least <= space {
            part == n
        } else {
            part <= n
        },
        Size::Percentage(n) => space * n <= 100 * part + 100 && 100 * part <= space * n + 100,
    }
}

/// Whether every part has the cells that its size is due.
pub open spec fn all_due(parts: Seq<Area>, area: Area, axis: Axis, sizes: Seq<Size>) -> bool {
    forall|i: int|
        0 <= i < parts.len() ==> is_due(
            extent(#[trigger] parts[i], axis),
            sizes[i],
            all_wanted(sizes),
            least_wanted(sizes),
            room(area, axis),
        )
}

/// Whether `parts` divide `area`. There is one for each size, and each lies within the area
/// and reaches across it. Up to eight numbers of cells, or percentages, lie in line and
/// have what they are due; and together they fill the area where the sizes ask for all of
/// it or more, or some size can grow.
pub open spec fn divides(parts: Seq<Area>, area: Area, axis: Axis, sizes: Seq<Size>) -> bool {
    let space = room(area, axis);
    &&& parts.len() == sizes.len()
    &&& forall|i: int| 0 <= i < parts.len() ==> is_part(#[trigger] parts[i], area, axis)
    &&& sizes.len() <= 8 && all_lengths(sizes) ==> {
        &&& in_line(parts, area, axis)
        &&& all_due(parts, area, axis, sizes)
        &&& sizes.len() > 0 && (can_grow(sizes) || all_wanted(sizes) >= space) ==> to_the_end(
            parts,
            area,
            axis,
        )
    }
    &&& sizes.len() <= 8 && percentages_fit(sizes) ==> {
        &&& in_line(parts, area, axis)
        &&& all_due(parts, area, axis, sizes)
        &&& all_wanted(sizes) == 100 ==> to_the_end(parts, area, axis)
    }
}

impl Panes {
    /// Whether these are parts of `area` as planned.
    pub open spec fn divide(self, area: Area) -> bool {
        divides(self.areas@, area, self.plan.axis, self.plan.sizes@)
    }
}

/// `ratatui::layout::Layout::split`, without margin and spacing. Its solver keeps every
/// part within the area and minimises a weighted sum of what is missed. Empty space before
/// the first part and between two parts weighs most, then the least numbers, then lengths,
/// then percentages; that a part with a least number should grow weighs thousands of times
/// less, and empty space at the end less again. With at most eight sizes it never pays to
/// miss a heavier one for lighter ones, so the parts lie in line, the least numbers are met
/// before the lengths, and a part that can grow takes what is left over. Percentages are
/// met up to the rounding to whole cells. Among equals it is not said which one gives way
/// or grows by how much, as several ways can weigh the same; nor what becomes of more
/// sizes, of percentages beside lengths, or of percentages of more than the whole.
#[verifier::external_body]
fn split(area: Area, axis: Axis, sizes: &Vec<Size>) -> (r: Vec<Area>)
    ensures
        divides(r@, area, axis, sizes@),
{
    let direction = match axis {
        Axis::Vertical => Direction::Vertical,
        Axis::Horizontal => Direction::Horizontal,
    };
    let constraints = sizes.iter().map(|size| match *size {
        Size::Length(n) => Constraint::Length(n),
        Size::Min(n) => Constraint::Min(n),
        Size::Percentage(n) => Constraint::Percentage(n),
    });
    let whole = Rect { x: area.x, y: area.y, width: area.width, height: area.height };
    let plan = Layout::default().direction(direction).constraints(constraints);
    let parts = plan.split(whole);
    parts.iter().map(|p| Area { x: p.x, y: p.y, width: p.width, height: p.height }).collect()
}

/// Divides an area as planned.
pub fn lay_out(plan: Plan, area: Area) -> (r: Panes)
    ensures
        r.plan == plan,
        r.divide(area),
{
    let areas = split(area, plan.axis, &plan.sizes);
    Panes { plan, areas }
}

} // verus!
