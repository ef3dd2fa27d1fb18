//! Where the parts of the browser go on the terminal: the search box above,
//! the host list on the left and the details on the right.

use vstd::prelude::*;

use ratatui::layout::{Constraint, Direction, Layout, Rect};
use ratatui::widgets::Block;

verus! {

/// A rectangle of terminal cells: its top left corner and its size.
#[derive(Debug, Clone, Copy, PartialEq, Eq, Structural)]
pub struct Area {
    pub x: u16,
    pub y: u16,
    pub width: u16,
    pub height: u16,
}

/// The direction in which a layout places its parts.
#[derive(Debug, Clone, Copy, PartialEq, Eq, Structural)]
pub enum Split {
    /// One above the other.
    Vertical,
    /// Side by side.
    Horizontal,
}

/// What a layout asks of the size of one part.
#[derive(Debug, Clone, Copy, PartialEq, Eq, Structural)]
pub enum Size {
    /// Exactly this many cells.
    Length(u16),
    /// At least this many cells.
    Min(u16),
    /// This percentage of the area.
    Percentage(u16),
}

/// `area` as column, row, width and height.
pub open spec fn area_view(area: Area) -> (u16, u16, u16, u16) {
    (area.x, area.y, area.width, area.height)
}

/// `size` as a kind (0 length, 1 minimum, 2 percentage) and its number.
pub open spec fn size_code(size: Size) -> (u8, u16) {
    match size {
        Size::Length(n) => (0u8, n),
        Size::Min(n) => (1u8, n),
        Size::Percentage(n) => (2u8, n),
    }
}

/// `parts` is a split that ratatui's layout solver gave for `area` and
/// `sizes`, one above the other if `vertical`, else side by side. It records
/// which split was asked for and says nothing of which outcome came back:
/// the solver may answer the same request differently in another process.
pub uninterp spec fn solver_outcome(
    vertical: bool,
    sizes: Seq<(u8, u16)>,
    area: (u16, u16, u16, u16),
    parts: Seq<(u16, u16, u16, u16)>,
) -> bool;

/// `parts` is a split of `area` asked for with `sizes`, as `split_area` gives
/// it: one part per size, each within the area, and an outcome of the solver
/// for exactly that request.
pub open spec fn split_of(split: Split, sizes: Seq<Size>, area: Area, parts: Seq<Area>) -> bool {
    &&& parts.len() == sizes.len()
    &&& forall|i: int| 0 <= i < parts.len() ==> part_within(split, area, #[trigger] parts[i])
    &&& solver_outcome(
        split == Split::Vertical,
        sizes.map_values(|s: Size| size_code(s)),
        area_view(area),
        parts.map_values(|a: Area| area_view(a)),
    )
}

/// A part that splitting `area` in direction `split` can give: across the
/// split it has the area's position and extent; along it, it starts and ends
/// inside the area.
pub open spec fn part_within(split: Split, area: Area, part: Area) -> bool {
    match split {
        Split::Vertical => {
            &&& part.x == area.x
            &&& part.width == area.width
            &&& area.y <= part.y
            &&& part.y + part.height <= sat_add(area.y, area.height)
        },
        Split::Horizontal => {
            &&& part.y == area.y
            &&& part.height == area.height
            &&& area.x <= part.x
            &&& part.x + part.width <= sat_add(area.x, area.width)
        },
    }
}

/// `a + b`, or the largest `u16` if that is larger.
pub open spec fn sat_add(a: u16, b: u16) -> u16 {
    if a + b > u16::MAX {
        u16::MAX
    } else {
        (a + b) as u16
    }
}

/// `a - b`, or 0 if that is negative.
pub open spec fn sat_sub(a: u16, b: u16) -> u16 {
    if a < b {
        0
    } else {
        (a - b) as u16
    }
}

/// The inside of a box drawn with a border on all four sides around `area`:
/// one cell in from each side, no wider or taller than what is left.
pub open spec fn bordered_inner_spec(area: Area) -> Area {
    Area {
        x: if sat_add(area.x, 1) < sat_add(area.x, area.width) {
            sat_add(area.x, 1)
        } else {
            sat_add(area.x, area.width)
        },
        y: if sat_add(area.y, 1) < sat_add(area.y, area.height) {
            sat_add(area.y, 1)
        } else {
            sat_add(area.y, area.height)
        },
        width: sat_sub(sat_sub(area.width, 1), 1),
        height: sat_sub(sat_sub(area.height, 1), 1),
    }
}

/// Calls ratatui's `Block::inner` on `Block::bordered()`: the source moves the
/// left and top edges in by one cell (saturating, never past the right or
/// bottom edge) and takes one cell off the width and the height for each
/// border (saturating); a bordered block has no padding and no title.
#[verifier::external_body]
fn bordered_inner(area: Area) -> (r: Area)
    ensures
        r == bordered_inner_spec(area),
{
    let rect = Rect { x: area.x, y: area.y, width: area.width, height: area.height };
    let inner = Block::bordered().inner(rect);
    Area { x: inner.x, y: inner.y, width: inner.width, height: inner.height }
}

/// Calls ratatui's `Layout::split` on a default layout (no margin) with the
/// given direction and constraints. The source gives one part per
/// constraint; each part keeps the area's position and extent across the
/// split, and its start and end along the split are solver variables that a
/// required constraint keeps between the area's start and end. Where exactly
/// the boundaries fall is left unsaid: ratatui documents that some constraint
/// lists leave it undetermined, and its solver breaks ties in the order of a
/// hash map seeded anew in each process; the result is only recorded, by
/// `solver_outcome`, as an outcome for this request. How many cells each
/// size gets is left unsaid too: the source weighs the sizes against each
/// other by strength instead of requiring them.
#[verifier::external_body]
fn split_area(split: Split, sizes: &Vec<Size>, area: Area) -> (r: Vec<Area>)
    ensures
        r@.len() == sizes@.len(),
        forall|i: int| 0 <= i < r@.len() ==> part_within(split, area, #[trigger] r@[i]),
        solver_outcome(
            split == Split::Vertical,
            sizes@.map_values(|s: Size| size_code(s)),
            area_view(area),
            r@.map_values(|a: Area| area_view(a)),
        ),
{
    let direction = match split {
        Split::Vertical => Direction::Vertical,
        Split::Horizontal => Direction::Horizontal,
    };
    let constraints = sizes.iter().map(|s| match *s {
        Size::Length(n) => Constraint::Length(n),
        Size::Min(n) => Constraint::Min(n),
        Size::Percentage(n) => Constraint::Percentage(n),
    });
    let rect = Rect { x: area.x, y: area.y, width: area.width, height: area.height };
    let parts = Layout::default().direction(direction).constraints(constraints).split(rect);
    parts.iter().map(|r| Area { x: r.x, y: r.y, width: r.width, height: r.height }).collect()
}

/// Where the search box, the host list and the details go.
#[derive(Debug, Clone, Copy, PartialEq, Eq, Structural)]
pub struct AppLayout {
    pub search: Area,
    pub hosts: Area,
    pub details: Area,
}

/// The rows of the browser: three rows for the search box, at least one for
/// the rest.
pub open spec fn browser_rows() -> Seq<Size> {
    seq![Size::Length(3), Size::Min(1)]
}

/// The columns below the search box: 35% for the host list, 65% for the
/// details.
pub open spec fn browser_columns() -> Seq<Size> {
    seq![Size::Percentage(35), Size::Percentage(65)]
}

/// `l` is how the browser is laid out in `area`: inside the outer border the
/// rows `rows` split with `browser_rows`, the search box the first of them;
/// the second split with `browser_columns` into `columns`, the host list the
/// first column and the details the second.
pub open spec fn laid_out(area: Area, rows: Seq<Area>, columns: Seq<Area>, l: AppLayout) -> bool {
    &&& split_of(Split::Vertical, browser_rows(), bordered_inner_spec(area), rows)
    &&& split_of(Split::Horizontal, browser_columns(), rows[1], columns)
    &&& l.search == rows[0]
    &&& l.hosts == columns[0]
    &&& l.details == columns[1]
}

/// The layout of the browser in `area`: inside the outer border, a search
/// box three rows high above the rest, which is split into the host list
/// (35%) on the left and the details (65%) on the right.
pub fn layout(area: Area) -> (l: AppLayout)
    ensures
        exists|rows: Seq<Area>, columns: Seq<Area>| #[trigger] laid_out(area, rows, columns, l),
{
    let inner = bordered_inner(area);
    let mut rows: Vec<Size> = Vec::new();
    rows.push(Size::Length(3));
    rows.push(Size::Min(1));
    let main = split_area(Split::Vertical, &rows, inner);
    let mut columns: Vec<Size> = Vec::new();
    columns.push(Size::Percentage(35));
    columns.push(Size::Percentage(65));
    let content = split_area(Split::Horizontal, &columns, main[1]);
    let l = AppLayout { search: main[0], hosts: content[0], details: content[1] };
    proof {
        assert(rows@ =~= browser_rows());
        assert(columns@ =~= browser_columns());
        assert(laid_out(area, main@, content@, l));
    }
    l
}

/// Where the details of a host go.
#[derive(Debug, Clone, Copy, PartialEq, Eq, Structural)]
pub struct DetailsLayout {
    /// Inside the border of the details box.
    pub inner: Area,
    /// The name box, three rows high.
    pub name: Area,
    /// The target box below it, three rows high.
    pub target: Area,
    /// The configuration box, the rest.
    pub config: Area,
}

/// The rows of the details box: three for the name, three for the target,
/// at least three for the configuration.
pub open spec fn details_rows() -> Seq<Size> {
    seq![Size::Length(3), Size::Length(3), Size::Min(3)]
}

/// `d` is how the details box is laid out in `area`: inside its border, the
/// rows `rows` split with `details_rows`, the name, the target and the
/// configuration in that order.
pub open spec fn details_laid_out(area: Area, rows: Seq<Area>, d: DetailsLayout) -> bool {
    &&& d.inner == bordered_inner_spec(area)
    &&& split_of(Split::Vertical, details_rows(), d.inner, rows)
    &&& d.name == rows[0]
    &&& d.target == rows[1]
    &&& d.config == rows[2]
}

/// The layout of the details box in `area`: inside its border, the name and
/// the target three rows high each, one above the other, then the
/// configuration in at least three rows.
pub fn details_layout(area: Area) -> (d: DetailsLayout)
    ensures
        exists|rows: Seq<Area>| #[trigger] details_laid_out(area, rows, d),
{
    let inner = bordered_inner(area);
    let mut rows: Vec<Size> = Vec::new();
    rows.push(Size::Length(3));
    rows.push(Size::Length(3));
    rows.push(Size::Min(3));
    let parts = split_area(Split::Vertical, &rows, inner);
    let d = DetailsLayout { inner, name: parts[0], target: parts[1], config: parts[2] };
    proof {
        assert(rows@ =~= details_rows());
        assert(details_laid_out(area, parts@, d));
    }
    d
}

/// Where the cursor goes in the search box `search` after a query of
/// `query_len` bytes: past the border and the query, on the first row
/// inside the box. The length counts modulo 2^16, as a `u16` would.
pub fn cursor_position(search: Area, query_len: usize) -> (r: (u16, u16))
    requires
        search.x + 1 + (query_len as u16) <= u16::MAX,
        search.y + 1 <= u16::MAX,
    ensures
        r.0 == search.x + 1 + (query_len as u16),
        r.1 == search.y + 1,
{
    let len: u16 = query_len as u16;
    (search.x + 1 + len, search.y + 1)
}

} // verus!
