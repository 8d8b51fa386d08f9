//! Screen geometry: splitting the terminal into boxes.
//!
//! The splitting itself is done by `tui`'s constraint solver; this module
//! says which splits the installer asks for and what it does with them.
use vstd::prelude::*;

use tui::layout as tl;

verus! {

/// A box on the terminal, in cells.
#[derive(Debug, Clone, Copy, PartialEq, Eq, Structural)]
pub struct Rect {
    pub x: u16,
    pub y: u16,
    pub width: u16,
    pub height: u16,
}

/// How the boxes of a split are laid out.
#[derive(Debug, Clone, Copy, PartialEq, Eq, Structural)]
pub enum Direction {
    Horizontal,
    Vertical,
}

/// What a box of a split asks for, along the direction of the split.
#[derive(Debug, Clone, Copy, PartialEq, Eq, Structural)]
pub enum Constraint {
    /// A share of the space, in percent.
    Percentage(u16),
    /// A fixed number of cells.
    Length(u16),
    /// At least a number of cells.
    Min(u16),
}

/// The area left inside a margin on every side; nothing when the margin does
/// not fit.
pub open spec fn inner(area: Rect, margin: u16) -> Rect {
    if area.width < 2 * margin || area.height < 2 * margin {
        Rect { x: 0, y: 0, width: 0, height: 0 }
    } else {
        Rect {
            x: (area.x + margin) as u16,
            y: (area.y + margin) as u16,
            width: (area.width - 2 * margin) as u16,
            height: (area.height - 2 * margin) as u16,
        }
    }
}

/// The splits that `tui` computes without panicking: twice the margin fits in
/// sixteen bits, the margin fits in the coordinates where it is applied, the
/// area inside the margin ends within sixteen bits across the direction of
/// the split (else the solver's required constraints cannot all hold), and
/// each percentage times the length to share fits in sixteen bits.
pub open spec fn split_fits(
    direction: Direction,
    margin: u16,
    constraints: Seq<Constraint>,
    area: Rect,
) -> bool {
    let fits_margin = !(area.width < 2 * margin || area.height < 2 * margin);
    let dest = inner(area, margin);
    let length = if direction == Direction::Horizontal { dest.width } else { dest.height };
    &&& 2 * margin <= u16::MAX
    &&& fits_margin ==> area.x + margin <= u16::MAX && area.y + margin <= u16::MAX
    &&& direction == Direction::Vertical ==> dest.x + dest.width <= u16::MAX
    &&& direction == Direction::Horizontal ==> dest.y + dest.height <= u16::MAX
    &&& forall|i: int|
        0 <= i < constraints.len() ==> (#[trigger] constraints[i] matches Constraint::Percentage(p)
            ==> p * length <= u16::MAX)
}

/// Whether `tui` computes the split without panicking.
fn fits(direction: Direction, margin: u16, constraints: &Vec<Constraint>, area: Rect) -> (ok: bool)
    ensures
        ok == split_fits(direction, margin, constraints@, area),
{
    if margin > u16::MAX / 2 {
        return false;
    }
    let fits_margin = !(area.width < 2 * margin || area.height < 2 * margin);
    if fits_margin && (area.x as u32 + margin as u32 > u16::MAX as u32 || area.y as u32 + margin as u32
        > u16::MAX as u32) {
        return false;
    }
    let dest = if fits_margin {
        Rect {
            x: area.x + margin,
            y: area.y + margin,
            width: area.width - 2 * margin,
            height: area.height - 2 * margin,
        }
    } else {
        Rect { x: 0, y: 0, width: 0, height: 0 }
    };
    assert(dest == inner(area, margin));
    if direction == Direction::Vertical && dest.x as u32 + dest.width as u32 > u16::MAX as u32 {
        return false;
    }
    if direction == Direction::Horizontal && dest.y as u32 + dest.height as u32 > u16::MAX as u32 {
        return false;
    }
    let length = if direction == Direction::Horizontal { dest.width } else { dest.height };
    let mut i: usize = 0;
    while i < constraints.len()
        invariant
            i <= constraints.len(),
            length == (if direction == Direction::Horizontal {
                inner(area, margin).width
            } else {
                inner(area, margin).height
            }),
            forall|k: int|
                0 <= k < i ==> (#[trigger] constraints@[k] matches Constraint::Percentage(p) ==> p
                    * length <= u16::MAX),
        decreases constraints.len() - i,
    {
        match constraints[i] {
            Constraint::Percentage(p) => {
                assert((p as u64) * (length as u64) <= 0xffffu64 * 0xffffu64) by (nonlinear_arith)
                    requires
                        p <= 0xffff,
                        length <= 0xffff,
                ;
                if (p as u64) * (length as u64) > u16::MAX as u64 {
                    assert(constraints@[i as int] matches Constraint::Percentage(q) && q * length
                        > u16::MAX);
                    return false;
                }
            },
            _ => {},
        }
        i = i + 1;
    }
    true
}

/// The bottom edge of a box, as `tui`'s `Rect::bottom` gives it (saturating).
pub open spec fn bottom(r: Rect) -> int {
    if r.y + r.height <= u16::MAX { r.y + r.height } else { u16::MAX as int }
}

/// The right edge of a box, as `tui`'s `Rect::right` gives it (saturating).
pub open spec fn right(r: Rect) -> int {
    if r.x + r.width <= u16::MAX { r.x + r.width } else { u16::MAX as int }
}

/// What holds of the boxes of every split of `area` inside `margin`: across
/// the direction of the split each box spans the inner area exactly; along it
/// each box ends no further than the inner area, and the last one ends exactly
/// there.
pub open spec fn split_shape(direction: Direction, margin: u16, area: Rect, chunks: Seq<Rect>) -> bool {
    let dest = inner(area, margin);
    &&& forall|i: int|
        0 <= i < chunks.len() ==> if direction == Direction::Vertical {
            &&& (#[trigger] chunks[i]).x == dest.x
            &&& chunks[i].width == dest.width
            &&& chunks[i].y + chunks[i].height <= bottom(dest)
        } else {
            &&& (#[trigger] chunks[i]).y == dest.y
            &&& chunks[i].height == dest.height
            &&& chunks[i].x + chunks[i].width <= right(dest)
        }
    &&& chunks.len() > 0 ==> if direction == Direction::Vertical {
        chunks.last().y + chunks.last().height == bottom(dest)
    } else {
        chunks.last().x + chunks.last().width == right(dest)
    }
}

/// The boxes came out of one call of `tui`'s solver on this direction,
/// margin, list of constraints and area. This names no result: the solver may
/// give different boxes for the same arguments in another process, and
/// nothing is known of the relation beyond the calls that record it; it says
/// which split a list of boxes comes from.
pub uninterp spec fn split_outcome(
    direction: Direction,
    margin: u16,
    constraints: Seq<Constraint>,
    area: Rect,
    chunks: Seq<Rect>,
) -> bool;

/// `tui::layout::Layout::split` on a layout with the given direction, margin
/// and constraints. The source builds one box per constraint, and its required
/// constraints give each box the inner area's position and size across the
/// split (with the integer data there the solver's arithmetic is exact), keep
/// each box's far edge within the inner area (the solver's values are cut
/// down to integers, which only lowers them), and then stretch the last box to
/// the inner area's far edge. Left unsaid: where each box starts along the
/// split, and the sizes that the weak constraints share out. The solver walks
/// hash maps whose order each process seeds, so where several layouts are
/// equally good the choice among them varies, and a value just under an
/// integer is cut one cell down. `requires` leaves out the inputs on which it
/// panics (overflowing `u16` arithmetic, or required constraints that cannot
/// all hold).
#[verifier::external_body]
fn split(direction: Direction, margin: u16, constraints: &Vec<Constraint>, area: Rect) -> (chunks: Vec<Rect>)
    requires
        split_fits(direction, margin, constraints@, area),
    ensures
        chunks.len() == constraints.len(),
        split_shape(direction, margin, area, chunks@),
        split_outcome(direction, margin, constraints@, area, chunks@),
{
    let cs: Vec<tl::Constraint> = constraints.iter().map(|c| match *c {
        Constraint::Percentage(p) => tl::Constraint::Percentage(p),
        Constraint::Length(l) => tl::Constraint::Length(l),
        Constraint::Min(m) => tl::Constraint::Min(m),
    }).collect();
    let d = match direction { Direction::Vertical => tl::Direction::Vertical, _ => tl::Direction::Horizontal };
    tl::Layout::default().direction(d).margin(margin).constraints(cs)
        .split(tl::Rect { x: area.x, y: area.y, width: area.width, height: area.height })
        .iter().map(|c| Rect { x: c.x, y: c.y, width: c.width, height: c.height }).collect()
}

/// The three shares of a centred split: the middle one is `percent`, the two
/// sides share the rest equally.
pub open spec fn centered_shares(percent: u16) -> Seq<Constraint> {
    let side = ((100 - percent) / 2) as u16;
    seq![Constraint::Percentage(side), Constraint::Percentage(percent), Constraint::Percentage(side)]
}

fn centered_constraints(percent: u16) -> (constraints: Vec<Constraint>)
    requires
        percent <= 100,
    ensures
        constraints@ == centered_shares(percent),
{
    let side = (100 - percent) / 2;
    let mut constraints: Vec<Constraint> = Vec::new();
    constraints.push(Constraint::Percentage(side));
    constraints.push(Constraint::Percentage(percent));
    constraints.push(Constraint::Percentage(side));
    assert(constraints@ =~= centered_shares(percent));
    constraints
}

/// The middle column of a centred horizontal split of a band, holding
/// `percent_x` of its width; `None` where `tui` would panic on that split.
pub fn centered_columns(percent_x: u16, band: Rect) -> (column: Option<Rect>)
    requires
        percent_x <= 100,
    ensures
        column is Some <==> split_fits(Direction::Horizontal, 0, centered_shares(percent_x), band),
        column matches Some(c) ==> {
            &&& c.y == band.y
            &&& c.height == band.height
            &&& c.x + c.width <= right(band)
            &&& exists|columns: Seq<Rect>|
                #![trigger split_outcome(Direction::Horizontal, 0, centered_shares(percent_x), band, columns)]
                split_outcome(Direction::Horizontal, 0, centered_shares(percent_x), band, columns)
                    && columns.len() == 3 && c == columns[1]
        },
{
    let horizontal = centered_constraints(percent_x);
    if !fits(Direction::Horizontal, 0, &horizontal, band) {
        return None;
    }
    let columns = split(Direction::Horizontal, 0, &horizontal, band);
    assert(columns[1] == columns@[1]);
    Some(columns[1])
}

/// Each share of a centred split of this length fits in sixteen bits.
pub open spec fn shares_fit(percent: u16, length: u16) -> bool {
    forall|i: int| 0 <= i < 3 ==> (#[trigger] centered_shares(percent)[i] matches Constraint::Percentage(p)
        ==> p * length <= u16::MAX)
}

/// A box of `percent_x` of the width and `percent_y` of the height, in the
/// middle of the area: the middle row of a centred vertical split, then the
/// middle column of that row. `None` where `tui` would panic on either split;
/// whether the second split fits depends on the row the solver gives.
pub fn centered_rect(percent_x: u16, percent_y: u16, r: Rect) -> (centered: Option<Rect>)
    requires
        percent_x <= 100,
        percent_y <= 100,
    ensures
        centered is Some <==> split_fits(Direction::Vertical, 0, centered_shares(percent_y), r)
            && shares_fit(percent_x, r.width),
        centered matches Some(c) ==> {
            &&& c.x + c.width <= r.x + r.width
            &&& c.y + c.height <= bottom(r)
            &&& exists|rows: Seq<Rect>, columns: Seq<Rect>|
                #![trigger split_outcome(Direction::Vertical, 0, centered_shares(percent_y), r, rows), split_outcome(Direction::Horizontal, 0, centered_shares(percent_x), rows[1], columns)]
                {
                    &&& split_outcome(Direction::Vertical, 0, centered_shares(percent_y), r, rows)
                    &&& rows.len() == 3
                    &&& split_outcome(Direction::Horizontal, 0, centered_shares(percent_x), rows[1], columns)
                    &&& columns.len() == 3
                    &&& c == columns[1]
                }
        },
{
    let vertical = centered_constraints(percent_y);
    if !fits(Direction::Vertical, 0, &vertical, r) {
        return None;
    }
    let popup_layout = split(Direction::Vertical, 0, &vertical, r);
    let band = popup_layout[1];
    proof {
        assert(inner(r, 0) == r);
        assert(band == popup_layout@[1]);
        assert(inner(band, 0) == band);
        assert(centered_shares(percent_x).len() == 3);
    }
    centered_columns(percent_x, band)
}

/// The three rows of the main screen: the menu, the status box and the
/// custom path box.
pub open spec fn main_rows() -> Seq<Constraint> {
    seq![Constraint::Min(1), Constraint::Length(4), Constraint::Length(4)]
}

/// The margin around the main screen.
pub const SCREEN_MARGIN: u16 = 3u16;

/// Splits the terminal into the three rows of the main screen; `None` where
/// `tui` would panic on that split.
pub fn main_chunks(area: Rect) -> (chunks: Option<Vec<Rect>>)
    ensures
        chunks is Some <==> split_fits(Direction::Vertical, SCREEN_MARGIN, main_rows(), area),
        chunks matches Some(c) ==> {
            &&& c.len() == 3
            &&& split_shape(Direction::Vertical, SCREEN_MARGIN, area, c@)
            &&& split_outcome(Direction::Vertical, SCREEN_MARGIN, main_rows(), area, c@)
        },
{
    let mut rows: Vec<Constraint> = Vec::new();
    rows.push(Constraint::Min(1));
    rows.push(Constraint::Length(4));
    rows.push(Constraint::Length(4));
    assert(rows@ =~= main_rows());
    if !fits(Direction::Vertical, SCREEN_MARGIN, &rows, area) {
        return None;
    }
    Some(split(Direction::Vertical, SCREEN_MARGIN, &rows, area))
}

} // verus!
