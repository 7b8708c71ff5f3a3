//! Areas of the screen, and how they are split.
use ratatui::layout::{Constraint, Layout, Rect};
use vstd::prelude::*;

verus! {

/// A rectangle of the screen.
#[derive(Debug, Clone, Copy, PartialEq, Eq, Structural)]
pub struct Area {
    pub x: u16,
    pub y: u16,
    pub width: u16,
    pub height: u16,
}

/// How much room a part of an area asks for.
#[derive(Debug, Clone, Copy, PartialEq, Eq, Structural)]
pub enum Size {
    Length(u16),
    Min(u16),
}

/// The sum of two coordinates, as far as they go.
pub open spec fn far_end(start: u16, size: u16) -> u16 {
    if start + size <= u16::MAX {
        (start + size) as u16
    } else {
        u16::MAX
    }
}

/// What is left of a size without both of its ends.
pub open spec fn between_ends(size: u16) -> u16 {
    if size >= 2 {
        (size - 2) as u16
    } else {
        0
    }
}

/// The start of what lies behind a border, which an empty area has none of.
pub open spec fn behind_border(start: u16, size: u16) -> u16 {
    if size == 0 {
        start
    } else {
        far_end(start, 1)
    }
}

/// The area inside a border on all sides.
pub open spec fn inside(area: Area) -> Area {
    Area {
        x: behind_border(area.x, area.width),
        y: behind_border(area.y, area.height),
        width: between_ends(area.width),
        height: between_ends(area.height),
    }
}

impl Area {
    /// The area inside a border on all sides.
    pub fn inner(&self) -> (r: Area)
        ensures
            r == inside(*self),
    {
        Area {
            x: if self.width == 0 {
                self.x
            } else {
                self.x.saturating_add(1)
            },
            y: if self.height == 0 {
                self.y
            } else {
                self.y.saturating_add(1)
            },
            width: self.width.saturating_sub(2),
            height: self.height.saturating_sub(2),
        }
    }
}

/// The least room that a part asks for.
pub open spec fn asked(size: Size) -> nat {
    match size {
        Size::Length(n) => n as nat,
        Size::Min(n) => n as nat,
    }
}

/// The least room that parts ask for together.
pub open spec fn room_of(sizes: Seq<Size>) -> nat
    decreases sizes.len(),
{
    if sizes.len() == 0 {
        0
    } else {
        room_of(sizes.drop_last()) + asked(sizes.last())
    }
}

/// All parts but the last ask for a fixed length.
pub open spec fn only_last_grows(sizes: Seq<Size>) -> bool {
    forall|i: int| 0 <= i < sizes.len() - 1 ==> (#[trigger] sizes[i]) is Length
}

/// The parts that ask for `sizes` all find their room between `start` and `end`.
pub open spec fn have_room(sizes: Seq<Size>, start: u16, end: u16) -> bool {
    only_last_grows(sizes) && room_of(sizes) <= end - start
}

/// `areas` follow each other from the top of `area`, each as high as it asks for; a last one that
/// may grow reaches the bottom.
pub open spec fn rows_in_place(area: Area, sizes: Seq<Size>, areas: Seq<Area>) -> bool {
    &&& areas.len() > 0 ==> areas[0].y == area.y
    &&& forall|i: int|
        0 < i < areas.len() ==> (#[trigger] areas[i]).y == areas[i - 1].y + areas[i - 1].height
    &&& forall|i: int|
        0 <= i < areas.len() && sizes[i] is Length ==> (#[trigger] areas[i]).height
            == sizes[i]->Length_0
    &&& sizes.len() > 0 && sizes.last() is Min ==> areas.last().y + areas.last().height == far_end(
        area.y,
        area.height,
    )
}

/// `areas` has one area for each size, and each lies in `area` at its full width. Where there is
/// room for all, they follow each other from the top, each as high as it asks for.
pub open spec fn are_rows(area: Area, sizes: Seq<Size>, areas: Seq<Area>) -> bool {
    &&& areas.len() == sizes.len()
    &&& forall|i: int|
        0 <= i < areas.len() ==> {
            &&& (#[trigger] areas[i]).x == area.x
            &&& areas[i].width == area.width
            &&& area.y <= areas[i].y
            &&& areas[i].y + areas[i].height <= far_end(area.y, area.height)
        }
    &&& have_room(sizes, area.y, far_end(area.y, area.height)) ==> rows_in_place(
        area,
        sizes,
        areas,
    )
}

/// `areas` follow each other from the left of `area`, each as wide as it asks for; a last one that
/// may grow reaches the right.
pub open spec fn columns_in_place(area: Area, sizes: Seq<Size>, areas: Seq<Area>) -> bool {
    &&& areas.len() > 0 ==> areas[0].x == area.x
    &&& forall|i: int|
        0 < i < areas.len() ==> (#[trigger] areas[i]).x == areas[i - 1].x + areas[i - 1].width
    &&& forall|i: int|
        0 <= i < areas.len() && sizes[i] is Length ==> (#[trigger] areas[i]).width
            == sizes[i]->Length_0
    &&& sizes.len() > 0 && sizes.last() is Min ==> areas.last().x + areas.last().width == far_end(
        area.x,
        area.width,
    )
}

/// `areas` has one area for each size, and each lies in `area` at its full height. Where there is
/// room for all, they follow each other from the left, each as wide as it asks for.
pub open spec fn are_columns(area: Area, sizes: Seq<Size>, areas: Seq<Area>) -> bool {
    &&& areas.len() == sizes.len()
    &&& forall|i: int|
        0 <= i < areas.len() ==> {
            &&& (#[trigger] areas[i]).y == area.y
            &&& areas[i].height == area.height
            &&& area.x <= areas[i].x
            &&& areas[i].x + areas[i].width <= far_end(area.x, area.width)
        }
    &&& have_room(sizes, area.x, far_end(area.x, area.width)) ==> columns_in_place(
        area,
        sizes,
        areas,
    )
}

/// Splits an area into rows with `Layout::vertical` and `Layout::split` of `ratatui`. There is a
/// row for each size, as wide as the area, and no row leaves the area. Where the sizes find their
/// room, the rows follow each other from the top without gaps, each has the length that it asks
/// for, and a last one that may grow takes what is left. How the rows share an area in which more
/// is asked for than there is room, or how several that may grow share what is left, is not said:
/// a solver decides the one in no fixed way, and rounds the other.
#[verifier::external_body]
pub(crate) fn split_rows(area: Area, sizes: &Vec<Size>) -> (r: Vec<Area>)
    ensures
        are_rows(area, sizes@, r@),
{
    let constraints = sizes.iter().map(
        |size| match size {
            Size::Length(n) => Constraint::Length(*n),
            Size::Min(n) => Constraint::Min(*n),
        },
    );
    let whole = Rect { x: area.x, y: area.y, width: area.width, height: area.height };
    let parts = Layout::vertical(constraints).split(whole);
    parts.iter().map(|p| Area { x: p.x, y: p.y, width: p.width, height: p.height }).collect()
}

/// Splits an area into columns with `Layout::horizontal` and `Layout::split` of `ratatui`. There
/// is a column for each size, as high as the area, and no column leaves the area. Where the sizes
/// find their room, the columns follow each other from the left without gaps, each has the length
/// that it asks for, and a last one that may grow takes what is left. How the columns share an
/// area in which more is asked for than there is room, or how several that may grow share what is
/// left, is not said: a solver decides the one in no fixed way, and rounds the other.
#[verifier::external_body]
pub(crate) fn split_columns(area: Area, sizes: &Vec<Size>) -> (r: Vec<Area>)
    ensures
        are_columns(area, sizes@, r@),
{
    let constraints = sizes.iter().map(
        |size| match size {
            Size::Length(n) => Constraint::Length(*n),
            Size::Min(n) => Constraint::Min(*n),
        },
    );
    let whole = Rect { x: area.x, y: area.y, width: area.width, height: area.height };
    let parts = Layout::horizontal(constraints).split(whole);
    parts.iter().map(|p| Area { x: p.x, y: p.y, width: p.width, height: p.height }).collect()
}

/// The area ends before the last coordinate that can be counted.
pub open spec fn is_countable(area: Area) -> bool {
    area.x + area.width <= u16::MAX && area.y + area.height <= u16::MAX
}

/// `part` lies in `area`.
pub open spec fn within(part: Area, area: Area) -> bool {
    &&& area.x <= part.x
    &&& part.x + part.width <= area.x + area.width
    &&& area.y <= part.y
    &&& part.y + part.height <= area.y + area.height
}

/// The inside of an area lies in it.
pub proof fn law_inside_lies_within(area: Area)
    requires
        is_countable(area),
    ensures
        within(inside(area), area),
        is_countable(inside(area)),
{
}

/// Rows lie in the area that is split into them.
pub proof fn law_rows_lie_within(area: Area, sizes: Seq<Size>, areas: Seq<Area>, i: int)
    requires
        is_countable(area),
        are_rows(area, sizes, areas),
        0 <= i < areas.len(),
    ensures
        within(areas[i], area),
        is_countable(areas[i]),
{
}

/// Columns lie in the area that is split into them.
pub proof fn law_columns_lie_within(area: Area, sizes: Seq<Size>, areas: Seq<Area>, i: int)
    requires
        is_countable(area),
        are_columns(area, sizes, areas),
        0 <= i < areas.len(),
    ensures
        within(areas[i], area),
        is_countable(areas[i]),
{
}

/// Where there is room for all rows, each starts below the room that those before it ask for.
pub proof fn law_row_starts(area: Area, sizes: Seq<Size>, areas: Seq<Area>, i: int)
    requires
        are_rows(area, sizes, areas),
        have_room(sizes, area.y, far_end(area.y, area.height)),
        0 <= i < areas.len(),
    ensures
        areas[i].y == area.y + room_of(sizes.take(i)),
    decreases i,
{
    if i > 0 {
        law_row_starts(area, sizes, areas, i - 1);
        assert(sizes.take(i).drop_last() =~= sizes.take(i - 1));
        assert(sizes.take(i).last() == sizes[i - 1]);
        assert(sizes[i - 1] is Length);
        assert(areas[i - 1].height == sizes[i - 1]->Length_0);
    }
}

/// Where there is room for all columns, each starts behind the room that those before it ask for.
pub proof fn law_column_starts(area: Area, sizes: Seq<Size>, areas: Seq<Area>, i: int)
    requires
        are_columns(area, sizes, areas),
        have_room(sizes, area.x, far_end(area.x, area.width)),
        0 <= i < areas.len(),
    ensures
        areas[i].x == area.x + room_of(sizes.take(i)),
    decreases i,
{
    if i > 0 {
        law_column_starts(area, sizes, areas, i - 1);
        assert(sizes.take(i).drop_last() =~= sizes.take(i - 1));
        assert(sizes.take(i).last() == sizes[i - 1]);
        assert(sizes[i - 1] is Length);
        assert(areas[i - 1].width == sizes[i - 1]->Length_0);
    }
}

/// Parts of one length ask for that many times the length.
pub proof fn lemma_room_of_same(sizes: Seq<Size>, n: u16)
    requires
        forall|i: int| 0 <= i < sizes.len() ==> (#[trigger] sizes[i]) == Size::Length(n),
    ensures
        room_of(sizes) == sizes.len() * n,
    decreases sizes.len(),
{
    if sizes.len() > 0 {
        let front = sizes.drop_last();
        assert forall|i: int| 0 <= i < front.len() implies (#[trigger] front[i]) == Size::Length(
            n,
        ) by {
            assert(front[i] == sizes[i]);
        }
        lemma_room_of_same(front, n);
        assert(sizes[sizes.len() - 1] == Size::Length(n));
        assert(sizes.len() * n == front.len() * n + n) by (nonlinear_arith)
            requires
                sizes.len() == front.len() + 1,
        ;
    }
}

/// Two parts ask for the sum of what each asks for.
pub proof fn lemma_room_of_two(first: Size, second: Size)
    ensures
        room_of(seq![first, second]) == asked(first) + asked(second),
{
    reveal_with_fuel(room_of, 3);
    assert(seq![first, second].drop_last() =~= seq![first]);
    assert(seq![first].drop_last() =~= Seq::empty());
}

} // verus!
