//! What is painted on the screen: styled texts, frames, and where they stand.
use crate::color::Color;
use crate::docker::ContainerStats;
use crate::layout::Area;
use vstd::prelude::*;

verus! {

/// A text in one style.
#[derive(Debug)]
pub struct Span {
    pub text: String,
    pub fg: Option<Color>,
    pub bg: Option<Color>,
    pub bold: bool,
}

pub struct SpanView {
    pub text: Seq<char>,
    pub fg: Option<Color>,
    pub bg: Option<Color>,
    pub bold: bool,
}

impl View for Span {
    type V = SpanView;

    open spec fn view(&self) -> SpanView {
        SpanView { text: self.text@, fg: self.fg, bg: self.bg, bold: self.bold }
    }
}

impl DeepView for Span {
    type V = SpanView;

    open spec fn deep_view(&self) -> SpanView {
        self@
    }
}

/// A line of text.
#[derive(Debug)]
pub struct Line {
    pub spans: Vec<Span>,
}

impl View for Line {
    type V = Seq<SpanView>;

    open spec fn view(&self) -> Seq<SpanView> {
        self.spans.deep_view()
    }
}

impl DeepView for Line {
    type V = Seq<SpanView>;

    open spec fn deep_view(&self) -> Seq<SpanView> {
        self@
    }
}

/// How the border of a frame is drawn.
#[derive(Debug, Clone, Copy, PartialEq, Eq, Structural)]
pub enum Border {
    Double,
    Rounded,
    Thick,
}

#[derive(Debug)]
pub enum Widget {
    /// Lines of text. Where they wrap, the white space at the start of a line goes.
    Text { lines: Vec<Line>, wrap: bool },
    /// A border on all sides, with a title.
    Frame { border: Border, color: Color, title: Line },
    /// The usage of the containers of a stack, of which the highest is shown.
    Usage { samples: Vec<ContainerStats> },
}

pub enum WidgetView {
    Text { lines: Seq<Seq<SpanView>>, wrap: bool },
    Frame { border: Border, color: Color, title: Seq<SpanView> },
    Usage { samples: Seq<ContainerStats> },
}

impl View for Widget {
    type V = WidgetView;

    open spec fn view(&self) -> WidgetView {
        match self {
            Widget::Text { lines, wrap } => WidgetView::Text {
                lines: lines.deep_view(),
                wrap: *wrap,
            },
            Widget::Frame { border, color, title } => WidgetView::Frame {
                border: *border,
                color: *color,
                title: title@,
            },
            Widget::Usage { samples } => WidgetView::Usage { samples: samples@ },
        }
    }
}

/// A widget and where it stands.
#[derive(Debug)]
pub struct Placed {
    pub area: Area,
    pub widget: Widget,
}

pub struct PlacedView {
    pub area: Area,
    pub widget: WidgetView,
}

impl View for Placed {
    type V = PlacedView;

    open spec fn view(&self) -> PlacedView {
        PlacedView { area: self.area, widget: self.widget@ }
    }
}

impl DeepView for Placed {
    type V = PlacedView;

    open spec fn deep_view(&self) -> PlacedView {
        self@
    }
}

/// A text in a color.
pub open spec fn colored(text: Seq<char>, fg: Color) -> SpanView {
    SpanView { text, fg: Some(fg), bg: None, bold: false }
}

/// A bold text in a color.
pub open spec fn strong(text: Seq<char>, fg: Color) -> SpanView {
    SpanView { text, fg: Some(fg), bg: None, bold: true }
}

/// A text without a style.
pub open spec fn raw(text: Seq<char>) -> SpanView {
    SpanView { text, fg: None, bg: None, bold: false }
}

/// Lines of text at a place.
pub open spec fn text_at(area: Area, lines: Seq<Seq<SpanView>>, wrap: bool) -> PlacedView {
    PlacedView { area, widget: WidgetView::Text { lines, wrap } }
}

/// A frame at a place.
pub open spec fn frame_at(
    area: Area,
    border: Border,
    color: Color,
    title: Seq<SpanView>,
) -> PlacedView {
    PlacedView { area, widget: WidgetView::Frame { border, color, title } }
}

impl Span {
    /// A text in a color.
    pub fn colored(text: String, fg: Color) -> (r: Span)
        ensures
            r@ == colored(text@, fg),
    {
        Span { text, fg: Some(fg), bg: None, bold: false }
    }

    /// A bold text in a color.
    pub fn strong(text: String, fg: Color) -> (r: Span)
        ensures
            r@ == strong(text@, fg),
    {
        Span { text, fg: Some(fg), bg: None, bold: true }
    }

    /// A text without a style.
    pub fn raw(text: String) -> (r: Span)
        ensures
            r@ == raw(text@),
    {
        Span { text, fg: None, bg: None, bold: false }
    }
}

impl Line {
    /// A line without text.
    pub fn empty() -> (r: Line)
        ensures
            r@ == Seq::<SpanView>::empty(),
    {
        let r = Line { spans: Vec::new() };
        assert(r@ =~= Seq::empty());
        r
    }

    /// A line of one text.
    pub fn one(span: Span) -> (r: Line)
        ensures
            r@ == seq![span@],
    {
        let mut r: Line = Line::empty();
        r.push(span);
        assert(r@ =~= seq![span@]);
        r
    }

    /// A line of two texts.
    pub fn two(first: Span, second: Span) -> (r: Line)
        ensures
            r@ == seq![first@, second@],
    {
        let mut r: Line = Line::empty();
        r.push(first);
        r.push(second);
        assert(r@ =~= seq![first@, second@]);
        r
    }

    /// Adds a text to the line.
    pub fn push(&mut self, span: Span)
        ensures
            final(self)@ == old(self)@.push(span@),
    {
        let ghost before = self@;
        self.spans.push(span);
        assert(self@ =~= before.push(span@));
    }
}

/// Adds a line to lines.
pub fn push_line(lines: &mut Vec<Line>, line: Line)
    ensures
        final(lines).deep_view() == old(lines).deep_view().push(line@),
{
    let ghost before = lines.deep_view();
    lines.push(line);
    assert(lines.deep_view() =~= before.push(line@));
}

/// Adds lines of text at a place to a scene.
pub fn push_text(scene: &mut Vec<Placed>, area: Area, lines: Vec<Line>, wrap: bool)
    ensures
        final(scene).deep_view() == old(scene).deep_view().push(
            text_at(area, lines.deep_view(), wrap),
        ),
{
    let ghost before = scene.deep_view();
    let placed = Placed { area, widget: Widget::Text { lines, wrap } };
    scene.push(placed);
    assert(scene.deep_view() =~= before.push(placed@));
}

/// Adds one line of text at a place to a scene.
pub fn push_text_line(scene: &mut Vec<Placed>, area: Area, line: Line)
    ensures
        final(scene).deep_view() == old(scene).deep_view().push(text_at(area, seq![line@], false)),
{
    let mut lines: Vec<Line> = Vec::new();
    push_line(&mut lines, line);
    assert(lines.deep_view() =~= seq![line@]);
    push_text(scene, area, lines, false);
}

/// Adds a frame at a place to a scene.
pub fn push_frame(scene: &mut Vec<Placed>, area: Area, border: Border, color: Color, title: Line)
    ensures
        final(scene).deep_view() == old(scene).deep_view().push(
            frame_at(area, border, color, title@),
        ),
{
    let ghost before = scene.deep_view();
    let placed = Placed { area, widget: Widget::Frame { border, color, title } };
    scene.push(placed);
    assert(scene.deep_view() =~= before.push(placed@));
}

/// Adds a scene to another.
pub fn append_scene(scene: &mut Vec<Placed>, more: Vec<Placed>)
    ensures
        final(scene).deep_view() == old(scene).deep_view() + more.deep_view(),
{
    let ghost before = scene.deep_view();
    let ghost added = more.deep_view();
    let mut rest: Vec<Placed> = more;
    scene.append(&mut rest);
    assert(scene.deep_view() =~= before + added);
}

} // verus!
