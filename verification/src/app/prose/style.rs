//! Presentation-neutral styles, spans and rows.

use vstd::prelude::*;

use crate::app::text::{cell_width, width};
use crate::app::transcript::Tone;

verus! {

/// Semantic color slot of a baked span.
#[derive(Clone, Copy, Debug, Default, PartialEq, Eq, Structural)]
pub enum ProseColor {
    /// Primary foreground.
    #[default]
    Default,
    /// Dim chrome: markers, bars, rules, table frames.
    Meta,
    /// Universal link blue.
    Link,
    /// Brand orange of list markers and code.
    Code,
    /// Brand orange used by document skeleton highlights.
    Accent,
    /// Dark-gray hints: line numbers, timestamps, card durations.
    DarkGray,
    /// Success green: paths, line deltas, ready state, read/write cards.
    Green,
    /// Warning yellow: warnings, running state, spinners.
    Yellow,
    /// Error red: failures, deletion, confirm borders.
    Red,
    /// Information blue: model names, function names, hunk heads.
    Blue,
    /// Border/separator color: gutter pipes, dot leaders.
    Border,
    /// Bold white: second-level headings and emphasized body words.
    White,
}

/// Presentation-neutral span style, as flat flags so a wrapped continuation can
/// carry its context verbatim.
#[derive(Clone, Copy, Debug, PartialEq, Eq, Structural)]
pub struct ProseStyle {
    pub color: ProseColor,
    pub bold: bool,
    pub italic: bool,
    pub underline: bool,
    pub crossed: bool,
}

/// Primary foreground, nothing else.
pub open spec fn plain_style() -> ProseStyle {
    ProseStyle {
        color: ProseColor::Default,
        bold: false,
        italic: false,
        underline: false,
        crossed: false,
    }
}

/// Plain but for its color.
pub open spec fn in_color(color: ProseColor) -> ProseStyle {
    ProseStyle { color, ..plain_style() }
}

impl Default for ProseStyle {
    fn default() -> (style: ProseStyle)
        ensures
            style == plain_style(),
    {
        ProseStyle {
            color: ProseColor::Default,
            bold: false,
            italic: false,
            underline: false,
            crossed: false,
        }
    }
}

impl ProseStyle {
    pub fn colored(self, color: ProseColor) -> (style: ProseStyle)
        ensures
            style == (ProseStyle { color, ..self }),
    {
        ProseStyle { color, ..self }
    }

    pub fn bold(self) -> (style: ProseStyle)
        ensures
            style == (ProseStyle { bold: true, ..self }),
    {
        ProseStyle { bold: true, ..self }
    }

    pub fn bold_if(self, on: bool) -> (style: ProseStyle)
        ensures
            style == (ProseStyle { bold: self.bold || on, ..self }),
    {
        ProseStyle { bold: self.bold || on, ..self }
    }

    pub fn italic(self) -> (style: ProseStyle)
        ensures
            style == (ProseStyle { italic: true, ..self }),
    {
        ProseStyle { italic: true, ..self }
    }

    pub fn underlined(self) -> (style: ProseStyle)
        ensures
            style == (ProseStyle { underline: true, ..self }),
    {
        ProseStyle { underline: true, ..self }
    }

    pub fn crossed(self) -> (style: ProseStyle)
        ensures
            style == (ProseStyle { crossed: true, ..self }),
    {
        ProseStyle { crossed: true, ..self }
    }
}

/// One baked span: text plus semantic style.
#[derive(Clone, Debug, PartialEq, Eq)]
pub struct ProseSpan {
    pub text: String,
    pub style: ProseStyle,
}

/// A [`ProseSpan`] as a mathematical value.
pub struct SpanView {
    pub text: Seq<char>,
    pub style: ProseStyle,
}

impl DeepView for ProseSpan {
    type V = SpanView;

    open spec fn deep_view(&self) -> SpanView {
        SpanView { text: self.text@, style: self.style }
    }
}

pub open spec fn span(text: Seq<char>, style: ProseStyle) -> SpanView {
    SpanView { text, style }
}

/// The text of a run of spans.
pub open spec fn spans_text(spans: Seq<SpanView>) -> Seq<char>
    decreases spans.len(),
{
    if spans.len() == 0 {
        Seq::empty()
    } else {
        spans_text(spans.drop_last()) + spans.last().text
    }
}

/// Cells are counted up to the largest machine number and no further.
pub open spec fn cap(cells: nat) -> nat {
    if cells > usize::MAX {
        usize::MAX as nat
    } else {
        cells
    }
}

/// The widths of the spans together.
pub open spec fn spans_cells(spans: Seq<SpanView>) -> nat
    decreases spans.len(),
{
    if spans.len() == 0 {
        0
    } else {
        cap(spans_cells(spans.drop_last()) + cell_width(spans.last().text) as nat)
    }
}

impl ProseSpan {
    pub fn new(text: String, style: ProseStyle) -> (span: ProseSpan)
        ensures
            span.deep_view() == (SpanView { text: text@, style }),
    {
        ProseSpan { text, style }
    }

    pub fn of(text: &str, style: ProseStyle) -> (span: ProseSpan)
        ensures
            span.deep_view() == (SpanView { text: text@, style }),
    {
        ProseSpan { text: text.to_owned(), style }
    }

    pub fn raw(text: &str) -> (span: ProseSpan)
        ensures
            span.deep_view() == (SpanView { text: text@, style: plain_style() }),
    {
        ProseSpan { text: text.to_owned(), style: ProseStyle::default() }
    }

    pub fn copy(&self) -> (span: ProseSpan)
        ensures
            span.deep_view() == self.deep_view(),
    {
        ProseSpan { text: self.text.clone(), style: self.style }
    }

    pub fn width(&self) -> (cells: usize)
        ensures
            cells == cell_width(self.text@),
    {
        width(self.text.as_str())
    }
}

/// Display width of one styled run.
pub fn spans_width(spans: &Vec<ProseSpan>) -> (cells: usize)
    ensures
        cells == spans_cells(spans.deep_view()),
{
    let ghost all = spans.deep_view();
    let mut cells: usize = 0;
    let mut i: usize = 0;
    while i < spans.len()
        invariant
            i <= spans.len(),
            all == spans.deep_view(),
            cells == spans_cells(all.take(i as int)),
        decreases spans.len() - i,
    {
        proof {
            assert(all.take(i as int + 1).drop_last() =~= all.take(i as int));
        }
        cells = cells.saturating_add(spans[i].width());
        i += 1;
    }
    proof {
        assert(all.take(i as int) =~= all);
    }
    cells
}

pub fn push_copies(out: &mut Vec<ProseSpan>, spans: &Vec<ProseSpan>)
    ensures
        final(out).deep_view() == old(out).deep_view() + spans.deep_view(),
{
    let ghost all = spans.deep_view();
    let ghost start = out.deep_view();
    let mut i: usize = 0;
    proof {
        assert(start + all.take(0) =~= start);
    }
    while i < spans.len()
        invariant
            i <= spans.len(),
            all == spans.deep_view(),
            out.deep_view() == start + all.take(i as int),
        decreases spans.len() - i,
    {
        let ghost before = out.deep_view();
        let item = spans[i].copy();
        out.push(item);
        proof {
            assert(out.deep_view() =~= before.push(item.deep_view()));
            assert(start + all.take(i as int + 1) =~= before.push(all[i as int]));
        }
        i += 1;
    }
    proof {
        assert(all.take(i as int) =~= all);
    }
}

/// The concatenated text of the spans.
pub fn text_of(spans: &Vec<ProseSpan>) -> (text: String)
    ensures
        text@ == spans_text(spans.deep_view()),
{
    let ghost all = spans.deep_view();
    let mut text = String::new();
    let mut i: usize = 0;
    while i < spans.len()
        invariant
            i <= spans.len(),
            all == spans.deep_view(),
            text@ == spans_text(all.take(i as int)),
        decreases spans.len() - i,
    {
        proof {
            assert(all.take(i as int + 1).drop_last() =~= all.take(i as int));
        }
        text.push_str(spans[i].text.as_str());
        i += 1;
    }
    proof {
        assert(all.take(i as int) =~= all);
    }
    text
}

/// Block-level role of one answer row.
#[derive(Clone, Debug, PartialEq, Eq)]
pub enum BlockRole {
    /// Ordinary prose.
    Plain,
    /// An ATX heading, any level.
    Heading,
    /// A fence delimiter line itself.
    FenceEdge,
    /// A body row inside the fence opened with this language tag.
    FenceBody { lang: String },
    /// Header row of a settled table.
    TableHeader,
    /// The delimiter row of a settled table.
    TableDelim,
    /// A body row of a settled table.
    TableBody,
}

/// A [`BlockRole`] as a mathematical value.
pub enum RoleView {
    Plain,
    Heading,
    FenceEdge,
    FenceBody { lang: Seq<char> },
    TableHeader,
    TableDelim,
    TableBody,
}

impl DeepView for BlockRole {
    type V = RoleView;

    open spec fn deep_view(&self) -> RoleView {
        match self {
            BlockRole::Plain => RoleView::Plain,
            BlockRole::Heading => RoleView::Heading,
            BlockRole::FenceEdge => RoleView::FenceEdge,
            BlockRole::FenceBody { lang } => RoleView::FenceBody { lang: lang@ },
            BlockRole::TableHeader => RoleView::TableHeader,
            BlockRole::TableDelim => RoleView::TableDelim,
            BlockRole::TableBody => RoleView::TableBody,
        }
    }
}

impl BlockRole {
    pub fn copy(&self) -> (role: BlockRole)
        ensures
            role.deep_view() == self.deep_view(),
    {
        match self {
            BlockRole::Plain => BlockRole::Plain,
            BlockRole::Heading => BlockRole::Heading,
            BlockRole::FenceEdge => BlockRole::FenceEdge,
            BlockRole::FenceBody { lang } => BlockRole::FenceBody { lang: lang.clone() },
            BlockRole::TableHeader => BlockRole::TableHeader,
            BlockRole::TableDelim => BlockRole::TableDelim,
            BlockRole::TableBody => BlockRole::TableBody,
        }
    }
}

/// One projected display row: a wrapped fragment plus its block role. The text
/// of a styled row is the concatenation of its spans.
#[derive(Clone, Debug, PartialEq, Eq)]
pub struct ProjectedRow {
    pub role: BlockRole,
    pub text: String,
    /// The final presentation; `None` for raw rows such as fenced code bodies.
    pub spans: Option<Vec<ProseSpan>>,
    /// The wash of a diff row.
    pub tone: Option<Tone>,
    /// The right-aligned line-number slot of a fenced code row.
    pub code_line: Option<String>,
}

/// A [`ProjectedRow`] as a mathematical value.
pub struct RowView {
    pub role: RoleView,
    pub text: Seq<char>,
    pub spans: Option<Seq<SpanView>>,
    pub tone: Option<Tone>,
    pub code_line: Option<Seq<char>>,
}

impl DeepView for ProjectedRow {
    type V = RowView;

    open spec fn deep_view(&self) -> RowView {
        RowView {
            role: self.role.deep_view(),
            text: self.text@,
            spans: self.spans.deep_view(),
            tone: self.tone,
            code_line: self.code_line.deep_view(),
        }
    }
}

/// A row of raw text outside any block.
pub open spec fn plain_row(text: Seq<char>) -> RowView {
    RowView { role: RoleView::Plain, text, spans: None, tone: None, code_line: None }
}

/// A row whose text is what its spans say.
pub open spec fn styled_row(role: RoleView, spans: Seq<SpanView>) -> RowView {
    RowView { role, text: spans_text(spans), spans: Some(spans), tone: None, code_line: None }
}

/// A raw row of a fenced code body, with its line-number slot.
pub open spec fn code_row(text: Seq<char>, lang: Seq<char>, slot: Option<Seq<char>>) -> RowView {
    RowView {
        role: RoleView::FenceBody { lang },
        text,
        spans: None,
        tone: None,
        code_line: slot,
    }
}

/// Where a row carries spans, its text is theirs.
pub open spec fn row_agrees(row: RowView) -> bool {
    match row.spans {
        Some(spans) => row.text == spans_text(spans),
        None => true,
    }
}

impl ProjectedRow {
    /// A row outside any special block.
    pub fn plain(text: String) -> (row: ProjectedRow)
        ensures
            row.deep_view() == plain_row(text@),
    {
        ProjectedRow { role: BlockRole::Plain, text, spans: None, tone: None, code_line: None }
    }

    /// A styled row: text derives from the spans so visual width, selection
    /// geometry, and paint never disagree.
    pub fn styled(role: BlockRole, spans: Vec<ProseSpan>) -> (row: ProjectedRow)
        ensures
            row.deep_view() == styled_row(role.deep_view(), spans.deep_view()),
            row_agrees(row.deep_view()),
    {
        let text = text_of(&spans);
        ProjectedRow { role, text, spans: Some(spans), tone: None, code_line: None }
    }

    /// A styled row carrying a wash tone.
    pub fn styled_with_tone(role: BlockRole, spans: Vec<ProseSpan>, tone: Tone) -> (row:
        ProjectedRow)
        ensures
            row.deep_view() == (RowView {
                tone: Some(tone),
                ..styled_row(role.deep_view(), spans.deep_view())
            }),
    {
        let text = text_of(&spans);
        ProjectedRow { role, text, spans: Some(spans), tone: Some(tone), code_line: None }
    }

    /// A fenced code body: raw text with its line-number slot.
    pub fn code(text: String, lang: String, slot: Option<String>) -> (row: ProjectedRow)
        ensures
            row.deep_view() == code_row(text@, lang@, slot.deep_view()),
    {
        ProjectedRow {
            role: BlockRole::FenceBody { lang },
            text,
            spans: None,
            tone: None,
            code_line: slot,
        }
    }

    pub fn copy(&self) -> (row: ProjectedRow)
        ensures
            row.deep_view() == self.deep_view(),
    {
        let spans = match &self.spans {
            Some(spans) => {
                let mut copies: Vec<ProseSpan> = Vec::new();
                push_copies(&mut copies, spans);
                proof {
                    assert(copies.deep_view() =~= spans.deep_view());
                }
                Some(copies)
            },
            None => None,
        };
        ProjectedRow {
            role: self.role.copy(),
            text: self.text.clone(),
            spans,
            tone: self.tone,
            code_line: crate::strs::clone_opt(&self.code_line),
        }
    }
}

} // verus!
