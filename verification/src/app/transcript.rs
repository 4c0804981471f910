//! The vocabulary of the transcript: lines, their kinds and tones, and the
//! typed parts of tool cards.

use vstd::prelude::*;


verus! {

/// How much detail the transcript shows.
#[derive(Clone, Copy, Debug, PartialEq, Eq, Structural)]
pub enum InfoLevel {
    Default,
    Verbose,
}

/// Who or what a transcript line speaks for.
#[derive(Clone, Copy, Debug, PartialEq, Eq, Structural)]
pub enum LineKind {
    User,
    Answer,
    Reasoning,
    Tool,
    Meta,
    Notice,
    Error,
}

/// Presentation tone of a line or a row.
#[derive(Clone, Copy, Debug, PartialEq, Eq, Structural)]
pub enum Tone {
    Plain,
    Title,
    Detail,
    DiffDel,
    DiffIns,
}

/// Semantic color of one piece of a tool card.
#[derive(Clone, Copy, Debug, PartialEq, Eq, Structural)]
pub enum SegColor {
    Default,
    Gray,
    DarkGray,
    Green,
    Yellow,
    Orange,
    Red,
    Border,
}

/// One typed run of a card line.
#[derive(Clone, Debug, PartialEq, Eq)]
pub struct SegSpan {
    pub text: String,
    pub color: SegColor,
    pub bold: bool,
    pub tone: Option<Tone>,
}

/// A [`SegSpan`] as a mathematical value.
pub struct SegView {
    pub text: Seq<char>,
    pub color: SegColor,
    pub bold: bool,
    pub tone: Option<Tone>,
}

impl DeepView for SegSpan {
    type V = SegView;

    open spec fn deep_view(&self) -> SegView {
        SegView { text: self.text@, color: self.color, bold: self.bold, tone: self.tone }
    }
}

/// One slot of a card header.
#[derive(Clone, Debug, PartialEq, Eq)]
pub struct HeaderPiece {
    pub text: String,
    pub color: SegColor,
    pub bold: bool,
}

/// A [`HeaderPiece`] as a mathematical value.
pub struct PieceView {
    pub text: Seq<char>,
    pub color: SegColor,
    pub bold: bool,
}

impl DeepView for HeaderPiece {
    type V = PieceView;

    open spec fn deep_view(&self) -> PieceView {
        PieceView { text: self.text@, color: self.color, bold: self.bold }
    }
}

/// The header row of a tool card, slot by slot.
#[derive(Clone, Debug, PartialEq, Eq)]
pub struct CardHeader {
    pub bar: HeaderPiece,
    pub action: HeaderPiece,
    pub target: Option<HeaderPiece>,
    pub stats: Option<Vec<SegSpan>>,
    pub status: HeaderPiece,
    pub time: Option<HeaderPiece>,
}

/// A [`CardHeader`] as a mathematical value.
pub struct HeaderView {
    pub bar: PieceView,
    pub action: PieceView,
    pub target: Option<PieceView>,
    pub stats: Option<Seq<SegView>>,
    pub status: PieceView,
    pub time: Option<PieceView>,
}

impl DeepView for CardHeader {
    type V = HeaderView;

    open spec fn deep_view(&self) -> HeaderView {
        HeaderView {
            bar: self.bar.deep_view(),
            action: self.action.deep_view(),
            target: self.target.deep_view(),
            stats: self.stats.deep_view(),
            status: self.status.deep_view(),
            time: self.time.deep_view(),
        }
    }
}

/// The foldable body of a tool card.
#[derive(Clone, Debug, PartialEq, Eq)]
pub struct CardBody {
    pub lines: Vec<Vec<SegSpan>>,
    pub threshold: usize,
    pub fold_default_collapsed: bool,
    pub fold_count: usize,
    pub fold_label: String,
    pub fold_hint: bool,
    pub fold_all: bool,
}

/// A [`CardBody`] as a mathematical value.
pub struct BodyView {
    pub lines: Seq<Seq<SegView>>,
    pub threshold: usize,
    pub fold_default_collapsed: bool,
    pub fold_count: usize,
    pub fold_label: Seq<char>,
    pub fold_hint: bool,
    pub fold_all: bool,
}

impl DeepView for CardBody {
    type V = BodyView;

    open spec fn deep_view(&self) -> BodyView {
        BodyView {
            lines: self.lines.deep_view(),
            threshold: self.threshold,
            fold_default_collapsed: self.fold_default_collapsed,
            fold_count: self.fold_count,
            fold_label: self.fold_label@,
            fold_hint: self.fold_hint,
            fold_all: self.fold_all,
        }
    }
}

/// One cell of the transcript: plain text, or a typed tool card.
#[derive(Clone, Debug, PartialEq, Eq)]
pub struct TranscriptLine {
    pub kind: LineKind,
    pub text: String,
    pub tone: Tone,
    pub header: Option<CardHeader>,
    pub body: Option<CardBody>,
}

/// A [`TranscriptLine`] as a mathematical value.
pub struct LineView {
    pub kind: LineKind,
    pub text: Seq<char>,
    pub tone: Tone,
    pub header: Option<HeaderView>,
    pub body: Option<BodyView>,
}

impl DeepView for TranscriptLine {
    type V = LineView;

    open spec fn deep_view(&self) -> LineView {
        LineView {
            kind: self.kind,
            text: self.text@,
            tone: self.tone,
            header: self.header.deep_view(),
            body: self.body.deep_view(),
        }
    }
}

/// A plain line of one kind.
pub open spec fn plain_line(kind: LineKind, text: Seq<char>) -> LineView {
    LineView { kind, text, tone: Tone::Plain, header: None, body: None }
}

/// A cell that shows a card.
pub open spec fn card_line(header: HeaderView, body: BodyView) -> LineView {
    LineView {
        kind: LineKind::Tool,
        text: Seq::empty(),
        tone: Tone::Plain,
        header: Some(header),
        body: if body.lines.len() == 0 {
            None
        } else {
            Some(body)
        },
    }
}

/// A span in one color, neither bold nor washed.
pub open spec fn colored_seg(text: Seq<char>, color: SegColor) -> SegView {
    SegView { text, color, bold: false, tone: None }
}

impl SegSpan {
    pub fn colored(text: String, color: SegColor) -> (span: SegSpan)
        ensures
            span.deep_view() == colored_seg(text@, color),
    {
        SegSpan { text, color, bold: false, tone: None }
    }

    pub fn plain(text: String) -> (span: SegSpan)
        ensures
            span.deep_view() == colored_seg(text@, SegColor::Default),
    {
        SegSpan { text, color: SegColor::Default, bold: false, tone: None }
    }

    pub fn copy(&self) -> (span: SegSpan)
        ensures
            span.deep_view() == self.deep_view(),
    {
        SegSpan { text: self.text.clone(), color: self.color, bold: self.bold, tone: self.tone }
    }
}

pub fn copy_segs(spans: &Vec<SegSpan>) -> (copy: Vec<SegSpan>)
    ensures
        copy.deep_view() == spans.deep_view(),
{
    let mut copy: Vec<SegSpan> = Vec::new();
    let mut i: usize = 0;
    while i < spans.len()
        invariant
            i <= spans.len(),
            copy.len() == i,
            forall|k: int|
                0 <= k < i ==> (#[trigger] copy@[k]).deep_view() == spans@[k].deep_view(),
        decreases spans.len() - i,
    {
        copy.push(spans[i].copy());
        i += 1;
    }
    proof {
        assert(copy.deep_view() =~= spans.deep_view());
    }
    copy
}

impl HeaderPiece {
    pub fn new(text: String, color: SegColor, bold: bool) -> (piece: HeaderPiece)
        ensures
            piece.deep_view() == (PieceView { text: text@, color, bold }),
    {
        HeaderPiece { text, color, bold }
    }

    pub fn copy(&self) -> (piece: HeaderPiece)
        ensures
            piece.deep_view() == self.deep_view(),
    {
        HeaderPiece { text: self.text.clone(), color: self.color, bold: self.bold }
    }
}

pub fn copy_piece(piece: &Option<HeaderPiece>) -> (copy: Option<HeaderPiece>)
    ensures
        copy.deep_view() == piece.deep_view(),
{
    match piece {
        Some(piece) => Some(piece.copy()),
        None => None,
    }
}

impl CardHeader {
    pub fn copy(&self) -> (header: CardHeader)
        ensures
            header.deep_view() == self.deep_view(),
    {
        CardHeader {
            bar: self.bar.copy(),
            action: self.action.copy(),
            target: copy_piece(&self.target),
            stats: match &self.stats {
                Some(spans) => Some(copy_segs(spans)),
                None => None,
            },
            status: self.status.copy(),
            time: copy_piece(&self.time),
        }
    }
}

impl CardBody {
    pub fn copy(&self) -> (body: CardBody)
        ensures
            body.deep_view() == self.deep_view(),
    {
        let mut lines: Vec<Vec<SegSpan>> = Vec::new();
        let mut i: usize = 0;
        while i < self.lines.len()
            invariant
                i <= self.lines.len(),
                lines.len() == i,
                forall|k: int|
                    0 <= k < i ==> (#[trigger] lines@[k]).deep_view()
                        == self.lines@[k].deep_view(),
            decreases self.lines.len() - i,
        {
            lines.push(copy_segs(&self.lines[i]));
            i += 1;
        }
        proof {
            assert(lines.deep_view() =~= self.lines.deep_view());
        }
        CardBody {
            lines,
            threshold: self.threshold,
            fold_default_collapsed: self.fold_default_collapsed,
            fold_count: self.fold_count,
            fold_label: self.fold_label.clone(),
            fold_hint: self.fold_hint,
            fold_all: self.fold_all,
        }
    }
}

impl TranscriptLine {
    pub fn copy(&self) -> (line: TranscriptLine)
        ensures
            line.deep_view() == self.deep_view(),
    {
        TranscriptLine {
            kind: self.kind,
            text: self.text.clone(),
            tone: self.tone,
            header: match &self.header {
                Some(header) => Some(header.copy()),
                None => None,
            },
            body: match &self.body {
                Some(body) => Some(body.copy()),
                None => None,
            },
        }
    }
}

pub fn copy_lines(lines: &Vec<TranscriptLine>) -> (copy: Vec<TranscriptLine>)
    ensures
        copy.deep_view() == lines.deep_view(),
{
    let mut copy: Vec<TranscriptLine> = Vec::new();
    let mut i: usize = 0;
    while i < lines.len()
        invariant
            i <= lines.len(),
            copy.len() == i,
            forall|k: int|
                0 <= k < i ==> (#[trigger] copy@[k]).deep_view() == lines@[k].deep_view(),
        decreases lines.len() - i,
    {
        copy.push(lines[i].copy());
        i += 1;
    }
    proof {
        assert(copy.deep_view() =~= lines.deep_view());
    }
    copy
}

/// A plain line of one kind.
pub fn line(kind: LineKind, text: &str) -> (line: TranscriptLine)
    ensures
        line.deep_view() == plain_line(kind, text@),
{
    TranscriptLine { kind, text: text.to_owned(), tone: Tone::Plain, header: None, body: None }
}

/// A cell that shows a card; one without body lines is a header alone.
pub fn card_cell(header: CardHeader, body: CardBody) -> (line: TranscriptLine)
    ensures
        line.deep_view() == card_line(header.deep_view(), body.deep_view()),
{
    let body = if body.lines.len() == 0 {
        None
    } else {
        Some(body)
    };
    TranscriptLine {
        kind: LineKind::Tool,
        text: String::new(),
        tone: Tone::Plain,
        header: Some(header),
        body,
    }
}

/// The rows of one user message, an empty row before and after them.
pub open spec fn user_rows(rows: Seq<Seq<char>>) -> Seq<LineView> {
    Seq::new(
        rows.len() + 2,
        |i: int|
            if 0 < i <= rows.len() {
                plain_line(LineKind::User, rows[i - 1])
            } else {
                plain_line(LineKind::User, Seq::empty())
            },
    )
}

/// A user message as a block of its own.
pub fn user_block(rows: &Vec<String>) -> (lines: Vec<TranscriptLine>)
    ensures
        lines.deep_view() == user_rows(rows.deep_view()),
{
    let mut lines: Vec<TranscriptLine> = Vec::new();
    lines.push(line(LineKind::User, String::new().as_str()));
    let mut i: usize = 0;
    while i < rows.len()
        invariant
            i <= rows.len(),
            lines.len() == i + 1,
            lines@[0].deep_view() == plain_line(LineKind::User, Seq::empty()),
            forall|k: int|
                1 <= k <= i ==> (#[trigger] lines@[k]).deep_view() == plain_line(
                    LineKind::User,
                    rows@[k - 1]@,
                ),
        decreases rows.len() - i,
    {
        lines.push(line(LineKind::User, rows[i].as_str()));
        i += 1;
    }
    lines.push(line(LineKind::User, String::new().as_str()));
    proof {
        assert(lines.deep_view() =~= user_rows(rows.deep_view()));
    }
    lines
}

} // verus!
