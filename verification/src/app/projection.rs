//! What the transcript renderer still has to do after a state change.
//!
//! The state machine decides what is to be shown and in which order. Painting a
//! card, or telling an event in words, is the renderer's part: it performs these
//! steps one by one on the transcript store.

use vstd::prelude::*;

use super::frontend::{DisplayView, FrontendToolDisplay, FrontendToolResult, ResultView};
use super::pacer::{PacedPiece, PieceText};
use super::transcript::{LineView, TranscriptLine};

verus! {

#[derive(Clone, Debug, PartialEq, Eq)]
pub enum Projection {
    /// A different session is shown: the renderer starts afresh.
    Restart,
    /// Write a piece of streamed text.
    Piece(PacedPiece),
    /// Tell the event itself; one that ends a turn says how long it took, in
    /// milliseconds.
    Event { elapsed: Option<u64> },
    /// Tell the reasoning of a snapshot's running operation.
    LiveReasoning,
    /// Reasoning is shown or hidden from here on.
    ReasoningShown(bool),
    /// Close the open cell and seal running reasoning clocks.
    CloseRun,
    /// Append the tree of the live batch and note its cell.
    OpenTree,
    /// Append the running card of one call and note its cell.
    OpenCard { index: usize },
    /// Repaint the live batch in its cell.
    Redraw { cell: usize },
    /// Repaint the running card of one call.
    RedrawCard { cell: usize, index: usize },
    /// Replace the running card by that of the finished call.
    Settle {
        cell: usize,
        tool_name: String,
        arguments: String,
        result: FrontendToolResult,
        display: Option<FrontendToolDisplay>,
        elapsed: u64,
    },
    /// Append the card of a call that no live batch knows.
    Stray {
        tool_name: String,
        result: FrontendToolResult,
        display: Option<FrontendToolDisplay>,
    },
    /// Replace the running card by that of a cancelled call.
    Cancelled { cell: usize, tool_name: String, arguments: String },
    /// Append lines behind what the steps before have written.
    Lines(Vec<TranscriptLine>),
}

/// A [`Projection`] as a mathematical value.
pub enum ProjectionView {
    Restart,
    Piece(PieceText),
    Event { elapsed: Option<u64> },
    LiveReasoning,
    ReasoningShown(bool),
    CloseRun,
    OpenTree,
    OpenCard { index: usize },
    Redraw { cell: usize },
    RedrawCard { cell: usize, index: usize },
    Settle {
        cell: usize,
        tool_name: Seq<char>,
        arguments: Seq<char>,
        result: ResultView,
        display: Option<DisplayView>,
        elapsed: u64,
    },
    Stray { tool_name: Seq<char>, result: ResultView, display: Option<DisplayView> },
    Cancelled { cell: usize, tool_name: Seq<char>, arguments: Seq<char> },
    Lines(Seq<LineView>),
}

impl DeepView for Projection {
    type V = ProjectionView;

    open spec fn deep_view(&self) -> ProjectionView {
        match self {
            Projection::Restart => ProjectionView::Restart,
            Projection::Piece(piece) => ProjectionView::Piece(piece.deep_view()),
            Projection::Event { elapsed } => ProjectionView::Event { elapsed: *elapsed },
            Projection::LiveReasoning => ProjectionView::LiveReasoning,
            Projection::ReasoningShown(shown) => ProjectionView::ReasoningShown(*shown),
            Projection::CloseRun => ProjectionView::CloseRun,
            Projection::OpenTree => ProjectionView::OpenTree,
            Projection::OpenCard { index } => ProjectionView::OpenCard { index: *index },
            Projection::Redraw { cell } => ProjectionView::Redraw { cell: *cell },
            Projection::RedrawCard { cell, index } => ProjectionView::RedrawCard {
                cell: *cell,
                index: *index,
            },
            Projection::Settle { cell, tool_name, arguments, result, display, elapsed } =>
                ProjectionView::Settle {
                cell: *cell,
                tool_name: tool_name@,
                arguments: arguments@,
                result: result.deep_view(),
                display: display.deep_view(),
                elapsed: *elapsed,
            },
            Projection::Stray { tool_name, result, display } => ProjectionView::Stray {
                tool_name: tool_name@,
                result: result.deep_view(),
                display: display.deep_view(),
            },
            Projection::Cancelled { cell, tool_name, arguments } => ProjectionView::Cancelled {
                cell: *cell,
                tool_name: tool_name@,
                arguments: arguments@,
            },
            Projection::Lines(lines) => ProjectionView::Lines(lines.deep_view()),
        }
    }
}

/// The steps that write streamed pieces.
pub open spec fn pieces_written(pieces: Seq<PieceText>) -> Seq<ProjectionView> {
    Seq::new(pieces.len(), |i: int| ProjectionView::Piece(pieces[i]))
}

pub fn no_steps() -> (plan: Vec<Projection>)
    ensures
        plan.deep_view() == Seq::<ProjectionView>::empty(),
{
    let plan: Vec<Projection> = Vec::new();
    assert(plan.deep_view() =~= Seq::<ProjectionView>::empty());
    plan
}

pub fn one_step(step: Projection) -> (plan: Vec<Projection>)
    ensures
        plan.deep_view() == seq![step.deep_view()],
{
    let mut plan: Vec<Projection> = Vec::new();
    plan.push(step);
    assert(plan.deep_view() =~= seq![step.deep_view()]);
    plan
}

/// One plan behind another.
pub fn then_steps(first: Vec<Projection>, second: Vec<Projection>) -> (plan: Vec<Projection>)
    ensures
        plan.deep_view() == first.deep_view() + second.deep_view(),
{
    let mut plan = first;
    let mut more = second;
    plan.append(&mut more);
    assert(plan.deep_view() =~= first.deep_view() + second.deep_view());
    plan
}

pub fn piece_steps(pieces: Vec<PacedPiece>) -> (plan: Vec<Projection>)
    ensures
        plan.deep_view() == pieces_written(pieces.deep_view()),
{
    let ghost all = pieces.deep_view();
    let mut plan: Vec<Projection> = Vec::new();
    let mut i: usize = 0;
    while i < pieces.len()
        invariant
            i <= pieces.len(),
            all == pieces.deep_view(),
            plan.len() == i,
            forall|k: int|
                0 <= k < i ==> (#[trigger] plan@[k]).deep_view() == ProjectionView::Piece(all[k]),
        decreases pieces.len() - i,
    {
        let piece = PacedPiece { kind: pieces[i].kind, text: pieces[i].text.clone() };
        assert(all[i as int] == pieces@[i as int].deep_view());
        plan.push(Projection::Piece(piece));
        i += 1;
    }
    assert(plan.deep_view() =~= pieces_written(all));
    plan
}

} // verus!
