//! Session replay: a durable session view becomes what the transcript shows.
//!
//! Replay is read-only, and images become placeholder text. What a card or a
//! shortened text looks like is the renderer's affair: replay names the card or
//! the text it wants, in its place.

use vstd::prelude::*;

use super::frontend::{FrontendTokenUsage, FrontendToolResult, ResultView};
use super::transcript;
use super::transcript::{
    card_line, plain_line, BodyView, CardBody, CardHeader, HeaderPiece, HeaderView, LineKind,
    LineView, PieceView, SegColor, TranscriptLine,
};
use super::update::FrontendGenerationChoice;
use crate::strs;
use crate::strs::{decimal, split_on};

verus! {

/// One part of a user message.
#[derive(Clone, Debug, PartialEq, Eq)]
pub enum FrontendUserPart {
    Text(String),
    Image { media_type: String, bytes: Vec<u8> },
}

/// A [`FrontendUserPart`] as a mathematical value.
pub enum PartView {
    Text(Seq<char>),
    Image { media_type: Seq<char>, bytes: Seq<u8> },
}

impl DeepView for FrontendUserPart {
    type V = PartView;

    open spec fn deep_view(&self) -> PartView {
        match self {
            FrontendUserPart::Text(text) => PartView::Text(text@),
            FrontendUserPart::Image { media_type, bytes } => PartView::Image {
                media_type: media_type@,
                bytes: bytes@,
            },
        }
    }
}

/// One block of an assistant message.
#[derive(Clone, Debug, PartialEq, Eq)]
pub enum FrontendAssistantBlock {
    Text { text: String },
    ToolCall { id: String, name: String, arguments: String },
}

/// A [`FrontendAssistantBlock`] as a mathematical value.
pub enum BlockView {
    Text { text: Seq<char> },
    ToolCall { id: Seq<char>, name: Seq<char>, arguments: Seq<char> },
}

impl DeepView for FrontendAssistantBlock {
    type V = BlockView;

    open spec fn deep_view(&self) -> BlockView {
        match self {
            FrontendAssistantBlock::Text { text } => BlockView::Text { text: text@ },
            FrontendAssistantBlock::ToolCall { id, name, arguments } => BlockView::ToolCall {
                id: id@,
                name: name@,
                arguments: arguments@,
            },
        }
    }
}

/// How a tool call ended.
#[derive(Clone, Debug, PartialEq, Eq)]
pub enum FrontendToolResultOutcome {
    Success { content: String },
    Error { code: String, message: String },
    Cancelled,
    Interrupted,
}

/// A [`FrontendToolResultOutcome`] as a mathematical value.
pub enum OutcomeView {
    Success { content: Seq<char> },
    Error { code: Seq<char>, message: Seq<char> },
    Cancelled,
    Interrupted,
}

impl DeepView for FrontendToolResultOutcome {
    type V = OutcomeView;

    open spec fn deep_view(&self) -> OutcomeView {
        match self {
            FrontendToolResultOutcome::Success { content } => OutcomeView::Success {
                content: content@,
            },
            FrontendToolResultOutcome::Error { code, message } => OutcomeView::Error {
                code: code@,
                message: message@,
            },
            FrontendToolResultOutcome::Cancelled => OutcomeView::Cancelled,
            FrontendToolResultOutcome::Interrupted => OutcomeView::Interrupted,
        }
    }
}

/// One message of the model-visible context.
#[derive(Clone, Debug, PartialEq, Eq)]
pub enum FrontendContextMessage {
    Summary { text: String },
    User { parts: Vec<FrontendUserPart> },
    Assistant { blocks: Vec<FrontendAssistantBlock> },
    AssistantToolCalls { blocks: Vec<FrontendAssistantBlock>, tool_batch_id: String },
    ToolResult { tool_call_id: String, outcome: FrontendToolResultOutcome },
}

/// A [`FrontendContextMessage`] as a mathematical value.
pub enum MessageView {
    Summary { text: Seq<char> },
    User { parts: Seq<PartView> },
    Assistant { blocks: Seq<BlockView> },
    AssistantToolCalls { blocks: Seq<BlockView>, tool_batch_id: Seq<char> },
    ToolResult { tool_call_id: Seq<char>, outcome: OutcomeView },
}

impl DeepView for FrontendContextMessage {
    type V = MessageView;

    open spec fn deep_view(&self) -> MessageView {
        match self {
            FrontendContextMessage::Summary { text } => MessageView::Summary { text: text@ },
            FrontendContextMessage::User { parts } => MessageView::User {
                parts: parts.deep_view(),
            },
            FrontendContextMessage::Assistant { blocks } => MessageView::Assistant {
                blocks: blocks.deep_view(),
            },
            FrontendContextMessage::AssistantToolCalls { blocks, tool_batch_id } =>
                MessageView::AssistantToolCalls {
                blocks: blocks.deep_view(),
                tool_batch_id: tool_batch_id@,
            },
            FrontendContextMessage::ToolResult { tool_call_id, outcome } =>
                MessageView::ToolResult {
                tool_call_id: tool_call_id@,
                outcome: outcome.deep_view(),
            },
        }
    }
}

/// The durable state of one session.
#[derive(Clone, Debug, PartialEq, Eq)]
pub struct DurableSessionView {
    pub session_id: String,
    pub title: Option<String>,
    pub revision: u64,
    pub messages: Vec<FrontendContextMessage>,
    pub open_turns: Vec<String>,
    pub settled_turn_boundaries: Vec<String>,
    pub latest_compaction_boundary: Option<String>,
    pub usage: Option<FrontendTokenUsage>,
    /// The model of the last settled turn.
    pub generation: Option<FrontendGenerationChoice>,
}

// ---------------------------------------------------------------------------
// What replay asks for
// ---------------------------------------------------------------------------

/// The text of a row behind its prefix.
#[derive(Clone, Debug, PartialEq, Eq)]
pub enum RowBody {
    /// The text as it is.
    Whole(String),
    /// A one-line excerpt of at most `limit` characters.
    Excerpt { text: String, limit: usize },
    /// The compact form of a tool's arguments.
    Arguments(String),
}

#[derive(Clone, Debug, PartialEq, Eq)]
pub struct ReplayRow {
    pub prefix: String,
    pub body: RowBody,
}

/// A [`RowBody`] as a mathematical value.
pub enum RowBodyView {
    Whole(Seq<char>),
    Excerpt { text: Seq<char>, limit: usize },
    Arguments(Seq<char>),
}

/// A [`ReplayRow`] as a mathematical value.
pub struct RowView {
    pub prefix: Seq<char>,
    pub body: RowBodyView,
}

impl DeepView for RowBody {
    type V = RowBodyView;

    open spec fn deep_view(&self) -> RowBodyView {
        match self {
            RowBody::Whole(text) => RowBodyView::Whole(text@),
            RowBody::Excerpt { text, limit } => RowBodyView::Excerpt { text: text@, limit: *limit },
            RowBody::Arguments(text) => RowBodyView::Arguments(text@),
        }
    }
}

impl DeepView for ReplayRow {
    type V = RowView;

    open spec fn deep_view(&self) -> RowView {
        RowView { prefix: self.prefix@, body: self.body.deep_view() }
    }
}

/// The card of one replayed tool call.
#[derive(Clone, Debug, PartialEq, Eq)]
pub enum CardRequest {
    /// The card of a finished call. Its display is derived from the durable
    /// facts where `derive_display` says so, and absent otherwise.
    Settled {
        tool_name: String,
        arguments: String,
        result: FrontendToolResult,
        derive_display: bool,
    },
    /// The header-only card of a call that never finished.
    Stopped { tool_name: String, arguments: String, status: String },
}

/// A [`CardRequest`] as a mathematical value.
pub enum CardView {
    Settled {
        tool_name: Seq<char>,
        arguments: Seq<char>,
        result: ResultView,
        derive_display: bool,
    },
    Stopped { tool_name: Seq<char>, arguments: Seq<char>, status: Seq<char> },
}

impl DeepView for CardRequest {
    type V = CardView;

    open spec fn deep_view(&self) -> CardView {
        match self {
            CardRequest::Settled { tool_name, arguments, result, derive_display } =>
                CardView::Settled {
                tool_name: tool_name@,
                arguments: arguments@,
                result: result.deep_view(),
                derive_display: *derive_display,
            },
            CardRequest::Stopped { tool_name, arguments, status } => CardView::Stopped {
                tool_name: tool_name@,
                arguments: arguments@,
                status: status@,
            },
        }
    }
}

/// One step of a replayed transcript.
#[derive(Clone, Debug, PartialEq, Eq)]
pub enum ReplayStep {
    Line(TranscriptLine),
    /// The padded block of a user message.
    UserBlock(Vec<ReplayRow>),
    Card(CardRequest),
}

/// A [`ReplayStep`] as a mathematical value.
pub enum StepView {
    Line(LineView),
    UserBlock(Seq<RowView>),
    Card(CardView),
}

impl DeepView for ReplayStep {
    type V = StepView;

    open spec fn deep_view(&self) -> StepView {
        match self {
            ReplayStep::Line(line) => StepView::Line(line.deep_view()),
            ReplayStep::UserBlock(rows) => StepView::UserBlock(rows.deep_view()),
            ReplayStep::Card(card) => StepView::Card(card.deep_view()),
        }
    }
}

// ---------------------------------------------------------------------------
// Messages
// ---------------------------------------------------------------------------

pub open spec fn whole_row(prefix: Seq<char>, text: Seq<char>) -> RowView {
    RowView { prefix, body: RowBodyView::Whole(text) }
}

pub open spec fn excerpt_row(prefix: Seq<char>, text: Seq<char>, limit: usize) -> RowView {
    RowView { prefix, body: RowBodyView::Excerpt { text, limit } }
}

/// The placeholder of an image.
pub open spec fn image_text(media_type: Seq<char>, len: nat) -> Seq<char> {
    "[image "@ + media_type + ", "@ + decimal(len) + " bytes]"@
}

/// The row of one part of a user message.
pub open spec fn part_row(part: PartView) -> RowView {
    match part {
        PartView::Text(text) => excerpt_row(Seq::empty(), text, 200),
        PartView::Image { media_type, bytes } => whole_row(
            Seq::empty(),
            image_text(media_type, bytes.len()),
        ),
    }
}

pub open spec fn part_rows(parts: Seq<PartView>) -> Seq<RowView> {
    Seq::new(parts.len(), |i: int| part_row(parts[i]))
}

pub fn user_part_row(part: &FrontendUserPart) -> (row: ReplayRow)
    ensures
        row.deep_view() == part_row(part.deep_view()),
{
    match part {
        FrontendUserPart::Text(text) => {
            let prefix = String::new();
            assert(prefix@ =~= Seq::<char>::empty());
            ReplayRow { prefix, body: RowBody::Excerpt { text: text.clone(), limit: 200 } }
        },
        FrontendUserPart::Image { media_type, bytes } => {
            let mut row = strs::cat3("[image ", media_type.as_str(), ", ");
            row.push_str(strs::number(bytes.len() as u64).as_str());
            row.push_str(" bytes]");
            let prefix = String::new();
            assert(prefix@ =~= Seq::<char>::empty());
            ReplayRow { prefix, body: RowBody::Whole(row) }
        },
    }
}

fn user_part_rows(parts: &Vec<FrontendUserPart>) -> (rows: Vec<ReplayRow>)
    ensures
        rows.deep_view() == part_rows(parts.deep_view()),
{
    let ghost all = parts.deep_view();
    let mut rows: Vec<ReplayRow> = Vec::new();
    let mut i: usize = 0;
    while i < parts.len()
        invariant
            i <= parts.len(),
            all == parts.deep_view(),
            rows.len() == i,
            forall|k: int| 0 <= k < i ==> (#[trigger] rows@[k]).deep_view() == part_row(all[k]),
        decreases parts.len() - i,
    {
        rows.push(user_part_row(&parts[i]));
        i += 1;
    }
    proof {
        assert(rows.deep_view() =~= part_rows(all));
    }
    rows
}

/// The lines of a compaction summary.
pub open spec fn summary_lines(text: Seq<char>) -> Seq<StepView> {
    let rows = split_on(text, '\n');
    Seq::new(
        rows.len(),
        |i: int| StepView::Line(plain_line(LineKind::Meta, "[summary] "@ + rows[i])),
    )
}

/// The prose of an assistant message, block by block.
pub open spec fn prose_lines(blocks: Seq<BlockView>) -> Seq<StepView>
    decreases blocks.len(),
{
    if blocks.len() == 0 {
        Seq::empty()
    } else {
        let before = prose_lines(blocks.drop_last());
        match blocks.last() {
            BlockView::Text { text } => before.push(
                StepView::Line(plain_line(LineKind::Answer, text)),
            ),
            BlockView::ToolCall { .. } => before,
        }
    }
}

/// What a message shows that is neither a tool call nor a tool result.
pub open spec fn message_steps(message: MessageView) -> Seq<StepView> {
    match message {
        MessageView::Summary { text } => summary_lines(text),
        MessageView::User { parts } => seq![StepView::UserBlock(part_rows(parts))],
        MessageView::Assistant { blocks } => prose_lines(blocks),
        MessageView::AssistantToolCalls { .. } | MessageView::ToolResult { .. } => Seq::empty(),
    }
}

pub fn assistant_block_lines(blocks: &Vec<FrontendAssistantBlock>) -> (steps: Vec<ReplayStep>)
    ensures
        steps.deep_view() == prose_lines(blocks.deep_view()),
{
    let ghost all = blocks.deep_view();
    let mut steps: Vec<ReplayStep> = Vec::new();
    let mut i: usize = 0;
    proof {
        assert(steps.deep_view() =~= prose_lines(all.take(0)));
    }
    while i < blocks.len()
        invariant
            i <= blocks.len(),
            all == blocks.deep_view(),
            steps.deep_view() == prose_lines(all.take(i as int)),
        decreases blocks.len() - i,
    {
        let ghost before = steps.deep_view();
        proof {
            assert(all.take(i as int + 1).drop_last() =~= all.take(i as int));
            assert(all.take(i as int + 1).last() == blocks@[i as int].deep_view());
        }
        if let FrontendAssistantBlock::Text { text } = &blocks[i] {
            let step = ReplayStep::Line(transcript::line(LineKind::Answer, text.as_str()));
            steps.push(step);
            proof {
                assert(steps.deep_view() =~= before.push(step.deep_view()));
            }
        }
        i += 1;
    }
    proof {
        assert(all.take(i as int) =~= all);
    }
    steps
}

pub fn message_lines(message: &FrontendContextMessage) -> (steps: Vec<ReplayStep>)
    ensures
        steps.deep_view() == message_steps(message.deep_view()),
{
    let mut steps: Vec<ReplayStep> = Vec::new();
    match message {
        FrontendContextMessage::Summary { text } => {
            let rows = strs::split(text.as_str(), '\n');
            let ghost all = rows.deep_view();
            let mut i: usize = 0;
            while i < rows.len()
                invariant
                    i <= rows.len(),
                    all == rows.deep_view(),
                    steps.len() == i,
                    forall|k: int|
                        0 <= k < i ==> (#[trigger] steps@[k]).deep_view() == StepView::Line(
                            plain_line(LineKind::Meta, "[summary] "@ + all[k]),
                        ),
                decreases rows.len() - i,
            {
                let row = strs::cat("[summary] ", rows[i].as_str());
                steps.push(ReplayStep::Line(transcript::line(LineKind::Meta, row.as_str())));
                i += 1;
            }
            proof {
                assert(steps.deep_view() =~= summary_lines(text@));
            }
        },
        FrontendContextMessage::User { parts } => {
            let step = ReplayStep::UserBlock(user_part_rows(parts));
            steps.push(step);
            proof {
                assert(steps.deep_view() =~= seq![step.deep_view()]);
            }
        },
        FrontendContextMessage::Assistant { blocks } => {
            return assistant_block_lines(blocks);
        },
        FrontendContextMessage::AssistantToolCalls { .. }
        | FrontendContextMessage::ToolResult { .. } => {
            proof {
                assert(steps.deep_view() =~= Seq::<StepView>::empty());
            }
        },
    }
    steps
}

// ---------------------------------------------------------------------------
// Tool calls and their outcomes
// ---------------------------------------------------------------------------

/// How the call of that id ended: its last recorded result counts.
pub open spec fn outcome_of(messages: Seq<MessageView>, id: Seq<char>) -> Option<OutcomeView>
    decreases messages.len(),
{
    if messages.len() == 0 {
        None
    } else {
        match messages.last() {
            MessageView::ToolResult { tool_call_id, outcome } if tool_call_id == id => Some(
                outcome,
            ),
            _ => outcome_of(messages.drop_last(), id),
        }
    }
}

/// The card of a call: a missing result shows as an empty success, and a call
/// that never finished shows only its header.
pub open spec fn replay_card(
    tool_name: Seq<char>,
    arguments: Seq<char>,
    outcome: Option<OutcomeView>,
) -> CardView {
    match outcome {
        None => CardView::Settled {
            tool_name,
            arguments,
            result: ResultView::Success { content: Seq::empty() },
            derive_display: false,
        },
        Some(OutcomeView::Success { content }) => CardView::Settled {
            tool_name,
            arguments,
            result: ResultView::Success { content },
            derive_display: true,
        },
        Some(OutcomeView::Error { code, message }) => CardView::Settled {
            tool_name,
            arguments,
            result: ResultView::Error { code, message },
            derive_display: false,
        },
        Some(OutcomeView::Cancelled) => CardView::Stopped {
            tool_name,
            arguments,
            status: "✗ cancelled"@,
        },
        Some(OutcomeView::Interrupted) => CardView::Stopped {
            tool_name,
            arguments,
            status: "✗ interrupted"@,
        },
    }
}

pub open spec fn failed(outcome: Option<OutcomeView>) -> bool {
    match outcome {
        Some(OutcomeView::Success { .. }) | None => false,
        Some(_) => true,
    }
}

/// How many blocks are tool calls.
pub open spec fn call_count(blocks: Seq<BlockView>) -> nat
    decreases blocks.len(),
{
    if blocks.len() == 0 {
        0
    } else {
        call_count(blocks.drop_last()) + if blocks.last() is ToolCall {
            1nat
        } else {
            0
        }
    }
}

/// Whether some call among the blocks failed or never finished.
pub open spec fn some_call_failed(blocks: Seq<BlockView>, messages: Seq<MessageView>) -> bool {
    exists|i: int|
        0 <= i < blocks.len() && (#[trigger] blocks[i]) is ToolCall && failed(
            outcome_of(messages, blocks[i]->id),
        )
}

/// The blocks of a batch in their order: prose, and a card per call.
pub open spec fn batch_steps(blocks: Seq<BlockView>, messages: Seq<MessageView>) -> Seq<StepView> {
    Seq::new(
        blocks.len(),
        |i: int|
            match blocks[i] {
                BlockView::Text { text } => StepView::Line(plain_line(LineKind::Answer, text)),
                BlockView::ToolCall { id, name, arguments } => StepView::Card(
                    replay_card(name, arguments, outcome_of(messages, id)),
                ),
            },
    )
}

/// The header cell of a concurrent batch.
pub open spec fn tree_parent(total: nat, any_failed: bool) -> LineView {
    let bar = if any_failed {
        SegColor::Red
    } else {
        SegColor::Green
    };
    card_line(
        HeaderView {
            bar: PieceView { text: "▎"@, color: bar, bold: false },
            action: PieceView {
                text: "Parallel Task ("@ + decimal(total) + " operations)"@,
                color: SegColor::Gray,
                bold: true,
            },
            target: None,
            stats: None,
            status: PieceView {
                text: if any_failed {
                    "✗ failed"@
                } else {
                    "✓ done"@
                },
                color: bar,
                bold: false,
            },
            time: None,
        },
        BodyView {
            lines: Seq::empty(),
            threshold: usize::MAX,
            fold_default_collapsed: false,
            fold_count: 0,
            fold_label: Seq::empty(),
            fold_hint: false,
            fold_all: false,
        },
    )
}

/// One batch of tool calls: a batch of many is headed by its parent cell.
pub open spec fn call_steps(blocks: Seq<BlockView>, messages: Seq<MessageView>) -> Seq<StepView> {
    if call_count(blocks) > 1 {
        seq![
            StepView::Line(tree_parent(call_count(blocks), some_call_failed(blocks, messages))),
        ] + batch_steps(blocks, messages)
    } else {
        batch_steps(blocks, messages)
    }
}

/// The steps of the first messages of a session.
pub open spec fn steps_of(shown: Seq<MessageView>, messages: Seq<MessageView>) -> Seq<StepView>
    decreases shown.len(),
{
    if shown.len() == 0 {
        Seq::empty()
    } else {
        steps_of(shown.drop_last(), messages) + match shown.last() {
            MessageView::AssistantToolCalls { blocks, .. } => call_steps(blocks, messages),
            _ => message_steps(shown.last()),
        }
    }
}

/// Looks up how a call ended.
fn find_outcome<'a>(
    messages: &'a Vec<FrontendContextMessage>,
    id: &str,
) -> (outcome: Option<&'a FrontendToolResultOutcome>)
    ensures
        match outcome {
            Some(outcome) => outcome_of(messages.deep_view(), id@) == Some(outcome.deep_view()),
            None => outcome_of(messages.deep_view(), id@) is None,
        },
{
    let ghost all = messages.deep_view();
    let mut i: usize = messages.len();
    proof {
        assert(all.take(i as int) =~= all);
    }
    while i > 0
        invariant
            i <= messages.len(),
            all == messages.deep_view(),
            outcome_of(all, id@) == outcome_of(all.take(i as int), id@),
        decreases i,
    {
        proof {
            assert(all.take(i as int).drop_last() =~= all.take(i - 1));
            assert(all.take(i as int).last() == messages@[i - 1].deep_view());
        }
        if let FrontendContextMessage::ToolResult { tool_call_id, outcome } = &messages[i - 1] {
            if strs::same(tool_call_id.as_str(), id) {
                return Some(outcome);
            }
        }
        i -= 1;
    }
    None
}

pub fn replay_tool_card(
    tool_name: &str,
    arguments: &str,
    outcome: Option<&FrontendToolResultOutcome>,
) -> (card: CardRequest)
    ensures
        card.deep_view() == replay_card(
            tool_name@,
            arguments@,
            match outcome {
                Some(outcome) => Some(outcome.deep_view()),
                None => None,
            },
        ),
{
    let tool_name = tool_name.to_owned();
    let arguments = arguments.to_owned();
    match outcome {
        None => {
            let content = String::new();
            assert(content@ =~= Seq::<char>::empty());
            CardRequest::Settled {
                tool_name,
                arguments,
                result: FrontendToolResult::Success { content },
                derive_display: false,
            }
        },
        Some(FrontendToolResultOutcome::Success { content }) => CardRequest::Settled {
            tool_name,
            arguments,
            result: FrontendToolResult::Success { content: content.clone() },
            derive_display: true,
        },
        Some(FrontendToolResultOutcome::Error { code, message }) => CardRequest::Settled {
            tool_name,
            arguments,
            result: FrontendToolResult::Error { code: code.clone(), message: message.clone() },
            derive_display: false,
        },
        Some(FrontendToolResultOutcome::Cancelled) => CardRequest::Stopped {
            tool_name,
            arguments,
            status: "✗ cancelled".to_owned(),
        },
        Some(FrontendToolResultOutcome::Interrupted) => CardRequest::Stopped {
            tool_name,
            arguments,
            status: "✗ interrupted".to_owned(),
        },
    }
}

pub fn tree_parent_cell(total: usize, any_failed: bool) -> (cell: TranscriptLine)
    ensures
        cell.deep_view() == tree_parent(total as nat, any_failed),
{
    let bar = if any_failed {
        SegColor::Red
    } else {
        SegColor::Green
    };
    let status = if any_failed {
        "✗ failed"
    } else {
        "✓ done"
    };
    let header = CardHeader {
        bar: HeaderPiece::new("▎".to_owned(), bar, false),
        action: HeaderPiece::new(
            strs::cat3(
                "Parallel Task (",
                strs::number(total as u64).as_str(),
                " operations)",
            ),
            SegColor::Gray,
            true,
        ),
        target: None,
        stats: None,
        status: HeaderPiece::new(status.to_owned(), bar, false),
        time: None,
    };
    let body = CardBody {
        lines: Vec::new(),
        threshold: usize::MAX,
        fold_default_collapsed: false,
        fold_count: 0,
        fold_label: String::new(),
        fold_hint: false,
        fold_all: false,
    };
    proof {
        assert(body.lines.deep_view().len() == 0);
    }
    transcript::card_cell(header, body)
}

/// One batch of tool calls, their results among the messages.
pub fn tool_call_cards(
    blocks: &Vec<FrontendAssistantBlock>,
    messages: &Vec<FrontendContextMessage>,
) -> (steps: Vec<ReplayStep>)
    ensures
        steps.deep_view() == call_steps(blocks.deep_view(), messages.deep_view()),
{
    let ghost all = blocks.deep_view();
    let ghost context = messages.deep_view();
    let mut steps: Vec<ReplayStep> = Vec::new();
    let mut calls: usize = 0;
    let mut any_failed = false;
    let mut i: usize = 0;
    while i < blocks.len()
        invariant
            i <= blocks.len(),
            all == blocks.deep_view(),
            context == messages.deep_view(),
            calls <= i,
            calls == call_count(all.take(i as int)),
            any_failed == exists|k: int|
                0 <= k < i && (#[trigger] all[k]) is ToolCall && failed(
                    outcome_of(context, all[k]->id),
                ),
            steps.len() == i,
            forall|k: int|
                0 <= k < i ==> (#[trigger] steps@[k]).deep_view() == batch_steps(all, context)[k],
        decreases blocks.len() - i,
    {
        proof {
            assert(all.take(i as int + 1).drop_last() =~= all.take(i as int));
            assert(all.take(i as int + 1).last() == all[i as int]);
            assert(all[i as int] == blocks@[i as int].deep_view());
        }
        match &blocks[i] {
            FrontendAssistantBlock::Text { text } => {
                steps.push(ReplayStep::Line(transcript::line(LineKind::Answer, text.as_str())));
            },
            FrontendAssistantBlock::ToolCall { id, name, arguments } => {
                let outcome = find_outcome(messages, id.as_str());
                match outcome {
                    Some(FrontendToolResultOutcome::Success { .. }) | None => {},
                    Some(_) => {
                        any_failed = true;
                        assert(failed(outcome_of(context, all[i as int]->id)));
                    },
                }
                let card = replay_tool_card(name.as_str(), arguments.as_str(), outcome);
                steps.push(ReplayStep::Card(card));
                calls += 1;
            },
        }
        i += 1;
    }
    proof {
        assert(all.take(i as int) =~= all);
        assert(steps.deep_view() =~= batch_steps(all, context));
    }
    if calls > 1 {
        let parent = ReplayStep::Line(tree_parent_cell(calls, any_failed));
        let ghost rest = steps.deep_view();
        steps.insert(0, parent);
        proof {
            assert(steps.deep_view() =~= seq![parent.deep_view()] + rest);
        }
    }
    steps
}

/// Replays the model-visible context of one session.
pub fn history_lines(view: &DurableSessionView) -> (steps: Vec<ReplayStep>)
    ensures
        steps.deep_view() == steps_of(view.messages.deep_view(), view.messages.deep_view()),
{
    let messages = &view.messages;
    let ghost all = messages.deep_view();
    let mut steps: Vec<ReplayStep> = Vec::new();
    let mut i: usize = 0;
    proof {
        assert(steps.deep_view() =~= steps_of(all.take(0), all));
    }
    while i < messages.len()
        invariant
            i <= messages.len(),
            all == messages.deep_view(),
            steps.deep_view() == steps_of(all.take(i as int), all),
        decreases messages.len() - i,
    {
        let ghost before = steps.deep_view();
        proof {
            assert(all.take(i as int + 1).drop_last() =~= all.take(i as int));
            assert(all.take(i as int + 1).last() == all[i as int]);
            assert(all[i as int] == messages@[i as int].deep_view());
        }
        let mut more = match &messages[i] {
            FrontendContextMessage::AssistantToolCalls { blocks, .. } => tool_call_cards(
                blocks,
                messages,
            ),
            message => message_lines(message),
        };
        let ghost added = more.deep_view();
        steps.append(&mut more);
        proof {
            assert(steps.deep_view() =~= before + added);
        }
        i += 1;
    }
    proof {
        assert(all.take(i as int) =~= all);
    }
    steps
}

// ---------------------------------------------------------------------------
// The picker's preview
// ---------------------------------------------------------------------------

/// The row that sums up how a call ended.
pub open spec fn outcome_row(outcome: OutcomeView) -> RowView {
    match outcome {
        OutcomeView::Success { content } => excerpt_row("  └ ok · "@, content, 80),
        OutcomeView::Error { code, message } => excerpt_row(
            "  └ error "@ + code + " · "@,
            message,
            80,
        ),
        OutcomeView::Cancelled => whole_row("  └ "@, "cancelled (never executed)"@),
        OutcomeView::Interrupted => whole_row("  └ "@, "interrupted (execution state unknown)"@),
    }
}

pub fn preview_outcome_row(outcome: &FrontendToolResultOutcome) -> (row: ReplayRow)
    ensures
        row.deep_view() == outcome_row(outcome.deep_view()),
{
    match outcome {
        FrontendToolResultOutcome::Success { content } => ReplayRow {
            prefix: "  └ ok · ".to_owned(),
            body: RowBody::Excerpt { text: content.clone(), limit: 80 },
        },
        FrontendToolResultOutcome::Error { code, message } => ReplayRow {
            prefix: strs::cat3("  └ error ", code.as_str(), " · "),
            body: RowBody::Excerpt { text: message.clone(), limit: 80 },
        },
        FrontendToolResultOutcome::Cancelled => ReplayRow {
            prefix: "  └ ".to_owned(),
            body: RowBody::Whole("cancelled (never executed)".to_owned()),
        },
        FrontendToolResultOutcome::Interrupted => ReplayRow {
            prefix: "  └ ".to_owned(),
            body: RowBody::Whole("interrupted (execution state unknown)".to_owned()),
        },
    }
}

/// The rows of the prose blocks.
pub open spec fn text_rows(blocks: Seq<BlockView>) -> Seq<RowView>
    decreases blocks.len(),
{
    if blocks.len() == 0 {
        Seq::empty()
    } else {
        let before = text_rows(blocks.drop_last());
        match blocks.last() {
            BlockView::Text { text } => before.push(whole_row(Seq::empty(), text)),
            BlockView::ToolCall { .. } => before,
        }
    }
}

/// The rows of the tool calls.
pub open spec fn call_rows(blocks: Seq<BlockView>) -> Seq<RowView>
    decreases blocks.len(),
{
    if blocks.len() == 0 {
        Seq::empty()
    } else {
        let before = call_rows(blocks.drop_last());
        match blocks.last() {
            BlockView::Text { .. } => before,
            BlockView::ToolCall { name, arguments, .. } => before.push(
                RowView {
                    prefix: "▸ "@ + name + "  "@,
                    body: RowBodyView::Arguments(arguments),
                },
            ),
        }
    }
}

pub open spec fn summary_rows(text: Seq<char>) -> Seq<RowView> {
    let rows = split_on(text, '\n');
    Seq::new(rows.len(), |i: int| whole_row("[summary] "@, rows[i]))
}

/// The compact rows of one message.
pub open spec fn compact_rows(message: MessageView) -> Seq<RowView> {
    match message {
        MessageView::Summary { text } => summary_rows(text),
        MessageView::User { parts } => part_rows(parts),
        MessageView::Assistant { blocks } => text_rows(blocks),
        MessageView::AssistantToolCalls { blocks, .. } => call_rows(blocks),
        MessageView::ToolResult { outcome, .. } => seq![outcome_row(outcome)],
    }
}

/// The compact rows of a session, message by message.
pub open spec fn compact_session(messages: Seq<MessageView>) -> Seq<RowView>
    decreases messages.len(),
{
    if messages.len() == 0 {
        Seq::empty()
    } else {
        compact_session(messages.drop_last()) + compact_rows(messages.last())
    }
}

fn preview_blocks(blocks: &Vec<FrontendAssistantBlock>, calls: bool) -> (rows: Vec<ReplayRow>)
    ensures
        rows.deep_view() == (if calls {
            call_rows(blocks.deep_view())
        } else {
            text_rows(blocks.deep_view())
        }),
{
    let ghost all = blocks.deep_view();
    let mut rows: Vec<ReplayRow> = Vec::new();
    let mut i: usize = 0;
    proof {
        assert(rows.deep_view() =~= Seq::<RowView>::empty());
    }
    while i < blocks.len()
        invariant
            i <= blocks.len(),
            all == blocks.deep_view(),
            rows.deep_view() == (if calls {
                call_rows(all.take(i as int))
            } else {
                text_rows(all.take(i as int))
            }),
        decreases blocks.len() - i,
    {
        let ghost before = rows.deep_view();
        proof {
            assert(all.take(i as int + 1).drop_last() =~= all.take(i as int));
            assert(all.take(i as int + 1).last() == blocks@[i as int].deep_view());
        }
        match &blocks[i] {
            FrontendAssistantBlock::Text { text } => {
                if !calls {
                    let row = ReplayRow {
                        prefix: String::new(),
                        body: RowBody::Whole(text.clone()),
                    };
                    rows.push(row);
                    proof {
                        assert(row.prefix@ =~= Seq::<char>::empty());
                        assert(rows.deep_view() =~= before.push(row.deep_view()));
                    }
                }
            },
            FrontendAssistantBlock::ToolCall { name, arguments, .. } => {
                if calls {
                    let row = ReplayRow {
                        prefix: strs::cat3("▸ ", name.as_str(), "  "),
                        body: RowBody::Arguments(arguments.clone()),
                    };
                    rows.push(row);
                    proof {
                        assert(rows.deep_view() =~= before.push(row.deep_view()));
                    }
                }
            },
        }
        i += 1;
    }
    proof {
        assert(all.take(i as int) =~= all);
    }
    rows
}

fn preview_message(message: &FrontendContextMessage) -> (rows: Vec<ReplayRow>)
    ensures
        rows.deep_view() == compact_rows(message.deep_view()),
{
    match message {
        FrontendContextMessage::Summary { text } => {
            let lines = strs::split(text.as_str(), '\n');
            let ghost all = lines.deep_view();
            let mut rows: Vec<ReplayRow> = Vec::new();
            let mut i: usize = 0;
            while i < lines.len()
                invariant
                    i <= lines.len(),
                    all == lines.deep_view(),
                    rows.len() == i,
                    forall|k: int|
                        0 <= k < i ==> (#[trigger] rows@[k]).deep_view() == whole_row(
                            "[summary] "@,
                            all[k],
                        ),
                decreases lines.len() - i,
            {
                rows.push(
                    ReplayRow {
                        prefix: "[summary] ".to_owned(),
                        body: RowBody::Whole(lines[i].clone()),
                    },
                );
                i += 1;
            }
            proof {
                assert(rows.deep_view() =~= summary_rows(text@));
            }
            rows
        },
        FrontendContextMessage::User { parts } => user_part_rows(parts),
        FrontendContextMessage::Assistant { blocks } => preview_blocks(blocks, false),
        FrontendContextMessage::AssistantToolCalls { blocks, .. } => preview_blocks(blocks, true),
        FrontendContextMessage::ToolResult { outcome, .. } => {
            let row = preview_outcome_row(outcome);
            let mut rows: Vec<ReplayRow> = Vec::new();
            rows.push(row);
            proof {
                assert(rows.deep_view() =~= seq![row.deep_view()]);
            }
            rows
        },
    }
}

/// The compact, text-only replay of a session.
pub fn preview_text_lines(view: &DurableSessionView) -> (rows: Vec<ReplayRow>)
    ensures
        rows.deep_view() == compact_session(view.messages.deep_view()),
{
    let messages = &view.messages;
    let ghost all = messages.deep_view();
    let mut rows: Vec<ReplayRow> = Vec::new();
    let mut i: usize = 0;
    proof {
        assert(rows.deep_view() =~= compact_session(all.take(0)));
    }
    while i < messages.len()
        invariant
            i <= messages.len(),
            all == messages.deep_view(),
            rows.deep_view() == compact_session(all.take(i as int)),
        decreases messages.len() - i,
    {
        let ghost before = rows.deep_view();
        proof {
            assert(all.take(i as int + 1).drop_last() =~= all.take(i as int));
            assert(all.take(i as int + 1).last() == messages@[i as int].deep_view());
        }
        let mut more = preview_message(&messages[i]);
        let ghost added = more.deep_view();
        rows.append(&mut more);
        proof {
            assert(rows.deep_view() =~= before + added);
        }
        i += 1;
    }
    proof {
        assert(all.take(i as int) =~= all);
    }
    rows
}

/// The texts that are not empty.
pub open spec fn nonempty(texts: Seq<Seq<char>>) -> Seq<Seq<char>>
    decreases texts.len(),
{
    if texts.len() == 0 {
        Seq::empty()
    } else if texts.last().len() == 0 {
        nonempty(texts.drop_last())
    } else {
        nonempty(texts.drop_last()).push(texts.last())
    }
}

/// The opening rows of a session: where more follow than fit, the last place
/// shows a marker.
pub open spec fn opening(texts: Seq<Seq<char>>, max_lines: usize) -> Seq<RowView> {
    let visible = nonempty(texts);
    if visible.len() == 0 {
        seq![whole_row(Seq::empty(), "(empty session)"@)]
    } else if visible.len() <= max_lines {
        Seq::new(visible.len(), |i: int| excerpt_row(Seq::empty(), visible[i], 120))
    } else {
        Seq::new(
            max_lines as nat,
            |i: int|
                if i == max_lines - 1 {
                    whole_row(Seq::empty(), "..."@)
                } else {
                    excerpt_row(Seq::empty(), visible[i], 120)
                },
        )
    }
}

/// The condensed preview of a session, its rows rendered as texts.
pub fn preview_lines(texts: &Vec<String>, max_lines: usize) -> (rows: Vec<ReplayRow>)
    ensures
        rows.deep_view() == opening(texts.deep_view(), max_lines),
{
    let ghost all = texts.deep_view();
    let mut visible: Vec<String> = Vec::new();
    let mut i: usize = 0;
    proof {
        assert(visible.deep_view() =~= nonempty(all.take(0)));
    }
    while i < texts.len()
        invariant
            i <= texts.len(),
            all == texts.deep_view(),
            visible.deep_view() == nonempty(all.take(i as int)),
        decreases texts.len() - i,
    {
        let ghost before = visible.deep_view();
        proof {
            assert(all.take(i as int + 1).drop_last() =~= all.take(i as int));
            assert(all.take(i as int + 1).last() == texts@[i as int]@);
        }
        if !texts[i].as_str().is_empty() {
            visible.push(texts[i].clone());
            proof {
                assert(visible.deep_view() =~= before.push(texts@[i as int]@));
            }
        }
        i += 1;
    }
    proof {
        assert(all.take(i as int) =~= all);
    }
    let mut rows: Vec<ReplayRow> = Vec::new();
    if visible.len() == 0 {
        let row = ReplayRow {
            prefix: String::new(),
            body: RowBody::Whole("(empty session)".to_owned()),
        };
        rows.push(row);
        proof {
            assert(row.prefix@ =~= Seq::<char>::empty());
            assert(rows.deep_view() =~= opening(all, max_lines));
        }
        return rows;
    }
    let ghost kept = visible.deep_view();
    let cut = visible.len() > max_lines;
    let count = if cut {
        max_lines
    } else {
        visible.len()
    };
    let mut k: usize = 0;
    while k < count
        invariant
            k <= count <= visible.len(),
            cut == (visible@.len() > max_lines),
            count == (if cut {
                max_lines
            } else {
                visible@.len() as usize
            }),
            kept == visible.deep_view(),
            kept == nonempty(all),
            kept.len() > 0,
            rows.len() == k,
            forall|j: int|
                0 <= j < k ==> (#[trigger] rows@[j]).deep_view() == opening(all, max_lines)[j],
        decreases count - k,
    {
        let body = if cut && k == max_lines - 1 {
            RowBody::Whole("...".to_owned())
        } else {
            RowBody::Excerpt { text: visible[k].clone(), limit: 120 }
        };
        let prefix = String::new();
        assert(prefix@ =~= Seq::<char>::empty());
        rows.push(ReplayRow { prefix, body });
        k += 1;
    }
    proof {
        assert(rows.deep_view() =~= opening(all, max_lines));
    }
    rows
}

// ---------------------------------------------------------------------------
// Laws
// ---------------------------------------------------------------------------

/// Recorded results show nothing of their own: a result message adds no step.
pub proof fn results_are_absorbed(
    shown: Seq<MessageView>,
    messages: Seq<MessageView>,
    result: MessageView,
)
    requires
        result is ToolResult,
    ensures
        steps_of(shown.push(result), messages) == steps_of(shown, messages),
{
    assert(shown.push(result).drop_last() =~= shown);
    assert(steps_of(shown, messages) + Seq::<StepView>::empty() =~= steps_of(shown, messages));
}

/// A preview never shows more rows than it may, the empty session excepted.
pub proof fn preview_fits(texts: Seq<Seq<char>>, max_lines: usize)
    ensures
        nonempty(texts).len() > 0 ==> opening(texts, max_lines).len() <= max_lines,
        nonempty(texts).len() == 0 ==> opening(texts, max_lines).len() == 1,
{
}

/// Whether message `k` is the last recorded result of a call.
pub open spec fn is_last_result(messages: Seq<MessageView>, id: Seq<char>, k: int) -> bool {
    &&& 0 <= k < messages.len()
    &&& messages[k] is ToolResult
    &&& messages[k]->tool_call_id == id
    &&& forall|j: int|
        k < j < messages.len() ==> !(#[trigger] messages[j] is ToolResult
            && messages[j]->tool_call_id == id)
}

/// Whether the last recorded result of a call is an error, a cancellation or an
/// interruption.
pub open spec fn ended_badly(messages: Seq<MessageView>, id: Seq<char>) -> bool {
    exists|k: int| #[trigger]
        is_last_result(messages, id, k) && (messages[k]->outcome is Error
            || messages[k]->outcome is Cancelled || messages[k]->outcome is Interrupted)
}

/// A call ended as the last of its recorded results says, and one without a result
/// has no outcome.
pub proof fn last_result_counts(messages: Seq<MessageView>, id: Seq<char>)
    ensures
        forall|k: int| #[trigger]
            is_last_result(messages, id, k) ==> outcome_of(messages, id) == Some(
                messages[k]->outcome,
            ),
        (forall|k: int|
            0 <= k < messages.len() ==> !(#[trigger] messages[k] is ToolResult
                && messages[k]->tool_call_id == id)) ==> outcome_of(messages, id) is None,
        outcome_of(messages, id) is Some ==> exists|k: int| #[trigger]
            is_last_result(messages, id, k),
    decreases messages.len(),
{
    if messages.len() > 0 {
        let rest = messages.drop_last();
        let n = messages.len() - 1;
        last_result_counts(rest, id);
        if messages[n] is ToolResult && messages[n]->tool_call_id == id {
            assert(is_last_result(messages, id, n));
            assert forall|k: int| #[trigger] is_last_result(messages, id, k) implies outcome_of(
                messages,
                id,
            ) == Some(messages[k]->outcome) by {
                if k < n {
                    assert(!(messages[n] is ToolResult && messages[n]->tool_call_id == id));
                }
            }
        } else {
            assert forall|k: int| #[trigger] is_last_result(messages, id, k) implies outcome_of(
                messages,
                id,
            ) == Some(messages[k]->outcome) by {
                assert(k < n);
                assert forall|j: int| k < j < rest.len() implies !(#[trigger] rest[j] is ToolResult
                    && rest[j]->tool_call_id == id) by {
                    assert(rest[j] == messages[j]);
                }
                assert(is_last_result(rest, id, k));
            }
            if outcome_of(messages, id) is Some {
                let k = choose|k: int| #[trigger] is_last_result(rest, id, k);
                assert forall|j: int| k < j < messages.len() implies !(
                #[trigger] messages[j] is ToolResult && messages[j]->tool_call_id == id) by {
                    if j < n {
                        assert(rest[j] == messages[j]);
                    }
                }
                assert(is_last_result(messages, id, k));
            }
            if forall|k: int|
                0 <= k < messages.len() ==> !(#[trigger] messages[k] is ToolResult
                    && messages[k]->tool_call_id == id) {
                assert forall|k: int| 0 <= k < rest.len() implies !(#[trigger] rest[k] is ToolResult
                    && rest[k]->tool_call_id == id) by {
                    assert(rest[k] == messages[k]);
                }
            }
        }
    }
}

proof fn failed_is_ended_badly(messages: Seq<MessageView>, id: Seq<char>)
    ensures
        failed(outcome_of(messages, id)) <==> ended_badly(messages, id),
{
    last_result_counts(messages, id);
    if failed(outcome_of(messages, id)) {
        let k = choose|k: int| #[trigger] is_last_result(messages, id, k);
        assert(outcome_of(messages, id) == Some(messages[k]->outcome));
        assert(ended_badly(messages, id));
    }
}

/// The history is replayed message by message, in order.
pub proof fn replay_goes_message_by_message(
    earlier: Seq<MessageView>,
    later: Seq<MessageView>,
    messages: Seq<MessageView>,
)
    ensures
        steps_of(earlier + later, messages) == steps_of(earlier, messages) + steps_of(
            later,
            messages,
        ),
    decreases later.len(),
{
    if later.len() == 0 {
        assert(earlier + later =~= earlier);
        assert(steps_of(earlier, messages) + steps_of(later, messages) =~= steps_of(
            earlier,
            messages,
        ));
    } else {
        replay_goes_message_by_message(earlier, later.drop_last(), messages);
        assert((earlier + later).drop_last() =~= earlier + later.drop_last());
        assert(steps_of(earlier + later, messages) =~= steps_of(earlier, messages) + steps_of(
            later,
            messages,
        ));
    }
}

proof fn two_calls_are_counted(blocks: Seq<BlockView>, i: int, j: int)
    requires
        0 <= i < j < blocks.len(),
        blocks[i] is ToolCall,
        blocks[j] is ToolCall,
    ensures
        call_count(blocks) > 1,
    decreases blocks.len(),
{
    let rest = blocks.drop_last();
    if j < rest.len() {
        two_calls_are_counted(rest, i, j);
    } else {
        one_call_is_counted(rest, i);
    }
}

proof fn one_call_is_counted(blocks: Seq<BlockView>, i: int)
    requires
        0 <= i < blocks.len(),
        blocks[i] is ToolCall,
    ensures
        call_count(blocks) > 0,
    decreases blocks.len(),
{
    if i < blocks.len() - 1 {
        one_call_is_counted(blocks.drop_last(), i);
    }
}

/// Wherever in a session a batch of two or more calls stands, its parent comes
/// first: red and failed exactly if the last result of one of the calls is an
/// error, a cancellation or an interruption, green and done otherwise.
pub proof fn parents_tell_how_the_batch_ended(
    messages: Seq<MessageView>,
    at: int,
    blocks: Seq<BlockView>,
    tool_batch_id: Seq<char>,
    i: int,
    j: int,
)
    requires
        0 <= at < messages.len(),
        messages[at] == (MessageView::AssistantToolCalls { blocks, tool_batch_id }),
        0 <= i < j < blocks.len(),
        blocks[i] is ToolCall,
        blocks[j] is ToolCall,
    ensures
        ({
            let steps = steps_of(messages, messages);
            let place = steps_of(messages.take(at), messages).len() as int;
            let bad = exists|b: int|
                0 <= b < blocks.len() && (#[trigger] blocks[b]) is ToolCall && ended_badly(
                    messages,
                    blocks[b]->id,
                );
            &&& 0 <= place < steps.len()
            &&& steps[place] is Line
            &&& steps[place]->Line_0.header is Some
            &&& ({
                let header = steps[place]->Line_0.header->0;
                &&& header.bar.color == header.status.color
                &&& bad ==> header.status.text == "✗ failed"@ && header.status.color
                    == SegColor::Red
                &&& !bad ==> header.status.text == "✓ done"@ && header.status.color
                    == SegColor::Green
            })
        }),
{
    let steps = steps_of(messages, messages);
    let before = messages.take(at);
    let one = seq![messages[at]];
    let behind = messages.skip(at + 1);
    assert(messages =~= before + one + behind);
    replay_goes_message_by_message(before + one, behind, messages);
    replay_goes_message_by_message(before, one, messages);
    reveal_with_fuel(steps_of, 2);
    assert(one.drop_last() =~= Seq::<MessageView>::empty());
    assert(steps_of(one, messages) =~= call_steps(blocks, messages));
    two_calls_are_counted(blocks, i, j);
    let place = steps_of(before, messages).len() as int;
    assert(steps[place] == call_steps(blocks, messages)[0]);
    assert forall|b: int| 0 <= b < blocks.len() && (#[trigger] blocks[b]) is ToolCall implies failed(
        outcome_of(messages, blocks[b]->id),
    ) == ended_badly(messages, blocks[b]->id) by {
        failed_is_ended_badly(messages, blocks[b]->id);
    }
    if some_call_failed(blocks, messages) {
        let b = choose|b: int|
            0 <= b < blocks.len() && (#[trigger] blocks[b]) is ToolCall && failed(
                outcome_of(messages, blocks[b]->id),
            );
        assert(ended_badly(messages, blocks[b]->id));
    }
}

/// What a call shows of how it ended: its own name and arguments, and either the
/// result that was recorded, in the richer form only for a success, or that it was
/// stopped, and by what.
pub proof fn calls_show_what_was_recorded(
    tool_name: Seq<char>,
    arguments: Seq<char>,
    outcome: Option<OutcomeView>,
)
    ensures
        match replay_card(tool_name, arguments, outcome) {
            CardView::Settled { tool_name: name, arguments: given, result, derive_display } => {
                &&& name == tool_name
                &&& given == arguments
                &&& derive_display == (outcome is Some && outcome->0 is Success)
                &&& match result {
                    ResultView::Success { content } => outcome == Some(
                        OutcomeView::Success { content },
                    ) || (outcome is None && content.len() == 0),
                    ResultView::Error { code, message } => outcome == Some(
                        OutcomeView::Error { code, message },
                    ),
                }
            },
            CardView::Stopped { tool_name: name, arguments: given, status } => {
                &&& name == tool_name
                &&& given == arguments
                &&& outcome == Some(OutcomeView::Cancelled) ==> status == "✗ cancelled"@
                &&& outcome == Some(OutcomeView::Interrupted) ==> status == "✗ interrupted"@
                &&& outcome == Some(OutcomeView::Cancelled) || outcome == Some(
                    OutcomeView::Interrupted,
                )
            },
        },
{
}

/// A user's message is one block with a row for each part, in order; a text is
/// told by its beginning, an image by its type and size.
pub proof fn user_messages_replay_part_by_part(parts: Seq<PartView>, i: int)
    requires
        0 <= i < parts.len(),
    ensures
        ({
            let steps = message_steps(MessageView::User { parts });
            let rows = steps[0]->UserBlock_0;
            &&& steps.len() == 1
            &&& steps[0] is UserBlock
            &&& rows.len() == parts.len()
            &&& rows[i].prefix.len() == 0
            &&& parts[i] is Text ==> rows[i].body == (RowBodyView::Excerpt {
                text: parts[i]->Text_0,
                limit: 200,
            })
            &&& parts[i] is Image ==> rows[i].body == RowBodyView::Whole(
                "[image "@ + parts[i]->Image_media_type + ", "@ + decimal(
                    parts[i]->Image_bytes.len(),
                ) + " bytes]"@,
            )
        }),
{
}

/// A summary is told line by line, each line marked as such and none left out.
pub proof fn summaries_replay_line_by_line(text: Seq<char>, i: int)
    requires
        0 <= i < message_steps(MessageView::Summary { text }).len(),
    ensures
        ({
            let step = message_steps(MessageView::Summary { text })[i];
            &&& step is Line
            &&& step->Line_0 == plain_line(
                LineKind::Meta,
                "[summary] "@ + split_on(text, '\n')[i],
            )
        }),
        message_steps(MessageView::Summary { text }).len() == split_on(text, '\n').len(),
        crate::strs::join(split_on(text, '\n'), seq!['\n']) == text,
{
    crate::strs::join_inverts_split(text, '\n');
}

/// An answer shows its texts, in order and whole; what it calls is shown where the
/// calls are.
pub proof fn answers_replay_their_texts(first: Seq<BlockView>, second: Seq<BlockView>, text: Seq<
    char,
>)
    ensures
        prose_lines(first + second) == prose_lines(first) + prose_lines(second),
        prose_lines(seq![BlockView::Text { text }]) == seq![
            StepView::Line(plain_line(LineKind::Answer, text)),
        ],
    decreases second.len(),
{
    reveal_with_fuel(prose_lines, 2);
    let one = seq![BlockView::Text { text }];
    assert(one.drop_last() =~= Seq::<BlockView>::empty());
    assert(prose_lines(one) =~= seq![StepView::Line(plain_line(LineKind::Answer, text))]);
    if second.len() == 0 {
        assert(first + second =~= first);
        assert(prose_lines(first) + prose_lines(second) =~= prose_lines(first));
    } else {
        assert((first + second).drop_last() =~= first + second.drop_last());
        answers_replay_their_texts(first, second.drop_last(), text);
        assert(prose_lines(first + second) =~= prose_lines(first) + prose_lines(second));
    }
}

/// A batch shows its blocks one by one, in order: a text as it is, a call as a card
/// of its own.
pub proof fn batches_replay_block_by_block(
    blocks: Seq<BlockView>,
    messages: Seq<MessageView>,
    i: int,
)
    requires
        0 <= i < blocks.len(),
    ensures
        ({
            let steps = call_steps(blocks, messages);
            let parent = if call_count(blocks) > 1 {
                1int
            } else {
                0int
            };
            &&& steps.len() == parent + blocks.len()
            &&& blocks[i] is Text ==> steps[parent + i] == StepView::Line(
                plain_line(LineKind::Answer, blocks[i]->Text_text),
            )
            &&& blocks[i] is ToolCall ==> steps[parent + i] is Card
        }),
{
}

/// Calls are counted one by one.
pub proof fn calls_are_counted(first: Seq<BlockView>, second: Seq<BlockView>, block: BlockView)
    ensures
        call_count(first + second) == call_count(first) + call_count(second),
        call_count(seq![block]) == if block is ToolCall {
            1nat
        } else {
            0nat
        },
    decreases second.len(),
{
    reveal_with_fuel(call_count, 2);
    assert(seq![block].drop_last() =~= Seq::<BlockView>::empty());
    if second.len() == 0 {
        assert(first + second =~= first);
    } else {
        assert((first + second).drop_last() =~= first + second.drop_last());
        calls_are_counted(first, second.drop_last(), block);
    }
}

} // verus!
