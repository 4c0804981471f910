//! A plain, line-by-line telling of a session's context.

use vstd::prelude::*;

use super::session::{
    image_text, FrontendToolResultOutcome, FrontendUserPart, OutcomeView, PartView, RowBody,
    RowBodyView,
};
use super::transcript::LineKind;
use crate::strs;
use crate::strs::{join, split_on};

verus! {

/// One call of a tool.
#[derive(Clone, Debug, PartialEq, Eq)]
pub struct ToolCall {
    pub name: String,
    pub arguments: String,
}

/// A [`ToolCall`] as a mathematical value.
pub struct CallView {
    pub name: Seq<char>,
    pub arguments: Seq<char>,
}

impl DeepView for ToolCall {
    type V = CallView;

    open spec fn deep_view(&self) -> CallView {
        CallView { name: self.name@, arguments: self.arguments@ }
    }
}

/// One message of a stored context.
#[derive(Clone, Debug, PartialEq, Eq)]
pub enum ContextMessage {
    User { parts: Vec<FrontendUserPart> },
    Assistant { content: String },
    AssistantToolCalls { calls: Vec<ToolCall> },
    ToolResult { outcome: FrontendToolResultOutcome },
}

/// A [`ContextMessage`] as a mathematical value.
pub enum ContextView {
    User { parts: Seq<PartView> },
    Assistant { content: Seq<char> },
    AssistantToolCalls { calls: Seq<CallView> },
    ToolResult { outcome: OutcomeView },
}

impl DeepView for ContextMessage {
    type V = ContextView;

    open spec fn deep_view(&self) -> ContextView {
        match self {
            ContextMessage::User { parts } => ContextView::User { parts: parts.deep_view() },
            ContextMessage::Assistant { content } => ContextView::Assistant { content: content@ },
            ContextMessage::AssistantToolCalls { calls } => ContextView::AssistantToolCalls {
                calls: calls.deep_view(),
            },
            ContextMessage::ToolResult { outcome } => ContextView::ToolResult {
                outcome: outcome.deep_view(),
            },
        }
    }
}

/// One line of the telling; the renderer shortens its body.
#[derive(Clone, Debug, PartialEq, Eq)]
pub struct HistoryLine {
    pub kind: LineKind,
    pub prefix: String,
    pub body: RowBody,
    pub suffix: &'static str,
}

/// A [`HistoryLine`] as a mathematical value.
pub struct HistoryLineView {
    pub kind: LineKind,
    pub prefix: Seq<char>,
    pub body: RowBodyView,
    pub suffix: Seq<char>,
}

impl DeepView for HistoryLine {
    type V = HistoryLineView;

    open spec fn deep_view(&self) -> HistoryLineView {
        HistoryLineView {
            kind: self.kind,
            prefix: self.prefix@,
            body: self.body.deep_view(),
            suffix: self.suffix@,
        }
    }
}

pub open spec fn told(kind: LineKind, prefix: Seq<char>, body: RowBodyView) -> HistoryLineView {
    HistoryLineView { kind, prefix, body, suffix: ""@ }
}

/// The line of one part of a user message.
pub open spec fn part_told(part: PartView) -> HistoryLineView {
    match part {
        PartView::Text(text) => told(
            LineKind::User,
            "> "@,
            RowBodyView::Excerpt { text, limit: 200 },
        ),
        PartView::Image { media_type, bytes } => told(
            LineKind::User,
            "> "@,
            RowBodyView::Whole(image_text(media_type, bytes.len())),
        ),
    }
}

/// The line of one tool call.
pub open spec fn call_told(call: CallView) -> HistoryLineView {
    HistoryLineView {
        kind: LineKind::Tool,
        prefix: "tool "@ + call.name + "("@,
        body: RowBodyView::Excerpt { text: call.arguments, limit: 60 },
        suffix: ")"@,
    }
}

/// The line of one outcome.
pub open spec fn outcome_told(outcome: OutcomeView) -> HistoryLineView {
    match outcome {
        OutcomeView::Success { content } => told(
            LineKind::Tool,
            "  -> ok: "@,
            RowBodyView::Excerpt { text: content, limit: 80 },
        ),
        OutcomeView::Error { code, message } => told(
            LineKind::Tool,
            "  -> error "@ + code + ": "@,
            RowBodyView::Excerpt { text: message, limit: 80 },
        ),
        OutcomeView::Cancelled => told(
            LineKind::Tool,
            "  -> "@,
            RowBodyView::Whole("cancelled (never executed)"@),
        ),
        OutcomeView::Interrupted => told(
            LineKind::Tool,
            "  -> "@,
            RowBodyView::Whole("interrupted (execution state unknown)"@),
        ),
    }
}

/// The lines of an answer, one for each of its own.
pub open spec fn answer_told(content: Seq<char>) -> Seq<HistoryLineView> {
    let rows = split_on(content, '\n');
    Seq::new(rows.len(), |i: int| told(LineKind::Answer, ""@, RowBodyView::Whole(rows[i])))
}

pub open spec fn parts_told(parts: Seq<PartView>) -> Seq<HistoryLineView> {
    Seq::new(parts.len(), |i: int| part_told(parts[i]))
}

pub open spec fn calls_told(calls: Seq<CallView>) -> Seq<HistoryLineView> {
    Seq::new(calls.len(), |i: int| call_told(calls[i]))
}

/// The lines of one message.
pub open spec fn message_told(message: ContextView) -> Seq<HistoryLineView> {
    match message {
        ContextView::User { parts } => parts_told(parts),
        ContextView::Assistant { content } => answer_told(content),
        ContextView::AssistantToolCalls { calls } => calls_told(calls),
        ContextView::ToolResult { outcome } => seq![outcome_told(outcome)],
    }
}

/// The lines of the first messages, message by message.
pub open spec fn context_told(messages: Seq<ContextView>) -> Seq<HistoryLineView>
    decreases messages.len(),
{
    if messages.len() == 0 {
        Seq::empty()
    } else {
        context_told(messages.drop_last()) + message_told(messages.last())
    }
}

pub fn user_part_line(part: &FrontendUserPart) -> (line: HistoryLine)
    ensures
        line.deep_view() == part_told(part.deep_view()),
{
    let body = match part {
        FrontendUserPart::Text(text) => RowBody::Excerpt { text: text.clone(), limit: 200 },
        FrontendUserPart::Image { media_type, bytes } => {
            let mut row = strs::cat3("[image ", media_type.as_str(), ", ");
            row.push_str(strs::number(bytes.len() as u64).as_str());
            row.push_str(" bytes]");
            RowBody::Whole(row)
        },
    };
    HistoryLine { kind: LineKind::User, prefix: "> ".to_owned(), body, suffix: "" }
}

pub fn outcome_line(outcome: &FrontendToolResultOutcome) -> (line: HistoryLine)
    ensures
        line.deep_view() == outcome_told(outcome.deep_view()),
{
    let (prefix, body) = match outcome {
        FrontendToolResultOutcome::Success { content } => (
            "  -> ok: ".to_owned(),
            RowBody::Excerpt { text: content.clone(), limit: 80 },
        ),
        FrontendToolResultOutcome::Error { code, message } => (
            strs::cat3("  -> error ", code.as_str(), ": "),
            RowBody::Excerpt { text: message.clone(), limit: 80 },
        ),
        FrontendToolResultOutcome::Cancelled => (
            "  -> ".to_owned(),
            RowBody::Whole("cancelled (never executed)".to_owned()),
        ),
        FrontendToolResultOutcome::Interrupted => (
            "  -> ".to_owned(),
            RowBody::Whole("interrupted (execution state unknown)".to_owned()),
        ),
    };
    HistoryLine { kind: LineKind::Tool, prefix, body, suffix: "" }
}

fn part_lines(parts: &Vec<FrontendUserPart>) -> (lines: Vec<HistoryLine>)
    ensures
        lines.deep_view() == parts_told(parts.deep_view()),
{
    let ghost all = parts.deep_view();
    let mut lines: Vec<HistoryLine> = Vec::new();
    let mut i: usize = 0;
    while i < parts.len()
        invariant
            i <= parts.len(),
            all == parts.deep_view(),
            lines.len() == i,
            forall|k: int| 0 <= k < i ==> (#[trigger] lines@[k]).deep_view() == part_told(all[k]),
        decreases parts.len() - i,
    {
        lines.push(user_part_line(&parts[i]));
        i += 1;
    }
    assert(lines.deep_view() =~= parts_told(all));
    lines
}

fn answer_lines(content: &str) -> (lines: Vec<HistoryLine>)
    ensures
        lines.deep_view() == answer_told(content@),
{
    let rows = strs::split(content, '\n');
    let ghost all = rows.deep_view();
    let mut lines: Vec<HistoryLine> = Vec::new();
    let mut i: usize = 0;
    while i < rows.len()
        invariant
            i <= rows.len(),
            all == rows.deep_view(),
            lines.len() == i,
            forall|k: int|
                0 <= k < i ==> (#[trigger] lines@[k]).deep_view() == told(
                    LineKind::Answer,
                    ""@,
                    RowBodyView::Whole(all[k]),
                ),
        decreases rows.len() - i,
    {
        lines.push(
            HistoryLine {
                kind: LineKind::Answer,
                prefix: "".to_owned(),
                body: RowBody::Whole(rows[i].clone()),
                suffix: "",
            },
        );
        i += 1;
    }
    assert(lines.deep_view() =~= answer_told(content@));
    lines
}

fn call_lines(calls: &Vec<ToolCall>) -> (lines: Vec<HistoryLine>)
    ensures
        lines.deep_view() == calls_told(calls.deep_view()),
{
    let ghost all = calls.deep_view();
    let mut lines: Vec<HistoryLine> = Vec::new();
    let mut i: usize = 0;
    while i < calls.len()
        invariant
            i <= calls.len(),
            all == calls.deep_view(),
            lines.len() == i,
            forall|k: int| 0 <= k < i ==> (#[trigger] lines@[k]).deep_view() == call_told(all[k]),
        decreases calls.len() - i,
    {
        assert(all[i as int] == calls@[i as int].deep_view());
        lines.push(
            HistoryLine {
                kind: LineKind::Tool,
                prefix: strs::cat3("tool ", calls[i].name.as_str(), "("),
                body: RowBody::Excerpt { text: calls[i].arguments.clone(), limit: 60 },
                suffix: ")",
            },
        );
        i += 1;
    }
    assert(lines.deep_view() =~= calls_told(all));
    lines
}

pub fn message_lines(message: &ContextMessage) -> (lines: Vec<HistoryLine>)
    ensures
        lines.deep_view() == message_told(message.deep_view()),
{
    match message {
        ContextMessage::User { parts } => part_lines(parts),
        ContextMessage::Assistant { content } => answer_lines(content.as_str()),
        ContextMessage::AssistantToolCalls { calls } => call_lines(calls),
        ContextMessage::ToolResult { outcome } => {
            let line = outcome_line(outcome);
            let mut lines: Vec<HistoryLine> = Vec::new();
            lines.push(line);
            assert(lines.deep_view() =~= seq![line.deep_view()]);
            lines
        },
    }
}

/// Tells one session's model-visible context.
pub fn history_lines(messages: &Vec<ContextMessage>) -> (lines: Vec<HistoryLine>)
    ensures
        lines.deep_view() == context_told(messages.deep_view()),
{
    let ghost all = messages.deep_view();
    let mut lines: Vec<HistoryLine> = Vec::new();
    let mut i: usize = 0;
    proof {
        assert(lines.deep_view() =~= context_told(all.take(0)));
    }
    while i < messages.len()
        invariant
            i <= messages.len(),
            all == messages.deep_view(),
            lines.deep_view() == context_told(all.take(i as int)),
        decreases messages.len() - i,
    {
        let ghost before = lines.deep_view();
        proof {
            assert(all.take(i as int + 1).drop_last() =~= all.take(i as int));
            assert(all.take(i as int + 1).last() == messages@[i as int].deep_view());
        }
        let mut more = message_lines(&messages[i]);
        let ghost added = more.deep_view();
        lines.append(&mut more);
        proof {
            assert(lines.deep_view() =~= before + added);
        }
        i += 1;
    }
    proof {
        assert(all.take(i as int) =~= all);
    }
    lines
}

/// The opening rows of a telling: where more follow than fit, the last place
/// shows a marker.
pub open spec fn opening_rows(texts: Seq<Seq<char>>, max_lines: usize) -> Seq<RowBodyView> {
    if texts.len() == 0 {
        seq![RowBodyView::Whole("(empty session)"@)]
    } else if texts.len() <= max_lines {
        Seq::new(texts.len(), |i: int| RowBodyView::Excerpt { text: texts[i], limit: 120 })
    } else {
        Seq::new(
            max_lines as nat,
            |i: int|
                if i == max_lines - 1 {
                    RowBodyView::Whole("..."@)
                } else {
                    RowBodyView::Excerpt { text: texts[i], limit: 120 }
                },
        )
    }
}

/// The condensed preview of a telling, its lines rendered as texts.
pub fn preview_lines(texts: &Vec<String>, max_lines: usize) -> (rows: Vec<RowBody>)
    ensures
        rows.deep_view() == opening_rows(texts.deep_view(), max_lines),
{
    let ghost all = texts.deep_view();
    let mut rows: Vec<RowBody> = Vec::new();
    if texts.len() == 0 {
        let row = RowBody::Whole("(empty session)".to_owned());
        rows.push(row);
        assert(rows.deep_view() =~= seq![row.deep_view()]);
        assert(all.len() == 0);
        return rows;
    }
    let cut = texts.len() > max_lines;
    let count = if cut {
        max_lines
    } else {
        texts.len()
    };
    let mut k: usize = 0;
    while k < count
        invariant
            k <= count <= texts.len(),
            cut == (texts@.len() > max_lines),
            count == (if cut {
                max_lines
            } else {
                texts@.len() as usize
            }),
            all == texts.deep_view(),
            all.len() > 0,
            rows.len() == k,
            forall|j: int|
                0 <= j < k ==> (#[trigger] rows@[j]).deep_view() == opening_rows(all, max_lines)[j],
        decreases count - k,
    {
        let row = if cut && k == max_lines - 1 {
            RowBody::Whole("...".to_owned())
        } else {
            RowBody::Excerpt { text: texts[k].clone(), limit: 120 }
        };
        rows.push(row);
        k += 1;
    }
    assert(rows.deep_view() =~= opening_rows(all, max_lines));
    rows
}

/// A context is told message by message: that of two stretches is that of the
/// first, then that of the second.
pub proof fn contexts_are_told_in_order(first: Seq<ContextView>, second: Seq<ContextView>)
    ensures
        context_told(first + second) == context_told(first) + context_told(second),
    decreases second.len(),
{
    if second.len() == 0 {
        assert(first + second =~= first);
        assert(context_told(first) + context_told(second) =~= context_told(first));
    } else {
        assert((first + second).drop_last() =~= first + second.drop_last());
        contexts_are_told_in_order(first, second.drop_last());
        assert(context_told(first + second) =~= context_told(first) + context_told(second));
    }
}

/// Every part of a message, every call and every line of an answer gets a line of
/// its own, in order; what was said and called is marked, an answer is told as it
/// is and reads back as it was.
pub proof fn messages_are_told_in_full(
    parts: Seq<PartView>,
    calls: Seq<CallView>,
    content: Seq<char>,
    i: int,
)
    ensures
        ({
            let told = message_told(ContextView::User { parts });
            &&& told.len() == parts.len()
            &&& 0 <= i < parts.len() ==> told[i].kind == LineKind::User && told[i].prefix == "> "@
            &&& 0 <= i < parts.len() && parts[i] is Text ==> told[i].body == (RowBodyView::Excerpt {
                text: parts[i]->Text_0,
                limit: 200,
            })
        }),
        ({
            let told = message_told(ContextView::AssistantToolCalls { calls });
            &&& told.len() == calls.len()
            &&& 0 <= i < calls.len() ==> told[i].kind == LineKind::Tool && told[i].prefix
                == "tool "@ + calls[i].name + "("@ && told[i].body == (RowBodyView::Excerpt {
                text: calls[i].arguments,
                limit: 60,
            }) && told[i].suffix == ")"@
        }),
        ({
            let told = message_told(ContextView::Assistant { content });
            &&& forall|k: int|
                0 <= k < told.len() ==> (#[trigger] told[k]).body is Whole && told[k].kind
                    == LineKind::Answer && told[k].prefix == ""@
            &&& join(told.map_values(|line: HistoryLineView| line.body->Whole_0), seq!['\n'])
                == content
        }),
{
    let told = message_told(ContextView::Assistant { content });
    strs::join_inverts_split(content, '\n');
    assert(told.map_values(|line: HistoryLineView| line.body->Whole_0) =~= split_on(content, '\n'));
}

/// A preview keeps to its number of rows: row by row it shows the texts in order,
/// the last row of a preview that cannot hold them all tells so, and one of
/// nothing says that there is nothing.
pub proof fn previews_keep_to_their_rows(texts: Seq<Seq<char>>, max_lines: usize, i: int)
    requires
        0 <= i < opening_rows(texts, max_lines).len(),
    ensures
        texts.len() > 0 ==> opening_rows(texts, max_lines).len() <= max_lines,
        0 < texts.len() <= max_lines ==> opening_rows(texts, max_lines).len() == texts.len(),
        texts.len() > max_lines ==> opening_rows(texts, max_lines).len() == max_lines || texts.len()
            == 0,
        texts.len() == 0 ==> opening_rows(texts, max_lines) == seq![
            RowBodyView::Whole("(empty session)"@),
        ],
        texts.len() > max_lines && i == max_lines - 1 ==> opening_rows(texts, max_lines)[i]
            == RowBodyView::Whole("..."@),
        texts.len() > 0 && (texts.len() <= max_lines || i < max_lines - 1) ==> opening_rows(
            texts,
            max_lines,
        )[i] == (RowBodyView::Excerpt { text: texts[i], limit: 120 }),
{
}

} // verus!
