//! Ephemeral projection of the operation currently occupying the agent.

use vstd::prelude::*;

use super::frontend::FrontendOperationEvent;
use super::text;
use super::text::{cell_width, last_rows, plain_upto, printable_ascii, truncated};
use crate::strs;
use crate::strs::{
    decimal, is_control, join, lines_of, lower_text, occurs, occurs_at, split_on, trim,
};

verus! {

#[derive(Clone, Copy, Debug, PartialEq, Eq, Structural)]
pub enum ActivityTone {
    Normal,
    Reasoning,
    Tool,
    Warning,
}

#[derive(Clone, Debug, PartialEq, Eq)]
pub struct ActivityView {
    pub text: String,
    pub tone: ActivityTone,
}

/// One tool that runs.
#[derive(Clone, Debug, PartialEq, Eq)]
pub struct RunningTool {
    pub name: String,
    pub arguments: String,
    pub index: usize,
    pub tail: String,
}

/// A [`RunningTool`] as a mathematical value.
pub struct RunningView {
    pub name: Seq<char>,
    pub arguments: Seq<char>,
    pub index: usize,
    pub tail: Seq<char>,
}

impl DeepView for RunningTool {
    type V = RunningView;

    open spec fn deep_view(&self) -> RunningView {
        RunningView {
            name: self.name@,
            arguments: self.arguments@,
            index: self.index,
            tail: self.tail@,
        }
    }
}

impl RunningTool {
    fn copy(&self) -> (tool: RunningTool)
        ensures
            tool.deep_view() == self.deep_view(),
    {
        RunningTool {
            name: self.name.clone(),
            arguments: self.arguments.clone(),
            index: self.index,
            tail: self.tail.clone(),
        }
    }
}

#[derive(Clone, Debug, PartialEq, Eq)]
pub enum ActivityKind {
    Waiting,
    Responding,
    Reasoning,
    Tool { running: Vec<RunningTool>, total: usize },
    Compacting,
    Cancelling(String),
}

/// An [`ActivityKind`] as a mathematical value.
pub enum KindView {
    Waiting,
    Responding,
    Reasoning,
    Tool { running: Seq<RunningView>, total: usize },
    Compacting,
    Cancelling(Seq<char>),
}

impl DeepView for ActivityKind {
    type V = KindView;

    open spec fn deep_view(&self) -> KindView {
        match self {
            ActivityKind::Waiting => KindView::Waiting,
            ActivityKind::Responding => KindView::Responding,
            ActivityKind::Reasoning => KindView::Reasoning,
            ActivityKind::Tool { running, total } => KindView::Tool {
                running: running.deep_view(),
                total: *total,
            },
            ActivityKind::Compacting => KindView::Compacting,
            ActivityKind::Cancelling(reason) => KindView::Cancelling(reason@),
        }
    }
}

/// The priority of an activity: a lower one never overrides a higher one.
pub open spec fn kind_rank(kind: KindView) -> u8 {
    match kind {
        KindView::Waiting | KindView::Responding => 1,
        KindView::Reasoning => 2,
        KindView::Tool { .. } => 3,
        KindView::Compacting => 4,
        KindView::Cancelling(_) => 5,
    }
}

impl ActivityKind {
    pub fn priority(&self) -> (level: u8)
        ensures
            level == kind_rank(self.deep_view()),
    {
        match self {
            ActivityKind::Waiting | ActivityKind::Responding => 1,
            ActivityKind::Reasoning => 2,
            ActivityKind::Tool { .. } => 3,
            ActivityKind::Compacting => 4,
            ActivityKind::Cancelling(_) => 5,
        }
    }
}

#[derive(Debug)]
pub struct ActivityState {
    pub current: Option<ActivityKind>,
    pub spinner: usize,
    pub tool_batch_size: usize,
}

/// An [`ActivityState`] as a mathematical value.
pub struct StateView {
    pub current: Option<KindView>,
    pub spinner: usize,
    pub batch: usize,
}

impl DeepView for ActivityState {
    type V = StateView;

    open spec fn deep_view(&self) -> StateView {
        StateView {
            current: self.current.deep_view(),
            spinner: self.spinner,
            batch: self.tool_batch_size,
        }
    }
}

// ---------------------------------------------------------------------------
// Cleaning live output
// ---------------------------------------------------------------------------

/// Where a character of terminal output stands.
#[derive(Clone, Copy, Debug, PartialEq, Eq, Structural)]
pub enum EscapeState {
    Plain,
    /// Right behind an escape character.
    Escaped,
    /// Inside a control sequence, up to its final letter.
    Sequence,
}

/// Text kept so far and where the next character stands.
pub struct AnsiView {
    pub out: Seq<char>,
    pub state: EscapeState,
}

pub open spec fn is_letter(c: char) -> bool {
    ('a' <= c <= 'z') || ('A' <= c <= 'Z')
}

/// One more character of terminal output: an escape character and the control
/// sequence it may introduce are dropped.
pub open spec fn ansi_step(before: AnsiView, c: char) -> AnsiView {
    if before.state == EscapeState::Sequence {
        AnsiView {
            out: before.out,
            state: if is_letter(c) {
                EscapeState::Plain
            } else {
                EscapeState::Sequence
            },
        }
    } else if before.state == EscapeState::Escaped && c == '[' {
        AnsiView { out: before.out, state: EscapeState::Sequence }
    } else if c == '\u{1b}' {
        AnsiView { out: before.out, state: EscapeState::Escaped }
    } else {
        AnsiView { out: before.out.push(c), state: EscapeState::Plain }
    }
}

pub open spec fn ansi(text: Seq<char>) -> AnsiView
    decreases text.len(),
{
    if text.len() == 0 {
        AnsiView { out: Seq::empty(), state: EscapeState::Plain }
    } else {
        ansi_step(ansi(text.drop_last()), text.last())
    }
}

/// The text without terminal control sequences.
pub fn strip_ansi(input: &str) -> (text: String)
    ensures
        text@ == ansi(input@).out,
{
    let chars = strs::chars_of(input);
    let mut text = String::new();
    let mut state = EscapeState::Plain;
    let mut i: usize = 0;
    while i < chars.len()
        invariant
            i <= chars.len(),
            chars@ == input@,
            text@ == ansi(chars@.take(i as int)).out,
            state == ansi(chars@.take(i as int)).state,
        decreases chars.len() - i,
    {
        let c = chars[i];
        proof {
            assert(chars@.take(i as int + 1).drop_last() =~= chars@.take(i as int));
        }
        if state == EscapeState::Sequence {
            if ('a' <= c && c <= 'z') || ('A' <= c && c <= 'Z') {
                state = EscapeState::Plain;
            }
        } else if state == EscapeState::Escaped && c == '[' {
            state = EscapeState::Sequence;
        } else if c == '\u{1b}' {
            state = EscapeState::Escaped;
        } else {
            text.push(c);
            state = EscapeState::Plain;
        }
        i += 1;
    }
    proof {
        assert(chars@.take(i as int) =~= input@);
    }
    text
}

/// Each line as its last carriage return leaves it.
pub open spec fn returned(text: Seq<char>) -> Seq<char> {
    let lines = split_on(text, '\n');
    join(Seq::new(lines.len(), |i: int| split_on(lines[i], '\r').last()), "\n"@)
}

pub fn apply_carriage_returns(input: &str) -> (text: String)
    ensures
        text@ == returned(input@),
{
    let lines = strs::split(input, '\n');
    let ghost all = lines.deep_view();
    let mut kept: Vec<String> = Vec::new();
    let mut i: usize = 0;
    while i < lines.len()
        invariant
            i <= lines.len(),
            all == lines.deep_view(),
            kept.len() == i,
            forall|k: int| 0 <= k < i ==> (#[trigger] kept@[k])@ == split_on(all[k], '\r').last(),
        decreases lines.len() - i,
    {
        let parts = strs::split(lines[i].as_str(), '\r');
        assert(parts.deep_view().last() == parts@[parts@.len() - 1]@);
        kept.push(parts[parts.len() - 1].clone());
        i += 1;
    }
    proof {
        assert(kept.deep_view() =~= Seq::new(
            all.len(),
            |i: int| split_on(all[i], '\r').last(),
        ));
    }
    strs::joined(&kept, "\n")
}

/// The text without control characters, line feeds and tabs excepted.
pub open spec fn uncontrolled(text: Seq<char>) -> Seq<char>
    decreases text.len(),
{
    if text.len() == 0 {
        Seq::empty()
    } else {
        let before = uncontrolled(text.drop_last());
        let c = text.last();
        if c == '\n' || c == '\t' || !is_control(c) {
            before.push(c)
        } else {
            before
        }
    }
}

pub fn strip_controls(input: &str) -> (text: String)
    ensures
        text@ == uncontrolled(input@),
{
    let chars = strs::chars_of(input);
    let mut text = String::new();
    let mut i: usize = 0;
    while i < chars.len()
        invariant
            i <= chars.len(),
            chars@ == input@,
            text@ == uncontrolled(chars@.take(i as int)),
        decreases chars.len() - i,
    {
        let c = chars[i];
        proof {
            assert(chars@.take(i as int + 1).drop_last() =~= chars@.take(i as int));
        }
        if c == '\n' || c == '\t' || !strs::control(c) {
            text.push(c);
        }
        i += 1;
    }
    proof {
        assert(chars@.take(i as int) =~= input@);
    }
    text
}

/// Live output as it is shown.
pub open spec fn cleaned(raw: Seq<char>) -> Seq<char> {
    uncontrolled(returned(ansi(raw).out))
}

pub fn sanitize_live_tail(raw: &str) -> (text: String)
    ensures
        text@ == cleaned(raw@),
{
    let plain = strip_ansi(raw);
    let settled = apply_carriage_returns(plain.as_str());
    strip_controls(settled.as_str())
}

/// The last line of live output, trimmed.
pub open spec fn live_line(tail: Seq<char>) -> Seq<char> {
    let lines = lines_of(tail);
    if lines.len() == 0 {
        trim(Seq::empty())
    } else {
        trim(lines.last())
    }
}

fn last_live_line(tail: &str) -> (line: String)
    ensures
        line@ == live_line(tail@),
{
    let lines = strs::lines(tail);
    if lines.len() == 0 {
        assert(lines.deep_view().len() == 0);
        return strs::trimmed(String::new().as_str());
    }
    assert(lines.deep_view().last() == lines@[lines@.len() - 1]@);
    strs::trimmed(lines[lines.len() - 1].as_str())
}

// ---------------------------------------------------------------------------
// Running tools
// ---------------------------------------------------------------------------

/// The tool of that index, or the number of tools.
pub open spec fn tool_at(running: Seq<RunningView>, index: usize) -> nat
    decreases running.len(),
{
    if running.len() == 0 || running[0].index == index {
        0
    } else {
        1 + tool_at(running.skip(1), index)
    }
}

/// The tools with a new one in its place by index.
pub open spec fn inserted(running: Seq<RunningView>, tool: RunningView) -> Seq<RunningView>
    decreases running.len(),
{
    if running.len() == 0 || running.last().index <= tool.index {
        running.push(tool)
    } else {
        inserted(running.drop_last(), tool).push(running.last())
    }
}

/// The tools with one that started: known ones keep their output.
pub open spec fn started(
    running: Seq<RunningView>,
    index: usize,
    name: Seq<char>,
    arguments: Seq<char>,
) -> Seq<RunningView> {
    let at = tool_at(running, index);
    if at < running.len() {
        running.update(at as int, RunningView { name, arguments, ..running[at as int] })
    } else {
        inserted(running, RunningView { name, arguments, index, tail: Seq::empty() })
    }
}

/// The tools without those of one index.
pub open spec fn finished(running: Seq<RunningView>, index: usize) -> Seq<RunningView>
    decreases running.len(),
{
    if running.len() == 0 {
        Seq::empty()
    } else {
        let before = finished(running.drop_last(), index);
        if running.last().index == index {
            before
        } else {
            before.push(running.last())
        }
    }
}

fn find_tool(running: &Vec<RunningTool>, index: usize) -> (at: usize)
    ensures
        at == tool_at(running.deep_view(), index),
        at <= running.len(),
{
    let ghost all = running.deep_view();
    let mut i: usize = 0;
    proof {
        assert(all.skip(0) =~= all);
    }
    while i < running.len() && running[i].index != index
        invariant
            i <= running.len(),
            all == running.deep_view(),
            tool_at(all, index) == i + tool_at(all.skip(i as int), index),
        decreases running.len() - i,
    {
        proof {
            assert(all.skip(i as int)[0] == all[i as int]);
            assert(all.skip(i as int).skip(1) =~= all.skip(i as int + 1));
        }
        i += 1;
    }
    proof {
        if i < running.len() {
            assert(all.skip(i as int)[0] == all[i as int]);
        } else {
            assert(all.skip(i as int) =~= Seq::<RunningView>::empty());
        }
    }
    i
}

fn start_tool(running: &mut Vec<RunningTool>, index: usize, name: &str, arguments: &str)
    ensures
        final(running).deep_view() == started(
            old(running).deep_view(),
            index,
            name@,
            arguments@,
        ),
{
    let ghost all = running.deep_view();
    let at = find_tool(running, index);
    if at < running.len() {
        let tail = running[at].tail.clone();
        assert(all[at as int] == running@[at as int].deep_view());
        let place = running[at].index;
        running.set(
            at,
            RunningTool {
                name: name.to_owned(),
                arguments: arguments.to_owned(),
                index: place,
                tail,
            },
        );
        proof {
            assert(running.deep_view() =~= started(all, index, name@, arguments@));
        }
        return ;
    }
    let tool = RunningTool {
        name: name.to_owned(),
        arguments: arguments.to_owned(),
        index,
        tail: String::new(),
    };
    let ghost new = tool.deep_view();
    let mut place: usize = running.len();
    proof {
        assert(all.take(place as int) =~= all);
        assert(inserted(all.take(place as int), new) + all.skip(place as int) =~= inserted(
            all,
            new,
        ));
    }
    while place > 0 && running[place - 1].index > index
        invariant
            place <= running.len(),
            all == running.deep_view(),
            new.index == index,
            inserted(all.take(place as int), new) + all.skip(place as int) == inserted(all, new),
        decreases place,
    {
        proof {
            let part = all.take(place as int);
            assert(part.last() == all[place - 1]);
            assert(part.drop_last() =~= all.take(place - 1));
            assert(inserted(part, new) == inserted(all.take(place - 1), new).push(part.last()));
            assert(inserted(all.take(place - 1), new).push(part.last()) + all.skip(place as int)
                =~= inserted(all.take(place - 1), new) + all.skip(place - 1));
        }
        place -= 1;
    }
    proof {
        let part = all.take(place as int);
        if place > 0 {
            assert(part.last() == all[place - 1]);
        }
        assert(inserted(part, new) == part.push(new));
    }
    running.insert(place, tool);
    proof {
        assert(running.deep_view() =~= all.take(place as int).push(new) + all.skip(place as int));
    }
}

fn copy_without(running: &Vec<RunningTool>, index: usize) -> (rest: Vec<RunningTool>)
    ensures
        rest.deep_view() == finished(running.deep_view(), index),
{
    let ghost all = running.deep_view();
    let mut rest: Vec<RunningTool> = Vec::new();
    let mut i: usize = 0;
    proof {
        assert(rest.deep_view() =~= finished(all.take(0), index));
    }
    while i < running.len()
        invariant
            i <= running.len(),
            all == running.deep_view(),
            rest.deep_view() == finished(all.take(i as int), index),
        decreases running.len() - i,
    {
        let ghost before = rest.deep_view();
        proof {
            assert(all.take(i as int + 1).drop_last() =~= all.take(i as int));
            assert(all.take(i as int + 1).last() == all[i as int]);
        }
        if running[i].index != index {
            let tool = running[i].copy();
            rest.push(tool);
            proof {
                assert(rest.deep_view() =~= before.push(tool.deep_view()));
            }
        }
        i += 1;
    }
    proof {
        assert(all.take(i as int) =~= all);
    }
    rest
}

// ---------------------------------------------------------------------------
// The state machine
// ---------------------------------------------------------------------------

/// Nothing occupies the agent.
pub open spec fn quiet() -> StateView {
    StateView { current: None, spinner: 0, batch: 0 }
}

pub open spec fn replaced(state: StateView, next: KindView) -> StateView {
    StateView { current: Some(next), ..state }
}

/// The state with a new activity, unless a higher one owns it.
pub open spec fn raised(state: StateView, next: KindView) -> StateView {
    if state.current is Some && kind_rank(state.current->0) > kind_rank(next) {
        state
    } else {
        replaced(state, next)
    }
}

/// The tools that run.
pub open spec fn running_of(state: StateView) -> Seq<RunningView> {
    match state.current {
        Some(KindView::Tool { running, .. }) => running,
        _ => Seq::empty(),
    }
}

/// The effect of one event.
pub open spec fn activity_step(state: StateView, event: FrontendOperationEvent) -> StateView {
    match event {
        FrontendOperationEvent::OperationQueued { .. }
        | FrontendOperationEvent::OperationStarted { .. }
        | FrontendOperationEvent::TurnStarted { .. }
        | FrontendOperationEvent::ModelCallStarted { .. }
        | FrontendOperationEvent::ModelResponseStarted { .. }
        | FrontendOperationEvent::AssistantMessageCompleted { .. } => raised(
            state,
            KindView::Waiting,
        ),
        FrontendOperationEvent::ReasoningDelta { .. } => raised(state, KindView::Reasoning),
        FrontendOperationEvent::TextDelta { .. } => raised(state, KindView::Responding),
        FrontendOperationEvent::ToolBatchRequested { call_count, .. } => raised(
            StateView { batch: call_count, ..state },
            KindView::Waiting,
        ),
        FrontendOperationEvent::ToolExecutionStarted { index, tool_name, arguments, .. } => raised(
            state,
            KindView::Tool {
                running: started(running_of(state), index, tool_name@, arguments@),
                total: state.batch,
            },
        ),
        FrontendOperationEvent::ToolExecutionProgress { index, tail, .. } => match state.current {
            Some(KindView::Tool { running, total }) => {
                let at = tool_at(running, index);
                if at < running.len() {
                    replaced(
                        state,
                        KindView::Tool {
                            running: running.update(
                                at as int,
                                RunningView { tail: cleaned(tail@), ..running[at as int] },
                            ),
                            total,
                        },
                    )
                } else {
                    state
                }
            },
            _ => state,
        },
        FrontendOperationEvent::ToolExecutionCompleted { index, .. } => match state.current {
            Some(KindView::Tool { running, total }) => {
                let rest = finished(running, index);
                if rest.len() == 0 {
                    replaced(state, KindView::Waiting)
                } else {
                    replaced(state, KindView::Tool { running: rest, total })
                }
            },
            _ => state,
        },
        FrontendOperationEvent::ContextCompactionCompleted { .. }
        | FrontendOperationEvent::ContextCompactionFailed { .. } => if state.current == Some(
            KindView::Compacting,
        ) {
            replaced(state, KindView::Waiting)
        } else {
            state
        },
        FrontendOperationEvent::ContextCompactionStarted => raised(state, KindView::Compacting),
        FrontendOperationEvent::CancellationRequested { reason, .. }
        | FrontendOperationEvent::TurnCancelled { reason, .. } => replaced(
            state,
            KindView::Cancelling(reason@),
        ),
        FrontendOperationEvent::TurnFailed { .. }
        | FrontendOperationEvent::OperationSettled { .. } => quiet(),
        FrontendOperationEvent::ModelRetryScheduled { .. }
        | FrontendOperationEvent::ModelUsageUpdated { .. }
        | FrontendOperationEvent::PriorTurnSealed { .. } => state,
    }
}

/// The label of an activity.
pub open spec fn kind_label(kind: KindView) -> Seq<char> {
    match kind {
        KindView::Waiting => "wait"@,
        KindView::Responding => "write"@,
        KindView::Reasoning => "think"@,
        KindView::Tool { running, total } => if running.len() == 1 {
            "tool  "@ + running[0].name
        } else {
            let reached = if running.len() == 0 {
                0nat
            } else {
                (running.last().index + 1) as nat
            };
            let count = if reached > total {
                reached
            } else {
                total as nat
            };
            "tools  "@ + decimal(running.len()) + "/"@ + decimal(count)
        },
        KindView::Compacting => "compact"@,
        KindView::Cancelling(reason) => "cancel  "@ + lower_text(reason),
    }
}

pub open spec fn kind_tone(kind: KindView) -> ActivityTone {
    match kind {
        KindView::Reasoning => ActivityTone::Reasoning,
        KindView::Tool { .. } => ActivityTone::Tool,
        KindView::Cancelling(_) => ActivityTone::Warning,
        _ => ActivityTone::Normal,
    }
}

/// The spinner character of a frame.
pub open spec fn frame_text(spinner: usize) -> Seq<char> {
    if spinner == 0 {
        "|"@
    } else if spinner == 1 {
        "/"@
    } else if spinner == 2 {
        "-"@
    } else {
        "\\"@
    }
}

/// The live-timeline row of the running tools, their compact arguments given.
pub open spec fn timeline(running: Seq<RunningView>, args: Seq<Seq<char>>) -> Seq<char> {
    if running.len() == 1 {
        let tool = running[0];
        let line = live_line(tool.tail);
        if line.len() > 0 {
            tool.name + "  "@ + line
        } else if args[0].len() == 0 {
            tool.name
        } else {
            tool.name + "  "@ + args[0]
        }
    } else {
        join(Seq::new(running.len(), |i: int| running[i].name), ", "@)
    }
}

/// The detail rows of the tools from `i` on, behind the rows so far.
pub open spec fn details_from(
    running: Seq<RunningView>,
    args: Seq<Seq<char>>,
    i: int,
    rows: Seq<Seq<char>>,
    width: nat,
    height: nat,
    tail_lines: nat,
) -> Seq<Seq<char>>
    decreases running.len() - i,
{
    if i < 0 || i >= running.len() {
        rows
    } else {
        let tool = running[i];
        let head = if running.len() == 1 {
            truncated(args[i], width)
        } else {
            truncated(
                decimal(tool.index as nat + 1) + "  "@ + tool.name + "  "@ + args[i],
                width,
            )
        };
        let headed = rows.push(head);
        if headed.len() >= height {
            headed
        } else {
            let room = (height - headed.len()) as nat;
            let tailed = if tail_lines > 0 && tool.tail.len() > 0 {
                headed + last_rows(
                    tool.tail,
                    width,
                    if tail_lines < room {
                        tail_lines
                    } else {
                        room
                    },
                )
            } else {
                headed
            };
            if tailed.len() >= height {
                tailed
            } else {
                details_from(running, args, i + 1, tailed, width, height, tail_lines)
            }
        }
    }
}

impl ActivityState {
    /// The spinner shows one of its four frames.
    pub open spec fn wf(&self) -> bool {
        self.spinner < 4
    }

    pub fn new() -> (state: ActivityState)
        ensures
            state.wf(),
            state.deep_view() == quiet(),
    {
        ActivityState { current: None, spinner: 0, tool_batch_size: 0 }
    }

    pub fn is_active(&self) -> (yes: bool)
        ensures
            yes == (self.deep_view().current is Some),
    {
        self.current.is_some()
    }

    pub fn clear(&mut self)
        ensures
            final(self).wf(),
            final(self).deep_view() == quiet(),
    {
        self.current = None;
        self.spinner = 0;
        self.tool_batch_size = 0;
    }

    pub fn wait_for_model(&mut self)
        requires
            old(self).wf(),
        ensures
            final(self).wf(),
            final(self).deep_view() == raised(old(self).deep_view(), KindView::Waiting),
    {
        self.set(ActivityKind::Waiting);
    }

    /// One live-timeline row for the current tool batch, the compact arguments
    /// of its tools given.
    pub fn timeline_row(&self, width: usize, args: &Vec<String>) -> (row: Option<String>)
        requires
            args@.len() == running_of(self.deep_view()).len(),
        ensures
            row.deep_view() == (if self.deep_view().current is Some && self.deep_view().current->0 is Tool {
                Some(truncated(timeline(running_of(self.deep_view()), args.deep_view()), width as nat))
            } else {
                None
            }),
    {
        let running = match &self.current {
            Some(ActivityKind::Tool { running, .. }) => running,
            _ => return None,
        };
        let ghost all = running.deep_view();
        let ghost given = args.deep_view();
        assert(all == running_of(self.deep_view()));
        let row = if running.len() == 1 {
            let tool = &running[0];
            assert(all[0] == tool.deep_view());
            assert(given[0] == args@[0]@);
            let last = last_live_line(tool.tail.as_str());
            if !last.as_str().is_empty() {
                strs::cat3(tool.name.as_str(), "  ", last.as_str())
            } else if args[0].as_str().is_empty() {
                tool.name.clone()
            } else {
                strs::cat3(tool.name.as_str(), "  ", args[0].as_str())
            }
        } else {
            let mut names: Vec<String> = Vec::new();
            let mut i: usize = 0;
            while i < running.len()
                invariant
                    i <= running.len(),
                    all == running.deep_view(),
                    names.len() == i,
                    forall|k: int| 0 <= k < i ==> (#[trigger] names@[k])@ == all[k].name,
                decreases running.len() - i,
            {
                names.push(running[i].name.clone());
                i += 1;
            }
            proof {
                assert(names.deep_view() =~= Seq::new(all.len(), |i: int| all[i].name));
            }
            strs::joined(&names, ", ")
        };
        Some(text::truncate(row.as_str(), width))
    }

    /// Extra rows for the live band: tool arguments, parallel call names and the
    /// ends of their output.
    pub fn detail_rows(
        &self,
        width: usize,
        height: usize,
        tail_lines: usize,
        args: &Vec<String>,
    ) -> (rows: Vec<String>)
        requires
            args@.len() == running_of(self.deep_view()).len(),
        ensures
            rows.deep_view() == (if height == 0 || width == 0 {
                Seq::empty()
            } else {
                details_from(
                    running_of(self.deep_view()),
                    args.deep_view(),
                    0,
                    Seq::empty(),
                    width as nat,
                    height as nat,
                    tail_lines as nat,
                )
            }),
    {
        let mut rows: Vec<String> = Vec::new();
        proof {
            assert(rows.deep_view() =~= Seq::<Seq<char>>::empty());
        }
        if height == 0 || width == 0 {
            return rows;
        }
        let running = match &self.current {
            Some(ActivityKind::Tool { running, .. }) => running,
            _ => {
                assert(running_of(self.deep_view()).len() == 0);
                return rows;
            },
        };
        let ghost all = running.deep_view();
        let ghost given = args.deep_view();
        assert(all == running_of(self.deep_view()));
        let ghost expected = details_from(
            all,
            given,
            0,
            Seq::empty(),
            width as nat,
            height as nat,
            tail_lines as nat,
        );
        let mut i: usize = 0;
        while i < running.len()
            invariant
                i <= running.len(),
                height > 0,
                width > 0,
                all == running.deep_view(),
                all == running_of(self.deep_view()),
                given == args.deep_view(),
                args@.len() == running@.len(),
                expected == details_from(
                    all,
                    given,
                    0,
                    Seq::empty(),
                    width as nat,
                    height as nat,
                    tail_lines as nat,
                ),
                rows.len() < height,
                details_from(
                    all,
                    given,
                    i as int,
                    rows.deep_view(),
                    width as nat,
                    height as nat,
                    tail_lines as nat,
                ) == expected,
            decreases running.len() - i,
        {
            let tool = &running[i];
            assert(all[i as int] == tool.deep_view());
            assert(given[i as int] == args@[i as int]@);
            let ghost before = rows.deep_view();
            let head = if running.len() == 1 {
                text::truncate(args[i].as_str(), width)
            } else {
                let mut row = strs::cat3(
                    strs::numeral(tool.index as u128 + 1).as_str(),
                    "  ",
                    tool.name.as_str(),
                );
                row.push_str("  ");
                row.push_str(args[i].as_str());
                text::truncate(row.as_str(), width)
            };
            rows.push(head);
            let ghost headed = rows.deep_view();
            proof {
                assert(headed =~= before.push(head@));
            }
            if rows.len() >= height {
                return rows;
            }
            if tail_lines > 0 && !tool.tail.as_str().is_empty() {
                let room: usize = height - rows.len();
                let take = if tail_lines < room {
                    tail_lines
                } else {
                    room
                };
                let mut more = text::tail_rows(tool.tail.as_str(), width, take);
                let ghost added = more.deep_view();
                rows.append(&mut more);
                proof {
                    assert(rows.deep_view() =~= headed + added);
                }
            }
            if rows.len() >= height {
                return rows;
            }
            i += 1;
        }
        rows
    }

    pub fn start_manual_compaction(&mut self)
        requires
            old(self).wf(),
        ensures
            final(self).wf(),
            final(self).deep_view() == replaced(old(self).deep_view(), KindView::Compacting),
    {
        self.current = Some(ActivityKind::Compacting);
    }

    pub fn finish_manual_compaction(&mut self)
        requires
            old(self).wf(),
        ensures
            final(self).wf(),
            final(self).deep_view() == (if old(self).deep_view().current == Some(KindView::Compacting) {
                quiet()
            } else {
                old(self).deep_view()
            }),
    {
        if let Some(ActivityKind::Compacting) = self.current {
            self.clear();
        }
    }

    pub fn advance_spinner(&mut self)
        requires
            old(self).wf(),
        ensures
            final(self).wf(),
            final(self).deep_view() == (if old(self).deep_view().current is Some {
                StateView { spinner: ((old(self).deep_view().spinner + 1) % 4) as usize, ..old(self).deep_view() }
            } else {
                old(self).deep_view()
            }),
    {
        if self.current.is_some() {
            self.spinner = (self.spinner + 1) % 4;
        }
    }

    /// The row that names the activity.
    pub fn view(&self, max_width: usize) -> (view: Option<ActivityView>)
        requires
            self.wf(),
        ensures
            match view {
                Some(view) => {
                    let row = frame_text(self.deep_view().spinner) + " "@ + kind_label(
                        self.deep_view().current->0,
                    );
                    &&& self.deep_view().current is Some
                    &&& view.tone == kind_tone(self.deep_view().current->0)
                    &&& view.text@ == truncated(row, max_width as nat)
                    &&& printable_ascii(row) && row.len() <= max_width ==> view.text@ == row
                    &&& self.deep_view().current->0 is Cancelling && max_width >= 11 ==> occurs(
                        view.text@,
                        "cancel"@,
                    )
                },
                None => self.deep_view().current is None,
            },
    {
        let kind = match &self.current {
            Some(kind) => kind,
            None => return None,
        };
        let (label, tone) = match kind {
            ActivityKind::Waiting => ("wait".to_owned(), ActivityTone::Normal),
            ActivityKind::Responding => ("write".to_owned(), ActivityTone::Normal),
            ActivityKind::Reasoning => ("think".to_owned(), ActivityTone::Reasoning),
            ActivityKind::Tool { running, total } => {
                let ghost all = running.deep_view();
                assert(all.len() == running@.len());
                let label = if running.len() == 1 {
                    assert(all[0] == running@[0].deep_view());
                    strs::cat("tool  ", running[0].name.as_str())
                } else {
                    let reached: u128 = if running.len() == 0 {
                        0
                    } else {
                        assert(all.last() == running@[running@.len() - 1].deep_view());
                        running[running.len() - 1].index as u128 + 1
                    };
                    let count: u128 = if reached > *total as u128 {
                        reached
                    } else {
                        *total as u128
                    };
                    let mut label = strs::cat3(
                        "tools  ",
                        strs::number(running.len() as u64).as_str(),
                        "/",
                    );
                    label.push_str(strs::numeral(count).as_str());
                    label
                };
                (label, ActivityTone::Tool)
            },
            ActivityKind::Compacting => ("compact".to_owned(), ActivityTone::Normal),
            ActivityKind::Cancelling(reason) => (
                strs::cat("cancel  ", strs::lowercased(reason.as_str()).as_str()),
                ActivityTone::Warning,
            ),
        };
        let spinner = if self.spinner == 0 {
            "|"
        } else if self.spinner == 1 {
            "/"
        } else if self.spinner == 2 {
            "-"
        } else {
            "\\"
        };
        let row = strs::cat3(spinner, " ", label.as_str());
        proof {
            if self.deep_view().current->0 is Cancelling {
                let kind = self.deep_view().current->0;
                cancel_stands_first(row@, self.deep_view().spinner, kind);
            }
        }
        Some(ActivityView { text: text::truncate(row.as_str(), max_width), tone })
    }

    /// A copy of the running tools.
    fn running_tools(&self) -> (running: Vec<RunningTool>)
        ensures
            running.deep_view() == running_of(self.deep_view()),
    {
        let mut copies: Vec<RunningTool> = Vec::new();
        if let Some(ActivityKind::Tool { running, .. }) = &self.current {
            let mut i: usize = 0;
            while i < running.len()
                invariant
                    i <= running.len(),
                    copies.len() == i,
                    forall|k: int|
                        0 <= k < i ==> (#[trigger] copies@[k]).deep_view()
                            == running@[k].deep_view(),
                decreases running.len() - i,
            {
                copies.push(running[i].copy());
                i += 1;
            }
            proof {
                assert(copies.deep_view() =~= running.deep_view());
            }
        } else {
            proof {
                assert(copies.deep_view() =~= Seq::<RunningView>::empty());
            }
        }
        copies
    }

    /// Applies one event.
    pub fn on_event(&mut self, event: &FrontendOperationEvent)
        requires
            old(self).wf(),
        ensures
            final(self).wf(),
            final(self).deep_view() == activity_step(old(self).deep_view(), *event),
    {
        match event {
            FrontendOperationEvent::OperationQueued { .. }
            | FrontendOperationEvent::OperationStarted { .. }
            | FrontendOperationEvent::TurnStarted { .. }
            | FrontendOperationEvent::ModelCallStarted { .. }
            | FrontendOperationEvent::ModelResponseStarted { .. }
            | FrontendOperationEvent::AssistantMessageCompleted { .. } => self.wait_for_model(),
            FrontendOperationEvent::ReasoningDelta { .. } => self.set(ActivityKind::Reasoning),
            FrontendOperationEvent::TextDelta { .. } => self.set(ActivityKind::Responding),
            FrontendOperationEvent::ToolBatchRequested { call_count, .. } => {
                self.tool_batch_size = *call_count;
                self.set(ActivityKind::Waiting);
            },
            FrontendOperationEvent::ToolExecutionStarted { index, tool_name, arguments, .. } => {
                let mut running = self.running_tools();
                start_tool(&mut running, *index, tool_name.as_str(), arguments.as_str());
                let total = self.tool_batch_size;
                self.set(ActivityKind::Tool { running, total });
            },
            FrontendOperationEvent::ToolExecutionProgress { index, tail, .. } => {
                self.note_progress(*index, tail.as_str());
            },
            FrontendOperationEvent::ToolExecutionCompleted { index, .. } => {
                let next = match &self.current {
                    Some(ActivityKind::Tool { running, total }) => {
                        let rest = copy_without(running, *index);
                        assert(rest.deep_view().len() == rest@.len());
                        if rest.len() == 0 {
                            Some(ActivityKind::Waiting)
                        } else {
                            Some(ActivityKind::Tool { running: rest, total: *total })
                        }
                    },
                    _ => None,
                };
                if next.is_some() {
                    self.current = next;
                }
            },
            FrontendOperationEvent::ContextCompactionCompleted { .. }
            | FrontendOperationEvent::ContextCompactionFailed { .. } => {
                if let Some(ActivityKind::Compacting) = self.current {
                    self.current = Some(ActivityKind::Waiting);
                }
            },
            FrontendOperationEvent::ContextCompactionStarted => self.set(ActivityKind::Compacting),
            FrontendOperationEvent::CancellationRequested { reason, .. }
            | FrontendOperationEvent::TurnCancelled { reason, .. } => {
                self.current = Some(ActivityKind::Cancelling(reason.clone()));
            },
            FrontendOperationEvent::TurnFailed { .. }
            | FrontendOperationEvent::OperationSettled { .. } => self.clear(),
            FrontendOperationEvent::ModelRetryScheduled { .. }
            | FrontendOperationEvent::ModelUsageUpdated { .. }
            | FrontendOperationEvent::PriorTurnSealed { .. } => {},
        }
    }

    /// Sets the live output of a running tool.
    fn note_progress(&mut self, index: usize, tail: &str)
        requires
            old(self).wf(),
        ensures
            final(self).wf(),
            final(self).deep_view() == (match old(self).deep_view().current {
                Some(KindView::Tool { running, total }) => {
                    let at = tool_at(running, index);
                    if at < running.len() {
                        replaced(
                            old(self).deep_view(),
                            KindView::Tool {
                                running: running.update(
                                    at as int,
                                    RunningView { tail: cleaned(tail@), ..running[at as int] },
                                ),
                                total,
                            },
                        )
                    } else {
                        old(self).deep_view()
                    }
                },
                _ => old(self).deep_view(),
            }),
    {
        let is_tool = match &self.current {
            Some(ActivityKind::Tool { .. }) => true,
            _ => false,
        };
        if !is_tool {
            return ;
        }
        let mut running = self.running_tools();
        let ghost all = running.deep_view();
        let at = find_tool(&running, index);
        if at < running.len() {
            let tool = &running[at];
            assert(all[at as int] == tool.deep_view());
            let fresh = RunningTool {
                name: tool.name.clone(),
                arguments: tool.arguments.clone(),
                index: tool.index,
                tail: sanitize_live_tail(tail),
            };
            running.set(at, fresh);
            proof {
                assert(running.deep_view() =~= all.update(at as int, fresh.deep_view()));
            }
            let total = match &self.current {
                Some(ActivityKind::Tool { total, .. }) => *total,
                _ => 0,
            };
            self.current = Some(ActivityKind::Tool { running, total });
        } else {
            assert(all.len() == running@.len());
        }
    }

    fn set(&mut self, next: ActivityKind)
        requires
            old(self).wf(),
        ensures
            final(self).wf(),
            final(self).deep_view() == raised(old(self).deep_view(), next.deep_view()),
    {
        let keep = match &self.current {
            Some(current) => current.priority() > next.priority(),
            None => false,
        };
        if !keep {
            self.current = Some(next);
        }
    }
}

impl Default for ActivityState {
    fn default() -> (state: ActivityState)
        ensures
            state.wf(),
            state.deep_view() == quiet(),
    {
        ActivityState::new()
    }
}

// ---------------------------------------------------------------------------
// Laws
// ---------------------------------------------------------------------------

/// Cancellation cannot be overwritten: until the turn ends, only another
/// cancellation changes what is shown.
pub proof fn cancellation_is_sticky(state: StateView, event: FrontendOperationEvent)
    requires
        state.current is Some,
        state.current->0 is Cancelling,
        !(event is TurnFailed || event is OperationSettled),
    ensures
        activity_step(state, event).current is Some,
        activity_step(state, event).current->0 is Cancelling,
        !(event is CancellationRequested || event is TurnCancelled) ==> activity_step(
            state,
            event,
        ).current == state.current,
{
}

/// Only the end of the turn ends an activity.
pub proof fn activity_lasts_until_the_end(state: StateView, event: FrontendOperationEvent)
    requires
        state.current is Some,
        !(event is TurnFailed || event is OperationSettled),
    ensures
        activity_step(state, event).current is Some,
{
}

/// The state after a run of events.
pub open spec fn activity_after(
    state: StateView,
    events: Seq<FrontendOperationEvent>,
) -> StateView
    decreases events.len(),
{
    if events.len() == 0 {
        state
    } else {
        activity_step(activity_after(state, events.drop_last()), events.last())
    }
}

/// What a turn shows from the request to cancel it until it ends, whatever else
/// happens: a warning that says so. The word is there wherever the row fits the
/// width, and in whatever begins like the row, as a row does that is truncated to
/// eleven cells or more.
pub proof fn cancelled_turn_says_so(
    state: StateView,
    request: FrontendOperationEvent,
    events: Seq<FrontendOperationEvent>,
    max: nat,
)
    requires
        request is CancellationRequested,
        forall|i: int|
            0 <= i < events.len() ==> !((#[trigger] events[i]) is TurnFailed || events[i]
                is OperationSettled),
    ensures
        ({
            let after = activity_after(activity_step(state, request), events);
            let row = frame_text(after.spinner) + " "@ + kind_label(after.current->0);
            &&& after.current is Some
            &&& after.current->0 is Cancelling
            &&& kind_tone(after.current->0) == ActivityTone::Warning
            &&& occurs(row, "cancel"@)
            &&& cell_width(row) <= max ==> occurs(truncated(row, max), "cancel"@)
            &&& plain_upto(row, 8)
            &&& forall|text: Seq<char>|
                8 <= text.len() && #[trigger] text.take(8) == row.take(8) ==> occurs(
                    text,
                    "cancel"@,
                )
        }),
    decreases events.len(),
{
    let after = activity_after(activity_step(state, request), events);
    if events.len() > 0 {
        let before = events.drop_last();
        assert forall|i: int| 0 <= i < before.len() implies !((#[trigger] before[i]) is TurnFailed
            || before[i] is OperationSettled) by {
            assert(before[i] == events[i]);
        }
        cancelled_turn_says_so(state, request, before, max);
        assert(!(events[events.len() - 1] is TurnFailed));
        cancellation_is_sticky(
            activity_after(activity_step(state, request), before),
            events.last(),
        );
    }
    let row = frame_text(after.spinner) + " "@ + kind_label(after.current->0);
    cancel_stands_first(row, after.spinner, after.current->0);
}

/// The row of a cancelled turn begins with the spinner and the word, all of it
/// plain, so that the word is there in what is left of the row when it is cut.
proof fn cancel_stands_first(row: Seq<char>, spinner: usize, kind: KindView)
    requires
        kind is Cancelling,
        row == frame_text(spinner) + " "@ + kind_label(kind),
    ensures
        plain_upto(row, 8),
        forall|text: Seq<char>|
            8 <= text.len() && #[trigger] text.take(8) == row.take(8) ==> occurs(
                text,
                "cancel"@,
            ),
        occurs(row, "cancel"@),
{
    reveal_strlit("|");
    reveal_strlit("/");
    reveal_strlit("-");
    reveal_strlit("\\");
    reveal_strlit(" ");
    reveal_strlit("cancel");
    reveal_strlit("cancel  ");
    let lead = frame_text(spinner) + " "@;
    assert(lead.len() == 2);
    assert forall|i: int| 0 <= i < 8 implies row[i + 2] == #[trigger] "cancel  "@[i] by {
        assert(row[i + 2] == kind_label(kind)[i]);
    }
    assert(row[2] == "cancel  "@[0]);
    assert(row[3] == "cancel  "@[1]);
    assert(row[4] == "cancel  "@[2]);
    assert(row[5] == "cancel  "@[3]);
    assert(row[6] == "cancel  "@[4]);
    assert(row[7] == "cancel  "@[5]);
    assert(row[8] == "cancel  "@[6]);
    assert(row[0] == frame_text(spinner)[0]);
    assert(row[1] == ' ');
    assert forall|text: Seq<char>|
        8 <= text.len() && #[trigger] text.take(8) == row.take(8) implies occurs(
        text,
        "cancel"@,
    ) by {
        assert forall|i: int| 0 <= i < 8 implies text[i] == row[i] by {
            assert(text.take(8)[i] == row.take(8)[i]);
        }
        assert(text.subrange(2, 8) =~= "cancel"@);
        assert(occurs_at(text, "cancel"@, 2));
    }
    assert(row.take(8) == row.take(8));
}

/// The tools stay in the order of their indices.
pub proof fn tools_stay_ordered(running: Seq<RunningView>, tool: RunningView)
    requires
        forall|i: int, j: int|
            0 <= i < j < running.len() ==> (#[trigger] running[i]).index <= (
            #[trigger] running[j]).index,
    ensures
        inserted(running, tool).len() == running.len() + 1,
        forall|i: int, j: int|
            0 <= i < j < inserted(running, tool).len() ==> (#[trigger] inserted(
                running,
                tool,
            )[i]).index <= (#[trigger] inserted(running, tool)[j]).index,
        forall|i: int|
            0 <= i < inserted(running, tool).len() ==> (#[trigger] inserted(
                running,
                tool,
            )[i]).index == tool.index || exists|k: int|
                0 <= k < running.len() && running[k].index == inserted(running, tool)[i].index,
    decreases running.len(),
{
    let all = inserted(running, tool);
    if running.len() == 0 {
    } else if running.last().index <= tool.index {
        assert forall|i: int, j: int| 0 <= i < j < all.len() implies (#[trigger] all[i]).index <= (
        #[trigger] all[j]).index by {
            assert(all[i] == running[i]);
            if j < running.len() {
                assert(all[j] == running[j]);
            } else if i < running.len() - 1 {
                assert(running[i].index <= running[running.len() - 1].index);
            }
        }
        assert forall|i: int| 0 <= i < all.len() implies (#[trigger] all[i]).index == tool.index
            || exists|k: int|
            0 <= k < running.len() && running[k].index == all[i].index by {
            if i < running.len() {
                assert(running[i].index == all[i].index);
            }
        }
    } else {
        let rest = running.drop_last();
        assert forall|i: int, j: int| 0 <= i < j < rest.len() implies (#[trigger] rest[i]).index
            <= (#[trigger] rest[j]).index by {
            assert(running[i].index <= running[j].index);
        }
        tools_stay_ordered(rest, tool);
        let inner = inserted(rest, tool);
        assert forall|i: int, j: int| 0 <= i < j < all.len() implies (#[trigger] all[i]).index <= (
        #[trigger] all[j]).index by {
            assert(all[i] == inner[i]);
            if j < inner.len() {
                assert(all[j] == inner[j]);
            } else {
                assert(all[j] == running.last());
                if inner[i].index != tool.index {
                    let k = choose|k: int|
                        0 <= k < rest.len() && rest[k].index == inner[i].index;
                    assert(running[k].index <= running[running.len() - 1].index);
                }
            }
        }
        assert forall|i: int| 0 <= i < all.len() implies (#[trigger] all[i]).index == tool.index
            || exists|k: int|
            0 <= k < running.len() && running[k].index == all[i].index by {
            if i < inner.len() {
                assert(all[i] == inner[i]);
                if inner[i].index != tool.index {
                    let k = choose|k: int|
                        0 <= k < rest.len() && rest[k].index == inner[i].index;
                    assert(running[k].index == all[i].index);
                }
            } else {
                assert(running[running.len() - 1].index == all[i].index);
            }
        }
    }
}

/// Output without control characters, line breaks and tabs aside, is shown as it
/// is.
pub proof fn clean_output_is_kept(text: Seq<char>)
    requires
        forall|i: int|
            0 <= i < text.len() ==> #[trigger] text[i] == '\n' || text[i] == '\t' || !is_control(
                text[i],
            ),
    ensures
        cleaned(text) == text,
{
    reveal_strlit("\n");
    plain_text_passes(text);
    assert("\n"@ =~= seq!['\n']);
    let lines = split_on(text, '\n');
    assert(!text.contains('\r'));
    strs::join_inverts_split(text, '\n');
    parts_hold_no_return(text);
    let shown = Seq::new(lines.len(), |i: int| split_on(lines[i], '\r').last());
    assert forall|i: int| 0 <= i < lines.len() implies shown[i] == lines[i] by {
        strs::one_piece(lines[i], '\r');
    }
    assert(shown =~= lines);
}

proof fn plain_text_passes(text: Seq<char>)
    requires
        forall|i: int|
            0 <= i < text.len() ==> #[trigger] text[i] == '\n' || text[i] == '\t' || !is_control(
                text[i],
            ),
    ensures
        ansi(text) == (AnsiView { out: text, state: EscapeState::Plain }),
        uncontrolled(text) == text,
    decreases text.len(),
{
    if text.len() > 0 {
        let before = text.drop_last();
        assert forall|i: int| 0 <= i < before.len() implies #[trigger] before[i] == '\n'
            || before[i] == '\t' || !is_control(before[i]) by {
            assert(before[i] == text[i]);
        }
        plain_text_passes(before);
        let c = text[text.len() - 1];
        assert(c == '\n' || c == '\t' || !is_control(c));
        assert(before.push(c) =~= text);
    } else {
        assert(text =~= Seq::<char>::empty());
    }
}

proof fn parts_hold_no_return(text: Seq<char>)
    requires
        !text.contains('\r'),
    ensures
        forall|i: int|
            0 <= i < split_on(text, '\n').len() ==> !(#[trigger] split_on(
                text,
                '\n',
            )[i]).contains('\r'),
    decreases text.len(),
{
    if text.len() > 0 {
        let before = text.drop_last();
        let c = text[text.len() - 1];
        assert(text.contains(c));
        assert forall|i: int| 0 <= i < before.len() implies before[i] != '\r' by {
            assert(text.contains(text[i]));
        }
        assert(!before.contains('\r'));
        parts_hold_no_return(before);
        strs::split_on_nonempty(before, '\n');
        let old_parts = split_on(before, '\n');
        let parts = split_on(text, '\n');
        assert forall|i: int| 0 <= i < parts.len() implies !(#[trigger] parts[i]).contains('\r') by {
            if i < old_parts.len() - 1 {
                assert(parts[i] == old_parts[i]);
            } else if c == '\n' {
                if i < old_parts.len() {
                    assert(parts[i] == old_parts[i]);
                }
            } else {
                assert(!old_parts[old_parts.len() - 1].contains('\r'));
                assert(parts[i] == old_parts.last().push(c));
                vstd::seq_lib::lemma_seq_contains_after_push(old_parts.last(), c, '\r');
            }
        }
    }
}

/// A terminal control sequence leaves no trace: what stood before it is all that
/// is shown of it.
pub proof fn control_sequences_vanish(before: Seq<char>, within: Seq<char>, last: char)
    requires
        ansi(before).state == EscapeState::Plain,
        forall|i: int| 0 <= i < within.len() ==> !is_letter(#[trigger] within[i]),
        is_letter(last),
    ensures
        ansi(before + seq!['\u{1b}', '['] + within + seq![last]) == ansi(before),
{
    let opened = before + seq!['\u{1b}', '['];
    assert(opened.drop_last() =~= before + seq!['\u{1b}']);
    assert((before + seq!['\u{1b}']).drop_last() =~= before);
    assert(ansi(before + seq!['\u{1b}']) == ansi_step(ansi(before), '\u{1b}'));
    assert(ansi(opened) == ansi_step(ansi(before + seq!['\u{1b}']), '['));
    sequence_goes_on(opened, within);
    let whole = opened + within + seq![last];
    assert(whole.drop_last() =~= opened + within);
}

proof fn sequence_goes_on(opened: Seq<char>, within: Seq<char>)
    requires
        ansi(opened).state == EscapeState::Sequence,
        forall|i: int| 0 <= i < within.len() ==> !is_letter(#[trigger] within[i]),
    ensures
        ansi(opened + within) == ansi(opened),
    decreases within.len(),
{
    if within.len() == 0 {
        assert(opened + within =~= opened);
    } else {
        let fewer = within.drop_last();
        assert forall|i: int| 0 <= i < fewer.len() implies !is_letter(#[trigger] fewer[i]) by {
            assert(fewer[i] == within[i]);
        }
        sequence_goes_on(opened, fewer);
        assert((opened + within).drop_last() =~= opened + fewer);
        assert(!is_letter(within[within.len() - 1]));
    }
}

/// A carriage return takes a line back to its beginning: only what follows the
/// last one is shown.
pub proof fn returns_overwrite_the_line(before: Seq<char>, after: Seq<char>)
    requires
        !before.contains('\n'),
        !after.contains('\n'),
        !after.contains('\r'),
    ensures
        returned(before + seq!['\r'] + after) == after,
{
    let line = before + seq!['\r'] + after;
    assert forall|i: int| 0 <= i < line.len() implies line[i] != '\n' by {
        if i < before.len() {
            assert(before.contains(before[i]));
        } else if i > before.len() {
            assert(after.contains(after[i - before.len() - 1]));
        }
    }
    strs::one_piece(line, '\n');
    strs::one_more_piece(before, after, '\r');
    let lines = split_on(line, '\n');
    let shown = Seq::new(lines.len(), |i: int| split_on(lines[i], '\r').last());
    assert(shown =~= seq![after]);
}

/// No control character but line breaks and tabs is ever shown.
pub proof fn shown_output_is_clean(text: Seq<char>, i: int)
    requires
        0 <= i < uncontrolled(text).len(),
    ensures
        uncontrolled(text)[i] == '\n' || uncontrolled(text)[i] == '\t' || !is_control(
            uncontrolled(text)[i],
        ),
    decreases text.len(),
{
    let before = text.drop_last();
    if i < uncontrolled(before).len() {
        shown_output_is_clean(before, i);
    }
}

proof fn insertion_adds_one(running: Seq<RunningView>, tool: RunningView, other: RunningView)
    ensures
        inserted(running, tool).contains(other) <==> running.contains(other) || other == tool,
    decreases running.len(),
{
    if running.len() == 0 || running.last().index <= tool.index {
        vstd::seq_lib::lemma_seq_contains_after_push(running, tool, other);
        if running.len() == 0 {
            assert(!running.contains(other));
        }
    } else {
        let before = running.drop_last();
        insertion_adds_one(before, tool, other);
        vstd::seq_lib::lemma_seq_contains_after_push(
            inserted(before, tool),
            running.last(),
            other,
        );
        vstd::seq_lib::lemma_seq_contains_after_push(before, running.last(), other);
        assert(before.push(running.last()) =~= running);
    }
}

proof fn tools_are_found(running: Seq<RunningView>, index: usize)
    ensures
        tool_at(running, index) <= running.len(),
        forall|k: int| 0 <= k < tool_at(running, index) ==> (#[trigger] running[k]).index != index,
        tool_at(running, index) < running.len() ==> running[tool_at(running, index) as int].index
            == index,
    decreases running.len(),
{
    if running.len() > 0 && running[0].index != index {
        tools_are_found(running.skip(1), index);
        assert forall|k: int| 0 <= k < tool_at(running, index) implies (#[trigger] running[k]).index
            != index by {
            if k > 0 {
                assert(running.skip(1)[k - 1] == running[k]);
            }
        }
    }
}

/// A tool that starts is listed under its index with its name and arguments, and
/// every other tool stays listed as it was.
pub proof fn starting_lists_the_tool(
    running: Seq<RunningView>,
    index: usize,
    name: Seq<char>,
    arguments: Seq<char>,
    other: RunningView,
)
    requires
        other.index != index,
    ensures
        started(running, index, name, arguments).contains(other) <==> running.contains(other),
        tool_at(started(running, index, name, arguments), index) < started(
            running,
            index,
            name,
            arguments,
        ).len(),
        exists|k: int|
            0 <= k < started(running, index, name, arguments).len() && (#[trigger] started(
                running,
                index,
                name,
                arguments,
            )[k]).index == index && started(running, index, name, arguments)[k].name == name
                && started(running, index, name, arguments)[k].arguments == arguments,
{
    tools_are_found(running, index);
    let at = tool_at(running, index) as int;
    let all = started(running, index, name, arguments);
    if at < running.len() {
        let tool = RunningView { name, arguments, ..running[at] };
        assert(all[at] == tool);
        if running.contains(other) {
            let k = choose|k: int| 0 <= k < running.len() && running[k] == other;
            assert(all[k] == other);
        }
        if all.contains(other) {
            let k = choose|k: int| 0 <= k < all.len() && all[k] == other;
            assert(running[k] == other);
        }
        listed_is_found(all, at);
    } else {
        let tool = RunningView { name, arguments, index, tail: Seq::empty() };
        insertion_adds_one(running, tool, other);
        insertion_adds_one(running, tool, tool);
        let k = choose|k: int| 0 <= k < all.len() && all[k] == tool;
        listed_is_found(all, k);
    }
}

proof fn listed_is_found(running: Seq<RunningView>, k: int)
    requires
        0 <= k < running.len(),
    ensures
        tool_at(running, running[k].index) < running.len(),
{
    tools_are_found(running, running[k].index);
    if tool_at(running, running[k].index) >= running.len() {
        assert(running[k].index != running[k].index);
    }
}

/// A tool that finished is no longer listed, and every other one still is.
pub proof fn finishing_takes_the_tool_out(
    running: Seq<RunningView>,
    index: usize,
    other: RunningView,
)
    ensures
        finished(running, index).contains(other) <==> running.contains(other) && other.index
            != index,
    decreases running.len(),
{
    if running.len() > 0 {
        let before = running.drop_last();
        finishing_takes_the_tool_out(before, index, other);
        assert(before.push(running.last()) =~= running);
        vstd::seq_lib::lemma_seq_contains_after_push(before, running.last(), other);
        vstd::seq_lib::lemma_seq_contains_after_push(
            finished(before, index),
            running.last(),
            other,
        );
    } else {
        assert(!running.contains(other));
        assert(!finished(running, index).contains(other));
    }
}

/// Each event names its activity: thinking gives way to tools, tools to a
/// compaction and that to a cancellation, and never the other way round; writing
/// and waiting take each other's place.
pub proof fn events_name_their_activity(state: StateView, event: FrontendOperationEvent)
    ensures
        ({
            let next = activity_step(state, event).current;
            let held = state.current is Some && (state.current.unwrap() is Cancelling
                || state.current.unwrap() is Compacting);
            let tooling = state.current is Some && state.current.unwrap() is Tool;
            let thinking = state.current is Some && state.current.unwrap() is Reasoning;
            &&& event is TextDelta ==> next == if held || tooling || thinking {
                state.current
            } else {
                Some(KindView::Responding)
            }
            &&& event is ReasoningDelta ==> next == if held || tooling {
                state.current
            } else {
                Some(KindView::Reasoning)
            }
            &&& event is ToolExecutionStarted && !held ==> next is Some && next.unwrap() is Tool
            &&& event is ToolExecutionStarted && held ==> next == state.current
            &&& event is ContextCompactionStarted ==> next == if state.current is Some
                && state.current.unwrap() is Cancelling {
                state.current
            } else {
                Some(KindView::Compacting)
            }
            &&& event is OperationStarted || event is ModelCallStarted ==> next == if held
                || tooling || thinking {
                state.current
            } else {
                Some(KindView::Waiting)
            }
            &&& event is TurnFailed || event is OperationSettled ==> next is None
        }),
{
}

/// The activity is told by a word; tools are told by the name of the one that
/// runs, or by how many run out of how many were asked for.
pub proof fn activities_are_told_by_a_word(
    running: Seq<RunningView>,
    total: usize,
    reason: Seq<char>,
)
    ensures
        kind_label(KindView::Waiting) == "wait"@,
        kind_label(KindView::Responding) == "write"@,
        kind_label(KindView::Reasoning) == "think"@,
        kind_label(KindView::Compacting) == "compact"@,
        kind_label(KindView::Cancelling(reason)) == "cancel  "@ + lower_text(reason),
        running.len() == 1 ==> kind_label(KindView::Tool { running, total }) == "tool  "@
            + running[0].name,
        running.len() > 1 && running.last().index < total ==> kind_label(
            KindView::Tool { running, total },
        ) == "tools  "@ + decimal(running.len()) + "/"@ + decimal(total as nat),
        running.len() > 1 && running.last().index >= total ==> kind_label(
            KindView::Tool { running, total },
        ) == "tools  "@ + decimal(running.len()) + "/"@ + decimal(running.last().index as nat + 1),
{
}

/// One tool is told by its name with the last line of its output, or with its
/// arguments while there is none; several are told by their names in order.
pub proof fn tools_are_told_by_name(running: Seq<RunningView>, args: Seq<Seq<char>>)
    requires
        running.len() == args.len(),
    ensures
        running.len() == 1 && running[0].tail.len() == 0 && args[0].len() > 0 ==> timeline(
            running,
            args,
        ) == running[0].name + "  "@ + args[0],
        running.len() == 1 && live_line(running[0].tail).len() > 0 ==> timeline(running, args)
            == running[0].name + "  "@ + live_line(running[0].tail),
        running.len() > 1 ==> timeline(running, args) == join(
            running.map_values(|tool: RunningView| tool.name),
            ", "@,
        ),
{
    if running.len() == 1 && running[0].tail.len() == 0 {
        let tail = running[0].tail;
        assert(tail =~= Seq::<char>::empty());
        assert(split_on(tail, '\n').last().len() == 0);
        assert(lines_of(tail).len() == 0);
        strs::trimming_leaves_the_core(Seq::empty(), Seq::empty(), Seq::empty());
        assert(Seq::<char>::empty() + Seq::<char>::empty() + Seq::<char>::empty()
            =~= Seq::<char>::empty());
    }
    assert(Seq::new(running.len(), |i: int| running[i].name) =~= running.map_values(
        |tool: RunningView| tool.name,
    ));
}

/// The details keep to their height, and what is there stays in front.
pub proof fn details_keep_to_their_height(
    running: Seq<RunningView>,
    args: Seq<Seq<char>>,
    i: int,
    rows: Seq<Seq<char>>,
    width: nat,
    height: nat,
    tail_lines: nat,
)
    requires
        rows.len() < height,
    ensures
        details_from(running, args, i, rows, width, height, tail_lines).len() <= height,
        rows.is_prefix_of(details_from(running, args, i, rows, width, height, tail_lines)),
        0 <= i < running.len() && running.len() > 1 ==> details_from(
            running,
            args,
            i,
            rows,
            width,
            height,
            tail_lines,
        ).len() > rows.len() && details_from(
            running,
            args,
            i,
            rows,
            width,
            height,
            tail_lines,
        )[rows.len() as int] == truncated(
            decimal(running[i].index as nat + 1) + "  "@ + running[i].name + "  "@ + args[i],
            width,
        ),
    decreases running.len() - i,
{
    if 0 <= i < running.len() {
        let tool = running[i];
        let head = if running.len() == 1 {
            truncated(args[i], width)
        } else {
            truncated(decimal(tool.index as nat + 1) + "  "@ + tool.name + "  "@ + args[i], width)
        };
        let headed = rows.push(head);
        if headed.len() < height {
            let room = (height - headed.len()) as nat;
            let most = if tail_lines < room {
                tail_lines
            } else {
                room
            };
            let tailed = if tail_lines > 0 && tool.tail.len() > 0 {
                headed + last_rows(tool.tail, width, most)
            } else {
                headed
            };
            text::last_rows_are_the_end(tool.tail, width, most);
            if tailed.len() < height {
                details_keep_to_their_height(
                    running,
                    args,
                    i + 1,
                    tailed,
                    width,
                    height,
                    tail_lines,
                );
                let all = details_from(running, args, i + 1, tailed, width, height, tail_lines);
                assert(all.take(tailed.len() as int) == tailed);
                assert(all[rows.len() as int] == tailed[rows.len() as int]);
                assert(rows =~= all.take(rows.len() as int)) by {
                    assert forall|k: int| 0 <= k < rows.len() implies rows[k] == all[k] by {
                        assert(all.take(tailed.len() as int)[k] == tailed[k]);
                    }
                }
            }
        }
    }
}

} // verus!
