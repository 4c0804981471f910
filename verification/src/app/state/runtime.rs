//! Operation events, live tools, compaction, and the busy and exit chords.

use vstd::prelude::*;

use super::commands::{bumped, error, error_line, meta, meta_line, notice, notice_line, synced};
use super::composer::empty_draft;
use super::pointer::clipboard_copy;
use super::{cooled, lit, App, AppView};
use crate::app::effect;
use crate::app::effect::{nothing, only, says, Effect, EffectView};
use crate::app::frontend::{
    copy_display, DisplayView, FrontendOperationEvent, FrontendTokenUsage, FrontendToolDisplay, FrontendToolResult, ResultView,
};
use crate::app::input::{blank, HistoryView};
use crate::app::live_tool::{
    batch_cancelled, fresh_batch, fresh_slot, has_slot, paints_progress, runs, settled,
    slot_completed, slot_of, slot_progressed, slot_started, span, BatchView, LiveBatch, SlotView,
};
use crate::app::pacer::{drained, PieceText};
use crate::app::projection;
use crate::app::projection::{pieces_written, Projection, ProjectionView};
use crate::app::run_state;
use crate::app::run_state::{
    corner_for, idle, run_step, turn_elapsed, CornerWord, Phase, RunView, SPINNER_LEN,
};
use crate::app::status::StatusView;
use crate::app::submit::CancelDispatchResult;
use crate::app::transcript::{InfoLevel, LineKind, TranscriptLine};
use crate::strs;

verus! {

// ---------------------------------------------------------------------------
// Busy and compacting
// ---------------------------------------------------------------------------

/// The compacting flag follows its two causes.
pub open spec fn compacting_synced(a: AppView) -> AppView {
    AppView {
        status: StatusView {
            compacting: a.manual_compacting || a.automatic_compacting,
            ..a.status
        },
        ..a
    }
}

/// The busy flag set: an idle agent has no run state left but that of a manual
/// compaction.
pub open spec fn busy_set(a: AppView, busy: bool, now: u64) -> AppView {
    let b = AppView { status: StatusView { busy, ..a.status }, ..a };
    if busy {
        AppView { run_state: run_state::raised(b.run_state, Phase::Waiting, now), ..b }
    } else {
        let c = compacting_synced(AppView { automatic_compacting: false, ..b });
        if c.manual_compacting {
            c
        } else {
            AppView { run_state: idle(), ..c }
        }
    }
}

/// A manual compaction is over.
pub open spec fn compaction_cleared(a: AppView) -> AppView {
    compacting_synced(
        AppView {
            manual_compacting: false,
            run_state: if a.run_state.phase == Some(Phase::Compacting) {
                idle()
            } else {
                a.run_state
            },
            ..a
        },
    )
}

/// The usage of the current session forgotten.
pub open spec fn usage_cleared(a: AppView) -> AppView {
    AppView {
        status: StatusView { usage: None, ..a.status },
        usage_cache: a.usage_cache.remove(a.status.session),
        ..a
    }
}

/// What the dispatch of a compaction cancel comes to.
pub open spec fn compaction_cancel_finished(a: AppView, result: CancelDispatchResult) -> (
    AppView,
    Seq<EffectView>,
) {
    match result {
        CancelDispatchResult::Enqueued(_) => (
            compaction_cleared(a),
            says(meta_line("context compaction cancelled"@)),
        ),
        CancelDispatchResult::Backpressured => (a, says(notice_line("取消请求未发送"@))),
        CancelDispatchResult::Disconnected { lane } => (
            a,
            says(
                error_line(
                    "error: frontend disconnected ("@ + lane@ + "); cancel not sent"@,
                ),
            ),
        ),
    }
}

/// `Esc`: cancels a compaction or a turn, and selects nothing.
pub open spec fn escaped(a: AppView) -> (AppView, Seq<EffectView>) {
    (
        AppView { selection: None, ..a },
        if a.manual_compacting {
            only(EffectView::CancelCompaction)
        } else if a.status.busy {
            only(EffectView::CancelActive)
        } else {
            nothing()
        },
    )
}

/// `Ctrl+C`, by what there is: copies a selection, clears the draft, cancels,
/// or leaves in two steps.
#[verifier::opaque]
pub open spec fn interrupt_pressed(a: AppView) -> (AppView, Seq<EffectView>) {
    let calm = AppView { exit_armed: false, ..a };
    if clipboard_copy(a) is Some {
        (calm, only(clipboard_copy(a)->0))
    } else if !empty_draft(a) {
        (
            synced(
                AppView {
                    input: blank(),
                    history: HistoryView { cursor: None, ..a.history },
                    ..bumped(calm)
                },
            ),
            nothing(),
        )
    } else if a.manual_compacting {
        (calm, only(EffectView::CancelCompaction))
    } else if a.status.busy {
        (calm, only(EffectView::InterruptCancel))
    } else if a.exit_armed {
        (a, only(EffectView::Quit))
    } else {
        (
            AppView { exit_armed: true, ..a },
            says(meta_line("press Ctrl+C again to exit"@)),
        )
    }
}

// ---------------------------------------------------------------------------
// The stream
// ---------------------------------------------------------------------------

/// A delta queued for even display.
pub open spec fn paced(a: AppView, kind: LineKind, text: Seq<char>) -> AppView {
    AppView {
        stream: if text.len() == 0 {
            a.stream
        } else {
            a.stream.push(PieceText { kind, text })
        },
        ..a
    }
}

/// The stream emptied.
pub open spec fn flushed(a: AppView) -> AppView {
    AppView { stream: Seq::empty(), stream_owed: 0, ..a }
}

// ---------------------------------------------------------------------------
// Live tools
// ---------------------------------------------------------------------------

pub open spec fn with_batch(a: AppView, batch: BatchView) -> AppView {
    AppView { tool_batch: Some(batch), ..a }
}

/// The live batch repainted, where it has a cell.
pub open spec fn repaint(batch: BatchView) -> Seq<ProjectionView> {
    match batch.cell_index {
        Some(cell) => seq![ProjectionView::Redraw { cell }],
        None => Seq::empty(),
    }
}

/// A batch announced: a batch of many shows its tree at once.
pub open spec fn batch_requested(a: AppView, count: usize, now: u64) -> (
    AppView,
    Seq<ProjectionView>,
) {
    (
        with_batch(a, fresh_batch(count, now)),
        if count > 1 {
            seq![ProjectionView::CloseRun, ProjectionView::OpenTree]
        } else {
            seq![ProjectionView::CloseRun]
        },
    )
}

/// A call started in a batch: a single call shows its card, one of many shows
/// in the tree.
pub open spec fn call_started(
    a: AppView,
    batch: BatchView,
    index: usize,
    tool_name: Seq<char>,
    arguments: Seq<char>,
    now: u64,
) -> (AppView, Seq<ProjectionView>) {
    let after = slot_started(batch, fresh_slot(index, tool_name, arguments, now));
    (
        with_batch(a, after),
        if has_slot(batch, index) {
            Seq::empty()
        } else if batch.total == 1 {
            seq![ProjectionView::OpenCard { index }]
        } else {
            repaint(after)
        },
    )
}

/// A call started; one that was not announced opens a batch of its own.
pub open spec fn tool_started(
    a: AppView,
    index: usize,
    tool_name: Seq<char>,
    arguments: Seq<char>,
    now: u64,
) -> (AppView, Seq<ProjectionView>) {
    match a.tool_batch {
        Some(batch) => call_started(a, batch, index, tool_name, arguments, now),
        None => {
            let opened = batch_requested(a, 1, now);
            let begun = call_started(
                opened.0,
                fresh_batch(1, now),
                index,
                tool_name,
                arguments,
                now,
            );
            (begun.0, opened.1 + begun.1)
        },
    }
}

/// Output of a call: only a single call's card shows it.
pub open spec fn tool_progressed(a: AppView, index: usize, tail: Seq<char>) -> (
    AppView,
    Seq<ProjectionView>,
) {
    match a.tool_batch {
        None => (a, Seq::empty()),
        Some(batch) => (
            with_batch(a, slot_progressed(batch, index, tail, a.live_text_max)),
            if batch.total == 1 && batch.cell_index is Some && paints_progress(
                batch,
                index,
                a.live_text_max,
            ) {
                seq![ProjectionView::RedrawCard { cell: batch.cell_index->0, index }]
            } else {
                Seq::empty()
            },
        ),
    }
}

/// A call completed: its card or its row in the tree settles.
pub open spec fn tool_completed(
    a: AppView,
    index: usize,
    tool_name: Seq<char>,
    result: ResultView,
    display: Option<DisplayView>,
    now: u64,
) -> (AppView, Seq<ProjectionView>) {
    match a.tool_batch {
        None => (a, seq![ProjectionView::Stray { tool_name, result, display }]),
        Some(batch) => {
            let after = slot_completed(batch, index, result, display);
            let slot = slot_of(batch, index);
            (
                with_batch(a, after),
                if !runs(batch, index) {
                    Seq::empty()
                } else if batch.total != 1 {
                    repaint(after)
                } else {
                    match batch.cell_index {
                        Some(cell) => seq![
                            ProjectionView::Settle {
                                cell,
                                tool_name: slot.tool_name,
                                arguments: slot.arguments,
                                result,
                                display,
                                elapsed: span(slot.started_at, now),
                            },
                        ],
                        None => Seq::empty(),
                    }
                },
            )
        },
    }
}

/// The first call at or behind `i` that still runs, or their number.
pub open spec fn running_from(slots: Seq<SlotView>, i: int) -> int
    decreases slots.len() - i,
{
    if i < 0 || i >= slots.len() {
        slots.len() as int
    } else if slots[i].settled is None {
        i
    } else {
        running_from(slots, i + 1)
    }
}

/// Every running call cancelled; the card of a single call that settled before
/// stays as it is.
pub open spec fn tools_cancelled(a: AppView) -> (AppView, Seq<ProjectionView>) {
    match a.tool_batch {
        None => (a, Seq::empty()),
        Some(batch) => {
            let after = batch_cancelled(batch);
            let at = running_from(batch.slots, 0);
            (
                with_batch(a, after),
                if batch.total != 1 {
                    repaint(after)
                } else if batch.cell_index is Some && at < batch.slots.len() {
                    seq![
                        ProjectionView::Cancelled {
                            cell: batch.cell_index->0,
                            tool_name: batch.slots[at].tool_name,
                            arguments: batch.slots[at].arguments,
                        },
                    ]
                } else {
                    Seq::empty()
                },
            )
        },
    }
}

/// Whether an event is about tools.
pub open spec fn about_tools(event: FrontendOperationEvent) -> bool {
    event is ToolBatchRequested || event is ToolExecutionStarted || event is ToolExecutionProgress
        || event is ToolExecutionCompleted
}

/// A tool event on the live batch.
#[verifier::opaque]
pub open spec fn tool_evented(a: AppView, event: FrontendOperationEvent, now: u64) -> (
    AppView,
    Seq<ProjectionView>,
) {
    match event {
        FrontendOperationEvent::ToolBatchRequested { call_count, .. } => batch_requested(
            a,
            call_count,
            now,
        ),
        FrontendOperationEvent::ToolExecutionStarted { index, tool_name, arguments, .. } =>
            tool_started(a, index, tool_name@, arguments@, now),
        FrontendOperationEvent::ToolExecutionProgress { index, tail, .. } => tool_progressed(
            a,
            index,
            tail@,
        ),
        FrontendOperationEvent::ToolExecutionCompleted { index, tool_name, result, display, .. } =>
            tool_completed(a, index, tool_name@, result.deep_view(), display.deep_view(), now),
        _ => (a, Seq::empty()),
    }
}

// ---------------------------------------------------------------------------
// Operation events
// ---------------------------------------------------------------------------

/// What an event says of usage and compaction.
pub open spec fn telemetry(a: AppView, event: FrontendOperationEvent) -> AppView {
    match event {
        FrontendOperationEvent::ModelUsageUpdated { usage, .. } => AppView {
            status: StatusView { usage: Some(usage), ..a.status },
            usage_cache: a.usage_cache.insert(a.status.session, usage),
            ..a
        },
        FrontendOperationEvent::ContextCompactionStarted => compacting_synced(
            AppView { automatic_compacting: true, ..a },
        ),
        FrontendOperationEvent::ContextCompactionCompleted { .. } => compacting_synced(
            usage_cleared(AppView { automatic_compacting: false, ..a }),
        ),
        FrontendOperationEvent::ContextCompactionFailed { .. } => compacting_synced(
            AppView { automatic_compacting: false, ..a },
        ),
        _ => a,
    }
}

/// How long the turn took, on an event that ends it.
pub open spec fn cited_elapsed(a: AppView, event: FrontendOperationEvent, now: u64) -> Option<u64> {
    if event is OperationSettled || event is TurnFailed {
        turn_elapsed(a.run_state, now)
    } else {
        None
    }
}

/// The stream written out, then the event told.
pub open spec fn told(a: AppView, elapsed: Option<u64>) -> (AppView, Seq<ProjectionView>) {
    (flushed(a), pieces_written(a.stream) + seq![ProjectionView::Event { elapsed }])
}

/// One operation event. Deltas queue up for even display; every other event
/// writes the queue out before it is told, so it always comes behind the text
/// before it.
#[verifier::opaque]
pub open spec fn evented(a: AppView, event: FrontendOperationEvent, now: u64) -> (
    AppView,
    Seq<ProjectionView>,
) {
    let b = telemetry(AppView { run_state: run_step(a.run_state, event, now), ..a }, event);
    let elapsed = cited_elapsed(a, event, now);
    match event {
        FrontendOperationEvent::TextDelta { delta } => (
            paced(b, LineKind::Answer, delta@),
            Seq::empty(),
        ),
        FrontendOperationEvent::ReasoningDelta { text, .. } => if b.show_reasoning {
            (paced(b, LineKind::Reasoning, text@), Seq::empty())
        } else {
            told(b, elapsed)
        },
        FrontendOperationEvent::CancellationRequested { .. }
        | FrontendOperationEvent::TurnCancelled { .. } => {
            let c = tools_cancelled(b);
            let d = told(c.0, elapsed);
            (d.0, c.1 + d.1)
        },
        FrontendOperationEvent::OperationSettled { .. }
        | FrontendOperationEvent::TurnFailed { .. } => told(
            AppView { tool_batch: None, ..b },
            elapsed,
        ),
        _ => if about_tools(event) && b.level != InfoLevel::Verbose {
            let c = tool_evented(flushed(b), event, now);
            (c.0, pieces_written(b.stream) + c.1)
        } else {
            told(b, elapsed)
        },
    }
}

/// Whether the spinner, the stream or a live batch moves.
pub open spec fn in_motion(a: AppView) -> bool {
    a.run_state.phase is Some || a.stream.len() > 0 || (a.tool_batch is Some && !settled(
        a.tool_batch->0,
    ))
}

/// One animation tick: the spinner turns, a live batch is repainted, and the
/// stream gives up what is due.
#[verifier::opaque]
pub open spec fn ticked(a: AppView, dt_nanos: u64) -> (AppView, Seq<ProjectionView>) {
    let flow = drained(a.stream, a.stream_owed, dt_nanos);
    (
        AppView {
            run_state: if a.run_state.phase is Some {
                RunView {
                    spinner: ((a.run_state.spinner + 1) % SPINNER_LEN as int) as usize,
                    ..a.run_state
                }
            } else {
                a.run_state
            },
            stream: flow.1,
            stream_owed: flow.2,
            ..a
        },
        (match a.tool_batch {
            Some(batch) => if settled(batch) {
                Seq::empty()
            } else {
                repaint(batch)
            },
            None => Seq::empty(),
        }) + pieces_written(flow.0),
    )
}

impl App {
    pub fn set_live_text_max(&mut self, max: usize)
        requires
            old(self).wf(),
        ensures
            final(self).wf(),
            final(self)@ == (AppView { live_text_max: max, ..old(self)@ }),
    {
        proof {
            reveal(App::model);
            reveal(App::wf);
        }
        self.live_text_max = max;
    }

    pub(crate) fn sync_compacting_status(&mut self)
        requires
            old(self).wf(),
        ensures
            final(self).wf(),
            final(self)@ == compacting_synced(old(self)@),
    {
        proof {
            reveal(App::model);
            reveal(App::wf);
        }
        self.status.compacting = self.manual_compacting || self.automatic_compacting;
    }

    /// Sets the busy flag.
    pub fn set_busy(&mut self, busy: bool, now: u64)
        requires
            old(self).wf(),
        ensures
            final(self).wf(),
            final(self)@ == busy_set(old(self)@, busy, now),
    {
        proof {
            reveal(App::model);
            reveal(App::wf);
        }
        self.status.busy = busy;
        if busy {
            self.run_state.ensure_waiting(now);
        } else {
            self.automatic_compacting = false;
            self.status.compacting = self.manual_compacting || self.automatic_compacting;
            if !self.manual_compacting {
                self.run_state.clear();
            }
        }
    }

    pub(crate) fn clear_manual_compaction(&mut self)
        requires
            old(self).wf(),
        ensures
            final(self).wf(),
            final(self)@ == compaction_cleared(old(self)@),
    {
        proof {
            reveal(App::model);
            reveal(App::wf);
        }
        self.manual_compacting = false;
        self.run_state.finish_manual_compaction();
        self.status.compacting = self.manual_compacting || self.automatic_compacting;
    }

    /// Drops the usage of the current session: a compaction made it stale.
    pub(crate) fn clear_usage(&mut self)
        requires
            old(self).wf(),
        ensures
            final(self).wf(),
            final(self)@ == usage_cleared(old(self)@),
    {
        proof {
            reveal(App::model);
            reveal(App::wf);
        }
        self.status.usage = None;
        let session = self.status.session.clone();
        self.usage_cache.remove(session.as_str());
    }

    pub fn on_compaction_cancel_dispatch_finished(&mut self, result: CancelDispatchResult) -> (
        effects: Vec<Effect>)
        requires
            old(self).wf(),
        ensures
            final(self).wf(),
            (final(self)@, effects.deep_view()) == compaction_cancel_finished(old(self)@, result),
    {
        match result {
            CancelDispatchResult::Enqueued(_) => {
                self.clear_manual_compaction();
                effect::say(meta("context compaction cancelled"))
            },
            CancelDispatchResult::Backpressured => effect::say(notice("取消请求未发送")),
            CancelDispatchResult::Disconnected { lane } => {
                let text = strs::cat3(
                    "error: frontend disconnected (",
                    lane,
                    "); cancel not sent",
                );
                effect::say(error(text.as_str()))
            },
        }
    }

    /// `Esc` in the composer.
    pub fn escape(&mut self) -> (effects: Vec<Effect>)
        requires
            old(self).wf(),
        ensures
            final(self).wf(),
            (final(self)@, effects.deep_view()) == escaped(old(self)@),
    {
        proof {
            reveal(App::model);
            reveal(App::wf);
        }
        self.clear_selection();
        if self.manual_compacting {
            effect::one_effect(Effect::CancelCompaction)
        } else if self.status.busy {
            effect::one_effect(Effect::CancelActive)
        } else {
            effect::no_effects()
        }
    }

    /// `Ctrl+C` outside the overlays.
    pub fn ctrl_c(&mut self) -> (effects: Vec<Effect>)
        requires
            old(self).wf(),
        ensures
            final(self).wf(),
            (final(self)@, effects.deep_view()) == interrupt_pressed(old(self)@),
    {
        proof {
            reveal(App::model);
            reveal(App::wf);
            reveal(interrupt_pressed);
        }
        if let Some(copy) = self.copy_selection() {
            self.exit_armed = false;
            return effect::one_effect(copy);
        }
        if !self.input.is_empty() {
            self.exit_armed = false;
            self.bump_draft_generation();
            self.input.clear();
            self.history.reset_browse();
            self.sync_completion();
            return effect::no_effects();
        }
        if self.manual_compacting {
            self.exit_armed = false;
            return effect::one_effect(Effect::CancelCompaction);
        }
        if self.status.busy {
            self.exit_armed = false;
            return effect::one_effect(Effect::InterruptCancel);
        }
        if self.exit_armed {
            return effect::one_effect(Effect::Quit);
        }
        self.exit_armed = true;
        effect::say(meta("press Ctrl+C again to exit"))
    }

    /// The run-state word for the composer's corner; a pending approval hides
    /// it without replacing it.
    pub fn run_state_corner(&self, max_width: usize, now: u64) -> (corner: Option<CornerWord>)
        ensures
            corner.deep_view() == corner_for(
                self@.run_state,
                max_width as nat,
                self@.confirm is Some,
                now,
            ),
    {
        proof {
            reveal(App::model);
            reveal(App::wf);
        }
        self.run_state.corner(max_width, self.confirm.is_some(), now)
    }

    pub fn run_state_active(&self) -> (yes: bool)
        ensures
            yes == (self@.run_state.phase is Some),
    {
        proof {
            reveal(App::model);
            reveal(App::wf);
        }
        self.run_state.is_active()
    }

    /// Whether something moves with time: the spinner, the stream, a live batch
    /// or the scrollbar's highlight.
    pub fn animation_active(&mut self, now: u64) -> (yes: bool)
        requires
            old(self).wf(),
        ensures
            final(self).wf(),
            yes == (in_motion(old(self)@) || lit(old(self)@, now)),
            final(self)@ == (if in_motion(old(self)@) {
                old(self)@
            } else {
                cooled(old(self)@, now)
            }),
    {
        proof {
            reveal(App::model);
            reveal(App::wf);
        }
        if self.run_state.is_active() || !self.pacer.is_empty() {
            return true;
        }
        let running = match &self.tool_batch {
            Some(batch) => !batch.all_settled(),
            None => false,
        };
        if running {
            return true;
        }
        self.scrollbar_active(now)
    }

    /// Queues one delta for even display.
    pub fn pace_delta(&mut self, kind: LineKind, text: &str)
        requires
            old(self).wf(),
        ensures
            final(self).wf(),
            final(self)@ == paced(old(self)@, kind, text@),
    {
        proof {
            reveal(App::model);
            reveal(App::wf);
        }
        self.pacer.push(kind, text);
    }

    /// Empties the stream; the steps write it out in order.
    pub fn flush_stream(&mut self) -> (plan: Vec<Projection>)
        requires
            old(self).wf(),
        ensures
            final(self).wf(),
            final(self)@ == flushed(old(self)@),
            plan.deep_view() == pieces_written(old(self)@.stream),
    {
        proof {
            reveal(App::model);
            reveal(App::wf);
        }
        let pieces = self.pacer.flush();
        projection::piece_steps(pieces)
    }

    /// Drops the stream without showing it.
    pub fn clear_stream(&mut self)
        requires
            old(self).wf(),
        ensures
            final(self).wf(),
            final(self)@ == flushed(old(self)@),
    {
        proof {
            reveal(App::model);
            reveal(App::wf);
        }
        self.pacer.clear();
    }

    /// Advances one animation tick of `dt_nanos`; says whether anything changed.
    pub fn on_tick(&mut self, dt_nanos: u64) -> (tick: (bool, Vec<Projection>))
        requires
            old(self).wf(),
        ensures
            final(self).wf(),
            (final(self)@, tick.1.deep_view()) == ticked(old(self)@, dt_nanos),
            tick.0 == (old(self)@.run_state.phase is Some || old(self)@.tool_batch is Some
                || drained(old(self)@.stream, old(self)@.stream_owed, dt_nanos).0.len() > 0),
    {
        proof {
            reveal(App::model);
            reveal(App::wf);
            reveal(ticked);
        }
        let mut dirty = self.run_state.is_active();
        self.run_state.advance_spinner();
        let cards = match &self.tool_batch {
            Some(batch) => {
                dirty = true;
                if batch.all_settled() {
                    projection::no_steps()
                } else {
                    repaint_steps(batch)
                }
            },
            None => projection::no_steps(),
        };
        let pieces = self.pacer.drain(dt_nanos);
        assert(pieces.deep_view().len() == pieces@.len());
        if pieces.len() > 0 {
            dirty = true;
        }
        (dirty, projection::then_steps(cards, projection::piece_steps(pieces)))
    }

    /// The cell of the live batch was appended to the transcript.
    pub fn place_live_cell(&mut self, line: TranscriptLine)
        requires
            old(self).wf(),
            old(self)@.tool_batch is Some,
        ensures
            final(self).wf(),
            final(self)@ == live_cell_placed(old(self)@, line.deep_view()),
    {
        proof {
            reveal(App::model);
            reveal(App::wf);
        }
        let mut lines: Vec<TranscriptLine> = Vec::new();
        lines.push(line);
        let ghost before = self.cells.lines();
        assert(lines.deep_view() =~= seq![line.deep_view()]);
        self.cells.push_closed(lines);
        assert(self.cells.lines() =~= before.push(line.deep_view()));
        let index = self.cells.display_len() - 1;
        let mut open: Option<LiveBatch> = None;
        std::mem::swap(&mut open, &mut self.tool_batch);
        if let Some(mut batch) = open {
            batch.cell_index = Some(index);
            self.tool_batch = Some(batch);
        }
    }

    /// The cell of the live batch was repainted.
    pub fn repaint_live_cell(&mut self, cell: usize, line: TranscriptLine)
        requires
            old(self).wf(),
            cell < old(self)@.cells.lines.len(),
            old(self)@.cells.open != Some(cell),
        ensures
            final(self).wf(),
            final(self)@ == (AppView {
                cells: super::StoreView {
                    lines: old(self)@.cells.lines.update(cell as int, line.deep_view()),
                    ..old(self)@.cells
                },
                ..old(self)@
            }),
    {
        proof {
            reveal(App::model);
            reveal(App::wf);
        }
        self.cells.replace_cell(cell, line);
    }

    fn batch_facts(&self) -> (facts: Option<(usize, Option<usize>)>)
        ensures
            facts == (match self@.tool_batch {
                Some(batch) => Some((batch.total, batch.cell_index)),
                None => None,
            }),
    {
        proof {
            reveal(App::model);
            reveal(App::wf);
        }
        match &self.tool_batch {
            Some(batch) => Some((batch.total, batch.cell_index)),
            None => None,
        }
    }

    fn take_batch(&mut self) -> (batch: LiveBatch)
        requires
            old(self).wf(),
            old(self)@.tool_batch is Some,
        ensures
            final(self).wf(),
            batch.deep_view() == old(self)@.tool_batch->0,
            final(self)@ == (AppView { tool_batch: None, ..old(self)@ }),
    {
        proof {
            reveal(App::model);
            reveal(App::wf);
        }
        let mut open: Option<LiveBatch> = None;
        std::mem::swap(&mut open, &mut self.tool_batch);
        open.unwrap()
    }

    fn put_batch(&mut self, batch: LiveBatch)
        requires
            old(self).wf(),
        ensures
            final(self).wf(),
            final(self)@ == with_batch(old(self)@, batch.deep_view()),
    {
        proof {
            reveal(App::model);
            reveal(App::wf);
        }
        self.tool_batch = Some(batch);
    }

    fn drop_batch(&mut self)
        requires
            old(self).wf(),
        ensures
            final(self).wf(),
            final(self)@ == (AppView { tool_batch: None, ..old(self)@ }),
    {
        proof {
            reveal(App::model);
            reveal(App::wf);
        }
        self.tool_batch = None;
    }

    fn live_text_limit(&self) -> (max: usize)
        ensures
            max == self@.live_text_max,
    {
        proof {
            reveal(App::model);
            reveal(App::wf);
        }
        self.live_text_max
    }

    /// A batch was announced.
    pub fn begin_tool_batch(&mut self, call_count: usize, now: u64) -> (plan: Vec<Projection>)
        requires
            old(self).wf(),
        ensures
            final(self).wf(),
            (final(self)@, plan.deep_view()) == batch_requested(old(self)@, call_count, now),
    {
        self.put_batch(LiveBatch::new(call_count, now));
        let mut plan = projection::one_step(Projection::CloseRun);
        if call_count > 1 {
            plan = projection::then_steps(plan, projection::one_step(Projection::OpenTree));
            assert(plan.deep_view() =~= seq![ProjectionView::CloseRun, ProjectionView::OpenTree]);
        }
        plan
    }

    fn start_call(&mut self, index: usize, tool_name: &str, arguments: &str, now: u64) -> (plan:
        Vec<Projection>)
        requires
            old(self).wf(),
            old(self)@.tool_batch is Some,
        ensures
            final(self).wf(),
            (final(self)@, plan.deep_view()) == call_started(
                old(self)@,
                old(self)@.tool_batch->0,
                index,
                tool_name@,
                arguments@,
                now,
            ),
    {
        let mut batch = self.take_batch();
        let new = batch.start(index, tool_name, arguments, now);
        let plan = if !new {
            projection::no_steps()
        } else if batch.total == 1 {
            projection::one_step(Projection::OpenCard { index })
        } else {
            repaint_steps(&batch)
        };
        self.put_batch(batch);
        plan
    }

    /// A call started.
    pub fn start_live_tool(&mut self, index: usize, tool_name: &str, arguments: &str, now: u64) -> (
        plan: Vec<Projection>)
        requires
            old(self).wf(),
        ensures
            final(self).wf(),
            (final(self)@, plan.deep_view()) == tool_started(
                old(self)@,
                index,
                tool_name@,
                arguments@,
                now,
            ),
    {
        if self.batch_facts().is_some() {
            return self.start_call(index, tool_name, arguments, now);
        }
        let opened = self.begin_tool_batch(1, now);
        let begun = self.start_call(index, tool_name, arguments, now);
        projection::then_steps(opened, begun)
    }

    /// A call produced output.
    pub fn progress_live_tool(&mut self, index: usize, tail: &str) -> (plan: Vec<Projection>)
        requires
            old(self).wf(),
        ensures
            final(self).wf(),
            (final(self)@, plan.deep_view()) == tool_progressed(old(self)@, index, tail@),
    {
        if self.batch_facts().is_none() {
            return projection::no_steps();
        }
        let limit = self.live_text_limit();
        let mut batch = self.take_batch();
        let paint = batch.progress(index, tail, limit);
        let plan = match batch.cell_index {
            Some(cell) => {
                if paint && batch.total == 1 {
                    projection::one_step(Projection::RedrawCard { cell, index })
                } else {
                    projection::no_steps()
                }
            },
            None => projection::no_steps(),
        };
        self.put_batch(batch);
        plan
    }

    /// A call completed.
    pub fn complete_live_tool(
        &mut self,
        index: usize,
        tool_name: &str,
        result: &FrontendToolResult,
        display: &Option<FrontendToolDisplay>,
        now: u64,
    ) -> (plan: Vec<Projection>)
        requires
            old(self).wf(),
        ensures
            final(self).wf(),
            (final(self)@, plan.deep_view()) == tool_completed(
                old(self)@,
                index,
                tool_name@,
                result.deep_view(),
                display.deep_view(),
                now,
            ),
    {
        if self.batch_facts().is_none() {
            return projection::one_step(
                Projection::Stray {
                    tool_name: tool_name.to_owned(),
                    result: result.copy(),
                    display: copy_display(display),
                },
            );
        }
        let mut batch = self.take_batch();
        let plan = settle_steps(&batch, index, result, display, now);
        let ran = batch.complete(index, result, display);
        let plan = if !ran {
            projection::no_steps()
        } else if batch.total != 1 {
            repaint_steps(&batch)
        } else {
            plan
        };
        self.put_batch(batch);
        plan
    }

    /// Cancellation settles every call that still runs.
    pub fn settle_live_tools_cancelled(&mut self) -> (plan: Vec<Projection>)
        requires
            old(self).wf(),
        ensures
            final(self).wf(),
            (final(self)@, plan.deep_view()) == tools_cancelled(old(self)@),
    {
        if self.batch_facts().is_none() {
            return projection::no_steps();
        }
        let mut batch = self.take_batch();
        let single = cancel_steps(&batch);
        batch.cancel();
        let plan = if batch.total != 1 {
            repaint_steps(&batch)
        } else {
            single
        };
        self.put_batch(batch);
        plan
    }

    /// One tool event on the live batch.
    pub fn apply_tool_event(&mut self, event: &FrontendOperationEvent, now: u64) -> (plan: Vec<
        Projection,
    >)
        requires
            old(self).wf(),
        ensures
            final(self).wf(),
            (final(self)@, plan.deep_view()) == tool_evented(old(self)@, *event, now),
    {
        proof {
            reveal(tool_evented);
        }
        match event {
            FrontendOperationEvent::ToolBatchRequested { call_count, .. } => self.begin_tool_batch(
                *call_count,
                now,
            ),
            FrontendOperationEvent::ToolExecutionStarted { index, tool_name, arguments, .. } =>
                self.start_live_tool(*index, tool_name.as_str(), arguments.as_str(), now),
            FrontendOperationEvent::ToolExecutionProgress { index, tail, .. } =>
                self.progress_live_tool(*index, tail.as_str()),
            FrontendOperationEvent::ToolExecutionCompleted {
                index,
                tool_name,
                result,
                display,
                ..
            } => self.complete_live_tool(*index, tool_name.as_str(), result, display, now),
            _ => projection::no_steps(),
        }
    }

    /// Notes the latest usage of the current session.
    fn note_usage(&mut self, usage: FrontendTokenUsage)
        requires
            old(self).wf(),
        ensures
            final(self).wf(),
            final(self)@ == (AppView {
                status: StatusView { usage: Some(usage), ..old(self)@.status },
                usage_cache: old(self)@.usage_cache.insert(old(self)@.status.session, usage),
                ..old(self)@
            }),
    {
        proof {
            reveal(App::model);
            reveal(App::wf);
        }
        self.status.usage = Some(usage);
        let session = self.status.session.clone();
        self.usage_cache.insert(session.as_str(), usage);
    }

    pub(crate) fn set_automatic_compaction(&mut self, running: bool)
        requires
            old(self).wf(),
        ensures
            final(self).wf(),
            final(self)@ == (AppView { automatic_compacting: running, ..old(self)@ }),
    {
        proof {
            reveal(App::model);
            reveal(App::wf);
        }
        self.automatic_compacting = running;
    }

    /// What an event says of usage and compaction.
    fn note_telemetry(&mut self, event: &FrontendOperationEvent)
        requires
            old(self).wf(),
        ensures
            final(self).wf(),
            final(self)@ == telemetry(old(self)@, *event),
    {
        match event {
            FrontendOperationEvent::ModelUsageUpdated { usage, .. } => self.note_usage(*usage),
            FrontendOperationEvent::ContextCompactionStarted => {
                self.set_automatic_compaction(true);
                self.sync_compacting_status();
            },
            FrontendOperationEvent::ContextCompactionCompleted { .. } => {
                self.set_automatic_compaction(false);
                self.clear_usage();
                self.sync_compacting_status();
            },
            FrontendOperationEvent::ContextCompactionFailed { .. } => {
                self.set_automatic_compaction(false);
                self.sync_compacting_status();
            },
            _ => {},
        }
    }

    /// Runs the event through the run-state clock; returns how long the turn
    /// took where the event ends it.
    fn note_run_state(&mut self, event: &FrontendOperationEvent, now: u64) -> (elapsed: Option<u64>)
        requires
            old(self).wf(),
        ensures
            final(self).wf(),
            final(self)@ == (AppView {
                run_state: run_step(old(self)@.run_state, *event, now),
                ..old(self)@
            }),
            elapsed == cited_elapsed(old(self)@, *event, now),
    {
        proof {
            reveal(App::model);
            reveal(App::wf);
        }
        let elapsed = match event {
            FrontendOperationEvent::OperationSettled { .. }
            | FrontendOperationEvent::TurnFailed { .. } => self.run_state.elapsed(now),
            _ => None,
        };
        self.run_state.on_event(event, now);
        elapsed
    }

    fn tell(&mut self, elapsed: Option<u64>) -> (plan: Vec<Projection>)
        requires
            old(self).wf(),
        ensures
            final(self).wf(),
            (final(self)@, plan.deep_view()) == told(old(self)@, elapsed),
    {
        let pieces = self.flush_stream();
        projection::then_steps(pieces, projection::one_step(Projection::Event { elapsed }))
    }

    fn is_verbose(&self) -> (yes: bool)
        ensures
            yes == (self@.level == InfoLevel::Verbose),
    {
        proof {
            reveal(App::model);
            reveal(App::wf);
        }
        self.level == InfoLevel::Verbose
    }

    /// One operation event: changes the state and says what is to be shown, in
    /// order. Overlays never intercept this path.
    pub fn on_operation_event(&mut self, event: &FrontendOperationEvent, now: u64) -> (plan: Vec<
        Projection,
    >)
        requires
            old(self).wf(),
        ensures
            final(self).wf(),
            (final(self)@, plan.deep_view()) == evented(old(self)@, *event, now),
    {
        proof {
            reveal(evented);
        }
        let elapsed = self.note_run_state(event, now);
        self.note_telemetry(event);
        match event {
            FrontendOperationEvent::TextDelta { delta } => {
                self.pace_delta(LineKind::Answer, delta.as_str());
                projection::no_steps()
            },
            FrontendOperationEvent::ReasoningDelta { text, .. } => {
                if self.shows_reasoning() {
                    self.pace_delta(LineKind::Reasoning, text.as_str());
                    projection::no_steps()
                } else {
                    self.tell(elapsed)
                }
            },
            FrontendOperationEvent::CancellationRequested { .. }
            | FrontendOperationEvent::TurnCancelled { .. } => {
                let cards = self.settle_live_tools_cancelled();
                let rest = self.tell(elapsed);
                projection::then_steps(cards, rest)
            },
            FrontendOperationEvent::OperationSettled { .. }
            | FrontendOperationEvent::TurnFailed { .. } => {
                self.drop_batch();
                self.tell(elapsed)
            },
            FrontendOperationEvent::ToolBatchRequested { .. }
            | FrontendOperationEvent::ToolExecutionStarted { .. }
            | FrontendOperationEvent::ToolExecutionProgress { .. }
            | FrontendOperationEvent::ToolExecutionCompleted { .. } => {
                if self.is_verbose() {
                    return self.tell(elapsed);
                }
                let pieces = self.flush_stream();
                let cards = self.apply_tool_event(event, now);
                projection::then_steps(pieces, cards)
            },
            _ => self.tell(elapsed),
        }
    }
}

/// The live batch's cell appended and noted.
pub open spec fn live_cell_placed(
    a: AppView,
    line: crate::app::transcript::LineView,
) -> AppView {
    AppView {
        cells: super::StoreView {
            lines: a.cells.lines.push(line),
            open: None,
            think: a.cells.think,
        },
        tool_batch: Some(
            BatchView { cell_index: Some(a.cells.lines.len() as usize), ..a.tool_batch->0 },
        ),
        ..a
    }
}

fn repaint_steps(batch: &LiveBatch) -> (plan: Vec<Projection>)
    ensures
        plan.deep_view() == repaint(batch.deep_view()),
{
    match batch.cell_index {
        Some(cell) => projection::one_step(Projection::Redraw { cell }),
        None => projection::no_steps(),
    }
}

/// The step that settles a single call's card.
fn settle_steps(
    batch: &LiveBatch,
    index: usize,
    result: &FrontendToolResult,
    display: &Option<FrontendToolDisplay>,
    now: u64,
) -> (plan: Vec<Projection>)
    ensures
        runs(batch.deep_view(), index) && batch.total == 1 ==> plan.deep_view() == (
        match batch.cell_index {
            Some(cell) => {
                let slot = slot_of(batch.deep_view(), index);
                seq![
                    ProjectionView::Settle {
                        cell,
                        tool_name: slot.tool_name,
                        arguments: slot.arguments,
                        result: result.deep_view(),
                        display: display.deep_view(),
                        elapsed: span(slot.started_at, now),
                    },
                ]
            },
            None => Seq::empty(),
        }),
{
    let cell = match batch.cell_index {
        Some(cell) => cell,
        None => return projection::no_steps(),
    };
    match batch.slot(index) {
        Some(at) => {
            let slot = &batch.slots[at];
            assert(batch.deep_view().slots[at as int] == slot.deep_view());
            projection::one_step(
                Projection::Settle {
                    cell,
                    tool_name: slot.tool_name.clone(),
                    arguments: slot.arguments.clone(),
                    result: result.copy(),
                    display: copy_display(display),
                    elapsed: batch.slot_elapsed(slot, now),
                },
            )
        },
        None => projection::no_steps(),
    }
}

/// The step that shows a single call as cancelled, where it still runs.
fn cancel_steps(batch: &LiveBatch) -> (plan: Vec<Projection>)
    ensures
        ({
            let slots = batch.deep_view().slots;
            let at = running_from(slots, 0);
            plan.deep_view() == (if batch.cell_index is Some && at < slots.len() {
                seq![
                    ProjectionView::Cancelled {
                        cell: batch.cell_index->0,
                        tool_name: slots[at].tool_name,
                        arguments: slots[at].arguments,
                    },
                ]
            } else {
                Seq::empty()
            })
        }),
{
    let ghost slots = batch.deep_view().slots;
    assert(slots.len() == batch.slots@.len());
    let cell = match batch.cell_index {
        Some(cell) => cell,
        None => return projection::no_steps(),
    };
    let mut i: usize = 0;
    while i < batch.slots.len()
        invariant
            i <= batch.slots.len(),
            slots == batch.deep_view().slots,
            slots.len() == batch.slots@.len(),
            batch.cell_index == Some(cell),
            running_from(slots, 0) == running_from(slots, i as int),
        decreases batch.slots.len() - i,
    {
        let slot = &batch.slots[i];
        assert(slots[i as int] == slot.deep_view());
        if slot.settled.is_none() {
            return projection::one_step(
                Projection::Cancelled {
                    cell,
                    tool_name: slot.tool_name.clone(),
                    arguments: slot.arguments.clone(),
                },
            );
        }
        i += 1;
    }
    projection::no_steps()
}

proof fn nothing_runs_from(slots: Seq<SlotView>, i: int)
    requires
        0 <= i <= slots.len(),
        forall|k: int| 0 <= k < slots.len() ==> (#[trigger] slots[k]).settled is Some,
    ensures
        running_from(slots, i) == slots.len(),
    decreases slots.len() - i,
{
    if i < slots.len() {
        nothing_runs_from(slots, i + 1);
    }
}

// ---------------------------------------------------------------------------
// Laws
// ---------------------------------------------------------------------------

/// A call that settled stays as it settled: cancelling rewrites only what still
/// runs.
pub proof fn settled_calls_are_not_cancelled(a: AppView)
    requires
        a.tool_batch is Some,
        forall|i: int|
            0 <= i < a.tool_batch->0.slots.len() ==> (
            #[trigger] a.tool_batch->0.slots[i]).settled is Some,
    ensures
        a.tool_batch->0.total == 1 ==> tools_cancelled(a).1.len() == 0,
        tools_cancelled(a).0 == a,
{
    let batch = a.tool_batch->0;
    nothing_runs_from(batch.slots, 0);
    assert(batch_cancelled(batch).slots =~= batch.slots);
}

/// Whatever else an event does, an event that is told comes behind all text
/// that was queued before it.
pub proof fn events_come_behind_the_stream(a: AppView, event: FrontendOperationEvent, now: u64)
    requires
        !(event is TextDelta),
        !(event is ReasoningDelta),
        !(event is CancellationRequested),
        !(event is TurnCancelled),
    ensures
        evented(a, event, now).0.stream.len() == 0,
        evented(a, event, now).1.len() >= a.stream.len(),
        evented(a, event, now).1.take(a.stream.len() as int) == pieces_written(a.stream),
{
    reveal(evented);
    reveal(tool_evented);
    let plan = evented(a, event, now).1;
    assert(plan.take(a.stream.len() as int) =~= pieces_written(a.stream));
}

/// Cancelling shows everything that was queued at once.
pub proof fn cancelling_reveals_the_stream(a: AppView, event: FrontendOperationEvent, now: u64)
    requires
        event is CancellationRequested || event is TurnCancelled,
    ensures
        evented(a, event, now).0.stream.len() == 0,
        forall|i: int|
            0 <= i < a.stream.len() ==> evented(a, event, now).1.contains(
                #[trigger] pieces_written(a.stream)[i],
            ),
{
    reveal(evented);
    let b = telemetry(AppView { run_state: run_step(a.run_state, event, now), ..a }, event);
    let c = tools_cancelled(b);
    let plan = evented(a, event, now).1;
    assert forall|i: int| 0 <= i < a.stream.len() implies plan.contains(
        #[trigger] pieces_written(a.stream)[i],
    ) by {
        assert(plan[c.1.len() + i] == pieces_written(a.stream)[i]);
    }
}

/// Two `Ctrl+C`s on an idle, empty prompt without a selection leave.
pub proof fn double_interrupt_quits(a: AppView)
    requires
        clipboard_copy(a) is None,
        empty_draft(a),
        !a.manual_compacting,
        !a.status.busy,
        !a.exit_armed,
    ensures
        interrupt_pressed(a).0.exit_armed,
        interrupt_pressed(interrupt_pressed(a).0).1 == only(EffectView::Quit),
{
    reveal(interrupt_pressed);
}

/// Idle and busy are what was last said, and an idle agent without a manual
/// compaction shows no run state.
pub proof fn idle_clears_the_run_state(a: AppView, now: u64)
    ensures
        busy_set(a, true, now).status.busy,
        !busy_set(a, false, now).status.busy,
        !a.manual_compacting ==> busy_set(a, false, now).run_state == idle() && !busy_set(
            a,
            false,
            now,
        ).status.compacting,
{
}

/// `Esc` cancels a compaction that was asked for, otherwise the turn that runs,
/// otherwise nothing; it never touches the draft.
pub proof fn escape_cancels_what_runs(a: AppView)
    ensures
        a.manual_compacting ==> escaped(a).1 == seq![EffectView::CancelCompaction],
        !a.manual_compacting && a.status.busy ==> escaped(a).1 == seq![EffectView::CancelActive],
        !a.manual_compacting && !a.status.busy ==> escaped(a).1.len() == 0,
        escaped(a).0 == (AppView { selection: None, ..a }),
{
}

/// `Ctrl+C` does the first thing that there is to do: a draft is cleared, and
/// only an empty prompt cancels what runs, or arms the exit and then leaves.
pub proof fn interrupts_go_step_by_step(a: AppView)
    requires
        clipboard_copy(a) is None,
    ensures
        ({
            let (next, effects) = interrupt_pressed(a);
            &&& !empty_draft(a) ==> effects.len() == 0 && next.input == blank()
                && next.attachments == a.attachments && next.submit_state == a.submit_state
            &&& empty_draft(a) && a.manual_compacting ==> effects == seq![
                EffectView::CancelCompaction,
            ]
            &&& empty_draft(a) && !a.manual_compacting && a.status.busy ==> effects == seq![
                EffectView::InterruptCancel,
            ]
            &&& empty_draft(a) && !a.manual_compacting && !a.status.busy && a.exit_armed
                ==> effects == seq![EffectView::Quit]
            &&& empty_draft(a) && !a.manual_compacting && !a.status.busy && !a.exit_armed
                ==> next.exit_armed && effects.len() == 1 && effects[0] is Append
            &&& empty_draft(a) ==> next.input == a.input
        }),
{
    reveal(interrupt_pressed);
}

/// A selection is copied before anything else, and stays.
pub proof fn interrupts_copy_first(a: AppView)
    requires
        clipboard_copy(a) is Some,
    ensures
        interrupt_pressed(a).1 == seq![clipboard_copy(a).unwrap()],
        interrupt_pressed(a).0.input == a.input,
        interrupt_pressed(a).0.selection == a.selection,
        !interrupt_pressed(a).0.exit_armed,
{
    reveal(interrupt_pressed);
}

/// What arrives is queued behind what waits, in order and under its kind; nothing
/// is queued of nothing.
pub proof fn deltas_queue_in_order(a: AppView, kind: LineKind, text: Seq<char>)
    ensures
        text.len() > 0 ==> paced(a, kind, text).stream == a.stream.push(PieceText { kind, text }),
        text.len() == 0 ==> paced(a, kind, text).stream == a.stream,
{
}

/// What the model writes is queued as an answer, what it thinks as a thought where
/// thoughts are shown, and neither is told at once.
pub proof fn the_stream_keeps_its_kinds(a: AppView, event: FrontendOperationEvent, now: u64)
    ensures
        event is TextDelta && (event->TextDelta_delta)@.len() > 0 ==> evented(
            a,
            event,
            now,
        ).0.stream == a.stream.push(
            PieceText { kind: LineKind::Answer, text: (event->TextDelta_delta)@ },
        ) && evented(a, event, now).1.len() == 0,
        event is ReasoningDelta && a.show_reasoning && (event->ReasoningDelta_text)@.len() > 0
            ==> evented(a, event, now).0.stream == a.stream.push(
            PieceText { kind: LineKind::Reasoning, text: (event->ReasoningDelta_text)@ },
        ) && evented(a, event, now).1.len() == 0,
{
    reveal(evented);
}

/// Usage is shown at once and kept for its session; a compaction that completed
/// makes what was shown stale.
pub proof fn usage_is_kept_for_its_session(
    a: AppView,
    event: FrontendOperationEvent,
    other: Seq<char>,
)
    requires
        event is ModelUsageUpdated,
        other != a.status.session,
    ensures
        telemetry(a, event).status.usage == Some(event->ModelUsageUpdated_usage),
        telemetry(a, event).usage_cache.contains_key(a.status.session),
        telemetry(a, event).usage_cache[a.status.session] == event->ModelUsageUpdated_usage,
        telemetry(a, event).usage_cache.contains_key(other) == a.usage_cache.contains_key(other),
        a.usage_cache.contains_key(other) ==> telemetry(a, event).usage_cache[other]
            == a.usage_cache[other],
{
}

/// A compaction shows from its start to its end, however it ends.
pub proof fn compactions_show_until_they_end(a: AppView, event: FrontendOperationEvent)
    ensures
        event is ContextCompactionStarted ==> telemetry(a, event).status.compacting,
        event is ContextCompactionFailed || event is ContextCompactionCompleted ==> telemetry(
            a,
            event,
        ).status.compacting == a.manual_compacting,
        event is ContextCompactionFailed ==> telemetry(a, event).status.usage == a.status.usage,
{
}

/// The end of a turn tells how long it took and leaves no tools behind.
pub proof fn turns_end_with_their_time(a: AppView, event: FrontendOperationEvent, now: u64)
    requires
        event is OperationSettled || event is TurnFailed,
        a.run_state.started is Some,
        a.run_state.started.unwrap() <= now,
    ensures
        evented(a, event, now).0.tool_batch is None,
        evented(a, event, now).0.run_state.phase is None,
        evented(a, event, now).0.stream.len() == 0,
        evented(a, event, now).1.len() > 0,
        evented(a, event, now).1.last() == (ProjectionView::Event {
            elapsed: Some((now - a.run_state.started.unwrap()) as u64),
        }),
{
    reveal(evented);
}

/// A tool that starts outside any batch opens one of its own, which lists it.
pub proof fn started_tools_are_in_a_batch(
    a: AppView,
    index: usize,
    tool_name: Seq<char>,
    arguments: Seq<char>,
    now: u64,
)
    requires
        a.tool_batch is None,
    ensures
        ({
            let next = tool_started(a, index, tool_name, arguments, now).0;
            &&& next.tool_batch is Some
            &&& next.tool_batch.unwrap().total == 1
            &&& next.tool_batch.unwrap().slots.len() == 1
            &&& next.tool_batch.unwrap().slots[0].tool_name == tool_name
            &&& next.tool_batch.unwrap().slots[0].arguments == arguments
            &&& next.tool_batch.unwrap().slots[0].settled is None
        }),
{
}

/// A tick turns the spinner while something runs, and releases of the stream what
/// is due; what was released and what waits is what waited before.
pub proof fn ticks_release_in_order(a: AppView, dt_nanos: u64)
    ensures
        a.run_state.phase is Some ==> ticked(a, dt_nanos).0.run_state.spinner
            == (a.run_state.spinner + 1) % 10,
        a.run_state.phase is None ==> ticked(a, dt_nanos).0.run_state == a.run_state,
        crate::app::pacer::stream(drained(a.stream, a.stream_owed, dt_nanos).0)
            + crate::app::pacer::stream(ticked(a, dt_nanos).0.stream)
            == crate::app::pacer::stream(a.stream),
{
    reveal(ticked);
    let n = crate::app::pacer::due(a.stream, a.stream_owed, dt_nanos);
    crate::app::pacer::pacing_preserves_the_stream(a.stream, n);
    assert(crate::app::pacer::stream(Seq::empty()) + crate::app::pacer::stream(a.stream)
        =~= crate::app::pacer::stream(a.stream));
}

} // verus!
