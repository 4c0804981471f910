//! Run-state word machine: the single ephemeral word in the composer's top-left
//! corner.
//!
//! One word, one timer. Times are milliseconds of a clock the caller reads.

use vstd::prelude::*;

use super::frontend::FrontendOperationEvent;
use super::text;
use super::text::{cell_width, ellipsized};
use crate::strs;
use crate::strs::decimal;

verus! {

/// The seven run phases behind the state word.
#[derive(Clone, Copy, Debug, PartialEq, Eq, Structural)]
pub enum Phase {
    Waiting,
    Thinking,
    Writing,
    Running,
    Retrying,
    Compacting,
    Cancelling,
}

/// The sticky priority chain: a lower phase never overrides a higher one.
pub open spec fn rank(phase: Phase) -> u8 {
    match phase {
        Phase::Cancelling => 5,
        Phase::Compacting => 4,
        Phase::Running => 3,
        Phase::Thinking | Phase::Writing => 2,
        Phase::Waiting | Phase::Retrying => 1,
    }
}

pub open spec fn phase_word(phase: Phase) -> Seq<char> {
    match phase {
        Phase::Waiting => "Waiting"@,
        Phase::Thinking => "Thinking"@,
        Phase::Writing => "Writing"@,
        Phase::Running => "Running"@,
        Phase::Retrying => "Retrying"@,
        Phase::Compacting => "Compacting"@,
        Phase::Cancelling => "Cancelling"@,
    }
}

impl Phase {
    pub fn priority(self) -> (level: u8)
        ensures
            level == rank(self),
    {
        match self {
            Phase::Cancelling => 5,
            Phase::Compacting => 4,
            Phase::Running => 3,
            Phase::Thinking | Phase::Writing => 2,
            Phase::Waiting | Phase::Retrying => 1,
        }
    }

    pub fn word(self) -> (word: &'static str)
        ensures
            word@ == phase_word(self),
    {
        match self {
            Phase::Waiting => "Waiting",
            Phase::Thinking => "Thinking",
            Phase::Writing => "Writing",
            Phase::Running => "Running",
            Phase::Retrying => "Retrying",
            Phase::Compacting => "Compacting",
            Phase::Cancelling => "Cancelling",
        }
    }
}

/// How many frames the spinner has.
pub const SPINNER_LEN: usize = 10;

pub open spec fn spinner_text(frame: int) -> Seq<char> {
    if frame == 0 {
        "⠋"@
    } else if frame == 1 {
        "⠙"@
    } else if frame == 2 {
        "⠹"@
    } else if frame == 3 {
        "⠸"@
    } else if frame == 4 {
        "⠼"@
    } else if frame == 5 {
        "⠴"@
    } else if frame == 6 {
        "⠦"@
    } else if frame == 7 {
        "⠧"@
    } else if frame == 8 {
        "⠇"@
    } else {
        "⠏"@
    }
}

proof fn spinner_is_one_character(frame: int)
    ensures
        spinner_text(frame).len() == 1,
{
    reveal_strlit("⠋");
    reveal_strlit("⠙");
    reveal_strlit("⠹");
    reveal_strlit("⠸");
    reveal_strlit("⠼");
    reveal_strlit("⠴");
    reveal_strlit("⠦");
    reveal_strlit("⠧");
    reveal_strlit("⠇");
    reveal_strlit("⠏");
}

/// One frame of the braille spinner.
pub fn spinner_at(frame: usize) -> (text: &'static str)
    ensures
        text@ == spinner_text(frame as int),
{
    if frame == 0 {
        "⠋"
    } else if frame == 1 {
        "⠙"
    } else if frame == 2 {
        "⠹"
    } else if frame == 3 {
        "⠸"
    } else if frame == 4 {
        "⠼"
    } else if frame == 5 {
        "⠴"
    } else if frame == 6 {
        "⠦"
    } else if frame == 7 {
        "⠧"
    } else if frame == 8 {
        "⠇"
    } else {
        "⠏"
    }
}

/// Ephemeral operation projection driving the top-left corner.
#[derive(Debug)]
pub struct RunState {
    pub phase: Option<Phase>,
    /// When the turn began: survives every phase change, stops at settlement.
    pub started: Option<u64>,
    pub spinner: usize,
    /// Tool executions opened but not yet completed.
    pub live_tools: Vec<usize>,
}

/// A [`RunState`] as a mathematical value.
pub struct RunView {
    pub phase: Option<Phase>,
    pub started: Option<u64>,
    pub spinner: usize,
    pub live: Seq<usize>,
}

impl View for RunState {
    type V = RunView;

    open spec fn view(&self) -> RunView {
        RunView {
            phase: self.phase,
            started: self.started,
            spinner: self.spinner,
            live: self.live_tools@,
        }
    }
}

/// No word, no timer.
pub open spec fn idle() -> RunView {
    RunView { phase: None, started: None, spinner: 0, live: Seq::empty() }
}

/// The state with the clock running, where no phase owned the corner before.
pub open spec fn clocked(state: RunView, now: u64) -> RunView {
    if state.phase is None && state.started is None {
        RunView { started: Some(now), ..state }
    } else {
        state
    }
}

/// The state in phase `next`, whatever it was in.
pub open spec fn replaced(state: RunView, next: Phase, now: u64) -> RunView {
    RunView { phase: Some(next), ..clocked(state, now) }
}

/// The state in phase `next`, unless a higher phase owns the corner.
pub open spec fn raised(state: RunView, next: Phase, now: u64) -> RunView {
    if state.phase is Some && rank(state.phase->0) > rank(next) {
        state
    } else {
        replaced(state, next, now)
    }
}

/// A structural boundary: back to the baseline, unless a higher sticky phase
/// owns the corner.
pub open spec fn demoted(state: RunView, now: u64) -> RunView {
    if state.phase is Some && rank(state.phase->0) > rank(Phase::Running) {
        state
    } else {
        replaced(state, Phase::Waiting, now)
    }
}

/// The indices without one of them.
pub open spec fn without(live: Seq<usize>, index: usize) -> Seq<usize>
    decreases live.len(),
{
    if live.len() == 0 {
        Seq::empty()
    } else {
        let rest = without(live.drop_last(), index);
        if live.last() == index {
            rest
        } else {
            rest.push(live.last())
        }
    }
}

/// The effect of one event on the corner.
pub open spec fn run_step(state: RunView, event: FrontendOperationEvent, now: u64) -> RunView {
    match event {
        FrontendOperationEvent::OperationStarted { .. }
        | FrontendOperationEvent::TurnStarted { .. }
        | FrontendOperationEvent::ModelCallStarted { .. }
        | FrontendOperationEvent::ModelResponseStarted { .. }
        | FrontendOperationEvent::AssistantMessageCompleted { .. } => demoted(state, now),
        FrontendOperationEvent::ReasoningDelta { .. } => raised(state, Phase::Thinking, now),
        FrontendOperationEvent::TextDelta { .. } => raised(state, Phase::Writing, now),
        FrontendOperationEvent::ToolExecutionStarted { index, .. } => raised(
            RunView {
                live: if state.live.contains(index) {
                    state.live
                } else {
                    state.live.push(index)
                },
                ..state
            },
            Phase::Running,
            now,
        ),
        FrontendOperationEvent::ToolExecutionCompleted { index, .. } => {
            let rest = RunView { live: without(state.live, index), ..state };
            if rest.live.len() == 0 && state.phase == Some(Phase::Running) {
                replaced(rest, Phase::Waiting, now)
            } else {
                rest
            }
        },
        FrontendOperationEvent::ContextCompactionStarted => raised(state, Phase::Compacting, now),
        FrontendOperationEvent::ContextCompactionCompleted { .. }
        | FrontendOperationEvent::ContextCompactionFailed { .. } => if state.phase == Some(
            Phase::Compacting,
        ) {
            replaced(state, Phase::Waiting, now)
        } else {
            state
        },
        FrontendOperationEvent::CancellationRequested { .. }
        | FrontendOperationEvent::TurnCancelled { .. } => replaced(state, Phase::Cancelling, now),
        FrontendOperationEvent::ModelRetryScheduled { .. } => raised(state, Phase::Retrying, now),
        FrontendOperationEvent::TurnFailed { .. }
        | FrontendOperationEvent::OperationSettled { .. } => idle(),
        FrontendOperationEvent::OperationQueued { .. }
        | FrontendOperationEvent::ToolBatchRequested { .. }
        | FrontendOperationEvent::ToolExecutionProgress { .. }
        | FrontendOperationEvent::ModelUsageUpdated { .. }
        | FrontendOperationEvent::PriorTurnSealed { .. } => state,
    }
}

/// Whether the event ends the turn.
pub open spec fn ends_turn(event: FrontendOperationEvent) -> bool {
    event is TurnFailed || event is OperationSettled
}

/// A whole number of seconds, as minutes and seconds from a minute up.
pub open spec fn elapsed_text(elapsed: u64) -> Seq<char> {
    let secs = elapsed as nat / 1000;
    if secs >= 60 {
        decimal(secs / 60) + "m"@ + decimal(secs % 60) + "s"@
    } else {
        decimal(secs) + "s"@
    }
}

/// Milliseconds below a second, whole seconds from there on.
pub open spec fn think_elapsed_text(elapsed: u64) -> Seq<char> {
    if elapsed < 1000 {
        decimal(elapsed as nat) + "ms"@
    } else {
        elapsed_text(elapsed)
    }
}

/// `≥1m` renders as `1m23s`; below that a bare `42s`.
pub fn format_elapsed(elapsed: u64) -> (text: String)
    ensures
        text@ == elapsed_text(elapsed),
{
    let secs: u64 = elapsed / 1000;
    if secs >= 60 {
        let mut text = strs::number(secs / 60);
        text.push_str("m");
        text.push_str(strs::number(secs % 60).as_str());
        text.push_str("s");
        text
    } else {
        strs::cat(strs::number(secs).as_str(), "s")
    }
}

/// Think-header durations: sub-second spans render as milliseconds.
pub fn format_think_elapsed(elapsed: u64) -> (text: String)
    ensures
        text@ == think_elapsed_text(elapsed),
{
    if elapsed < 1000 {
        strs::cat(strs::number(elapsed).as_str(), "ms")
    } else {
        format_elapsed(elapsed)
    }
}

/// Time since `started`, zero where the clock reads earlier than that.
pub open spec fn since(started: u64, now: u64) -> u64 {
    if now > started {
        (now - started) as u64
    } else {
        0
    }
}

/// The turn time at `now`.
pub open spec fn turn_elapsed(state: RunView, now: u64) -> Option<u64> {
    match state.started {
        Some(started) => Some(since(started, now)),
        None => None,
    }
}

impl RunState {
    pub fn new() -> (state: RunState)
        ensures
            state@ == idle(),
    {
        let state = RunState { phase: None, started: None, spinner: 0, live_tools: Vec::new() };
        proof {
            assert(state.live_tools@ =~= Seq::<usize>::empty());
        }
        state
    }

    pub fn is_active(&self) -> (yes: bool)
        ensures
            yes == (self@.phase is Some),
    {
        self.phase.is_some()
    }

    /// Terminal events and session switches clear the word and the timer.
    pub fn clear(&mut self)
        ensures
            final(self)@ == idle(),
    {
        self.phase = None;
        self.live_tools = Vec::new();
        self.started = None;
        self.spinner = 0;
        proof {
            assert(self.live_tools@ =~= Seq::<usize>::empty());
        }
    }

    /// Braille spinner frame — the only animated element in the UI.
    pub fn advance_spinner(&mut self)
        ensures
            final(self)@ == (if old(self)@.phase is Some {
                RunView {
                    spinner: ((old(self)@.spinner + 1) % SPINNER_LEN as int) as usize,
                    ..old(self)@
                }
            } else {
                old(self)@
            }),
    {
        if self.is_active() {
            self.spinner = (self.spinner % SPINNER_LEN + 1) % SPINNER_LEN;
        }
    }

    /// The frame the spinner shows.
    pub fn spinner_frame(&self) -> (text: &'static str)
        ensures
            text@ == spinner_text(self@.spinner as int % SPINNER_LEN as int),
    {
        spinner_at(self.spinner % SPINNER_LEN)
    }

    /// Manual `/compact` takes the corner unconditionally.
    pub fn start_manual_compaction(&mut self, now: u64)
        ensures
            final(self)@ == replaced(
                RunView { live: Seq::empty(), ..old(self)@ },
                Phase::Compacting,
                now,
            ),
    {
        self.live_tools = Vec::new();
        proof {
            assert(self.live_tools@ =~= Seq::<usize>::empty());
        }
        self.replace(Phase::Compacting, now);
    }

    /// Busy with no word yet: show the baseline unless a sticky higher phase
    /// already owns the corner.
    pub fn ensure_waiting(&mut self, now: u64)
        ensures
            final(self)@ == raised(old(self)@, Phase::Waiting, now),
    {
        self.set(Phase::Waiting, now);
    }

    /// Manual compaction settles to an empty corner.
    pub fn finish_manual_compaction(&mut self)
        ensures
            final(self)@ == (if old(self)@.phase == Some(Phase::Compacting) {
                idle()
            } else {
                old(self)@
            }),
    {
        if let Some(Phase::Compacting) = self.phase {
            self.clear();
        }
    }

    /// Applies one event.
    pub fn on_event(&mut self, event: &FrontendOperationEvent, now: u64)
        ensures
            final(self)@ == run_step(old(self)@, *event, now),
    {
        match event {
            FrontendOperationEvent::OperationStarted { .. }
            | FrontendOperationEvent::TurnStarted { .. }
            | FrontendOperationEvent::ModelCallStarted { .. }
            | FrontendOperationEvent::ModelResponseStarted { .. }
            | FrontendOperationEvent::AssistantMessageCompleted { .. } => {
                self.demote_to_waiting(now);
            },
            FrontendOperationEvent::ReasoningDelta { .. } => self.set(Phase::Thinking, now),
            FrontendOperationEvent::TextDelta { .. } => self.set(Phase::Writing, now),
            FrontendOperationEvent::ToolExecutionStarted { index, .. } => {
                self.note_started(*index);
                self.set(Phase::Running, now);
            },
            FrontendOperationEvent::ToolExecutionCompleted { index, .. } => {
                self.note_completed(*index);
                let running = match self.phase {
                    Some(Phase::Running) => true,
                    _ => false,
                };
                if self.live_tools.len() == 0 && running {
                    self.replace(Phase::Waiting, now);
                }
            },
            FrontendOperationEvent::ContextCompactionStarted => self.set(Phase::Compacting, now),
            FrontendOperationEvent::ContextCompactionCompleted { .. }
            | FrontendOperationEvent::ContextCompactionFailed { .. } => {
                if let Some(Phase::Compacting) = self.phase {
                    self.replace(Phase::Waiting, now);
                }
            },
            FrontendOperationEvent::CancellationRequested { .. }
            | FrontendOperationEvent::TurnCancelled { .. } => {
                self.replace(Phase::Cancelling, now);
            },
            FrontendOperationEvent::ModelRetryScheduled { .. } => self.set(Phase::Retrying, now),
            FrontendOperationEvent::TurnFailed { .. }
            | FrontendOperationEvent::OperationSettled { .. } => self.clear(),
            FrontendOperationEvent::OperationQueued { .. }
            | FrontendOperationEvent::ToolBatchRequested { .. }
            | FrontendOperationEvent::ToolExecutionProgress { .. }
            | FrontendOperationEvent::ModelUsageUpdated { .. }
            | FrontendOperationEvent::PriorTurnSealed { .. } => {},
        }
    }

    fn note_started(&mut self, index: usize)
        ensures
            final(self)@ == (RunView {
                live: if old(self)@.live.contains(index) {
                    old(self)@.live
                } else {
                    old(self)@.live.push(index)
                },
                ..old(self)@
            }),
    {
        let mut i: usize = 0;
        while i < self.live_tools.len()
            invariant
                i <= self.live_tools.len(),
                *self == *old(self),
                forall|k: int| 0 <= k < i ==> self.live_tools@[k] != index,
            decreases self.live_tools.len() - i,
        {
            if self.live_tools[i] == index {
                assert(self.live_tools@[i as int] == index);
                return ;
            }
            i += 1;
        }
        self.live_tools.push(index);
    }

    fn note_completed(&mut self, index: usize)
        ensures
            final(self)@ == (RunView {
                live: without(old(self)@.live, index),
                ..old(self)@
            }),
    {
        let mut rest: Vec<usize> = Vec::new();
        let mut i: usize = 0;
        proof {
            assert(rest@ =~= without(self.live_tools@.take(0), index));
        }
        while i < self.live_tools.len()
            invariant
                i <= self.live_tools.len(),
                *self == *old(self),
                rest@ == without(self.live_tools@.take(i as int), index),
            decreases self.live_tools.len() - i,
        {
            proof {
                assert(self.live_tools@.take(i as int + 1).drop_last() =~= self.live_tools@.take(
                    i as int,
                ));
            }
            if self.live_tools[i] != index {
                rest.push(self.live_tools[i]);
            }
            i += 1;
        }
        proof {
            assert(self.live_tools@.take(i as int) =~= self.live_tools@);
        }
        self.live_tools = rest;
    }

    /// Priority-guarded transition; starts the turn clock on first use.
    fn set(&mut self, next: Phase, now: u64)
        ensures
            final(self)@ == raised(old(self)@, next, now),
    {
        if let Some(current) = self.phase {
            if current.priority() > next.priority() {
                return ;
            }
        }
        self.replace(next, now);
    }

    /// Unguarded replacement for explicit demotions and the sticky cancel
    /// takeover.
    fn replace(&mut self, next: Phase, now: u64)
        ensures
            final(self)@ == replaced(old(self)@, next, now),
    {
        if self.phase.is_none() && self.started.is_none() {
            self.started = Some(now);
        }
        self.phase = Some(next);
    }

    fn demote_to_waiting(&mut self, now: u64)
        ensures
            final(self)@ == demoted(old(self)@, now),
    {
        if let Some(current) = self.phase {
            if current.priority() > Phase::Running.priority() {
                return ;
            }
        }
        self.replace(Phase::Waiting, now);
    }

    /// Composer top-left corner content: `⠹ {State}… {elapsed} · esc cancel`,
    /// degrading deterministically — the timing drops first, then the word is
    /// truncated. `approval` swaps in the overlay flag word without touching the
    /// underlying phase.
    pub fn corner(&self, max_width: usize, approval: bool, now: u64) -> (corner: Option<CornerWord>)
        ensures
            corner.deep_view() == corner_for(self@, max_width as nat, approval, now),
            self@.phase == Some(Phase::Cancelling) && !approval && max_width >= 37
                ==> corner.deep_view()->0.word == "Cancelling"@ + "…"@,
    {
        let phase = match self.phase {
            Some(phase) => phase,
            None => return None,
        };
        let word = if approval {
            strs::cat("Approval", "…")
        } else {
            strs::cat(phase.word(), "…")
        };
        let timing = match self.elapsed(now) {
            Some(elapsed) => strs::cat(format_elapsed(elapsed).as_str(), " · esc cancel"),
            None => String::new(),
        };
        proof {
            spinner_is_one_character(self@.spinner as int % SPINNER_LEN as int);
            reveal_strlit("Cancelling");
            reveal_strlit("…");
        }
        let mut corner = CornerWord {
            spinner: self.spinner_frame().to_owned(),
            word,
            timing,
            warning: phase == Phase::Cancelling,
        };
        corner.degrade(max_width);
        Some(corner)
    }

    /// Current turn-elapsed reading, if a turn owns the clock.
    pub fn elapsed(&self, now: u64) -> (elapsed: Option<u64>)
        ensures
            elapsed == turn_elapsed(self@, now),
    {
        match self.started {
            Some(started) => Some(now.saturating_sub(started)),
            None => None,
        }
    }
}

impl Default for RunState {
    fn default() -> (state: RunState)
        ensures
            state@ == idle(),
    {
        RunState::new()
    }
}

/// Width-aware top-left corner projection consumed by the composer band.
#[derive(Clone, Debug, PartialEq, Eq)]
pub struct CornerWord {
    pub spinner: String,
    pub word: String,
    /// `{elapsed} · esc cancel`; empty once degradation drops it.
    pub timing: String,
    /// `Cancelling…` wears warn; every other word stays primary.
    pub warning: bool,
}

/// A [`CornerWord`] as a mathematical value.
pub struct CornerView {
    pub spinner: Seq<char>,
    pub word: Seq<char>,
    pub timing: Seq<char>,
    pub warning: bool,
}

impl DeepView for CornerWord {
    type V = CornerView;

    open spec fn deep_view(&self) -> CornerView {
        CornerView {
            spinner: self.spinner@,
            word: self.word@,
            timing: self.timing@,
            warning: self.warning,
        }
    }
}

/// The cells of the spinner, a blank and the word.
pub open spec fn word_cells(corner: CornerView) -> nat {
    cell_width(corner.spinner) as nat + 1 + cell_width(corner.word) as nat
}

/// The cells of the whole corner.
pub open spec fn corner_cells(corner: CornerView) -> nat {
    if corner.timing.len() == 0 {
        word_cells(corner)
    } else {
        word_cells(corner) + 1 + cell_width(corner.timing) as nat
    }
}

/// The corner within `max` cells: without its timing, then with a shorter word.
pub open spec fn degraded(corner: CornerView, max: nat) -> CornerView {
    if corner_cells(corner) <= max {
        corner
    } else if word_cells(corner) <= max {
        CornerView { timing: Seq::empty(), ..corner }
    } else {
        CornerView {
            timing: Seq::empty(),
            word: ellipsized(
                corner.word,
                if max > 2 {
                    (max - 2) as nat
                } else {
                    0
                },
            ),
            ..corner
        }
    }
}

/// The corner of a run state, none while nothing runs.
pub open spec fn corner_for(
    state: RunView,
    max: nat,
    approval: bool,
    now: u64,
) -> Option<CornerView> {
    match state.phase {
        Some(phase) => Some(
            degraded(
                CornerView {
                    spinner: spinner_text(state.spinner as int % SPINNER_LEN as int),
                    word: if approval {
                        "Approval"@ + "…"@
                    } else {
                        phase_word(phase) + "…"@
                    },
                    timing: match turn_elapsed(state, now) {
                        Some(elapsed) => elapsed_text(elapsed) + " · esc cancel"@,
                        None => Seq::empty(),
                    },
                    warning: phase == Phase::Cancelling,
                },
                max,
            ),
        ),
        None => None,
    }
}

impl CornerWord {
    fn word_width(&self) -> (cells: usize)
        ensures
            cells == super::prose::style::cap(word_cells(self.deep_view())),
    {
        text::width(self.spinner.as_str()).saturating_add(1).saturating_add(
            text::width(self.word.as_str()),
        )
    }

    /// The cells the corner takes, counted up to the largest machine number.
    pub fn painted_width(&self) -> (cells: usize)
        ensures
            cells == super::prose::style::cap(corner_cells(self.deep_view())),
    {
        let cells = self.word_width();
        if self.timing.as_str().is_empty() {
            cells
        } else {
            cells.saturating_add(1).saturating_add(text::width(self.timing.as_str()))
        }
    }

    /// Whether the given widths and one blank fit into `max` cells.
    fn degrade(&mut self, max_width: usize)
        ensures
            final(self).deep_view() == degraded(old(self).deep_view(), max_width as nat),
            3 * (old(self).spinner@.len() + old(self).word@.len()) + 1 <= max_width
                ==> final(self).word@ == old(self).word@,
    {
        let spinner = text::width(self.spinner.as_str());
        let word = text::width(self.word.as_str());
        let word_fits = spinner < max_width && word <= max_width - 1 - spinner;
        if word_fits {
            if self.timing.as_str().is_empty() {
                return ;
            }
            let left: usize = max_width - 1 - spinner - word;
            if left > 0 && text::width(self.timing.as_str()) <= left - 1 {
                return ;
            }
        }
        self.timing = String::new();
        if !word_fits {
            self.word = text::ellipsize(self.word.as_str(), max_width.saturating_sub(2));
        }
    }
}

// ---------------------------------------------------------------------------
// Laws
// ---------------------------------------------------------------------------

/// A cancellation is sticky: until the turn ends, no event takes the corner off
/// it.
pub proof fn cancelling_is_sticky(state: RunView, event: FrontendOperationEvent, now: u64)
    requires
        state.phase == Some(Phase::Cancelling),
        !ends_turn(event),
    ensures
        run_step(state, event, now).phase == Some(Phase::Cancelling),
{
}

/// The state after a run of events, each with the time it came.
pub open spec fn run_after(
    state: RunView,
    events: Seq<(FrontendOperationEvent, u64)>,
) -> RunView
    decreases events.len(),
{
    if events.len() == 0 {
        state
    } else {
        run_step(run_after(state, events.drop_last()), events.last().0, events.last().1)
    }
}

/// What the corner shows from the request to cancel a turn until the turn ends,
/// whatever else happens: a warning, and in full wherever it fits the word that
/// says so. [`RunState::corner`] gives it in full from thirty-seven cells on.
pub proof fn cancelled_turn_keeps_the_corner(
    state: RunView,
    request: FrontendOperationEvent,
    at: u64,
    events: Seq<(FrontendOperationEvent, u64)>,
    max: nat,
    now: u64,
)
    requires
        request is CancellationRequested,
        forall|i: int| 0 <= i < events.len() ==> !ends_turn((#[trigger] events[i]).0),
    ensures
        ({
            let after = run_after(run_step(state, request, at), events);
            let corner = corner_for(after, max, false, now);
            let spinner = spinner_text(after.spinner as int % SPINNER_LEN as int);
            &&& after.phase == Some(Phase::Cancelling)
            &&& corner is Some
            &&& corner->0.warning
            &&& cell_width(spinner) + 1 + cell_width("Cancelling"@ + "…"@) <= max
                ==> corner->0.word == "Cancelling"@ + "…"@
        }),
    decreases events.len(),
{
    if events.len() > 0 {
        let before = events.drop_last();
        assert forall|i: int| 0 <= i < before.len() implies !ends_turn((#[trigger] before[i]).0) by {
            assert(before[i] == events[i]);
        }
        cancelled_turn_keeps_the_corner(state, request, at, before, max, now);
        assert(!ends_turn(events[events.len() - 1].0));
        cancelling_is_sticky(
            run_after(run_step(state, request, at), before),
            events.last().0,
            events.last().1,
        );
    }
}

/// The end of a turn clears the word, the timer and the tools, whatever they
/// were.
pub proof fn terminal_events_clear(state: RunView, event: FrontendOperationEvent, now: u64)
    requires
        ends_turn(event),
    ensures
        run_step(state, event, now) == idle(),
{
}

/// The turn clock spans phase changes: once running, it is only stopped by the
/// end of the turn.
pub proof fn clock_spans_phases(state: RunView, event: FrontendOperationEvent, now: u64)
    requires
        state.phase is Some,
        !ends_turn(event),
    ensures
        run_step(state, event, now).started == state.started,
        run_step(state, event, now).phase is Some,
{
}

/// The corner is on the clock from the moment it shows a word.
pub proof fn first_word_starts_the_clock(state: RunView, event: FrontendOperationEvent, now: u64)
    requires
        state.phase is None,
        state.started is None,
    ensures
        run_step(state, event, now).phase is Some ==> run_step(state, event, now).started == Some(
            now,
        ),
        run_step(state, event, now).phase is None ==> run_step(state, event, now).started is None,
{
}

/// Streaming and tool words never override a higher one; only an explicit
/// demotion, a settlement or a cancellation lowers the rank.
pub proof fn streaming_respects_rank(state: RunView, event: FrontendOperationEvent, now: u64)
    requires
        state.phase is Some,
        event is ReasoningDelta || event is TextDelta || event is ToolExecutionStarted || event
            is ContextCompactionStarted || event is ModelRetryScheduled,
    ensures
        rank(run_step(state, event, now).phase->0) >= rank(state.phase->0),
{
}

/// The corner always fits the word budget: the timing is dropped before the word
/// is shortened.
pub proof fn timing_drops_first(corner: CornerView, max: nat)
    ensures
        degraded(corner, max).timing.len() > 0 ==> degraded(corner, max) == corner,
        word_cells(corner) <= max ==> degraded(corner, max).word == corner.word,
        degraded(corner, max).spinner == corner.spinner,
        degraded(corner, max).warning == corner.warning,
{
}

/// A turn's time is told in seconds, from a minute on in minutes and the seconds
/// beyond them, and never rounded up.
pub proof fn time_is_told_in_minutes_and_seconds(elapsed: u64, minutes: nat, seconds: nat)
    requires
        1000 * (60 * minutes + seconds) <= elapsed < 1000 * (60 * minutes + seconds + 1),
        seconds < 60,
    ensures
        minutes == 0 ==> elapsed_text(elapsed) == decimal(seconds) + "s"@,
        minutes > 0 ==> elapsed_text(elapsed) == decimal(minutes) + "m"@ + decimal(seconds) + "s"@,
        elapsed < 1000 ==> think_elapsed_text(elapsed) == decimal(elapsed as nat) + "ms"@,
        elapsed >= 1000 ==> think_elapsed_text(elapsed) == elapsed_text(elapsed),
{
    let secs = elapsed as nat / 1000;
    assert(secs == 60 * minutes + seconds);
    assert(secs / 60 == minutes && secs % 60 == seconds);
}

/// A tool that ended is no longer live, and every other one still is.
pub proof fn ended_tools_are_not_live(live: Seq<usize>, index: usize, other: usize)
    ensures
        without(live, index).contains(other) <==> live.contains(other) && other != index,
    decreases live.len(),
{
    if live.len() > 0 {
        let before = live.drop_last();
        ended_tools_are_not_live(before, index, other);
        assert(live =~= before.push(live.last()));
        vstd::seq_lib::lemma_seq_contains_after_push(before, live.last(), other);
        vstd::seq_lib::lemma_seq_contains_after_push(
            without(before, index),
            live.last(),
            other,
        );
    } else {
        assert(!live.contains(other));
        assert(!without(live, index).contains(other));
    }
}

/// While tools run the word says so: it is shown from the start of the first to
/// the end of the last, whichever ends first.
pub proof fn running_lasts_until_the_last_tool_ends(
    state: RunView,
    event: FrontendOperationEvent,
    now: u64,
)
    requires
        event is ToolExecutionCompleted,
        state.phase == Some(Phase::Running),
    ensures
        (exists|other: usize|
            other != event->ToolExecutionCompleted_index && #[trigger] state.live.contains(other))
            ==> run_step(state, event, now).phase == Some(Phase::Running),
        (forall|other: usize| #[trigger]
            state.live.contains(other) ==> other == event->ToolExecutionCompleted_index)
            ==> run_step(state, event, now).phase == Some(Phase::Waiting),
{
    let index = event->ToolExecutionCompleted_index;
    let rest = without(state.live, index);
    if exists|other: usize| other != index && #[trigger] state.live.contains(other) {
        let other = choose|other: usize| other != index && #[trigger] state.live.contains(other);
        ended_tools_are_not_live(state.live, index, other);
        assert(rest.len() > 0);
    }
    if forall|other: usize| #[trigger] state.live.contains(other) ==> other == index {
        if rest.len() > 0 {
            assert(rest.contains(rest[0]));
            ended_tools_are_not_live(state.live, index, rest[0]);
        }
    }
}

/// Each event names its phase: what a quieter phase shows gives way to what the
/// event brings, and a retry shows only while nothing else does.
pub proof fn events_name_their_phase(state: RunView, event: FrontendOperationEvent, now: u64)
    ensures
        ({
            let next = run_step(state, event, now).phase;
            let held = state.phase == Some(Phase::Cancelling) || state.phase == Some(
                Phase::Compacting,
            );
            let quiet = state.phase is None || state.phase == Some(Phase::Waiting) || state.phase
                == Some(Phase::Retrying);
            &&& event is ReasoningDelta ==> next == if held || state.phase == Some(Phase::Running) {
                state.phase
            } else {
                Some(Phase::Thinking)
            }
            &&& event is TextDelta ==> next == if held || state.phase == Some(Phase::Running) {
                state.phase
            } else {
                Some(Phase::Writing)
            }
            &&& event is ToolExecutionStarted ==> next == if held {
                state.phase
            } else {
                Some(Phase::Running)
            }
            &&& event is ContextCompactionStarted ==> next == if state.phase == Some(
                Phase::Cancelling,
            ) {
                state.phase
            } else {
                Some(Phase::Compacting)
            }
            &&& event is ModelRetryScheduled ==> next == if quiet {
                Some(Phase::Retrying)
            } else {
                state.phase
            }
            &&& event is TurnStarted || event is ModelCallStarted
                || event is AssistantMessageCompleted ==> next == if held {
                state.phase
            } else {
                Some(Phase::Waiting)
            }
            &&& event is CancellationRequested || event is TurnCancelled ==> next == Some(
                Phase::Cancelling,
            )
            &&& event is ContextCompactionCompleted || event is ContextCompactionFailed ==> next
                == if state.phase == Some(Phase::Compacting) {
                Some(Phase::Waiting)
            } else {
                state.phase
            }
        }),
{
}

/// With room enough the corner tells the phase's word and how long the turn has
/// been running; a question that waits for an answer takes the word's place, and
/// only a turn that is being cancelled is a warning.
pub proof fn the_corner_tells_word_and_time(state: RunView, approval: bool, now: u64, max: nat)
    requires
        state.phase is Some,
        state.started is Some,
        state.started.unwrap() <= now,
    ensures
        ({
            let word = if approval {
                "Approval"@ + "…"@
            } else {
                phase_word(state.phase.unwrap()) + "…"@
            };
            let timing = elapsed_text((now - state.started.unwrap()) as u64) + " · esc cancel"@;
            let corner = corner_for(state, max, approval, now).unwrap();
            &&& corner.spinner == spinner_text(state.spinner as int % 10)
            &&& corner.warning == (state.phase == Some(Phase::Cancelling))
            &&& cell_width(corner.spinner) + 1 + cell_width(word) + 1 + cell_width(timing) <= max
                ==> corner.word == word && corner.timing == timing
            &&& cell_width(corner.spinner) + 1 + cell_width(word) + 1 + cell_width(timing) > max
                && timing.len() > 0 ==> corner.timing.len() == 0
            &&& cell_width(corner.spinner) + 1 + cell_width(word) <= max ==> corner.word == word
        }),
        corner_for(RunView { phase: None, ..state }, max, approval, now) is None,
{
    reveal_strlit(" · esc cancel");
}

} // verus!
