//! The interaction state machine: key actions and agent updates go in,
//! transcript lines and side-effect requests come out.
//!
//! The clock is the caller's: wherever time matters, `now` is its reading in
//! milliseconds.

pub mod append_only;
pub mod browse;
pub mod coherence;
pub mod commands;
pub mod composer;
pub mod dispatch;
pub mod draft_safety;
pub mod menu;
pub mod overlays;
pub mod pointer;
pub mod runtime;
pub mod snapshot;
pub mod updates;

use std::collections::HashSet;

use vstd::prelude::*;

use super::attachment::{AttachmentView, Attachments};
use super::cells::{
    fresh_rows, heights_agree, row_heights, slice_for, SliceView, ThinkTiming, TranscriptStore,
    VisibleSlice,
};
use super::frontend::FrontendTokenUsage;
use super::input::{EditorView, HistoryView, InputEditor, InputHistory};
use super::live_tool::{BatchView, LiveBatch};
use super::overlay::{ConfirmPrompt, Picker, PickerView, PromptView};
use super::pacer::{PieceText, StreamPacer};
use super::prose::style::cap;
use super::run_state::{RunState, RunView};
use super::scroll;
use super::scroll::{following, heights, scrolled, total, window_offset, ScrollState};
use super::select::{BandLayout, Selection};
use super::session_cache::SessionCache;
use super::status::{StatusData, StatusView};
use super::submit::{SubmitState, SubmitView};
use super::transcript::{InfoLevel, LineKind, LineView, TranscriptLine};
use super::update::{ChoiceView, FrontendGenerationChoice};

use menu::{CommandMenu, MenuView};

verus! {

broadcast use vstd::std_specs::hash::group_hash_axioms;

/// Who owns the keyboard: the composer, or the history while it is browsed.
/// Overlays outrank both.
#[derive(Clone, Copy, Debug, PartialEq, Eq, Structural)]
pub enum FocusMode {
    Input,
    Browse,
}

/// How the next loaded session is presented.
#[derive(Clone, Copy, Debug, PartialEq, Eq, Structural)]
pub enum SessionLoadIntent {
    New,
    Switch,
    Snapshot,
}

/// Interaction state for one terminal session.
pub struct App {
    pub input: InputEditor,
    pub status: StatusData,
    pub level: InfoLevel,
    pub history: InputHistory,
    /// One `Ctrl+C` on an idle, empty prompt arms the exit; the second quits.
    /// Any other action disarms.
    pub exit_armed: bool,
    /// `/quit` during a running turn asks once before leaving.
    pub quit_armed: bool,
    /// The session or model picker, while open.
    pub picker: Option<Picker>,
    /// The approval prompt, while a confirmation request is pending.
    pub confirm: Option<ConfirmPrompt>,
    /// The auto command menu, while the draft is a bare `/word`.
    pub completion: Option<CommandMenu>,
    /// Images waiting for the next message.
    pub attachments: Attachments,
    /// Changes whenever draft contents are consumed or edited: a late failure
    /// may restore only the exact generation it left.
    pub draft_generation: u64,
    pub next_intent_id: u64,
    pub submit_state: SubmitState,
    pub show_reasoning: bool,
    pub session_load_intent: Option<SessionLoadIntent>,
    /// `/config` waits for a listing rather than a hot-reload notice.
    pub expect_config_listing: bool,
    /// A model listing is awaited that opens the picker.
    pub expect_models_picker: bool,
    /// A model switch waits for success or rejection.
    pub pending_model_switch: bool,
    pub manual_compacting: bool,
    pub automatic_compacting: bool,
    pub run_state: RunState,
    pub pacer: StreamPacer,
    /// Last-seen token usage per session.
    pub usage_cache: SessionCache<FrontendTokenUsage>,
    /// Last-seen model per session.
    pub model_cache: SessionCache<FrontendGenerationChoice>,
    pub cells: TranscriptStore,
    pub scroll: ScrollState,
    /// Reasoning runs the user expanded: every run starts folded.
    pub reasoning_manually_expanded: HashSet<usize>,
    pub tool_batch: Option<LiveBatch>,
    /// How many characters of live output a running card keeps.
    pub live_text_max: usize,
    pub tool_cards_expanded: HashSet<usize>,
    pub tool_cards_folded: HashSet<usize>,
    pub layout_width: usize,
    pub layout_history_height: usize,
    pub history_band: BandLayout,
    /// Full height of the transcript band.
    pub band_height: u16,
    /// When the scrollbar's highlight goes out.
    pub scroll_hot_until: Option<u64>,
    pub selection: Option<Selection>,
    pub focus_mode: FocusMode,
    /// Cell and row of the cursor while the history is browsed.
    pub browse_cursor: (usize, usize),
}

/// A [`TranscriptStore`] as a mathematical value; its wrap cache is no part of
/// it.
pub struct StoreView {
    pub lines: Seq<LineView>,
    pub open: Option<usize>,
    pub think: Seq<ThinkTiming>,
}

pub open spec fn stored(store: TranscriptStore) -> StoreView {
    StoreView { lines: store.lines(), open: store.open, think: store.think@ }
}

/// An [`App`] as a mathematical value.
pub struct AppView {
    pub input: EditorView,
    pub status: StatusView,
    pub level: InfoLevel,
    pub history: HistoryView,
    pub exit_armed: bool,
    pub quit_armed: bool,
    pub picker: Option<PickerView>,
    pub confirm: Option<PromptView>,
    pub completion: Option<MenuView>,
    pub attachments: Seq<AttachmentView>,
    pub draft_generation: u64,
    pub next_intent_id: u64,
    pub submit_state: SubmitView,
    pub show_reasoning: bool,
    pub session_load_intent: Option<SessionLoadIntent>,
    pub expect_config_listing: bool,
    pub expect_models_picker: bool,
    pub pending_model_switch: bool,
    pub manual_compacting: bool,
    pub automatic_compacting: bool,
    pub run_state: RunView,
    pub stream: Seq<PieceText>,
    pub stream_owed: u64,
    pub usage_cache: Map<Seq<char>, FrontendTokenUsage>,
    pub model_cache: Map<Seq<char>, ChoiceView>,
    pub cells: StoreView,
    pub scroll: ScrollState,
    pub thoughts_expanded: Set<usize>,
    pub tool_batch: Option<BatchView>,
    pub live_text_max: usize,
    pub cards_expanded: Set<usize>,
    pub cards_folded: Set<usize>,
    pub width: usize,
    pub height: usize,
    pub band: BandLayout,
    pub band_height: u16,
    pub hot_until: Option<u64>,
    pub selection: Option<Selection>,
    pub focus: FocusMode,
    pub cursor: (usize, usize),
}

impl View for App {
    type V = AppView;

    open spec fn view(&self) -> AppView {
        self.model()
    }
}

impl App {
    /// Field by field, what the state stands for.
    #[verifier::opaque]
    pub open spec fn model(&self) -> AppView {
        AppView {
            input: self.input@,
            status: self.status@,
            level: self.level,
            history: self.history@,
            exit_armed: self.exit_armed,
            quit_armed: self.quit_armed,
            picker: match self.picker {
                Some(picker) => Some(picker@),
                None => None,
            },
            confirm: self.confirm.deep_view(),
            completion: self.completion.deep_view(),
            attachments: self.attachments.queued(),
            draft_generation: self.draft_generation,
            next_intent_id: self.next_intent_id,
            submit_state: self.submit_state.deep_view(),
            show_reasoning: self.show_reasoning,
            session_load_intent: self.session_load_intent,
            expect_config_listing: self.expect_config_listing,
            expect_models_picker: self.expect_models_picker,
            pending_model_switch: self.pending_model_switch,
            manual_compacting: self.manual_compacting,
            automatic_compacting: self.automatic_compacting,
            run_state: self.run_state@,
            stream: self.pacer.pieces(),
            stream_owed: self.pacer.owed_micro_chars,
            usage_cache: self.usage_cache@,
            model_cache: self.model_cache@,
            cells: stored(self.cells),
            scroll: self.scroll,
            thoughts_expanded: self.reasoning_manually_expanded@,
            tool_batch: self.tool_batch.deep_view(),
            live_text_max: self.live_text_max,
            cards_expanded: self.tool_cards_expanded@,
            cards_folded: self.tool_cards_folded@,
            width: self.layout_width,
            height: self.layout_history_height,
            band: self.history_band,
            band_height: self.band_height,
            hot_until: self.scroll_hot_until,
            selection: self.selection,
            focus: self.focus_mode,
            cursor: self.browse_cursor,
        }
    }

    /// The editor, history, stream and store are sound, an open menu highlights
    /// a command, and the noted layout fits a terminal.
    #[verifier::opaque]
    pub open spec fn wf(&self) -> bool {
        &&& self.input.wf()
        &&& self.history.wf()
        &&& self.pacer.wf()
        &&& self.cells.wf()
        &&& self.completion is Some ==> self.completion->0.wf()
        &&& self.layout_width <= u16::MAX
        &&& self.layout_history_height <= u16::MAX
    }
}

/// The state of a fresh session.
pub open spec fn fresh_app(status: StatusView, show_reasoning: bool) -> AppView {
    AppView {
        input: super::input::blank(),
        status,
        level: status.level,
        history: HistoryView { entries: Seq::empty(), cursor: None, stash: None },
        exit_armed: false,
        quit_armed: false,
        picker: None,
        confirm: None,
        completion: None,
        attachments: Seq::empty(),
        draft_generation: 0,
        next_intent_id: 1,
        submit_state: SubmitView::Editing,
        show_reasoning,
        session_load_intent: None,
        expect_config_listing: false,
        expect_models_picker: false,
        pending_model_switch: false,
        manual_compacting: false,
        automatic_compacting: false,
        run_state: super::run_state::idle(),
        stream: Seq::empty(),
        stream_owed: 0,
        usage_cache: Map::empty(),
        model_cache: Map::empty(),
        cells: StoreView { lines: Seq::empty(), open: None, think: Seq::empty() },
        scroll: following(),
        thoughts_expanded: Set::empty(),
        tool_batch: None,
        live_text_max: usize::MAX,
        cards_expanded: Set::empty(),
        cards_folded: Set::empty(),
        width: 80,
        height: 0,
        band: BandLayout { x: 0, y: 0, width: 0, height: 0 },
        band_height: 0,
        hot_until: None,
        selection: None,
        focus: FocusMode::Input,
        cursor: (0, 0),
    }
}

// ---------------------------------------------------------------------------
// Folding
// ---------------------------------------------------------------------------

/// Whether a card has more body lines than it shows folded.
pub open spec fn foldable(line: LineView) -> bool {
    line.body is Some && line.body->0.lines.len() > line.body->0.threshold
}

/// What the user folded and unfolded by hand.
pub struct FoldsView {
    pub thoughts_expanded: Set<usize>,
    pub cards_expanded: Set<usize>,
    pub cards_folded: Set<usize>,
}

/// Whether the card in that cell is folded: what the user did counts before
/// the card's own default.
pub open spec fn card_shut(lines: Seq<LineView>, hand: FoldsView, i: int) -> bool {
    &&& 0 <= i < lines.len()
    &&& foldable(lines[i])
    &&& hand.cards_folded.contains(i as usize) || (!hand.cards_expanded.contains(i as usize)
        && lines[i].body->0.fold_default_collapsed)
}

/// Whether a reasoning run is folded: it is until the user expands it.
pub open spec fn thought_shut(hand: FoldsView, i: int) -> bool {
    !hand.thoughts_expanded.contains(i as usize)
}

/// Whether the cell is folded: a reasoning run by its head, a card by its cell.
pub open spec fn shut(lines: Seq<LineView>, hand: FoldsView, i: int) -> bool {
    match lines[i].kind {
        LineKind::Reasoning => thought_shut(hand, i),
        LineKind::Tool => card_shut(lines, hand, i),
        _ => false,
    }
}

/// The folds of all cells.
pub open spec fn all_shut(lines: Seq<LineView>, hand: FoldsView) -> Seq<bool> {
    Seq::new(lines.len(), |i: int| shut(lines, hand, i))
}

/// How many rows each cell takes at a width, given its folds.
#[verifier::opaque]
pub open spec fn heights_with(
    cells: StoreView,
    width: usize,
    folds: Seq<bool>,
    now: u64,
) -> Seq<nat> {
    row_heights(fresh_rows(cells.lines, cells.think, width as nat, folds, now))
}

pub open spec fn by_hand(a: AppView) -> FoldsView {
    FoldsView {
        thoughts_expanded: a.thoughts_expanded,
        cards_expanded: a.cards_expanded,
        cards_folded: a.cards_folded,
    }
}

pub open spec fn card_folded(a: AppView, i: int) -> bool {
    card_shut(a.cells.lines, by_hand(a), i)
}

pub open spec fn thought_folded(a: AppView, i: int) -> bool {
    thought_shut(by_hand(a), i)
}

pub open spec fn folded(a: AppView, i: int) -> bool {
    shut(a.cells.lines, by_hand(a), i)
}

pub open spec fn folds_of(a: AppView) -> Seq<bool> {
    all_shut(a.cells.lines, by_hand(a))
}

/// How many rows each cell takes at a width.
pub open spec fn heights_at(a: AppView, width: usize, now: u64) -> Seq<nat> {
    heights_with(a.cells, width, folds_of(a), now)
}

/// Adds an index that is not there, takes one out that is.
pub open spec fn flipped(set: Set<usize>, index: usize) -> Set<usize> {
    if set.contains(index) {
        set.remove(index)
    } else {
        set.insert(index)
    }
}

fn flip(marks: &mut HashSet<usize>, index: usize)
    ensures
        final(marks)@ == flipped(old(marks)@, index),
{
    let ghost before = marks@;
    if !marks.remove(&index) {
        marks.insert(index);
    }
    proof {
        assert(before.remove(index).insert(index) =~= before.insert(index));
    }
}

/// Whether a foldable card is folded unless the user says otherwise; none for a
/// cell that is no foldable card.
fn fold_default(line: &TranscriptLine) -> (folded: Option<bool>)
    ensures
        folded == (if foldable(line.deep_view()) {
            Some(line.deep_view().body->0.fold_default_collapsed)
        } else {
            None
        }),
{
    match &line.body {
        Some(body) => if body.lines.len() > body.threshold {
            Some(body.fold_default_collapsed)
        } else {
            None
        },
        None => None,
    }
}

/// Whether the cell opens a reasoning run.
pub open spec fn opens_run(lines: Seq<LineView>, cell: int) -> bool {
    &&& 0 <= cell < lines.len()
    &&& lines[cell].kind == LineKind::Reasoning
    &&& cell == 0 || lines[cell - 1].kind != LineKind::Reasoning
}

/// Folds or unfolds a card.
pub open spec fn card_toggled(a: AppView, index: usize) -> AppView {
    if index >= a.cells.lines.len() || !foldable(a.cells.lines[index as int]) {
        a
    } else if a.cells.lines[index as int].body->0.fold_default_collapsed {
        AppView { cards_expanded: flipped(a.cards_expanded, index), ..a }
    } else {
        AppView { cards_folded: flipped(a.cards_folded, index), ..a }
    }
}

/// Folds or unfolds a reasoning run by its head row.
pub open spec fn thought_toggled(a: AppView, cell: usize, row: usize) -> AppView {
    if row == 0 && opens_run(a.cells.lines, cell as int) {
        AppView { thoughts_expanded: flipped(a.thoughts_expanded, cell), ..a }
    } else {
        a
    }
}

// ---------------------------------------------------------------------------
// Scrolling
// ---------------------------------------------------------------------------

/// How long a scroll lights the scrollbar, in milliseconds.
pub const SCROLL_ACTIVE_MS: u64 = 800;

/// Time moved on, short of overflow.
pub open spec fn later(now: u64, millis: u64) -> u64 {
    if now + millis > u64::MAX {
        u64::MAX
    } else {
        (now + millis) as u64
    }
}

/// A scroll just happened.
pub open spec fn hot(a: AppView, now: u64) -> AppView {
    AppView { hot_until: Some(later(now, SCROLL_ACTIVE_MS)), ..a }
}

/// The transcript scrolled by rows.
pub open spec fn scrolled_by(
    a: AppView,
    width: usize,
    height: usize,
    delta: isize,
    now: u64,
) -> AppView {
    if delta == 0 {
        a
    } else {
        AppView {
            scroll: scrolled(a.scroll, heights_at(a, width, now), height as nat, delta),
            ..hot(a, now)
        }
    }
}

/// The transcript at its head.
pub open spec fn jumped_top(a: AppView, now: u64) -> AppView {
    let h = heights_at(a, a.width, now);
    AppView {
        scroll: if a.height == 0 || h.len() == 0 || scroll::fits_window(h, a.height as nat) {
            following()
        } else {
            scroll::pinned((0, 0))
        },
        ..hot(a, now)
    }
}

/// The transcript at its tail.
pub open spec fn jumped_bottom(a: AppView, now: u64) -> AppView {
    AppView { scroll: following(), ..hot(a, now) }
}

/// Whether the scrollbar is lit.
pub open spec fn lit(a: AppView, now: u64) -> bool {
    a.hot_until is Some && now < a.hot_until->0
}

/// The state after the scrollbar was looked at: a highlight that went out is
/// forgotten.
pub open spec fn cooled(a: AppView, now: u64) -> AppView {
    if lit(a, now) {
        a
    } else {
        AppView { hot_until: None, ..a }
    }
}

impl App {
    pub fn new(status: StatusData, show_reasoning: bool) -> (app: App)
        ensures
            app.wf(),
            app@ == fresh_app(status@, show_reasoning),
    {
        let level = status.level;
        let app = App {
            input: InputEditor::new(),
            status,
            level,
            history: InputHistory::new(),
            exit_armed: false,
            quit_armed: false,
            picker: None,
            confirm: None,
            completion: None,
            attachments: Attachments::new(),
            draft_generation: 0,
            next_intent_id: 1,
            submit_state: SubmitState::Editing,
            show_reasoning,
            session_load_intent: None,
            expect_config_listing: false,
            expect_models_picker: false,
            pending_model_switch: false,
            manual_compacting: false,
            automatic_compacting: false,
            run_state: RunState::new(),
            pacer: StreamPacer::new(),
            usage_cache: SessionCache::new(),
            model_cache: SessionCache::new(),
            cells: TranscriptStore::new(),
            scroll: ScrollState::follow(),
            reasoning_manually_expanded: HashSet::new(),
            tool_batch: None,
            live_text_max: usize::MAX,
            tool_cards_expanded: HashSet::new(),
            tool_cards_folded: HashSet::new(),
            layout_width: 80,
            layout_history_height: 0,
            history_band: BandLayout::from_parts(0, 0, 0, 0),
            band_height: 0,
            scroll_hot_until: None,
            selection: None,
            focus_mode: FocusMode::Input,
            browse_cursor: (0, 0),
        };
        proof {
            reveal(App::model);
            reveal(App::wf);
            assert(app@.cells.think =~= Seq::<ThinkTiming>::empty());
        }
        app
    }

    fn tool_card_collapsed(&self, index: usize) -> (yes: bool)
        ensures
            yes == card_folded(self@, index as int),
    {
        proof {
            reveal(App::model);
            reveal(App::wf);
        }
        let line = match self.cells.cell_at(index) {
            Some(line) => line,
            None => return false,
        };
        assert(self@.cells.lines[index as int] == line.deep_view());
        let body = match &line.body {
            Some(body) => body,
            None => return false,
        };
        if body.lines.len() <= body.threshold {
            return false;
        }
        if self.tool_cards_folded.contains(&index) {
            return true;
        }
        if self.tool_cards_expanded.contains(&index) {
            return false;
        }
        body.fold_default_collapsed
    }

    /// Whether the card in that cell is folded now.
    pub fn tool_card_collapsed_at(&self, index: usize) -> (yes: bool)
        ensures
            yes == card_folded(self@, index as int),
    {
        proof {
            reveal(App::model);
            reveal(App::wf);
        }
        self.tool_card_collapsed(index)
    }

    fn reasoning_collapsed(&self, head: usize) -> (yes: bool)
        ensures
            yes == thought_folded(self@, head as int),
    {
        proof {
            reveal(App::model);
            reveal(App::wf);
        }
        !self.reasoning_manually_expanded.contains(&head)
    }

    fn collapser(&self, index: usize) -> (yes: bool)
        requires
            index < self@.cells.lines.len(),
        ensures
            yes == folded(self@, index as int),
    {
        proof {
            reveal(App::model);
            reveal(App::wf);
        }
        match self.cells.display_kind(index) {
            LineKind::Reasoning => self.reasoning_collapsed(index),
            LineKind::Tool => self.tool_card_collapsed(index),
            _ => false,
        }
    }

    fn all_folds(&self) -> (folds: Vec<bool>)
        ensures
            folds@ == folds_of(self@),
    {
        proof {
            reveal(App::model);
            reveal(App::wf);
        }
        let count = self.cells.display_len();
        let mut folds: Vec<bool> = Vec::new();
        let mut i: usize = 0;
        while i < count
            invariant
                i <= count,
                count == self@.cells.lines.len(),
                folds.len() == i,
                forall|k: int| 0 <= k < i ==> #[trigger] folds@[k] == folded(self@, k),
            decreases count - i,
        {
            folds.push(self.collapser(i));
            i += 1;
        }
        assert(folds@ =~= folds_of(self@));
        folds
    }

    /// Brings the wrap cache up to date.
    pub(crate) fn rewrap(&mut self, width: usize, now: u64)
        requires
            old(self).wf(),
        ensures
            final(self).wf(),
            final(self)@ == old(self)@,
            heights(final(self).cells.cache.rows@) == heights_at(old(self)@, width, now),
    {
        proof {
            reveal(App::model);
            reveal(App::wf);
        }
        let folds = self.all_folds();
        self.cells.refresh_wraps(width, &folds, now);
        proof {
            reveal(heights_with);
            heights_agree(&self.cells.cache.rows);
        }
    }

    /// The visible part of the transcript.
    pub fn history_slice(&mut self, width: usize, height: usize, now: u64) -> (slice: VisibleSlice)
        requires
            old(self).wf(),
        ensures
            final(self).wf(),
            final(self)@ == old(self)@,
            slice.deep_view() == visible_of(old(self)@, width, height, now),
    {
        proof {
            reveal(App::model);
            reveal(App::wf);
            reveal(visible_of);
        }
        let folds = self.all_folds();
        let scroll = self.scroll;
        self.cells.visible_slice(width, height, &scroll, &folds, now)
    }

    /// Scrollbar inputs: wrapped rows in all, and the row on top.
    pub fn scrollbar_metrics(&mut self, width: usize, height: usize, now: u64) -> (metrics: (
        usize,
        usize,
    ))
        requires
            old(self).wf(),
        ensures
            final(self).wf(),
            final(self)@ == old(self)@,
            metrics.0 == cap(total(heights_at(old(self)@, width, now))),
            metrics.1 == window_offset(
                old(self)@.scroll,
                heights_at(old(self)@, width, now),
                height as nat,
            ),
    {
        proof {
            reveal(App::model);
            reveal(App::wf);
        }
        self.rewrap(width, now);
        let rows = self.cells.wrap_rows();
        (scroll::row_count(rows), self.scroll.scroll_offset(rows, height))
    }

    /// Folds or unfolds a card by its cell. Returns whether the cell was a
    /// foldable card.
    pub fn toggle_tool_card_fold(&mut self, index: usize) -> (toggled: bool)
        requires
            old(self).wf(),
        ensures
            final(self).wf(),
            final(self)@ == card_toggled(old(self)@, index),
            toggled == (index < old(self)@.cells.lines.len() && foldable(
                old(self)@.cells.lines[index as int],
            )),
    {
        proof {
            reveal(App::model);
            reveal(App::wf);
        }
        let collapsed = match self.cells.cell_at(index) {
            Some(line) => {
                assert(self@.cells.lines[index as int] == line.deep_view());
                fold_default(line)
            },
            None => None,
        };
        match collapsed {
            Some(true) => flip(&mut self.tool_cards_expanded, index),
            Some(false) => flip(&mut self.tool_cards_folded, index),
            None => return false,
        }
        self.cells.bump_wrap_revision();
        true
    }

    /// Folds or unfolds the reasoning run whose head row this is. Returns
    /// whether it was one.
    pub fn toggle_reasoning_block(&mut self, cell: usize, row: usize) -> (toggled: bool)
        requires
            old(self).wf(),
        ensures
            final(self).wf(),
            final(self)@ == thought_toggled(old(self)@, cell, row),
            toggled == (row == 0 && opens_run(old(self)@.cells.lines, cell as int)),
    {
        proof {
            reveal(App::model);
            reveal(App::wf);
        }
        if row != 0 || cell >= self.cells.display_len() {
            return false;
        }
        if self.cells.display_kind(cell) != LineKind::Reasoning {
            return false;
        }
        if cell > 0 && self.cells.display_kind(cell - 1) == LineKind::Reasoning {
            return false;
        }
        flip(&mut self.reasoning_manually_expanded, cell);
        self.cells.bump_wrap_revision();
        true
    }

    pub fn page_transcript_up(&mut self, width: usize, height: usize, now: u64)
        requires
            old(self).wf(),
            height <= isize::MAX,
        ensures
            final(self).wf(),
            final(self)@ == scrolled_by(old(self)@, width, height, (-height) as isize, now),
    {
        let rows: isize = height as isize;
        self.scroll_transcript(width, height, -rows, now);
    }

    pub fn page_transcript_down(&mut self, width: usize, height: usize, now: u64)
        requires
            old(self).wf(),
            height <= isize::MAX,
        ensures
            final(self).wf(),
            final(self)@ == scrolled_by(old(self)@, width, height, height as isize, now),
    {
        self.scroll_transcript(width, height, height as isize, now);
    }

    pub fn scroll_transcript(&mut self, width: usize, height: usize, delta: isize, now: u64)
        requires
            old(self).wf(),
        ensures
            final(self).wf(),
            final(self)@ == scrolled_by(old(self)@, width, height, delta, now),
    {
        proof {
            reveal(App::model);
            reveal(App::wf);
        }
        if delta == 0 {
            return ;
        }
        self.note_scroll_activity(now);
        self.rewrap(width, now);
        self.scroll.scroll_wrapped(&self.cells.cache.rows, height, delta);
    }

    pub fn jump_transcript_top(&mut self, now: u64)
        requires
            old(self).wf(),
        ensures
            final(self).wf(),
            final(self)@ == jumped_top(old(self)@, now),
    {
        proof {
            reveal(App::model);
            reveal(App::wf);
        }
        self.note_scroll_activity(now);
        let width = self.layout_width;
        let height = self.layout_history_height;
        self.rewrap(width, now);
        self.scroll.jump_top(&self.cells.cache.rows, height);
    }

    pub fn jump_transcript_bottom(&mut self, now: u64)
        requires
            old(self).wf(),
        ensures
            final(self).wf(),
            final(self)@ == jumped_bottom(old(self)@, now),
    {
        proof {
            reveal(App::model);
            reveal(App::wf);
        }
        self.note_scroll_activity(now);
        self.scroll.jump_bottom();
    }

    /// Lights the scrollbar for a while.
    fn note_scroll_activity(&mut self, now: u64)
        requires
            old(self).wf(),
        ensures
            final(self).wf(),
            final(self)@ == hot(old(self)@, now),
            final(self).cells == old(self).cells,
    {
        proof {
            reveal(App::model);
            reveal(App::wf);
        }
        self.scroll_hot_until = Some(now.saturating_add(SCROLL_ACTIVE_MS));
    }

    /// Whether the scrollbar is lit; one that went out is forgotten, so an idle
    /// rail asks for no frames.
    pub fn scrollbar_active(&mut self, now: u64) -> (yes: bool)
        requires
            old(self).wf(),
        ensures
            final(self).wf(),
            yes == lit(old(self)@, now),
            final(self)@ == cooled(old(self)@, now),
    {
        proof {
            reveal(App::model);
            reveal(App::wf);
        }
        match self.scroll_hot_until {
            Some(until) => {
                if now < until {
                    true
                } else {
                    self.scroll_hot_until = None;
                    false
                }
            },
            None => false,
        }
    }
}

/// What a window shows of the transcript.
#[verifier::opaque]
pub open spec fn visible_of(a: AppView, width: usize, height: usize, now: u64) -> SliceView {
    slice_for(
        a.cells.lines,
        fresh_rows(a.cells.lines, a.cells.think, width as nat, folds_of(a), now),
        width as nat,
        height as nat,
        a.scroll,
    )
}

// ---------------------------------------------------------------------------
// Laws
// ---------------------------------------------------------------------------

/// Toggling a card's fold twice changes nothing.
pub proof fn card_toggle_is_an_involution(a: AppView, index: usize)
    ensures
        card_toggled(card_toggled(a, index), index) == a,
{
    assert(flipped(flipped(a.cards_expanded, index), index) =~= a.cards_expanded);
    assert(flipped(flipped(a.cards_folded, index), index) =~= a.cards_folded);
}

/// Toggling a foldable card that the user left alone, or toggled by its own
/// kind of fold alone, changes whether it is folded, and no other card.
pub proof fn card_toggle_flips_the_fold(a: AppView, index: usize, other: int)
    requires
        index < a.cells.lines.len(),
        foldable(a.cells.lines[index as int]),
        if a.cells.lines[index as int].body->0.fold_default_collapsed {
            !a.cards_folded.contains(index)
        } else {
            !a.cards_expanded.contains(index)
        },
    ensures
        card_folded(card_toggled(a, index), index as int) == !card_folded(a, index as int),
        0 <= other < a.cells.lines.len() && other != index && a.cells.lines.len() <= usize::MAX
            ==> card_folded(card_toggled(a, index), other) == card_folded(a, other),
{
}

/// Every reasoning run starts folded, and toggling its head expands it.
pub proof fn reasoning_starts_folded(status: StatusView, show_reasoning: bool, a: AppView, cell: usize)
    requires
        opens_run(a.cells.lines, cell as int),
    ensures
        thought_folded(fresh_app(status, show_reasoning), cell as int),
        thought_folded(thought_toggled(a, cell, 0), cell as int) == !thought_folded(
            a,
            cell as int,
        ),
{
}

/// Scrolling lights the scrollbar for eight hundred milliseconds and no longer.
pub proof fn the_scrollbar_glows_for_a_while(a: AppView, at: u64, now: u64)
    requires
        at <= now,
        at + 800 <= u64::MAX,
    ensures
        lit(hot(a, at), now) <==> now < at + 800,
        cooled(hot(a, at), now).hot_until is Some <==> now < at + 800,
{
}

/// Toggling a thought touches that thought alone, and only by its header.
pub proof fn thought_toggles_touch_one(a: AppView, cell: usize, row: usize, other: usize)
    requires
        other != cell,
    ensures
        thought_toggled(a, cell, row).thoughts_expanded.contains(other)
            == a.thoughts_expanded.contains(other),
        row > 0 ==> thought_toggled(a, cell, row) == a,
        thought_toggled(thought_toggled(a, cell, row), cell, row) == a,
{
    assert(flipped(flipped(a.thoughts_expanded, cell), cell) =~= a.thoughts_expanded);
}

} // verus!
