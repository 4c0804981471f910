//! What the service reports besides operation events.

use vstd::prelude::*;

use super::commands::{compaction_begun, error, error_line, meta, meta_line, notice, notice_line};
use super::composer::{interrupted, submit_failed};
use super::overlays::{fresh_picker, lowered, preview_refreshed, with_picker};
use super::runtime::{
    busy_set, compacting_synced, compaction_cleared, flushed, usage_cleared,
};
use super::{App, AppView, SessionLoadIntent, StoreView};
use crate::app::calendar;
use crate::app::calendar::age_label;
use crate::app::effect;
use crate::app::effect::{nothing, only, says, Effect, EffectView, HostRequest, RequestView};
use crate::app::facts;
use crate::app::facts::{boundary_in, count_of, effort_set, effort_shown, label_for, truth_of};
use crate::app::frontend::FrontendTokenUsage;
use crate::app::listings;
use crate::app::listings::{config_listing, ConfigView, FrontendConfigEntry};
use crate::app::overlay::{PickView, PickerEntry};
use crate::app::projection;
use crate::app::projection::{pieces_written, Projection, ProjectionView};
use crate::app::run_state::idle;
use crate::app::scroll::{following, ScrollState};
use crate::app::session::DurableSessionView;
use crate::app::session_cache::lookup;
use crate::app::status::StatusView;
use crate::app::transcript;
use crate::app::transcript::{InfoLevel, LineView, TranscriptLine};
use crate::app::update::{
    ChoiceView, CompactionError, CompactionReport, FrontendAvailability, FrontendGeneration, FrontendGenerationChoice,
    FrontendMaintenance, FrontendMaintenancePhase, FrontendModelListing, FrontendSessionSummary,
    ServiceHealth,
};
use crate::strs;
use crate::strs::occurs;

verus! {

// ---------------------------------------------------------------------------
// Appending
// ---------------------------------------------------------------------------

/// Closed lines at the end of the transcript.
pub open spec fn lines_appended(cells: StoreView, lines: Seq<LineView>) -> StoreView {
    StoreView { lines: cells.lines + lines, open: None, think: cells.think }
}

/// The lines of every append, in order, at the end of the transcript.
pub open spec fn appends_ingested(cells: StoreView, effects: Seq<EffectView>) -> StoreView
    decreases effects.len(),
{
    if effects.len() == 0 {
        cells
    } else {
        let before = appends_ingested(cells, effects.drop_last());
        match effects.last() {
            EffectView::Append(lines) => lines_appended(before, lines),
            _ => before,
        }
    }
}

pub open spec fn ingested(a: AppView, effects: Seq<EffectView>) -> AppView {
    AppView { cells: appends_ingested(a.cells, effects), ..a }
}

/// Effects handed out, their lines already in the transcript.
pub open spec fn answered(a: AppView, effects: Seq<EffectView>) -> (AppView, Seq<EffectView>) {
    (ingested(a, effects), effects)
}

/// Whether a transcript is another with lines behind it.
pub open spec fn grown(before: StoreView, after: StoreView) -> bool {
    &&& before.lines.len() <= after.lines.len()
    &&& after.lines.take(before.lines.len() as int) == before.lines
    &&& after.think == before.think
}

/// What is said while steps are still to be performed comes behind them: the
/// transcript stays as it was, and appending the new lines is the last step.
pub open spec fn said_behind(before: StoreView, after: AppView, plan: Seq<ProjectionView>) -> (
    AppView,
    Seq<ProjectionView>,
) {
    if plan.len() == 0 || after.cells == before {
        (after, plan)
    } else {
        (
            AppView { cells: before, ..after },
            plan + seq![
                ProjectionView::Lines(after.cells.lines.skip(before.lines.len() as int)),
            ],
        )
    }
}

proof fn ingesting_grows(cells: StoreView, effects: Seq<EffectView>)
    ensures
        grown(cells, appends_ingested(cells, effects)),
    decreases effects.len(),
{
    assert(cells.lines.take(cells.lines.len() as int) =~= cells.lines);
    if effects.len() > 0 {
        let before = appends_ingested(cells, effects.drop_last());
        ingesting_grows(cells, effects.drop_last());
        if let EffectView::Append(lines) = effects.last() {
            assert((before.lines + lines).take(cells.lines.len() as int) =~= before.lines.take(
                cells.lines.len() as int,
            ));
        }
    }
}

/// Answering only ever appends.
pub proof fn answering_grows(a: AppView, effects: Seq<EffectView>)
    ensures
        grown(a.cells, ingested(a, effects).cells),
{
    ingesting_grows(a.cells, effects);
}

pub proof fn growing_adds_up(a: StoreView, b: StoreView, c: StoreView)
    requires
        grown(a, b),
        grown(b, c),
    ensures
        grown(a, c),
{
    let n = a.lines.len() as int;
    assert(c.lines.take(n) =~= c.lines.take(b.lines.len() as int).take(n));
}

// ---------------------------------------------------------------------------
// Service state
// ---------------------------------------------------------------------------

#[verifier::opaque]
pub open spec fn command_rejected(a: AppView, reason: Seq<char>) -> (AppView, Seq<EffectView>) {
    if a.pending_model_switch {
        answered(
            AppView { pending_model_switch: false, ..a },
            says(not_switched(reason, a.status.model)),
        )
    } else if a.manual_compacting {
        answered(
            compaction_cleared(a),
            says(error_line("error: context compaction was not started: "@ + reason)),
        )
    } else {
        answered(a, says(error_line("error: "@ + reason)))
    }
}

/// The line that says a model switch failed.
pub open spec fn not_switched(reason: Seq<char>, model: Seq<char>) -> LineView {
    error_line("error: model not switched: "@ + reason + "; still on "@ + model)
}

/// What occupies the agent, noted.
#[verifier::opaque]
pub open spec fn availability_noted(
    a: AppView,
    availability: FrontendAvailability,
    now: u64,
) -> AppView {
    match availability {
        FrontendAvailability::Idle => busy_set(
            AppView { manual_compacting: false, automatic_compacting: false, ..a },
            false,
            now,
        ),
        FrontendAvailability::Busy { .. } => busy_set(
            compacting_synced(AppView { automatic_compacting: false, ..a }),
            true,
            now,
        ),
        FrontendAvailability::Compacting { .. } => {
            let b = AppView { status: StatusView { busy: false, ..a.status }, ..a };
            if !b.manual_compacting && !b.automatic_compacting {
                compaction_begun(b, now)
            } else {
                compacting_synced(b)
            }
        },
    }
}

/// A manual compaction settled, in the words of its message.
#[verifier::opaque]
pub open spec fn compaction_settled(a: AppView, message: Option<Seq<char>>) -> (
    AppView,
    Seq<EffectView>,
) {
    let b = compaction_cleared(a);
    match message {
        Some(message) => if occurs(message, "NothingToCompact"@) {
            answered(
                b,
                says(meta_line("nothing to compact: no older completed turns are available"@)),
            )
        } else {
            answered(
                usage_cleared(b),
                says(
                    meta_line(
                        match boundary_in(message) {
                            Some(boundary) => "context compacted through "@ + boundary,
                            None => "context compacted: "@ + message,
                        },
                    ),
                ),
            )
        },
        None => answered(usage_cleared(b), says(meta_line("context compacted"@))),
    }
}

/// Why maintenance was refused.
pub open spec fn refusal_reason(availability: FrontendAvailability) -> Seq<char> {
    match availability {
        FrontendAvailability::Busy { .. } => "a turn is already running"@,
        FrontendAvailability::Compacting { .. } => "context compaction is already running"@,
        FrontendAvailability::Idle => "the runtime refused maintenance"@,
    }
}

/// A manual compaction over, with its typed result.
#[verifier::opaque]
pub open spec fn compaction_finished(
    a: AppView,
    result: Result<CompactionReport, CompactionError>,
) -> (AppView, Seq<EffectView>) {
    let b = compaction_cleared(a);
    match result {
        Ok(CompactionReport::Compacted { covers_up_to }) => (
            usage_cleared(b),
            says(meta_line("context compacted through "@ + covers_up_to@)),
        ),
        Ok(CompactionReport::NothingToCompact) => (
            b,
            says(notice_line("nothing to compact: no older completed turns are available"@)),
        ),
        Err(CompactionError::Unavailable { availability }) => (
            b,
            says(
                error_line(
                    "error: context compaction was not started: "@ + refusal_reason(availability),
                ),
            ),
        ),
        Err(CompactionError::Failed { message }) => (
            b,
            says(error_line("error: context compaction failed: "@ + message@)),
        ),
    }
}

/// One step of a maintenance task.
#[verifier::opaque]
pub open spec fn maintained(
    a: AppView,
    phase: FrontendMaintenancePhase,
    message: Option<Seq<char>>,
    now: u64,
) -> (AppView, Seq<EffectView>) {
    match phase {
        FrontendMaintenancePhase::Accepted
        | FrontendMaintenancePhase::Started
        | FrontendMaintenancePhase::Progress => (
            if a.manual_compacting {
                a
            } else {
                compaction_begun(a, now)
            },
            nothing(),
        ),
        FrontendMaintenancePhase::Settled => compaction_settled(a, message),
        FrontendMaintenancePhase::Failed => answered(
            compaction_cleared(a),
            says(
                error_line(
                    "error: context compaction failed: "@ + match message {
                        Some(message) => message,
                        None => "context compaction failed"@,
                    },
                ),
            ),
        ),
        FrontendMaintenancePhase::Cancelled => if a.manual_compacting {
            answered(compaction_cleared(a), says(meta_line("context compaction cancelled"@)))
        } else {
            (a, nothing())
        },
    }
}

/// The runtime is gone: nothing runs and nothing is queued.
pub open spec fn presence_cleared(a: AppView, now: u64) -> AppView {
    busy_set(
        flushed(
            AppView {
                manual_compacting: false,
                automatic_compacting: false,
                run_state: idle(),
                ..a
            },
        ),
        false,
        now,
    )
}

/// How the service fares, told.
#[verifier::opaque]
pub open spec fn health_told(a: AppView, health: ServiceHealth, now: u64) -> (
    AppView,
    Seq<EffectView>,
) {
    match health {
        ServiceHealth::Healthy => (a, nothing()),
        ServiceHealth::Degraded { message } => answered(
            a,
            says(notice_line("warning: "@ + message@)),
        ),
        ServiceHealth::RuntimeEpochEnded { message } => {
            let b = presence_cleared(a, now);
            let line = error_line("error: "@ + message@);
            let back = interrupted(b, line);
            if back.1.len() == 0 {
                answered(back.0, says(line))
            } else {
                answered(back.0, back.1)
            }
        },
        ServiceHealth::ShuttingDown => answered(
            a,
            says(notice_line("service is shutting down"@)),
        ),
    }
}

// ---------------------------------------------------------------------------
// Listings
// ---------------------------------------------------------------------------

/// The picker entry of a session.
pub open spec fn session_entry(
    summary: FrontendSessionSummary,
    current: Seq<char>,
    unix_now: u64,
) -> PickView {
    PickView {
        id: summary.session_id@,
        primary: match summary.title {
            Some(title) => title@,
            None => summary.session_id@,
        },
        secondary: match summary.updated_at {
            Some(stamp) if stamp <= unix_now => age_label(stamp, unix_now),
            _ => Seq::empty(),
        },
        group: Seq::empty(),
        marked: summary.session_id@ == current,
        tiers: Seq::empty(),
    }
}

pub open spec fn session_entries(
    sessions: Seq<FrontendSessionSummary>,
    current: Seq<char>,
    unix_now: u64,
) -> Seq<PickView> {
    Seq::new(sessions.len(), |i: int| session_entry(sessions[i], current, unix_now))
}

/// The recorded sessions listed in a picker.
#[verifier::opaque]
pub open spec fn sessions_listed(
    a: AppView,
    sessions: Seq<FrontendSessionSummary>,
    unix_now: u64,
) -> (AppView, Seq<EffectView>) {
    if sessions.len() == 0 {
        answered(
            a,
            says(
                meta_line("no sessions recorded yet; this one starts with the first message"@),
            ),
        )
    } else {
        preview_refreshed(
            with_picker(
                a,
                fresh_picker(
                    "Sessions"@,
                    false,
                    session_entries(sessions, a.status.session, unix_now),
                    None,
                ),
            ),
        )
    }
}

/// The first current model, or the number of models.
pub open spec fn current_model(models: Seq<FrontendModelListing>) -> nat
    decreases models.len(),
{
    if models.len() == 0 || models[0].current {
        0
    } else {
        1 + current_model(models.skip(1))
    }
}

/// The picker entry of a model.
pub open spec fn model_entry(listing: FrontendModelListing) -> PickView {
    PickView {
        id: listing.id@,
        primary: listing.id@,
        secondary: if listing.current {
            "current"@
        } else {
            ""@
        },
        group: listing.provider@,
        marked: listing.current,
        tiers: listing.reasoning_tiers.deep_view(),
    }
}

pub open spec fn model_entries(models: Seq<FrontendModelListing>) -> Seq<PickView> {
    Seq::new(models.len(), |i: int| model_entry(models[i]))
}

/// The provider of the current model, noted.
pub open spec fn provider_noted(a: AppView, models: Seq<FrontendModelListing>) -> AppView {
    let at = current_model(models);
    if at < models.len() {
        AppView {
            status: StatusView { provider: Some(models[at as int].provider@), ..a.status },
            ..a
        }
    } else {
        a
    }
}

/// A model catalog: its provider is noted, and it opens the picker if asked to.
#[verifier::opaque]
pub open spec fn catalog_loaded(
    a: AppView,
    models: Seq<FrontendModelListing>,
    open_picker: bool,
) -> (AppView, Seq<EffectView>) {
    let b = provider_noted(a, models);
    if !open_picker {
        (b, nothing())
    } else if models.len() == 0 {
        answered(
            b,
            says(
                meta_line(
                    "no models configured; add [providers.<id>] sections to config.toml"@,
                ),
            ),
        )
    } else {
        (
            with_picker(
                b,
                fresh_picker("Models"@, true, model_entries(models), lowered(b.status.effort)),
            ),
            nothing(),
        )
    }
}

// ---------------------------------------------------------------------------
// Sessions and models
// ---------------------------------------------------------------------------

/// The dashboard's model facts.
pub open spec fn model_set(a: AppView, choice: ChoiceView) -> AppView {
    AppView {
        status: StatusView {
            model: choice.model_name,
            effort: choice.reasoning_effort,
            provider: choice.provider,
            ..a.status
        },
        ..a
    }
}

/// A different session shown: a fresh transcript, with what is remembered of
/// the session's usage and model.
#[verifier::opaque]
pub open spec fn session_begun(was: AppView, id: Seq<char>) -> AppView {
    let a = AppView {
        status: StatusView {
            session: id,
            usage: lookup(was.usage_cache, id),
            ..was.status
        },
        run_state: idle(),
        cells: StoreView { lines: Seq::empty(), open: None, think: Seq::empty() },
        thoughts_expanded: Set::empty(),
        tool_batch: None,
        cards_expanded: Set::empty(),
        cards_folded: Set::empty(),
        scroll: following(),
        selection: None,
        ..flushed(was)
    };
    match lookup(was.model_cache, id) {
        Some(choice) => model_set(a, choice),
        None => a,
    }
}

/// The stored usage of a session taken over.
pub open spec fn usage_restored(
    a: AppView,
    id: Seq<char>,
    usage: Option<FrontendTokenUsage>,
) -> AppView {
    match usage {
        Some(usage) => AppView {
            status: StatusView { usage: Some(usage), ..a.status },
            usage_cache: a.usage_cache.insert(id, usage),
            ..a
        },
        None => a,
    }
}

/// The stored model of a session remembered.
pub open spec fn choice_remembered(
    a: AppView,
    id: Seq<char>,
    choice: Option<ChoiceView>,
) -> AppView {
    match choice {
        Some(choice) => AppView { model_cache: a.model_cache.insert(id, choice), ..a },
        None => a,
    }
}

/// A session loaded, as it was asked for: a new one is named, a switched one is
/// replayed behind its name, a snapshot's is replayed alone.
#[verifier::opaque]
pub open spec fn session_loaded(
    was: AppView,
    id: Seq<char>,
    usage: Option<FrontendTokenUsage>,
    choice: Option<ChoiceView>,
    history: Seq<LineView>,
) -> (AppView, Seq<EffectView>) {
    let b = usage_restored(
        session_begun(AppView { session_load_intent: None, ..was }, id),
        id,
        usage,
    );
    let c = choice_remembered(
        match choice {
            Some(choice) => model_set(b, choice),
            None => b,
        },
        id,
        choice,
    );
    match was.session_load_intent {
        Some(SessionLoadIntent::New) => answered(c, says(meta_line("new session: "@ + id))),
        Some(SessionLoadIntent::Snapshot) => (history_shown(c, history), nothing()),
        _ => answered(
            c,
            only(
                EffectView::Append(
                    seq![meta_line("session "@ + id)] + (if history.len() == 0 {
                        seq![meta_line("(no history yet)"@)]
                    } else {
                        history
                    }),
                ),
            ),
        ),
    }
}

/// A replayed history at the end of the transcript.
pub open spec fn history_shown(a: AppView, history: Seq<LineView>) -> AppView {
    if history.len() == 0 {
        a
    } else {
        AppView { cells: lines_appended(a.cells, history), ..a }
    }
}

/// What is said of an installed generation: the model if it changed or nothing
/// else is set, the effort otherwise.
pub open spec fn installed_text(
    previous: Seq<char>,
    model: Seq<char>,
    effort: Option<Seq<char>>,
) -> Seq<char> {
    match effort {
        Some(effort) if previous == model && effort_set(effort) => "reasoning: "@ + label_for(
            effort,
        ) + " (from the next turn on)"@,
        _ => "model: "@ + model,
    }
}

/// A generation installed: shown, remembered for the session, and told.
#[verifier::opaque]
pub open spec fn generation_installed(
    a: AppView,
    model: Seq<char>,
    effort: Option<Seq<char>>,
    provider: Option<Seq<char>>,
) -> (AppView, Seq<EffectView>) {
    let b = AppView {
        status: StatusView { model, effort: effort_shown(effort), provider, ..a.status },
        pending_model_switch: false,
        model_cache: if a.status.session.len() > 0 {
            a.model_cache.insert(
                a.status.session,
                ChoiceView { provider, model_name: model, reasoning_effort: effort },
            )
        } else {
            a.model_cache
        },
        ..a
    };
    let line = says(meta_line(installed_text(a.status.model, model, effort)));
    (ingested(b, line), line.push(EffectView::Host(RequestView::RefreshModels)))
}

/// One entry of the configuration applied.
#[verifier::opaque]
pub open spec fn entry_applied(a: AppView, entry: ConfigView) -> (AppView, Seq<ProjectionView>) {
    if entry.key == "ui.show_reasoning"@ || entry.key == "show_reasoning"@ {
        match truth_of(entry.value) {
            Some(shown) => {
                let b = AppView {
                    show_reasoning: shown,
                    ..if shown {
                        a
                    } else {
                        flushed(a)
                    }
                };
                (
                    b,
                    (if shown {
                        Seq::empty()
                    } else {
                        pieces_written(a.stream)
                    }) + seq![ProjectionView::ReasoningShown(shown)],
                )
            },
            None => (a, Seq::empty()),
        }
    } else if entry.key == "verbose"@ || entry.key == "ui.verbose"@ {
        match truth_of(entry.value) {
            Some(verbose) => {
                let level = if verbose {
                    InfoLevel::Verbose
                } else {
                    InfoLevel::Default
                };
                (
                    AppView { level, status: StatusView { level, ..a.status }, ..a },
                    Seq::empty(),
                )
            },
            None => (a, Seq::empty()),
        }
    } else if entry.key == "context_window"@ || entry.key == "ui.context_window"@ {
        (
            AppView {
                status: StatusView { context_window: count_of(entry.value), ..a.status },
                ..a
            },
            Seq::empty(),
        )
    } else if entry.key == "model"@ {
        (
            AppView { status: StatusView { model: entry.value, ..a.status }, ..a },
            Seq::empty(),
        )
    } else {
        (a, Seq::empty())
    }
}

/// The first entries of the configuration applied, in order.
pub open spec fn entries_applied(a: AppView, entries: Seq<ConfigView>) -> (
    AppView,
    Seq<ProjectionView>,
)
    decreases entries.len(),
{
    if entries.len() == 0 {
        (a, Seq::empty())
    } else {
        let before = entries_applied(a, entries.drop_last());
        let last = entry_applied(before.0, entries.last());
        (last.0, before.1 + last.1)
    }
}

/// A configuration: applied, then listed if a listing was asked for, or
/// mentioned, behind what applying it writes.
#[verifier::opaque]
pub open spec fn config_changed(a: AppView, entries: Seq<ConfigView>) -> (
    AppView,
    Seq<EffectView>,
    Seq<ProjectionView>,
) {
    let b = entries_applied(a, entries);
    let told = if b.0.expect_config_listing {
        answered(
            AppView { expect_config_listing: false, ..b.0 },
            only(EffectView::Append(config_listing(entries))),
        )
    } else {
        answered(b.0, says(meta_line("config reloaded"@)))
    };
    let done = said_behind(b.0.cells, told.0, b.1);
    (done.0, told.1, done.1)
}

/// A step of maintenance only appends.
pub proof fn maintaining_grows(
    a: AppView,
    phase: FrontendMaintenancePhase,
    message: Option<Seq<char>>,
    now: u64,
)
    ensures
        grown(a.cells, maintained(a, phase, message, now).0.cells),
{
    reveal(maintained);
    reveal(compaction_settled);
    every_answer_grows(a.cells);
}

/// News of the service only append.
pub proof fn health_grows(a: AppView, health: ServiceHealth, now: u64)
    ensures
        grown(a.cells, health_told(a, health, now).0.cells),
{
    reveal(health_told);
    reveal(submit_failed);
    every_answer_grows(a.cells);
}

proof fn every_answer_grows(cells: StoreView)
    ensures
        grown(cells, cells),
        forall|effects: Seq<EffectView>| grown(cells, #[trigger] appends_ingested(cells, effects)),
{
    assert(cells.lines.take(cells.lines.len() as int) =~= cells.lines);
    assert forall|effects: Seq<EffectView>|
        grown(cells, #[trigger] appends_ingested(cells, effects)) by {
        ingesting_grows(cells, effects);
    }
}

impl App {
    /// Appends closed lines to the transcript.
    pub fn append_lines(&mut self, lines: Vec<TranscriptLine>)
        requires
            old(self).wf(),
        ensures
            final(self).wf(),
            final(self)@ == (AppView {
                cells: lines_appended(old(self)@.cells, lines.deep_view()),
                ..old(self)@
            }),
    {
        proof {
            reveal(App::model);
            reveal(App::wf);
        }
        self.cells.push_closed(lines);
    }

    /// Copies the lines of every append into the transcript.
    pub fn ingest_appends(&mut self, effects: &Vec<Effect>)
        requires
            old(self).wf(),
        ensures
            final(self).wf(),
            final(self)@ == ingested(old(self)@, effects.deep_view()),
    {
        let ghost all = effects.deep_view();
        let ghost start = self@;
        let mut i: usize = 0;
        while i < effects.len()
            invariant
                i <= effects.len(),
                all == effects.deep_view(),
                self.wf(),
                self@ == ingested(start, all.take(i as int)),
            decreases effects.len() - i,
        {
            proof {
                assert(all.take(i as int + 1).drop_last() =~= all.take(i as int));
                assert(all.take(i as int + 1).last() == effects@[i as int].deep_view());
            }
            if let Effect::Append(lines) = &effects[i] {
                self.append_lines(transcript::copy_lines(lines));
            }
            i += 1;
        }
        proof {
            assert(all.take(i as int) =~= all);
        }
    }

    /// Hands effects out, their lines in the transcript.
    pub(crate) fn answer(&mut self, effects: Vec<Effect>) -> (handed: Vec<Effect>)
        requires
            old(self).wf(),
        ensures
            final(self).wf(),
            (final(self)@, handed.deep_view()) == answered(old(self)@, effects.deep_view()),
    {
        self.ingest_appends(&effects);
        effects
    }

    pub(crate) fn drop_model_switch(&mut self) -> (pending: bool)
        requires
            old(self).wf(),
        ensures
            final(self).wf(),
            pending == old(self)@.pending_model_switch,
            final(self)@ == (AppView { pending_model_switch: false, ..old(self)@ }),
    {
        proof {
            reveal(App::model);
            reveal(App::wf);
        }
        let pending = self.pending_model_switch;
        self.pending_model_switch = false;
        pending
    }

    fn model_name(&self) -> (name: String)
        ensures
            name@ == self@.status.model,
    {
        proof {
            reveal(App::model);
            reveal(App::wf);
        }
        self.status.model.clone()
    }

    fn in_manual_compaction(&self) -> (yes: bool)
        ensures
            yes == self@.manual_compacting,
    {
        proof {
            reveal(App::model);
            reveal(App::wf);
        }
        self.manual_compacting
    }

    pub(crate) fn tell_not_switched(&mut self, reason: &str) -> (effects: Vec<Effect>)
        requires
            old(self).wf(),
        ensures
            final(self).wf(),
            (final(self)@, effects.deep_view()) == answered(
                old(self)@,
                says(not_switched(reason@, old(self)@.status.model)),
            ),
    {
        let mut text = strs::cat3("error: model not switched: ", reason, "; still on ");
        text.push_str(self.model_name().as_str());
        self.answer(effect::say(error(text.as_str())))
    }

    pub fn apply_command_rejected(&mut self, reason: &str) -> (effects: Vec<Effect>)
        requires
            old(self).wf(),
        ensures
            final(self).wf(),
            (final(self)@, effects.deep_view()) == command_rejected(old(self)@, reason@),
    {
        proof {
            reveal(command_rejected);
        }
        let ghost before = self@;
        if self.drop_model_switch() {
            return self.tell_not_switched(reason);
        }
        assert(self@ == before);
        if self.in_manual_compaction() {
            self.clear_manual_compaction();
            let text = strs::cat("error: context compaction was not started: ", reason);
            return self.answer(effect::say(error(text.as_str())));
        }
        let text = strs::cat("error: ", reason);
        self.answer(effect::say(error(text.as_str())))
    }

    fn drop_compactions(&mut self)
        requires
            old(self).wf(),
        ensures
            final(self).wf(),
            final(self)@ == (AppView {
                manual_compacting: false,
                automatic_compacting: false,
                ..old(self)@
            }),
    {
        proof {
            reveal(App::model);
            reveal(App::wf);
        }
        self.manual_compacting = false;
        self.automatic_compacting = false;
    }

    fn begin_manual_compaction(&mut self, now: u64)
        requires
            old(self).wf(),
        ensures
            final(self).wf(),
            final(self)@ == compaction_begun(old(self)@, now),
    {
        proof {
            reveal(App::model);
            reveal(App::wf);
        }
        self.manual_compacting = true;
        self.run_state.start_manual_compaction(now);
        self.status.compacting = true;
    }

    fn note_compacting(&mut self, now: u64)
        requires
            old(self).wf(),
        ensures
            final(self).wf(),
            ({
                let b = AppView {
                    status: StatusView { busy: false, ..old(self)@.status },
                    ..old(self)@
                };
                final(self)@ == if !b.manual_compacting && !b.automatic_compacting {
                    compaction_begun(b, now)
                } else {
                    compacting_synced(b)
                }
            }),
    {
        proof {
            reveal(App::model);
            reveal(App::wf);
        }
        self.status.busy = false;
        if !self.manual_compacting && !self.automatic_compacting {
            self.begin_manual_compaction(now);
        } else {
            self.sync_compacting_status();
        }
    }

    pub fn apply_availability(&mut self, availability: &FrontendAvailability, now: u64)
        requires
            old(self).wf(),
        ensures
            final(self).wf(),
            final(self)@ == availability_noted(old(self)@, *availability, now),
    {
        proof {
            reveal(availability_noted);
        }
        match availability {
            FrontendAvailability::Idle => {
                self.drop_compactions();
                self.set_busy(false, now);
            },
            FrontendAvailability::Busy { .. } => {
                self.set_automatic_compaction(false);
                self.sync_compacting_status();
                self.set_busy(true, now);
            },
            FrontendAvailability::Compacting { .. } => self.note_compacting(now),
        }
    }

    /// A manual compaction settled.
    pub fn finish_manual_compaction_message(&mut self, message: &Option<String>) -> (effects: Vec<
        Effect,
    >)
        requires
            old(self).wf(),
        ensures
            final(self).wf(),
            (final(self)@, effects.deep_view()) == compaction_settled(
                old(self)@,
                message.deep_view(),
            ),
    {
        proof {
            reveal(compaction_settled);
        }
        self.clear_manual_compaction();
        let text = match message {
            Some(message) => {
                if strs::contains(message.as_str(), "NothingToCompact") {
                    return self.answer(
                        effect::say(
                            meta("nothing to compact: no older completed turns are available"),
                        ),
                    );
                }
                match facts::parse_compacted_boundary(message.as_str()) {
                    Some(boundary) => strs::cat("context compacted through ", boundary.as_str()),
                    None => strs::cat("context compacted: ", message.as_str()),
                }
            },
            None => "context compacted".to_owned(),
        };
        self.clear_usage();
        self.answer(effect::say(meta(text.as_str())))
    }

    /// Applies the typed result of a manual compaction. The line that tells it is
    /// the caller's to append.
    pub fn finish_manual_compaction(
        &mut self,
        result: Result<CompactionReport, CompactionError>,
    ) -> (effects: Vec<Effect>)
        requires
            old(self).wf(),
        ensures
            final(self).wf(),
            (final(self)@, effects.deep_view()) == compaction_finished(old(self)@, result),
    {
        proof {
            reveal(compaction_finished);
        }
        self.clear_manual_compaction();
        match result {
            Ok(CompactionReport::Compacted { covers_up_to }) => {
                self.clear_usage();
                let text = strs::cat("context compacted through ", covers_up_to.as_str());
                effect::say(meta(text.as_str()))
            },
            Ok(CompactionReport::NothingToCompact) => effect::say(
                notice("nothing to compact: no older completed turns are available"),
            ),
            Err(CompactionError::Unavailable { availability }) => {
                let reason = match availability {
                    FrontendAvailability::Busy { .. } => "a turn is already running",
                    FrontendAvailability::Compacting { .. } => {
                        "context compaction is already running"
                    },
                    FrontendAvailability::Idle => "the runtime refused maintenance",
                };
                let text = strs::cat("error: context compaction was not started: ", reason);
                effect::say(error(text.as_str()))
            },
            Err(CompactionError::Failed { message }) => {
                let text = strs::cat("error: context compaction failed: ", message.as_str());
                effect::say(error(text.as_str()))
            },
        }
    }

    pub fn apply_maintenance(&mut self, maintenance: &FrontendMaintenance, now: u64) -> (effects:
        Vec<Effect>)
        requires
            old(self).wf(),
        ensures
            final(self).wf(),
            (final(self)@, effects.deep_view()) == maintained(
                old(self)@,
                maintenance.phase,
                maintenance.message.deep_view(),
                now,
            ),
    {
        proof {
            reveal(maintained);
        }
        match maintenance.phase {
            FrontendMaintenancePhase::Accepted
            | FrontendMaintenancePhase::Started
            | FrontendMaintenancePhase::Progress => {
                if !self.in_manual_compaction() {
                    self.begin_manual_compaction(now);
                }
                effect::no_effects()
            },
            FrontendMaintenancePhase::Settled => self.finish_manual_compaction_message(
                &maintenance.message,
            ),
            FrontendMaintenancePhase::Failed => {
                self.clear_manual_compaction();
                let detail = match &maintenance.message {
                    Some(message) => message.as_str(),
                    None => "context compaction failed",
                };
                let text = strs::cat("error: context compaction failed: ", detail);
                self.answer(effect::say(error(text.as_str())))
            },
            FrontendMaintenancePhase::Cancelled => {
                if !self.in_manual_compaction() {
                    return effect::no_effects();
                }
                self.clear_manual_compaction();
                self.answer(effect::say(meta("context compaction cancelled")))
            },
        }
    }

    fn stop_run(&mut self)
        requires
            old(self).wf(),
        ensures
            final(self).wf(),
            final(self)@ == (AppView { run_state: idle(), ..old(self)@ }),
    {
        proof {
            reveal(App::model);
            reveal(App::wf);
        }
        self.run_state.clear();
    }

    fn clear_runtime_presence(&mut self, now: u64)
        requires
            old(self).wf(),
        ensures
            final(self).wf(),
            final(self)@ == presence_cleared(old(self)@, now),
    {
        self.drop_compactions();
        self.stop_run();
        self.clear_stream();
        self.set_busy(false, now);
    }

    pub fn apply_health(&mut self, health: &ServiceHealth, now: u64) -> (effects: Vec<Effect>)
        requires
            old(self).wf(),
        ensures
            final(self).wf(),
            (final(self)@, effects.deep_view()) == health_told(old(self)@, *health, now),
    {
        proof {
            reveal(health_told);
        }
        match health {
            ServiceHealth::Healthy => effect::no_effects(),
            ServiceHealth::Degraded { message } => {
                let text = strs::cat("warning: ", message.as_str());
                self.answer(effect::say(notice(text.as_str())))
            },
            ServiceHealth::RuntimeEpochEnded { message } => {
                self.clear_runtime_presence(now);
                let text = strs::cat("error: ", message.as_str());
                let restored = self.restore_pending_after_interrupt(error(text.as_str()));
                assert(restored.deep_view().len() == restored@.len());
                if restored.len() == 0 {
                    self.answer(effect::say(error(text.as_str())))
                } else {
                    self.answer(restored)
                }
            },
            ServiceHealth::ShuttingDown => self.answer(
                effect::say(notice("service is shutting down")),
            ),
        }
    }

    fn session_id(&self) -> (id: String)
        ensures
            id@ == self@.status.session,
    {
        proof {
            reveal(App::model);
            reveal(App::wf);
        }
        self.status.session.clone()
    }

    /// Lists the recorded sessions in a picker; `unix_now` is in seconds.
    pub fn apply_session_list(&mut self, sessions: &Vec<FrontendSessionSummary>, unix_now: u64) -> (
        effects: Vec<Effect>)
        requires
            old(self).wf(),
        ensures
            final(self).wf(),
            (final(self)@, effects.deep_view()) == sessions_listed(
                old(self)@,
                sessions@,
                unix_now,
            ),
    {
        proof {
            reveal(sessions_listed);
        }
        if sessions.len() == 0 {
            return self.answer(
                effect::say(
                    meta("no sessions recorded yet; this one starts with the first message"),
                ),
            );
        }
        let current = self.session_id();
        let entries = list_sessions(sessions, current.as_str(), unix_now);
        self.open_picker(entries);
        self.refresh_picker_preview()
    }

    fn note_provider(&mut self, models: &Vec<FrontendModelListing>)
        requires
            old(self).wf(),
        ensures
            final(self).wf(),
            final(self)@ == provider_noted(old(self)@, models@),
    {
        proof {
            reveal(App::model);
            reveal(App::wf);
        }
        let at = find_current(models);
        if at < models.len() {
            self.status.provider = Some(models[at].provider.clone());
        }
    }

    /// Takes a model catalog over; it opens the picker only if asked to.
    pub fn apply_model_catalog(&mut self, models: &Vec<FrontendModelListing>, open_picker: bool) -> (
        effects: Vec<Effect>)
        requires
            old(self).wf(),
        ensures
            final(self).wf(),
            (final(self)@, effects.deep_view()) == catalog_loaded(old(self)@, models@, open_picker),
    {
        proof {
            reveal(catalog_loaded);
        }
        self.note_provider(models);
        if !open_picker {
            return effect::no_effects();
        }
        if models.len() == 0 {
            return self.answer(
                effect::say(
                    meta("no models configured; add [providers.<id>] sections to config.toml"),
                ),
            );
        }
        self.open_model_picker(list_models(models));
        effect::no_effects()
    }

    fn reset_view(&mut self, id: &str)
        requires
            old(self).wf(),
        ensures
            final(self).wf(),
            final(self)@ == (AppView {
                status: StatusView {
                    session: id@,
                    usage: lookup(old(self)@.usage_cache, id@),
                    ..old(self)@.status
                },
                run_state: idle(),
                cells: StoreView { lines: Seq::empty(), open: None, think: Seq::empty() },
                thoughts_expanded: Set::empty(),
                tool_batch: None,
                cards_expanded: Set::empty(),
                cards_folded: Set::empty(),
                scroll: following(),
                selection: None,
                ..flushed(old(self)@)
            }),
    {
        proof {
            reveal(App::model);
            reveal(App::wf);
        }
        self.status.session = id.to_owned();
        self.status.usage = match self.usage_cache.get(id) {
            Some(usage) => Some(*usage),
            None => None,
        };
        self.run_state.clear();
        self.pacer.clear();
        self.cells.clear();
        self.reasoning_manually_expanded.clear();
        self.tool_batch = None;
        self.tool_cards_expanded.clear();
        self.tool_cards_folded.clear();
        self.scroll = ScrollState::follow();
        self.selection = None;
        proof {
            assert(self@.cells.think =~= Seq::<crate::app::cells::ThinkTiming>::empty());
        }
    }

    fn remembered_choice(&self, id: &str) -> (choice: Option<FrontendGenerationChoice>)
        ensures
            choice.deep_view() == lookup(self@.model_cache, id@),
    {
        proof {
            reveal(App::model);
            reveal(App::wf);
        }
        match self.model_cache.get(id) {
            Some(choice) => Some(choice.copy()),
            None => None,
        }
    }

    fn set_model(&mut self, choice: &FrontendGenerationChoice)
        requires
            old(self).wf(),
        ensures
            final(self).wf(),
            final(self)@ == model_set(old(self)@, choice.deep_view()),
    {
        proof {
            reveal(App::model);
            reveal(App::wf);
        }
        self.status.model = choice.model_name.clone();
        self.status.effort = strs::clone_opt(&choice.reasoning_effort);
        self.status.provider = strs::clone_opt(&choice.provider);
    }

    /// Starts showing a different session. The renderer starts afresh with it.
    pub fn begin_session(&mut self, session_id: &str)
        requires
            old(self).wf(),
        ensures
            final(self).wf(),
            final(self)@ == session_begun(old(self)@, session_id@),
    {
        proof {
            reveal(session_begun);
        }
        let choice = self.remembered_choice(session_id);
        self.reset_view(session_id);
        if let Some(choice) = choice {
            self.set_model(&choice);
        }
    }

    /// How the next loaded session is presented.
    pub fn expect_session_load(&mut self, intent: SessionLoadIntent)
        requires
            old(self).wf(),
        ensures
            final(self).wf(),
            final(self)@ == (AppView { session_load_intent: Some(intent), ..old(self)@ }),
    {
        proof {
            reveal(App::model);
            reveal(App::wf);
        }
        self.session_load_intent = Some(intent);
    }

    /// A model listing that arrives next opens the picker.
    pub fn expect_models_listing(&mut self)
        requires
            old(self).wf(),
        ensures
            final(self).wf(),
            final(self)@ == (AppView { expect_models_picker: true, ..old(self)@ }),
    {
        proof {
            reveal(App::model);
            reveal(App::wf);
        }
        self.expect_models_picker = true;
    }

    fn take_load_intent(&mut self) -> (intent: Option<SessionLoadIntent>)
        requires
            old(self).wf(),
        ensures
            final(self).wf(),
            intent == old(self)@.session_load_intent,
            final(self)@ == (AppView { session_load_intent: None, ..old(self)@ }),
    {
        proof {
            reveal(App::model);
            reveal(App::wf);
        }
        let intent = self.session_load_intent;
        self.session_load_intent = None;
        intent
    }

    pub(crate) fn restore_usage(&mut self, id: &str, usage: Option<FrontendTokenUsage>)
        requires
            old(self).wf(),
        ensures
            final(self).wf(),
            final(self)@ == usage_restored(old(self)@, id@, usage),
    {
        proof {
            reveal(App::model);
            reveal(App::wf);
        }
        if let Some(usage) = usage {
            self.status.usage = Some(usage);
            self.usage_cache.insert(id, usage);
        }
    }

    pub(crate) fn remember_choice(&mut self, id: &str, choice: &Option<FrontendGenerationChoice>)
        requires
            old(self).wf(),
        ensures
            final(self).wf(),
            final(self)@ == choice_remembered(old(self)@, id@, choice.deep_view()),
    {
        proof {
            reveal(App::model);
            reveal(App::wf);
        }
        if let Some(choice) = choice {
            self.model_cache.insert(id, choice.copy());
        }
    }

    pub(crate) fn show_history(&mut self, history: &Vec<TranscriptLine>)
        requires
            old(self).wf(),
        ensures
            final(self).wf(),
            final(self)@ == history_shown(old(self)@, history.deep_view()),
    {
        assert(history.deep_view().len() == history@.len());
        if history.len() > 0 {
            self.append_lines(transcript::copy_lines(history));
        }
    }

    /// Shows a loaded session; `history` is its replay, rendered.
    pub fn apply_session_loaded(
        &mut self,
        session_id: &str,
        view: &DurableSessionView,
        history: &Vec<TranscriptLine>,
    ) -> (effects: Vec<Effect>)
        requires
            old(self).wf(),
        ensures
            final(self).wf(),
            (final(self)@, effects.deep_view()) == session_loaded(
                old(self)@,
                session_id@,
                view.usage,
                view.generation.deep_view(),
                history.deep_view(),
            ),
    {
        proof {
            reveal(session_loaded);
        }
        let intent = self.take_load_intent();
        self.begin_session(session_id);
        self.restore_usage(session_id, view.usage);
        if let Some(choice) = &view.generation {
            self.set_model(choice);
        }
        self.remember_choice(session_id, &view.generation);
        match intent {
            Some(SessionLoadIntent::New) => {
                let text = strs::cat("new session: ", session_id);
                self.answer(effect::say(meta(text.as_str())))
            },
            Some(SessionLoadIntent::Snapshot) => {
                self.show_history(history);
                effect::no_effects()
            },
            _ => {
                let lines = switched_lines(session_id, history);
                self.answer(effect::one_effect(Effect::Append(lines)))
            },
        }
    }

    /// Shows the generation that is installed, without a word.
    pub(crate) fn show_generation(&mut self, display: &FrontendGeneration)
        requires
            old(self).wf(),
        ensures
            final(self).wf(),
            final(self)@ == (AppView {
                status: StatusView {
                    model: display.model_name@,
                    effort: effort_shown(display.reasoning_effort.deep_view()),
                    provider: display.provider.deep_view(),
                    ..old(self)@.status
                },
                ..old(self)@
            }),
    {
        proof {
            reveal(App::model);
            reveal(App::wf);
        }
        self.status.model = display.model_name.clone();
        self.status.effort = facts::effort_value(&display.reasoning_effort);
        self.status.provider = strs::clone_opt(&display.provider);
    }

    pub fn apply_generation_installed(&mut self, display: &FrontendGeneration) -> (effects: Vec<
        Effect,
    >)
        requires
            old(self).wf(),
        ensures
            final(self).wf(),
            (final(self)@, effects.deep_view()) == generation_installed(
                old(self)@,
                display.model_name@,
                display.reasoning_effort.deep_view(),
                display.provider.deep_view(),
            ),
    {
        proof {
            reveal(generation_installed);
        }
        let previous = self.model_name();
        let session = self.session_id();
        self.show_generation(display);
        self.drop_model_switch();
        if !session.as_str().is_empty() {
            let choice = Some(
                FrontendGenerationChoice {
                    provider: strs::clone_opt(&display.provider),
                    model_name: display.model_name.clone(),
                    reasoning_effort: strs::clone_opt(&display.reasoning_effort),
                },
            );
            self.remember_choice(session.as_str(), &choice);
        }
        let text = tell_installed(previous.as_str(), display);
        let mut effects = self.answer(effect::say(meta(text.as_str())));
        let ghost before = effects.deep_view();
        let refresh = Effect::Host(HostRequest::RefreshModels);
        effects.push(refresh);
        assert(effects.deep_view() =~= before.push(refresh.deep_view()));
        effects
    }

    fn set_show_reasoning(&mut self, shown: bool)
        requires
            old(self).wf(),
        ensures
            final(self).wf(),
            final(self)@ == (AppView { show_reasoning: shown, ..old(self)@ }),
    {
        proof {
            reveal(App::model);
            reveal(App::wf);
        }
        self.show_reasoning = shown;
    }

    fn set_level(&mut self, level: InfoLevel)
        requires
            old(self).wf(),
        ensures
            final(self).wf(),
            final(self)@ == (AppView {
                level,
                status: StatusView { level, ..old(self)@.status },
                ..old(self)@
            }),
    {
        proof {
            reveal(App::model);
            reveal(App::wf);
        }
        self.level = level;
        self.status.level = level;
    }

    fn set_context_window(&mut self, window: Option<u64>)
        requires
            old(self).wf(),
        ensures
            final(self).wf(),
            final(self)@ == (AppView {
                status: StatusView { context_window: window, ..old(self)@.status },
                ..old(self)@
            }),
    {
        proof {
            reveal(App::model);
            reveal(App::wf);
        }
        self.status.context_window = window;
    }

    fn set_model_name(&mut self, name: &str)
        requires
            old(self).wf(),
        ensures
            final(self).wf(),
            final(self)@ == (AppView {
                status: StatusView { model: name@, ..old(self)@.status },
                ..old(self)@
            }),
    {
        proof {
            reveal(App::model);
            reveal(App::wf);
        }
        self.status.model = name.to_owned();
    }

    fn apply_ui_entry(&mut self, entry: &FrontendConfigEntry) -> (plan: Vec<Projection>)
        requires
            old(self).wf(),
        ensures
            final(self).wf(),
            (final(self)@, plan.deep_view()) == entry_applied(old(self)@, entry.deep_view()),
    {
        proof {
            reveal(entry_applied);
        }
        let key = entry.key.as_str();
        let value = entry.value.as_str();
        if strs::same(key, "ui.show_reasoning") || strs::same(key, "show_reasoning") {
            match facts::parse_bool(value) {
                Some(shown) => {
                    let pieces = if shown {
                        projection::no_steps()
                    } else {
                        self.flush_stream()
                    };
                    self.set_show_reasoning(shown);
                    projection::then_steps(
                        pieces,
                        projection::one_step(Projection::ReasoningShown(shown)),
                    )
                },
                None => projection::no_steps(),
            }
        } else if strs::same(key, "verbose") || strs::same(key, "ui.verbose") {
            if let Some(verbose) = facts::parse_bool(value) {
                if verbose {
                    self.set_level(InfoLevel::Verbose);
                } else {
                    self.set_level(InfoLevel::Default);
                }
            }
            projection::no_steps()
        } else if strs::same(key, "context_window") || strs::same(key, "ui.context_window") {
            self.set_context_window(facts::parse_count(value));
            projection::no_steps()
        } else {
            if strs::same(key, "model") {
                self.set_model_name(value);
            }
            projection::no_steps()
        }
    }

    /// Applies the entries that concern the front end, in order.
    pub fn apply_ui_entries(&mut self, entries: &Vec<FrontendConfigEntry>) -> (plan: Vec<Projection>)
        requires
            old(self).wf(),
        ensures
            final(self).wf(),
            (final(self)@, plan.deep_view()) == entries_applied(old(self)@, entries.deep_view()),
    {
        let ghost all = entries.deep_view();
        let ghost start = self@;
        let mut plan = projection::no_steps();
        let mut i: usize = 0;
        while i < entries.len()
            invariant
                i <= entries.len(),
                all == entries.deep_view(),
                self.wf(),
                (self@, plan.deep_view()) == entries_applied(start, all.take(i as int)),
            decreases entries.len() - i,
        {
            proof {
                assert(all.take(i as int + 1).drop_last() =~= all.take(i as int));
                assert(all.take(i as int + 1).last() == entries@[i as int].deep_view());
            }
            let more = self.apply_ui_entry(&entries[i]);
            plan = projection::then_steps(plan, more);
            i += 1;
        }
        proof {
            assert(all.take(i as int) =~= all);
        }
        plan
    }

    fn take_listing_wish(&mut self) -> (wanted: bool)
        requires
            old(self).wf(),
        ensures
            final(self).wf(),
            wanted == old(self)@.expect_config_listing,
            final(self)@ == (AppView { expect_config_listing: false, ..old(self)@ }),
    {
        proof {
            reveal(App::model);
            reveal(App::wf);
        }
        let wanted = self.expect_config_listing;
        self.expect_config_listing = false;
        wanted
    }

    pub fn apply_config_changed(&mut self, entries: &Vec<FrontendConfigEntry>) -> (reaction: (
        Vec<Effect>,
        Vec<Projection>,
    ))
        requires
            old(self).wf(),
        ensures
            final(self).wf(),
            (final(self)@, reaction.0.deep_view(), reaction.1.deep_view()) == config_changed(
                old(self)@,
                entries.deep_view(),
            ),
    {
        proof {
            reveal(config_changed);
        }
        let plan = self.apply_ui_entries(entries);
        let ghost applied = self@;
        let mark = self.transcript_mark();
        let effects = if self.take_listing_wish() {
            let lines = listings::config_lines(entries);
            self.answer(effect::one_effect(Effect::Append(lines)))
        } else {
            assert(self@ == applied);
            self.answer(effect::say(meta("config reloaded")))
        };
        proof {
            answering_grows(applied, effects.deep_view());
        }
        let plan = self.say_behind(mark, plan, Ghost(applied.cells));
        (effects, plan)
    }

    /// How many cells the transcript has, and which is open.
    pub(crate) fn transcript_mark(&self) -> (mark: (usize, Option<usize>))
        requires
            self.wf(),
        ensures
            mark.0 == self@.cells.lines.len(),
            mark.1 == self@.cells.open,
            mark.1 is Some ==> mark.1->0 + 1 == mark.0,
    {
        proof {
            reveal(App::model);
            reveal(App::wf);
            self.cells.wf_keeps_open_last();
        }
        (self.cells.display_len(), self.cells.open_index())
    }

    /// Puts what was said since `mark` behind the steps that are still to be
    /// performed.
    pub(crate) fn say_behind(
        &mut self,
        mark: (usize, Option<usize>),
        plan: Vec<Projection>,
        Ghost(before): Ghost<StoreView>,
    ) -> (steps: Vec<Projection>)
        requires
            old(self).wf(),
            mark.0 == before.lines.len(),
            mark.1 == before.open,
            mark.1 is Some ==> mark.1->0 + 1 == mark.0,
            grown(before, old(self)@.cells),
        ensures
            final(self).wf(),
            (final(self)@, steps.deep_view()) == said_behind(
                before,
                old(self)@,
                plan.deep_view(),
            ),
    {
        let ghost after = self@.cells;
        assert(plan.deep_view().len() == plan@.len());
        if plan.len() == 0 {
            return plan;
        }
        let now_at = self.transcript_mark();
        if now_at.0 == mark.0 && now_at.1 == mark.1 {
            assert(after.lines.take(mark.0 as int) =~= after.lines);
            return plan;
        }
        let lines = self.withdraw_lines(mark);
        projection::then_steps(plan, projection::one_step(Projection::Lines(lines)))
    }

    fn withdraw_lines(&mut self, mark: (usize, Option<usize>)) -> (lines: Vec<TranscriptLine>)
        requires
            old(self).wf(),
            mark.0 <= old(self)@.cells.lines.len(),
            mark.1 is Some ==> mark.1->0 + 1 == mark.0,
        ensures
            final(self).wf(),
            final(self)@ == (AppView {
                cells: StoreView {
                    lines: old(self)@.cells.lines.take(mark.0 as int),
                    open: mark.1,
                    think: old(self)@.cells.think,
                },
                ..old(self)@
            }),
            lines.deep_view() == old(self)@.cells.lines.skip(mark.0 as int),
    {
        proof {
            reveal(App::model);
            reveal(App::wf);
        }
        self.cells.withdraw(mark.0, mark.1)
    }
}

fn list_sessions(sessions: &Vec<FrontendSessionSummary>, current: &str, unix_now: u64) -> (entries:
    Vec<PickerEntry>)
    ensures
        entries.deep_view() == session_entries(sessions@, current@, unix_now),
{
    let mut entries: Vec<PickerEntry> = Vec::new();
    let mut i: usize = 0;
    while i < sessions.len()
        invariant
            i <= sessions.len(),
            entries.len() == i,
            forall|k: int|
                0 <= k < i ==> (#[trigger] entries@[k]).deep_view() == session_entry(
                    sessions@[k],
                    current@,
                    unix_now,
                ),
        decreases sessions.len() - i,
    {
        let summary = &sessions[i];
        let primary = match &summary.title {
            Some(title) => title.clone(),
            None => summary.session_id.clone(),
        };
        let age = match summary.updated_at {
            Some(stamp) => calendar::relative_time(stamp, unix_now),
            None => None,
        };
        let secondary = match age {
            Some(text) => text,
            None => {
                let empty = String::new();
                assert(empty@ =~= Seq::<char>::empty());
                empty
            },
        };
        let group = String::new();
        let tiers: Vec<String> = Vec::new();
        assert(group@ =~= Seq::<char>::empty());
        assert(tiers.deep_view() =~= Seq::<Seq<char>>::empty());
        entries.push(
            PickerEntry {
                id: summary.session_id.clone(),
                primary,
                secondary,
                group,
                marked: strs::same(summary.session_id.as_str(), current),
                tiers,
            },
        );
        i += 1;
    }
    assert(entries.deep_view() =~= session_entries(sessions@, current@, unix_now));
    entries
}

fn find_current(models: &Vec<FrontendModelListing>) -> (at: usize)
    ensures
        at == current_model(models@),
        at <= models@.len(),
{
    let mut i: usize = 0;
    proof {
        assert(models@.skip(0) =~= models@);
    }
    while i < models.len() && !models[i].current
        invariant
            i <= models.len(),
            current_model(models@) == i + current_model(models@.skip(i as int)),
        decreases models.len() - i,
    {
        proof {
            assert(models@.skip(i as int)[0] == models@[i as int]);
            assert(models@.skip(i as int).skip(1) =~= models@.skip(i as int + 1));
        }
        i += 1;
    }
    proof {
        if i < models.len() {
            assert(models@.skip(i as int)[0] == models@[i as int]);
        }
    }
    i
}

fn list_models(models: &Vec<FrontendModelListing>) -> (entries: Vec<PickerEntry>)
    ensures
        entries.deep_view() == model_entries(models@),
{
    let mut entries: Vec<PickerEntry> = Vec::new();
    let mut i: usize = 0;
    while i < models.len()
        invariant
            i <= models.len(),
            entries.len() == i,
            forall|k: int|
                0 <= k < i ==> (#[trigger] entries@[k]).deep_view() == model_entry(models@[k]),
        decreases models.len() - i,
    {
        let listing = &models[i];
        let secondary = if listing.current {
            "current"
        } else {
            ""
        };
        entries.push(
            PickerEntry {
                id: listing.id.clone(),
                primary: listing.id.clone(),
                secondary: secondary.to_owned(),
                group: listing.provider.clone(),
                marked: listing.current,
                tiers: strs::clone_strings(&listing.reasoning_tiers),
            },
        );
        i += 1;
    }
    assert(entries.deep_view() =~= model_entries(models@));
    entries
}

/// The lines that show a switched session.
fn switched_lines(session_id: &str, history: &Vec<TranscriptLine>) -> (lines: Vec<TranscriptLine>)
    ensures
        lines.deep_view() == seq![meta_line("session "@ + session_id@)] + (if history@.len() == 0 {
            seq![meta_line("(no history yet)"@)]
        } else {
            history.deep_view()
        }),
{
    let mut lines: Vec<TranscriptLine> = Vec::new();
    let text = strs::cat("session ", session_id);
    let first = meta(text.as_str());
    lines.push(first);
    assert(lines.deep_view() =~= seq![first.deep_view()]);
    let ghost head = lines.deep_view();
    let mut rest = if history.len() == 0 {
        let none = meta("(no history yet)");
        let mut only_line: Vec<TranscriptLine> = Vec::new();
        only_line.push(none);
        assert(only_line.deep_view() =~= seq![none.deep_view()]);
        only_line
    } else {
        transcript::copy_lines(history)
    };
    let ghost more = rest.deep_view();
    lines.append(&mut rest);
    assert(lines.deep_view() =~= head + more);
    lines
}

/// What is said of an installed generation.
fn tell_installed(previous: &str, display: &FrontendGeneration) -> (text: String)
    ensures
        text@ == installed_text(
            previous@,
            display.model_name@,
            display.reasoning_effort.deep_view(),
        ),
{
    if let Some(effort) = &display.reasoning_effort {
        if strs::same(previous, display.model_name.as_str()) && facts::is_effort_set(
            effort.as_str(),
        ) {
            return strs::cat3(
                "reasoning: ",
                facts::effort_label(effort.as_str()).as_str(),
                " (from the next turn on)",
            );
        }
    }
    strs::cat("model: ", display.model_name.as_str())
}

// ---------------------------------------------------------------------------
// Laws
// ---------------------------------------------------------------------------

/// Appending one line puts that line, closed, at the end of the transcript.
pub proof fn said_lines_are_kept(a: AppView, line: LineView)
    ensures
        ingested(a, says(line)).cells == (StoreView {
            lines: a.cells.lines.push(line),
            open: None,
            think: a.cells.think,
        }),
{
    reveal_with_fuel(appends_ingested, 2);
    assert(a.cells.lines + seq![line] =~= a.cells.lines.push(line));
    assert(says(line).drop_last() =~= nothing());
}

/// Switching away from a session and back restores its last usage and model.
pub proof fn sessions_are_remembered(
    a: AppView,
    other: Seq<char>,
    usage: FrontendTokenUsage,
    choice: ChoiceView,
)
    requires
        lookup(a.usage_cache, a.status.session) == Some(usage),
        lookup(a.model_cache, a.status.session) == Some(choice),
    ensures
        ({
            let back = session_begun(session_begun(a, other), a.status.session);
            &&& back.status.session == a.status.session
            &&& back.status.usage == Some(usage)
            &&& back.status.model == choice.model_name
            &&& back.status.effort == choice.reasoning_effort
            &&& back.status.provider == choice.provider
        }),
{
    reveal(session_begun);
}

/// A session change keeps the draft, the attachments and a held message.
pub proof fn session_change_spares_the_draft(a: AppView, id: Seq<char>)
    ensures
        super::overlays::draft_spared(a, session_begun(a, id)),
        session_begun(a, id).cells.lines.len() == 0,
        session_begun(a, id).scroll == following(),
{
    reveal(session_begun);
}

/// The lines that tell of a configuration come behind everything that applying it
/// writes: they are the last step, and the transcript is left alone until then.
pub proof fn config_is_told_last(a: AppView, entries: Seq<ConfigView>)
    requires
        entries_applied(a, entries).1.len() > 0,
    ensures
        ({
            let applied = entries_applied(a, entries);
            let told = config_changed(a, entries);
            &&& told.0.cells == applied.0.cells
            &&& told.2 == applied.1 + seq![
                ProjectionView::Lines(
                    if applied.0.expect_config_listing {
                        config_listing(entries)
                    } else {
                        seq![meta_line("config reloaded"@)]
                    },
                ),
            ]
        }),
{
    reveal(config_changed);
    reveal_with_fuel(appends_ingested, 2);
    let before = entries_applied(a, entries).0.cells;
    let listing = config_listing(entries);
    let line = seq![meta_line("config reloaded"@)];
    let n = before.lines.len() as int;
    assert((before.lines + listing).skip(n) =~= listing);
    assert((before.lines + line).skip(n) =~= line);
    assert(only(EffectView::Append(listing)).drop_last() =~= Seq::<EffectView>::empty());
    assert(says(meta_line("config reloaded"@)).drop_last() =~= Seq::<EffectView>::empty());
}

/// Sessions are listed one by one in the order they came: by title, or by id where
/// there is none, the current one marked, each with its age.
pub proof fn sessions_are_listed_in_order(
    a: AppView,
    sessions: Seq<FrontendSessionSummary>,
    unix_now: u64,
    i: int,
)
    requires
        0 <= i < sessions.len(),
    ensures
        ({
            let picker = sessions_listed(a, sessions, unix_now).0.picker;
            let entry = picker.unwrap().entries[i];
            &&& picker is Some
            &&& !picker.unwrap().grouped
            &&& picker.unwrap().entries.len() == sessions.len()
            &&& entry.id == sessions[i].session_id@
            &&& sessions[i].title is Some ==> entry.primary == (sessions[i].title.unwrap())@
            &&& sessions[i].title is None ==> entry.primary == sessions[i].session_id@
            &&& entry.marked == (sessions[i].session_id@ == a.status.session)
            &&& sessions[i].updated_at is Some && sessions[i].updated_at.unwrap() <= unix_now
                ==> entry.secondary == age_label(sessions[i].updated_at.unwrap(), unix_now)
            &&& picker.unwrap().filter.len() == 0
            &&& picker.unwrap().selected == 0
        }),
{
    reveal(sessions_listed);
    reveal(super::overlays::preview_refreshed);
}

/// Models are listed one by one in the order they came, under their provider, the
/// current one marked; the provider of the current one is shown.
pub proof fn models_are_listed_in_order(a: AppView, models: Seq<FrontendModelListing>, i: int)
    requires
        0 <= i < models.len(),
    ensures
        ({
            let next = catalog_loaded(a, models, true).0;
            let entry = next.picker.unwrap().entries[i];
            &&& next.picker is Some
            &&& next.picker.unwrap().grouped
            &&& next.picker.unwrap().entries.len() == models.len()
            &&& entry.id == models[i].id@
            &&& entry.group == models[i].provider@
            &&& entry.marked == models[i].current
            &&& entry.tiers == models[i].reasoning_tiers.deep_view()
        }),
        catalog_loaded(a, models, false).0.picker == a.picker,
        models[i].current && (forall|k: int| 0 <= k < i ==> !(#[trigger] models[k]).current)
            ==> catalog_loaded(a, models, false).0.status.provider == Some(models[i].provider@),
        (forall|k: int| 0 <= k < models.len() ==> !(#[trigger] models[k]).current)
            ==> catalog_loaded(a, models, false).0.status.provider == a.status.provider,
{
    reveal(catalog_loaded);
    current_is_first(models);
    let at = current_model(models) as int;
    if models[i].current && (forall|k: int| 0 <= k < i ==> !(#[trigger] models[k]).current) {
        if at < i {
            assert(!models[at].current);
        }
        if at > i {
            assert(!models[i].current);
        }
    }
    if forall|k: int| 0 <= k < models.len() ==> !(#[trigger] models[k]).current {
        if at < models.len() {
            assert(!models[at].current);
        }
    }
}

proof fn current_is_first(models: Seq<FrontendModelListing>)
    ensures
        current_model(models) <= models.len(),
        forall|k: int| 0 <= k < current_model(models) ==> !(#[trigger] models[k]).current,
        current_model(models) < models.len() ==> models[current_model(models) as int].current,
    decreases models.len(),
{
    if models.len() > 0 && !models[0].current {
        current_is_first(models.skip(1));
        assert forall|k: int| 0 <= k < current_model(models) implies !(
        #[trigger] models[k]).current by {
            if k > 0 {
                assert(models.skip(1)[k - 1] == models[k]);
            }
        }
    }
}

/// A loaded session starts from an empty transcript and shows its history in full:
/// behind its name where it was chosen, alone where it was rejoined; a new one
/// only says its name.
pub proof fn loaded_sessions_show_their_history(
    a: AppView,
    id: Seq<char>,
    usage: Option<FrontendTokenUsage>,
    choice: Option<ChoiceView>,
    history: Seq<LineView>,
)
    requires
        history.len() > 0,
    ensures
        ({
            let next = session_loaded(a, id, usage, choice, history).0;
            &&& next.status.session == id
            &&& next.session_load_intent is None
            &&& a.session_load_intent == Some(SessionLoadIntent::Switch) ==> next.cells.lines
                == seq![meta_line("session "@ + id)] + history
            &&& a.session_load_intent == Some(SessionLoadIntent::Snapshot) ==> next.cells.lines
                == history
            &&& a.session_load_intent == Some(SessionLoadIntent::New) ==> next.cells.lines == seq![
                meta_line("new session: "@ + id),
            ]
            &&& usage is Some ==> next.status.usage == usage
            &&& usage is None && a.usage_cache.contains_key(id) ==> next.status.usage == Some(
                a.usage_cache[id],
            )
            &&& usage is None && !a.usage_cache.contains_key(id) ==> next.status.usage is None
            &&& choice is Some ==> next.status.model == choice.unwrap().model_name
        }),
{
    reveal(session_loaded);
    reveal(session_begun);
    reveal_with_fuel(appends_ingested, 2);
    let none = Seq::<LineView>::empty();
    let said = seq![meta_line("session "@ + id)];
    assert(none + (said + history) =~= said + history);
    assert(none + history =~= history);
    let fresh = seq![meta_line("new session: "@ + id)];
    assert(none + fresh =~= fresh);
    let line = says(meta_line("new session: "@ + id));
    assert(line.drop_last() =~= Seq::<EffectView>::empty());
    let shown = only(EffectView::Append(said + history));
    assert(shown.drop_last() =~= Seq::<EffectView>::empty());
}

/// The service's word on who is at work is taken over: idle ends everything,
/// busy marks a turn, and compacting marks a compaction and no turn.
pub proof fn availability_is_taken_over(a: AppView, availability: FrontendAvailability, now: u64)
    ensures
        ({
            let next = availability_noted(a, availability, now);
            &&& availability is Idle ==> !next.status.busy && !next.status.compacting
                && !next.manual_compacting && !next.automatic_compacting
            &&& availability is Busy ==> next.status.busy && !next.automatic_compacting
            &&& availability is Compacting ==> !next.status.busy && next.status.compacting
        }),
{
    reveal(availability_noted);
}

/// A refused command says why, once, and what it was waiting for is no longer
/// waited for.
pub proof fn refusals_say_why(a: AppView, reason: Seq<char>)
    ensures
        ({
            let (next, effects) = command_rejected(a, reason);
            &&& effects.len() == 1 && effects[0] is Append
            &&& !next.pending_model_switch
            &&& a.pending_model_switch ==> effects == says(
                error_line(
                    "error: model not switched: "@ + reason + "; still on "@ + a.status.model,
                ),
            ) && next.manual_compacting == a.manual_compacting
            &&& !a.pending_model_switch && a.manual_compacting ==> effects == says(
                error_line("error: context compaction was not started: "@ + reason),
            ) && !next.manual_compacting
            &&& !a.pending_model_switch && !a.manual_compacting ==> effects == says(
                error_line("error: "@ + reason),
            )
            &&& next.status.model == a.status.model
        }),
{
    reveal(command_rejected);
}

/// An installed model is shown and remembered for its session, and the list of
/// models is refreshed.
pub proof fn installed_models_are_shown(
    a: AppView,
    model: Seq<char>,
    effort: Option<Seq<char>>,
    provider: Option<Seq<char>>,
)
    ensures
        ({
            let (next, effects) = generation_installed(a, model, effort, provider);
            &&& next.status.model == model
            &&& next.status.provider == provider
            &&& !next.pending_model_switch
            &&& effects.last() == EffectView::Host(RequestView::RefreshModels)
            &&& a.status.session.len() > 0 ==> next.model_cache.contains_key(a.status.session)
                && next.model_cache[a.status.session] == (ChoiceView {
                provider,
                model_name: model,
                reasoning_effort: effort,
            })
        }),
{
    reveal(generation_installed);
}

/// Each known key of the configuration sets its own thing, and every other key
/// sets nothing.
pub proof fn keys_set_their_own_thing(a: AppView, key: Seq<char>, value: Seq<char>, source: Seq<
    char,
>)
    ensures
        ({
            let next = entry_applied(a, ConfigView { key, value, source }).0;
            &&& (key == "ui.show_reasoning"@ || key == "show_reasoning"@) && truth_of(value) is Some
                ==> next.show_reasoning == truth_of(value).unwrap() && next.level == a.level
            &&& (key == "verbose"@ || key == "ui.verbose"@) && truth_of(value) == Some(true)
                ==> next.level == InfoLevel::Verbose && next.status.level == InfoLevel::Verbose
            &&& (key == "verbose"@ || key == "ui.verbose"@) && truth_of(value) == Some(false)
                ==> next.level == InfoLevel::Default && next.status.level == InfoLevel::Default
            &&& (key == "context_window"@ || key == "ui.context_window"@)
                ==> next.status.context_window == count_of(value) && next.status.model
                == a.status.model
            &&& key == "model"@ ==> next.status.model == value
            &&& key != "model"@ ==> next.status.model == a.status.model
            &&& key != "ui.show_reasoning"@ && key != "show_reasoning"@ ==> next.show_reasoning
                == a.show_reasoning
            &&& key != "verbose"@ && key != "ui.verbose"@ ==> next.level == a.level
        }),
{
    reveal(entry_applied);
    reveal_strlit("ui.show_reasoning");
    reveal_strlit("show_reasoning");
    reveal_strlit("verbose");
    reveal_strlit("ui.verbose");
    reveal_strlit("context_window");
    reveal_strlit("ui.context_window");
    reveal_strlit("model");
    assert("ui.show_reasoning"@.len() == 17 && "show_reasoning"@.len() == 14 && "verbose"@.len()
        == 7 && "ui.verbose"@.len() == 10 && "context_window"@.len() == 14
        && "ui.context_window"@.len() == 17 && "model"@.len() == 5);
    assert("show_reasoning"@[0] == 's' && "context_window"@[0] == 'c');
    assert("ui.show_reasoning"@[3] == 's' && "ui.context_window"@[3] == 'c');
}

/// Entries apply in order, so that a later one wins.
pub proof fn later_entries_win(a: AppView, first: Seq<ConfigView>, last: ConfigView)
    ensures
        entries_applied(a, first.push(last)).0 == entry_applied(entries_applied(a, first).0, last).0,
{
    assert(first.push(last).drop_last() =~= first);
}

/// What is appended is in the transcript, in order and behind what was there.
pub proof fn appended_lines_are_in_the_transcript(
    a: AppView,
    first: Seq<EffectView>,
    lines: Seq<LineView>,
)
    ensures
        ingested(a, first.push(EffectView::Append(lines))).cells.lines == ingested(
            a,
            first,
        ).cells.lines + lines,
        ingested(a, Seq::empty()).cells == a.cells,
{
    assert(first.push(EffectView::Append(lines)).drop_last() =~= first);
}

/// A compaction that settled is told with its boundary where the message names
/// one, and one that found nothing to do is told so and keeps the usage.
pub proof fn settled_compactions_tell_their_boundary(a: AppView, message: Seq<char>)
    ensures
        ({
            let (next, effects) = compaction_settled(a, Some(message));
            &&& !next.manual_compacting
            &&& effects.len() == 1
            &&& occurs(message, "NothingToCompact"@) ==> next.status.usage == a.status.usage
            &&& !occurs(message, "NothingToCompact"@) && boundary_in(message) is Some ==> effects
                == says(
                meta_line("context compacted through "@ + boundary_in(message).unwrap()),
            )
            &&& !occurs(message, "NothingToCompact"@) ==> next.status.usage is None
        }),
{
    reveal(compaction_settled);
}

} // verus!
