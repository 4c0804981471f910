//! What every operation keeps: the status line agrees with the state behind it.

use vstd::prelude::*;

use super::browse::{
    browsing, composing, cursor_first, cursor_last, cursor_paged, cursor_stepped, fold_toggled,
};
use super::commands::{
    bumped, error_line, highlighted, ran, ran_compact, ran_image, ran_new, ran_quit, remembered,
};
use super::composer::{
    at_tail, dispatch_finished, dispatched, draft_restored, draft_taken, image_attached,
    interrupted, media_refused, recovered, submit_accepted, submit_failed, submitted, text_pasted,
};
use super::dispatch::{
    acted, browse_acted, compose_acted, dispatched_action, edit_acted, exit_disarmed, menu_acted,
    outcome_acted, pointer_acted,
};
use super::overlays::{
    confirm_acted, front_shown, model_submitted, picker_acted, preview_refreshed,
    session_submitted,
};
use super::pointer::view_kept;
use super::runtime::{
    busy_set, evented, flushed, interrupt_pressed, telemetry, ticked, tool_evented,
    tools_cancelled,
};
use super::snapshot::{
    front_of, live_taken, reconciled, snapshot_shown, snapshot_state, snapshot_taken, updated,
    usage_shown,
};
use super::updates::{
    availability_noted, catalog_loaded, command_rejected, compaction_finished, compaction_settled,
    config_changed, entries_applied, entry_applied, generation_installed, health_told, maintained,
    presence_cleared, session_begun, session_loaded, sessions_listed,
};
use super::{fresh_app, AppView};
use crate::app::action::Action;
use crate::app::attachment::AttachmentView;
use crate::app::facts::effort_shown;
use crate::app::frontend::{FrontendOperationEvent, FrontendTokenUsage};
use crate::app::input::{blank, draft};
use crate::app::listings::ConfigView;
use crate::app::run_state::run_step;
use crate::app::status::StatusView;
use crate::app::transcript::LineView;
use crate::app::update::{
    ChoiceView, CompactionError, CompactionReport, FrontendAvailability, FrontendMaintenancePhase,
    FrontendModelListing, FrontendSessionSummary, FrontendSnapshot, FrontendUpdateKind,
    ServiceHealth,
};

verus! {

/// The status line shows the level in force, and that a compaction runs exactly
/// while one of its two causes holds.
pub open spec fn coherent(a: AppView) -> bool {
    &&& a.status.level == a.level
    &&& a.status.compacting == (a.manual_compacting || a.automatic_compacting)
}

/// The level and the compaction flags are what they were.
pub open spec fn same_flags(a: AppView, b: AppView) -> bool {
    &&& b.level == a.level
    &&& b.status.level == a.status.level
    &&& b.status.compacting == a.status.compacting
    &&& b.manual_compacting == a.manual_compacting
    &&& b.automatic_compacting == a.automatic_compacting
}

proof fn edits_keep_flags(a: AppView, action: Action, now: u64)
    ensures
        same_flags(a, edit_acted(a, action, now)),
{
    reveal(edit_acted);
}

proof fn pointer_keeps_flags(a: AppView, action: Action, now: u64)
    ensures
        same_flags(a, pointer_acted(a, action, now)),
{
    reveal(pointer_acted);
    reveal(view_kept);
}

proof fn browsing_keeps_flags(a: AppView, delta: isize, now: u64)
    ensures
        same_flags(a, cursor_stepped(a, delta, now)),
        same_flags(a, cursor_paged(a, delta, now)),
        same_flags(a, fold_toggled(a, now)),
        same_flags(a, cursor_first(a, now)),
        same_flags(a, cursor_last(a, now)),
        same_flags(a, composing(a)),
        same_flags(a, browsing(a, now)),
{
}

proof fn commands_keep_coherence(a: AppView, text: Seq<char>, now: u64)
    requires
        coherent(a),
    ensures
        coherent(ran(a, text, now).0),
{
    reveal(ran);
    reveal(ran_new);
    reveal(ran_compact);
    reveal(ran_image);
    reveal(ran_quit);
}

proof fn submitting_keeps_coherence(a: AppView, now: u64)
    requires
        coherent(a),
    ensures
        coherent(submitted(a, now).0),
{
    reveal(submitted);
    reveal(dispatched);
    let b = at_tail(a, now);
    let c = draft_taken(b);
    let text = draft(b.input);
    commands_keep_coherence(
        AppView { history: remembered(c.history, text), ..c },
        text,
        now,
    );
}

proof fn interrupts_keep_flags(a: AppView)
    ensures
        same_flags(a, interrupt_pressed(a).0),
{
    reveal(interrupt_pressed);
}

proof fn answers_keep_flags(a: AppView, id: u64, line: LineView, operation: Seq<char>)
    ensures
        same_flags(a, submit_failed(a, id, line).0),
        same_flags(a, submit_accepted(a, id, operation).0),
        same_flags(a, interrupted(a, line).0),
{
    reveal(submit_failed);
    reveal(submit_accepted);
}

proof fn outcomes_keep_coherence(a: AppView, action: Action)
    requires
        coherent(a),
    ensures
        coherent(outcome_acted(a, action).0),
{
    reveal(outcome_acted);
    reveal(media_refused);
    reveal(dispatch_finished);
    reveal(submit_failed);
    reveal(submit_accepted);
}

proof fn menu_keeps_coherence(a: AppView, action: Action, now: u64)
    requires
        coherent(a),
    ensures
        coherent(menu_acted(a, action, now).0),
{
    reveal(menu_acted);
    if a.completion is Some {
        let text = "/"@ + highlighted(a.completion->0);
        commands_keep_coherence(
            AppView {
                input: blank(),
                completion: None,
                history: remembered(a.history, text),
                ..bumped(a)
            },
            text,
            now,
        );
    }
}

proof fn overlays_keep_flags(a: AppView, action: Action)
    ensures
        a.confirm is Some ==> same_flags(a, confirm_acted(a, a.confirm->0, action).0),
        a.picker is Some ==> same_flags(a, picker_acted(a, a.picker->0, action).0),
{
    reveal(confirm_acted);
    reveal(picker_acted);
    reveal(preview_refreshed);
    if a.picker is Some {
        picks_keep_flags(a);
    }
}

proof fn picks_keep_flags(a: AppView)
    requires
        a.picker is Some,
    ensures
        same_flags(a, model_submitted(a, a.picker->0).0),
        same_flags(a, session_submitted(a, a.picker->0).0),
{
    reveal(model_submitted);
    reveal(session_submitted);
}

proof fn browse_keeps_coherence(a: AppView, action: Action, now: u64)
    requires
        coherent(a),
    ensures
        coherent(browse_acted(a, action, now).0),
{
    reveal(browse_acted);
    let b = exit_disarmed(a, action);
    pointer_keeps_flags(b, action, now);
    submitting_keeps_coherence(b, now);
    interrupts_keep_flags(b);
    match action {
        Action::BrowseStep(delta) | Action::BrowsePage(delta) => browsing_keeps_flags(
            b,
            delta,
            now,
        ),
        _ => browsing_keeps_flags(b, 0, now),
    }
}

proof fn composing_keeps_coherence(a: AppView, action: Action, now: u64)
    requires
        coherent(a),
    ensures
        coherent(compose_acted(a, action, now).0),
{
    reveal(compose_acted);
    let b = exit_disarmed(a, action);
    pointer_keeps_flags(b, action, now);
    edits_keep_flags(b, action, now);
    submitting_keeps_coherence(b, now);
    interrupts_keep_flags(b);
    outcomes_keep_coherence(b, action);
    browsing_keeps_flags(b, 0, now);
}

/// A session starts coherent.
pub proof fn sessions_start_coherent(status: StatusView, show_reasoning: bool)
    requires
        !status.compacting,
    ensures
        coherent(fresh_app(status, show_reasoning)),
{
}

/// Every action keeps the status line in agreement with the state.
pub proof fn actions_keep_coherence(a: AppView, action: Action, now: u64)
    requires
        coherent(a),
    ensures
        coherent(acted(a, action, now).0),
{
    reveal(dispatched_action);
    overlays_keep_flags(a, action);
    if a.completion is Some {
        menu_keeps_coherence(a, action, now);
    }
    browse_keeps_coherence(a, action, now);
    composing_keeps_coherence(a, action, now);
}

/// So do a paste, a recovered draft, an attached image and a tick.
pub proof fn small_steps_keep_coherence(
    a: AppView,
    text: Seq<char>,
    items: Seq<AttachmentView>,
    image: AttachmentView,
    dt_nanos: u64,
)
    requires
        coherent(a),
    ensures
        coherent(text_pasted(a, text)),
        coherent(recovered(a, text, items).0),
        coherent(image_attached(a, image).0),
        coherent(draft_restored(a, text, items)),
        coherent(ticked(a, dt_nanos).0),
        forall|busy: bool, now: u64| coherent(#[trigger] busy_set(a, busy, now)),
{
    reveal(ticked);
}

proof fn tools_keep_flags(a: AppView, event: FrontendOperationEvent, now: u64)
    ensures
        same_flags(a, tool_evented(a, event, now).0),
        same_flags(a, tools_cancelled(a).0),
{
    reveal(tool_evented);
}

/// Every operation event keeps it too.
pub proof fn events_keep_coherence(a: AppView, event: FrontendOperationEvent, now: u64)
    requires
        coherent(a),
    ensures
        coherent(evented(a, event, now).0),
{
    reveal(evented);
    let b = telemetry(
        AppView { run_state: run_step(a.run_state, event, now), ..a },
        event,
    );
    tools_keep_flags(flushed(b), event, now);
    tools_keep_flags(b, event, now);
}

proof fn service_keeps_coherence(
    a: AppView,
    reason: Seq<char>,
    phase: FrontendMaintenancePhase,
    message: Option<Seq<char>>,
    now: u64,
)
    requires
        coherent(a),
    ensures
        coherent(command_rejected(a, reason).0),
        coherent(compaction_settled(a, message).0),
        coherent(maintained(a, phase, message, now).0),
{
    reveal(command_rejected);
    reveal(compaction_settled);
    reveal(maintained);
}

proof fn availability_keeps_coherence(
    a: AppView,
    availability: FrontendAvailability,
    now: u64,
)
    requires
        coherent(a),
    ensures
        coherent(availability_noted(a, availability, now)),
{
    reveal(availability_noted);
}

proof fn health_keeps_coherence(
    a: AppView,
    health: ServiceHealth,
    now: u64,
)
    requires
        coherent(a),
    ensures
        coherent(health_told(a, health, now).0),
{
    reveal(health_told);
    if let ServiceHealth::RuntimeEpochEnded { message } = health {
        answers_keep_flags(
            presence_cleared(a, now),
            0,
            error_line("error: "@ + message@),
            Seq::empty(),
        );
    }
}

proof fn entries_keep_coherence(a: AppView, entries: Seq<ConfigView>)
    requires
        coherent(a),
    ensures
        coherent(entries_applied(a, entries).0),
    decreases entries.len(),
{
    if entries.len() > 0 {
        entries_keep_coherence(a, entries.drop_last());
        reveal(entry_applied);
    }
}

proof fn listings_keep_flags(
    a: AppView,
    sessions: Seq<FrontendSessionSummary>,
    models: Seq<FrontendModelListing>,
    open: bool,
    unix_now: u64,
)
    ensures
        same_flags(a, sessions_listed(a, sessions, unix_now).0),
        same_flags(a, catalog_loaded(a, models, open).0),
{
    reveal(sessions_listed);
    reveal(catalog_loaded);
    reveal(preview_refreshed);
}

proof fn loading_keeps_flags(
    a: AppView,
    id: Seq<char>,
    usage: Option<FrontendTokenUsage>,
    choice: Option<ChoiceView>,
    history: Seq<LineView>,
)
    ensures
        same_flags(a, session_begun(a, id)),
        same_flags(a, session_loaded(a, id, usage, choice, history).0),
{
    reveal(session_begun);
    reveal(session_loaded);
}

proof fn installing_keeps_flags(
    a: AppView,
    model: Seq<char>,
    effort: Option<Seq<char>>,
    provider: Option<Seq<char>>,
)
    ensures
        same_flags(a, generation_installed(a, model, effort, provider).0),
{
    reveal(generation_installed);
}

proof fn snapshots_keep_coherence(
    a: AppView,
    snapshot: FrontendSnapshot,
    history: Seq<LineView>,
    now: u64,
)
    requires
        coherent(a),
    ensures
        coherent(snapshot_taken(a, snapshot, history, now).0),
{
    reveal(snapshot_taken);
    let shown = snapshot_shown(a, snapshot, history);
    assert(same_flags(a, shown)) by {
        reveal(snapshot_shown);
        reveal(session_begun);
    }
    let live = live_taken(shown, snapshot.live, now).0;
    assert(same_flags(shown, live)) by {
        reveal(live_taken);
    }
    let state = snapshot_state(live, snapshot, now);
    snapshot_state_keeps_coherence(live, snapshot, now);
    health_keeps_coherence(state, snapshot.health, now);
    let told = health_told(state, snapshot.health, now).0;
    assert(same_flags(told, reconciled(told, snapshot).0)) by {
        reveal(reconciled);
        reveal(submit_failed);
        reveal(submit_accepted);
    }
}

proof fn snapshot_state_keeps_coherence(a: AppView, snapshot: FrontendSnapshot, now: u64)
    requires
        coherent(a),
    ensures
        coherent(snapshot_state(a, snapshot, now)),
{
    reveal(snapshot_state);
    availability_keeps_coherence(a, snapshot.availability, now);
    if let Some(maintenance) = snapshot.maintenance {
        let b = usage_shown(
            availability_noted(a, snapshot.availability, now),
            snapshot.usage,
        );
        let c = AppView {
            status: StatusView {
                model: snapshot.generation.model_name@,
                effort: effort_shown(
                    snapshot.generation.reasoning_effort.deep_view(),
                ),
                provider: snapshot.generation.provider.deep_view(),
                ..b.status
            },
            ..b
        };
        let d = front_shown(
            c,
            front_of(snapshot.pending_confirmations@),
        );
        service_keeps_coherence(
            d,
            Seq::empty(),
            maintenance.phase,
            maintenance.message.deep_view(),
            now,
        );
    }
}

/// Every update of the service keeps it as well.
pub proof fn updates_keep_coherence(
    a: AppView,
    kind: FrontendUpdateKind,
    history: Seq<LineView>,
    preview: Seq<Seq<char>>,
    unix_now: u64,
    now: u64,
)
    requires
        coherent(a),
    ensures
        coherent(updated(a, kind, history, preview, unix_now, now).0),
{
    reveal(updated);
    match kind {
        FrontendUpdateKind::CommandRejected { reason } => service_keeps_coherence(
            a,
            reason@,
            FrontendMaintenancePhase::Progress,
            None,
            now,
        ),
        FrontendUpdateKind::OperationEvent(event) => events_keep_coherence(a, event, now),
        FrontendUpdateKind::AvailabilityChanged { availability, .. } => {
            availability_keeps_coherence(a, availability, now)
        },
        FrontendUpdateKind::MaintenanceChanged(maintenance) => service_keeps_coherence(
            a,
            Seq::empty(),
            maintenance.phase,
            maintenance.message.deep_view(),
            now,
        ),
        FrontendUpdateKind::SessionLoaded { session_id, view } => loading_keeps_flags(
            a,
            session_id@,
            view.usage,
            view.generation.deep_view(),
            history,
        ),
        FrontendUpdateKind::SessionListLoaded { sessions } => listings_keep_flags(
            a,
            sessions@,
            Seq::empty(),
            false,
            unix_now,
        ),
        FrontendUpdateKind::ModelListLoaded { models } => listings_keep_flags(
            AppView { expect_models_picker: false, ..a },
            Seq::empty(),
            models@,
            a.expect_models_picker,
            unix_now,
        ),
        FrontendUpdateKind::GenerationInstalled { display } => installing_keeps_flags(
            a,
            display.model_name@,
            display.reasoning_effort.deep_view(),
            display.provider.deep_view(),
        ),
        FrontendUpdateKind::ConfigChanged { entries } => {
            entries_keep_coherence(a, entries.deep_view());
            reveal(config_changed);
        },
        FrontendUpdateKind::SnapshotReady(snapshot) => snapshots_keep_coherence(
            a,
            snapshot,
            history,
            now,
        ),
        FrontendUpdateKind::ServiceHealthChanged { health } => health_keeps_coherence(
            a,
            health,
            now,
        ),
        _ => {},
    }
}

/// And so does the typed result of a manual compaction.
pub proof fn compaction_results_keep_coherence(
    a: AppView,
    result: Result<CompactionReport, CompactionError>,
)
    requires
        coherent(a),
    ensures
        coherent(compaction_finished(a, result).0),
{
    reveal(compaction_finished);
}

} // verus!
