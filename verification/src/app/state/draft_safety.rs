//! What no update does: touch the draft, the queued attachments or the recall
//! while no message is held.

use vstd::prelude::*;

use super::composer::{submit_accepted, submit_failed};
use super::overlays::{front_shown, preview_refreshed};
use super::runtime::{evented, flushed, telemetry, tool_evented, tools_cancelled};
use super::snapshot::{
    front_of, live_taken, reconciled, snapshot_shown, snapshot_state, snapshot_taken, updated,
    usage_shown,
};
use super::updates::{
    availability_noted, catalog_loaded, command_rejected, compaction_settled, config_changed,
    entries_applied, entry_applied, generation_installed, health_told, maintained, session_begun,
    session_loaded, sessions_listed,
};
use super::AppView;
use crate::app::facts::effort_shown;
use crate::app::frontend::{FrontendOperationEvent, FrontendTokenUsage};
use crate::app::listings::ConfigView;
use crate::app::run_state::run_step;
use crate::app::status::StatusView;
use crate::app::transcript::LineView;
use crate::app::update::{
    ChoiceView, FrontendAvailability, FrontendMaintenance, FrontendModelListing,
    FrontendSessionSummary, FrontendSnapshot, FrontendUpdateKind, ServiceHealth,
};

verus! {

/// The draft, the attachments, the recall and the held message are what they
/// were.
pub open spec fn composer_spared(a: AppView, b: AppView) -> bool {
    &&& b.input == a.input
    &&& b.attachments == a.attachments
    &&& b.history == a.history
    &&& b.draft_generation == a.draft_generation
    &&& b.submit_state == a.submit_state
    &&& b.completion == a.completion
}

proof fn events_spare_the_composer(a: AppView, event: FrontendOperationEvent, now: u64)
    ensures
        composer_spared(a, evented(a, event, now).0),
{
    reveal(evented);
    let b = telemetry(AppView { run_state: run_step(a.run_state, event, now), ..a }, event);
    assert(composer_spared(b, tools_cancelled(b).0));
    assert(composer_spared(b, tool_evented(flushed(b), event, now).0)) by {
        reveal(tool_evented);
    }
}

proof fn maintenance_spares_the_composer(a: AppView, maintenance: FrontendMaintenance, now: u64)
    ensures
        composer_spared(
            a,
            maintained(a, maintenance.phase, maintenance.message.deep_view(), now).0,
        ),
{
    reveal(maintained);
    reveal(compaction_settled);
}

proof fn health_spares_the_composer(a: AppView, health: ServiceHealth, now: u64)
    requires
        !(a.submit_state is Dispatching),
    ensures
        composer_spared(a, health_told(a, health, now).0),
{
    reveal(health_told);
}

proof fn entries_spare_the_composer(a: AppView, entries: Seq<ConfigView>)
    ensures
        composer_spared(a, entries_applied(a, entries).0),
    decreases entries.len(),
{
    if entries.len() > 0 {
        entries_spare_the_composer(a, entries.drop_last());
        reveal(entry_applied);
    }
}

proof fn availability_spares_the_composer(
    a: AppView,
    availability: FrontendAvailability,
    now: u64,
)
    ensures
        composer_spared(a, availability_noted(a, availability, now)),
{
    reveal(availability_noted);
}

proof fn rejections_spare_the_composer(a: AppView, reason: Seq<char>)
    ensures
        composer_spared(a, command_rejected(a, reason).0),
{
    reveal(command_rejected);
}

proof fn beginning_spares_the_composer(a: AppView, id: Seq<char>)
    ensures
        composer_spared(a, session_begun(a, id)),
{
    reveal(session_begun);
}

proof fn loading_spares_the_composer(
    a: AppView,
    id: Seq<char>,
    usage: Option<FrontendTokenUsage>,
    choice: Option<ChoiceView>,
    history: Seq<LineView>,
)
    ensures
        composer_spared(a, session_begun(a, id)),
        composer_spared(a, session_loaded(a, id, usage, choice, history).0),
{
    reveal(session_loaded);
    beginning_spares_the_composer(a, id);
    beginning_spares_the_composer(AppView { session_load_intent: None, ..a }, id);
}

proof fn listings_spare_the_composer(
    a: AppView,
    sessions: Seq<FrontendSessionSummary>,
    models: Seq<FrontendModelListing>,
    open: bool,
    unix_now: u64,
)
    ensures
        composer_spared(a, sessions_listed(a, sessions, unix_now).0),
        composer_spared(a, catalog_loaded(a, models, open).0),
{
    reveal(sessions_listed);
    reveal(catalog_loaded);
    reveal(preview_refreshed);
}

proof fn installing_spares_the_composer(
    a: AppView,
    model: Seq<char>,
    effort: Option<Seq<char>>,
    provider: Option<Seq<char>>,
)
    ensures
        composer_spared(a, generation_installed(a, model, effort, provider).0),
{
    reveal(generation_installed);
}

proof fn config_spares_the_composer(a: AppView, entries: Seq<ConfigView>)
    ensures
        composer_spared(a, config_changed(a, entries).0),
{
    entries_spare_the_composer(a, entries);
    reveal(config_changed);
}

proof fn snapshot_start_spares_the_composer(
    a: AppView,
    snapshot: FrontendSnapshot,
    history: Seq<LineView>,
    now: u64,
)
    ensures
        composer_spared(a, snapshot_shown(a, snapshot, history)),
        composer_spared(
            a,
            live_taken(snapshot_shown(a, snapshot, history), snapshot.live, now).0,
        ),
{
    reveal(live_taken);
    assert(composer_spared(a, snapshot_shown(a, snapshot, history))) by {
        reveal(snapshot_shown);
        reveal(session_begun);
    }
}

proof fn snapshot_state_spares_the_composer(a: AppView, snapshot: FrontendSnapshot, now: u64)
    ensures
        composer_spared(a, snapshot_state(a, snapshot, now)),
{
    reveal(snapshot_state);
    availability_spares_the_composer(a, snapshot.availability, now);
    if let Some(maintenance) = snapshot.maintenance {
        let b = usage_shown(
            availability_noted(a, snapshot.availability, now),
            snapshot.usage,
        );
        let c = AppView {
            status: StatusView {
                model: snapshot.generation.model_name@,
                effort: effort_shown(snapshot.generation.reasoning_effort.deep_view()),
                provider: snapshot.generation.provider.deep_view(),
                ..b.status
            },
            ..b
        };
        maintenance_spares_the_composer(
            front_shown(c, front_of(snapshot.pending_confirmations@)),
            maintenance,
            now,
        );
    }
}

proof fn reconciling_spares_the_composer(a: AppView, snapshot: FrontendSnapshot)
    requires
        !(a.submit_state is Dispatching),
    ensures
        reconciled(a, snapshot).0 == a,
{
    reveal(reconciled);
}

proof fn snapshots_spare_the_composer(
    a: AppView,
    snapshot: FrontendSnapshot,
    history: Seq<LineView>,
    now: u64,
)
    requires
        !(a.submit_state is Dispatching),
    ensures
        composer_spared(a, snapshot_taken(a, snapshot, history, now).0),
{
    reveal(snapshot_taken);
    snapshot_start_spares_the_composer(a, snapshot, history, now);
    let live = live_taken(snapshot_shown(a, snapshot, history), snapshot.live, now).0;
    snapshot_state_spares_the_composer(live, snapshot, now);
    let state = snapshot_state(live, snapshot, now);
    health_spares_the_composer(state, snapshot.health, now);
    reconciling_spares_the_composer(health_told(state, snapshot.health, now).0, snapshot);
}

/// While no message is held, no update touches the composer.
pub proof fn updates_spare_the_composer(
    a: AppView,
    kind: FrontendUpdateKind,
    history: Seq<LineView>,
    preview: Seq<Seq<char>>,
    unix_now: u64,
    now: u64,
)
    requires
        !(a.submit_state is Dispatching),
    ensures
        composer_spared(a, updated(a, kind, history, preview, unix_now, now).0),
{
    reveal(updated);
    match kind {
        FrontendUpdateKind::CommandRejected { reason } => rejections_spare_the_composer(
            a,
            reason@,
        ),
        FrontendUpdateKind::OperationEvent(event) => events_spare_the_composer(a, event, now),
        FrontendUpdateKind::AvailabilityChanged { availability, .. } => {
            availability_spares_the_composer(a, availability, now)
        },
        FrontendUpdateKind::MaintenanceChanged(maintenance) => maintenance_spares_the_composer(
            a,
            maintenance,
            now,
        ),
        FrontendUpdateKind::SessionLoaded { session_id, view } => loading_spares_the_composer(
            a,
            session_id@,
            view.usage,
            view.generation.deep_view(),
            history,
        ),
        FrontendUpdateKind::SessionListLoaded { sessions } => listings_spare_the_composer(
            a,
            sessions@,
            Seq::empty(),
            false,
            unix_now,
        ),
        FrontendUpdateKind::ModelListLoaded { models } => listings_spare_the_composer(
            AppView { expect_models_picker: false, ..a },
            Seq::empty(),
            models@,
            a.expect_models_picker,
            unix_now,
        ),
        FrontendUpdateKind::GenerationInstalled { display } => installing_spares_the_composer(
            a,
            display.model_name@,
            display.reasoning_effort.deep_view(),
            display.provider.deep_view(),
        ),
        FrontendUpdateKind::ConfigChanged { entries } => config_spares_the_composer(
            a,
            entries.deep_view(),
        ),
        FrontendUpdateKind::SnapshotReady(snapshot) => snapshots_spare_the_composer(
            a,
            snapshot,
            history,
            now,
        ),
        FrontendUpdateKind::ServiceHealthChanged { health } => health_spares_the_composer(
            a,
            health,
            now,
        ),
        _ => {},
    }
}

/// After an update that ends the runtime, or a snapshot, no message is held.
pub proof fn interruptions_release_the_message(a: AppView, snapshot: FrontendSnapshot, health:
    ServiceHealth, now: u64)
    ensures
        !(reconciled(a, snapshot).0.submit_state is Dispatching),
        health is RuntimeEpochEnded ==> !(health_told(a, health, now).0.submit_state
            is Dispatching),
{
    reveal(reconciled);
    reveal(health_told);
    reveal(submit_failed);
    reveal(submit_accepted);
}

} // verus!
