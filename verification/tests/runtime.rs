use philo_tui::app::action::Action;
use philo_tui::app::cells::TranscriptStore;
use philo_tui::app::effect::{Effect, HostRequest};
use philo_tui::app::frontend::{
    FrontendOperationEvent, FrontendReasoningEffort, FrontendTokenUsage, FrontendToolDisplay,
    FrontendToolResult,
};
use philo_tui::app::listings::{FrontendConfigEntry, FrontendStatus, FrontendToolListing};
use philo_tui::app::overlay::{PickerEntry, Preview};
use philo_tui::app::pacer::PacedPiece;
use philo_tui::app::projection::Projection;
use philo_tui::app::session::DurableSessionView;
use philo_tui::app::session_cache::SessionCache;
use philo_tui::app::state::menu::CompletionMenu;
use philo_tui::app::state::snapshot::{Reaction, Rendered};
use philo_tui::app::state::{App, SessionLoadIntent};
use philo_tui::app::status::StatusData;
use philo_tui::app::submit::CancelDispatchResult;
use philo_tui::app::transcript;
use philo_tui::app::transcript::{InfoLevel, LineKind, TranscriptLine};
use philo_tui::app::update::{
    CompactionError, CompactionReport, FrontendAvailability, FrontendGeneration,
    FrontendGenerationChoice, FrontendMaintenance, FrontendMaintenancePhase, FrontendModelListing,
    FrontendSessionSummary, FrontendUpdateKind, PendingConfirmation, ServiceHealth,
};
use philo_tui::app::update::{FrontendSnapshot, LiveOperationSnapshot, QueuedOperation};

fn app() -> App {
    App::new(StatusData::new("m", "s", InfoLevel::Default), true)
}

fn update(app: &mut App, kind: FrontendUpdateKind) -> Reaction {
    let rendered = Rendered {
        history: vec![transcript::line(LineKind::Answer, "replayed")],
        preview: vec!["first row".to_owned()],
    };
    app.apply_update(&kind, &rendered, 1_000_000, 0)
}

fn texts(effects: &[Effect]) -> Vec<String> {
    effects
        .iter()
        .filter_map(|effect| match effect {
            Effect::Append(lines) => Some(lines.iter().map(|line| line.text.clone())),
            _ => None,
        })
        .flatten()
        .collect()
}

fn piece(kind: LineKind, text: &str) -> Projection {
    Projection::Piece(PacedPiece { kind, text: text.to_owned() })
}

fn text_delta(text: &str) -> FrontendOperationEvent {
    FrontendOperationEvent::TextDelta { delta: text.to_owned() }
}

fn batch(count: usize) -> FrontendOperationEvent {
    FrontendOperationEvent::ToolBatchRequested {
        tool_batch_id: "batch".to_owned(),
        call_count: count,
    }
}

fn started(index: usize) -> FrontendOperationEvent {
    FrontendOperationEvent::ToolExecutionStarted {
        tool_batch_id: "batch".to_owned(),
        tool_call_id: format!("call-{index}"),
        index,
        tool_name: "read".to_owned(),
        arguments: "{}".to_owned(),
    }
}

fn progress(index: usize, tail: &str) -> FrontendOperationEvent {
    FrontendOperationEvent::ToolExecutionProgress {
        tool_batch_id: "batch".to_owned(),
        tool_call_id: format!("call-{index}"),
        index,
        tail: tail.to_owned(),
    }
}

fn success() -> FrontendToolResult {
    FrontendToolResult::Success { content: "ok".to_owned() }
}

fn completed(index: usize) -> FrontendOperationEvent {
    FrontendOperationEvent::ToolExecutionCompleted {
        tool_batch_id: "batch".to_owned(),
        tool_call_id: format!("call-{index}"),
        index,
        tool_name: "read".to_owned(),
        result: success(),
        display: display(),
    }
}

fn display() -> Option<FrontendToolDisplay> {
    Some(FrontendToolDisplay { payload: "{\"lines\":1}".to_owned() })
}

fn cancelled() -> FrontendOperationEvent {
    FrontendOperationEvent::CancellationRequested {
        operation_id: "op".to_owned(),
        reason: "User".to_owned(),
    }
}

fn usage(input: u64) -> FrontendTokenUsage {
    FrontendTokenUsage {
        input_tokens: Some(input),
        output_tokens: None,
        cache_read_tokens: None,
        reasoning_tokens: None,
    }
}

fn empty_view(id: &str) -> DurableSessionView {
    DurableSessionView {
        session_id: id.to_owned(),
        title: None,
        revision: 1,
        messages: Vec::new(),
        open_turns: Vec::new(),
        settled_turn_boundaries: Vec::new(),
        latest_compaction_boundary: None,
        usage: None,
        generation: None,
    }
}

fn choice(model: &str) -> FrontendGenerationChoice {
    FrontendGenerationChoice {
        provider: Some("acme".to_owned()),
        model_name: model.to_owned(),
        reasoning_effort: None,
    }
}

#[test]
fn structural_events_come_behind_the_stream() {
    let mut app = app();
    assert!(app.on_operation_event(&text_delta("hello "), 0).is_empty());
    assert!(app.on_operation_event(&text_delta("world"), 0).is_empty());
    let plan = app.on_operation_event(
        &FrontendOperationEvent::OperationQueued { operation_id: "op".to_owned() },
        0,
    );
    assert_eq!(
        plan,
        [
            piece(LineKind::Answer, "hello "),
            piece(LineKind::Answer, "world"),
            Projection::Event { elapsed: None },
        ]
    );
    assert!(app.flush_stream().is_empty());
}

#[test]
fn hidden_reasoning_is_never_paced() {
    let mut app = App::new(StatusData::new("m", "s", InfoLevel::Default), false);
    let plan = app.on_operation_event(
        &FrontendOperationEvent::ReasoningDelta {
            model_call_id: "call".to_owned(),
            text: "secret".to_owned(),
        },
        0,
    );
    assert_eq!(plan, [Projection::Event { elapsed: None }]);
}

#[test]
fn a_single_call_opens_repaints_and_settles_its_card() {
    let mut app = app();
    assert_eq!(app.on_operation_event(&batch(1), 0), [Projection::CloseRun]);
    assert_eq!(app.on_operation_event(&started(0), 10), [Projection::OpenCard { index: 0 }]);
    app.place_live_cell(transcript::line(LineKind::Tool, "running"));
    assert_eq!(app.tool_batch.as_ref().expect("batch").cell_index, Some(0));

    app.set_live_text_max(4);
    assert_eq!(
        app.on_operation_event(&progress(0, "abcdef"), 20),
        [Projection::RedrawCard { cell: 0, index: 0 }]
    );
    assert_eq!(app.tool_batch.as_ref().expect("batch").slots[0].output, "abcd");
    assert!(app.on_operation_event(&progress(0, "more"), 20).is_empty(), "the slot is full");

    app.repaint_live_cell(0, transcript::line(LineKind::Tool, "still running"));
    assert_eq!(app.cells.cells()[0].text, "still running");
    assert_eq!(
        app.on_operation_event(&completed(0), 510),
        [Projection::Settle {
            cell: 0,
            tool_name: "read".to_owned(),
            arguments: "{}".to_owned(),
            result: success(),
            display: display(),
            elapsed: 500,
        }]
    );
    assert!(app.on_operation_event(&completed(0), 600).is_empty(), "a call settles once");
}

#[test]
fn a_batch_of_many_repaints_its_tree() {
    let mut app = app();
    app.on_operation_event(&text_delta("first"), 0);
    assert_eq!(
        app.on_operation_event(&batch(2), 0),
        [piece(LineKind::Answer, "first"), Projection::CloseRun, Projection::OpenTree]
    );
    app.place_live_cell(transcript::line(LineKind::Tool, "tree"));
    let cell = 0;
    assert_eq!(app.on_operation_event(&started(0), 0), [Projection::Redraw { cell }]);
    assert!(app.on_operation_event(&progress(0, "out"), 0).is_empty(), "rows show no output");
    assert!(app.animation_active(0));
    assert_eq!(app.on_tick(0), (true, vec![Projection::Redraw { cell }]));
    assert_eq!(app.on_operation_event(&completed(0), 0), [Projection::Redraw { cell }]);
}

#[test]
fn cancelling_settles_calls_before_the_event() {
    let mut app = app();
    assert_eq!(
        app.on_operation_event(&started(0), 0),
        [Projection::CloseRun, Projection::OpenCard { index: 0 }],
        "an unannounced call opens a batch of its own"
    );
    app.place_live_cell(transcript::line(LineKind::Tool, "running"));
    app.on_operation_event(&text_delta("late"), 0);
    assert_eq!(
        app.on_operation_event(&cancelled(), 0),
        [
            Projection::Cancelled {
                cell: 0,
                tool_name: "read".to_owned(),
                arguments: "{}".to_owned(),
            },
            piece(LineKind::Answer, "late"),
            Projection::Event { elapsed: None },
        ]
    );
    assert!(app.on_operation_event(&completed(0), 0).is_empty(), "a cancellation stays");
}

#[test]
fn a_call_that_no_batch_knows_is_appended() {
    let mut app = app();
    assert_eq!(
        app.on_operation_event(&completed(3), 0),
        [Projection::Stray {
            tool_name: "read".to_owned(),
            result: success(),
            display: display(),
        }]
    );
}

#[test]
fn verbose_tool_events_are_told() {
    let mut app = App::new(StatusData::new("m", "s", InfoLevel::Verbose), true);
    assert_eq!(app.on_operation_event(&batch(2), 0), [Projection::Event { elapsed: None }]);
    assert!(app.tool_batch.is_none());
}

#[test]
fn the_stream_drains_over_ticks() {
    let mut app = app();
    app.on_operation_event(&text_delta(&"x".repeat(1000)), 0);
    let (dirty, plan) = app.on_tick(100_000_000);
    assert!(dirty);
    assert_eq!(plan, [piece(LineKind::Answer, &"x".repeat(285))]);
}

#[test]
fn the_corner_hides_behind_an_approval() {
    let mut app = app();
    assert!(app.run_state_corner(80, 0).is_none());
    app.set_busy(true, 0);
    assert!(app.run_state_active());
    assert_eq!(app.run_state_corner(80, 5_000).expect("busy").timing, "5s · esc cancel");
    update(
        &mut app,
        FrontendUpdateKind::ConfirmationRequested {
            confirmation_id: 4,
            title: "run".to_owned(),
            body: String::new(),
        },
    );
    assert_eq!(app.run_state_corner(80, 0).expect("approval").word, "Approval…");
    update(&mut app, FrontendUpdateKind::ConfirmationResolved { confirmation_id: 9 });
    assert!(app.has_confirmation(), "another request is answered elsewhere");
    update(&mut app, FrontendUpdateKind::ConfirmationResolved { confirmation_id: 4 });
    assert!(!app.has_confirmation());
}

#[test]
fn the_scrollbar_cools_down() {
    let mut app = app();
    app.cells.push_closed((0..9).map(|i| transcript::line(LineKind::Meta, &i.to_string())).collect());
    app.note_history_layout(80, 3);
    app.note_band_height(5);
    assert_eq!(app.scrollbar_metrics(80, 3, 0), (9, 6));
    app.on_action(Action::ScrollTranscript(-2), 1_000);
    assert_eq!(app.scrollbar_metrics(80, 3, 1_000), (9, 4));
    assert!(app.scrollbar_active(1_799));
    assert!(app.animation_active(1_799));
    assert!(!app.scrollbar_active(1_800));
    assert_eq!(app.scroll_hot_until, None);
}

#[test]
fn sessions_remember_usage_and_model() {
    let mut app = app();
    app.on_operation_event(
        &FrontendOperationEvent::ModelUsageUpdated {
            model_call_id: "call".to_owned(),
            usage: usage(5),
        },
        0,
    );
    update(
        &mut app,
        FrontendUpdateKind::GenerationInstalled {
            display: FrontendGeneration {
                model_name: "big".to_owned(),
                reasoning_effort: Some("High".to_owned()),
                provider: Some("acme".to_owned()),
            },
        },
    );
    app.begin_session("other");
    assert_eq!(app.status.usage, None);
    app.status.model = "small".to_owned();
    app.begin_session("s");
    assert_eq!(app.status.usage, Some(usage(5)));
    assert_eq!(app.status.model, "big");
    assert_eq!(app.status.effort.as_deref(), Some("High"));
}

#[test]
fn an_installed_generation_is_told_by_what_changed() {
    let mut app = app();
    let install = |effort: Option<&str>, model: &str| FrontendUpdateKind::GenerationInstalled {
        display: FrontendGeneration {
            model_name: model.to_owned(),
            reasoning_effort: effort.map(str::to_owned),
            provider: None,
        },
    };
    let reaction = update(&mut app, install(None, "m2"));
    assert_eq!(texts(&reaction.effects), ["model: m2"]);
    assert_eq!(reaction.effects[1], Effect::Host(HostRequest::RefreshModels));
    let reaction = update(&mut app, install(Some("Xhigh"), "m2"));
    assert_eq!(texts(&reaction.effects), ["reasoning: xhigh (from the next turn on)"]);
    assert_eq!(app.status.effort.as_deref(), Some("xhigh"));
    let reaction = update(&mut app, install(Some("default"), "m2"));
    assert_eq!(texts(&reaction.effects), ["model: m2"]);
    assert_eq!(app.status.effort, None);
}

#[test]
fn a_loaded_session_is_shown_as_asked_for() {
    let mut app = app();
    let loaded = |id: &str| FrontendUpdateKind::SessionLoaded {
        session_id: id.to_owned(),
        view: DurableSessionView { usage: Some(usage(7)), ..empty_view(id) },
    };
    app.expect_session_load(SessionLoadIntent::New);
    let reaction = update(&mut app, loaded("fresh"));
    assert_eq!(texts(&reaction.effects), ["new session: fresh"]);
    assert_eq!(reaction.plan, [Projection::Restart]);
    assert_eq!(app.status.usage, Some(usage(7)));

    let reaction = update(&mut app, loaded("old"));
    assert_eq!(texts(&reaction.effects), ["session old", "replayed"]);
    let shown: Vec<&str> = app.cells.cells().iter().map(|line| line.text.as_str()).collect();
    assert_eq!(shown, ["session old", "replayed"]);

    app.expect_session_load(SessionLoadIntent::Snapshot);
    assert!(update(&mut app, loaded("third")).effects.is_empty());
    assert_eq!(app.cells.cells(), &vec![transcript::line(LineKind::Answer, "replayed")]);

    let bare = Rendered { history: Vec::new(), preview: Vec::new() };
    let reaction = app.apply_update(&loaded("empty"), &bare, 0, 0);
    assert_eq!(texts(&reaction.effects), ["session empty", "(no history yet)"]);
}

#[test]
fn listed_sessions_open_a_picker() {
    let mut app = app();
    let reaction = update(&mut app, FrontendUpdateKind::SessionListLoaded { sessions: vec![] });
    assert_eq!(
        texts(&reaction.effects),
        ["no sessions recorded yet; this one starts with the first message"]
    );
    let sessions = vec![
        FrontendSessionSummary {
            session_id: "s".to_owned(),
            title: Some("this one".to_owned()),
            updated_at: Some(1_000_000 - 3 * 3600),
        },
        FrontendSessionSummary {
            session_id: "t".to_owned(),
            title: None,
            updated_at: Some(2_000_000),
        },
    ];
    let reaction = update(&mut app, FrontendUpdateKind::SessionListLoaded { sessions });
    assert_eq!(reaction.effects, [Effect::Host(HostRequest::LoadPreview("s".to_owned()))]);
    let entries = &app.picker().expect("picker").entries;
    assert_eq!((entries[0].primary.as_str(), entries[0].secondary.as_str()), ("this one", "3h"));
    assert!(entries[0].marked && !entries[1].marked);
    assert_eq!((entries[1].primary.as_str(), entries[1].secondary.as_str()), ("t", ""));

    update(
        &mut app,
        FrontendUpdateKind::SessionPreviewed { session_id: "s".to_owned(), view: empty_view("s") },
    );
    let previews = &app.picker().expect("picker").previews;
    assert_eq!(previews[0].preview, Preview::Ready(vec!["first row".to_owned()]));
}

fn models() -> Vec<FrontendModelListing> {
    vec![
        FrontendModelListing {
            id: "acme/one".to_owned(),
            provider: "acme".to_owned(),
            current: false,
            reasoning_tiers: vec!["low".to_owned(), "high".to_owned()],
        },
        FrontendModelListing {
            id: "bolt/two".to_owned(),
            provider: "bolt".to_owned(),
            current: true,
            reasoning_tiers: Vec::new(),
        },
    ]
}

#[test]
fn a_catalog_opens_the_picker_only_when_asked_to() {
    let mut app = app();
    let list = || FrontendUpdateKind::ModelListLoaded { models: models() };
    assert!(update(&mut app, list()).effects.is_empty());
    assert!(app.picker().is_none());
    assert_eq!(app.status.provider.as_deref(), Some("bolt"));
    app.expect_models_listing();
    update(&mut app, list());
    assert!(app.is_models_picker());

    // Enter on a model with tiers opens them, and on a tier installs both.
    assert!(app.on_action(Action::Submit, 0).is_empty());
    assert_eq!(
        app.on_action(Action::Submit, 0)[1],
        Effect::Host(HostRequest::RebuildModel {
            name: "acme/one".to_owned(),
            effort: Some(FrontendReasoningEffort::High),
        })
    );
    assert!(app.pending_model_switch);
    assert!(app.picker().is_none());

    app.expect_models_listing();
    update(&mut app, list());
    app.on_action(Action::MoveDown, 0);
    assert_eq!(
        app.on_action(Action::Submit, 0)[1],
        Effect::Host(HostRequest::RebuildModel { name: "bolt/two".to_owned(), effort: None })
    );

    app.expect_models_listing();
    let reaction = update(&mut app, FrontendUpdateKind::ModelListLoaded { models: vec![] });
    assert_eq!(
        texts(&reaction.effects),
        ["no models configured; add [providers.<id>] sections to config.toml"]
    );
}

#[test]
fn a_tier_of_the_current_model_is_set_in_place() {
    let mut app = app();
    app.status.effort = Some("High".to_owned());
    app.open_model_picker(vec![PickerEntry {
        id: "acme/one".to_owned(),
        primary: "one".to_owned(),
        secondary: "current".to_owned(),
        group: "acme".to_owned(),
        marked: true,
        tiers: vec!["low".to_owned(), "high".to_owned(), "odd".to_owned()],
    }]);
    app.on_action(Action::Complete, 0);
    assert_eq!(texts(&app.on_action(Action::Submit, 0)), ["reasoning already high"]);

    app.open_model_picker(vec![PickerEntry {
        id: "acme/one".to_owned(),
        primary: "one".to_owned(),
        secondary: "current".to_owned(),
        group: "acme".to_owned(),
        marked: true,
        tiers: vec!["low".to_owned(), "high".to_owned(), "odd".to_owned()],
    }]);
    app.on_action(Action::Complete, 0);
    app.on_action(Action::Home, 0);
    assert_eq!(
        app.on_action(Action::Submit, 0),
        [Effect::Host(HostRequest::SetReasoning(FrontendReasoningEffort::Low))]
    );

    app.open_model_picker(vec![PickerEntry {
        id: "acme/one".to_owned(),
        primary: "one".to_owned(),
        secondary: String::new(),
        group: "acme".to_owned(),
        marked: false,
        tiers: vec!["odd".to_owned()],
    }]);
    app.on_action(Action::Complete, 0);
    assert_eq!(texts(&app.on_action(Action::Submit, 0)), ["unknown reasoning tier: odd"]);
}

#[test]
fn rejections_name_what_they_stop() {
    let mut app = app();
    let reject = || FrontendUpdateKind::CommandRejected { reason: "not now".to_owned() };
    assert_eq!(texts(&update(&mut app, reject()).effects), ["error: not now"]);
    app.on_action(Action::InsertChar('/'), 0);
    app.run_command("/compact", 0);
    assert_eq!(
        texts(&update(&mut app, reject()).effects),
        ["error: context compaction was not started: not now"]
    );
    assert!(!app.status.compacting);
    app.run_command("/model other", 0);
    assert_eq!(
        texts(&update(&mut app, reject()).effects),
        ["error: model not switched: not now; still on m"]
    );
}

#[test]
fn commands_ask_and_explain() {
    let mut app = app();
    assert_eq!(texts(&app.run_command("/rename", 0)), ["/rename", "usage: /rename <title>"]);
    assert_eq!(
        app.run_command("/rename a title", 0)[1],
        Effect::Host(HostRequest::RenameSession { title: "a title".to_owned() })
    );
    assert_eq!(texts(&app.run_command("/model", 0)), ["/model", "usage: /model <name>"]);
    assert_eq!(
        app.run_command("/reasoning low", 0)[1],
        Effect::Host(HostRequest::SetReasoning(FrontendReasoningEffort::Low))
    );
    assert_eq!(
        texts(&app.run_command("/reasoning turbo", 0))[1],
        "unknown reasoning level: turbo (expected minimal | low | medium | high | xhigh | max)"
    );
    assert_eq!(
        texts(&app.run_command("/reasoning", 0))[1],
        "usage: /reasoning <level> (minimal | low | medium | high | xhigh | max)"
    );
    assert_eq!(app.run_command("/compact", 0)[1], Effect::StartCompaction);
    assert_eq!(
        texts(&app.run_command("/compact", 0))[1],
        "error: context compaction is already running; press Esc to cancel it"
    );
    assert_eq!(app.on_action(Action::Escape, 0), [Effect::CancelCompaction]);
    app.finish_manual_compaction(Ok(CompactionReport::NothingToCompact));
    app.set_busy(true, 0);
    assert_eq!(
        texts(&app.run_command("/compact", 0))[1],
        "error: context can only be compacted while idle; a turn is still running"
    );
}

#[test]
fn compactions_end_in_words() {
    let mut app = app();
    app.status.usage = Some(usage(1));
    assert_eq!(
        texts(&app.finish_manual_compaction(Ok(CompactionReport::NothingToCompact))),
        ["nothing to compact: no older completed turns are available"]
    );
    assert_eq!(app.status.usage, Some(usage(1)));
    assert_eq!(
        texts(&app.finish_manual_compaction(Ok(CompactionReport::Compacted {
            covers_up_to: "turn-3".to_owned(),
        }))),
        ["context compacted through turn-3"]
    );
    assert_eq!(app.status.usage, None);
    let refused = CompactionError::Unavailable { availability: FrontendAvailability::Idle };
    assert_eq!(
        texts(&app.finish_manual_compaction(Err(refused))),
        ["error: context compaction was not started: the runtime refused maintenance"]
    );
    let failed = CompactionError::Failed { message: "disk full".to_owned() };
    assert_eq!(
        texts(&app.finish_manual_compaction(Err(failed))),
        ["error: context compaction failed: disk full"]
    );
}

#[test]
fn maintenance_runs_its_course() {
    let mut app = app();
    let step = |phase, message: Option<&str>| {
        FrontendUpdateKind::MaintenanceChanged(FrontendMaintenance {
            phase,
            message: message.map(str::to_owned),
        })
    };
    update(&mut app, step(FrontendMaintenancePhase::Started, None));
    assert!(app.status.compacting);
    let reaction = update(
        &mut app,
        step(FrontendMaintenancePhase::Settled, Some("covers_up_to: \"e-1\"")),
    );
    assert_eq!(texts(&reaction.effects), ["context compacted through e-1"]);
    assert!(!app.status.compacting);
    let reaction = update(&mut app, step(FrontendMaintenancePhase::Settled, Some("done")));
    assert_eq!(texts(&reaction.effects), ["context compacted: done"]);
    let reaction = update(&mut app, step(FrontendMaintenancePhase::Settled, None));
    assert_eq!(texts(&reaction.effects), ["context compacted"]);
    let reaction =
        update(&mut app, step(FrontendMaintenancePhase::Settled, Some("NothingToCompact")));
    assert_eq!(
        texts(&reaction.effects),
        ["nothing to compact: no older completed turns are available"]
    );
    let reaction = update(&mut app, step(FrontendMaintenancePhase::Failed, None));
    assert_eq!(
        texts(&reaction.effects),
        ["error: context compaction failed: context compaction failed"]
    );
    assert!(update(&mut app, step(FrontendMaintenancePhase::Cancelled, None)).effects.is_empty());
    update(&mut app, step(FrontendMaintenancePhase::Accepted, None));
    let reaction = update(&mut app, step(FrontendMaintenancePhase::Cancelled, None));
    assert_eq!(texts(&reaction.effects), ["context compaction cancelled"]);
}

#[test]
fn availability_drives_the_busy_flags() {
    let mut app = app();
    let change = |availability| FrontendUpdateKind::AvailabilityChanged { availability, queued: 0 };
    update(&mut app, change(FrontendAvailability::Busy { operation_id: "op".to_owned() }));
    assert!(app.status.busy && !app.status.compacting);
    update(&mut app, change(FrontendAvailability::Compacting { maintenance_id: "m".to_owned() }));
    assert!(!app.status.busy && app.status.compacting);
    update(&mut app, change(FrontendAvailability::Idle));
    assert!(!app.status.busy && !app.status.compacting);
    assert!(!app.run_state_active());
}

#[test]
fn health_is_told() {
    let mut app = app();
    let change = |health| FrontendUpdateKind::ServiceHealthChanged { health };
    assert!(update(&mut app, change(ServiceHealth::Healthy)).effects.is_empty());
    let degraded = ServiceHealth::Degraded { message: "slow disk".to_owned() };
    assert_eq!(texts(&update(&mut app, change(degraded)).effects), ["warning: slow disk"]);
    assert_eq!(
        texts(&update(&mut app, change(ServiceHealth::ShuttingDown)).effects),
        ["service is shutting down"]
    );
    let ended = ServiceHealth::RuntimeEpochEnded { message: "gone".to_owned() };
    assert_eq!(texts(&update(&mut app, change(ended)).effects), ["error: gone"]);
}

#[test]
fn compaction_cancels_report_their_dispatch() {
    let mut app = app();
    app.run_command("/compact", 0);
    let finish = |result| Action::CompactionCancelDispatchFinished { result };
    assert_eq!(
        texts(&app.on_action(finish(CancelDispatchResult::Backpressured), 0)),
        ["取消请求未发送"]
    );
    assert_eq!(
        texts(&app.on_action(finish(CancelDispatchResult::Disconnected { lane: "control" }), 0)),
        ["error: frontend disconnected (control); cancel not sent"]
    );
    assert!(app.status.compacting);
    let request = philo_tui::app::submit::FrontendRequestId(1);
    assert_eq!(
        texts(&app.on_action(finish(CancelDispatchResult::Enqueued(request)), 0)),
        ["context compaction cancelled"]
    );
    assert!(!app.status.compacting);
}

fn snapshot() -> FrontendSnapshot {
    FrontendSnapshot {
        current_session_id: None,
        durable_session_view: Some(DurableSessionView {
            usage: Some(usage(3)),
            generation: Some(choice("stored")),
            ..empty_view("z")
        }),
        live: LiveOperationSnapshot {
            operation_id: None,
            model_call_id: None,
            reasoning: "hm".to_owned(),
            text: "so far".to_owned(),
            usage: None,
        },
        availability: FrontendAvailability::Busy { operation_id: "op".to_owned() },
        queued: vec![
            QueuedOperation { operation_id: "op".to_owned() },
            QueuedOperation { operation_id: "next".to_owned() },
        ],
        usage: None,
        generation: FrontendGeneration {
            model_name: "live".to_owned(),
            reasoning_effort: None,
            provider: None,
        },
        pending_confirmations: vec![PendingConfirmation {
            confirmation_id: 2,
            title: "run".to_owned(),
            body: String::new(),
        }],
        maintenance: None,
        health: ServiceHealth::Healthy,
    }
}

#[test]
fn a_snapshot_brings_everything_up_to_date() {
    let mut app = app();
    let reaction = update(&mut app, FrontendUpdateKind::SnapshotReady(snapshot()));
    assert!(reaction.effects.is_empty());
    assert_eq!(reaction.plan, [Projection::Restart]);
    assert_eq!(app.status.session, "z");
    assert_eq!(app.status.usage, Some(usage(3)));
    assert_eq!(app.status.model, "live");
    assert!(app.status.busy);
    assert!(app.has_confirmation());
    assert_eq!(app.cells.cells(), &vec![transcript::line(LineKind::Answer, "replayed")]);
    assert_eq!(
        app.flush_stream(),
        [piece(LineKind::Reasoning, "hm"), piece(LineKind::Answer, "so far")]
    );
    assert_eq!(
        philo_tui::app::state::snapshot::snapshot_in_flight_ids(&snapshot()),
        ["op", "next"]
    );
}

#[test]
fn the_status_report_lists_tools() {
    let mut app = app();
    let status = FrontendStatus {
        tools: vec![FrontendToolListing {
            name: "read".to_owned(),
            effect_class: "ReadOnly".to_owned(),
        }],
    };
    let reaction = update(&mut app, FrontendUpdateKind::StatusReady(status));
    let lines = texts(&reaction.effects);
    assert!(lines[0].contains("m · session s"), "{lines:?}");
    assert!(lines.iter().any(|line| line.contains("read")), "{lines:?}");
}

#[test]
fn a_cycling_menu_wraps_around() {
    let mut menu = CompletionMenu::new(vec!["sessions", "status"]);
    assert_eq!(menu.line(), "commands: sessions status");
    assert_eq!(menu.cycle(), "sessions");
    assert_eq!(menu.line(), "commands: [sessions] status");
    assert_eq!(menu.cycle(), "status");
    assert_eq!(menu.cycle(), "sessions");
}

#[test]
fn a_cache_keeps_the_last_value() {
    let mut cache: SessionCache<FrontendTokenUsage> = SessionCache::new();
    cache.insert("a", usage(1));
    cache.insert("b", usage(2));
    cache.insert("a", usage(3));
    assert_eq!(cache.get("a"), Some(&usage(3)));
    cache.remove("a");
    assert_eq!(cache.get("a"), None);
    assert_eq!(cache.get("b"), Some(&usage(2)));
}

#[test]
fn a_taken_open_cell_leaves_the_store() {
    let mut store = TranscriptStore::new();
    store.begin(LineKind::Reasoning, "partial");
    let taken: Option<TranscriptLine> = store.take_open();
    assert_eq!(taken.expect("open").text, "partial");
    assert!(store.is_empty());
}

#[test]
fn updates_leave_a_draft_alone() {
    let mut app = app();
    app.on_paste("keep this");
    app.attach_image("image/png".to_owned(), vec![1], "clipboard");
    update(&mut app, FrontendUpdateKind::SnapshotReady(snapshot()));
    let ended = ServiceHealth::RuntimeEpochEnded { message: "gone".to_owned() };
    update(&mut app, FrontendUpdateKind::ServiceHealthChanged { health: ended });
    assert_eq!(app.input.text(), "keep this");
    assert_eq!(app.attachments().len(), 1);
}

fn entry(key: &str, value: &str) -> FrontendConfigEntry {
    FrontendConfigEntry {
        key: key.to_owned(),
        value: value.to_owned(),
        source: "project".to_owned(),
    }
}

#[test]
fn config_lines_come_behind_the_stream() {
    let mut app = app();
    app.cells.begin(LineKind::Answer, "open ");
    app.on_operation_event(&text_delta("tail"), 0);
    let entries = vec![entry("show_reasoning", "false")];
    let reaction = update(&mut app, FrontendUpdateKind::ConfigChanged { entries });
    assert_eq!(texts(&reaction.effects), ["config reloaded"]);
    assert_eq!(
        reaction.plan,
        [
            piece(LineKind::Answer, "tail"),
            Projection::ReasoningShown(false),
            Projection::Lines(vec![transcript::line(LineKind::Meta, "config reloaded")]),
        ]
    );
    assert_eq!(app.cells.cells().len(), 1, "nothing is written ahead of the steps");
    assert_eq!(app.cells.open_index(), Some(0), "the open cell stays open for the pieces");

    let entries = vec![entry("model", "other")];
    let reaction = update(&mut app, FrontendUpdateKind::ConfigChanged { entries });
    assert!(reaction.plan.is_empty());
    assert_eq!(app.cells.cells()[1].text, "config reloaded", "without steps it is said at once");
}

#[test]
fn a_config_listing_comes_behind_the_stream_too() {
    let mut app = app();
    app.expect_config_listing = true;
    app.on_operation_event(&text_delta("tail"), 0);
    let entries = vec![entry("ui.show_reasoning", "false")];
    let reaction = update(&mut app, FrontendUpdateKind::ConfigChanged { entries });
    assert_eq!(reaction.plan.len(), 3);
    assert!(
        matches!(&reaction.plan[2], Projection::Lines(lines)
            if lines[0].text.contains("config (effective)")),
        "{:?}",
        reaction.plan
    );
    assert!(app.cells.is_empty());
}

#[test]
fn a_snapshot_without_a_session_speaks_behind_the_stream() {
    let mut app = App::new(StatusData::new("m", "s", InfoLevel::Default), false);
    app.on_operation_event(&text_delta("first"), 0);
    let mut snapshot = snapshot();
    snapshot.durable_session_view = None;
    snapshot.health = ServiceHealth::Degraded { message: "slow".to_owned() };
    let reaction = update(&mut app, FrontendUpdateKind::SnapshotReady(snapshot));
    assert_eq!(
        reaction.plan,
        [
            piece(LineKind::Answer, "first"),
            Projection::LiveReasoning,
            Projection::Lines(vec![transcript::line(LineKind::Notice, "warning: slow")]),
        ]
    );
    assert!(app.cells.is_empty());
    assert_eq!(app.flush_stream(), [piece(LineKind::Answer, "so far")]);
}

#[test]
fn a_settled_call_is_not_cancelled() {
    let mut app = app();
    app.on_operation_event(&started(0), 0);
    app.place_live_cell(transcript::line(LineKind::Tool, "running"));
    app.on_operation_event(&completed(0), 0);
    assert_eq!(
        app.on_operation_event(&cancelled(), 0),
        [Projection::Event { elapsed: None }],
        "the settled card stays"
    );
}

#[test]
fn defaults_are_empty() {
    let status = StatusData::default();
    assert!(status.model.is_empty() && status.session.is_empty());
    assert!(!status.busy && status.usage.is_none() && status.workspace_root.is_empty());
    assert_eq!(status.level, InfoLevel::Default);
}
