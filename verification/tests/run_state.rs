use philo_tui::app::frontend::{
    FrontendFailure, FrontendOperationEvent, FrontendToolResult, SettlementRevision,
};
use philo_tui::app::run_state::{
    format_elapsed, format_think_elapsed, spinner_at, RunState, SPINNER_LEN,
};
use philo_tui::app::text;

fn op_started() -> FrontendOperationEvent {
    FrontendOperationEvent::OperationStarted {
        operation_id: "op".to_owned(),
    }
}

fn reasoning() -> FrontendOperationEvent {
    FrontendOperationEvent::ReasoningDelta {
        model_call_id: "call".to_owned(),
        text: "t".to_owned(),
    }
}

fn writing() -> FrontendOperationEvent {
    FrontendOperationEvent::TextDelta {
        delta: "t".to_owned(),
    }
}

fn tool_started(index: usize) -> FrontendOperationEvent {
    FrontendOperationEvent::ToolExecutionStarted {
        tool_batch_id: "batch".to_owned(),
        tool_call_id: format!("call-{index}"),
        index,
        tool_name: "read".to_owned(),
        arguments: "{}".to_owned(),
    }
}

fn tool_progress(index: usize) -> FrontendOperationEvent {
    FrontendOperationEvent::ToolExecutionProgress {
        tool_batch_id: "batch".to_owned(),
        tool_call_id: format!("call-{index}"),
        index,
        tail: "out".to_owned(),
    }
}

fn tool_completed(index: usize) -> FrontendOperationEvent {
    FrontendOperationEvent::ToolExecutionCompleted {
        tool_batch_id: "batch".to_owned(),
        tool_call_id: format!("call-{index}"),
        index,
        tool_name: "read".to_owned(),
        result: FrontendToolResult::Success {
            content: "ok".to_owned(),
        },
        display: None,
    }
}

fn cancelled() -> FrontendOperationEvent {
    FrontendOperationEvent::CancellationRequested {
        operation_id: "op".to_owned(),
        reason: "User".to_owned(),
    }
}

fn settled() -> FrontendOperationEvent {
    FrontendOperationEvent::OperationSettled {
        operation_id: "op".to_owned(),
        session_id: "s".to_owned(),
        status: "Cancelled".to_owned(),
        durability: "Confirmed".to_owned(),
        session_revision: SettlementRevision::Unchanged,
    }
}

fn retry() -> FrontendOperationEvent {
    FrontendOperationEvent::ModelRetryScheduled {
        model_call_id: "call".to_owned(),
        attempt: 1,
        max_retries: 3,
        delay_ms: 2000,
        failure: failure(),
    }
}

fn failure() -> FrontendFailure {
    FrontendFailure {
        code: "network.timeout".to_owned(),
        domain: "network".to_owned(),
        stage: "model-port".to_owned(),
        retry: "safe".to_owned(),
        summary: "upstream timed out".to_owned(),
        diagnostic: String::new(),
    }
}

fn word_of(state: &RunState, approval: bool) -> Option<String> {
    state.corner(120, approval, 0).map(|corner| corner.word)
}

#[test]
fn queued_never_activates_the_corner() {
    let mut state = RunState::default();
    state.on_event(&FrontendOperationEvent::OperationQueued {
        operation_id: "op".to_owned(),
    }, 0);
    assert!(!state.is_active());
    assert!(word_of(&state, false).is_none(), "idle stays empty");
}

#[test]
fn baseline_words_follow_the_last_event() {
    let mut state = RunState::default();
    state.on_event(&op_started(), 0);
    assert_eq!(word_of(&state, false).as_deref(), Some("Waiting…"));
    state.on_event(&reasoning(), 0);
    assert_eq!(word_of(&state, false).as_deref(), Some("Thinking…"));
    state.on_event(&writing(), 0);
    assert_eq!(word_of(&state, false).as_deref(), Some("Writing…"));
    state.on_event(&FrontendOperationEvent::AssistantMessageCompleted {
        turn_id: "turn".to_owned(),
        content: "done".to_owned(),
    }, 0);
    assert_eq!(word_of(&state, false).as_deref(), Some("Waiting…"));
}

#[test]
fn tools_run_as_one_word_and_progress_is_invisible() {
    let mut state = RunState::default();
    state.on_event(&op_started(), 0);
    state.on_event(&FrontendOperationEvent::ToolBatchRequested {
        tool_batch_id: "batch".to_owned(),
        call_count: 2,
    }, 0);
    assert_eq!(
        word_of(&state, false).as_deref(),
        Some("Waiting…"),
        "batch requests keep the current word"
    );

    state.on_event(&tool_started(0), 0);
    assert_eq!(word_of(&state, false).as_deref(), Some("Running…"));
    state.on_event(&tool_progress(0), 0);
    assert_eq!(
        word_of(&state, false).as_deref(),
        Some("Running…"),
        "progress changes nothing"
    );
    state.on_event(&tool_progress(1), 0);
    state.on_event(&tool_started(1), 0);
    assert_eq!(word_of(&state, false).as_deref(), Some("Running…"));

    state.on_event(&tool_completed(0), 0);
    assert_eq!(
        word_of(&state, false).as_deref(),
        Some("Running…"),
        "one tool still runs"
    );
    state.on_event(&tool_completed(1), 0);
    assert_eq!(
        word_of(&state, false).as_deref(),
        Some("Waiting…"),
        "the gap after all tools lands on Waiting"
    );
    state.on_event(&tool_completed(0), 0);
    assert_eq!(
        word_of(&state, false).as_deref(),
        Some("Waiting…"),
        "stray completions do not loop the demotion"
    );
}

#[test]
fn retry_sits_with_waiting_and_loses_to_running() {
    let mut state = RunState::default();
    state.on_event(&op_started(), 0);
    state.on_event(&retry(), 0);
    assert_eq!(word_of(&state, false).as_deref(), Some("Retrying…"));
    state.on_event(&FrontendOperationEvent::ModelCallStarted {
        model_call_id: "call".to_owned(),
    }, 0);
    assert_eq!(
        word_of(&state, false).as_deref(),
        Some("Waiting…"),
        "equal levels replace"
    );

    state.on_event(&tool_started(0), 0);
    state.on_event(&retry(), 0);
    assert_eq!(
        word_of(&state, false).as_deref(),
        Some("Running…"),
        "retry cannot beat running"
    );
}

#[test]
fn streaming_loses_to_running_but_compacting_beats_both() {
    let mut state = RunState::default();
    state.on_event(&op_started(), 0);
    state.on_event(&tool_started(0), 0);
    state.on_event(&writing(), 0);
    assert_eq!(
        word_of(&state, false).as_deref(),
        Some("Running…"),
        "writing cannot beat running"
    );

    state.on_event(&FrontendOperationEvent::ContextCompactionStarted, 0);
    assert_eq!(word_of(&state, false).as_deref(), Some("Compacting…"));
    state.on_event(&writing(), 0);
    assert_eq!(
        word_of(&state, false).as_deref(),
        Some("Compacting…"),
        "streaming cannot beat compacting"
    );
    state.on_event(&FrontendOperationEvent::ContextCompactionCompleted {
        covers_up_to: "entry-42".to_owned(),
    }, 0);
    assert_eq!(word_of(&state, false).as_deref(), Some("Waiting…"));

    state.on_event(&reasoning(), 0);
    state.on_event(&FrontendOperationEvent::ContextCompactionStarted, 0);
    state.on_event(&FrontendOperationEvent::ContextCompactionFailed {
        message: "no".to_owned(),
    }, 0);
    assert_eq!(word_of(&state, false).as_deref(), Some("Waiting…"));
}

#[test]
fn cancelling_is_sticky_until_settlement() {
    let mut state = RunState::default();
    state.on_event(&op_started(), 0);
    state.on_event(&writing(), 0);
    state.on_event(&cancelled(), 0);
    assert_eq!(word_of(&state, false).as_deref(), Some("Cancelling…"));

    for event in [
        writing(),
        reasoning(),
        op_started(),
        tool_started(3),
        tool_completed(3),
        retry(),
        FrontendOperationEvent::ContextCompactionStarted,
        FrontendOperationEvent::ContextCompactionCompleted {
            covers_up_to: "x".to_owned(),
        },
        FrontendOperationEvent::TurnCancelled {
            turn_id: "turn".to_owned(),
            reason: "User".to_owned(),
        },
    ] {
        state.on_event(&event, 0);
        assert_eq!(
            word_of(&state, false).as_deref(),
            Some("Cancelling…"),
            "nothing overrides a sticky cancel: {event:?}"
        );
    }

    state.on_event(&settled(), 0);
    assert!(!state.is_active(), "settlement clears even Cancelling");
}

#[test]
fn terminal_events_clear_the_word_and_timer() {
    let mut state = RunState::default();
    state.on_event(&op_started(), 0);
    state.on_event(&settled(), 0);
    assert!(word_of(&state, false).is_none());

    state.on_event(&FrontendOperationEvent::TurnFailed {
        turn_id: "turn".to_owned(),
        failure: failure(),
    }, 0);
    assert!(!state.is_active());

    state.on_event(&op_started(), 0);
    let corner = state.corner(120, false, 0).expect("restarted");
    assert_eq!(corner.timing, "0s · esc cancel");
}

#[test]
fn manual_compaction_takes_and_gives_the_corner() {
    let mut state = RunState::default();
    state.start_manual_compaction(0);
    assert_eq!(word_of(&state, false).as_deref(), Some("Compacting…"));
    state.advance_spinner();
    state.finish_manual_compaction();
    assert!(!state.is_active(), "manual compaction settles empty");

    state.finish_manual_compaction();
    assert!(!state.is_active(), "finishing while idle is inert");
}

#[test]
fn the_turn_clock_spans_phase_changes_and_stops_once() {
    let mut state = RunState::default();
    state.on_event(&op_started(), 0);
    state.on_event(&tool_started(0), 0);
    let corner = state.corner(120, false, 42_000).expect("running");
    assert_eq!(corner.timing, "42s · esc cancel");

    state.on_event(&cancelled(), 0);
    let corner = state.corner(120, false, 42_000).expect("cancelling");
    assert_eq!(corner.timing, "42s · esc cancel");
    assert!(corner.warning, "Cancelling… wears warn");

    state.on_event(&settled(), 0);
    assert!(state.corner(120, false, 42_000).is_none());
}

#[test]
fn approval_overlays_the_word_without_touching_the_phase() {
    let mut state = RunState::default();
    state.on_event(&op_started(), 0);
    state.on_event(&tool_started(0), 0);
    let corner = state.corner(120, true, 0).expect("approval overlay");
    assert_eq!(corner.word, "Approval…");
    assert!(!corner.warning);

    let bare = state.corner(120, false, 0).expect("underlying");
    assert_eq!(bare.word, "Running…", "the flag hides, not replaces");
}

#[test]
fn elapsed_formats_seconds_then_minutes() {
    assert_eq!(format_elapsed(0), "0s");
    assert_eq!(format_elapsed(42_000), "42s");
    assert_eq!(format_elapsed(59_000), "59s");
    assert_eq!(format_elapsed(83_000), "1m23s");
    assert_eq!(format_elapsed(600_000), "10m0s");
}

#[test]
fn think_elapsed_wears_milliseconds_below_a_second() {
    assert_eq!(
        format_think_elapsed(850),
        "850ms",
        "short blocks never collapse to 0s"
    );
    assert_eq!(format_think_elapsed(0), "0ms");
    assert_eq!(format_think_elapsed(8_000), "8s");
    assert_eq!(format_think_elapsed(83_000), "1m23s");
}

#[test]
fn the_corner_degrades_timing_first_then_truncates_the_word() {
    let mut state = RunState::default();
    state.on_event(&op_started(), 0);
    state.on_event(&writing(), 0);

    let full = state.corner(80, false, 42_000).expect("wide");
    assert_eq!(full.spinner, "⠋");
    assert_eq!(full.word, "Writing…");
    assert_eq!(full.timing, "42s · esc cancel");
    assert_eq!(
        full.painted_width(),
        text::width("⠹") + 1 + text::width("Writing…") + 1 + text::width("42s · esc cancel")
    );

    let squeezed = state
        .corner(full.painted_width() - 1, false, 42_000)
        .expect("squeezed");
    assert!(squeezed.timing.is_empty(), "timing drops first");
    assert_eq!(squeezed.word, "Writing…");

    let tighter = state.corner(6, false, 42_000).expect("tight");
    assert!(tighter.timing.is_empty());
    assert!(
        tighter.painted_width() <= 6,
        "the word truncates into budget: {:?}",
        tighter.word
    );
    assert!(tighter.word.ends_with('…'));

    let floor = state.corner(2, false, 42_000).expect("floor");
    assert_eq!(floor.word, "", "a two-cell budget leaves the spinner");
}

#[test]
fn the_spinner_advances_only_while_active_and_wraps() {
    let mut state = RunState::default();
    state.advance_spinner();
    assert_eq!(
        state.corner(80, false, 0).map(|corner| corner.spinner),
        None,
        "idle has no frames to advance"
    );

    state.on_event(&op_started(), 0);
    let first = state.corner(80, false, 0).expect("active").spinner;
    assert_eq!(first, spinner_at(0));
    for expected in 1..=SPINNER_LEN {
        state.advance_spinner();
        let frame = state.corner(80, false, 0).expect("active").spinner;
        assert_eq!(frame, spinner_at(expected % SPINNER_LEN));
    }

    state.on_event(&settled(), 0);
    assert_eq!(state.corner(80, false, 0), None);
}

#[test]
fn the_clock_spans_phases_from_the_first_event() {
    let mut state = RunState::new();
    state.on_event(&op_started(), 1_000);
    state.on_event(&writing(), 3_000);
    assert_eq!(state.elapsed(61_000), Some(60_000));
    assert_eq!(state.corner(120, false, 61_000).expect("active").timing, "1m0s · esc cancel");
    state.on_event(&settled(), 62_000);
    assert_eq!(state.elapsed(62_000), None);
}

#[test]
fn a_cancelled_turn_shows_its_word_from_37_cells_on() {
    let mut state = RunState::new();
    state.on_event(&op_started(), 0);
    state.on_event(&cancelled(), 0);
    state.on_event(&writing(), 0);
    for width in 37..=120 {
        let corner = state.corner(width, false, 0).expect("cancelling");
        assert_eq!(corner.word, "Cancelling…");
        assert!(corner.warning);
    }
}
