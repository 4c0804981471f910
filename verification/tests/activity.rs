use philo_tui::app::activity::{sanitize_live_tail, ActivityState};
use philo_tui::app::frontend::{
    FrontendOperationEvent, FrontendToolResult, SettlementRevision,
};
use philo_tui::app::text;

fn completed(index: usize, name: &str, content: &str) -> FrontendOperationEvent {
    FrontendOperationEvent::ToolExecutionCompleted {
        tool_batch_id: "batch".to_owned(),
        tool_call_id: format!("call-{index}"),
        index,
        tool_name: name.to_owned(),
        result: FrontendToolResult::Success {
            content: content.to_owned(),
        },
        display: None,
    }
}

#[test]
fn tool_activity_is_ephemeral_and_terminal_events_clean_it_up() {
    let mut state = ActivityState::default();
    state.on_event(&FrontendOperationEvent::ToolBatchRequested {
        tool_batch_id: "batch".to_owned(),
        call_count: 2,
    });
    state.on_event(&FrontendOperationEvent::ToolExecutionStarted {
        tool_batch_id: "batch".to_owned(),
        tool_call_id: "call".to_owned(),
        index: 0,
        tool_name: "read_file".to_owned(),
        arguments: "{\"path\":\"src/很长的文件.rs\"}".to_owned(),
    });
    let view = state.view(36).expect("activity");
    assert!(view.text.contains("tool  read_file"), "{view:?}");
    assert!(text::width(&view.text) <= 36);
    assert_eq!(state.detail_rows(40, 2, 5, &vec!["path: src/很长的文件.rs".to_owned()]), ["path: src/很长的文件.rs"]);

    state.on_event(&completed(0, "read_file", "ok"));
    assert!(state.view(80).expect("waiting").text.contains("wait"));

    state.on_event(&FrontendOperationEvent::OperationSettled {
        operation_id: "op".to_owned(),
        session_id: "s-1".to_owned(),
        status: "Succeeded".to_owned(),
        durability: "Confirmed".to_owned(),
        session_revision: SettlementRevision::Unchanged,
    });
    assert!(!state.is_active());
}

#[test]
fn concurrent_tool_starts_stay_visible_together() {
    let mut state = ActivityState::default();
    state.on_event(&FrontendOperationEvent::ToolBatchRequested {
        tool_batch_id: "batch".to_owned(),
        call_count: 3,
    });
    state.on_event(&FrontendOperationEvent::ToolExecutionStarted {
        tool_batch_id: "batch".to_owned(),
        tool_call_id: "call-1".to_owned(),
        index: 0,
        tool_name: "read_file".to_owned(),
        arguments: "{\"path\":\"a.rs\"}".to_owned(),
    });
    state.on_event(&FrontendOperationEvent::ToolExecutionStarted {
        tool_batch_id: "batch".to_owned(),
        tool_call_id: "call-2".to_owned(),
        index: 1,
        tool_name: "grep".to_owned(),
        arguments: "{\"pattern\":\"fn\"}".to_owned(),
    });
    let view = state.view(80).expect("parallel activity");
    assert!(view.text.contains("tools  2/3"), "{view:?}");

    state.on_event(&completed(0, "read_file", "ok"));
    let remaining = state.view(80).expect("one still running");
    assert!(remaining.text.contains("tool  grep"), "{remaining:?}");
}

#[test]
fn cancellation_cannot_be_overwritten_by_late_text() {
    let mut state = ActivityState::default();
    state.on_event(&FrontendOperationEvent::CancellationRequested {
        operation_id: "op".to_owned(),
        reason: "User".to_owned(),
    });
    state.on_event(&FrontendOperationEvent::TextDelta {
        delta: "late".to_owned(),
    });
    state.on_event(&completed(0, "late_tool", "late"));
    assert!(state.view(80).expect("activity").text.contains("cancel"));
}

#[test]
fn progress_updates_the_live_tail_and_cannot_outrank_cancel() {
    let mut state = ActivityState::default();
    state.on_event(&FrontendOperationEvent::ToolBatchRequested {
        tool_batch_id: "batch".to_owned(),
        call_count: 1,
    });
    state.on_event(&FrontendOperationEvent::ToolExecutionStarted {
        tool_batch_id: "batch".to_owned(),
        tool_call_id: "call".to_owned(),
        index: 0,
        tool_name: "shell".to_owned(),
        arguments: "{\"command\":\"echo hi\"}".to_owned(),
    });
    state.on_event(&FrontendOperationEvent::ToolExecutionProgress {
        tool_batch_id: "batch".to_owned(),
        tool_call_id: "call".to_owned(),
        index: 0,
        tail: "\u{1b}[32mhello\u{1b}[0m\rworld".to_owned(),
    });
    let details = state.detail_rows(40, 4, 5, &vec!["command: echo hi".to_owned()]);
    assert!(
        details.iter().any(|row| row.contains("world")),
        "{details:?}"
    );
    assert!(
        details
            .iter()
            .all(|row| !row.contains("hello") && !row.contains("\u{1b}")),
        "{details:?}"
    );

    state.on_event(&FrontendOperationEvent::CancellationRequested {
        operation_id: "op".to_owned(),
        reason: "User".to_owned(),
    });
    state.on_event(&FrontendOperationEvent::ToolExecutionProgress {
        tool_batch_id: "batch".to_owned(),
        tool_call_id: "call".to_owned(),
        index: 0,
        tail: "late-progress".to_owned(),
    });
    assert!(state.view(80).expect("activity").text.contains("cancel"));
}

#[test]
fn live_output_is_cleaned() {
    assert_eq!(sanitize_live_tail("\u{1b}[1;31mred\u{1b}[0m"), "red");
    assert_eq!(sanitize_live_tail("10%\r50%\rdone\nnext\u{7}"), "done\nnext");
    assert_eq!(sanitize_live_tail("a\u{1b}b\tc"), "ab\tc");
}

#[test]
fn the_timeline_shows_output_before_arguments() {
    let mut state = ActivityState::new();
    state.on_event(&FrontendOperationEvent::ToolExecutionStarted {
        tool_batch_id: "batch".to_owned(),
        tool_call_id: "call".to_owned(),
        index: 0,
        tool_name: "shell".to_owned(),
        arguments: "{}".to_owned(),
    });
    let args = vec!["echo hi".to_owned()];
    assert_eq!(state.timeline_row(40, &args).as_deref(), Some("shell  echo hi"));
    state.on_event(&FrontendOperationEvent::ToolExecutionProgress {
        tool_batch_id: "batch".to_owned(),
        tool_call_id: "call".to_owned(),
        index: 0,
        tail: "one\n two \n".to_owned(),
    });
    assert_eq!(state.timeline_row(40, &args).as_deref(), Some("shell  two"));
    assert_eq!(ActivityState::new().timeline_row(40, &vec![]), None);
}

#[test]
fn the_spinner_turns_through_single_characters() {
    let mut state = ActivityState::new();
    state.on_event(&FrontendOperationEvent::TurnStarted { turn_id: "turn".to_owned() });
    let mut frames = Vec::new();
    for _ in 0..5 {
        frames.push(state.view(40).expect("activity").text);
        state.advance_spinner();
    }
    assert_eq!(frames, ["| wait", "/ wait", "- wait", "\\ wait", "| wait"]);
}

#[test]
fn a_long_reason_is_cut_behind_the_word() {
    let mut state = ActivityState::new();
    state.on_event(&FrontendOperationEvent::CancellationRequested {
        operation_id: "op".to_owned(),
        reason: "中断".repeat(60),
    });
    for width in 11..=80 {
        let view = state.view(width).expect("activity");
        assert!(view.text.contains("cancel"), "{width}: {}", view.text);
        assert!(text::width(&view.text) <= width);
    }
    assert_eq!(state.view(11).expect("activity").text, "| cancel...");
}
