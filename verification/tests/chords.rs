use philo_tui::app::action::Action;
use philo_tui::app::command;
use philo_tui::app::effect::{Effect, HostRequest};
use philo_tui::app::frontend::{
    ConfirmationDecision, FrontendOperationEvent, FrontendReasoningEffort, FrontendTokenUsage,
};
use philo_tui::app::overlay::{ConfirmPrompt, PickerEntry};
use philo_tui::app::state::App;
use philo_tui::app::status::StatusData;
use philo_tui::app::transcript::{InfoLevel, LineKind, TranscriptLine};

/// Hands actions over at one moment of time.
trait Act {
    fn act(&mut self, action: Action) -> Vec<Effect>;
}

impl Act for App {
    fn act(&mut self, action: Action) -> Vec<Effect> {
        self.on_action(action, 0)
    }
}

fn app() -> App {
    App::new(StatusData::new("m", "s", InfoLevel::Default), true)
}

fn type_text(app: &mut App, text: &str) {
    for ch in text.chars() {
        app.act(Action::InsertChar(ch));
    }
}

/// Submits `text` and returns the produced effects.
fn run(app: &mut App, text: &str) -> Vec<Effect> {
    type_text(app, text);
    app.act(Action::Submit)
}

/// The transcript lines of the first append.
fn appended(effects: &[Effect]) -> Vec<TranscriptLine> {
    effects
        .iter()
        .find_map(|effect| match effect {
            Effect::Append(lines) => Some(lines.clone()),
            _ => None,
        })
        .unwrap_or_default()
}

fn texts(lines: &[TranscriptLine]) -> Vec<String> {
    lines.iter().map(|line| line.text.clone()).collect()
}

fn host_requests(effects: &[Effect]) -> Vec<HostRequest> {
    effects
        .iter()
        .filter_map(|effect| match effect {
            Effect::Host(request) => Some(request.clone()),
            _ => None,
        })
        .collect()
}

fn prompt(id: u64, title: &str) -> ConfirmPrompt {
    ConfirmPrompt::new(id, title, &format!("{title} body"))
}

#[test]
fn state_empty_submit_is_a_no_op() {
    let mut app = app();
    assert!(app.act(Action::Submit).is_empty());
}

#[test]
fn state_unknown_commands_never_submit_to_the_model() {
    let mut app = app();
    let effects = run(&mut app, "/definitely-unknown");
    assert_eq!(effects.len(), 1, "echo and error only");
    let lines = appended(&effects);
    assert_eq!(lines[0].text, "/definitely-unknown", "the command echoes");
    assert_eq!(lines[1].kind, LineKind::Error);
    assert_eq!(
        lines[1].text,
        "unknown command: /definitely-unknown (try /help)"
    );
}

#[test]
fn state_help_lists_the_whole_command_table() {
    let mut app = app();
    let lines = texts(&appended(&run(&mut app, "/help")));
    for spec in command::commands() {
        assert!(
            lines.iter().any(|line| line.contains(spec.usage)),
            "missing {} in {lines:?}",
            spec.usage
        );
    }
}

#[test]
fn state_new_and_sessions_go_through_the_host() {
    let mut app = app();
    assert_eq!(
        host_requests(&run(&mut app, "/new")),
        vec![HostRequest::NewSession]
    );
    assert_eq!(
        host_requests(&run(&mut app, "/sessions")),
        vec![HostRequest::OpenSessions]
    );
}

#[test]
fn state_a_new_session_is_refused_while_a_turn_runs() {
    let mut app = app();
    app.set_busy(true, 0);
    let effects = run(&mut app, "/new");
    assert!(host_requests(&effects).is_empty());
    assert_eq!(appended(&effects)[1].kind, LineKind::Error);
}

#[test]
fn reasoning_maps_levels_and_reports_bad_ones() {
    let mut app = app();
    assert_eq!(
        host_requests(&run(&mut app, "/reasoning high")),
        vec![HostRequest::SetReasoning(
            FrontendReasoningEffort::High
        )]
    );
    let effects = run(&mut app, "/reasoning turbo");
    assert!(host_requests(&effects).is_empty());
    assert!(
        appended(&effects)[1]
            .text
            .starts_with("unknown reasoning level: turbo")
    );
    assert!(
        appended(&run(&mut app, "/reasoning"))[1]
            .text
            .starts_with("usage: /reasoning")
    );
}

#[test]
fn state_image_registers_a_path_for_the_next_message() {
    let mut app = app();
    assert!(
        appended(&run(&mut app, "/image"))[1]
            .text
            .starts_with("usage: /image")
    );
    let lines = appended(&run(&mut app, "/image shots/a.png"));
    assert_eq!(
        lines[1].text,
        "image queued: shots/a.png (1 waiting for the next message)"
    );
    run(&mut app, "/image shots/b.png");
    assert_eq!(app.attachments().labels(), ["shots/a.png", "shots/b.png"]);
}

#[test]
fn state_a_refused_message_returns_to_the_input_with_its_survivors() {
    let mut app = app();
    run(&mut app, "/image missing.png");
    let effects = run(&mut app, "look");
    let Effect::PrepareSubmit { text, attachments, .. } = effects[0].clone() else {
        panic!("submit carries the draft");
    };
    // The driver could not read one of them and hands back the rest.
    app.restore_draft(&text, attachments[1..].to_vec());
    assert_eq!(app.input.text(), "look");
    assert!(app.attachments().is_empty());
}

#[test]
fn state_ctrl_v_asks_the_driver_for_the_clipboard() {
    let mut app = app();
    assert_eq!(app.act(Action::Paste), vec![Effect::ReadClipboard]);
    let effects = app.clipboard_unavailable("clipboard is empty");
    assert_eq!(
        texts(&appended(&effects)),
        ["no image on the clipboard (clipboard is empty); attach a file with /image <path>"]
    );
    assert!(app.attachments().is_empty());
}

#[test]
fn state_verbose_command_matches_the_toggle_chord() {
    let mut app = app();
    let lines = appended(&run(&mut app, "/verbose"));
    assert_eq!(lines[1].text, "info level: verbose");
    assert_eq!(app.level(), InfoLevel::Verbose);
    app.act(Action::ToggleLevel);
    assert_eq!(app.level(), InfoLevel::Default);
}

#[test]
fn state_status_and_config_go_through_the_host() {
    let mut app = app();
    assert_eq!(
        host_requests(&run(&mut app, "/status")),
        vec![HostRequest::ShowStatus]
    );
    assert_eq!(
        host_requests(&run(&mut app, "/config")),
        vec![HostRequest::ShowConfig]
    );
}

#[test]
fn state_quit_leaves_immediately_when_idle() {
    let mut app = app();
    assert!(run(&mut app, "/quit").contains(&Effect::Quit));
}

#[test]
fn state_anything_between_two_quits_disarms_the_running_turn_exit() {
    let mut app = app();
    app.set_busy(true, 0);
    run(&mut app, "/quit");
    app.act(Action::InsertChar('x'));
    app.act(Action::Backspace);
    let effects = run(&mut app, "/quit");
    assert!(!effects.contains(&Effect::Quit), "it asks again");
}

#[test]
fn tab_without_a_slash_does_nothing() {
    let mut app = app();
    type_text(&mut app, "plain");
    app.act(Action::Complete);
    assert_eq!(app.input.text(), "plain");
    assert!(app.command_menu_frame(80, 10).is_none());
}

#[test]
fn state_the_picker_moves_the_selection_and_loads_previews_lazily() {
    let mut app = app();
    app.open_picker(vec![PickerEntry::untitled("s-1"), PickerEntry::untitled("s-2")]);
    assert_eq!(app.claim_preview(), Some("s-1".to_owned()));

    let effects = app.act(Action::MoveDown);
    assert_eq!(
        host_requests(&effects),
        vec![HostRequest::LoadPreview("s-2".to_owned())]
    );
    assert!(
        app.act(Action::MoveDown).is_empty(),
        "the last entry does not move"
    );
    let effects = app.act(Action::MoveUp);
    assert!(
        host_requests(&effects).is_empty(),
        "s-1 was already claimed"
    );
}

#[test]
fn state_the_picker_switches_on_enter_and_closes_on_escape() {
    let mut app = app();
    app.open_picker(vec![PickerEntry::untitled("s-1"), PickerEntry::untitled("s-2")]);
    app.act(Action::MoveDown);
    assert_eq!(
        host_requests(&app.act(Action::Submit)),
        vec![HostRequest::SwitchSession("s-2".to_owned())]
    );
    assert!(app.picker().is_none(), "Enter closes the overlay");

    app.open_picker(vec![PickerEntry::untitled("s-1")]);
    assert!(app.act(Action::Escape).is_empty());
    assert!(app.picker().is_none());
}

#[test]
fn state_the_picker_refuses_to_switch_while_a_turn_runs() {
    let mut app = app();
    app.set_busy(true, 0);
    app.open_picker(vec![PickerEntry::untitled("s-1")]);
    let effects = app.act(Action::Submit);
    assert!(host_requests(&effects).is_empty());
    assert_eq!(appended(&effects)[0].kind, LineKind::Error);
    assert!(app.picker().is_some(), "the overlay stays open");
}

#[test]
fn state_the_picker_does_not_type_into_the_input() {
    let mut app = app();
    app.open_picker(vec![PickerEntry::untitled("s-1")]);
    app.act(Action::InsertChar('x'));
    app.on_paste("pasted");
    assert!(app.input.is_empty());
}

#[test]
fn state_approval_answers_are_binary_and_echoed() {
    let mut app = app();
    app.sync_confirmation(Some(prompt(1, "run_command")));
    let effects = app.act(Action::InsertChar('y'));
    assert_eq!(appended(&effects)[0].text, "allowed: run_command");
    assert_eq!(
        host_requests(&effects),
        vec![HostRequest::Respond(
            1,
            ConfirmationDecision::Allow
        )]
    );
    assert!(app.confirm_prompt().is_none());

    for (index, action) in [Action::InsertChar('n'), Action::Escape, Action::CtrlC]
        .into_iter()
        .enumerate()
    {
        let id = index as u64 + 2;
        app.sync_confirmation(Some(prompt(id, "write_file")));
        let effects = app.act(action);
        assert_eq!(appended(&effects)[0].text, "denied: write_file");
        assert_eq!(
            host_requests(&effects),
            vec![HostRequest::Respond(id, ConfirmationDecision::Deny)]
        );
    }
}

#[test]
fn state_an_auto_denied_request_closes_the_overlay() {
    let mut app = app();
    app.sync_confirmation(Some(prompt(1, "run_command")));
    assert!(app.overlay_frame(4).is_some());
    // The channel denied everything when the operation settled.
    app.sync_confirmation(None);
    assert!(app.confirm_prompt().is_none());
    assert!(app.overlay_frame(4).is_none());
}

#[test]
fn state_ctrl_c_clears_nonempty_input_first() {
    let mut app = app();
    type_text(&mut app, "draft");
    assert!(app.act(Action::CtrlC).is_empty());
    assert!(app.input.is_empty());
}

#[test]
fn state_ctrl_c_twice_quits_when_idle_and_empty() {
    let mut app = app();
    let first = app.act(Action::CtrlC);
    assert!(appended(&first)[0].text.contains("again to exit"));
    assert_eq!(app.act(Action::CtrlC), vec![Effect::Quit]);
}

#[test]
fn state_any_other_key_disarms_the_exit() {
    let mut app = app();
    app.act(Action::CtrlC);
    app.act(Action::InsertChar('x'));
    app.act(Action::Backspace);
    let effects = app.act(Action::CtrlC);
    let Effect::Append(_) = &effects[0] else {
        panic!("re-armed, not quit");
    };
}

#[test]
fn state_escape_cancels_only_while_busy() {
    let mut app = app();
    assert!(app.act(Action::Escape).is_empty());
    app.set_busy(true, 0);
    assert_eq!(app.act(Action::Escape), vec![Effect::CancelActive]);
}

#[test]
fn state_ctrl_d_quits_only_on_empty_input() {
    let mut app = app();
    type_text(&mut app, "x");
    assert!(app.act(Action::CtrlD).is_empty());
    app.act(Action::Backspace);
    assert_eq!(app.act(Action::CtrlD), vec![Effect::Quit]);
}

#[test]
fn state_toggle_level_flips_and_reports() {
    let mut app = app();
    assert_eq!(app.level(), InfoLevel::Default);
    app.act(Action::ToggleLevel);
    assert_eq!(app.level(), InfoLevel::Verbose);
    assert_eq!(app.status.level, InfoLevel::Verbose);
}

#[test]
fn usage_events_update_the_status_bar() {
    let mut app = app();
    let usage = FrontendTokenUsage {
        input_tokens: Some(5),
        output_tokens: Some(7),
        cache_read_tokens: None,
        reasoning_tokens: None,
    };
    app.on_operation_event(
        &FrontendOperationEvent::ModelUsageUpdated { model_call_id: "m-1".to_owned(), usage },
        0,
    );
    assert_eq!(app.status.usage, Some(usage));
}

#[test]
fn state_help_snapshot() {
    let mut app = app();
    let mut expected = vec!["/help".to_owned()];
    expected.extend(command::help_lines());
    assert_eq!(texts(&appended(&run(&mut app, "/help"))), expected);
}

#[test]
fn actions_append_what_their_effects_name() {
    let mut app = app();
    let mut expected = Vec::new();
    for text in ["/help", "/verbose", "/image a.png", "/nope"] {
        let effects = run(&mut app, text);
        expected.extend(appended(&effects));
        assert_eq!(app.cells.cells(), &expected);
    }
    app.act(Action::EnterBrowse);
    app.act(Action::BrowseToggleFold);
    assert_eq!(app.cells.cells(), &expected);
}

#[test]
fn the_status_line_agrees_with_the_state() {
    let mut app = app();
    run(&mut app, "/compact");
    assert!(app.status.compacting && app.manual_compacting);
    run(&mut app, "/verbose");
    assert_eq!(app.status.level, app.level());
    app.set_busy(false, 0);
    assert_eq!(app.status.compacting, app.manual_compacting || app.automatic_compacting);
}
