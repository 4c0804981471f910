use philo_tui::app::frontend::FrontendToolResult;
use philo_tui::app::session::{
    history_lines, message_lines, preview_lines, preview_text_lines, tool_call_cards, CardRequest,
    DurableSessionView, FrontendAssistantBlock, FrontendContextMessage, FrontendToolResultOutcome,
    FrontendUserPart, ReplayRow, ReplayStep, RowBody,
};
use philo_tui::app::transcript;
use philo_tui::app::transcript::{CardHeader, LineKind, SegColor, TranscriptLine};

fn view(messages: Vec<FrontendContextMessage>) -> DurableSessionView {
    DurableSessionView {
        session_id: "s".to_owned(),
        title: None,
        revision: 1,
        messages,
        open_turns: Vec::new(),
        settled_turn_boundaries: Vec::new(),
        latest_compaction_boundary: None,
        usage: None,
        generation: None,
    }
}

fn call(id: &str, name: &str, arguments: &str) -> FrontendAssistantBlock {
    FrontendAssistantBlock::ToolCall {
        id: id.to_owned(),
        name: name.to_owned(),
        arguments: arguments.to_owned(),
    }
}

fn calls(blocks: Vec<FrontendAssistantBlock>) -> FrontendContextMessage {
    FrontendContextMessage::AssistantToolCalls { blocks, tool_batch_id: "b".to_owned() }
}

fn result(id: &str, outcome: FrontendToolResultOutcome) -> FrontendContextMessage {
    FrontendContextMessage::ToolResult { tool_call_id: id.to_owned(), outcome }
}

fn success(content: &str) -> FrontendToolResultOutcome {
    FrontendToolResultOutcome::Success { content: content.to_owned() }
}

fn error(code: &str, message: &str) -> FrontendToolResultOutcome {
    FrontendToolResultOutcome::Error { code: code.to_owned(), message: message.to_owned() }
}

fn lines(steps: &[ReplayStep]) -> Vec<&TranscriptLine> {
    steps
        .iter()
        .filter_map(|step| match step {
            ReplayStep::Line(line) => Some(line),
            _ => None,
        })
        .collect()
}

fn cards(steps: &[ReplayStep]) -> Vec<&CardRequest> {
    steps
        .iter()
        .filter_map(|step| match step {
            ReplayStep::Card(card) => Some(card),
            _ => None,
        })
        .collect()
}

/// A row as the renderer shows it when nothing has to be cut.
fn shown(row: &ReplayRow) -> String {
    let text = match &row.body {
        RowBody::Whole(text) | RowBody::Arguments(text) => text,
        RowBody::Excerpt { text, .. } => text,
    };
    format!("{}{}", row.prefix, text)
}

fn session_view() -> DurableSessionView {
    view(vec![
        FrontendContextMessage::User {
            parts: vec![FrontendUserPart::Text("count the files".to_owned())],
        },
        calls(vec![call("call-1", "read_file", "src/main.rs")]),
        result("call-1", success("fn main() {}")),
        FrontendContextMessage::Assistant {
            blocks: vec![FrontendAssistantBlock::Text { text: "one file".to_owned() }],
        },
    ])
}

#[test]
fn history_renders_user_assistant_and_tool_cards() {
    let steps = history_lines(&session_view());
    let ReplayStep::UserBlock(rows) = &steps[0] else {
        panic!("the user message comes first");
    };
    let texts: Vec<String> = rows.iter().map(shown).collect();
    let user_texts: Vec<String> =
        transcript::user_block(&texts).into_iter().map(|line| line.text).collect();
    assert_eq!(user_texts, ["", "count the files", ""]);
    let answer_texts: Vec<&str> = lines(&steps)
        .into_iter()
        .filter(|line| line.kind == LineKind::Answer)
        .map(|line| line.text.as_str())
        .collect();
    assert_eq!(answer_texts, ["one file"]);
    assert_eq!(
        cards(&steps),
        [&CardRequest::Settled {
            tool_name: "read_file".to_owned(),
            arguments: "src/main.rs".to_owned(),
            result: FrontendToolResult::Success { content: "fn main() {}".to_owned() },
            derive_display: true,
        }]
    );
}

#[test]
fn session_images_render_as_placeholder_text() {
    let steps = history_lines(&view(vec![FrontendContextMessage::User {
        parts: vec![
            FrontendUserPart::Text("look at this".to_owned()),
            FrontendUserPart::Image { media_type: "image/png".to_owned(), bytes: vec![0; 4] },
        ],
    }]));
    let ReplayStep::UserBlock(rows) = &steps[0] else {
        panic!("one user block");
    };
    let rows: Vec<String> = rows.iter().map(shown).collect();
    let texts: Vec<String> =
        transcript::user_block(&rows).into_iter().map(|line| line.text).collect();
    assert_eq!(texts, ["", "look at this", "[image image/png, 4 bytes]", ""]);
}

#[test]
fn tool_batch_renders_text_and_calls_in_block_order() {
    let steps = tool_call_cards(
        &vec![
            FrontendAssistantBlock::Text { text: "let me look\nthen call".to_owned() },
            call("c", "read", "{\"path\":\"src/main.rs\"}"),
            FrontendAssistantBlock::Text { text: "after".to_owned() },
        ],
        &vec![],
    );
    let answer_texts: Vec<&str> = lines(&steps)
        .into_iter()
        .filter(|line| line.kind == LineKind::Answer)
        .map(|line| line.text.as_str())
        .collect();
    assert_eq!(answer_texts, ["let me look\nthen call", "after"]);
    assert_eq!(cards(&steps).len(), 1, "one tool call renders one card");
    assert!(matches!(&steps[1], ReplayStep::Card(_)), "in its place");
    assert_eq!(
        cards(&steps)[0],
        &CardRequest::Settled {
            tool_name: "read".to_owned(),
            arguments: "{\"path\":\"src/main.rs\"}".to_owned(),
            result: FrontendToolResult::Success { content: String::new() },
            derive_display: false,
        }
    );
}

#[test]
fn compacted_history_marks_the_summary_as_prior_context() {
    let steps = message_lines(&FrontendContextMessage::Summary {
        text: "earlier request\nearlier answer".to_owned(),
    });
    assert_eq!(
        steps,
        [
            ReplayStep::Line(transcript::line(LineKind::Meta, "[summary] earlier request")),
            ReplayStep::Line(transcript::line(LineKind::Meta, "[summary] earlier answer")),
        ]
    );
}

#[test]
fn session_preview_truncates_with_a_marker() {
    let texts: Vec<String> = preview_text_lines(&session_view()).iter().map(shown).collect();
    assert_eq!(
        texts,
        [
            "count the files",
            "▸ read_file  src/main.rs",
            "  └ ok · fn main() {}",
            "one file",
        ]
    );
    let rows: Vec<String> = preview_lines(&texts, 2).iter().map(shown).collect();
    assert_eq!(rows, ["count the files".to_owned(), "...".to_owned()]);
    let empty = preview_text_lines(&view(vec![]));
    assert!(empty.is_empty());
    let rows: Vec<String> = preview_lines(&vec![], 4).iter().map(shown).collect();
    assert_eq!(rows, ["(empty session)".to_owned()]);
}

#[test]
fn error_outcome_renders_a_red_failed_card() {
    let steps = history_lines(&view(vec![
        calls(vec![call("c", "read", "{\"path\":\"missing\"}")]),
        result("c", error("not_found", "no such file")),
    ]));
    assert_eq!(
        cards(&steps),
        [&CardRequest::Settled {
            tool_name: "read".to_owned(),
            arguments: "{\"path\":\"missing\"}".to_owned(),
            result: FrontendToolResult::Error {
                code: "not_found".to_owned(),
                message: "no such file".to_owned(),
            },
            derive_display: false,
        }]
    );
}

#[test]
fn cancelled_outcome_renders_a_red_cancelled_card() {
    let steps = history_lines(&view(vec![
        calls(vec![call("c", "read", "{\"path\":\"x\"}")]),
        result("c", FrontendToolResultOutcome::Cancelled),
    ]));
    assert_eq!(
        cards(&steps),
        [&CardRequest::Stopped {
            tool_name: "read".to_owned(),
            arguments: "{\"path\":\"x\"}".to_owned(),
            status: "✗ cancelled".to_owned(),
        }]
    );
}

#[test]
fn interrupted_outcome_renders_a_red_interrupted_card() {
    let steps = history_lines(&view(vec![
        calls(vec![call("c", "shell", "{\"command\":\"x\"}")]),
        result("c", FrontendToolResultOutcome::Interrupted),
    ]));
    assert_eq!(
        cards(&steps),
        [&CardRequest::Stopped {
            tool_name: "shell".to_owned(),
            arguments: "{\"command\":\"x\"}".to_owned(),
            status: "✗ interrupted".to_owned(),
        }]
    );
}

fn parent(steps: &[ReplayStep]) -> &CardHeader {
    let ReplayStep::Line(first) = &steps[0] else {
        panic!("the parent comes first");
    };
    first.header.as_ref().expect("parent header")
}

#[test]
fn concurrent_batch_renders_a_tree_parent_followed_by_child_cards() {
    let steps = history_lines(&view(vec![
        calls(vec![
            call("c1", "read", "{\"path\":\"a\"}"),
            call("c2", "grep", "{\"pattern\":\"x\"}"),
        ]),
        result("c1", success("    1|a")),
        result("c2", success("a:1: x")),
    ]));
    assert_eq!(steps.len(), 3);
    let parent = parent(&steps);
    assert_eq!(parent.action.text, "Parallel Task (2 operations)");
    assert_eq!(parent.status.text, "✓ done");
    assert_eq!(parent.status.color, SegColor::Green);
    let names: Vec<&str> = cards(&steps)
        .into_iter()
        .map(|card| match card {
            CardRequest::Settled { tool_name, .. } => tool_name.as_str(),
            CardRequest::Stopped { tool_name, .. } => tool_name.as_str(),
        })
        .collect();
    assert_eq!(names, ["read", "grep"]);
}

#[test]
fn concurrent_batch_with_one_failure_marks_the_parent_failed() {
    let steps = history_lines(&view(vec![
        calls(vec![
            call("c1", "read", "{\"path\":\"a\"}"),
            call("c2", "read", "{\"path\":\"b\"}"),
        ]),
        result("c1", success("ok")),
        result("c2", error("not_found", "missing")),
    ]));
    let parent = parent(&steps);
    assert_eq!(parent.action.text, "Parallel Task (2 operations)");
    assert_eq!(parent.status.text, "✗ failed");
    assert_eq!(parent.status.color, SegColor::Red);
}

#[test]
fn the_last_result_of_a_call_counts() {
    let steps = history_lines(&view(vec![
        calls(vec![call("c", "read", "{}")]),
        result("c", FrontendToolResultOutcome::Cancelled),
        result("c", success("again")),
    ]));
    assert_eq!(
        cards(&steps),
        [&CardRequest::Settled {
            tool_name: "read".to_owned(),
            arguments: "{}".to_owned(),
            result: FrontendToolResult::Success { content: "again".to_owned() },
            derive_display: true,
        }]
    );
}
