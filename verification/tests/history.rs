use philo_tui::app::history::{
    history_lines, preview_lines, ContextMessage, HistoryLine, ToolCall,
};
use philo_tui::app::session::{FrontendToolResultOutcome, FrontendUserPart, RowBody};

fn shown_body(body: &RowBody) -> String {
    match body {
        RowBody::Whole(text) | RowBody::Arguments(text) => text.clone(),
        RowBody::Excerpt { text, .. } => text.clone(),
    }
}

fn shown(line: &HistoryLine) -> String {
    format!("{}{}{}", line.prefix, shown_body(&line.body), line.suffix)
}

fn session() -> Vec<ContextMessage> {
    vec![
        ContextMessage::User { parts: vec![FrontendUserPart::Text("count the files".to_owned())] },
        ContextMessage::AssistantToolCalls {
            calls: vec![ToolCall {
                name: "read_file".to_owned(),
                arguments: "{\"path\":\"src/main.rs\"}".to_owned(),
            }],
        },
        ContextMessage::ToolResult {
            outcome: FrontendToolResultOutcome::Success { content: "fn main() {}".to_owned() },
        },
        ContextMessage::Assistant { content: "one file".to_owned() },
    ]
}

#[test]
fn history_renders_user_assistant_and_tool_facts() {
    let rendered: Vec<String> = history_lines(&session())
        .iter()
        .map(|line| format!("{:?}: {}", line.kind, shown(line)))
        .collect();
    assert_eq!(
        rendered,
        [
            "User: > count the files",
            "Tool: tool read_file({\"path\":\"src/main.rs\"})",
            "Tool:   -> ok: fn main() {}",
            "Answer: one file",
        ]
    );
}

#[test]
fn history_images_render_as_placeholder_text() {
    let lines = history_lines(&vec![ContextMessage::User {
        parts: vec![
            FrontendUserPart::Text("look at this".to_owned()),
            FrontendUserPart::Image { media_type: "image/png".to_owned(), bytes: vec![0; 4] },
        ],
    }]);
    let texts: Vec<String> = lines.iter().map(shown).collect();
    assert_eq!(texts, ["> look at this", "> [image image/png, 4 bytes]"]);
}

#[test]
fn history_preview_truncates_with_a_marker() {
    let texts: Vec<String> = history_lines(&session()).iter().map(shown).collect();
    let rows: Vec<String> = preview_lines(&texts, 2).iter().map(shown_body).collect();
    assert_eq!(rows, ["> count the files".to_owned(), "...".to_owned()]);
    let rows: Vec<String> = preview_lines(&vec![], 4).iter().map(shown_body).collect();
    assert_eq!(rows, ["(empty session)".to_owned()]);
}

#[test]
fn outcomes_that_never_came_are_told() {
    let lines = history_lines(&vec![
        ContextMessage::ToolResult { outcome: FrontendToolResultOutcome::Cancelled },
        ContextMessage::ToolResult { outcome: FrontendToolResultOutcome::Interrupted },
        ContextMessage::ToolResult {
            outcome: FrontendToolResultOutcome::Error {
                code: "not_found".to_owned(),
                message: "missing".to_owned(),
            },
        },
    ]);
    let texts: Vec<String> = lines.iter().map(shown).collect();
    assert_eq!(
        texts,
        [
            "  -> cancelled (never executed)",
            "  -> interrupted (execution state unknown)",
            "  -> error not_found: missing",
        ]
    );
}
