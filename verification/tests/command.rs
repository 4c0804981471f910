use philo_tui::app::command::{
    candidates, commands, help_lines, parse, parse_reasoning, reasoning_name, Command,
};
use philo_tui::app::frontend::FrontendReasoningEffort;

#[test]
fn the_table_is_the_contract_vocabulary() {
    let names: Vec<&str> = commands().iter().map(|spec| spec.name).collect();
    assert_eq!(
        names,
        [
            "help",
            "new",
            "sessions",
            "rename",
            "model",
            "reasoning",
            "compact",
            "image",
            "verbose",
            "status",
            "config",
            "quit",
        ],
        "extending the command table is a contract change"
    );
}

#[test]
fn every_command_parses() {
    assert_eq!(parse("/help"), Ok(Command::Help));
    assert_eq!(parse("/new"), Ok(Command::New));
    assert_eq!(parse("/sessions"), Ok(Command::Sessions));
    assert_eq!(
        parse("/rename auth deep dive"),
        Ok(Command::Rename {
            title: Some("auth deep dive".to_owned())
        })
    );
    assert_eq!(parse("/rename"), Ok(Command::Rename { title: None }));
    assert_eq!(
        parse("/model gpt-test"),
        Ok(Command::Model {
            name: Some("gpt-test".to_owned())
        })
    );
    assert_eq!(parse("/model"), Ok(Command::Model { name: None }));
    assert_eq!(
        parse("/reasoning high"),
        Ok(Command::Reasoning {
            level: Some("high".to_owned())
        })
    );
    assert_eq!(parse("/compact"), Ok(Command::Compact));
    assert_eq!(
        parse("/image  a b/c.png "),
        Ok(Command::Image {
            path: Some("a b/c.png".to_owned())
        }),
        "paths keep their inner spaces"
    );
    assert_eq!(parse("/verbose"), Ok(Command::Verbose));
    assert_eq!(parse("/status"), Ok(Command::Status));
    assert_eq!(parse("/config"), Ok(Command::Config));
    assert_eq!(parse("/quit"), Ok(Command::Quit));
}

#[test]
fn unknown_words_report_themselves() {
    let error = parse("/nope please").expect_err("not in the table");
    assert_eq!(error.word(), "nope");
}

#[test]
fn completion_matches_the_word_only() {
    let names = |input: &str| {
        candidates(input)
            .iter()
            .map(|spec| spec.name)
            .collect::<Vec<_>>()
    };
    assert_eq!(names("/").len(), commands().len());
    assert_eq!(names("/s"), ["sessions", "status"]);
    assert_eq!(names("/se"), ["sessions"]);
    assert!(names("/zzz").is_empty());
    assert!(
        names("/model gpt").is_empty(),
        "arguments are not completed"
    );
    assert!(names("plain text").is_empty());
}

#[test]
fn reasoning_levels_map_onto_the_frontend_vocabulary() {
    assert_eq!(parse_reasoning("HIGH"), Some(FrontendReasoningEffort::High));
    assert_eq!(
        parse_reasoning("XHIGH"),
        Some(FrontendReasoningEffort::Xhigh)
    );
    assert_eq!(
        parse_reasoning(" max "),
        Some(FrontendReasoningEffort::Max)
    );
    assert_eq!(parse_reasoning("turbo"), None);
    assert_eq!(reasoning_name(FrontendReasoningEffort::Xhigh), "xhigh");
}

#[test]
fn every_effort_reads_back() {
    for effort in [
        FrontendReasoningEffort::Minimal,
        FrontendReasoningEffort::Low,
        FrontendReasoningEffort::Medium,
        FrontendReasoningEffort::High,
        FrontendReasoningEffort::Xhigh,
        FrontendReasoningEffort::Max,
    ] {
        assert_eq!(parse_reasoning(reasoning_name(effort)), Some(effort));
    }
}

#[test]
fn help_names_every_command() {
    let lines = help_lines();
    for spec in commands() {
        assert!(lines.iter().any(|line| line.contains(spec.usage) && line.contains(spec.summary)));
    }
}
