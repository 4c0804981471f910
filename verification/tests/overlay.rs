use philo_tui::app::overlay::{
    lowered_matches, ConfirmPrompt, OverlayRow, Picker, PickerEntry, Preview,
};

fn picker() -> Picker {
    Picker::new(
        "Sessions",
        false,
        vec![
            PickerEntry::untitled("s-1"),
            PickerEntry::untitled("s-2"),
            PickerEntry::untitled("s-3"),
        ],
    )
}

#[test]
fn previews_are_claimed_once_per_session() {
    let mut picker = picker();
    assert_eq!(picker.claim_preview(), Some("s-1".to_owned()));
    assert_eq!(picker.claim_preview(), None, "already loading");
    picker.set_preview("s-1", Preview::Ready(vec!["hello".to_owned()]));
    assert_eq!(picker.claim_preview(), None, "already loaded");
    assert!(picker.move_down());
    assert_eq!(picker.claim_preview(), Some("s-2".to_owned()));
}

#[test]
fn selection_clamps_at_both_ends() {
    let mut picker = picker();
    assert!(!picker.move_up(), "already at the top");
    assert!(picker.move_down());
    assert!(picker.move_down());
    assert!(!picker.move_down(), "already at the bottom");
    assert_eq!(picker.selected(), "s-3");
}

#[test]
fn the_window_follows_the_selection() {
    let mut picker = picker();
    picker.move_down();
    picker.move_down();
    // 7 outer rows: borders + blank padding + footer + two entry rows.
    let frame = picker.frame(7);
    let OverlayRow::Entry { primary, .. } = &frame.body[1].row else {
        panic!("entry row expected: {frame:?}");
    };
    assert!(primary.contains("s-2"), "{frame:?}");
    assert!(!frame.body[1].selected);
    assert!(frame.body[2].selected);
}

#[test]
fn session_picker_frame_snapshot() {
    let mut picker = Picker::new(
        "Sessions",
        false,
        vec![
            PickerEntry {
                id: "s-flaky".to_owned(),
                primary: "fix the flaky test on windows".to_owned(),
                secondary: "now".to_owned(),
                group: String::new(),
                marked: true,
                tiers: Vec::new(),
            },
            PickerEntry::untitled("s-auth").with_secondary("3m"),
            PickerEntry::untitled("s-image").with_secondary("2d"),
        ],
    );
    picker.claim_preview();
    picker.set_preview(
        "s-flaky",
        Preview::Ready(vec![
            "last: refactor the auth middleware to…".to_owned(),
            "one file".to_owned(),
        ]),
    );
    assert_eq!(
        picker.frame(11).to_text(),
        [
            "╭─ Sessions · 1/3 ─────────────────────────────────────────────────────────────────────╮",
            "│                                                                                      │",
            "│ › fix the flaky test on windows                                                  now │",
            "│     last: refactor the auth middleware to…                                           │",
            "│     one file                                                                         │",
            "│   s-auth                                                                          3m │",
            "│   s-image                                                                         2d │",
            "│                                                                                      │",
            "│                                                                                      │",
            "│ enter select · ↑↓ move · type filter · esc close                                     │",
            "╰──────────────────────────────────────────────────────────────────────────────────────╯",
        ]
        .join("\n")
    );
}

#[test]
fn model_picker_groups_providers_and_marks_current() {
    let picker = Picker::new(
        "Models",
        true,
        vec![
            PickerEntry {
                id: "anthropic/sonnet-4-5".to_owned(),
                primary: "sonnet-4-5".to_owned(),
                secondary: "current".to_owned(),
                group: "anthropic".to_owned(),
                marked: true,
                tiers: Vec::new(),
            },
            PickerEntry {
                id: "openai/gpt-5.2".to_owned(),
                primary: "gpt-5.2".to_owned(),
                secondary: String::new(),
                group: "openai".to_owned(),
                marked: false,
                tiers: Vec::new(),
            },
        ],
    );
    let frame = picker.frame(12);
    assert!(
        frame.body.iter().any(
            |line| matches!(&line.row, OverlayRow::Group(name) if name.contains("ANTHROPIC"))
        ),
        "provider groups render as small caps: {frame:?}"
    );
    let marked = frame
        .body
        .iter()
        .find(|line| line.selected)
        .map(|line| &line.row)
        .expect("an entry is selected");
    match marked {
        OverlayRow::Entry { tail, .. } => {
            assert!(tail.trim_end().ends_with("current"), "{marked:?}");
        }
        other => panic!("entry row expected, got {other:?}"),
    }
    assert_eq!(
        frame.to_text(),
        [
            "╭─ Models · 1/2 ───────────────────────────────────────────────────────────────────────╮",
            "│                                                                                      │",
            "│   ANTHROPIC                                                                          │",
            "│ › sonnet-4-5                                                                 current │",
            "│   OPENAI                                                                             │",
            "│   gpt-5.2                                                                            │",
            "│                                                                                      │",
            "│                                                                                      │",
            "│                                                                                      │",
            "│                                                                                      │",
            "│ enter select · tab reasoning · ↑↓ move · type filter · esc close                     │",
            "╰──────────────────────────────────────────────────────────────────────────────────────╯",
        ]
        .join("\n")
    );
}

#[test]
fn failed_preview_renders_the_error_in_the_pane() {
    let mut picker = picker();
    picker.claim_preview();
    picker.set_preview("s-1", Preview::Failed("store busy".to_owned()));
    let frame = picker.frame(8);
    assert!(
        format!("{:?}", frame.body).contains("preview unavailable: store busy"),
        "{frame:?}"
    );
}

fn model_picker() -> Picker {
    Picker::new(
        "Models",
        true,
        vec![
            PickerEntry {
                id: "openai/gpt-5.2".to_owned(),
                primary: "openai/gpt-5.2".to_owned(),
                secondary: String::new(),
                group: "openai".to_owned(),
                marked: false,
                tiers: vec![
                    "low".to_owned(),
                    "medium".to_owned(),
                    "high".to_owned(),
                    "xhigh".to_owned(),
                ],
            },
            PickerEntry {
                id: "deepseek/deepseek-chat".to_owned(),
                primary: "deepseek/deepseek-chat".to_owned(),
                secondary: "current".to_owned(),
                group: "deepseek".to_owned(),
                marked: true,
                tiers: Vec::new(),
            },
        ],
    )
}

#[test]
fn tier_level_toggles_with_a_middle_default_and_marks_current() {
    let mut picker = model_picker();
    assert!(!picker.in_tier_mode());

    // The tiered model under the initial highlight accepts the toggle
    // and lands on the middle tier (even counts take the upper median).
    assert_eq!(picker.selected(), "openai/gpt-5.2");
    assert!(picker.toggle_tier_mode());
    assert!(picker.in_tier_mode());
    let (id, tier) = picker.selected_tier().expect("tier under the cursor");
    assert_eq!(id, "openai/gpt-5.2");
    assert_eq!(tier, "high", "middle of [low, medium, high, xhigh]");
    assert!(!picker.selected_tier_is_current());

    // `tab` round-trips back to the models level, keeping the selection.
    assert!(picker.toggle_tier_mode());
    assert!(!picker.in_tier_mode());

    // A tier-less model refuses to enter the tier level.
    assert!(picker.move_down());
    assert_eq!(picker.selected(), "deepseek/deepseek-chat");
    assert!(!picker.toggle_tier_mode(), "no tiers on the highlight");

    // Tier navigation clamps at both ends.
    assert!(picker.move_up());
    assert!(picker.toggle_tier_mode());
    assert!(picker.move_tier(true), "moves up from the middle");
    assert_eq!(
        picker.selected_tier().expect("tier").1,
        "medium",
        "one step above the middle"
    );
    picker.jump_tier(false);
    assert!(!picker.move_tier(false), "already at the bottom");
    picker.jump_tier(true);
    assert!(!picker.move_tier(true), "already at the top");
}

#[test]
fn tier_level_marks_the_effective_effort() {
    let mut picker = model_picker();
    picker.set_current_effort(&Some("XHigh".to_owned()));
    assert!(picker.toggle_tier_mode());
    // The mark is case-insensitive on labels.
    while picker
        .selected_tier()
        .is_some_and(|(_, tier)| tier != "xhigh")
    {
        assert!(picker.move_tier(false));
    }
    assert!(picker.selected_tier_is_current());
}

#[test]
fn session_pickers_ignore_the_tier_toggle() {
    let mut picker = picker();
    assert!(!picker.toggle_tier_mode(), "sessions have no tiers");
    assert!(!picker.in_tier_mode());
}

#[test]
fn tier_frame_snapshot() {
    let mut picker = model_picker();
    picker.set_current_effort(&Some("medium".to_owned()));
    picker.toggle_tier_mode();
    assert_eq!(
        picker.frame(11).to_text(),
        [
            "╭─ Reasoning · openai/gpt-5.2 ─────────────────────────────────────────────────────────╮",
            "│                                                                                      │",
            "│   low                                                                                │",
            "│ • medium                                                                     current │",
            "│ › high                                                                               │",
            "│   xhigh                                                                              │",
            "│                                                                                      │",
            "│                                                                                      │",
            "│                                                                                      │",
            "│ enter confirm · tab models · ↑↓ move · esc back                                      │",
            "╰──────────────────────────────────────────────────────────────────────────────────────╯",
        ]
        .join("\n")
    );
}

#[test]
fn confirm_frame_snapshot() {
    let prompt = ConfirmPrompt::new(
        1,
        "run_command",
        "cargo test -p philo-tui\nworking directory: /repo",
    );
    assert_eq!(
        prompt.frame(9).to_text(),
        [
            "╭─ Approval required ──────╮",
            "│                          │",
            "│ run_command              │",
            "│ cargo test -p philo-tui  │",
            "│ working directory: /repo │",
            "│                          │",
            "│ y allow · n / esc deny   │",
            "╰──────────────────────────╯",
        ]
        .join("\n")
    );
}

#[test]
fn long_ids_truncate_to_fit_the_row() {
    let picker = Picker::new(
        "Sessions",
        false,
        vec![PickerEntry::untitled(
            "session-with-a-very-long-identifier-indeed",
        )],
    );
    // The 40-column cap includes the borders.
    let frame = picker.frame_for(7, 40);
    assert!(frame.width + 2 <= 40, "{frame:?}");
    let text_zone = frame.width - 2;
    assert!(
        frame
            .body
            .iter()
            .all(|line| line.row.fitted_width() <= text_zone),
        "{frame:?}"
    );
    let OverlayRow::Entry { primary, .. } = &frame.body[1].row else {
        panic!("entry row expected: {frame:?}");
    };
    assert!(
        primary.starts_with("session-with-a-very-long-ident"),
        "{primary}"
    );
}

#[test]
fn titled_sessions_render_the_title_in_the_column() {
    let mut picker = Picker::new(
        "Sessions",
        false,
        vec![
            PickerEntry {
                id: "sess-1982ab3-41".to_owned(),
                primary: "fix the login bug".to_owned(),
                secondary: "3h".to_owned(),
                group: String::new(),
                marked: true,
                tiers: Vec::new(),
            },
            PickerEntry::untitled("sess-1982cd7-42"),
        ],
    );
    picker.move_down();
    let frame = picker.frame(7);
    assert!(
        frame.body.iter().any(|line| line.selected
            && matches!(
                &line.row,
                OverlayRow::Entry { primary, .. } if primary.contains("sess-1982cd7-42")
            )),
        "{frame:?}"
    );
}

#[test]
fn narrow_picker_keeps_rows_within_cell_width() {
    let picker = Picker::new(
        "Sessions",
        false,
        vec![PickerEntry::untitled("中文-session-name")],
    );
    let frame = picker.frame_for(7, 20);
    assert!(
        frame
            .body
            .iter()
            .all(|line| line.row.fitted_width() <= frame.width - 2),
        "{frame:?}"
    );
}

#[test]
fn filtering_narrows_and_restores_selection_on_clearing() {
    let mut picker = picker();
    picker.move_down();
    picker.move_down();
    assert_eq!(picker.selected(), "s-3");
    for ch in "-2".chars() {
        picker.push_filter(ch);
    }
    assert_eq!(picker.selected(), "s-2", "kept the highlighted entry");
    picker.pop_filter();
    picker.pop_filter();
    assert_eq!(picker.selected(), "s-3", "selection restored");
}

#[test]
fn filtered_views_reset_to_top_when_the_entry_vanishes() {
    let mut picker = picker();
    picker.move_down();
    for ch in "-3".chars() {
        picker.push_filter(ch);
    }
    assert_eq!(picker.selected(), "s-3");
    picker.pop_filter();
    for ch in "-9".chars() {
        picker.push_filter(ch);
    }
    let frame = picker.frame(6);
    assert!(
        frame
            .body
            .iter()
            .any(|line| line.row == OverlayRow::Empty("no matches".to_owned())),
        "{frame:?}"
    );
}

#[test]
fn filters_ignore_case() {
    let mut picker = Picker::new(
        "Sessions",
        false,
        vec![PickerEntry::untitled("beta"), PickerEntry::untitled("Éclair")],
    );
    for ch in "éCL".chars() {
        picker.push_filter(ch);
    }
    assert_eq!(picker.selected(), "Éclair");
}

#[test]
fn group_names_are_raised() {
    let picker = Picker::new(
        "Models",
        true,
        vec![PickerEntry {
            id: "straße/x".to_owned(),
            primary: "x".to_owned(),
            secondary: String::new(),
            group: "straße".to_owned(),
            marked: false,
            tiers: Vec::new(),
        }],
    );
    let frame = picker.frame(8);
    assert!(frame
        .body
        .iter()
        .any(|line| matches!(&line.row, OverlayRow::Group(name) if name.contains("STRASSE"))));
}

fn of_ids(ids: &[&str]) -> Picker {
    Picker::new("Sessions", false, ids.iter().map(|id| PickerEntry::untitled(id)).collect())
}

fn of_groups(groups: &[(&str, &str)]) -> Picker {
    let entries = groups
        .iter()
        .map(|(id, group)| {
            let mut entry = PickerEntry::untitled(id);
            entry.group = (*group).to_owned();
            entry
        })
        .collect();
    Picker::new("Models", true, entries)
}

#[test]
fn a_filter_keeps_the_highlighted_entry_while_it_matches() {
    let mut picker = of_ids(&["a1", "b1", "b2"]);
    picker.move_down();
    picker.push_filter('b');
    assert_eq!(picker.selected(), "b1");
    picker.pop_filter();
    assert_eq!(picker.selected(), "b1");
}

#[test]
fn a_move_outlives_later_filter_edits() {
    let mut picker = picker();
    picker.push_filter('-');
    assert_eq!(picker.selected(), "s-1");
    picker.move_down();
    picker.pop_filter();
    assert_eq!(picker.selected(), "s-2");
}

#[test]
fn the_first_hidden_entry_is_restored_once() {
    let mut picker = of_ids(&["ax", "bx", "by"]);
    picker.push_filter('b');
    assert_eq!(picker.selected(), "bx", "the top where the entry is hidden");
    picker.push_filter('y');
    assert_eq!(picker.selected(), "by");
    picker.pop_filter();
    assert_eq!(picker.selected(), "by", "still hidden, so the current entry stays");
    picker.pop_filter();
    assert_eq!(picker.selected(), "ax");
    picker.move_down();
    picker.push_filter('x');
    picker.pop_filter();
    assert_eq!(picker.selected(), "bx", "a restored entry is not restored again");
}

#[test]
fn lowered_texts_match_anywhere() {
    assert!(lowered_matches("title", "now", "group", "id-7", ""));
    assert!(lowered_matches("title", "now", "group", "id-7", "itl"));
    assert!(lowered_matches("title", "now", "group", "id-7", "ow"));
    assert!(lowered_matches("title", "now", "group", "id-7", "roup"));
    assert!(lowered_matches("title", "now", "group", "id-7", "-7"));
    assert!(!lowered_matches("title", "now", "group", "id-7", "Title"));
}

#[test]
fn group_and_preview_rows_fit_the_zone() {
    let mut picker = picker();
    picker.claim_preview();
    picker.set_preview("s-1", Preview::Ready(vec!["x".repeat(60)]));
    let frame = picker.frame_for(10, 20);
    assert_eq!(frame.width, 18);
    assert!(frame
        .body
        .iter()
        .any(|line| line.row == OverlayRow::Detail("    xxxxxxxxx...".to_owned())));
    assert!(frame.body.iter().all(|line| line.row.fitted_width() <= 16), "{frame:?}");

    let frame = of_groups(&[("m", "a provider with a long name")]).frame_for(10, 14);
    assert!(frame
        .body
        .iter()
        .any(|line| line.row == OverlayRow::Group("  A PRO...".to_owned())));
    assert!(frame.body.iter().all(|line| line.row.fitted_width() <= 10), "{frame:?}");
}

#[test]
fn the_dialog_keeps_its_height_whatever_it_shows() {
    for height in 0usize..16 {
        let rows = height.saturating_sub(3).max(1);
        for count in 0..6 {
            let ids: Vec<String> = (0..count).map(|k| format!("e{k}")).collect();
            let ids: Vec<&str> = ids.iter().map(String::as_str).collect();
            let mut picker = of_ids(&ids);
            assert_eq!(picker.frame(height).body.len(), rows);
            picker.push_filter('e');
            assert_eq!(picker.frame(height).body.len(), rows, "a filter that matches");
            picker.push_filter('z');
            assert_eq!(picker.frame(height).body.len(), rows, "a filter that does not");
        }
    }
    let mut picker = of_ids(&["one"]);
    picker.push_filter('o');
    assert_eq!(picker.frame(10).body.len(), 7);
}

#[test]
fn the_highlighted_entry_is_always_in_view() {
    let groups = [("a", "x"), ("b", "x"), ("c", "y"), ("d", "z")];
    for height in 3..14 {
        for moves in 0..groups.len() {
            let mut picker = of_groups(&groups);
            for _ in 0..moves {
                picker.move_down();
            }
            let frame = picker.frame(height);
            let selected: Vec<&OverlayRow> =
                frame.body.iter().filter(|line| line.selected).map(|line| &line.row).collect();
            assert_eq!(selected.len(), 1, "{frame:?}");
            assert!(
                matches!(selected[0], OverlayRow::Entry { primary, .. }
                    if primary.trim() == picker.selected()),
                "{frame:?}"
            );
        }
    }
    let mut picker = of_groups(&[("a", "x"), ("b", "x"), ("c", "y")]);
    picker.move_down();
    picker.move_down();
    assert_eq!(picker.frame(8).body.iter().filter(|line| line.selected).count(), 1);
}

#[test]
fn an_empty_filter_shows_everything() {
    let mut picker = of_ids(&["b", "a", ""]);
    assert_eq!(picker.visible(), [0, 1, 2]);
    picker.push_filter('a');
    assert_eq!(picker.visible(), [1]);
    let copy = picker.clone();
    picker.pop_filter();
    assert_eq!(picker.visible(), [0, 1, 2]);
    assert_eq!(copy.visible(), [1]);
}
