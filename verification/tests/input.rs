use philo_tui::app::input::{InputEditor, InputHistory};

#[test]
fn editing_round_trip_with_multibyte_chars() {
    let mut editor = InputEditor::new();
    editor.insert_str("héllo");
    editor.move_left();
    editor.backspace();
    editor.insert_char('中');
    assert_eq!(editor.text(), "hél中o");
}

#[test]
fn newline_split_and_join() {
    let mut editor = InputEditor::new();
    editor.insert_str("ab");
    editor.move_left();
    editor.insert_newline();
    assert_eq!(editor.lines(), ["a", "b"]);
    assert_eq!(editor.cursor(), (1, 0));
    editor.backspace();
    assert_eq!(editor.text(), "ab");
    assert_eq!(editor.cursor(), (0, 1));
}

#[test]
fn vertical_movement_uses_terminal_cells() {
    let mut editor = InputEditor::new();
    editor.insert_str("中文x\nabcdef\n中y");
    editor.home();
    editor.move_right();
    assert_eq!(editor.cursor_cell(), 2);
    assert!(editor.move_up());
    assert_eq!(editor.cursor(), (1, 2));
    assert!(editor.move_up());
    assert_eq!(editor.cursor(), (0, 1));
}

#[test]
fn combining_and_emoji_sequences_move_and_delete_as_graphemes() {
    let mut editor = InputEditor::new();
    editor.insert_str("Ae\u{301}👩‍💻中");
    assert_eq!(editor.cursor(), (0, 4));
    editor.move_left();
    editor.backspace();
    assert_eq!(editor.text(), "Ae\u{301}中");
    editor.backspace();
    assert_eq!(editor.text(), "A中");
    editor.backspace();
    assert_eq!(editor.text(), "中");
}

#[test]
fn delete_never_splits_a_grapheme() {
    let mut editor = InputEditor::new();
    editor.insert_str("e\u{301}👨‍👩‍👧‍👦x");
    editor.home();
    editor.delete();
    assert_eq!(editor.text(), "👨‍👩‍👧‍👦x");
    editor.delete();
    assert_eq!(editor.text(), "x");
}

#[test]
fn paste_filters_terminal_control_characters() {
    let mut editor = InputEditor::new();
    editor.insert_str("a\u{1b}[31m\tb\r\nc");
    assert_eq!(editor.text(), "a[31mb\nc");
}

#[test]
fn a_break_and_an_erase_cancel_out() {
    let mut editor = InputEditor::new();
    editor.insert_str("left right");
    for _ in 0..5 {
        editor.move_left();
    }
    editor.insert_newline();
    assert_eq!(editor.text(), "left \nright");
    editor.backspace();
    assert_eq!(editor.text(), "left right");
    editor.insert_newline();
    editor.move_left();
    editor.delete();
    assert_eq!(editor.text(), "left right");
}

#[test]
fn the_cursor_counts_bytes_too() {
    let mut editor = InputEditor::new();
    editor.insert_str("é中x");
    assert_eq!(editor.cursor_byte(), (0, 6));
    editor.move_left();
    assert_eq!(editor.cursor_byte(), (0, 5));
    assert!(!editor.at_line_end());
    editor.home();
    assert!(editor.at_line_start());
}

#[test]
fn recall_returns_to_the_draft() {
    let mut history = InputHistory::new();
    history.push("one".to_owned());
    history.push("two".to_owned());
    assert_eq!(history.prev("draft").as_deref(), Some("two"));
    assert_eq!(history.prev("two").as_deref(), Some("one"));
    assert_eq!(history.prev("one").as_deref(), Some("one"));
    assert_eq!(history.next().as_deref(), Some("two"));
    assert_eq!(history.next().as_deref(), Some("draft"));
    assert_eq!(history.next(), None);
}

#[test]
fn typing_never_leaves_the_cursor_inside_a_grapheme() {
    let mut editor = InputEditor::new();
    editor.set_text("\u{301}x");
    editor.home();
    editor.insert_char('e');
    assert_eq!(editor.text(), "e\u{301}x");
    assert_eq!(editor.cursor_byte(), (0, 3));
    editor.insert_char('y');
    assert_eq!(editor.text(), "e\u{301}yx");

    // Pasted text stays in one piece.
    editor.set_text("\u{301}x");
    editor.home();
    editor.insert_str("ab");
    assert_eq!(editor.text(), "ab\u{301}x");
    assert_eq!(editor.cursor_byte(), (0, 4));
}

#[test]
fn removing_text_never_leaves_the_cursor_inside_a_grapheme() {
    // Two regional indicators join to a flag once nothing is between them.
    let mut editor = InputEditor::new();
    editor.set_text("🇩x🇪");
    editor.move_left();
    editor.backspace();
    assert_eq!(editor.text(), "🇩🇪");
    assert_eq!(editor.cursor_byte(), (0, 8));

    editor.set_text("🇩\n🇪");
    editor.home();
    editor.backspace();
    assert_eq!(editor.lines(), ["🇩🇪"]);
    assert_eq!(editor.cursor_byte(), (0, 8));

    editor.set_text("🇩x🇪");
    editor.home();
    editor.move_right();
    editor.delete();
    assert_eq!(editor.text(), "🇩🇪");
    assert_eq!(editor.cursor_byte(), (0, 8));
}

#[test]
fn right_undoes_left() {
    let mut editor = InputEditor::new();
    editor.set_text("ae\u{301}\n👩\u{200d}👩\u{200d}👧z");
    loop {
        let before = editor.cursor_byte();
        if before == (0, 0) {
            break;
        }
        editor.move_left();
        let left = editor.cursor_byte();
        editor.move_right();
        assert_eq!(editor.cursor_byte(), before);
        editor.move_left();
        assert_eq!(editor.cursor_byte(), left);
    }
}
