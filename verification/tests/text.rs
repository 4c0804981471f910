use philo_tui::app::text::{
    ellipsize, pad, slice_columns, tail, tail_rows, truncate, truncate_mid, width, wrap,
    wrap_hanging, wrap_reasoning,
};

#[test]
fn truncation_and_tail_respect_terminal_cells_and_graphemes() {
    assert_eq!(truncate("ab中文cd", 7), "ab中...");
    assert_eq!(tail("ab中文cd", 7), "...文cd");
    assert_eq!(truncate("e\u{301}x", 1), "e\u{301}");
}

#[test]
fn padding_uses_cells_instead_of_scalar_count() {
    assert_eq!(pad("中", 4), "中  ");
    assert_eq!(width(&pad("中", 4)), 4);
}

#[test]
fn wrap_keeps_cjk_cells() {
    assert_eq!(wrap("中文ab", 4), ["中文", "ab"]);
    assert_eq!(slice_columns("中文ab", 0, 4), "中文");
    assert_eq!(slice_columns("中文ab", 2, 6), "文ab");
    assert_eq!(slice_columns("abc", 1, 1), "");
}

#[test]
fn wrap_hanging_keeps_tool_indent() {
    assert_eq!(wrap_hanging("  abcdefgh", 6), ["  abcd", "  efgh"]);
    assert_eq!(wrap_hanging("  └ abcdef", 8), ["  └ abcd", "    ef"]);
    assert_eq!(wrap_hanging("• abcdefgh", 6), ["• abcd", "  efgh"]);
    assert_eq!(wrap_hanging("+abcdefgh", 5), ["+ abc", "+ def", "+ gh"]);
    assert_eq!(wrap_hanging("-abcdefgh", 5), ["- abc", "- def", "- gh"]);
    assert_eq!(wrap_hanging("+ foo", 8), ["+ foo"]);
    assert_eq!(wrap_hanging("- old", 8), ["- old"]);
}

#[test]
fn wrap_reasoning_hangs_body_with_a_bar() {
    assert_eq!(wrap_reasoning("think", 20), ["think"]);
    assert_eq!(wrap_reasoning("  abcdefghijkl", 6), ["│ abcd", "│ efgh", "│ ijkl"]);
}

#[test]
fn widths_count_terminal_cells() {
    assert_eq!(width("abc"), 3);
    assert_eq!(width("中文"), 4);
    assert_eq!(width("e\u{301}"), 1);
    assert_eq!(width(""), 0);
}

#[test]
fn ellipses_keep_within_the_width() {
    assert_eq!(ellipsize("abcdef", 6), "abcdef");
    assert_eq!(ellipsize("abcdef", 4), "abc…");
    assert_eq!(ellipsize("中文字", 4), "中…");
    assert_eq!(truncate_mid("abcdefgh", 5), "ab…gh");
}

#[test]
fn a_straddling_cluster_counts_where_it_starts() {
    assert_eq!(slice_columns("中文ab", 1, 3), "文");
    assert_eq!(slice_columns("中文ab", 0, 1), "中");
}

#[test]
fn the_last_rows_of_a_text() {
    assert_eq!(tail_rows("abcdef", 2, 2), ["cd", "ef"]);
    assert_eq!(tail_rows("ab", 2, 5), ["ab"]);
}
