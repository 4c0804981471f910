use philo_tui::app::cells::{visible_slice, TranscriptStore, VisibleSlice};
use philo_tui::app::prose::style::ProjectedRow;
use philo_tui::app::cards::{project_body_line, project_card_header};
use philo_tui::app::scroll::{
    clamp_cursor, logical_index, move_cursor, position_at_index, ScrollState,
};
use philo_tui::app::text;
use philo_tui::app::transcript;
use philo_tui::app::transcript::{
    CardHeader, HeaderPiece, LineKind, SegColor, SegSpan, Tone, TranscriptLine,
};

fn meta(text: &str) -> TranscriptLine {
    transcript::line(LineKind::Meta, text)
}

/// Folds the run whose head is that cell.
fn folded_at(head: usize) -> Vec<bool> {
    (0..8).map(|cell| cell == head).collect()
}

fn texts(slice: &VisibleSlice) -> Vec<&str> {
    slice.rows.iter().map(|row| row.text.as_str()).collect()
}

fn row_texts(rows: &[ProjectedRow]) -> Vec<&str> {
    rows.iter().map(|row| row.text.as_str()).collect()
}

/// The v4.0 P3 re-skinned think header row.
fn is_think_header(text: &str) -> bool {
    text.starts_with("▎ Thought") && text.contains("按 Space 查看")
}

#[test]
fn follow_shows_the_tail() {
    let cells: Vec<_> = (0..10).map(|i| meta(&format!("row-{i}"))).collect();
    let scroll = ScrollState::follow();
    let slice = visible_slice(&cells, 80, 3, &scroll);
    assert_eq!(texts(&slice), ["row-7", "row-8", "row-9"]);
    assert_eq!(slice.total_rows, 10);
    assert!(slice.follow_bottom);
    assert!(slice.at_bottom);
    assert!(!slice.at_top);
}

#[test]
fn unfollow_keep_view_pins_the_current_tail_window() {
    let cells: Vec<_> = (0..10).map(|i| meta(&format!("row-{i}"))).collect();
    let mut scroll = ScrollState::follow();
    scroll.unfollow_keep_view(&cells, 80, 3);
    assert!(!scroll.follow_bottom());
    let slice = visible_slice(&cells, 80, 3, &scroll);
    assert_eq!(texts(&slice), ["row-7", "row-8", "row-9"]);
    assert!(!slice.follow_bottom);
}

#[test]
fn page_up_then_append_does_not_yank() {
    let mut cells: Vec<_> = (0..10).map(|i| meta(&format!("row-{i}"))).collect();
    let mut scroll = ScrollState::follow();
    scroll.scroll_rows(&cells, 80, 3, -3);
    let before = visible_slice(&cells, 80, 3, &scroll);
    assert_eq!(texts(&before), ["row-4", "row-5", "row-6"]);
    assert!(!scroll.follow_bottom());

    cells.push(meta("row-10"));
    cells.push(meta("row-11"));
    let after = visible_slice(&cells, 80, 3, &scroll);
    assert_eq!(texts(&after), ["row-4", "row-5", "row-6"]);
    assert!(!scroll.follow_bottom());
    assert!(!after.at_bottom);
}

#[test]
fn page_down_to_tail_restores_follow() {
    let cells: Vec<_> = (0..10).map(|i| meta(&format!("row-{i}"))).collect();
    let mut scroll = ScrollState::follow();
    scroll.scroll_rows(&cells, 80, 3, -3);
    assert!(!scroll.follow_bottom());
    scroll.scroll_rows(&cells, 80, 3, 3);
    scroll.scroll_rows(&cells, 80, 3, 3);
    assert!(scroll.follow_bottom());
    let slice = visible_slice(&cells, 80, 3, &scroll);
    assert_eq!(texts(&slice), ["row-7", "row-8", "row-9"]);
    assert!(slice.at_bottom);
}

#[test]
fn zero_width_or_height_yields_empty_rows() {
    let cells = vec![meta("hello")];
    let scroll = ScrollState::follow();
    let no_width = visible_slice(&cells, 0, 3, &scroll);
    assert!(no_width.rows.is_empty());
    assert_eq!(no_width.total_rows, 0);

    let no_height = visible_slice(&cells, 80, 0, &scroll);
    assert!(no_height.rows.is_empty());
    assert_eq!(no_height.total_rows, 1);
}

#[test]
fn wrap_uses_cjk_cell_width() {
    let cells = vec![meta("中文ab")];
    let scroll = ScrollState::follow();
    let slice = visible_slice(&cells, 4, 2, &scroll);
    assert_eq!(texts(&slice), ["中文", "ab"]);
    assert_eq!(slice.rows[0].row_in_cell, 0);
    assert_eq!(slice.rows[1].row_in_cell, 1);
    assert_eq!(slice.total_rows, 2);
}

#[test]
fn user_rows_wrap_two_short_reserving_the_prompt_prefix() {
    let cells = vec![transcript::line(LineKind::User, "abcdefgh")];
    let scroll = ScrollState::follow();
    // Width 6 reserves two columns for the painted `❯ ` prefix, so the
    // text wraps at 4 with continuations hanging past the glyph.
    let slice = visible_slice(&cells, 6, 2, &scroll);
    assert_eq!(texts(&slice), ["abcd", "efgh"]);
}

#[test]
fn block_boundaries_get_a_leading_gap_row() {
    let tool = |text: &str, tone: Tone| TranscriptLine {
        kind: LineKind::Tool,
        text: text.to_owned(),
        tone,
        header: None,
        body: None,
    };
    let cells = vec![
        transcript::line(LineKind::Answer, "abcdefgh"),
        transcript::line(LineKind::Answer, "ijklmnop"),
        tool("Grep 1 search", Tone::Title),
        tool("  \"hit\"", Tone::Detail),
        transcript::line(LineKind::Answer, "next"),
    ];
    let scroll = ScrollState::follow();
    let slice = visible_slice(&cells, 6, 12, &scroll);
    assert_eq!(
        texts(&slice),
        [
            "gh",
            "",
            "ijklmn",
            "op",
            "",
            "Grep 1",
            " searc",
            "h",
            "  \"hit",
            "  \"",
            "",
            "next"
        ]
    );
}

#[test]
fn user_and_reasoning_boundaries_stay_gap_free() {
    let cells = vec![
        transcript::line(LineKind::User, "prompt"),
        transcript::line(LineKind::Answer, "reply"),
        transcript::line(LineKind::Reasoning, "think"),
        transcript::line(LineKind::Reasoning, "  more think"),
        transcript::line(LineKind::Meta, "note"),
    ];
    let scroll = ScrollState::follow();
    let slice = visible_slice(&cells, 20, 8, &scroll);
    assert_eq!(
        texts(&slice),
        ["prompt", "reply", "think", "│ more think", "note"]
    );
}

#[test]
fn short_transcript_fits_and_stays_following() {
    let cells = vec![meta("one"), meta("two")];
    let mut scroll = ScrollState::follow();
    scroll.scroll_rows(&cells, 80, 5, -5);
    assert!(scroll.follow_bottom());
    let slice = visible_slice(&cells, 80, 5, &scroll);
    assert_eq!(texts(&slice), ["one", "two"]);
    assert!(slice.at_top);
    assert!(slice.at_bottom);
}

#[test]
fn sealed_reasoning_runs_project_a_collapsed_header() {
    let mut store = TranscriptStore::default();
    store.push_closed(vec![
        meta("a"),
        transcript::line(LineKind::Reasoning, "think"),
        transcript::line(LineKind::Reasoning, "  body one"),
        transcript::line(LineKind::Reasoning, "  body two"),
        meta("tail"),
    ]);
    store.refresh_wraps(80, &folded_at(1), 0);
    let slice = store.visible_slice(80, 10, &ScrollState::follow(), &folded_at(1), 0);
    let folded = texts(&slice);
    assert_eq!(folded.len(), 3, "the folded run renders one header row: {folded:?}");
    assert_eq!(folded[0], "a");
    assert_eq!(folded[2], "tail");
    assert!(
        is_think_header(folded[1]),
        "the folded run renders the think header: {folded:?}"
    );

    let mut store = TranscriptStore::default();
    store.push_closed(vec![transcript::line(LineKind::Reasoning, "think")]);
    store.refresh_wraps(80, &vec![true; 8], 0);
    let slice = store.visible_slice(80, 10, &ScrollState::follow(), &vec![true; 8], 0);
    assert!(is_think_header(texts(&slice)[0]));
}

#[test]
fn timed_think_headers_render_and_freeze_at_the_seal() {
    let mut store = TranscriptStore::default();
    store.push_closed(vec![
        transcript::line(LineKind::Reasoning, "think"),
        transcript::line(LineKind::Reasoning, "  body"),
        meta("after"),
    ]);
    let head = 0;

    // Streaming: the header ticks live against the injected clock.
    store.begin_think(head, 1_000);
    store.extend_think(5_000);
    store.refresh_wraps(80, &vec![true; 8], 9_000);
    {
        let rows = store.wrap_rows();
        let head_text = row_texts(&rows[head])[0];
        assert!(
            head_text.contains("Thought for 8s") && head_text.contains("按 Space 查看"),
            "timed header: {head_text:?}"
        );
        assert_eq!(row_texts(&rows[2]), ["after"]);
    }

    // Sealed: the frozen span survives the cache rebuild.
    store.seal_think(9_000);
    store.refresh_wraps(80, &vec![], 50_000);
    {
        let rows = store.wrap_rows();
        let head_text = row_texts(&rows[head])[0];
        assert!(
            head_text.contains("Thought for 8s") && head_text.contains("按 Space 查看"),
            "timed header after seal: {head_text:?}"
        );
        assert_eq!(row_texts(&rows[1]), ["│ body"]);
    }

    // Untimed blocks (replay) keep the bare header.
    let mut replay = TranscriptStore::default();
    replay.push_closed(vec![transcript::line(LineKind::Reasoning, "think")]);
    replay.refresh_wraps(80, &vec![true; 8], 0);
    let replay_rows = replay.wrap_rows();
    let replay_text = row_texts(&replay_rows[0])[0];
    assert!(
        replay_text.starts_with("▎ Thought ") && replay_text.contains("按 Space 查看"),
        "untimed header: {replay_text:?}"
    );
}

#[test]
fn fold_toggles_rebuild_cached_rows() {
    let mut store = TranscriptStore::default();
    store.push_closed(vec![transcript::line(LineKind::Reasoning, "think")]);
    store.refresh_wraps(80, &vec![true; 8], 0);
    {
        let rows = store.wrap_rows();
        assert!(is_think_header(row_texts(&rows[0])[0]));
    }
    store.bump_wrap_revision();
    store.refresh_wraps(80, &vec![], 0);
    {
        let rows = store.wrap_rows();
        assert!(is_think_header(row_texts(&rows[0])[0]));
    }
}

#[test]
fn is_empty_is_false_when_only_an_open_cell_exists() {
    let mut store = TranscriptStore::new();
    assert!(store.is_empty());
    store.begin(LineKind::Meta, "partial");
    assert!(!store.is_empty());
    assert_eq!(store.cells(), &vec![meta("partial")]);
    assert_eq!(store.open_index(), Some(0));
    assert!(store.has_open());
    assert_eq!(store.display_cells(), vec![meta("partial")]);
    store.close_open();
    store.push_closed(vec![meta("sealed")]);
    assert_eq!(store.cells(), &vec![meta("partial"), meta("sealed")]);
    assert_eq!(store.display_cells(), vec![meta("partial"), meta("sealed")]);
    assert!(!store.has_open());
}

#[test]
fn open_cursor_is_always_the_last_cell() {
    let mut store = TranscriptStore::new();
    store.begin(LineKind::Answer, "a");
    assert_eq!(store.open_index(), Some(store.cells().len() - 1));
    store.write_open("b");
    assert_eq!(store.cells()[0].text, "ab");
    store.push_closed(vec![meta("x")]);
    assert!(!store.has_open());
    assert_eq!(
        store.cells().last().map(|cell| cell.text.as_str()),
        Some("x")
    );
    store.begin(LineKind::Answer, "c");
    assert_eq!(store.open_index(), Some(store.cells().len() - 1));
    store.close_open();
    assert!(!store.has_open());
    store.clear();
    assert!(store.is_empty());
    assert!(!store.has_open());
}

#[test]
fn wrap_cache_is_keyed_by_width_and_rewraps_from_open() {
    let mut store = TranscriptStore::new();
    store.push_closed((0..3).map(|i| meta(&format!("中文{i}"))).collect());
    store.refresh_wraps(4, &vec![], 0);
    assert_eq!(store.cached_width(), 4);
    assert_eq!(store.cached_closed_upto(), 3);
    let narrow = store.wrap_rows().clone();
    assert_eq!(row_texts(&narrow[0]), ["中文", "0"]);

    store.refresh_wraps(4, &vec![], 0);
    assert_eq!(
        store.cached_closed_upto(),
        3,
        "same width reuses closed wraps"
    );
    assert_eq!(store.wrap_rows(), &narrow);

    store.refresh_wraps(80, &vec![], 0);
    assert_eq!(store.cached_width(), 80);
    assert_eq!(row_texts(&store.wrap_rows()[0]), ["中文0"]);

    store.refresh_wraps(4, &vec![], 0);
    assert_eq!(store.wrap_rows(), &narrow);

    store.push_closed(vec![meta("中文3")]);
    store.refresh_wraps(4, &vec![], 0);
    assert_eq!(store.cached_closed_upto(), 4);
    assert_eq!(row_texts(&store.wrap_rows()[3]), ["中文", "3"]);

    store.begin(LineKind::Meta, "中文");
    store.refresh_wraps(4, &vec![], 0);
    assert_eq!(store.cached_closed_upto(), 4);
    assert_eq!(row_texts(&store.wrap_rows()[4]), ["中文"]);
    store.write_open("live");
    store.refresh_wraps(4, &vec![], 0);
    assert_eq!(
        store.cached_closed_upto(),
        4,
        "open never advances closed cache"
    );
    assert_eq!(row_texts(&store.wrap_rows()[4]), ["中文", "live"]);
}

fn of_heights(heights: &[usize]) -> Vec<Vec<ProjectedRow>> {
    heights
        .iter()
        .map(|height| (0..*height).map(|k| ProjectedRow::plain(format!("{k}"))).collect())
        .collect()
}

#[test]
fn cells_without_rows_cost_no_step() {
    let wrapped = of_heights(&[1, 0, 1]);
    assert_eq!(move_cursor(&wrapped, (0, 0), 1), (2, 0));
    assert_eq!(move_cursor(&wrapped, (2, 0), -1), (0, 0));

    let wrapped = of_heights(&[0, 2, 0, 0, 3, 1, 0]);
    let rows = [(1, 0), (1, 1), (4, 0), (4, 1), (4, 2), (5, 0)];
    for (index, pos) in rows.iter().enumerate() {
        assert_eq!(logical_index(&wrapped, *pos), index);
        assert_eq!(position_at_index(&wrapped, index), *pos);
        for delta in -8isize..=8 {
            let aim = (index as isize + delta).clamp(0, 5) as usize;
            assert_eq!(move_cursor(&wrapped, *pos, delta), rows[aim]);
        }
    }
    assert_eq!(position_at_index(&wrapped, 6), (5, 0), "past the end the last row");
    assert_eq!(clamp_cursor(&wrapped, (3, 0)), (1, 1), "the nearest row above");
    assert_eq!(clamp_cursor(&wrapped, (0, 4)), (1, 0), "the first row where none is above");
    assert_eq!(clamp_cursor(&wrapped, (9, 9)), (5, 0));
    assert_eq!(clamp_cursor(&of_heights(&[0, 0]), (1, 0)), (1, 0));
}

fn piece(text: &str) -> HeaderPiece {
    HeaderPiece { text: text.to_owned(), color: SegColor::Default, bold: false }
}

fn header() -> CardHeader {
    CardHeader {
        bar: piece("▎"),
        action: piece("Read"),
        target: Some(piece(&"a".repeat(40))),
        stats: None,
        status: piece("✓ done"),
        time: None,
    }
}

#[test]
fn a_narrow_header_shortens_its_target_and_keeps_its_status() {
    let row = project_card_header(&header(), 30);
    assert_eq!(row.text, "▎ Read aaaaaa…aaaaa · ✓ done");

    for width in 6..80 {
        let row = project_card_header(&header(), width);
        assert!(row.text.contains("✓ done"), "{width}: {}", row.text);
        assert!(text::width(&row.text) <= width, "{width}: {}", row.text);
    }
    assert_eq!(project_card_header(&header(), 8).text, "▎ ✓ done");
    assert_eq!(project_card_header(&header(), 3).text, "...");
    assert_eq!(project_card_header(&header(), 0).text, "");
}

#[test]
fn a_narrow_header_drops_statistics_then_time() {
    let mut header = header();
    header.target = Some(piece("src/lib.rs"));
    header.stats = Some(vec![SegSpan {
        text: "+12 -3".to_owned(),
        color: SegColor::Green,
        bold: false,
        tone: None,
    }]);
    header.time = Some(piece("2.5s"));
    let text = |width: usize| project_card_header(&header, width).text;
    assert_eq!(text(45), "▎ Read src/lib.rs +12 -3 ······ ✓ done 2.5s");
    assert_eq!(text(38), "▎ Read src/….rs +12 -3 · ✓ done 2.5s");
    assert_eq!(text(33), "▎ Read s…s +12 -3 · ✓ done 2.5s");
    assert_eq!(text(32), "▎ Read src/…b.rs · ✓ done 2.5s");
    assert_eq!(text(26), "▎ Read s…s · ✓ done 2.5s");
    assert_eq!(text(25), "▎ Read src….rs · ✓ done");
}

#[test]
fn lines_behind_an_open_cell_close_it() {
    let mut store = TranscriptStore::default();
    store.push_closed(vec![meta("first")]);
    store.begin(LineKind::Answer, "open");
    let len = store.cells().len();
    store.replace_tail(len, vec![]);
    assert_eq!(store.open_index(), Some(1));
    store.replace_tail(len, vec![meta("settled"), meta("card")]);
    assert_eq!(store.open_index(), None);
    let shown: Vec<&str> = store.cells().iter().map(|cell| cell.text.as_str()).collect();
    assert_eq!(shown, ["first", "open", "settled", "card"]);
}

#[test]
fn a_wrapped_body_line_hangs_beside_its_gutter() {
    let seg = |text: &str| SegSpan {
        text: text.to_owned(),
        color: SegColor::Default,
        bold: false,
        tone: None,
    };
    let rows = project_body_line(&vec![seg("12 "), seg("aaa bbb ccc")], 12);
    assert_eq!(row_texts(&rows), ["  12 aaa ", "     bbb ccc"]);
    assert!(rows.iter().all(|row| text::width(&row.text) <= 12));

    let rows = project_body_line(&vec![seg("12 "), seg("aaa bbb")], 12);
    assert_eq!(row_texts(&rows), ["  12 aaa bbb"], "a line that fits is one row");
    let rows = project_body_line(&vec![seg("aaa bbb ccc")], 7);
    assert_eq!(row_texts(&rows), ["  aaa ", "bbb ccc"], "a gutter as wide as the row");
}
