use philo_tui::app::cells::visible_slice;
use philo_tui::app::scroll::ScrollState;
use philo_tui::app::select::{
    clamp_pos, extract_text, hit_history, BandLayout, SelectPos, Selection,
};
use philo_tui::app::transcript;
use philo_tui::app::transcript::{LineKind, TranscriptLine};

fn meta(text: &str) -> TranscriptLine {
    transcript::line(LineKind::Meta, text)
}

fn pos(cell: usize, row: usize, col: usize) -> SelectPos {
    SelectPos { cell, row, col }
}

fn range(anchor: SelectPos, head: SelectPos) -> Selection {
    Selection { anchor, head, dragging: false }
}

#[test]
fn extract_walks_wrapped_rows_as_visual_lines() {
    let cells = vec![meta("中文ab")];
    let selection = range(pos(0, 0, 0), pos(0, 1, 2));
    assert_eq!(extract_text(&cells, 4, selection), "中文\nab");
}

#[test]
fn collapsed_selection_copies_nothing() {
    let cells = vec![meta("hello")];
    let at = pos(0, 0, 1);
    assert!(extract_text(&cells, 80, range(at, at)).is_empty());
}

#[test]
fn hit_test_maps_a_visible_row() {
    let cells: Vec<_> = (0..10).map(|i| meta(&format!("row-{i}"))).collect();
    let slice = visible_slice(&cells, 80, 3, &ScrollState::follow());
    let pos = hit_history(&slice, 0, 0).expect("hit");
    assert_eq!(pos.cell, 7);
    assert_eq!(pos.row, 0);
    assert_eq!(pos.col, 0);
}

#[test]
fn live_sorts_after_sealed_cells() {
    let sealed = meta("ab");
    let unsealed = meta("live");
    let selection = range(pos(0, 0, 0), pos(1, 0, 4));
    let copied = extract_text(&vec![sealed, unsealed], 80, selection);
    assert_eq!(copied, "ab\nlive");
}

#[test]
fn empty_middle_rows_keep_a_visual_newline() {
    let cells = vec![meta("a"), meta(""), meta("b")];
    let selection = range(pos(0, 0, 0), pos(2, 0, 1));
    assert_eq!(extract_text(&cells, 80, selection), "a\n\nb");
}

#[test]
fn live_without_rows_clamps_onto_the_last_sealed_cell() {
    let cells = vec![meta("xy")];
    assert_eq!(clamp_pos(pos(9, 3, 9), &cells, 80), pos(0, 0, 2));
}

#[test]
fn a_selection_reads_the_same_from_either_end() {
    let cells = vec![meta("first"), meta("second")];
    let there = range(pos(0, 0, 2), pos(1, 0, 3));
    let back = range(pos(1, 0, 3), pos(0, 0, 2));
    assert_eq!(extract_text(&cells, 80, there), "rst\nsec");
    assert_eq!(extract_text(&cells, 80, back), "rst\nsec");
    assert_eq!(there.normalized(), back.normalized());
    assert_eq!(there.columns_on_row(0, 0, 5), Some((2, 5)));
    assert_eq!(there.columns_on_row(2, 0, 5), None);
}

#[test]
fn a_band_knows_its_sides() {
    let band = BandLayout::from_parts(2, 3, 10, 4);
    assert!(band.contains(2, 3));
    assert!(!band.contains(12, 3));
    assert_eq!(band.relative(5, 4), Some((3, 1)));
    assert!(band.above(2));
    assert!(band.below(7));
    assert!(BandLayout::default().is_empty());
}
