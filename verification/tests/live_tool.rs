use philo_tui::app::frontend::FrontendToolResult;
use philo_tui::app::live_tool::{live_cell, tree_cell, LiveBatch, LiveCell, SlotFace};
use philo_tui::app::transcript::SegColor;

fn face(word: &str) -> SlotFace {
    SlotFace { target: None, color: SegColor::Green, word: word.to_owned(), time: "1s".to_owned() }
}

fn success() -> FrontendToolResult {
    FrontendToolResult::Success { content: "ok".to_owned() }
}

#[test]
fn a_batch_settles_when_everything_announced_has() {
    let mut batch = LiveBatch::new(2, 0);
    assert!(!batch.all_settled());
    assert!(batch.start(0, "read", "{}", 10));
    assert!(!batch.start(0, "read", "{}", 20), "a call starts once");
    assert!(batch.complete(0, &success(), &None));
    assert!(!batch.all_settled(), "one call has not started");
    assert!(batch.start(1, "grep", "{}", 30));
    batch.cancel();
    assert!(batch.all_settled());
    assert!(batch.any_failed());
    assert!(!batch.complete(1, &success(), &None), "a cancellation stays");
    assert_eq!(batch.elapsed(1_000), 1_000);
    assert_eq!(batch.slot(1), Some(1));
    assert_eq!(batch.slot(7), None);
}

#[test]
fn output_stops_at_the_limit() {
    let mut batch = LiveBatch::new(1, 0);
    batch.start(0, "shell", "{}", 0);
    assert!(batch.progress(0, "中文字", 7));
    assert_eq!(batch.slots[0].output, "中文", "no character is cut apart");
    assert!(batch.slots[0].truncated);
    assert!(batch.progress(0, "more", 7));
    assert_eq!(batch.slots[0].output, "中文m");
    assert!(!batch.progress(0, "more", 7), "the limit counts bytes");
    assert!(!batch.progress(3, "nobody", 7));
}

#[test]
fn the_tree_shows_a_row_per_call() {
    let mut batch = LiveBatch::new(2, 0);
    batch.start(0, "read", "{}", 0);
    batch.start(1, "grep", "{}", 0);
    batch.complete(0, &success(), &None);
    batch.cancel();
    let cell = tree_cell(&batch, &vec![face("✓ done"), face("✓ done")], "*", "2s");
    let header = cell.header.expect("header");
    assert_eq!(header.action.text, "Parallel Task (2 operations)");
    assert_eq!(header.status.text, "✗ failed");
    assert_eq!(header.time.expect("time").text, "2s");
    let rows: Vec<String> = cell
        .body
        .expect("rows")
        .lines
        .iter()
        .map(|row| row.iter().map(|seg| seg.text.as_str()).collect())
        .collect();
    assert_eq!(rows, ["├─ ▎ read ✓ done 1s", "└─ ▎ grep ✗ cancelled"]);
}

#[test]
fn a_single_call_has_a_card_of_its_own() {
    let mut batch = LiveBatch::new(1, 0);
    batch.start(0, "read", "{}", 0);
    assert!(matches!(live_cell(&batch, &vec![face("")], "*", "0s"), LiveCell::Running));
    let many = LiveBatch::new(2, 0);
    assert!(matches!(live_cell(&many, &vec![], "*", "0s"), LiveCell::Tree(_)));
}
