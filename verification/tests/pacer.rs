use philo_tui::app::pacer::{PacedPiece, StreamPacer};
use philo_tui::app::transcript::LineKind;

fn drained_text(pieces: &[PacedPiece]) -> String {
    pieces.iter().map(|piece| piece.text.as_str()).collect()
}

#[test]
fn bursts_release_proportional_chunks_instead_of_landing_as_a_block() {
    let mut pacer = StreamPacer::default();
    pacer.push(LineKind::Answer, &"x".repeat(1000));
    let tick: u64 = 100_000_000;
    // First tick: 1000 backlog / 350ms latency → 2857 cps → 285 chars,
    // with the sub-character remainder carried as micro-char credit.
    let first = drained_text(&pacer.drain(tick));
    assert_eq!(first.chars().count(), 285);

    // The controller retargets each tick, so the rate tapers with the
    // backlog while never stalling above the floor…
    let mut counts = vec![first.chars().count()];
    while !pacer.is_empty() {
        counts.push(drained_text(&pacer.drain(tick)).chars().count());
    }
    assert!(
        counts.windows(2).all(|window| window[0] >= window[1]),
        "releases taper monotonically: {counts:?}"
    );
    // …and nothing is lost or duplicated.
    assert_eq!(counts.iter().sum::<usize>(), 1000);
}

#[test]
fn trickles_advance_at_the_floor_rate() {
    let mut pacer = StreamPacer::default();
    pacer.push(LineKind::Answer, "abcdef");
    // 6 backlog / 0.35s ≈ 17 cps → floor 120 cps → 12 chars/s… per
    // 100ms tick that is 12 chars of credit minus none: the whole
    // six-char chunk fits under one tick's floor release.
    let pieces = pacer.drain(100_000_000);
    assert_eq!(drained_text(&pieces), "abcdef");
    assert!(pacer.is_empty());
}

#[test]
fn order_and_kind_survive_mixed_streams() {
    let mut pacer = StreamPacer::default();
    pacer.push(LineKind::Reasoning, "th ink ");
    pacer.push(LineKind::Answer, "hi");

    let mut seen = Vec::new();
    while !pacer.is_empty() {
        for piece in pacer.drain(50_000_000) {
            seen.push(piece.kind);
        }
    }
    assert_eq!(
        seen.first(),
        Some(&LineKind::Reasoning),
        "think drains before the answer"
    );
    assert_eq!(seen.last(), Some(&LineKind::Answer));
}

#[test]
fn flush_emits_everything_in_order_and_resets_credit() {
    let mut pacer = StreamPacer::default();
    pacer.push(LineKind::Reasoning, "think");
    pacer.push(LineKind::Answer, "answer");
    let pieces = pacer.flush();
    assert_eq!(pieces.len(), 2);
    assert_eq!(
        (pieces[0].kind, pieces[0].text.clone()),
        (LineKind::Reasoning, "think".to_owned())
    );
    assert_eq!(pieces[1].text, "answer");
    assert!(pacer.is_empty());
    assert_eq!(pacer.backlog_chars(), 0);
}

#[test]
fn clear_drops_without_emitting() {
    let mut pacer = StreamPacer::default();
    pacer.push(LineKind::Answer, "text");
    pacer.clear();
    assert!(pacer.is_empty());
    assert!(pacer.drain(1_000_000_000).is_empty());
}

#[test]
fn empty_and_zero_dt_are_noops() {
    let mut pacer = StreamPacer::default();
    assert!(pacer.drain(1_000_000_000).is_empty());
    pacer.push(LineKind::Answer, "abc");
    assert!(pacer.drain(0).is_empty());
    assert_eq!(pacer.backlog_chars(), 3, "nothing was consumed");
}
