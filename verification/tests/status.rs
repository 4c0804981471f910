use philo_tui::app::frontend::FrontendTokenUsage;
use philo_tui::app::status::{tokens, StatusData};
use philo_tui::app::text;
use philo_tui::app::transcript::InfoLevel;

fn usage() -> FrontendTokenUsage {
    FrontendTokenUsage {
        input_tokens: Some(11_000),
        output_tokens: Some(4_800),
        cache_read_tokens: Some(5_640),
        reasoning_tokens: Some(14_000),
    }
}

fn dashboard() -> StatusData {
    let mut status = StatusData::new("gpt-5.2", "s-1", InfoLevel::Default);
    status.provider = Some("openai".to_owned());
    status.effort = Some("high".to_owned());
    status.workspace_root = r"D:\Code\Zed\Year2026\Jul0706\Pi".to_owned();
    status.usage = Some(usage());
    status.context_window = Some(500_000);
    status
}

#[test]
fn summary_line_lists_model_session_and_latest_turn_usage() {
    assert_eq!(
        dashboard().summary_line(),
        "gpt-5.2 · session s-1 · ↑11k ↓4.8k R14k C51.3% 2.2%/500k"
    );

    // A fresh session renders unknowns as dashes instead of inventing
    // numbers (§2.4).
    let fresh = StatusData::new("m", "", InfoLevel::Default);
    assert_eq!(fresh.summary_line(), "m · ↑- ↓- R- C- -/-");
}

#[test]
fn tokens_abbreviate_without_trailing_zeros() {
    assert_eq!(tokens(999), "999");
    assert_eq!(tokens(11_000), "11k");
    assert_eq!(tokens(4_800), "4.8k");
    assert_eq!(tokens(1_600_000), "1.6m");
}

#[test]
fn usage_corner_renders_the_latest_turn_with_dashes_for_unknowns() {
    assert_eq!(
        dashboard().bottom_corners_for(80).1,
        "↑11k ↓4.8k R14k C51.3% 2.2%/500k"
    );
    let fresh = StatusData::new("m", "s", InfoLevel::Default);
    assert_eq!(fresh.bottom_corners_for(80).1, "↑- ↓- R- C- -/-");
}

#[test]
fn usage_corner_degrades_c_then_r_then_arrows_then_context() {
    let mut status = dashboard();
    status.workspace_root.clear();
    let full = status.bottom_corners_for(80).1;
    assert_eq!(full, "↑11k ↓4.8k R14k C51.3% 2.2%/500k");

    let without_cache = status.bottom_corners_for(text::width(&full) - 1).1;
    assert_eq!(without_cache, "↑11k ↓4.8k R14k 2.2%/500k");

    let without_reasoning = status.bottom_corners_for(text::width(&without_cache) - 1).1;
    assert_eq!(without_reasoning, "↑11k ↓4.8k 2.2%/500k");

    let without_arrows = status
        .bottom_corners_for(text::width(&without_reasoning) - 1)
        .1;
    assert_eq!(without_arrows, "2.2%/500k");
}

#[test]
fn model_corner_keeps_all_fields_until_width_forces_degradation() {
    let status = dashboard();
    let full = status.model_corner_for(80).expect("model corner");
    assert_eq!(full.provider.as_deref(), Some("openai"));
    assert_eq!(full.model, "gpt-5.2");
    assert_eq!(full.effort.as_deref(), Some("high"));

    // Effort drops before the provider, the provider before truncation.
    let narrow = status.model_corner_for(20).expect("model corner");
    assert_eq!(narrow.provider.as_deref(), Some("openai"));
    assert_eq!(narrow.effort, None);

    let tighter = status.model_corner_for(12).expect("model corner");
    assert_eq!(tighter.provider, None);
    assert_eq!(tighter.model, "gpt-5.2");

    let truncated = status.model_corner_for(6).expect("model corner");
    assert!(text::width(&truncated.model) <= 6);
    assert!(truncated.model.ends_with('…'));
}

#[test]
fn workspace_paths_middle_ellipsize_and_short_paths_stay_verbatim() {
    let long = r"D:\Code\Zed\Year2026\Jul0706\Pi";
    assert_eq!(text::truncate_mid(long, text::width(long)), long);
    assert_eq!(text::truncate_mid(long, 7), r"D:\…\Pi");
    assert_eq!(text::truncate_mid(long, 1), "…");
    assert_eq!(text::truncate_mid(long, 0), "");
    let short = r"src\main.rs";
    assert_eq!(text::truncate_mid(short, 20), short);
}

#[test]
fn bottom_corners_keep_full_usage_and_squeeze_the_path_first() {
    let status = dashboard();
    let wide = status.bottom_corners_for(72);
    assert_eq!(wide.0, status.workspace_root);
    assert_eq!(wide.1, "↑11k ↓4.8k R14k C51.3% 2.2%/500k");

    // The design's 40-column mock: path ellipsized, then C and R gone,
    // arrows and ctx/window last (§3.10).
    let narrow = status.bottom_corners_for(32);
    assert_eq!(narrow.0, r"D:\…\Pi");
    assert_eq!(narrow.1, "↑11k ↓4.8k 2.2%/500k");

    let (path, usage) = status.bottom_corners_for(200);
    assert_eq!(path, status.workspace_root);
    assert_eq!(usage, "↑11k ↓4.8k R14k C51.3% 2.2%/500k");
}

#[test]
fn bottom_corners_without_a_root_show_usage_only() {
    let mut status = dashboard();
    status.workspace_root.clear();
    let (path, usage) = status.bottom_corners_for(28);
    assert!(path.is_empty());
    assert_eq!(usage, "↑11k ↓4.8k R14k 2.2%/500k");
}

/// Abbreviations agree with floating-point formatting.
#[test]
fn abbreviations_match_float_formatting() {
    for value in [1_000u64, 1_050, 1_949, 1_950, 99_950, 123_456, 999_949] {
        let scaled = format!("{:.1}", value as f64 / 1_000.0);
        let expected = format!("{}k", scaled.trim_end_matches(".0"));
        assert_eq!(tokens(value), expected);
    }
}

#[test]
fn usage_is_unknown_by_default() {
    assert_eq!(FrontendTokenUsage::default().input_tokens, None);
}
