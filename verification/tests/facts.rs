use philo_tui::app::calendar::{civil_from_days, relative_time};
use philo_tui::app::facts::{
    effort_label, effort_value, parse_bool, parse_compacted_boundary, parse_count,
};

#[test]
fn truth_values_have_several_names() {
    for word in ["true", " 1 ", "YES", "on"] {
        assert_eq!(parse_bool(word), Some(true));
    }
    for word in ["False", "0", "no", "OFF"] {
        assert_eq!(parse_bool(word), Some(false));
    }
    assert_eq!(parse_bool("maybe"), None);
}

#[test]
fn counts_read_like_unsigned_numbers() {
    for text in [
        "0", "7", "+7", "0012", "18446744073709551615", "18446744073709551616", "", "+", "-1", "1 ",
        "1a", "++1",
    ] {
        assert_eq!(parse_count(text), text.parse::<u64>().ok(), "{text:?}");
    }
}

#[test]
fn boundaries_stand_behind_their_key() {
    assert_eq!(
        parse_compacted_boundary("Compacted { covers_up_to: \"entry-42\" }").as_deref(),
        Some("entry-42")
    );
    assert_eq!(parse_compacted_boundary("nothing here"), None);
    assert_eq!(parse_compacted_boundary("covers_up_to: bare"), None);
}

#[test]
fn efforts_read_as_levels() {
    assert_eq!(effort_label("Xhigh"), "xhigh");
    assert_eq!(effort_label("custom"), "custom");
    assert_eq!(effort_value(&Some(" High ".to_owned())).as_deref(), Some("high"));
    assert_eq!(effort_value(&Some("default".to_owned())), None);
    assert_eq!(effort_value(&Some("  ".to_owned())), None);
    assert_eq!(effort_value(&None), None);
}

#[test]
fn days_become_civil_dates() {
    assert_eq!(civil_from_days(0), (1970, 1, 1));
    assert_eq!(civil_from_days(-1), (1969, 12, 31));
    assert_eq!(civil_from_days(11_016), (2000, 2, 29));
    assert_eq!(civil_from_days(19_782), (2024, 2, 29));
    assert_eq!(civil_from_days(19_783), (2024, 3, 1));
    assert_eq!(civil_from_days(-719_468), (0, 3, 1));
}

#[test]
fn ages_grow_from_now_to_dates() {
    let now = 1_709_251_200;
    assert_eq!(relative_time(now, now).as_deref(), Some("now"));
    assert_eq!(relative_time(now - 59, now).as_deref(), Some("now"));
    assert_eq!(relative_time(now - 12 * 60, now).as_deref(), Some("12m"));
    assert_eq!(relative_time(now - 3 * 3600, now).as_deref(), Some("3h"));
    assert_eq!(relative_time(now - 5 * 86_400, now).as_deref(), Some("5d"));
    assert_eq!(relative_time(now - 8 * 86_400, now).as_deref(), Some("2024-02-22"));
    assert_eq!(relative_time(now + 1, now), None);
}
