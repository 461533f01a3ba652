use mj_server::perf::{
    default_windows, locate_anchor, parse_fire_date, parse_fire_date_checked, perf_column,
};

#[test]
fn fire_dates_use_the_utc_calendar_day() {
    assert_eq!(parse_fire_date("2026-09-18T01:00:00Z"), Some("2026-09-18".to_string()));
    assert_eq!(parse_fire_date("2026-09-18T23:30:00-02:00"), Some("2026-09-19".to_string()));
    assert_eq!(parse_fire_date("2026-09-18T07:30:00+08:00"), Some("2026-09-17".to_string()));
}

#[test]
fn fire_dates_accept_plain_dates_and_fall_back_to_ten_bytes() {
    assert_eq!(parse_fire_date(" 2026-09-18 "), Some("2026-09-18".to_string()));
    assert_eq!(parse_fire_date("2026-09-18 10:00:00"), Some("2026-09-18".to_string()));
    assert_eq!(parse_fire_date("2026-02-30"), Some("2026-02-30".to_string()));
    assert_eq!(parse_fire_date("short"), None);
}

#[test]
fn fire_date_fallback_inside_a_character_is_reported() {
    assert_eq!(parse_fire_date_checked("一二三四五六"), None);
    assert_eq!(parse_fire_date_checked("abc一二三四五"), None);
    assert_eq!(parse_fire_date_checked("abcd一二三四"), Some(Some("abcd一二".to_string())));
    assert_eq!(parse_fire_date_checked("2026-09-18"), Some(Some("2026-09-18".to_string())));
}

#[test]
fn anchor_prefers_the_same_day_then_the_next_bar() {
    let dates: Vec<String> = ["2026-09-16", "2026-09-17", "2026-09-21", "2026-09-22"]
        .iter()
        .map(|d| d.to_string())
        .collect();
    assert_eq!(locate_anchor(&dates, "2026-09-17"), Some(1));
    assert_eq!(locate_anchor(&dates, "2026-09-19"), Some(2));
    assert_eq!(locate_anchor(&dates, "2026-09-01"), Some(0));
    assert_eq!(locate_anchor(&dates, "2026-09-30"), None);
    assert_eq!(locate_anchor(&[], "2026-09-30"), None);
}

#[test]
fn windows_and_columns() {
    assert_eq!(default_windows(), vec![1, 3, 5, 10, 20]);
    assert_eq!(perf_column(1), "ret_1d");
    assert_eq!(perf_column(3), "ret_3d");
    assert_eq!(perf_column(5), "ret_5d");
    assert_eq!(perf_column(10), "ret_10d");
    assert_eq!(perf_column(20), "ret_20d");
    assert_eq!(perf_column(7), "ret_5d");
}
