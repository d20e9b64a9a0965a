use gh_projects_web::calendar::{
    auto_status_at, comp_display_name, countdown, event_countdown, events_for_month, status_css,
    status_label,
};
use gh_projects_web::datetime::{
    add_months, ago_label, day_of_week, days_in_month, full_month_name, is_stale_label, jdn,
    jdn_fits_exec, minutes_label, normalize_timestamp, parse_date, short_month_name, week_label,
    x_label_positions,
};
use gh_projects_web::types::{CalendarComponent, CalendarEvent};

#[test]
fn add_months_crosses_year_boundaries() {
    assert_eq!(add_months(2026, 1, -1), (2025, 12));
    assert_eq!(add_months(2026, 11, 3), (2027, 2));
    assert_eq!(add_months(2026, 6, 0), (2026, 6));
    assert_eq!(add_months(2026, 12, 1), (2027, 1));
    assert_eq!(add_months(2026, 1, -25), (2023, 12));
}

#[test]
fn add_months_then_back_is_identity() {
    let (y, m) = add_months(2024, 5, 7);
    assert_eq!((y, m), (2024, 12));
    assert_eq!(add_months(y, m, -7), (2024, 5));
    let (y2, m2) = add_months(2024, 5, 30);
    assert_eq!(add_months(y2, m2, -30), (2024, 5));
}

#[test]
fn add_months_composes() {
    let (y, m) = add_months(2025, 10, 4);
    assert_eq!(add_months(y, m, 9), add_months(2025, 10, 13));
}

#[test]
fn days_in_month_follows_the_leap_rules() {
    assert_eq!(days_in_month(2024, 2), 29);
    assert_eq!(days_in_month(2023, 2), 28);
    assert_eq!(days_in_month(2100, 2), 28);
    assert_eq!(days_in_month(2000, 2), 29);
    assert_eq!(days_in_month(2026, 4), 30);
    assert_eq!(days_in_month(2026, 12), 31);
    assert_eq!(days_in_month(2026, 13), 28);
}

#[test]
fn day_of_week_counts_from_sunday() {
    assert_eq!(day_of_week(2026, 1, 1), 4);
    assert_eq!(day_of_week(2024, 2, 29), 4);
    assert_eq!(day_of_week(2000, 1, 1), 6);
    assert_eq!(day_of_week(2026, 9, 6), 0);
}

#[test]
fn jdn_known_values_and_weekday_agreement() {
    assert_eq!(jdn(2000, 1, 1), 2451545);
    assert_eq!(jdn(2026, 1, 2) - jdn(2026, 1, 1), 1);
    assert_eq!(jdn(2025, 3, 1) - jdn(2025, 2, 28), 1);
    for (y, m, d) in [(2000, 1, 1), (2026, 1, 1), (2024, 2, 29), (2026, 9, 6)] {
        assert_eq!(day_of_week(y, m, d), (jdn(y, m, d) + 1) % 7);
    }
    assert!(jdn_fits_exec(2026, 1, 1));
    assert!(!jdn_fits_exec(i32::MAX, 1, 1));
}

#[test]
fn month_names() {
    assert_eq!(full_month_name(9), "September");
    assert_eq!(full_month_name(1), "January");
    assert_eq!(short_month_name(12), "Dec");
    assert_eq!(short_month_name(5), "May");
}

#[test]
fn parse_date_reads_a_leading_date() {
    assert_eq!(parse_date("2026-09-07T10:00:00Z"), Some((2026, 9, 7)));
    assert_eq!(parse_date("2026-09-07"), Some((2026, 9, 7)));
    assert_eq!(parse_date("2026-1-5"), Some((2026, 1, 5)));
    assert_eq!(parse_date("bad"), None);
    assert_eq!(parse_date("2026-09"), None);
    assert_eq!(parse_date("2026-xx-01"), None);
}

#[test]
fn ago_and_minutes_labels() {
    assert_eq!(ago_label(3), "3d ago");
    assert_eq!(ago_label(20), "2w ago");
    assert_eq!(ago_label(100), "~3mo ago");
    assert_eq!(minutes_label(0), "just now");
    assert_eq!(minutes_label(5), "5m ago");
    assert_eq!(minutes_label(61), "1h ago");
    assert_eq!(minutes_label(1440), "1d ago");
}

#[test]
fn normalize_timestamp_marks_sqlite_times_as_utc() {
    assert_eq!(normalize_timestamp("2026-09-13 21:00:00"), "2026-09-13T21:00:00Z");
    assert_eq!(normalize_timestamp("2026-09-13T21:00:00Z"), "2026-09-13T21:00:00Z");
    assert_eq!(normalize_timestamp("2026-09-13 21:00:00Z"), "2026-09-13 21:00:00Z");
}

#[test]
fn week_label_formats_axis_labels() {
    assert_eq!(week_label("2026-09-07"), "Sep 7");
    assert_eq!(week_label("oops"), "oops");
}

#[test]
fn stale_labels() {
    assert!(is_stale_label("3d ago"));
    assert!(is_stale_label("~3mo ago"));
    assert!(!is_stale_label("5m ago"));
    assert!(!is_stale_label("2w ago"));
    assert!(!is_stale_label("just now"));
}

#[test]
fn chart_label_positions() {
    let v: Vec<usize> = (0..26).step_by(2).collect();
    assert_eq!(x_label_positions(26), v);
    assert_eq!(x_label_positions(5), vec![0, 1, 2, 3, 4]);
    assert_eq!(x_label_positions(0), Vec::<usize>::new());
    assert_eq!(x_label_positions(39), (0..39).step_by(3).collect::<Vec<usize>>());
}

#[test]
fn calendar_status_words() {
    assert_eq!(status_label("at_risk"), "At risk");
    assert_eq!(status_label("delayed"), "Delayed");
    assert_eq!(status_label("released"), "Released");
    assert_eq!(status_label("xyz"), "On track");
    assert_eq!(status_css("delayed"), "status-badge status-delayed");
    assert_eq!(status_css("on_track"), "status-badge status-on-track");
}

#[test]
fn auto_status_by_date() {
    assert_eq!(auto_status_at("2026-01-01", (2026, 1, 2)), "released");
    assert_eq!(auto_status_at("2026-01-02", (2026, 1, 2)), "released");
    assert_eq!(auto_status_at("2026-01-03", (2026, 1, 2)), "on_track");
    assert_eq!(auto_status_at("not a date", (2026, 1, 2)), "on_track");
}

#[test]
fn countdown_badges() {
    assert_eq!(countdown("2026-01-10", 2026, 1, 1), Some(("in 9d".to_string(), "soon")));
    assert_eq!(countdown("2026-01-01", 2026, 1, 1), Some(("today".to_string(), "today")));
    assert_eq!(countdown("2026-03-15", 2026, 1, 1), Some(("in 10w".to_string(), "future")));
    assert_eq!(countdown("2026-06-01", 2026, 1, 1), Some(("in ~5mo".to_string(), "future")));
    assert_eq!(countdown("2025-12-01", 2026, 1, 1), Some(("4w ago".to_string(), "overdue")));
    assert_eq!(countdown("2025-12-30", 2026, 1, 1), Some(("2d ago".to_string(), "overdue")));
    assert_eq!(countdown("2026-01-31", 2026, 1, 1), Some(("in 4w".to_string(), "soon")));
    assert_eq!(countdown("2026-02-01", 2026, 1, 1), Some(("in 4w".to_string(), "future")));
    assert_eq!(countdown("later", 2026, 1, 1), None);
}

fn comp(id: i64, name: &str, short: Option<&str>) -> CalendarComponent {
    CalendarComponent {
        id,
        calendar_id: 1,
        name: name.to_string(),
        short_name: short.map(|s| s.to_string()),
        color: "#123456".to_string(),
        position: 0,
        created_at: String::new(),
        updated_at: String::new(),
    }
}

fn event(id: i64, date: &str, actual: Option<&str>) -> CalendarEvent {
    CalendarEvent {
        id,
        calendar_id: 1,
        component_id: Some(1),
        version: format!("v{id}"),
        status: "on_track".to_string(),
        release_date: date.to_string(),
        actual_release_date: actual.map(|s| s.to_string()),
        note: String::new(),
        created_at: String::new(),
        updated_at: String::new(),
    }
}

#[test]
fn component_display_name_prefers_short_name() {
    assert_eq!(comp_display_name(&comp(1, "Gateway", Some("GW"))), "GW");
    assert_eq!(comp_display_name(&comp(1, "Gateway", None)), "Gateway");
}

#[test]
fn events_for_month_uses_planned_or_actual_date() {
    let evs = vec![
        event(1, "2026-01-15", None),
        event(2, "2025-12-20", Some("2026-01-03")),
        event(3, "2026-02-01", None),
        event(4, "garbage", None),
    ];
    let got: Vec<i64> = events_for_month(&evs, 2026, 1).iter().map(|e| e.id).collect();
    assert_eq!(got, vec![1, 2]);
    let feb: Vec<i64> = events_for_month(&evs, 2026, 2).iter().map(|e| e.id).collect();
    assert_eq!(feb, vec![3]);
}

use gh_projects_web::calendar::status_after_date_change;

#[test]
fn editing_the_planned_date_keeps_manual_flags() {
    let today = (2026, 1, 10);
    assert_eq!(status_after_date_change("on_track", "2026-01-01", today), "released");
    assert_eq!(status_after_date_change("released", "2026-02-01", today), "on_track");
    assert_eq!(status_after_date_change("at_risk", "2026-01-01", today), "at_risk");
    assert_eq!(status_after_date_change("delayed", "2026-02-01", today), "delayed");
}

#[test]
fn month_lengths_match_day_numbers() {
    for y in [-4799, -1, 0, 1900, 2000, 2023, 2024, 2100, 9999] {
        for m in 1..=12 {
            let (ny, nm) = add_months(y, m, 1);
            assert_eq!(jdn(ny, nm, 1) - jdn(y, m, 1), days_in_month(y, m));
            let last = days_in_month(y, m);
            assert_eq!(jdn(ny, nm, 1), jdn(y, m, last) + 1);
        }
    }
    assert_eq!(jdn(2025, 1, 1) - jdn(2024, 12, 31), 1);
}

#[test]
fn only_unreleased_events_count_down() {
    assert_eq!(
        event_countdown(&event(1, "2026-01-10", None), 2026, 1, 1),
        Some(("in 9d".to_string(), "soon"))
    );
    assert_eq!(event_countdown(&event(2, "2026-01-10", Some("2026-01-09")), 2026, 1, 1), None);
    assert_eq!(event_countdown(&event(3, "soon", None), 2026, 1, 1), None);
}

#[test]
fn padded_dates_read_back_whatever_follows() {
    for (y, m, d) in [(0, 1, 1), (7, 12, 31), (2026, 9, 7), (9999, 99, 0)] {
        for suffix in ["", "T10:00:00Z", " later", "é"] {
            assert_eq!(parse_date(&format!("{y:04}-{m:02}-{d:02}{suffix}")), Some((y, m, d)));
        }
    }
}
