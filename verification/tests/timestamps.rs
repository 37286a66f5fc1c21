use org_core::agenda::{add_repeater_duration, last_day_of_month};
use org_core::orgdoc::RepeatUnit;
use org_core::timestamp::{OrgDate, OrgTime, ParsedTimestamp};
use org_core::{OrgMode, OrgModeError};

fn date(year: i32, month: u32, day: u32) -> OrgDate {
    OrgDate { year, month, day }
}

fn ts(d: (i32, u32, u32), time: Option<(u32, u32)>, rep: Option<&str>, warn: Option<&str>) -> ParsedTimestamp {
    ParsedTimestamp {
        date: date(d.0, d.1, d.2),
        time: time.map(|(hour, minute)| OrgTime { hour, minute }),
        repeater: rep.map(String::from),
        warning: warn.map(String::from),
    }
}

#[test]
fn org_mode_test_parse_iso_timestamp_date_only() {
    let ts = OrgMode::parse_iso_timestamp("scheduled", "2026-05-15").unwrap();
    assert_eq!(ts.date, date(2026, 5, 15));
    assert!(ts.time.is_none());
    assert!(ts.repeater.is_none());
    assert!(ts.warning.is_none());
}

#[test]
fn capture_test_parse_iso_timestamp_date_only() {
    let ts = OrgMode::parse_iso_timestamp("scheduled", "2026-05-15").unwrap();
    assert_eq!(ts.date, date(2026, 5, 15));
    assert!(ts.time.is_none());
    assert!(ts.repeater.is_none());
    assert!(ts.warning.is_none());
}

#[test]
fn org_mode_test_parse_iso_timestamp_with_time() {
    let ts = OrgMode::parse_iso_timestamp("deadline", "2026-05-15 14:30").unwrap();
    assert_eq!(ts.date, date(2026, 5, 15));
    assert_eq!(ts.time, Some(OrgTime { hour: 14, minute: 30 }));
}

#[test]
fn capture_test_parse_iso_timestamp_with_time() {
    let ts = OrgMode::parse_iso_timestamp("deadline", "2026-05-15 14:30").unwrap();
    assert_eq!(ts.date, date(2026, 5, 15));
    assert_eq!(ts.time, Some(OrgTime { hour: 14, minute: 30 }));
}

#[test]
fn org_mode_test_parse_iso_timestamp_rejects_garbage() {
    for bad in ["2026/05/15", "tomorrow", "<2026-05-15 Fri>", ""] {
        let err = OrgMode::parse_iso_timestamp("scheduled", bad).unwrap_err();
        assert!(matches!(err, OrgModeError::InvalidTimestamp { .. }));
    }
}

#[test]
fn capture_test_parse_iso_timestamp_rejects_garbage() {
    for bad in ["2026/05/15", "tomorrow", "<2026-05-15 Fri>", ""] {
        let err = OrgMode::parse_iso_timestamp("scheduled", bad).unwrap_err();
        assert!(matches!(err, OrgModeError::InvalidTimestamp { .. }));
    }
}

#[test]
fn org_mode_test_parse_iso_timestamp_with_repeater() {
    let ts = OrgMode::parse_iso_timestamp("scheduled", "2026-05-15 ++1w").unwrap();
    assert_eq!(ts.repeater.as_deref(), Some("++1w"));
    assert!(ts.warning.is_none());
}

#[test]
fn capture_test_parse_iso_timestamp_with_repeater() {
    let ts = OrgMode::parse_iso_timestamp("scheduled", "2026-05-15 ++1w").unwrap();
    assert_eq!(ts.repeater.as_deref(), Some("++1w"));
    assert!(ts.warning.is_none());
}

#[test]
fn org_mode_test_parse_iso_timestamp_with_warning() {
    let ts = OrgMode::parse_iso_timestamp("deadline", "2026-05-15 -3d").unwrap();
    assert!(ts.repeater.is_none());
    assert_eq!(ts.warning.as_deref(), Some("-3d"));
}

#[test]
fn capture_test_parse_iso_timestamp_with_warning() {
    let ts = OrgMode::parse_iso_timestamp("deadline", "2026-05-15 -3d").unwrap();
    assert!(ts.repeater.is_none());
    assert_eq!(ts.warning.as_deref(), Some("-3d"));
}

#[test]
fn org_mode_test_parse_iso_timestamp_with_time_repeater_warning() {
    let ts = OrgMode::parse_iso_timestamp("scheduled", "2026-05-15 14:30 ++1w -3d").unwrap();
    assert_eq!(ts.time, Some(OrgTime { hour: 14, minute: 30 }));
    assert_eq!(ts.repeater.as_deref(), Some("++1w"));
    assert_eq!(ts.warning.as_deref(), Some("-3d"));
}

#[test]
fn capture_test_parse_iso_timestamp_with_time_repeater_warning() {
    let ts = OrgMode::parse_iso_timestamp("scheduled", "2026-05-15 14:30 ++1w -3d").unwrap();
    assert_eq!(ts.time, Some(OrgTime { hour: 14, minute: 30 }));
    assert_eq!(ts.repeater.as_deref(), Some("++1w"));
    assert_eq!(ts.warning.as_deref(), Some("-3d"));
}

#[test]
fn org_mode_test_parse_iso_timestamp_repeater_other_forms() {
    for r in ["+1d", "++2w", ".+3m"] {
        let raw = format!("2026-05-15 {r}");
        let ts = OrgMode::parse_iso_timestamp("scheduled", &raw).unwrap();
        assert_eq!(ts.repeater.as_deref(), Some(r));
    }
}

#[test]
fn capture_test_parse_iso_timestamp_repeater_other_forms() {
    for r in ["+1d", "++2w", ".+3m"] {
        let raw = format!("2026-05-15 {r}");
        let ts = OrgMode::parse_iso_timestamp("scheduled", &raw).unwrap();
        assert_eq!(ts.repeater.as_deref(), Some(r));
    }
}

#[test]
fn org_mode_test_parse_iso_timestamp_rejects_two_repeaters() {
    let err = OrgMode::parse_iso_timestamp("scheduled", "2026-05-15 +1d ++1w").unwrap_err();
    assert!(matches!(err, OrgModeError::InvalidTimestamp { .. }));
}

#[test]
fn capture_test_parse_iso_timestamp_rejects_two_repeaters() {
    let err = OrgMode::parse_iso_timestamp("scheduled", "2026-05-15 +1d ++1w").unwrap_err();
    assert!(matches!(err, OrgModeError::InvalidTimestamp { .. }));
}

#[test]
fn org_mode_test_parse_iso_timestamp_rejects_two_warnings() {
    let err = OrgMode::parse_iso_timestamp("scheduled", "2026-05-15 -1d -3d").unwrap_err();
    assert!(matches!(err, OrgModeError::InvalidTimestamp { .. }));
}

#[test]
fn capture_test_parse_iso_timestamp_rejects_two_warnings() {
    let err = OrgMode::parse_iso_timestamp("scheduled", "2026-05-15 -1d -3d").unwrap_err();
    assert!(matches!(err, OrgModeError::InvalidTimestamp { .. }));
}

#[test]
fn org_mode_test_parse_iso_timestamp_rejects_unknown_suffix() {
    let err = OrgMode::parse_iso_timestamp("scheduled", "2026-05-15 garbage").unwrap_err();
    assert!(matches!(err, OrgModeError::InvalidTimestamp { .. }));
}

#[test]
fn capture_test_parse_iso_timestamp_rejects_unknown_suffix() {
    let err = OrgMode::parse_iso_timestamp("scheduled", "2026-05-15 garbage").unwrap_err();
    assert!(matches!(err, OrgModeError::InvalidTimestamp { .. }));
}

#[test]
fn org_mode_test_parse_iso_timestamp_rejects_zero_count() {
    for bad in ["2026-05-15 +0d", "2026-05-15 -0w", "2026-05-15 ++0m"] {
        let err = OrgMode::parse_iso_timestamp("scheduled", bad).unwrap_err();
        assert!(matches!(err, OrgModeError::InvalidTimestamp { .. }));
    }
}

#[test]
fn capture_test_parse_iso_timestamp_rejects_zero_count() {
    for bad in ["2026-05-15 +0d", "2026-05-15 -0w", "2026-05-15 ++0m"] {
        let err = OrgMode::parse_iso_timestamp("scheduled", bad).unwrap_err();
        assert!(matches!(err, OrgModeError::InvalidTimestamp { .. }));
    }
}

#[test]
fn org_mode_test_format_timestamp_active_date_only() {
    let s = OrgMode::format_org_timestamp(&ts((2026, 5, 15), None, None, None), true);
    assert_eq!(s, "<2026-05-15 Fri>");
}

#[test]
fn capture_test_format_timestamp_active_date_only() {
    let s = OrgMode::format_org_timestamp(&ts((2026, 5, 15), None, None, None), true);
    assert_eq!(s, "<2026-05-15 Fri>");
}

#[test]
fn org_mode_test_format_timestamp_inactive_date_only() {
    let s = OrgMode::format_org_timestamp(&ts((2026, 5, 10), None, None, None), false);
    assert_eq!(s, "[2026-05-10 Sun]");
}

#[test]
fn capture_test_format_timestamp_inactive_date_only() {
    let s = OrgMode::format_org_timestamp(&ts((2026, 5, 10), None, None, None), false);
    assert_eq!(s, "[2026-05-10 Sun]");
}

#[test]
fn org_mode_test_format_timestamp_active_with_time() {
    let s = OrgMode::format_org_timestamp(&ts((2026, 5, 15), Some((14, 30)), None, None), true);
    assert_eq!(s, "<2026-05-15 Fri 14:30>");
}

#[test]
fn capture_test_format_timestamp_active_with_time() {
    let s = OrgMode::format_org_timestamp(&ts((2026, 5, 15), Some((14, 30)), None, None), true);
    assert_eq!(s, "<2026-05-15 Fri 14:30>");
}

#[test]
fn org_mode_test_format_timestamp_inactive_with_time() {
    let s = OrgMode::format_org_timestamp(&ts((2026, 5, 15), Some((14, 30)), None, None), false);
    assert_eq!(s, "[2026-05-15 Fri 14:30]");
}

#[test]
fn capture_test_format_timestamp_inactive_with_time() {
    let s = OrgMode::format_org_timestamp(&ts((2026, 5, 15), Some((14, 30)), None, None), false);
    assert_eq!(s, "[2026-05-15 Fri 14:30]");
}

#[test]
fn org_mode_test_format_timestamp_with_repeater_and_warning() {
    let s = OrgMode::format_org_timestamp(&ts((2026, 5, 15), Some((14, 30)), Some("++1w"), Some("-3d")), true);
    assert_eq!(s, "<2026-05-15 Fri 14:30 ++1w -3d>");
}

#[test]
fn capture_test_format_timestamp_with_repeater_and_warning() {
    let s = OrgMode::format_org_timestamp(&ts((2026, 5, 15), Some((14, 30)), Some("++1w"), Some("-3d")), true);
    assert_eq!(s, "<2026-05-15 Fri 14:30 ++1w -3d>");
}

#[test]
fn org_mode_test_datetree_segments_format() {
    let segs = OrgMode::datetree_segments(date(2026, 5, 10));
    assert_eq!(segs, vec!["2026", "2026-05 May", "2026-05-10 Sunday"]);
}

#[test]
fn capture_test_datetree_segments_format() {
    let segs = OrgMode::datetree_segments(date(2026, 5, 10));
    assert_eq!(segs, vec!["2026", "2026-05 May", "2026-05-10 Sunday"]);
}

#[test]
fn org_mode_test_datetree_segments_january() {
    let segs = OrgMode::datetree_segments(date(2027, 1, 1));
    assert_eq!(segs, vec!["2027", "2027-01 January", "2027-01-01 Friday"]);
}

#[test]
fn capture_test_datetree_segments_january() {
    let segs = OrgMode::datetree_segments(date(2027, 1, 1));
    assert_eq!(segs, vec!["2027", "2027-01 January", "2027-01-01 Friday"]);
}

#[test]
fn test_parse_iso_timestamp_rejects_leading_zero_count() {
    for bad in ["2026-05-15 +00d", "2026-05-15 -000w", "2026-05-15 ++0m"] {
        let err = OrgMode::parse_iso_timestamp("scheduled", bad).unwrap_err();
        assert!(matches!(err, OrgModeError::InvalidTimestamp { .. }));
    }
}

#[test]
fn test_parse_iso_timestamp_rejects_multibyte_utf8() {
    let err = OrgMode::parse_iso_timestamp("scheduled", "2026-05-15 +1\u{00F6}").unwrap_err();
    assert!(matches!(err, OrgModeError::InvalidTimestamp { .. }));
}

#[test]
fn parse_iso_timestamp_error_names_field_and_value() {
    match OrgMode::parse_iso_timestamp("deadline", "soon").unwrap_err() {
        OrgModeError::InvalidTimestamp { field, value } => {
            assert_eq!(field, "deadline");
            assert_eq!(value, "soon");
        },
        other => panic!("unexpected {other:?}"),
    }
    assert!(OrgMode::parse_iso_timestamp("scheduled", "2026-02-30").is_err());
    assert!(OrgMode::parse_iso_timestamp("scheduled", "2026-05-15 25:00").is_err());
    let ts = OrgMode::parse_iso_timestamp("scheduled", "  2026-05-15   09:05  ").unwrap();
    assert_eq!(ts.time, Some(OrgTime { hour: 9, minute: 5 }));
}

#[test]
fn datetree_segments_leap_day() {
    let segs = OrgMode::datetree_segments(date(2024, 2, 29));
    assert_eq!(segs, vec!["2024", "2024-02 February", "2024-02-29 Thursday"]);
}

#[test]
fn org_mode_test_add_repeater_duration_hour() {
    let (d, h, _) = add_repeater_duration(date(2025, 6, 15), 14, 0, 2, RepeatUnit::Hour);
    assert_eq!(h, 16);
    assert_eq!(d.day, 15);
}

#[test]
fn agenda_test_add_repeater_duration_hour() {
    let (d, h, _) = add_repeater_duration(date(2025, 6, 15), 14, 0, 2, RepeatUnit::Hour);
    assert_eq!(h, 16);
    assert_eq!(d.day, 15);
}

#[test]
fn org_mode_test_add_repeater_duration_day() {
    let (d, _, _) = add_repeater_duration(date(2025, 6, 15), 12, 0, 5, RepeatUnit::Day);
    assert_eq!(d.day, 20);
    assert_eq!(d.month, 6);
}

#[test]
fn agenda_test_add_repeater_duration_day() {
    let (d, _, _) = add_repeater_duration(date(2025, 6, 15), 12, 0, 5, RepeatUnit::Day);
    assert_eq!(d.day, 20);
    assert_eq!(d.month, 6);
}

#[test]
fn org_mode_test_add_repeater_duration_week() {
    let (d, _, _) = add_repeater_duration(date(2025, 6, 15), 12, 0, 2, RepeatUnit::Week);
    assert_eq!(d.day, 29);
    assert_eq!(d.month, 6);
}

#[test]
fn agenda_test_add_repeater_duration_week() {
    let (d, _, _) = add_repeater_duration(date(2025, 6, 15), 12, 0, 2, RepeatUnit::Week);
    assert_eq!(d.day, 29);
    assert_eq!(d.month, 6);
}

#[test]
fn org_mode_test_add_repeater_duration_month() {
    let (d, _, _) = add_repeater_duration(date(2025, 6, 15), 12, 0, 3, RepeatUnit::Month);
    assert_eq!(d.month, 9);
    assert_eq!(d.day, 15);
    assert_eq!(d.year, 2025);
}

#[test]
fn agenda_test_add_repeater_duration_month() {
    let (d, _, _) = add_repeater_duration(date(2025, 6, 15), 12, 0, 3, RepeatUnit::Month);
    assert_eq!(d.month, 9);
    assert_eq!(d.day, 15);
    assert_eq!(d.year, 2025);
}

#[test]
fn org_mode_test_add_repeater_duration_year() {
    let (d, _, _) = add_repeater_duration(date(2025, 6, 15), 12, 0, 2, RepeatUnit::Year);
    assert_eq!(d.year, 2027);
    assert_eq!(d.month, 6);
    assert_eq!(d.day, 15);
}

#[test]
fn agenda_test_add_repeater_duration_year() {
    let (d, _, _) = add_repeater_duration(date(2025, 6, 15), 12, 0, 2, RepeatUnit::Year);
    assert_eq!(d.year, 2027);
    assert_eq!(d.month, 6);
    assert_eq!(d.day, 15);
}

#[test]
fn org_mode_test_add_repeater_duration_month_boundary() {
    let (d, _, _) = add_repeater_duration(date(2025, 10, 15), 12, 0, 3, RepeatUnit::Month);
    assert_eq!(d.year, 2026);
    assert_eq!(d.month, 1);
    assert_eq!(d.day, 15);
}

#[test]
fn agenda_test_add_repeater_duration_month_boundary() {
    let (d, _, _) = add_repeater_duration(date(2025, 10, 15), 12, 0, 3, RepeatUnit::Month);
    assert_eq!(d.year, 2026);
    assert_eq!(d.month, 1);
    assert_eq!(d.day, 15);
}

#[test]
fn org_mode_test_last_day_of_month_from_day_31() {
    let d = last_day_of_month(date(2025, 1, 31));
    assert_eq!(d.month, 1);
    assert_eq!(d.day, 31);
}

#[test]
fn agenda_test_last_day_of_month_from_day_31() {
    let d = last_day_of_month(date(2025, 1, 31));
    assert_eq!(d.month, 1);
    assert_eq!(d.day, 31);
}

#[test]
fn org_mode_test_last_day_of_month_february() {
    let d = last_day_of_month(date(2025, 2, 15));
    assert_eq!(d.month, 2);
    assert_eq!(d.day, 28);
}

#[test]
fn agenda_test_last_day_of_month_february() {
    let d = last_day_of_month(date(2025, 2, 15));
    assert_eq!(d.month, 2);
    assert_eq!(d.day, 28);
}

#[test]
fn org_mode_test_last_day_of_month_leap_year() {
    let d = last_day_of_month(date(2024, 2, 15));
    assert_eq!(d.month, 2);
    assert_eq!(d.day, 29);
}

#[test]
fn agenda_test_last_day_of_month_leap_year() {
    let d = last_day_of_month(date(2024, 2, 15));
    assert_eq!(d.month, 2);
    assert_eq!(d.day, 29);
}

#[test]
fn repeater_steps_cross_boundaries() {
    assert_eq!(add_repeater_duration(date(2025, 12, 31), 23, 30, 1, RepeatUnit::Hour), (date(2026, 1, 1), 0, 30));
    assert_eq!(add_repeater_duration(date(2025, 1, 31), 8, 0, 1, RepeatUnit::Month), (date(2025, 2, 28), 8, 0));
    assert_eq!(add_repeater_duration(date(2024, 2, 29), 8, 0, 1, RepeatUnit::Year), (date(2025, 2, 28), 8, 0));
    assert_eq!(add_repeater_duration(date(2024, 2, 28), 8, 0, 1, RepeatUnit::Day), (date(2024, 2, 29), 8, 0));
    assert_eq!(add_repeater_duration(date(262142, 12, 30), 8, 0, 5, RepeatUnit::Day), (date(262142, 12, 30), 8, 0));
    assert_eq!(last_day_of_month(date(2025, 12, 3)), date(2025, 12, 31));
}

#[test]
fn year_text_signs_years_outside_four_digits() {
    assert_eq!(org_core::timestamp::year_text(2026), "2026");
    assert_eq!(org_core::timestamp::year_text(7), "0007");
    assert_eq!(org_core::timestamp::year_text(10000), "+10000");
    assert_eq!(org_core::timestamp::year_text(-1), "-0001");
    assert_eq!(org_core::timestamp::year_text(-12345), "-12345");
    assert_eq!(org_core::timestamp::weekday_index(date(2024, 1, 1)), 0);
    assert_eq!(org_core::timestamp::weekday_index(date(-100, 3, 1)), (org_core_weekday(-100, 3, 1)));
}

fn org_core_weekday(y: i64, m: i64, d: i64) -> u32 {
    let yy = (if m <= 2 { y - 1 } else { y }) + 400000;
    let (era, yoe) = (yy / 400, yy % 400);
    let mp = if m > 2 { m - 3 } else { m + 9 };
    let doy = (153 * mp + 2) / 5 + d - 1;
    let doe = yoe * 365 + yoe / 4 - yoe / 100 + doy;
    (((era * 146097 + doe) + 2) % 7) as u32
}
