use org_core::capture::{CaptureEntry, PropertyPair};
use org_core::config::{OrgConfig, RootDirProbe};
use org_core::timestamp::OrgDate;
use org_core::update::{ClearField, UpdateEntry};
use org_core::{OrgMode, OrgModeError};

fn make_org_mode() -> OrgMode {
    OrgMode::new(
        OrgConfig { org_directory: "/tmp/org-test".to_string(), ..OrgConfig::default() },
        RootDirProbe::Readable,
    )
    .unwrap()
}

fn today() -> OrgDate {
    OrgDate { year: 2026, month: 5, day: 12 }
}

fn capture_minimal(file: &str, title: &str) -> CaptureEntry {
    CaptureEntry {
        title: title.to_string(),
        level: None,
        todo_state: None,
        tags: None,
        priority: None,
        body: None,
        file: Some(file.to_string()),
        target_heading: None,
        scheduled: None,
        deadline: None,
        closed: None,
        properties: None,
        datetree: false,
        datetree_date: None,
    }
}

fn validate(entry: CaptureEntry) -> Result<(), OrgModeError> {
    make_org_mode().validate_capture(&entry, today()).map(|_| ())
}

fn entry_by_path() -> UpdateEntry {
    UpdateEntry {
        id: None,
        file: Some("notes.org".to_string()),
        heading_path: Some("Daily Tasks/Buy groceries".to_string()),
        todo_state: Some("DONE".to_string()),
        priority: None,
        tags: None,
        scheduled: None,
        deadline: None,
        closed: None,
        clear: vec![],
        title: None,
        body: None,
        properties: None,
        remove_properties: None,
    }
}

fn keywords_config(keywords: &[&str]) -> OrgConfig {
    OrgConfig {
        org_directory: "/tmp/org-test".to_string(),
        org_todo_keywords: keywords.iter().map(|k| k.to_string()).collect(),
        ..OrgConfig::default()
    }
}

fn config_error(result: Result<OrgConfig, OrgModeError>) -> String {
    match result {
        Err(OrgModeError::ConfigError(msg)) => msg,
        _ => panic!("Expected ConfigError"),
    }
}

#[test]
fn org_mode_test_capture_invalid_todo_keyword() {
    let mut entry = capture_minimal("test.org", "Task");
    entry.todo_state = Some("INVALID".to_string());
    match validate(entry).unwrap_err() {
        OrgModeError::InvalidTodoKeyword(kw) => assert_eq!(kw, "INVALID"),
        e => panic!("Expected InvalidTodoKeyword, got: {e:?}"),
    }
}

#[test]
fn tests_test_capture_invalid_todo_keyword() {
    let mut entry = capture_minimal("test.org", "Task");
    entry.todo_state = Some("INVALID".to_string());
    match validate(entry).unwrap_err() {
        OrgModeError::InvalidTodoKeyword(kw) => assert_eq!(kw, "INVALID"),
        e => panic!("Expected InvalidTodoKeyword, got: {e:?}"),
    }
}

#[test]
fn org_mode_test_capture_invalid_priority() {
    let mut entry = capture_minimal("test.org", "Task");
    entry.priority = Some("X".to_string());
    match validate(entry).unwrap_err() {
        OrgModeError::InvalidPriority(p) => assert_eq!(p, "X"),
        e => panic!("Expected InvalidPriority, got: {e:?}"),
    }
}

#[test]
fn tests_test_capture_invalid_priority() {
    let mut entry = capture_minimal("test.org", "Task");
    entry.priority = Some("X".to_string());
    match validate(entry).unwrap_err() {
        OrgModeError::InvalidPriority(p) => assert_eq!(p, "X"),
        e => panic!("Expected InvalidPriority, got: {e:?}"),
    }
}

#[test]
fn org_mode_test_capture_with_explicit_level() {
    let mut entry = capture_minimal("level_test.org", "Deep Heading");
    entry.level = Some(3);
    let org_mode = make_org_mode();
    let valid = org_mode.validate_capture(&entry, today()).unwrap();
    let now = org_core::timestamp::LocalDateTime { date: today(), hour: 9, minute: 0, second: 0 };
    let plan = org_mode.plan_capture(&entry, &valid, "", now).unwrap();
    assert_eq!(plan.result.level, 3);
    assert_eq!(plan.result.heading_line, "*** Deep Heading");
}

#[test]
fn tests_test_capture_with_explicit_level() {
    let mut entry = capture_minimal("level_test.org", "Deep Heading");
    entry.level = Some(3);
    let org_mode = make_org_mode();
    let valid = org_mode.validate_capture(&entry, today()).unwrap();
    let now = org_core::timestamp::LocalDateTime { date: today(), hour: 9, minute: 0, second: 0 };
    let plan = org_mode.plan_capture(&entry, &valid, "", now).unwrap();
    assert_eq!(plan.result.level, 3);
    assert_eq!(plan.result.heading_line, "*** Deep Heading");
}

#[test]
fn org_mode_test_capture_rejects_empty_title() {
    let result = validate(capture_minimal("test.org", ""));
    assert!(matches!(result, Err(OrgModeError::InvalidTitle(_))));
}

#[test]
fn tests_test_capture_rejects_empty_title() {
    let result = validate(capture_minimal("test.org", ""));
    assert!(matches!(result, Err(OrgModeError::InvalidTitle(_))));
}

#[test]
fn org_mode_test_capture_rejects_whitespace_title() {
    let result = validate(capture_minimal("test.org", "   "));
    assert!(matches!(result, Err(OrgModeError::InvalidTitle(_))));
}

#[test]
fn tests_test_capture_rejects_whitespace_title() {
    let result = validate(capture_minimal("test.org", "   "));
    assert!(matches!(result, Err(OrgModeError::InvalidTitle(_))));
}

#[test]
fn org_mode_test_capture_rejects_newline_in_title() {
    let result = validate(capture_minimal("test.org", "Line1\nLine2"));
    assert!(matches!(result, Err(OrgModeError::InvalidTitle(_))));
}

#[test]
fn tests_test_capture_rejects_newline_in_title() {
    let result = validate(capture_minimal("test.org", "Line1\nLine2"));
    assert!(matches!(result, Err(OrgModeError::InvalidTitle(_))));
}

#[test]
fn org_mode_test_capture_rejects_carriage_return_in_title() {
    let result = validate(capture_minimal("test.org", "Line1\rLine2"));
    assert!(matches!(result, Err(OrgModeError::InvalidTitle(_))));
}

#[test]
fn tests_test_capture_rejects_carriage_return_in_title() {
    let result = validate(capture_minimal("test.org", "Line1\rLine2"));
    assert!(matches!(result, Err(OrgModeError::InvalidTitle(_))));
}

#[test]
fn org_mode_test_capture_rejects_level_zero() {
    let mut entry = capture_minimal("test.org", "Title");
    entry.level = Some(0);
    assert!(matches!(validate(entry), Err(OrgModeError::InvalidLevel(0))));
}

#[test]
fn tests_test_capture_rejects_level_zero() {
    let mut entry = capture_minimal("test.org", "Title");
    entry.level = Some(0);
    assert!(matches!(validate(entry), Err(OrgModeError::InvalidLevel(0))));
}

#[test]
fn org_mode_test_capture_rejects_level_too_deep() {
    let mut entry = capture_minimal("test.org", "Title");
    entry.level = Some(100);
    assert!(matches!(validate(entry), Err(OrgModeError::InvalidLevel(100))));
}

#[test]
fn tests_test_capture_rejects_level_too_deep() {
    let mut entry = capture_minimal("test.org", "Title");
    entry.level = Some(100);
    assert!(matches!(validate(entry), Err(OrgModeError::InvalidLevel(100))));
}

#[test]
fn org_mode_test_capture_rejects_tag_with_space() {
    let mut entry = capture_minimal("test.org", "Title");
    entry.tags = Some(vec!["bad tag".to_string()]);
    assert!(matches!(validate(entry), Err(OrgModeError::InvalidTag(_))));
}

#[test]
fn tests_test_capture_rejects_tag_with_space() {
    let mut entry = capture_minimal("test.org", "Title");
    entry.tags = Some(vec!["bad tag".to_string()]);
    assert!(matches!(validate(entry), Err(OrgModeError::InvalidTag(_))));
}

#[test]
fn org_mode_test_capture_rejects_tag_with_colon() {
    let mut entry = capture_minimal("test.org", "Title");
    entry.tags = Some(vec!["with:colon".to_string()]);
    assert!(matches!(validate(entry), Err(OrgModeError::InvalidTag(_))));
}

#[test]
fn tests_test_capture_rejects_tag_with_colon() {
    let mut entry = capture_minimal("test.org", "Title");
    entry.tags = Some(vec!["with:colon".to_string()]);
    assert!(matches!(validate(entry), Err(OrgModeError::InvalidTag(_))));
}

#[test]
fn org_mode_test_capture_rejects_empty_tag() {
    let mut entry = capture_minimal("test.org", "Title");
    entry.tags = Some(vec!["".to_string()]);
    assert!(matches!(validate(entry), Err(OrgModeError::InvalidTag(_))));
}

#[test]
fn tests_test_capture_rejects_empty_tag() {
    let mut entry = capture_minimal("test.org", "Title");
    entry.tags = Some(vec!["".to_string()]);
    assert!(matches!(validate(entry), Err(OrgModeError::InvalidTag(_))));
}

#[test]
fn org_mode_test_capture_accepts_valid_tag_chars() {
    let mut entry = capture_minimal("test.org", "Title");
    entry.tags = Some(vec!["work_2025".to_string(), "@home".to_string()]);
    validate(entry).unwrap();
}

#[test]
fn tests_test_capture_accepts_valid_tag_chars() {
    let mut entry = capture_minimal("test.org", "Title");
    entry.tags = Some(vec!["work_2025".to_string(), "@home".to_string()]);
    validate(entry).unwrap();
}

#[test]
fn org_mode_test_capture_rejects_invalid_scheduled() {
    let mut entry = capture_minimal("planning.org", "Bad");
    entry.scheduled = Some("tomorrow".to_string());
    match validate(entry).unwrap_err() {
        OrgModeError::InvalidTimestamp { field, .. } => assert_eq!(field, "scheduled"),
        other => panic!("expected InvalidTimestamp for scheduled, got {other:?}"),
    }
}

#[test]
fn tests_test_capture_rejects_invalid_scheduled() {
    let mut entry = capture_minimal("planning.org", "Bad");
    entry.scheduled = Some("tomorrow".to_string());
    match validate(entry).unwrap_err() {
        OrgModeError::InvalidTimestamp { field, .. } => assert_eq!(field, "scheduled"),
        other => panic!("expected InvalidTimestamp for scheduled, got {other:?}"),
    }
}

#[test]
fn org_mode_test_capture_rejects_property_key_with_colon() {
    let mut entry = capture_minimal("p.org", "T");
    entry.properties = Some(vec![PropertyPair { key: "BAD:KEY".into(), value: "v".into() }]);
    assert!(matches!(validate(entry).unwrap_err(), OrgModeError::InvalidPropertyKey(_)));
}

#[test]
fn tests_test_capture_rejects_property_key_with_colon() {
    let mut entry = capture_minimal("p.org", "T");
    entry.properties = Some(vec![PropertyPair { key: "BAD:KEY".into(), value: "v".into() }]);
    assert!(matches!(validate(entry).unwrap_err(), OrgModeError::InvalidPropertyKey(_)));
}

#[test]
fn org_mode_test_capture_rejects_property_value_with_newline() {
    let mut entry = capture_minimal("p.org", "T");
    entry.properties = Some(vec![PropertyPair { key: "K".into(), value: "line1\nline2".into() }]);
    assert!(matches!(validate(entry).unwrap_err(), OrgModeError::InvalidPropertyValue { .. }));
}

#[test]
fn tests_test_capture_rejects_property_value_with_newline() {
    let mut entry = capture_minimal("p.org", "T");
    entry.properties = Some(vec![PropertyPair { key: "K".into(), value: "line1\nline2".into() }]);
    assert!(matches!(validate(entry).unwrap_err(), OrgModeError::InvalidPropertyValue { .. }));
}

#[test]
fn org_mode_test_capture_rejects_duplicate_property_keys() {
    let mut entry = capture_minimal("p.org", "T");
    entry.properties = Some(vec![
        PropertyPair { key: "K".into(), value: "v1".into() },
        PropertyPair { key: "K".into(), value: "v2".into() },
    ]);
    assert!(matches!(validate(entry).unwrap_err(), OrgModeError::DuplicatePropertyKey(_)));
}

#[test]
fn tests_test_capture_rejects_duplicate_property_keys() {
    let mut entry = capture_minimal("p.org", "T");
    entry.properties = Some(vec![
        PropertyPair { key: "K".into(), value: "v1".into() },
        PropertyPair { key: "K".into(), value: "v2".into() },
    ]);
    assert!(matches!(validate(entry).unwrap_err(), OrgModeError::DuplicatePropertyKey(_)));
}

#[test]
fn org_mode_test_datetree_rejects_date_without_flag() {
    let mut entry = capture_minimal("dt.org", "x");
    entry.datetree = false;
    entry.datetree_date = Some("2026-05-10".to_string());
    assert!(matches!(validate(entry).unwrap_err(), OrgModeError::DatetreeDateWithoutFlag));
}

#[test]
fn tests_test_datetree_rejects_date_without_flag() {
    let mut entry = capture_minimal("dt.org", "x");
    entry.datetree = false;
    entry.datetree_date = Some("2026-05-10".to_string());
    assert!(matches!(validate(entry).unwrap_err(), OrgModeError::DatetreeDateWithoutFlag));
}

#[test]
fn org_mode_test_datetree_rejects_bad_date_format() {
    let mut entry = capture_minimal("dt.org", "x");
    entry.datetree = true;
    entry.datetree_date = Some("tomorrow".to_string());
    assert!(matches!(validate(entry).unwrap_err(), OrgModeError::InvalidDatetreeDate(_)));
}

#[test]
fn tests_test_datetree_rejects_bad_date_format() {
    let mut entry = capture_minimal("dt.org", "x");
    entry.datetree = true;
    entry.datetree_date = Some("tomorrow".to_string());
    assert!(matches!(validate(entry).unwrap_err(), OrgModeError::InvalidDatetreeDate(_)));
}

#[test]
fn org_mode_test_datetree_rejects_date_with_time() {
    let mut entry = capture_minimal("dt.org", "x");
    entry.datetree = true;
    entry.datetree_date = Some("2026-05-10 14:00".to_string());
    assert!(matches!(validate(entry).unwrap_err(), OrgModeError::InvalidDatetreeDate(_)));
}

#[test]
fn tests_test_datetree_rejects_date_with_time() {
    let mut entry = capture_minimal("dt.org", "x");
    entry.datetree = true;
    entry.datetree_date = Some("2026-05-10 14:00".to_string());
    assert!(matches!(validate(entry).unwrap_err(), OrgModeError::InvalidDatetreeDate(_)));
}

#[test]
fn test_capture_rejects_path_traversal_via_dotdot() {
    let entry = capture_minimal("../outside/foo.org", "Escape");
    assert!(matches!(validate(entry).unwrap_err(), OrgModeError::InvalidDirectory(_)));
}

#[test]
fn test_capture_rejects_absolute_file_path() {
    let entry = capture_minimal("/tmp/somewhere/foo.org", "Abs");
    assert!(matches!(validate(entry).unwrap_err(), OrgModeError::InvalidDirectory(_)));
}

#[test]
fn test_capture_rejects_empty_target_heading_segments() {
    for bad in ["A//B", "/A", "A/", "  /B"] {
        let mut entry = capture_minimal("test.org", "X");
        entry.target_heading = Some(bad.to_string());
        let err = validate(entry).unwrap_err();
        assert!(
            matches!(err, OrgModeError::InvalidHeadingPath(_)),
            "expected InvalidHeadingPath for '{bad}', got {err:?}"
        );
    }
}

#[test]
fn test_validate_rejects_missing_target() {
    let org_mode = make_org_mode();
    let mut e = entry_by_path();
    e.file = None;
    e.heading_path = None;
    assert!(matches!(org_mode.validate_update(&e).unwrap_err(), OrgModeError::InvalidUpdate(_)));
}

#[test]
fn test_validate_rejects_file_without_heading_path() {
    let org_mode = make_org_mode();
    let mut e = entry_by_path();
    e.heading_path = None;
    assert!(matches!(org_mode.validate_update(&e).unwrap_err(), OrgModeError::InvalidUpdate(_)));
}

#[test]
fn test_validate_rejects_noop() {
    let org_mode = make_org_mode();
    let mut e = entry_by_path();
    e.todo_state = None;
    match org_mode.validate_update(&e).unwrap_err() {
        OrgModeError::InvalidUpdate(msg) => assert_eq!(msg, "nothing to update"),
        other => panic!("expected InvalidUpdate, got {other:?}"),
    }
}

#[test]
fn test_validate_rejects_set_and_clear_same_field() {
    let org_mode = make_org_mode();
    let mut e = entry_by_path();
    e.todo_state = None;
    e.scheduled = Some("2026-05-15".to_string());
    e.clear = vec![ClearField::Scheduled];
    match org_mode.validate_update(&e).unwrap_err() {
        OrgModeError::InvalidUpdate(msg) => assert!(msg.contains("scheduled")),
        other => panic!("expected InvalidUpdate, got {other:?}"),
    }
}

#[test]
fn test_validate_rejects_invalid_keyword_priority_tag() {
    let org_mode = make_org_mode();
    let mut e = entry_by_path();
    e.todo_state = Some("MAYBE".to_string());
    assert!(matches!(org_mode.validate_update(&e).unwrap_err(), OrgModeError::InvalidTodoKeyword(_)));

    let mut e = entry_by_path();
    e.todo_state = None;
    e.priority = Some("Z".to_string());
    assert!(matches!(org_mode.validate_update(&e).unwrap_err(), OrgModeError::InvalidPriority(_)));

    let mut e = entry_by_path();
    e.todo_state = None;
    e.tags = Some(vec!["bad tag".to_string()]);
    assert!(matches!(org_mode.validate_update(&e).unwrap_err(), OrgModeError::InvalidTag(_)));
}

#[test]
fn test_validate_rejects_invalid_timestamp_and_traversal() {
    let org_mode = make_org_mode();
    let mut e = entry_by_path();
    e.todo_state = None;
    e.scheduled = Some("tomorrow".to_string());
    assert!(matches!(org_mode.validate_update(&e).unwrap_err(), OrgModeError::InvalidTimestamp { .. }));

    let mut e = entry_by_path();
    e.file = Some("../escape.org".to_string());
    assert!(matches!(org_mode.validate_update(&e).unwrap_err(), OrgModeError::InvalidDirectory(_)));
}

#[test]
fn test_validate_rejects_empty_heading_path_segment() {
    let org_mode = make_org_mode();
    let mut e = entry_by_path();
    e.heading_path = Some("Daily Tasks//Buy groceries".to_string());
    assert!(matches!(org_mode.validate_update(&e).unwrap_err(), OrgModeError::InvalidHeadingPath(_)));
}

#[test]
fn test_validate_accepts_clear_only_update() {
    let org_mode = make_org_mode();
    let mut e = entry_by_path();
    e.todo_state = None;
    e.clear = vec![ClearField::Priority];
    assert!(org_mode.validate_update(&e).is_ok());
}

#[test]
fn test_validate_rejects_empty_title() {
    let org_mode = make_org_mode();
    let mut e = entry_by_path();
    e.todo_state = None;
    e.title = Some("  ".to_string());
    assert!(matches!(org_mode.validate_update(&e).unwrap_err(), OrgModeError::InvalidTitle(_)));
}

#[test]
fn test_validate_rejects_title_with_newline() {
    let org_mode = make_org_mode();
    let mut e = entry_by_path();
    e.todo_state = None;
    e.title = Some("bad\ntitle".to_string());
    assert!(matches!(org_mode.validate_update(&e).unwrap_err(), OrgModeError::InvalidTitle(_)));
}

#[test]
fn test_validate_rejects_body_and_clear_body_together() {
    let org_mode = make_org_mode();
    let mut e = entry_by_path();
    e.todo_state = None;
    e.body = Some("some text".to_string());
    e.clear = vec![ClearField::Body];
    assert!(matches!(org_mode.validate_update(&e).unwrap_err(), OrgModeError::InvalidUpdate(_)));
}

#[test]
fn test_validate_rejects_property_key_conflict() {
    let org_mode = make_org_mode();
    let mut e = entry_by_path();
    e.todo_state = None;
    e.properties = Some(vec![PropertyPair { key: "EFFORT".to_string(), value: "1h".to_string() }]);
    e.remove_properties = Some(vec!["EFFORT".to_string()]);
    assert!(matches!(org_mode.validate_update(&e).unwrap_err(), OrgModeError::InvalidUpdate(_)));
}

#[test]
fn test_validate_rejects_invalid_property_key() {
    let org_mode = make_org_mode();
    let mut e = entry_by_path();
    e.todo_state = None;
    e.properties = Some(vec![PropertyPair { key: "bad key".to_string(), value: "v".to_string() }]);
    assert!(matches!(org_mode.validate_update(&e).unwrap_err(), OrgModeError::InvalidPropertyKey(_)));
}

#[test]
fn test_validate_rejects_property_value_with_newline() {
    let org_mode = make_org_mode();
    let mut e = entry_by_path();
    e.todo_state = None;
    e.properties = Some(vec![PropertyPair { key: "NOTE".to_string(), value: "line1\nline2".to_string() }]);
    assert!(matches!(org_mode.validate_update(&e).unwrap_err(), OrgModeError::InvalidPropertyValue { .. }));
}

#[test]
fn test_validate_directory_expansion() {
    let config = OrgConfig { org_directory: "/tmp/some/org".to_string(), ..OrgConfig::default() };
    let validated = config.validate(RootDirProbe::Readable).unwrap();
    assert_eq!(validated.org_directory, "/tmp/some/org");
}

#[test]
fn test_validate_nonexistent_directory() {
    let config = OrgConfig { org_directory: "/nonexistent/test/directory".to_string(), ..OrgConfig::default() };
    let msg = config_error(config.validate(RootDirProbe::Missing));
    assert!(msg.contains("Root directory does not exist"));
}

#[test]
fn test_validate_empty_keywords() {
    let msg = config_error(keywords_config(&[]).validate(RootDirProbe::Readable));
    assert!(msg.contains("must contain at least two keywords"));
}

#[test]
fn test_validate_single_keyword() {
    let msg = config_error(keywords_config(&["TODO"]).validate(RootDirProbe::Readable));
    assert!(msg.contains("must contain at least two keywords"));
}

#[test]
fn test_validate_multiple_separators() {
    let msg = config_error(keywords_config(&["TODO", "|", "DONE", "|", "CANCELLED"]).validate(RootDirProbe::Readable));
    assert!(msg.contains("Multiple '|' separators"));
}

#[test]
fn test_validate_separator_at_beginning() {
    let msg = config_error(keywords_config(&["|", "DONE"]).validate(RootDirProbe::Readable));
    assert!(msg.contains("cannot be at the beginning"));
}

#[test]
fn test_validate_separator_at_end() {
    let msg = config_error(keywords_config(&["TODO", "|"]).validate(RootDirProbe::Readable));
    assert!(msg.contains("cannot be at the end"));
}

#[test]
fn test_validate_only_separator() {
    let msg = config_error(keywords_config(&["|"]).validate(RootDirProbe::Readable));
    assert!(msg.contains("must contain at least two keywords"));
}

#[test]
fn test_validate_valid_keywords_with_separator() {
    assert!(keywords_config(&["TODO", "|", "DONE"]).validate(RootDirProbe::Readable).is_ok());
}

#[test]
fn test_validate_valid_keywords_without_separator() {
    assert!(keywords_config(&["TODO", "DONE"]).validate(RootDirProbe::Readable).is_ok());
}

#[test]
fn test_validate_multiple_unfinished_and_finished() {
    assert!(keywords_config(&["TODO", "IN_PROGRESS", "|", "DONE", "CANCELLED"]).validate(RootDirProbe::Readable).is_ok());
}

#[test]
fn test_invalid_directory_error() {
    let result = OrgMode::new(
        OrgConfig { org_directory: "/completely/nonexistent/directory/path".to_string(), ..OrgConfig::default() },
        RootDirProbe::Missing,
    );
    assert!(result.is_err());
    match result.unwrap_err() {
        OrgModeError::ConfigError(msg) => assert!(msg.contains("/completely/nonexistent/directory/path")),
        err => panic!("Root directory does not exist: {:?}", err),
    }
}

#[test]
fn test_error_display_formatting() {
    let display = OrgModeError::InvalidDirectory("/some/path".to_string()).message();
    assert!(display.contains("/some/path"));
    assert!(display.contains("Invalid or inaccessible directory"));
    let display = OrgModeError::InvalidHeadingPath("Some/Path".to_string()).message();
    assert!(display.contains("Some/Path"));
    assert!(display.contains("Invalid heading path"));
    let display = OrgModeError::InvalidElementId("id-123".to_string()).message();
    assert!(display.contains("id-123"));
    assert!(display.contains("Invalid element id"));
    let display = OrgModeError::ShellExpansionError("~/path".to_string()).message();
    assert!(display.contains("~/path"));
    assert!(display.contains("Failed to expand path"));
    let display = OrgModeError::ConfigError("Invalid configuration".to_string()).message();
    assert!(display.contains("Invalid configuration"));
    assert!(display.contains("Configuration error"));
}

#[test]
fn test_invalid_agenda_view_type_error() {
    let display = OrgModeError::InvalidAgendaViewType("invalid-view".to_string()).message();
    assert!(display.contains("Invalid agenda view type"));
    assert!(display.contains("invalid-view"));
}
