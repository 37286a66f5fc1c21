use org_core::capture::{CaptureEntry, PropertyPair};
use org_core::capture_plan::CapturePlan;
use org_core::config::{OrgConfig, RootDirProbe};
use org_core::timestamp::{LocalDateTime, OrgDate};
use org_core::OrgMode;

fn org_mode_with(auto_created: bool) -> OrgMode {
    OrgMode::new(
        OrgConfig {
            org_directory: "/tmp/org-test".to_string(),
            org_auto_created_property: auto_created,
            ..OrgConfig::default()
        },
        RootDirProbe::Readable,
    )
    .unwrap()
}

fn capture_minimal(file: &str, title: &str) -> CaptureEntry {
    CaptureEntry {
        title: title.to_string(),
        level: None,
        todo_state: None,
        tags: None,
        priority: None,
        body: None,
        file: Some(file.to_string()),
        target_heading: None,
        scheduled: None,
        deadline: None,
        closed: None,
        properties: None,
        datetree: false,
        datetree_date: None,
    }
}

fn now() -> LocalDateTime {
    LocalDateTime { date: OrgDate { year: 2026, month: 5, day: 12 }, hour: 8, minute: 5, second: 0 }
}

/// Validates the entry and plans its insertion into `content`.
fn capture_with(om: &OrgMode, entry: &CaptureEntry, content: &str) -> CapturePlan {
    let valid = om.validate_capture(entry, now().date).unwrap();
    om.plan_capture(entry, &valid, content, now()).unwrap()
}

fn capture(entry: &CaptureEntry, content: &str) -> CapturePlan {
    capture_with(&org_mode_with(false), entry, content)
}

#[test]
fn tests_test_capture_append_to_new_file() {
    let plan = capture(&capture_minimal("new_file.org", "New Note"), "");
    assert_eq!(plan.result.file_path, "new_file.org");
    assert_eq!(plan.result.level, 1);
    assert_eq!(plan.result.heading_line, "* New Note");
    assert_eq!(plan.new_content, "* New Note\n");
}

#[test]
fn tests_test_capture_append_to_existing_file() {
    let plan = capture(&capture_minimal("existing.org", "Second Heading"), "* First Heading\nSome content.\n");
    assert_eq!(plan.result.heading_line, "* Second Heading");
    assert_eq!(plan.new_content, "* First Heading\nSome content.\n\n* Second Heading\n");
}

#[test]
fn tests_test_capture_append_under_target_heading() {
    let mut entry = capture_minimal("test.org", "New Project");
    entry.target_heading = Some("Projects".to_string());
    let plan = capture(&entry, "* Projects\nIntro text.\n* Archive\nOld stuff.\n");
    assert_eq!(plan.result.level, 2);
    assert_eq!(plan.result.under_target, Some("Projects".to_string()));
    assert_eq!(plan.new_content, "* Projects\nIntro text.\n\n** New Project\n* Archive\nOld stuff.\n");
}

#[test]
fn tests_test_capture_uses_default_notes_file() {
    let mut entry = capture_minimal("x.org", "Default Note");
    entry.file = None;
    let plan = capture(&entry, "");
    assert_eq!(plan.result.file_path, "notes.org");
    assert!(plan.new_content.contains("* Default Note"));
}

#[test]
fn capture_with_body_and_full_heading() {
    let mut entry = capture_minimal("full_test.org", "Important Task");
    entry.level = Some(2);
    entry.todo_state = Some("TODO".to_string());
    entry.tags = Some(vec!["work".to_string(), "urgent".to_string()]);
    entry.priority = Some("A".to_string());
    entry.body = Some("Deadline is tomorrow.".to_string());
    let plan = capture(&entry, "");
    assert_eq!(plan.result.heading_line, "** TODO [#A] Important Task :work:urgent:");
    assert_eq!(plan.new_content, "** TODO [#A] Important Task :work:urgent:\nDeadline is tomorrow.\n");
}

#[test]
fn tests_test_capture_target_heading_does_not_match_wrong_parent() {
    let mut entry = capture_minimal("test.org", "Item");
    entry.target_heading = Some("A/Work".to_string());
    let plan = capture(&entry, "* A\n* B\n** Work\n");
    assert_eq!(plan.result.level, 3);
    let content = plan.new_content;
    assert!(content.contains("* B\n** Work"));
    let a_pos = content.find("* A").unwrap();
    let b_pos = content.find("* B").unwrap();
    let item_pos = content.find("*** Item").unwrap();
    assert!(item_pos > a_pos && item_pos < b_pos);
}

#[test]
fn test_capture_bumps_level_on_fully_matched_target() {
    let mut entry = capture_minimal("bump.org", "Child");
    entry.target_heading = Some("Parent/Sub".to_string());
    entry.level = Some(1);
    let plan = capture(&entry, "* Parent\n** Sub\n");
    assert_eq!(plan.result.level, 3);
    assert!(plan.new_content.contains("*** Child"));
}

#[test]
fn tests_test_capture_with_all_planning_fields() {
    let mut entry = capture_minimal("planning.org", "Triple");
    entry.scheduled = Some("2026-05-15".to_string());
    entry.deadline = Some("2026-05-20 17:00".to_string());
    entry.closed = Some("2026-05-10".to_string());
    let plan = capture(&entry, "");
    assert!(plan.new_content.contains("SCHEDULED: <2026-05-15 Fri> DEADLINE: <2026-05-20 Wed 17:00> CLOSED: [2026-05-10 Sun]"));
}

#[test]
fn capture_with_properties_keeps_order() {
    let mut entry = capture_minimal("p.org", "T");
    entry.properties = Some(vec![
        PropertyPair { key: "CATEGORY".into(), value: "project".into() },
        PropertyPair { key: "EFFORT".into(), value: "1h".into() },
    ]);
    let plan = capture(&entry, "");
    assert_eq!(plan.new_content, "* T\n:PROPERTIES:\n:CATEGORY: project\n:EFFORT: 1h\n:END:\n");
    let mut entry = capture_minimal("p.org", "T");
    entry.properties = Some(vec![]);
    assert!(!capture(&entry, "").new_content.contains(":PROPERTIES:"));
}

#[test]
fn capture_auto_created_property() {
    let on = org_mode_with(true);
    let plan = capture_with(&on, &capture_minimal("c.org", "Note"), "");
    assert_eq!(plan.new_content, "* Note\n:PROPERTIES:\n:CREATED: [2026-05-12 Tue 08:05]\n:END:\n");
    let off = capture(&capture_minimal("c.org", "Note"), "");
    assert!(!off.new_content.contains(":PROPERTIES:"));
    let mut entry = capture_minimal("c.org", "Note");
    entry.properties = Some(vec![PropertyPair { key: "created".into(), value: "manual".into() }]);
    let plan = capture_with(&on, &entry, "");
    assert_eq!(plan.new_content.to_lowercase().matches(":created:").count(), 1);
    assert!(plan.new_content.contains(":created: manual"));
}

#[test]
fn capture_datetree_creates_and_reuses_days() {
    let mut entry = capture_minimal("dt.org", "First");
    entry.datetree = true;
    entry.datetree_date = Some("2026-05-10".to_string());
    let plan = capture(&entry, "");
    assert_eq!(plan.result.level, 4);
    assert_eq!(plan.new_content, "* 2026\n** 2026-05 May\n*** 2026-05-10 Sunday\n**** First\n");
    let mut second = entry.clone();
    second.title = "Second".to_string();
    let again = capture(&second, &plan.new_content);
    assert_eq!(again.new_content.matches("* 2026\n").count(), 1);
    assert_eq!(again.new_content.matches("*** 2026-05-10 Sunday").count(), 1);
    assert!(again.new_content.contains("**** First\n\n**** Second\n"));
}

#[test]
fn capture_datetree_under_target_heading() {
    let mut entry = capture_minimal("logs.org", "Standup");
    entry.target_heading = Some("Logs".to_string());
    entry.datetree = true;
    entry.datetree_date = Some("2026-05-10".to_string());
    let plan = capture(&entry, "* Logs\n");
    assert_eq!(plan.result.level, 5);
    assert_eq!(plan.new_content, "* Logs\n\n** 2026\n*** 2026-05 May\n**** 2026-05-10 Sunday\n***** Standup\n");
}

#[test]
fn capture_with_planning_and_properties_in_order() {
    let mut entry = capture_minimal("combo.org", "Combo");
    entry.scheduled = Some("2026-05-15".to_string());
    entry.deadline = Some("2026-05-20 17:00".to_string());
    entry.properties = Some(vec![PropertyPair { key: "CATEGORY".into(), value: "demo".into() }]);
    let plan = capture(&entry, "");
    assert_eq!(
        plan.new_content,
        "* Combo\nSCHEDULED: <2026-05-15 Fri> DEADLINE: <2026-05-20 Wed 17:00>\n:PROPERTIES:\n:CATEGORY: demo\n:END:\n"
    );
}

#[test]
fn capture_keeps_existing_text_without_final_newline() {
    let plan = capture(&capture_minimal("n.org", "Next"), "* Old\nno newline");
    assert_eq!(plan.new_content, "* Old\nno newline\n* Next\n");
}

#[test]
fn org_mode_test_capture_append_to_new_file() {
    tests_test_capture_append_to_new_file();
}

#[test]
fn org_mode_test_capture_append_to_existing_file() {
    tests_test_capture_append_to_existing_file();
}

#[test]
fn org_mode_test_capture_append_under_target_heading() {
    tests_test_capture_append_under_target_heading();
}

#[test]
fn org_mode_test_capture_uses_default_notes_file() {
    tests_test_capture_uses_default_notes_file();
}

#[test]
fn org_mode_test_capture_target_heading_does_not_match_wrong_parent() {
    tests_test_capture_target_heading_does_not_match_wrong_parent();
}

#[test]
fn org_mode_test_capture_with_all_planning_fields() {
    tests_test_capture_with_all_planning_fields();
}
