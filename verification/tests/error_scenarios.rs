use org_core::agenda::timestamp_when;
use org_core::config::{OrgConfig, RootDirProbe};
use org_core::orgdoc::parse_headlines;
use org_core::timestamp::OrgDate;
use org_core::{OrgMode, OrgModeError};

#[test]
fn test_invalid_heading_path_error() {
    let content = "* First Heading\nContent here.\n\n* Second Heading\nMore content.\n";
    let result = OrgMode::get_heading(content, "Nonexistent Heading");
    assert!(result.is_err());
    match result.unwrap_err() {
        OrgModeError::InvalidHeadingPath(path) => assert!(path.contains("Nonexistent Heading")),
        err => panic!("Expected InvalidHeadingPath error, got: {:?}", err),
    }
}

#[test]
fn test_invalid_element_id_error() {
    let files = vec![(
        "test.org".to_string(),
        "* Heading\n:PROPERTIES:\n:ID: real-id-123\n:END:\nSome content.\n".to_string(),
    )];
    let result = OrgMode::get_element_by_id(&files, "nonexistent-id");
    assert!(result.is_err());
    match result.unwrap_err() {
        OrgModeError::InvalidElementId(id) => assert_eq!(id, "nonexistent-id"),
        err => panic!("Expected InvalidElementId error, got: {:?}", err),
    }
}

#[test]
fn test_empty_file_handling() {
    let outline = OrgMode::outline("");
    assert!(outline.children.is_empty());
}

#[test]
fn test_validate_non_directory_path() {
    let config = OrgConfig { org_directory: "/tmp/some-dir/not-a-dir.txt".to_string(), ..OrgConfig::default() };
    let result = config.validate(RootDirProbe::NotADirectory);
    assert!(result.is_err());
    match result.unwrap_err() {
        OrgModeError::ConfigError(msg) => assert!(msg.contains("not a directory")),
        _ => panic!("Expected ConfigError"),
    }
}

fn scheduled_start(content: &str) -> Option<(OrgDate, u64, u64)> {
    let headlines = parse_headlines(content, vec!["TODO".to_string()], vec!["DONE".to_string()]);
    let ts = headlines[0].scheduled_ts.as_ref().expect("Should find timestamp");
    timestamp_when(ts)
}

#[test]
fn test_timestamp_to_chrono_start() {
    let result = scheduled_start("* TODO Task\nSCHEDULED: <2025-06-15 Sun 14:30>");
    assert!(result.is_some());
    let (date, hour, minute) = result.unwrap();
    assert_eq!(date.year, 2025);
    assert_eq!(date.month, 6);
    assert_eq!(date.day, 15);
    assert_eq!(hour, 14);
    assert_eq!(minute, 30);
}

#[test]
fn test_timestamp_to_chrono_without_time() {
    let result = scheduled_start("* TODO Task\nSCHEDULED: <2025-06-15 Sun>");
    assert!(result.is_some());
    let (date, hour, minute) = result.unwrap();
    assert_eq!(date.year, 2025);
    assert_eq!(date.month, 6);
    assert_eq!(date.day, 15);
    assert_eq!(hour, 0);
    assert_eq!(minute, 0);
}
