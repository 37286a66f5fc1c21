use org_core::capture_plan::CapturePlan;
use org_core::config::{LoggingConfig, OrgConfig};
use org_core::server::{normalize_path, ServerConfig};
use org_core::tree::TreeNode;
use org_core::update_apply::render_planning_line;
use org_core::update_target::PlanningValues;
use org_core::utils::tags_match;
use org_core::OrgMode;

#[test]
fn test_default_org_config() {
    let config = OrgConfig::default();
    assert_eq!(config.org_directory, "~/org/");
    assert_eq!(config.org_default_notes_file, "notes.org");
    assert_eq!(config.org_agenda_files, vec!["agenda.org"]);
    assert!(config.org_agenda_text_search_extra_files.is_empty());
}

#[test]
fn test_default_logging_config() {
    let config = LoggingConfig::default();
    assert_eq!(config.level, "info");
    assert_eq!(config.file, "~/.local/share/org-mcp-server/logs/server.log");
}

#[test]
fn test_unfinished_keywords_with_separator() {
    let config = OrgConfig {
        org_todo_keywords: vec![
            "TODO".to_string(),
            "IN_PROGRESS".to_string(),
            "|".to_string(),
            "DONE".to_string(),
            "CANCELLED".to_string(),
        ],
        ..OrgConfig::default()
    };

    let unfinished = config.unfinished_keywords();
    assert_eq!(unfinished, vec!["TODO", "IN_PROGRESS"]);
}

#[test]
fn test_unfinished_keywords_without_separator() {
    let config = OrgConfig {
        org_todo_keywords: vec![
            "TODO".to_string(),
            "IN_PROGRESS".to_string(),
            "DONE".to_string(),
        ],
        ..OrgConfig::default()
    };

    let unfinished = config.unfinished_keywords();
    assert_eq!(unfinished, vec!["TODO", "IN_PROGRESS"]);
}

#[test]
fn test_finished_keywords_with_separator() {
    let config = OrgConfig {
        org_todo_keywords: vec![
            "TODO".to_string(),
            "|".to_string(),
            "DONE".to_string(),
            "CANCELLED".to_string(),
        ],
        ..OrgConfig::default()
    };

    let finished = config.finished_keywords();
    assert_eq!(finished, vec!["DONE", "CANCELLED"]);
}

#[test]
fn test_finished_keywords_without_separator() {
    let config = OrgConfig {
        org_todo_keywords: vec!["TODO".to_string(), "DONE".to_string()],
        ..OrgConfig::default()
    };

    let finished = config.finished_keywords();
    assert_eq!(finished, vec!["DONE"]);
}

#[test]
fn org_mode_test_format_heading_simple() {
    let result = OrgMode::format_heading(1, None, None, "My Title", None);
    assert_eq!(result, "* My Title");
}

#[test]
fn org_mode_test_format_heading_with_todo() {
    let result = OrgMode::format_heading(2, Some("TODO"), None, "Task", None);
    assert_eq!(result, "** TODO Task");
}

#[test]
fn org_mode_test_format_heading_with_priority() {
    let result = OrgMode::format_heading(1, None, Some("A"), "Important", None);
    assert_eq!(result, "* [#A] Important");
}

#[test]
fn org_mode_test_format_heading_with_tags() {
    let tags = vec!["work".to_string(), "urgent".to_string()];
    let result = OrgMode::format_heading(1, None, None, "Title", Some(&tags));
    assert_eq!(result, "* Title :work:urgent:");
}

#[test]
fn org_mode_test_format_heading_full() {
    let tags = vec!["proj".to_string()];
    let result = OrgMode::format_heading(2, Some("TODO"), Some("B"), "My Task", Some(&tags));
    assert_eq!(result, "** TODO [#B] My Task :proj:");
}

#[test]
fn capture_test_format_heading_simple() {
    let result = OrgMode::format_heading(1, None, None, "My Title", None);
    assert_eq!(result, "* My Title");
}

#[test]
fn capture_test_format_heading_with_todo() {
    let result = OrgMode::format_heading(2, Some("TODO"), None, "Task", None);
    assert_eq!(result, "** TODO Task");
}

#[test]
fn capture_test_format_heading_with_priority() {
    let result = OrgMode::format_heading(1, None, Some("A"), "Important", None);
    assert_eq!(result, "* [#A] Important");
}

#[test]
fn capture_test_format_heading_with_tags() {
    let tags = vec!["work".to_string(), "urgent".to_string()];
    let result = OrgMode::format_heading(1, None, None, "Title", Some(&tags));
    assert_eq!(result, "* Title :work:urgent:");
}

#[test]
fn capture_test_format_heading_full() {
    let tags = vec!["proj".to_string()];
    let result = OrgMode::format_heading(2, Some("TODO"), Some("B"), "My Task", Some(&tags));
    assert_eq!(result, "** TODO [#B] My Task :proj:");
}

#[test]
fn test_is_count_unit_rejects_short_input() {
    assert!(!OrgMode::is_count_unit(""));
    assert!(!OrgMode::is_count_unit("d"));
}

#[test]
fn test_render_planning_line_order_and_none() {
    let values = PlanningValues {
        scheduled: Some("<2026-05-15 Fri>".to_string()),
        deadline: None,
        closed: Some("[2026-05-16 Sat]".to_string()),
    };
    assert_eq!(
        render_planning_line(&values).as_deref(),
        Some("SCHEDULED: <2026-05-15 Fri> CLOSED: [2026-05-16 Sat]")
    );
    assert_eq!(render_planning_line(&PlanningValues::default()), None);
}

#[test]
fn test_tree_node_creation() {
    let node = TreeNode::new("Test Heading".to_string());
    assert_eq!(node.label, "Test Heading");
    assert_eq!(node.level, 0);
    assert!(node.children.is_empty());

    let node_with_level = TreeNode::new_with_level("Test Heading".to_string(), 2);
    assert_eq!(node_with_level.label, "Test Heading");
    assert_eq!(node_with_level.level, 2);
    assert!(node_with_level.children.is_empty());
}

#[test]
fn test_tree_node_indented_string() {
    let mut parent = TreeNode::new_with_level("Parent".to_string(), 1);
    let child = TreeNode::new_with_level("Child".to_string(), 2);
    parent.children.push(child);

    let result = parent.to_indented_string(0);
    let expected = "* Parent\n  ** Child\n";
    assert_eq!(result, expected);
}

#[test]
fn test_tags_match_both_empty() {
    let item_tags: Vec<String> = vec![];
    let filter_tags: Vec<String> = vec![];
    assert!(tags_match(&item_tags, &filter_tags));
}

#[test]
fn test_tags_match_empty_items_with_filter() {
    let item_tags: Vec<String> = vec![];
    let filter_tags = vec!["tag1".to_string()];
    assert!(!tags_match(&item_tags, &filter_tags));
}

#[test]
fn test_tags_match_all_present() {
    let item_tags = vec!["tag1".to_string(), "tag2".to_string(), "tag3".to_string()];
    let filter_tags = vec!["tag1".to_string(), "tag2".to_string()];
    assert!(tags_match(&item_tags, &filter_tags));
}

#[test]
fn test_tags_match_partial_match() {
    let item_tags = vec!["tag1".to_string(), "tag2".to_string()];
    let filter_tags = vec!["tag1".to_string(), "tag3".to_string()];
    assert!(!tags_match(&item_tags, &filter_tags));
}

#[test]
fn test_tags_match_subset() {
    let item_tags = vec!["tag1".to_string(), "tag2".to_string(), "tag3".to_string()];
    let filter_tags = vec!["tag2".to_string()];
    assert!(tags_match(&item_tags, &filter_tags));
}

#[test]
fn test_tags_match_empty_filter() {
    let item_tags = vec!["tag1".to_string(), "tag2".to_string()];
    let filter_tags: Vec<String> = vec![];
    assert!(tags_match(&item_tags, &filter_tags));
}

#[test]
fn test_tags_match_exact() {
    let item_tags = vec!["tag1".to_string(), "tag2".to_string()];
    let filter_tags = vec!["tag1".to_string(), "tag2".to_string()];
    assert!(tags_match(&item_tags, &filter_tags));
}

#[test]
fn test_default_server_config() {
    let config = ServerConfig::default();
    assert_eq!(config.max_connections, 10);
}

#[test]
fn test_normalize_path() {
    assert_eq!(normalize_path("/tmp/test"), "/tmp/test");
    assert_eq!(normalize_path("C:\\Users\\test"), "C:/Users/test");
}

#[allow(dead_code)]
fn plan_type_is_public(p: CapturePlan) -> String {
    p.new_content
}
