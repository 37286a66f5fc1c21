use org_core::config::{OrgConfig, RootDirProbe};
use org_core::search::SearchResult;
use org_core::{OrgMode, OrgModeError};

const SIMPLE: &str = "* First Heading\nThis is content under the first heading.\n* Second Heading\nContent under the second heading.\n* Third Heading\nThe third heading closes the file.\n";

const SAMPLE: &str = "#+TITLE: Sample\n* Top Level Heading\nIntro text.\n** Second Level A\n*** Third Level\nDeep content.\n** Second Level B\n* Another Top Level Heading\n";

const NESTED: &str = "* Project Planning\nPlanning overview.\n** Phase 1\n*** Setup Tasks\n- Install dependencies\n- Configure environment\n** Phase 2\nImplementation phase.\n*** Development\nWrite the code.\n*** Testing\nRun the test case suite.\n";

const WITH_IDS: &str = "* Heading with Simple ID\n:PROPERTIES:\n:ID: simple-123\n:END:\nThis heading has a simple ID for testing.\n** Subheading\nMore text.\n* Heading with UUID\n:PROPERTIES:\n:ID: 550e8400-e29b-41d4-a716-446655440000\n:END:\nThis heading has a UUID-style ID.\n* Parent Heading\n** Nested Heading with ID\n:PROPERTIES:\n:ID: nested-abc\n:END:\nThis is a nested heading with an ID.\n* Multiple Properties Heading\n:PROPERTIES:\n:ID: multi-prop-id\n:CREATED: [2023-01-01 Mon]\n:CATEGORY: test\n:END:\nThis heading has multiple properties including an ID.\n* Shared ID Test\n:PROPERTIES:\n:ID: shared-id-test\n:END:\nFirst holder of the shared ID.\n";

const DOC_WITH_ID: &str = ":PROPERTIES:\n:ID: document-level-id-456\n:TITLE: Document with ID\n:END:\nThis is a document with a document-level ID property.\n* A heading in the document\n";

const EDGE_CASES: &str = "* Case Sensitive Heading\n:PROPERTIES:\n:ID: CaseSensitiveID\n:END:\n* Heading with Special Characters\n:PROPERTIES:\n:ID: special-chars!@#$%\n:END:\n* Heading with Spaces\n:PROPERTIES:\n:ID:    spaces-around   \n:END:\n";

const PROJECT_A: &str = "* Project Alpha\n:PROPERTIES:\n:ID: project-alpha-001\n:END:\nAlpha work.\n";

const PROJECT_B: &str = "* Project Beta\n:PROPERTIES:\n:ID: project-beta-002\n:END:\nBeta work.\n* Shared ID Test\n:PROPERTIES:\n:ID: shared-id-test\n:END:\nSecond holder of the shared ID.\n";

const WITH_TAGS: &str = "* Project meeting notes :work:meeting:\n* Important Project milestone :work:important:\n* Task list for home :personal:\n* Learning Rust :learning:academic:\n* Urgent Task :urgent:work:\n* Old Project :archive:\n";

const UNICODE: &str = "* Unicode test heading\nThis is a test line with accents: café, naïve, résumé, and more text to make it long enough for truncation of the snippet at one hundred characters.\nEmojis 🚀 and symbols ∑ € appear here with characters from many scripts.\nHello 世界, Привет мир, مرحبا بالعالم — multi-byte character boundaries must hold in every snippet we cut.\n";

fn org_mode() -> OrgMode {
    OrgMode::new(
        OrgConfig { org_directory: "/tmp/org-fixtures".to_string(), ..OrgConfig::default() },
        RootDirProbe::Readable,
    )
    .unwrap()
}

fn files() -> Vec<(String, String)> {
    [
        ("simple.org", SIMPLE),
        ("sample.org", SAMPLE),
        ("nested.org", NESTED),
        ("with_ids.org", WITH_IDS),
        ("doc_with_id.org", DOC_WITH_ID),
        ("edge_cases.org", EDGE_CASES),
        ("project_a.org", PROJECT_A),
        ("project_b.org", PROJECT_B),
        ("with_tags.org", WITH_TAGS),
        ("unicode.org", UNICODE),
    ]
    .iter()
    .map(|(p, c)| (p.to_string(), c.to_string()))
    .collect()
}

fn content(name: &str) -> String {
    files().into_iter().find(|(p, _)| p == name).unwrap().1
}

fn search(query: &str, limit: Option<usize>, max: Option<usize>) -> Vec<SearchResult> {
    OrgMode::search(&files(), query, limit, max)
}

fn tags_in_file(name: &str) -> Vec<String> {
    OrgMode::tags_in_content(&content(name))
}

fn strings(v: &[&str]) -> Vec<String> {
    v.iter().map(|s| s.to_string()).collect()
}

#[test]
fn test_get_outline_simple() {
    let tree = OrgMode::outline(&content("simple.org"));
    assert_eq!(tree.label, "Document");
    assert_eq!(tree.children.len(), 3);
    assert_eq!(tree.children[0].label, "First Heading");
    assert_eq!(tree.children[0].level, 1);
    assert_eq!(tree.children[1].label, "Second Heading");
    assert_eq!(tree.children[1].level, 1);
    assert_eq!(tree.children[2].label, "Third Heading");
    assert_eq!(tree.children[2].level, 1);
}

#[test]
fn test_get_outline_nested() {
    let tree = OrgMode::outline(&content("sample.org"));
    assert_eq!(tree.label, "Document");
    assert_eq!(tree.children.len(), 2);
    assert_eq!(tree.children[0].label, "Top Level Heading");
    assert_eq!(tree.children[0].level, 1);
    assert_eq!(tree.children[0].children.len(), 2);
    assert_eq!(tree.children[0].children[0].label, "Second Level A");
    assert_eq!(tree.children[0].children[0].level, 2);
    assert_eq!(tree.children[0].children[0].children.len(), 1);
    assert_eq!(tree.children[0].children[0].children[0].label, "Third Level");
    assert_eq!(tree.children[0].children[0].children[0].level, 3);
}

#[test]
fn test_get_heading_simple() {
    let result = OrgMode::get_heading(&content("simple.org"), "First Heading").expect("Failed to get heading");
    assert!(result.contains("* First Heading"));
    assert!(result.contains("This is content under the first heading."));
}

#[test]
fn test_get_heading_nested_path() {
    let result = OrgMode::get_heading(&content("nested.org"), "Project Planning/Phase 1/Setup Tasks")
        .expect("Failed to get nested heading");
    assert!(result.contains("*** Setup Tasks"));
    assert!(result.contains("Install dependencies"));
    assert!(result.contains("Configure environment"));
}

#[test]
fn test_get_heading_nonexistent() {
    match OrgMode::get_heading(&content("simple.org"), "Nonexistent Heading") {
        Err(OrgModeError::InvalidHeadingPath(path)) => assert_eq!(path, "Nonexistent Heading"),
        _ => panic!("Expected InvalidHeadingPath error"),
    }
}

#[test]
fn test_get_heading_invalid_path() {
    match OrgMode::get_heading(&content("nested.org"), "Project Planning/Nonexistent/Deep") {
        Err(OrgModeError::InvalidHeadingPath(path)) => assert_eq!(path, "Project Planning/Nonexistent/Deep"),
        _ => panic!("Expected InvalidHeadingPath error"),
    }
}

#[test]
fn test_get_heading_second_level() {
    let result = OrgMode::get_heading(&content("nested.org"), "Project Planning/Phase 2")
        .expect("Failed to get second level heading");
    assert!(result.contains("** Phase 2"));
    assert!(result.contains("Implementation phase."));
    assert!(result.contains("*** Development"));
    assert!(result.contains("*** Testing"));
}

#[test]
fn test_get_element_by_id_simple_heading() {
    let result = OrgMode::get_element_by_id(&files(), "simple-123").expect("Failed to get element by simple ID");
    assert!(result.contains("* Heading with Simple ID"));
    assert!(result.contains(":ID: simple-123"));
    assert!(result.contains("This heading has a simple ID for testing."));
    assert!(result.contains("** Subheading"));
}

#[test]
fn test_get_element_by_id_uuid_heading() {
    let result = OrgMode::get_element_by_id(&files(), "550e8400-e29b-41d4-a716-446655440000")
        .expect("Failed to get element by UUID ID");
    assert!(result.contains("* Heading with UUID"));
    assert!(result.contains(":ID: 550e8400-e29b-41d4-a716-446655440000"));
    assert!(result.contains("This heading has a UUID-style ID."));
}

#[test]
fn test_get_element_by_id_document_level() {
    let result = OrgMode::get_element_by_id(&files(), "document-level-id-456")
        .expect("Failed to get document-level element by ID");
    assert!(result.contains(":ID: document-level-id-456"));
    assert!(result.contains(":TITLE: Document with ID"));
    assert!(result.contains("This is a document with a document-level ID property."));
}

#[test]
fn test_get_element_by_id_nested_heading() {
    let result = OrgMode::get_element_by_id(&files(), "nested-abc").expect("Failed to get nested element by ID");
    assert!(result.contains("** Nested Heading with ID"));
    assert!(result.contains(":ID: nested-abc"));
    assert!(result.contains("This is a nested heading with an ID."));
}

#[test]
fn test_get_element_by_id_with_multiple_properties() {
    let result = OrgMode::get_element_by_id(&files(), "multi-prop-id")
        .expect("Failed to get element with multiple properties");
    assert!(result.contains("* Multiple Properties Heading"));
    assert!(result.contains(":ID: multi-prop-id"));
    assert!(result.contains(":CREATED: [2023-01-01 Mon]"));
    assert!(result.contains(":CATEGORY: test"));
    assert!(result.contains("This heading has multiple properties including an ID."));
}

#[test]
fn test_get_element_by_id_nonexistent() {
    match OrgMode::get_element_by_id(&files(), "nonexistent-id") {
        Err(OrgModeError::InvalidElementId(id)) => assert_eq!(id, "nonexistent-id"),
        _ => panic!("Expected InvalidElementId error"),
    }
}

#[test]
fn test_get_element_by_id_case_sensitive() {
    assert!(OrgMode::get_element_by_id(&files(), "CaseSensitiveID").is_ok());
    assert!(OrgMode::get_element_by_id(&files(), "casesensitiveid").is_err());
    assert!(OrgMode::get_element_by_id(&files(), "CASESENSITIVEID").is_err());
}

#[test]
fn test_get_element_by_id_special_characters() {
    let result = OrgMode::get_element_by_id(&files(), "special-chars!@#$%")
        .expect("Failed to get element with special characters in ID");
    assert!(result.contains("* Heading with Special Characters"));
    assert!(result.contains(":ID: special-chars!@#$%"));
}

#[test]
fn test_get_element_by_id_whitespace_handling() {
    let result = OrgMode::get_element_by_id(&files(), "spaces-around");
    assert!(result.is_ok(), "Should find ID despite whitespace in org file");
}

#[test]
fn test_get_element_by_id_multi_file_search() {
    let result_a = OrgMode::get_element_by_id(&files(), "project-alpha-001");
    assert!(result_a.is_ok());
    assert!(result_a.unwrap().contains("* Project Alpha"));
    let result_b = OrgMode::get_element_by_id(&files(), "project-beta-002");
    assert!(result_b.is_ok());
    assert!(result_b.unwrap().contains("* Project Beta"));
}

#[test]
fn test_get_element_by_id_duplicate_id_precedence() {
    let result = OrgMode::get_element_by_id(&files(), "shared-id-test");
    assert!(result.is_ok());
    let text = result.unwrap();
    assert!(text.contains("* Shared ID Test"));
    assert!(text.contains(":ID: shared-id-test"));
    assert!(text.contains("First holder of the shared ID."));
}

#[test]
fn test_search_id_heading_found() {
    let found = OrgMode::search_id(&content("with_ids.org"), "simple-123").unwrap();
    assert!(found.contains("* Heading with Simple ID"));
    assert!(found.contains(":ID: simple-123"));
}

#[test]
fn test_search_id_document_found() {
    let found = OrgMode::search_id(&content("doc_with_id.org"), "document-level-id-456").unwrap();
    assert!(found.contains(":ID: document-level-id-456"));
    assert!(found.contains(":TITLE: Document with ID"));
}

#[test]
fn test_search_id_not_found() {
    assert!(OrgMode::search_id(&content("with_ids.org"), "nonexistent-id").is_none());
}

#[test]
fn test_search_id_empty_content() {
    assert!(OrgMode::search_id("", "any-id").is_none());
}

#[test]
fn test_search_id_case_sensitivity() {
    let text = content("edge_cases.org");
    assert!(OrgMode::search_id(&text, "CaseSensitiveID").is_some());
    assert!(OrgMode::search_id(&text, "casesensitiveid").is_none());
}

#[test]
fn test_search_basic_functionality() {
    let results = search("First", None, None);
    assert!(!results.is_empty());
    assert!(results.iter().any(|r| r.snippet.contains("First")));
}

#[test]
fn test_search_with_limit() {
    let results = search("Heading", Some(2), None);
    assert!(results.len() <= 2);
}

#[test]
fn test_search_empty_query() {
    assert!(search("", None, None).is_empty());
    assert!(search("   ", None, None).is_empty());
}

#[test]
fn test_search_unicode_characters() {
    for result in search("test", None, None) {
        assert!(!result.snippet.is_empty());
        assert!(result.snippet.chars().count() > 0);
        if result.snippet.contains("...") {
            assert!(result.snippet.ends_with("..."));
        }
    }
}

#[test]
fn test_search_unicode_snippet_generation() {
    let results = search("truncation", None, None);
    for result in &results {
        assert!(result.snippet.chars().count() > 0);
        if result.snippet.len() > 100 {
            assert!(result.snippet.ends_with("..."));
        }
        assert!(result.snippet.chars().count() <= 103);
    }
    for result in &search("characters", None, None) {
        assert!(!result.snippet.is_empty());
    }
}

#[test]
fn test_search_unicode_edge_cases() {
    let _ = search("🚀", None, None);
    let _ = search("∑", None, None);
    let _ = search("€", None, None);
    for result in &search("Emojis", None, None) {
        assert!(result.snippet.chars().count() > 0);
    }
    let _ = search("Hello", None, None);
}

#[test]
fn test_search_unicode_boundary_safety() {
    for result in search("character boundaries", None, None) {
        assert!(result.snippet.is_ascii() || result.snippet.chars().count() > 0);
        if result.snippet.len() > 97 {
            assert!(result.snippet.ends_with("..."));
        }
    }
}

#[test]
fn test_search_all_terms_must_match() {
    let _ = search("First", None, None);
    for result in search("test case", None, None) {
        assert!(!result.snippet.is_empty());
    }
}

#[test]
fn test_search_snippet_max_size_default() {
    for result in &search("truncation", None, None) {
        if result.snippet.ends_with("...") {
            assert!(result.snippet.chars().count() <= 103);
        }
    }
}

#[test]
fn test_search_snippet_max_size_custom() {
    for result in &search("content", None, Some(20)) {
        if result.snippet.ends_with("...") {
            assert!(result.snippet.chars().count() <= 23);
            assert!(result.snippet.chars().count() >= 20);
        } else {
            assert!(result.snippet.chars().count() <= 20);
        }
    }
}

#[test]
fn test_search_snippet_max_size_large() {
    for result in &search("heading", None, Some(500)) {
        assert!(!result.snippet.is_empty());
        assert!(result.snippet.chars().count() <= 503);
    }
}

#[test]
fn test_search_snippet_max_size_zero() {
    for result in &search("test", None, Some(0)) {
        assert_eq!(result.snippet, "...");
    }
}

#[test]
fn test_search_snippet_max_size_one() {
    for result in &search("test", None, Some(1)) {
        if result.snippet.ends_with("...") {
            assert_eq!(result.snippet.chars().count(), 4);
        } else {
            assert_eq!(result.snippet.chars().count(), 1);
        }
    }
}

#[test]
fn test_config_getter() {
    let om = org_mode();
    assert_eq!(om.config().org_directory, "/tmp/org-fixtures");
}

#[test]
fn test_tags_in_file_with_tags() {
    let tags = tags_in_file("with_tags.org");
    assert!(!tags.is_empty());
    for t in ["work", "important", "personal", "learning", "urgent", "meeting", "archive", "academic"] {
        assert!(tags.contains(&t.to_string()));
    }
}

#[test]
fn test_tags_in_file_no_tags() {
    assert!(tags_in_file("simple.org").is_empty());
}

#[test]
fn test_list_files_by_tags_single_tag() {
    let found = OrgMode::list_files_by_tags(&files(), &strings(&["work"]));
    assert!(!found.is_empty());
    assert!(found.iter().any(|f| f.contains("with_tags.org")));
}

#[test]
fn test_list_files_by_tags_multiple_tags() {
    let found = OrgMode::list_files_by_tags(&files(), &strings(&["work", "personal"]));
    assert!(!found.is_empty());
    assert!(found.iter().any(|f| f.contains("with_tags.org")));
}

#[test]
fn test_list_files_by_tags_no_match() {
    assert!(OrgMode::list_files_by_tags(&files(), &strings(&["nonexistent_tag"])).is_empty());
}

#[test]
fn test_list_files_by_tags_empty_list() {
    assert!(OrgMode::list_files_by_tags(&files(), &[]).is_empty());
}

#[test]
fn test_list_files_basic() {
    let found = OrgMode::select_files(&files(), None, None);
    assert!(!found.is_empty());
    assert!(found.iter().any(|f| f.ends_with(".org")));
}

#[test]
fn test_list_files_with_tags() {
    let work = strings(&["work"]);
    let found = OrgMode::select_files(&files(), Some(&work), None);
    assert!(!found.is_empty());
    for file in &found {
        assert!(tags_in_file(file).contains(&"work".to_string()));
    }
}

#[test]
fn test_list_files_with_limit() {
    assert!(OrgMode::select_files(&files(), None, Some(2)).len() <= 2);
}

#[test]
fn test_list_files_with_tags_and_limit() {
    let work = strings(&["work"]);
    let found = OrgMode::select_files(&files(), Some(&work), Some(1));
    assert!(found.len() <= 1);
    if !found.is_empty() {
        assert!(tags_in_file(&found[0]).contains(&"work".to_string()));
    }
}

#[test]
fn test_search_with_tags_single_tag() {
    let work = strings(&["work"]);
    for result in &OrgMode::search_with_tags(&files(), "Project", Some(&work), None, None) {
        assert!(result.tags.contains(&"work".to_string()), "Result should have work tag");
    }
}

#[test]
fn test_search_with_tags_multiple_tags() {
    let tags = strings(&["work", "personal"]);
    for result in &OrgMode::search_with_tags(&files(), "Project", Some(&tags), None, None) {
        assert!(result.tags.contains(&"work".to_string()) || result.tags.contains(&"personal".to_string()));
    }
}

#[test]
fn test_search_with_tags_no_match() {
    let tags = strings(&["nonexistent_tag"]);
    assert!(OrgMode::search_with_tags(&files(), "Project", Some(&tags), None, None).is_empty());
}

#[test]
fn test_search_with_tags_with_limit() {
    let work = strings(&["work"]);
    assert!(OrgMode::search_with_tags(&files(), "Task", Some(&work), Some(1), None).len() <= 1);
}

#[test]
fn test_search_with_tags_none() {
    assert!(!OrgMode::search_with_tags(&files(), "heading", None, None, None).is_empty());
}
