use org_core::orgdoc::{parse_headlines, OrgHeadline};
use org_core::tasks::Priority;
use org_core::timestamp::OrgDate;
use org_core::agenda::AgendaViewType;
use org_core::config::{OrgConfig, RootDirProbe};
use org_core::{OrgMode, OrgModeError};

const SIMPLE: &str = "* First Heading\nThis is content under the first heading.\n* Second Heading\nMore content.\n* Third Heading\n";

const NESTED: &str = "\
* Top Level Heading :project:
** Second Level A
*** Third Level
Deep text.
** Second Level B
* Another Top
";

const TASKS: &str = "\
#+TITLE: Tasks
* TODO [#A] Write report :work:urgent:
SCHEDULED: <2025-06-16 Mon>
* DONE Pay bills :home:
CLOSED: [2025-06-10 Tue]
* TODO [#B] Call plumber :home:
DEADLINE: <2025-06-20 Fri>
* Notes
** TODO Nested chore
SCHEDULED: <2025-06-30 Mon>
* NEXT Not a keyword here
";

fn org_mode() -> OrgMode {
    OrgMode::new(
        OrgConfig { org_directory: "/tmp/org-test".to_string(), ..OrgConfig::default() },
        RootDirProbe::Readable,
    )
    .unwrap()
}

fn files(list: &[(&str, &str)]) -> Vec<(String, String)> {
    list.iter().map(|(p, c)| (p.to_string(), c.to_string())).collect()
}

fn headlines(content: &str) -> Vec<OrgHeadline> {
    parse_headlines(content, vec!["TODO".to_string()], vec!["DONE".to_string()])
}

fn find_headline(content: &str) -> OrgHeadline {
    headlines(content).into_iter().next().expect("Should find headline")
}

#[test]
fn test_headline_to_agenda_item_basic() {
    let item = OrgMode::headline_to_agenda_item(&find_headline("* TODO Basic Task"), "test.org".to_string());
    assert_eq!(item.file_path, "test.org");
    assert_eq!(item.heading, "Basic Task");
    assert_eq!(item.level, 1);
    assert_eq!(item.todo_state, Some("TODO".to_string()));
    assert_eq!(item.priority, None);
    assert!(item.tags.is_empty());
}

#[test]
fn test_headline_to_agenda_item_with_priority() {
    let item = OrgMode::headline_to_agenda_item(&find_headline("* TODO [#A] High Priority Task"), "test.org".to_string());
    assert_eq!(item.heading, "High Priority Task");
    assert_eq!(item.priority, Some("A".to_string()));
}

#[test]
fn test_headline_to_agenda_item_with_tags() {
    let item = OrgMode::headline_to_agenda_item(&find_headline("* TODO Task with Tags :work:urgent:"), "test.org".to_string());
    assert_eq!(item.heading.trim(), "Task with Tags");
    assert!(item.tags.contains(&"work".to_string()));
    assert!(item.tags.contains(&"urgent".to_string()));
    assert_eq!(item.tags.len(), 2);
}

#[test]
fn test_headline_to_agenda_item_with_scheduled() {
    let h = find_headline("* TODO Scheduled Task\nSCHEDULED: <2025-06-15 Sun>");
    let item = OrgMode::headline_to_agenda_item(&h, "test.org".to_string());
    assert!(item.scheduled.is_some());
    assert!(item.scheduled.unwrap().contains("2025-06-15"));
}

#[test]
fn test_headline_to_agenda_item_with_deadline() {
    let h = find_headline("* TODO Task with Deadline\nDEADLINE: <2025-06-20 Fri>");
    let item = OrgMode::headline_to_agenda_item(&h, "test.org".to_string());
    assert!(item.deadline.is_some());
    assert!(item.deadline.unwrap().contains("2025-06-20"));
}

#[test]
fn test_headline_to_agenda_item_nested() {
    let h = headlines("* Parent\n** TODO Nested Task").into_iter().find(|h| h.level == 2).expect("Should find nested headline");
    let item = OrgMode::headline_to_agenda_item(&h, "test.org".to_string());
    assert_eq!(item.level, 2);
    assert_eq!(item.heading, "Nested Task");
}

#[test]
fn test_headline_to_agenda_item_position() {
    let item = OrgMode::headline_to_agenda_item(&find_headline("* TODO Task"), "test.org".to_string());
    assert!(item.position.is_some());
    let pos = item.position.unwrap();
    assert!(pos.start < pos.end);
}

#[test]
fn outline_of_simple_document() {
    let tree = OrgMode::outline(SIMPLE);
    assert_eq!(tree.label, "Document");
    assert_eq!(tree.children.len(), 3);
    assert_eq!(tree.children[0].label, "First Heading");
    assert_eq!(tree.children[0].level, 1);
    assert_eq!(tree.children[1].label, "Second Heading");
    assert_eq!(tree.children[2].label, "Third Heading");
    assert_eq!(tree.children[2].level, 1);
}

#[test]
fn outline_of_nested_document() {
    let tree = OrgMode::outline(NESTED);
    assert_eq!(tree.children.len(), 2);
    let top = &tree.children[0];
    assert_eq!(top.label, "Top Level Heading ");
    assert_eq!(top.tags, vec!["project"]);
    assert_eq!(top.children.len(), 2);
    assert_eq!(top.children[0].label, "Second Level A");
    assert_eq!(top.children[0].level, 2);
    assert_eq!(top.children[0].children.len(), 1);
    assert_eq!(top.children[0].children[0].label, "Third Level");
    assert_eq!(top.children[0].children[0].level, 3);
    assert_eq!(top.children[1].label, "Second Level B");
    assert_eq!(tree.children[1].label, "Another Top");
    assert!(OrgMode::outline("no headings at all\n").children.is_empty());
}

#[test]
fn get_heading_by_path() {
    let text = OrgMode::get_heading(SIMPLE, "First Heading").unwrap();
    assert!(text.contains("* First Heading"));
    assert!(text.contains("This is content under the first heading."));
    assert!(!text.contains("Second Heading"));
    let deep = OrgMode::get_heading(NESTED, "Top Level Heading /Second Level A/Third Level").unwrap();
    assert!(deep.contains("*** Third Level"));
    assert!(deep.contains("Deep text."));
    match OrgMode::get_heading(SIMPLE, "Missing Heading") {
        Err(OrgModeError::InvalidHeadingPath(p)) => assert_eq!(p, "Missing Heading"),
        other => panic!("unexpected {other:?}"),
    }
}

#[test]
fn search_and_fetch_by_id() {
    let doc = ":PROPERTIES:\n:ID: doc-1\n:END:\n#+TITLE: Doc\n* Heading\n";
    let with_heading = "* One\n:PROPERTIES:\n:ID: abc-123\n:END:\nBody one.\n* Two\n";
    assert_eq!(OrgMode::search_id(doc, "doc-1").as_deref(), Some(doc));
    let found = OrgMode::search_id(with_heading, "abc-123").unwrap();
    assert!(found.starts_with("* One"));
    assert!(found.contains("Body one."));
    assert!(!found.contains("* Two"));
    assert_eq!(OrgMode::search_id(with_heading, "ABC-123"), None);
    assert_eq!(OrgMode::search_id("", "x"), None);

    let fs = files(&[("a.org", "* Nothing\n"), ("b.org", with_heading), ("c.org", with_heading)]);
    let text = OrgMode::get_element_by_id(&fs, "abc-123").unwrap();
    assert!(text.contains("Body one."));
    match OrgMode::get_element_by_id(&fs, "missing") {
        Err(OrgModeError::InvalidElementId(id)) => assert_eq!(id, "missing"),
        other => panic!("unexpected {other:?}"),
    }
}

#[test]
fn fuzzy_search_over_files() {
    let fs = files(&[("tasks.org", TASKS), ("simple.org", SIMPLE)]);
    let hits = OrgMode::search(&fs, "plumber", None, None);
    assert!(!hits.is_empty());
    assert!(hits.iter().all(|h| h.file_path == "tasks.org"));
    assert!(hits[0].snippet.contains("plumber"));
    assert_eq!(hits[0].tags, vec!["work", "urgent", "home", "home"]);
    for w in hits.windows(2) {
        assert!(w[0].score >= w[1].score);
    }
    assert!(OrgMode::search(&fs, "   ", None, None).is_empty());
    assert!(OrgMode::search(&fs, "zzzqqq", None, None).is_empty());
    let limited = OrgMode::search(&fs, "heading", Some(1), None);
    assert_eq!(limited.len(), 1);
    let short = OrgMode::search(&fs, "content under", None, Some(10));
    assert!(!short.is_empty());
    assert_eq!(short[0].snippet, "This is co...");
}

#[test]
fn snippets_cut_at_characters() {
    assert_eq!(OrgMode::snippet("héllo wörld", 5), "héllo...");
    assert_eq!(OrgMode::snippet("short", 10), "short");
    assert_eq!(OrgMode::snippet("abc", 0), "...");
    assert_eq!(OrgMode::snippet("", 0), "");
}

#[test]
fn tags_and_tag_filters() {
    assert_eq!(OrgMode::tags_in_content(TASKS), vec!["work", "urgent", "home", "home"]);
    assert!(OrgMode::tags_in_content(SIMPLE).is_empty());
    let fs = files(&[("tasks.org", TASKS), ("simple.org", SIMPLE), ("nested.org", NESTED)]);
    let home = vec!["home".to_string()];
    assert_eq!(OrgMode::list_files_by_tags(&fs, &home), vec!["tasks.org"]);
    let either = vec!["project".to_string(), "urgent".to_string()];
    assert_eq!(OrgMode::list_files_by_tags(&fs, &either), vec!["tasks.org", "nested.org"]);
    assert!(OrgMode::list_files_by_tags(&fs, &["none".to_string()]).is_empty());
    assert_eq!(OrgMode::select_files(&fs, None, Some(2)), vec!["tasks.org", "simple.org"]);
    assert_eq!(OrgMode::select_files(&fs, Some(&either), Some(1)), vec!["tasks.org"]);
    let tagged = OrgMode::search_with_tags(&fs, "heading", Some(&home), None, None);
    assert!(tagged.is_empty());
    let tagged = OrgMode::search_with_tags(&fs, "level", Some(&["project".to_string()]), None, None);
    assert!(!tagged.is_empty());
    assert!(tagged.iter().all(|h| h.file_path == "nested.org"));
}

#[test]
fn list_tasks_with_filters() {
    let om = org_mode();
    let fs = files(&[("tasks.org", TASKS)]);
    let all = om.list_tasks(&fs, None, None, None, None);
    let names: Vec<&str> = all.iter().map(|t| t.heading.trim()).collect();
    assert_eq!(names, vec!["Write report", "Call plumber", "Nested chore"]);
    assert_eq!(all[0].priority.as_deref(), Some("A"));
    assert_eq!(all[2].level, 2);
    let home = vec!["home".to_string()];
    let by_tag = om.list_tasks(&fs, None, Some(&home), None, None);
    assert_eq!(by_tag.len(), 1);
    assert_eq!(by_tag[0].heading, "Call plumber ");
    let by_priority = om.list_tasks(&fs, None, None, Some(Priority::A), None);
    assert_eq!(by_priority.len(), 1);
    let unset = om.list_tasks(&fs, None, None, Some(Priority::Unset), None);
    assert_eq!(unset.len(), 1);
    assert_eq!(unset[0].heading, "Nested chore");
    assert_eq!(om.list_tasks(&fs, None, None, None, Some(2)).len(), 2);
    assert!(om.list_tasks(&fs, None, None, None, Some(0)).is_empty());
    let done = vec!["DONE".to_string()];
    assert!(om.list_tasks(&fs, Some(&done), None, None, None).is_empty());
    let todo = vec!["TODO".to_string()];
    assert_eq!(om.list_tasks(&fs, Some(&todo), None, None, None).len(), 3);
}

#[test]
fn agenda_view_for_a_week() {
    let om = org_mode();
    let fs = files(&[("tasks.org", TASKS)]);
    let today = OrgDate { year: 2025, month: 6, day: 18 };
    let view = om.get_agenda_view(&fs, AgendaViewType::CurrentWeek, None, None, None, today);
    let names: Vec<&str> = view.items.iter().map(|t| t.heading.trim()).collect();
    assert_eq!(names, vec!["Write report", "Call plumber"]);
    assert_eq!(view.start_date.as_deref(), Some("2025-06-16"));
    assert_eq!(view.end_date.as_deref(), Some("2025-06-22"));
    let day = om.get_agenda_view(&fs, AgendaViewType::Day(OrgDate { year: 2025, month: 6, day: 30 }), None, None, None, today);
    assert_eq!(day.items.len(), 1);
    assert_eq!(day.items[0].heading, "Nested chore");
    let empty = om.get_agenda_view(&fs, AgendaViewType::Day(OrgDate { year: 2025, month: 7, day: 1 }), None, None, None, today);
    assert!(empty.items.is_empty());
}

#[test]
fn agenda_repeaters_reach_later_days() {
    let om = org_mode();
    let weekly = "* TODO Standup\nSCHEDULED: <2025-06-02 Mon ++1w>\n";
    let fs = files(&[("r.org", weekly)]);
    let today = OrgDate { year: 2025, month: 6, day: 18 };
    let view = om.get_agenda_view(&fs, AgendaViewType::CurrentWeek, None, None, None, today);
    assert_eq!(view.items.len(), 1);
    let monthly = "* TODO Rent\nDEADLINE: <2025-01-31 Fri +1m>\n";
    let fs = files(&[("m.org", monthly)]);
    let feb = om.get_agenda_view(&fs, AgendaViewType::Day(OrgDate { year: 2025, month: 2, day: 28 }), None, None, None, today);
    assert_eq!(feb.items.len(), 1);
}
