use org_core::agenda::AgendaViewType;
use org_core::agenda_files::{agenda_glob, select_agenda_files, walk_root};
use org_core::config::{OrgConfig, RootDirProbe};
use org_core::tasks::{AgendaItem, AgendaView, Priority};
use org_core::timestamp::OrgDate;
use org_core::OrgMode;

// The agenda fixtures, written out for a "today" of Wednesday 2025-06-18:
// the week runs from Monday 2025-06-16 to Sunday 2025-06-22.
const TODAY: OrgDate = OrgDate { year: 2025, month: 6, day: 18 };

const ROOT: &str = "/tmp/org-agenda-fixtures";

const AGENDA: &str = "\
#+TITLE: Agenda
* Work
** TODO Archive old tickets
SCHEDULED: <2025-03-03 Mon>
** TODO [#B] Review pull requests :work:
SCHEDULED: <2025-06-18 Wed>
** TODO Team standup :work:meeting:
SCHEDULED: <2025-06-18 Wed 09:00>
** TODO [#A] Complete quarterly report :work:
SCHEDULED: <2025-06-19 Thu> DEADLINE: <2025-06-23 Mon>
** TODO [#A] Code review session :work:review:urgent:
SCHEDULED: <2025-06-21 Sat>
** DONE [#C] Update documentation :work:
CLOSED: [2025-06-10 Tue]
* Personal
** TODO Buy groceries :personal:
SCHEDULED: <2025-06-20 Fri>
** TODO [#C] Call dentist :personal:urgent:
DEADLINE: <2025-06-22 Sun>
** Reading
*** TODO Chapter one notes
SCHEDULED: <2025-06-24 Tue>
";

const PROJECT: &str = "\
#+TITLE: Project
* Milestones
** TODO [#A] Draft design document :work:
SCHEDULED: <2025-06-23 Mon>
** TODO [#B] Set up repository :work:
*** TODO Configure CI pipeline
* Backlog
** TODO Write tests
** TODO Plan sprint
";

const BASIC: &str = "* A plain heading\nNo tasks here.\n";

fn strings(v: &[&str]) -> Vec<String> {
    v.iter().map(|s| s.to_string()).collect()
}

fn org_mode_with(keywords: Option<Vec<String>>) -> OrgMode {
    let mut config = OrgConfig {
        org_directory: ROOT.to_string(),
        org_agenda_files: strings(&["agenda.org", "project.org"]),
        ..OrgConfig::default()
    };
    if let Some(k) = keywords {
        config.org_todo_keywords = k;
    }
    OrgMode::new(config, RootDirProbe::Readable).expect("Failed to create test OrgMode")
}

fn agenda_files() -> Vec<(String, String)> {
    vec![("agenda.org".to_string(), AGENDA.to_string()), ("project.org".to_string(), PROJECT.to_string())]
}

fn tasks(
    states: Option<&[String]>,
    tags: Option<&[String]>,
    priority: Option<Priority>,
    limit: Option<usize>,
) -> Vec<AgendaItem> {
    org_mode_with(None).list_tasks(&agenda_files(), states, tags, priority, limit)
}

fn view(v: AgendaViewType, states: Option<&[String]>, tags: Option<&[String]>) -> AgendaView {
    org_mode_with(None).get_agenda_view(&agenda_files(), v, states, tags, None, TODAY)
}

fn has_tag(t: &AgendaItem, tag: &str) -> bool {
    t.tags.contains(&tag.to_string())
}

fn check_list_tasks_basic() {
    let tasks = tasks(None, None, None, None);
    assert!(!tasks.is_empty());
    assert!(tasks.len() >= 10, "Expected at least 10 tasks");
    assert!(tasks.iter().any(|t| t.file_path.contains("agenda.org")));
    assert!(tasks.iter().any(|t| t.file_path.contains("project.org")));
}

fn check_list_tasks_with_limit() {
    let tasks = tasks(None, None, None, Some(5));
    assert!(tasks.len() <= 5, "Expected at most 5 tasks");
}

fn check_list_tasks_todo_states() {
    let tasks = tasks(None, None, None, None);
    assert!(tasks.iter().any(|t| t.todo_state == Some("TODO".to_string())), "Should have TODO tasks");
    assert!(!tasks.iter().any(|t| t.todo_state == Some("DONE".to_string())), "Should not have DONE tasks");
}

fn check_list_tasks_priorities() {
    let tasks = tasks(None, None, None, None);
    assert!(tasks.iter().any(|t| t.priority == Some("A".to_string())), "Should have priority A tasks");
    assert!(tasks.iter().any(|t| t.priority == Some("B".to_string())), "Should have priority B tasks");
    assert!(tasks.iter().any(|t| t.priority == Some("C".to_string())), "Should have priority C tasks");
}

fn check_list_tasks_scheduled_deadline() {
    let tasks = tasks(None, None, None, None);
    assert!(tasks.iter().any(|t| t.scheduled.is_some()), "Should have tasks with scheduled dates");
    assert!(tasks.iter().any(|t| t.deadline.is_some()), "Should have tasks with deadline dates");
    let scheduled_task = tasks.iter().find(|t| t.scheduled.is_some()).unwrap();
    assert!(scheduled_task.scheduled.as_ref().unwrap().contains("2025"), "Scheduled date should contain year");
}

fn check_list_tasks_nested_headlines() {
    let tasks = tasks(None, None, None, None);
    let nested_tasks = tasks.iter().filter(|t| t.level >= 3).count();
    assert!(nested_tasks > 0, "Should have nested TODO items (level >= 3)");
}

fn check_list_tasks_file_path_handling() {
    for task in &tasks(None, None, None, None) {
        assert!(!task.file_path.starts_with('/'), "File path should be relative: {}", task.file_path);
        assert!(task.file_path.ends_with(".org"), "File path should end with .org: {}", task.file_path);
    }
}

fn check_list_tasks_custom_todo_keywords() {
    let om = org_mode_with(Some(strings(&["TODO", "IN_PROGRESS", "|", "DONE", "CANCELLED"])));
    let files = vec![("agenda.org".to_string(), AGENDA.to_string())];
    let tasks = om.list_tasks(&files, None, None, None, None);
    assert!(!tasks.is_empty());
    assert!(tasks.iter().any(|t| t.todo_state.is_some()));
}

fn check_list_tasks_empty_agenda_files() {
    let files = vec![("empty.org".to_string(), String::new())];
    let tasks = org_mode_with(None).list_tasks(&files, None, None, None, None);
    assert!(tasks.is_empty(), "Empty file should have no tasks");
}

fn check_list_tasks_glob_patterns() {
    // The location `*.org` under the org directory, matched against the directory's files.
    let glob = agenda_glob("*.org", ROOT, false);
    assert_eq!(walk_root(&glob), format!("{}/", ROOT));
    let on_disk = [("agenda.org", AGENDA), ("basic.org", BASIC), ("empty.org", ""), ("project.org", PROJECT)];
    let walked: Vec<String> = on_disk.iter().map(|(p, _)| format!("{}/{}", ROOT, p)).chain([format!("{}/notes.txt", ROOT)]).collect();
    let chosen = select_agenda_files(&vec![glob], &vec![walked]);
    assert_eq!(chosen.len(), 4);
    let files: Vec<(String, String)> = chosen
        .iter()
        .map(|full| {
            let rel = full.strip_prefix(&format!("{}/", ROOT)).unwrap().to_string();
            let content = on_disk.iter().find(|(p, _)| *p == rel).unwrap().1.to_string();
            (rel, content)
        })
        .collect();
    let tasks = org_mode_with(None).list_tasks(&files, None, None, None, None);
    assert!(!tasks.is_empty());
    assert!(tasks.len() >= 10, "Should find tasks from multiple files");
}

fn check_list_tasks_specific_heading_content() {
    let tasks = tasks(None, None, None, None);
    let quarterly_report = tasks.iter().find(|t| t.heading.contains("Complete quarterly report"));
    assert!(quarterly_report.is_some(), "Should find quarterly report task");
    let task = quarterly_report.unwrap();
    assert_eq!(task.todo_state, Some("TODO".to_string()));
    assert_eq!(task.priority, Some("A".to_string()));
    assert!(task.scheduled.is_some());
    assert!(task.deadline.is_some());
}

fn check_list_tasks_limit_zero() {
    assert!(tasks(None, None, None, Some(0)).is_empty(), "Limit of 0 should return no tasks");
}

fn check_list_tasks_with_state_filter() {
    let todo_tasks = tasks(Some(&strings(&["TODO"])), None, None, None);
    assert!(!todo_tasks.is_empty(), "Should have TODO tasks");
    for task in &todo_tasks {
        assert_eq!(task.todo_state.as_deref(), Some("TODO"), "Task '{}' should have TODO state", task.heading);
    }
    assert!(todo_tasks.len() >= 10, "Expected at least 10 TODO tasks, got {}", todo_tasks.len());
    let done_tasks = tasks(Some(&strings(&["DONE"])), None, None, None);
    assert!(done_tasks.is_empty(), "Should not have DONE tasks");
}

fn check_list_tasks_with_tag_filter() {
    let work_tasks = tasks(None, Some(&strings(&["work"])), None, None);
    assert!(work_tasks.len() >= 2, "Should have at least 2 tasks with 'work' tag, got {}", work_tasks.len());
    for task in &work_tasks {
        assert!(has_tag(task, "work"), "Task '{}' should have 'work' tag, has {:?}", task.heading, task.tags);
    }
    let personal_tasks = tasks(None, Some(&strings(&["personal"])), None, None);
    assert!(!personal_tasks.is_empty(), "Should have at least 1 task with 'personal' tag");
    for task in &personal_tasks {
        assert!(has_tag(task, "personal"), "Task '{}' should have 'personal' tag", task.heading);
    }
    let urgent_tasks = tasks(None, Some(&strings(&["urgent"])), None, None);
    assert!(!urgent_tasks.is_empty(), "Should have at least 1 task with 'urgent' tag");
    for task in &urgent_tasks {
        assert!(has_tag(task, "urgent"), "Task '{}' should have 'urgent' tag", task.heading);
    }
}

fn check_list_tasks_with_priority_filter() {
    let a_tasks = tasks(None, None, Some(Priority::A), None);
    assert!(a_tasks.len() >= 2, "Should have at least 2 priority A tasks, got {}", a_tasks.len());
    for task in &a_tasks {
        assert_eq!(task.priority.as_deref(), Some("A"), "Task '{}' should have priority A", task.heading);
    }
    let b_tasks = tasks(None, None, Some(Priority::B), None);
    assert!(!b_tasks.is_empty(), "Should have at least 1 priority B task");
    for task in &b_tasks {
        assert_eq!(task.priority.as_deref(), Some("B"), "Task '{}' should have priority B", task.heading);
    }
    let c_tasks = tasks(None, None, Some(Priority::C), None);
    for task in &c_tasks {
        assert_eq!(task.priority.as_deref(), Some("C"), "Task '{}' should have priority C", task.heading);
    }
    let no_priority_tasks = tasks(None, None, Some(Priority::Unset), None);
    assert!(!no_priority_tasks.is_empty(), "Should have tasks with no priority");
    for task in &no_priority_tasks {
        assert!(task.priority.is_none(), "Task '{}' should have no priority, has {:?}", task.heading, task.priority);
    }
}

fn check_list_tasks_combined_filters() {
    let todo_a_tasks = tasks(Some(&strings(&["TODO"])), None, Some(Priority::A), None);
    assert!(todo_a_tasks.len() >= 2, "Should have TODO tasks with priority A, got {}", todo_a_tasks.len());
    for task in &todo_a_tasks {
        assert_eq!(task.todo_state.as_deref(), Some("TODO"));
        assert_eq!(task.priority.as_deref(), Some("A"));
    }
    let todo_work_tasks = tasks(Some(&strings(&["TODO"])), Some(&strings(&["work"])), None, None);
    assert!(todo_work_tasks.len() >= 2, "Should have TODO work tasks, got {}", todo_work_tasks.len());
    for task in &todo_work_tasks {
        assert_eq!(task.todo_state.as_deref(), Some("TODO"));
        assert!(has_tag(task, "work"));
    }
    let todo_work_urgent = tasks(Some(&strings(&["TODO"])), Some(&strings(&["work", "urgent"])), None, None);
    assert!(!todo_work_urgent.is_empty(), "Should have at least 1 TODO work+urgent task");
    for task in &todo_work_urgent {
        assert_eq!(task.todo_state.as_deref(), Some("TODO"));
        assert!(has_tag(task, "work"));
        assert!(has_tag(task, "urgent"));
    }
}

fn check_list_tasks_multiple_tags() {
    let review_urgent_tasks = tasks(None, Some(&strings(&["review", "urgent"])), None, None);
    assert!(!review_urgent_tasks.is_empty(), "Should have at least 1 task with review+urgent tags");
    for task in &review_urgent_tasks {
        assert!(has_tag(task, "review"));
        assert!(has_tag(task, "urgent"));
    }
    let work_review_tasks = tasks(None, Some(&strings(&["work", "review"])), None, None);
    assert!(!work_review_tasks.is_empty(), "Should have tasks with work+review tags");
    for task in &work_review_tasks {
        assert!(has_tag(task, "work"));
        assert!(has_tag(task, "review"));
    }
}

fn check_list_tasks_no_match_filters() {
    assert!(tasks(None, Some(&strings(&["nonexistent"])), None, None).is_empty(), "Should have no tasks with nonexistent tag");
    assert!(tasks(Some(&strings(&["DONE"])), None, Some(Priority::A), None).is_empty(), "Should have no DONE tasks with priority A");
    assert!(tasks(None, Some(&strings(&["personal", "work"])), None, None).is_empty(), "Should have no tasks with both personal and work tags");
}

fn check_get_agenda_view_today() {
    let view = view(AgendaViewType::Today, None, None);
    assert!(view.start_date.is_some(), "Today view should have start_date");
    assert!(view.end_date.is_some(), "Today view should have end_date");
    assert!(view.items.len() >= 2, "Should find at least 2 tasks scheduled for today, found {}", view.items.len());
    let has_review_prs = view.items.iter().any(|item| item.heading.contains("Review pull requests"));
    let has_standup = view.items.iter().any(|item| item.heading.contains("Team standup"));
    assert!(has_review_prs || has_standup, "Should find at least one of today's scheduled tasks");
}

fn check_get_agenda_view_current_week() {
    let view = view(AgendaViewType::CurrentWeek, None, None);
    assert!(view.start_date.is_some(), "Week view should have start_date");
    assert!(view.end_date.is_some(), "Week view should have end_date");
    assert!(!view.items.is_empty(), "Should find at least 1 task in current week");
    let has_weekly_task = view
        .items
        .iter()
        .any(|i| i.heading.contains("Review pull requests") || i.heading.contains("Team standup"));
    assert!(has_weekly_task, "Should find tasks from the current week");
}

fn check_get_agenda_view_custom_week() {
    let view = view(AgendaViewType::Week(9), None, None);
    assert!(view.start_date.is_some(), "Week view should have start_date");
    assert!(view.end_date.is_some(), "Week view should have end_date");
}

fn check_get_agenda_view_custom_range() {
    let from = OrgDate { year: 2025, month: 6, day: 19 };
    let to = OrgDate { year: 2025, month: 6, day: 24 };
    let view = view(AgendaViewType::Custom { from, to }, None, None);
    assert!(view.start_date.is_some(), "Custom view should have start_date");
    assert!(view.end_date.is_some(), "Custom view should have end_date");
    assert!(view.items.len() >= 3, "Should find at least 3 tasks in custom range, found {}", view.items.len());
    assert!(
        view.items.iter().any(|item| item.heading.contains("Complete quarterly report")),
        "Should find 'Complete quarterly report' task scheduled for the next day"
    );
}

fn check_get_agenda_view_with_filters() {
    let view = view(AgendaViewType::Today, Some(&strings(&["TODO"])), Some(&strings(&["work"])));
    assert!(view.items.iter().all(|i| i.todo_state.as_deref() == Some("TODO") && has_tag(i, "work")));
}

fn check_get_agenda_view_empty_results() {
    let from = OrgDate { year: 2030, month: 1, day: 1 };
    let to = OrgDate { year: 2030, month: 1, day: 7 };
    let view = view(AgendaViewType::Custom { from, to }, None, None);
    assert!(view.items.is_empty(), "Should have no tasks in far future, found {}", view.items.len());
}

fn check_agenda_today_finds_scheduled_tasks() {
    let view = view(AgendaViewType::Today, None, None);
    let review_task = view.items.iter().find(|item| item.heading.contains("Review pull requests"));
    assert!(review_task.is_some(), "Should find 'Review pull requests' task scheduled for today");
    if let Some(task) = review_task {
        assert_eq!(task.todo_state, Some("TODO".to_string()));
        assert!(has_tag(task, "work"));
        assert!(task.scheduled.is_some());
    }
}

fn check_agenda_today_excludes_future_tasks() {
    let view = view(AgendaViewType::Today, None, None);
    let has_future_task = view.items.iter().any(|item| item.heading.contains("Buy groceries"));
    assert!(!has_future_task, "Today's view should not include tasks scheduled for future dates");
}

fn check_agenda_week_includes_all_week_tasks() {
    let view = view(AgendaViewType::CurrentWeek, None, None);
    let task_headings: Vec<String> = view.items.iter().map(|i| i.heading.clone()).collect();
    assert!(!task_headings.is_empty(), "Week view should include at least one task");
    assert!(
        task_headings.iter().any(|h| h.contains("Review pull requests") || h.contains("Team standup")),
        "Week view should include today's tasks"
    );
}

#[test]
fn agenda_tests_test_list_tasks_basic() {
    check_list_tasks_basic();
}

#[test]
fn org_mode_tests_test_list_tasks_basic() {
    check_list_tasks_basic();
}

#[test]
fn agenda_tests_test_list_tasks_with_limit() {
    check_list_tasks_with_limit();
}

#[test]
fn org_mode_tests_test_list_tasks_with_limit() {
    check_list_tasks_with_limit();
}

#[test]
fn agenda_tests_test_list_tasks_todo_states() {
    check_list_tasks_todo_states();
}

#[test]
fn org_mode_tests_test_list_tasks_todo_states() {
    check_list_tasks_todo_states();
}

#[test]
fn agenda_tests_test_list_tasks_priorities() {
    check_list_tasks_priorities();
}

#[test]
fn org_mode_tests_test_list_tasks_priorities() {
    check_list_tasks_priorities();
}

#[test]
fn agenda_tests_test_list_tasks_scheduled_deadline() {
    check_list_tasks_scheduled_deadline();
}

#[test]
fn org_mode_tests_test_list_tasks_scheduled_deadline() {
    check_list_tasks_scheduled_deadline();
}

#[test]
fn agenda_tests_test_list_tasks_nested_headlines() {
    check_list_tasks_nested_headlines();
}

#[test]
fn org_mode_tests_test_list_tasks_nested_headlines() {
    check_list_tasks_nested_headlines();
}

#[test]
fn agenda_tests_test_list_tasks_file_path_handling() {
    check_list_tasks_file_path_handling();
}

#[test]
fn org_mode_tests_test_list_tasks_file_path_handling() {
    check_list_tasks_file_path_handling();
}

#[test]
fn agenda_tests_test_list_tasks_custom_todo_keywords() {
    check_list_tasks_custom_todo_keywords();
}

#[test]
fn org_mode_tests_test_list_tasks_custom_todo_keywords() {
    check_list_tasks_custom_todo_keywords();
}

#[test]
fn agenda_tests_test_list_tasks_empty_agenda_files() {
    check_list_tasks_empty_agenda_files();
}

#[test]
fn org_mode_tests_test_list_tasks_empty_agenda_files() {
    check_list_tasks_empty_agenda_files();
}

#[test]
fn agenda_tests_test_list_tasks_glob_patterns() {
    check_list_tasks_glob_patterns();
}

#[test]
fn org_mode_tests_test_list_tasks_glob_patterns() {
    check_list_tasks_glob_patterns();
}

#[test]
fn agenda_tests_test_list_tasks_specific_heading_content() {
    check_list_tasks_specific_heading_content();
}

#[test]
fn org_mode_tests_test_list_tasks_specific_heading_content() {
    check_list_tasks_specific_heading_content();
}

#[test]
fn agenda_tests_test_list_tasks_limit_zero() {
    check_list_tasks_limit_zero();
}

#[test]
fn org_mode_tests_test_list_tasks_limit_zero() {
    check_list_tasks_limit_zero();
}

#[test]
fn agenda_tests_test_list_tasks_with_state_filter() {
    check_list_tasks_with_state_filter();
}

#[test]
fn org_mode_tests_test_list_tasks_with_state_filter() {
    check_list_tasks_with_state_filter();
}

#[test]
fn agenda_tests_test_list_tasks_with_tag_filter() {
    check_list_tasks_with_tag_filter();
}

#[test]
fn org_mode_tests_test_list_tasks_with_tag_filter() {
    check_list_tasks_with_tag_filter();
}

#[test]
fn agenda_tests_test_list_tasks_with_priority_filter() {
    check_list_tasks_with_priority_filter();
}

#[test]
fn org_mode_tests_test_list_tasks_with_priority_filter() {
    check_list_tasks_with_priority_filter();
}

#[test]
fn agenda_tests_test_list_tasks_combined_filters() {
    check_list_tasks_combined_filters();
}

#[test]
fn org_mode_tests_test_list_tasks_combined_filters() {
    check_list_tasks_combined_filters();
}

#[test]
fn agenda_tests_test_list_tasks_multiple_tags() {
    check_list_tasks_multiple_tags();
}

#[test]
fn org_mode_tests_test_list_tasks_multiple_tags() {
    check_list_tasks_multiple_tags();
}

#[test]
fn agenda_tests_test_list_tasks_no_match_filters() {
    check_list_tasks_no_match_filters();
}

#[test]
fn org_mode_tests_test_list_tasks_no_match_filters() {
    check_list_tasks_no_match_filters();
}

#[test]
fn agenda_tests_test_get_agenda_view_today() {
    check_get_agenda_view_today();
}

#[test]
fn org_mode_tests_test_get_agenda_view_today() {
    check_get_agenda_view_today();
}

#[test]
fn agenda_tests_test_get_agenda_view_current_week() {
    check_get_agenda_view_current_week();
}

#[test]
fn org_mode_tests_test_get_agenda_view_current_week() {
    check_get_agenda_view_current_week();
}

#[test]
fn agenda_tests_test_get_agenda_view_custom_week() {
    check_get_agenda_view_custom_week();
}

#[test]
fn org_mode_tests_test_get_agenda_view_custom_week() {
    check_get_agenda_view_custom_week();
}

#[test]
fn agenda_tests_test_get_agenda_view_custom_range() {
    check_get_agenda_view_custom_range();
}

#[test]
fn org_mode_tests_test_get_agenda_view_custom_range() {
    check_get_agenda_view_custom_range();
}

#[test]
fn agenda_tests_test_get_agenda_view_with_filters() {
    check_get_agenda_view_with_filters();
}

#[test]
fn org_mode_tests_test_get_agenda_view_with_filters() {
    check_get_agenda_view_with_filters();
}

#[test]
fn agenda_tests_test_get_agenda_view_empty_results() {
    check_get_agenda_view_empty_results();
}

#[test]
fn org_mode_tests_test_get_agenda_view_empty_results() {
    check_get_agenda_view_empty_results();
}

#[test]
fn agenda_tests_test_agenda_today_finds_scheduled_tasks() {
    check_agenda_today_finds_scheduled_tasks();
}

#[test]
fn org_mode_tests_test_agenda_today_finds_scheduled_tasks() {
    check_agenda_today_finds_scheduled_tasks();
}

#[test]
fn agenda_tests_test_agenda_today_excludes_future_tasks() {
    check_agenda_today_excludes_future_tasks();
}

#[test]
fn org_mode_tests_test_agenda_today_excludes_future_tasks() {
    check_agenda_today_excludes_future_tasks();
}

#[test]
fn agenda_tests_test_agenda_week_includes_all_week_tasks() {
    check_agenda_week_includes_all_week_tasks();
}

#[test]
fn org_mode_tests_test_agenda_week_includes_all_week_tasks() {
    check_agenda_week_includes_all_week_tasks();
}
