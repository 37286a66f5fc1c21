use org_core::agenda_files::{agenda_glob, agenda_path, glob_matches, select_agenda_files, walk_root};

fn strings(v: &[&str]) -> Vec<String> {
    v.iter().map(|s| s.to_string()).collect()
}

#[test]
fn locations_become_globs() {
    assert_eq!(agenda_path("agenda.org", "/home/u/org/"), "/home/u/org/agenda.org");
    assert_eq!(agenda_path("agenda.org", "/home/u/org"), "/home/u/org/agenda.org");
    assert_eq!(agenda_path("/abs/file.org", "/home/u/org"), "/abs/file.org");
    assert_eq!(agenda_glob("projects/", "/home/u/org", true), "/home/u/org/projects/**/*.org");
    assert_eq!(agenda_glob("work/*.org", "/home/u/org", false), "/home/u/org/work/*.org");
    assert_eq!(walk_root("/home/u/org/work/*.org"), "/home/u/org/work/");
    assert_eq!(walk_root("/home/u/org/agenda.org"), "/home/u/org/agenda.org");
}

#[test]
fn agenda_files_match_once_in_order() {
    assert_eq!(glob_matches("/o/**/*.org", "/o/a/b.org"), Ok(true));
    assert_eq!(glob_matches("/o/**/*.org", "/o/a/b.txt"), Ok(false));
    assert!(glob_matches("[invalid", "/o/a").is_err());
    let globs = strings(&["/o/**/*.org", "[invalid", "/o/a.org"]);
    let walked = vec![
        strings(&["/o/a.org", "/o/notes.txt", "/o/sub/b.org"]),
        strings(&["/o/c.org"]),
        strings(&["/o/a.org"]),
    ];
    assert_eq!(select_agenda_files(&globs, &walked), strings(&["/o/a.org", "/o/sub/b.org"]));
}
