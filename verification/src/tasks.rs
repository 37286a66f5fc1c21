//! TODO tasks across agenda files: the task records and their filters.
use vstd::prelude::*;
use crate::capture::opt_sview;
use crate::config::{spec_unfinished, spec_finished};
use crate::org_mode::OrgMode;
use crate::orgdoc::{OrgHeadline, parsed_headlines, parse_headlines};
use crate::search::take_limit;
use crate::text::{string_views, is_single};
use crate::utils::{spec_tags_match, seq_has_text, tags_match, contains_text};

verus! {

/// The state of a TODO item.
#[derive(Debug, Clone, PartialEq, Eq)]
pub enum TodoState {
    Todo,
    Done,
    Other(String),
}

/// A task priority filter; `Unset` selects tasks without a priority.
#[derive(Debug, Clone, Copy, PartialEq, Eq, Structural)]
pub enum Priority {
    A,
    B,
    C,
    Unset,
}

/// Byte span of a headline in its file.
#[derive(Debug, Clone, Copy)]
pub struct Position {
    pub start: u32,
    pub end: u32,
}

/// A task as listed: where it is and its heading's fields.
#[derive(Debug, Clone)]
pub struct AgendaItem {
    pub file_path: String,
    pub heading: String,
    pub level: usize,
    pub todo_state: Option<String>,
    pub priority: Option<String>,
    pub scheduled: Option<String>,
    pub deadline: Option<String>,
    pub tags: Vec<String>,
    pub position: Option<Position>,
}

/// The tasks of an agenda view, with the dates it covers.
#[derive(Debug, Clone)]
pub struct AgendaView {
    pub items: Vec<AgendaItem>,
    pub start_date: Option<String>,
    pub end_date: Option<String>,
}

/// The plain values of a task record.
pub open spec fn item_view(a: AgendaItem) -> (
    Seq<char>,
    Seq<char>,
    usize,
    Option<Seq<char>>,
    Option<Seq<char>>,
    Option<Seq<char>>,
    Option<Seq<char>>,
    Seq<Seq<char>>,
    Option<(u32, u32)>,
) {
    (
        a.file_path@,
        a.heading@,
        a.level,
        opt_sview(a.todo_state),
        opt_sview(a.priority),
        opt_sview(a.scheduled),
        opt_sview(a.deadline),
        string_views(a.tags@),
        match a.position {
            Some(p) => Some((p.start, p.end)),
            None => None,
        },
    )
}

pub open spec fn items_view(v: Seq<AgendaItem>) -> Seq<(
    Seq<char>,
    Seq<char>,
    usize,
    Option<Seq<char>>,
    Option<Seq<char>>,
    Option<Seq<char>>,
    Option<Seq<char>>,
    Seq<Seq<char>>,
    Option<(u32, u32)>,
)> {
    v.map_values(|a: AgendaItem| item_view(a))
}

/// The raw SCHEDULED timestamp of a headline.
pub open spec fn scheduled_raw(h: OrgHeadline) -> Option<Seq<char>> {
    match h.planning {
        Some(p) => opt_sview(p.scheduled),
        None => None,
    }
}

/// The raw DEADLINE timestamp of a headline.
pub open spec fn deadline_raw(h: OrgHeadline) -> Option<Seq<char>> {
    match h.planning {
        Some(p) => opt_sview(p.deadline),
        None => None,
    }
}

/// The task record of headline `h` of the file at `path`.
pub open spec fn task_view(path: Seq<char>, h: OrgHeadline) -> (
    Seq<char>,
    Seq<char>,
    usize,
    Option<Seq<char>>,
    Option<Seq<char>>,
    Option<Seq<char>>,
    Option<Seq<char>>,
    Seq<Seq<char>>,
    Option<(u32, u32)>,
) {
    (
        path,
        h.title_raw@,
        h.level,
        opt_sview(h.keyword),
        opt_sview(h.priority),
        scheduled_raw(h),
        deadline_raw(h),
        string_views(h.tags@),
        Some((h.start as u32, h.end as u32)),
    )
}

/// The headline's priority passes the filter `p`.
pub open spec fn priority_ok(hp: Option<String>, p: Priority) -> bool {
    match hp {
        Some(s) => (p == Priority::A && s@ == seq!['A']) || (p == Priority::B && s@ == seq!['B']) || (p == Priority::C && s@ == seq!['C']),
        None => p == Priority::Unset,
    }
}

pub open spec fn opt_strings(t: Option<&[String]>) -> Option<Seq<String>> {
    match t {
        Some(ts) => Some(ts@),
        None => None,
    }
}

/// An open task that passes the filters: an unfinished keyword, every tag of
/// `tags`, the priority `priority`, and a keyword among `states`.
pub open spec fn task_ok(h: OrgHeadline, states: Option<Seq<String>>, tags: Option<Seq<String>>, priority: Option<Priority>) -> bool {
    &&& h.is_todo
    &&& (tags matches Some(t) ==> spec_tags_match(h.tags@, t))
    &&& (priority matches Some(p) ==> priority_ok(h.priority, p))
    &&& (states matches Some(st) ==> (h.keyword matches Some(k) && seq_has_text(st, k@)))
}

/// The matching tasks among the first `n` headlines of `hs`, in order.
pub open spec fn tasks_in(path: Seq<char>, hs: Seq<OrgHeadline>, states: Option<Seq<String>>, tags: Option<Seq<String>>, priority: Option<Priority>, n: nat) -> Seq<(
    Seq<char>,
    Seq<char>,
    usize,
    Option<Seq<char>>,
    Option<Seq<char>>,
    Option<Seq<char>>,
    Option<Seq<char>>,
    Seq<Seq<char>>,
    Option<(u32, u32)>,
)>
    decreases n,
{
    if n == 0 || n > hs.len() {
        Seq::empty()
    } else {
        let r = tasks_in(path, hs, states, tags, priority, (n - 1) as nat);
        if task_ok(hs[n - 1], states, tags, priority) { r.push(task_view(path, hs[n - 1])) } else { r }
    }
}

/// The matching tasks of the first `n` files, file by file, each file parsed
/// with the keywords `todo` and `done`.
pub open spec fn tasks_of_files(files: Seq<(String, String)>, todo: Seq<Seq<char>>, done: Seq<Seq<char>>, states: Option<Seq<String>>, tags: Option<Seq<String>>, priority: Option<Priority>, n: nat) -> Seq<(
    Seq<char>,
    Seq<char>,
    usize,
    Option<Seq<char>>,
    Option<Seq<char>>,
    Option<Seq<char>>,
    Option<Seq<char>>,
    Seq<Seq<char>>,
    Option<(u32, u32)>,
)>
    decreases n,
{
    if n == 0 || n > files.len() {
        Seq::empty()
    } else {
        let hs = parsed_headlines(files[n - 1].1@, todo, done);
        tasks_of_files(files, todo, done, states, tags, priority, (n - 1) as nat) + tasks_in(files[n - 1].0@, hs, states, tags, priority, hs.len())
    }
}

fn clone_strings(v: &Vec<String>) -> (res: Vec<String>)
    ensures
        string_views(res@) == string_views(v@),
{
    let mut out: Vec<String> = Vec::new();
    let mut i: usize = 0;
    while i < v.len()
        invariant
            i <= v@.len(),
            string_views(out@) == string_views(v@.take(i as int)),
        decreases v@.len() - i,
    {
        let ghost before = string_views(out@);
        out.push(v[i].clone());
        proof {
            assert(string_views(out@) =~= before.push(v@[i as int]@));
            assert(string_views(v@.take(i + 1)) =~= string_views(v@.take(i as int)).push(v@[i as int]@));
        }
        i = i + 1;
    }
    proof { assert(v@.take(v@.len() as int) =~= v@); }
    out
}

fn clone_opt(o: &Option<String>) -> (res: Option<String>)
    ensures
        opt_sview(res) == opt_sview(*o),
{
    match o {
        Some(s) => Some(s.clone()),
        None => None,
    }
}

/// Whether the headline's priority passes the filter.
fn priority_matches(hp: &Option<String>, p: Priority) -> (res: bool)
    ensures
        res == priority_ok(*hp, p),
{
    match hp {
        Some(s) => (p == Priority::A && is_single(s.as_str(), 'A')) || (p == Priority::B && is_single(s.as_str(), 'B'))
            || (p == Priority::C && is_single(s.as_str(), 'C')),
        None => p == Priority::Unset,
    }
}

fn task_matches(h: &OrgHeadline, states: Option<&[String]>, tags: Option<&[String]>, priority: Option<Priority>) -> (res: bool)
    ensures
        res == task_ok(*h, opt_strings(states), opt_strings(tags), priority),
{
    if !h.is_todo {
        return false;
    }
    match tags {
        Some(t) => {
            if !tags_match(h.tags.as_slice(), t) {
                return false;
            }
        },
        None => {},
    }
    match priority {
        Some(p) => {
            if !priority_matches(&h.priority, p) {
                return false;
            }
        },
        None => {},
    }
    match states {
        Some(st) => match &h.keyword {
            Some(k) => contains_text(st, k),
            None => false,
        },
        None => true,
    }
}

impl OrgMode {
    /// The task record of headline `h` in the file at `file_path`.
    pub fn headline_to_agenda_item(h: &OrgHeadline, file_path: String) -> (res: AgendaItem)
        ensures
            item_view(res) == task_view(file_path@, *h),
    {
        let (scheduled, deadline) = match &h.planning {
            Some(p) => (clone_opt(&p.scheduled), clone_opt(&p.deadline)),
            None => (None, None),
        };
        AgendaItem {
            file_path,
            heading: h.title_raw.clone(),
            level: h.level,
            todo_state: clone_opt(&h.keyword),
            priority: clone_opt(&h.priority),
            scheduled,
            deadline,
            tags: clone_strings(&h.tags),
            position: Some(Position { start: #[verifier::truncate] (h.start as u32), end: #[verifier::truncate] (h.end as u32) }),
        }
    }

    /// The open tasks of `files` (each a path relative to the org directory
    /// and its content), file by file in document order, that carry every
    /// tag of `tags`, have the priority `priority` and a keyword among
    /// `todo_states`, cut to `limit`.
    pub fn list_tasks(
        &self,
        files: &Vec<(String, String)>,
        todo_states: Option<&[String]>,
        tags: Option<&[String]>,
        priority: Option<Priority>,
        limit: Option<usize>,
    ) -> (res: Vec<AgendaItem>)
        ensures
            ({
                let c = self.spec_config();
                items_view(res@) == take_limit(
                    tasks_of_files(
                        files@,
                        string_views(spec_unfinished(c.org_todo_keywords@)),
                        string_views(spec_finished(c.org_todo_keywords@)),
                        opt_strings(todo_states),
                        opt_strings(tags),
                        priority,
                        files@.len() as nat,
                    ),
                    limit,
                )
            }),
    {
        proof { self.lemma_spec_config(); use_type_invariant(self); }
        let ghost todo_v = string_views(spec_unfinished(self.spec_config().org_todo_keywords@));
        let ghost done_v = string_views(spec_finished(self.spec_config().org_todo_keywords@));
        let mut out: Vec<AgendaItem> = Vec::new();
        let mut k: usize = 0;
        while k < files.len()
            invariant
                k <= files@.len(),
                self.spec_config() == self.config,
                self.config.org_todo_keywords@.len() >= 1,
                todo_v == string_views(spec_unfinished(self.config.org_todo_keywords@)),
                done_v == string_views(spec_finished(self.config.org_todo_keywords@)),
                items_view(out@) == tasks_of_files(files@, todo_v, done_v, opt_strings(todo_states), opt_strings(tags), priority, k as nat),
            decreases files@.len() - k,
        {
            let todo = self.config.unfinished_keywords();
            let done = self.config.finished_keywords();
            let hs = parse_headlines(files[k].1.as_str(), todo, done);
            let ghost start = items_view(out@);
            let mut i: usize = 0;
            while i < hs.len()
                invariant
                    k < files@.len(),
                    i <= hs@.len(),
                    items_view(out@) == start + tasks_in(files@[k as int].0@, hs@, opt_strings(todo_states), opt_strings(tags), priority, i as nat),
                decreases hs@.len() - i,
            {
                if task_matches(&hs[i], todo_states, tags, priority) {
                    let item = Self::headline_to_agenda_item(&hs[i], files[k].0.clone());
                    let ghost before = items_view(out@);
                    out.push(item);
                    proof { assert(items_view(out@) =~= before.push(item_view(item))); }
                }
                i = i + 1;
            }
            k = k + 1;
        }
        let ghost all = items_view(out@);
        match limit {
            Some(l) => {
                out.truncate(l);
                proof {
                    if (l as int) < all.len() {
                        assert(items_view(out@) =~= all.take(l as int));
                    } else {
                        assert(items_view(out@) =~= all);
                    }
                }
            },
            None => {},
        }
        out
    }
}

} // verus!
