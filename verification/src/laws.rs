//! Properties that hold across the library's operations.
use vstd::prelude::*;
use crate::config::{is_sep, sep_index, sep_count, spec_unfinished, spec_finished, keywords_ok};
use crate::lines::splice_seq;
use crate::search::{sort_by_score, first_lower, spec_snippet, take_limit, search_results, tagged_hits, any_tag};
use crate::tasks::{Priority, tasks_of_files};
use crate::config::{RootDirProbe, tilde_expansion};
use crate::error::error_message;
use crate::server::slashes;
use crate::text::splice_bytes;
use crate::config::OrgConfig;
use crate::error::OrgModeError;
use crate::timestamp::{LocalDateTime, spec_org_timestamp};
use crate::update::{ClearField, ResolvedUpdate, UpdateEntry, clear_name};
use crate::update_apply::{rewrite_with, new_closed, new_keyword, now_stamp, cleared};
use crate::update_target::TargetView;
use crate::utils::{spec_tags_match, seq_has_text};
use crate::agenda::{headline_in_range, ts_in_range, ts_when, day_number, agenda_in, own_end, agenda_of_files, advance, moment};
use crate::orgdoc::RepeatUnit;
use crate::orgdoc::parsed_headlines;
use crate::tasks::{task_view, tasks_in};
use crate::orgdoc::{OrgHeadline, OrgTimestamp};
use crate::search::heading_scan;
use crate::tasks::task_ok;
use crate::timestamp::OrgDate;
use crate::capture::{spec_heading, tags_suffix};
use crate::update_apply::{new_heading, new_priority, new_title};
use crate::text::string_views;

verus! {

proof fn lemma_first_sep_exists(k: Seq<String>, i: int)
    requires
        0 <= i < k.len(),
        is_sep(k[i]),
    ensures
        exists|p: int| 0 <= p < k.len() && is_sep(#[trigger] k[p]) && forall|j: int|
            0 <= j < p ==> !is_sep(#[trigger] k[j]),
    decreases i,
{
    if exists|j: int| 0 <= j < i && is_sep(#[trigger] k[j]) {
        let j = choose|j: int| 0 <= j < i && is_sep(#[trigger] k[j]);
        lemma_first_sep_exists(k, j);
    } else {
        assert(0 <= i < k.len() && is_sep(k[i]) && forall|j: int| 0 <= j < i ==> !is_sep(#[trigger] k[j]));
    }
}

/// The keyword list splits into the unfinished keywords, the separator (when
/// there is one) and the finished keywords, in order: nothing is lost or
/// repeated.
pub proof fn lemma_keywords_partition(k: Seq<String>)
    requires
        keywords_ok(k),
    ensures
        match sep_index(k) {
            Some(p) => 0 <= p < k.len() && is_sep(k[p]) && spec_unfinished(k) + seq![k[p]] + spec_finished(k) == k,
            None => spec_unfinished(k) + spec_finished(k) == k,
        },
{
    match sep_index(k) {
        Some(p) => {
            let i = choose|i: int| 0 <= i < k.len() && is_sep(#[trigger] k[i]);
            lemma_first_sep_exists(k, i);
            assert(spec_unfinished(k) + seq![k[p]] + spec_finished(k) =~= k);
        },
        None => {
            assert(spec_unfinished(k) + spec_finished(k) =~= k);
        },
    }
}

/// Every tag list matches itself as a filter.
pub proof fn lemma_tags_match_reflexive(t: Seq<String>)
    ensures
        spec_tags_match(t, t),
{
    assert forall|j: int| 0 <= j < t.len() implies #[trigger] seq_has_text(t, t[j]@) by {
        assert(t[j]@ == t[j]@);
    }
}

/// A filter matches every list that holds all of a larger filter's tags:
/// dropping tags from a filter never loses a match.
pub proof fn lemma_tags_match_smaller_filter(item: Seq<String>, filter: Seq<String>, smaller: Seq<String>)
    requires
        spec_tags_match(item, filter),
        forall|j: int| 0 <= j < smaller.len() ==> seq_has_text(filter, #[trigger] smaller[j]@),
        item.len() > 0 || smaller.len() == 0,
    ensures
        spec_tags_match(item, smaller),
{
    assert forall|j: int| 0 <= j < smaller.len() implies #[trigger] seq_has_text(item, smaller[j]@) by {
        let i = choose|i: int| 0 <= i < filter.len() && #[trigger] filter[i]@ == smaller[j]@;
        assert(seq_has_text(item, filter[i]@));
    }
}

/// Distinct clearable fields have distinct names, so a field's name reads
/// back as that field.
pub proof fn lemma_clear_names_distinct(f: ClearField, g: ClearField)
    requires
        clear_name(f) == clear_name(g),
    ensures
        f == g,
{
    reveal_strlit("todo_state");
    reveal_strlit("priority");
    reveal_strlit("tags");
    reveal_strlit("scheduled");
    reveal_strlit("deadline");
    reveal_strlit("closed");
    reveal_strlit("body");
    if f != g {
        let a = clear_name(f);
        let b = clear_name(g);
        assert(a.len() != b.len() || a[0] != b[0] || a[1] != b[1] || a[2] != b[2]);
    }
}

/// Normalizing a path twice gives what normalizing once gives, and the
/// result holds no backslash.
pub proof fn lemma_normalize_path_idempotent(p: Seq<char>)
    ensures
        slashes(slashes(p)) == slashes(p),
        forall|i: int| 0 <= i < slashes(p).len() ==> #[trigger] slashes(p)[i] != '\\',
{
    assert(slashes(slashes(p)) =~= slashes(p));
}

/// A snippet is at most three characters longer than its limit, and a text
/// within the limit is its own snippet.
pub proof fn lemma_snippet_bounds(s: Seq<char>, max: nat)
    ensures
        spec_snippet(s, max).len() <= max + 3,
        s.len() <= max ==> spec_snippet(s, max) == s,
        s.len() > max ==> spec_snippet(s, max).take(max as int) == s.take(max as int),
{
    reveal_strlit("...");
    if s.len() > max {
        assert(spec_snippet(s, max).take(max as int) =~= s.take(max as int));
    }
}

/// Scores never rise along the sequence.
pub open spec fn scores_descending(s: Seq<(Seq<char>, Seq<char>, u32, Seq<Seq<char>>)>) -> bool {
    forall|i: int, j: int| 0 <= i < j < s.len() ==> #[trigger] s[i].2 >= #[trigger] s[j].2
}

proof fn lemma_first_lower_facts(s: Seq<(Seq<char>, Seq<char>, u32, Seq<Seq<char>>)>, score: u32, i: int)
    requires
        0 <= i <= s.len(),
    ensures
        i <= first_lower(s, score, i) <= s.len(),
        forall|k: int| i <= k < first_lower(s, score, i) ==> #[trigger] s[k].2 >= score,
        first_lower(s, score, i) < s.len() ==> s[first_lower(s, score, i)].2 < score,
    decreases s.len() - i,
{
    if i < s.len() {
        lemma_first_lower_facts(s, score, i + 1);
    }
}

/// Search hits come out ordered by descending score, none lost or added.
pub proof fn lemma_search_sorted(s: Seq<(Seq<char>, Seq<char>, u32, Seq<Seq<char>>)>)
    ensures
        scores_descending(sort_by_score(s)),
        sort_by_score(s).len() == s.len(),
        sort_by_score(s).to_multiset() == s.to_multiset(),
    decreases s.len(),
{
    if s.len() > 0 {
        let t = sort_by_score(s.drop_last());
        lemma_search_sorted(s.drop_last());
        let x = s.last();
        let p = first_lower(t, x.2, 0);
        lemma_first_lower_facts(t, x.2, 0);
        let r = t.insert(p, x);
        assert forall|i: int, j: int| 0 <= i < j < r.len() implies #[trigger] r[i].2 >= #[trigger] r[j].2 by {
            if j < p {
                assert(r[i] == t[i] && r[j] == t[j]);
            } else if j == p {
                assert(r[i] == t[i]);
            } else if i < p {
                assert(r[i] == t[i] && r[j] == t[j - 1]);
                if p < t.len() {
                    assert(t[p].2 < x.2);
                }
            } else if i == p {
                assert(r[j] == t[j - 1]);
                assert(t[p].2 < x.2 || p == t.len());
                assert(t[p].2 >= t[j - 1].2 || j - 1 == p);
            } else {
                assert(r[i] == t[i - 1] && r[j] == t[j - 1]);
            }
        }
        assert(r.to_multiset() =~= t.to_multiset().insert(x)) by {
            vstd::seq_lib::to_multiset_insert(t, p, x);
        }
        assert(s.to_multiset() =~= s.drop_last().to_multiset().insert(x)) by {
            vstd::seq_lib::to_multiset_build(s.drop_last(), x);
            assert(s.drop_last().push(x) =~= s);
        }
    }
}

/// A capture only inserts: the file's bytes before the insertion point and
/// after it are kept, and the inserted text sits between them.
pub proof fn lemma_capture_keeps_content(before: Seq<u8>, pos: int, ins: Seq<u8>)
    requires
        0 <= pos <= before.len(),
    ensures
        splice_bytes(before, pos, ins).take(pos) == before.take(pos),
        splice_bytes(before, pos, ins).subrange(pos, pos + ins.len()) == ins,
        splice_bytes(before, pos, ins).skip(pos + ins.len()) == before.skip(pos),
        splice_bytes(before, pos, ins).len() == before.len() + ins.len(),
{
    let n = splice_bytes(before, pos, ins);
    assert(n.take(pos) =~= before.take(pos));
    assert(n.subrange(pos, pos + ins.len()) =~= ins);
    assert(n.skip(pos + ins.len()) =~= before.skip(pos));
}

/// The regions an update rewrites come after the heading line and in order:
/// planning, then the property drawer, then the body.
pub open spec fn regions_ordered(t: TargetView) -> bool {
    &&& 0 <= t.line_idx < t.planning_first_line
    &&& 0 <= t.planning_line_count
    &&& t.planning_first_line + t.planning_line_count <= t.drawer_first_line
    &&& 0 <= t.drawer_line_count
    &&& t.drawer_first_line + t.drawer_line_count <= t.body_first_line
}

/// An update leaves every line before the heading line as it was.
pub proof fn lemma_update_keeps_earlier_lines(
    l0: Seq<Seq<char>>,
    t: TargetView,
    heading: Seq<char>,
    p: Seq<Seq<char>>,
    d: Option<Seq<Seq<char>>>,
    b: Option<Seq<Seq<char>>>,
    sep: Seq<char>,
    k: int,
)
    requires
        rewrite_with(l0, t, heading, p, d, b, sep) is Some,
        regions_ordered(t),
        0 <= k < t.line_idx,
    ensures
        rewrite_with(l0, t, heading, p, d, b, sep).unwrap().0[k] == l0[k],
{
    let pf = t.planning_first_line;
    let pc = t.planning_line_count;
    let l1 = l0.update(t.line_idx, heading);
    let l2 = splice_seq(l1, pf, pc, p);
    assert(l2[k] == l0[k]);
    let df = t.drawer_first_line + p.len() - pc;
    let l3 = match d {
        Some(dl) => splice_seq(l2, df, t.drawer_line_count, dl),
        None => l2,
    };
    assert(l3[k] == l0[k]);
}

/// With automatic CLOSED stamps on, and no CLOSED given or cleared: a
/// heading that ends in a finished keyword without a CLOSED stamp gets one
/// for `now`, one that already had a stamp keeps it, and a heading that
/// ends in an unfinished keyword or none loses its stamp.
pub proof fn lemma_auto_closed(c: OrgConfig, e: UpdateEntry, r: ResolvedUpdate, t: TargetView, now: LocalDateTime)
    requires
        c.org_auto_closed_timestamp,
        !cleared(e, ClearField::Closed),
        r.closed is None,
    ensures
        (new_keyword(e, t) matches Some(k) && seq_has_text(spec_finished(c.org_todo_keywords@), k)) ==> new_closed(c, e, r, t, now) == (match t.planning_values.2 {
            Some(x) => Some(x),
            None => Some(spec_org_timestamp(now_stamp(now), false)),
        }),
        !(new_keyword(e, t) matches Some(k) && seq_has_text(spec_finished(c.org_todo_keywords@), k)) ==> new_closed(c, e, r, t, now) is None,
{
}

/// Listing tasks with a limit of `n` gives the first `n` tasks of the
/// unlimited list (all of them when there are fewer); a limit of 0 gives
/// none.
pub proof fn lemma_list_tasks_limit(
    files: Seq<(String, String)>,
    todo: Seq<Seq<char>>,
    done: Seq<Seq<char>>,
    states: Option<Seq<String>>,
    tags: Option<Seq<String>>,
    priority: Option<Priority>,
    n: usize,
)
    ensures
        ({
            let all = take_limit(tasks_of_files(files, todo, done, states, tags, priority, files.len() as nat), None);
            let cut = take_limit(tasks_of_files(files, todo, done, states, tags, priority, files.len() as nat), Some(n));
            &&& cut.len() == if n < all.len() { n as int } else { all.len() as int }
            &&& cut == all.take(cut.len() as int)
            &&& n == 0 ==> cut.len() == 0
        }),
{
    let all = tasks_of_files(files, todo, done, states, tags, priority, files.len() as nat);
    if !(n < all.len()) {
        assert(all.take(all.len() as int) =~= all);
    }
}

/// The tag-filtered hits are the hits that carry some tag of the filter,
/// in their order.
pub proof fn lemma_tagged_hits_filter(s: Seq<(Seq<char>, Seq<char>, u32, Seq<Seq<char>>)>, filter: Seq<Seq<char>>)
    ensures
        tagged_hits(s, filter) == s.filter(|r: (Seq<char>, Seq<char>, u32, Seq<Seq<char>>)| any_tag(r.3, filter)),
    decreases s.len(),
{
    reveal(Seq::filter);
    if s.len() > 0 {
        lemma_tagged_hits_filter(s.drop_last(), filter);
    }
}

/// A search without a tag filter is the plain search; with one, it is the
/// plain search without a limit, kept to the hits that carry one of the
/// tags (order kept), then cut to the limit.
pub proof fn lemma_search_with_tags(
    query: Seq<char>,
    files: Seq<(String, String)>,
    filter: Seq<Seq<char>>,
    limit: Option<usize>,
    max: Option<usize>,
)
    ensures
        take_limit(search_results(query, files, None, max), limit) == search_results(query, files, limit, max),
        take_limit(tagged_hits(search_results(query, files, None, max), filter), limit) == take_limit(
            search_results(query, files, None, max).filter(|r: (Seq<char>, Seq<char>, u32, Seq<Seq<char>>)| any_tag(r.3, filter)),
            limit,
        ),
{
    lemma_tagged_hits_filter(search_results(query, files, None, max), filter);
}

/// Two validations of one configuration against one look at its directory
/// agree: both succeed or both fail; failures carry the same message; and
/// successes agree on every setting, the org directory included unless it
/// starts with `~` (whose expansion reads the environment), where both are
/// expansions of it.
pub proof fn lemma_validate_agrees(
    config: OrgConfig,
    probe: RootDirProbe,
    r1: Result<OrgConfig, OrgModeError>,
    r2: Result<OrgConfig, OrgModeError>,
)
    requires
        config.spec_validate(probe, r1),
        config.spec_validate(probe, r2),
    ensures
        r1 is Ok <==> r2 is Ok,
        r1 matches Err(e1) ==> (r2 matches Err(e2) && error_message(e1) == error_message(e2)),
        r1 matches Ok(c1) ==> r2 matches Ok(c2) && {
            &&& c1.org_default_notes_file == c2.org_default_notes_file
            &&& c1.org_agenda_files == c2.org_agenda_files
            &&& c1.org_agenda_text_search_extra_files == c2.org_agenda_text_search_extra_files
            &&& c1.org_todo_keywords == c2.org_todo_keywords
            &&& c1.org_auto_created_property == c2.org_auto_created_property
            &&& c1.org_auto_closed_timestamp == c2.org_auto_closed_timestamp
            &&& tilde_expansion(config.org_directory@, c1.org_directory@)
            &&& tilde_expansion(config.org_directory@, c2.org_directory@)
            &&& (!(config.org_directory@.len() > 0 && config.org_directory@[0] == '~') ==> c1.org_directory@ == c2.org_directory@)
        },
{
    let k = config.org_todo_keywords@;
    if !(probe is Missing || probe is NotADirectory) && k.len() >= 2 && sep_count(k) <= 1
        && sep_index(k) != Some(0int) && sep_index(k) != Some(k.len() - 1) {
        assert(keywords_ok(k));
    }
}


/// A timestamp without a repeater whose date is one of the days `start`
/// to `end`, counted as calendar days.
pub open spec fn dated_within(t: OrgTimestamp, start: OrgDate, end: OrgDate) -> bool {
    &&& t.repeater_value is None
    &&& ts_when(t) matches Some((d, _h, _m)) && day_number(start) <= day_number(d) && day_number(d) <= day_number(end)
}

/// A timestamp without a repeater is within the agenda's days exactly when
/// its date is one of them, whatever its time of day.
proof fn lemma_plain_stamp_in_range(t: OrgTimestamp, start: OrgDate, end: OrgDate)
    requires
        t.repeater_value is None,
    ensures
        ts_in_range(t, start, end) <==> dated_within(t, start, end),
{
    match ts_when(t) {
        Some((d, h, mi)) => {
            assert(0 <= h < 24 && 0 <= mi < 60);
        },
        None => {},
    }
}

/// A headline dated on one of the days of a view belongs to the view: by
/// its SCHEDULED stamp, its DEADLINE stamp, or an active timestamp of its
/// own content (before its first sub-headline) that is neither of those.
pub proof fn lemma_agenda_dated_headline(h: OrgHeadline, limit: int, start: OrgDate, end: OrgDate)
    ensures
        (h.scheduled_ts matches Some(t) && dated_within(t, start, end)) ==> headline_in_range(h, limit, start, end),
        (h.deadline_ts matches Some(t) && dated_within(t, start, end)) ==> headline_in_range(h, limit, start, end),
        forall|k: int|
            0 <= k < h.timestamps@.len() && (#[trigger] h.timestamps@[k]).active && h.timestamps@[k].start < limit
                && !(h.scheduled_ts matches Some(s) && s.start == h.timestamps@[k].start)
                && !(h.deadline_ts matches Some(s) && s.start == h.timestamps@[k].start)
                && dated_within(h.timestamps@[k], start, end) ==> headline_in_range(h, limit, start, end),
{
    if let Some(t) = h.scheduled_ts {
        if t.repeater_value is None {
            lemma_plain_stamp_in_range(t, start, end);
        }
    }
    if let Some(t) = h.deadline_ts {
        if t.repeater_value is None {
            lemma_plain_stamp_in_range(t, start, end);
        }
    }
    assert forall|k: int|
        0 <= k < h.timestamps@.len() && (#[trigger] h.timestamps@[k]).active && h.timestamps@[k].start < limit
            && !(h.scheduled_ts matches Some(s) && s.start == h.timestamps@[k].start)
            && !(h.deadline_ts matches Some(s) && s.start == h.timestamps@[k].start)
            && dated_within(h.timestamps@[k], start, end) implies headline_in_range(h, limit, start, end) by {
        lemma_plain_stamp_in_range(h.timestamps@[k], start, end);
        assert(ts_in_range(h.timestamps@[k], start, end));
    }
}

/// Conversely, when none of a headline's timestamps repeats, it belongs to
/// a view only through a SCHEDULED, DEADLINE or own active timestamp dated
/// on one of the view's days.
pub proof fn lemma_agenda_range_dated(h: OrgHeadline, limit: int, start: OrgDate, end: OrgDate)
    requires
        headline_in_range(h, limit, start, end),
        h.scheduled_ts matches Some(t) ==> t.repeater_value is None,
        h.deadline_ts matches Some(t) ==> t.repeater_value is None,
        forall|k: int| 0 <= k < h.timestamps@.len() ==> (#[trigger] h.timestamps@[k]).repeater_value is None,
    ensures
        ({
            ||| (h.scheduled_ts matches Some(t) && dated_within(t, start, end))
            ||| (h.deadline_ts matches Some(t) && dated_within(t, start, end))
            ||| exists|k: int|
                0 <= k < h.timestamps@.len() && (#[trigger] h.timestamps@[k]).active && h.timestamps@[k].start < limit
                    && !(h.scheduled_ts matches Some(s) && s.start == h.timestamps@[k].start)
                    && !(h.deadline_ts matches Some(s) && s.start == h.timestamps@[k].start)
                    && dated_within(h.timestamps@[k], start, end)
        }),
{
    if let Some(t) = h.scheduled_ts {
        lemma_plain_stamp_in_range(t, start, end);
    }
    if let Some(t) = h.deadline_ts {
        lemma_plain_stamp_in_range(t, start, end);
    }
    if !(h.scheduled_ts matches Some(t) && ts_in_range(t, start, end)) && !(h.deadline_ts matches Some(t) && ts_in_range(t, start, end)) {
        let k = choose|k: int| 0 <= k < h.timestamps@.len() && crate::agenda::own_active(h, #[trigger] h.timestamps@[k], limit) && ts_in_range(h.timestamps@[k], start, end);
        lemma_plain_stamp_in_range(h.timestamps@[k], start, end);
    }
}

/// `js` picks headlines of `hs` before index `bound`, in increasing order,
/// titled by the first `js.len()` segments of `parts` in turn.
pub open spec fn title_chain(hs: Seq<OrgHeadline>, parts: Seq<Seq<char>>, js: Seq<int>, bound: int) -> bool {
    &&& js.len() <= parts.len()
    &&& forall|k: int| 0 <= k < js.len() ==> 0 <= #[trigger] js[k] < bound && hs[js[k]].title_raw@ == parts[k]
    &&& forall|k: int, l: int| 0 <= k < l < js.len() ==> js[k] < js[l]
}

proof fn lemma_scan_chain(hs: Seq<OrgHeadline>, parts: Seq<Seq<char>>, n: nat) -> (js: Seq<int>)
    requires
        n <= hs.len(),
    ensures
        js.len() == heading_scan(hs, parts, n).0,
        heading_scan(hs, parts, n).1 matches Some(i) ==> 0 <= i < n && title_chain(hs, parts, js, i) && js.len()
            < parts.len() && hs[i].title_raw@ == parts[js.len() as int] && hs[i].level == parts.len(),
        heading_scan(hs, parts, n).1 is None ==> title_chain(hs, parts, js, n as int),
    decreases n,
{
    if n == 0 {
        Seq::empty()
    } else {
        let prev = lemma_scan_chain(hs, parts, (n - 1) as nat);
        let (cur, found) = heading_scan(hs, parts, (n - 1) as nat);
        if found is Some || cur >= parts.len() {
            prev
        } else if hs[n - 1].title_raw@ == parts[cur] {
            if hs[n - 1].level == parts.len() {
                prev
            } else {
                let js = prev.push((n - 1) as int);
                assert(forall|k: int| 0 <= k < prev.len() ==> js[k] == prev[k]);
                js
            }
        } else {
            prev
        }
    }
}

/// The heading that a heading path `p1/.../pn` finds (what `get_heading`
/// returns the subtree of) has level `n` and a title equal to some segment
/// `pc` (`c < n`), and before it come, in order, headings titled
/// `p1` to `p(c-1)`. So a heading whose title is not a segment, or that no
/// such chain of earlier headings leads to, is never returned.
pub proof fn lemma_heading_path_found(hs: Seq<OrgHeadline>, parts: Seq<Seq<char>>)
    ensures
        heading_scan(hs, parts, hs.len()).1 matches Some(i) ==> {
            &&& 0 <= i < hs.len()
            &&& hs[i].level == parts.len()
            &&& exists|js: Seq<int>| #[trigger] title_chain(hs, parts, js, i) && js.len() < parts.len()
                && hs[i].title_raw@ == parts[js.len() as int]
        },
{
    let js = lemma_scan_chain(hs, parts, hs.len());
    if let Some(i) = heading_scan(hs, parts, hs.len()).1 {
        assert(title_chain(hs, parts, js, i));
    }
}

/// The priority letter that the filter `p` asks for; none for `Unset`.
pub open spec fn priority_letter(p: Priority) -> Option<char> {
    match p {
        Priority::A => Some('A'),
        Priority::B => Some('B'),
        Priority::C => Some('C'),
        Priority::Unset => None,
    }
}

/// An open task passes the priority filter `p` exactly when its priority
/// cookie is the letter `p` names, or when it has no cookie and `p` is
/// `Unset`: each cookie `A`, `B`, `C` passes one filter, its own.
pub proof fn lemma_priority_filter(h: OrgHeadline, p: Priority)
    requires
        h.is_todo,
    ensures
        task_ok(h, None, None, Some(p)) <==> match h.priority {
            Some(s) => priority_letter(p) matches Some(c) && s@ == seq![c],
            None => priority_letter(p) is None,
        },
{
}

/// An update that sets the tags to `T` (and does not clear them) writes a
/// heading line ending in exactly `T` as ` :t1:t2:`: the old tags play no
/// part, so two headings that differ only in their tags come out the same.
/// Without new tags the old ones stay; clearing them leaves none.
pub proof fn lemma_update_tags(e: UpdateEntry, t: TargetView, old_tags: Seq<Seq<char>>)
    ensures
        ({
            let t2 = TargetView { tags: old_tags, ..t };
            let base = spec_heading(t.level, new_keyword(e, t), new_priority(e, t), new_title(e, t), Seq::empty());
            &&& !cleared(e, ClearField::Tags) ==> (e.tags matches Some(ts) ==> {
                &&& new_heading(e, t) == base + tags_suffix(string_views(ts@))
                &&& new_heading(e, t) == new_heading(e, t2)
            })
            &&& (!cleared(e, ClearField::Tags) && e.tags is None) ==> new_heading(e, t) == base + tags_suffix(t.tags)
            &&& cleared(e, ClearField::Tags) ==> new_heading(e, t) == base
        }),
{
    let t2 = TargetView { tags: old_tags, ..t };
    let base = spec_heading(t.level, new_keyword(e, t), new_priority(e, t), new_title(e, t), Seq::empty());
    let pre = base;
    assert(tags_suffix(Seq::<Seq<char>>::empty()) == Seq::<char>::empty());
    assert(base =~= base + Seq::<char>::empty());
    if !cleared(e, ClearField::Tags) {
        if let Some(ts) = e.tags {
            assert(new_heading(e, t) =~= base + tags_suffix(string_views(ts@)));
            assert(new_heading(e, t2) =~= base + tags_suffix(string_views(ts@)));
        } else {
            assert(new_heading(e, t) =~= base + tags_suffix(t.tags));
        }
    } else {
        assert(new_heading(e, t) =~= pre);
    }
}


/// Headline `i` of `hs` carries a stamp dated on one of the days `start` to
/// `end`: its SCHEDULED or DEADLINE stamp, or an active timestamp of its own
/// content (before its end and before the next headline) that is neither.
pub open spec fn dated_headline(hs: Seq<OrgHeadline>, i: int, start: OrgDate, end: OrgDate) -> bool {
    let h = hs[i];
    ||| (h.scheduled_ts matches Some(t) && dated_within(t, start, end))
    ||| (h.deadline_ts matches Some(t) && dated_within(t, start, end))
    ||| exists|k: int|
        0 <= k < h.timestamps@.len() && (#[trigger] h.timestamps@[k]).active && h.timestamps@[k].start < h.end
            && (i + 1 < hs.len() ==> h.timestamps@[k].start < hs[i + 1].start)
            && !(h.scheduled_ts matches Some(s) && s.start == h.timestamps@[k].start)
            && !(h.deadline_ts matches Some(s) && s.start == h.timestamps@[k].start)
            && dated_within(h.timestamps@[k], start, end)
}

proof fn lemma_agenda_in_grows(path: Seq<char>, hs: Seq<OrgHeadline>, states: Option<Seq<String>>, tags: Option<Seq<String>>, start: OrgDate, end: OrgDate, m: nat, n: nat)
    requires
        m <= n <= hs.len(),
    ensures
        agenda_in(path, hs, states, tags, start, end, m).len() <= agenda_in(path, hs, states, tags, start, end, n).len(),
        forall|j: int| 0 <= j < agenda_in(path, hs, states, tags, start, end, m).len() ==>
            #[trigger] agenda_in(path, hs, states, tags, start, end, n)[j] == agenda_in(path, hs, states, tags, start, end, m)[j],
    decreases n - m,
{
    if n > m {
        lemma_agenda_in_grows(path, hs, states, tags, start, end, m, (n - 1) as nat);
    }
}

/// A task (open or done) that passes the keyword and tag filters and is
/// dated on one of a view's days is listed in the view: a heading dated by
/// a plain active timestamp in its own text shows as well as one that is
/// SCHEDULED or has a DEADLINE.
pub proof fn lemma_agenda_lists_dated(path: Seq<char>, hs: Seq<OrgHeadline>, states: Option<Seq<String>>, tags: Option<Seq<String>>, start: OrgDate, end: OrgDate, i: int)
    requires
        0 <= i < hs.len(),
        hs[i].is_todo || hs[i].is_done,
        tags matches Some(t) ==> spec_tags_match(hs[i].tags@, t),
        states matches Some(st) ==> (hs[i].keyword matches Some(k) && seq_has_text(st, k@)),
        dated_headline(hs, i, start, end),
    ensures
        agenda_in(path, hs, states, tags, start, end, hs.len()).contains(task_view(path, hs[i])),
{
    let h = hs[i];
    let lim = own_end(hs, i);
    lemma_agenda_dated_headline(h, lim, start, end);
    if !(h.scheduled_ts matches Some(t) && dated_within(t, start, end)) && !(h.deadline_ts matches Some(t) && dated_within(t, start, end)) {
        let k = choose|k: int|
            0 <= k < h.timestamps@.len() && (#[trigger] h.timestamps@[k]).active && h.timestamps@[k].start < h.end
                && (i + 1 < hs.len() ==> h.timestamps@[k].start < hs[i + 1].start)
                && !(h.scheduled_ts matches Some(s) && s.start == h.timestamps@[k].start)
                && !(h.deadline_ts matches Some(s) && s.start == h.timestamps@[k].start)
                && dated_within(h.timestamps@[k], start, end);
        assert(h.timestamps@[k].start < lim);
    }
    assert(headline_in_range(h, lim, start, end));
    let before = agenda_in(path, hs, states, tags, start, end, i as nat);
    let after = agenda_in(path, hs, states, tags, start, end, (i + 1) as nat);
    assert(after == before.push(task_view(path, h)));
    lemma_agenda_in_grows(path, hs, states, tags, start, end, (i + 1) as nat, hs.len());
    let all = agenda_in(path, hs, states, tags, start, end, hs.len());
    assert(all[before.len() as int] == task_view(path, h));
}


/// Every agenda entry of one file is an entry of the view over all files
/// (before the view's limit is applied).
pub proof fn lemma_agenda_files_include(files: Seq<(String, String)>, todo: Seq<Seq<char>>, done: Seq<Seq<char>>, states: Option<Seq<String>>, tags: Option<Seq<String>>, start: OrgDate, end: OrgDate, f: int, n: nat)
    requires
        0 <= f < n <= files.len(),
    ensures
        ({
            let hs = parsed_headlines(files[f].1@, todo, done);
            forall|x| #[trigger] agenda_in(files[f].0@, hs, states, tags, start, end, hs.len()).contains(x)
                ==> agenda_of_files(files, todo, done, states, tags, start, end, n).contains(x)
        }),
    decreases n,
{
    let hs = parsed_headlines(files[f].1@, todo, done);
    let prev = agenda_of_files(files, todo, done, states, tags, start, end, (n - 1) as nat);
    let last = parsed_headlines(files[n - 1].1@, todo, done);
    let here = agenda_in(files[n - 1].0@, last, states, tags, start, end, last.len());
    assert(agenda_of_files(files, todo, done, states, tags, start, end, n) == prev + here);
    if f < n - 1 {
        lemma_agenda_files_include(files, todo, done, states, tags, start, end, f, (n - 1) as nat);
        assert forall|x| #[trigger] agenda_in(files[f].0@, hs, states, tags, start, end, hs.len()).contains(x)
            implies (prev + here).contains(x) by {
            let j = choose|j: int| 0 <= j < prev.len() && prev[j] == x;
            assert((prev + here)[j] == x);
        }
    } else {
        assert forall|x| #[trigger] agenda_in(files[f].0@, hs, states, tags, start, end, hs.len()).contains(x)
            implies (prev + here).contains(x) by {
            let j = choose|j: int| 0 <= j < here.len() && here[j] == x;
            assert((prev + here)[prev.len() + j] == x);
        }
    }
}



/// Where the search for segment `k` of a heading path starts: the top, or
/// just after the heading that matched segment `k - 1`.
#[verifier::opaque]
pub open spec fn chain_start(js: Seq<int>, k: int) -> int {
    if k == 0 { 0 } else { js[k - 1] + 1 }
}

/// No heading of `hs` from `lo` up to (not including) `hi` is titled `t`.
pub open spec fn no_title_between(hs: Seq<OrgHeadline>, t: Seq<char>, lo: int, hi: int) -> bool {
    forall|j: int| lo <= j < hi ==> (#[trigger] hs[j]).title_raw@ != t
}

/// `js` follows the path `parts` through `hs` heading by heading: `js[k]`
/// is the first heading titled `parts[k]` after the one for `parts[k-1]`;
/// only the last has the path's length as its level.
pub open spec fn first_title_chain(hs: Seq<OrgHeadline>, parts: Seq<Seq<char>>, js: Seq<int>) -> bool {
    &&& parts.len() >= 1
    &&& js.len() == parts.len()
    &&& forall|k: int| 0 <= k < js.len() ==> 0 <= #[trigger] js[k] < hs.len()
    &&& forall|k: int| 0 <= k < js.len() ==> chain_start(js, k) <= #[trigger] js[k]
    &&& forall|k: int| 0 <= k < js.len() ==> hs[#[trigger] js[k]].title_raw@ == parts[k]
    &&& forall|k: int| 0 <= k < js.len() - 1 ==> hs[#[trigger] js[k]].level != parts.len()
    &&& hs[js[js.len() - 1]].level == parts.len()
    &&& forall|k: int| 0 <= k < js.len() ==> no_title_between(hs, parts[k], chain_start(js, k), #[trigger] js[k])
}

proof fn lemma_chain_step(hs: Seq<OrgHeadline>, parts: Seq<Seq<char>>, k: int, lo: int, m: int)
    requires
        0 <= lo <= m <= hs.len(),
        0 <= k < parts.len(),
        no_title_between(hs, parts[k], lo, m),
        heading_scan(hs, parts, lo as nat) == (k, None::<int>),
    ensures
        heading_scan(hs, parts, m as nat) == (k, None::<int>),
    decreases m - lo,
{
    if m > lo {
        lemma_chain_step(hs, parts, k, lo, m - 1);
        assert(hs[m - 1].title_raw@ != parts[k]);
    }
}

proof fn lemma_match_step(hs: Seq<OrgHeadline>, parts: Seq<Seq<char>>, k: int, j: int)
    requires
        0 <= j < hs.len(),
        0 <= k < parts.len(),
        heading_scan(hs, parts, j as nat) == (k, None::<int>),
        hs[j].title_raw@ == parts[k],
    ensures
        hs[j].level == parts.len() ==> heading_scan(hs, parts, (j + 1) as nat) == (k, Some(j)),
        hs[j].level != parts.len() ==> heading_scan(hs, parts, (j + 1) as nat) == (k + 1, None::<int>),
{
    assert(((j + 1) as nat - 1) as nat == j as nat);
}

proof fn lemma_chain_upto(hs: Seq<OrgHeadline>, parts: Seq<Seq<char>>, js: Seq<int>, k: int)
    requires
        first_title_chain(hs, parts, js),
        0 <= k < js.len(),
    ensures
        heading_scan(hs, parts, chain_start(js, k) as nat) == (k, None::<int>),
    decreases k,
{
    if k == 0 {
        assert(chain_start(js, 0) == 0) by { reveal(chain_start); }
    } else {
        lemma_chain_upto(hs, parts, js, k - 1);
        assert(chain_start(js, k) == js[k - 1] + 1) by { reveal(chain_start); }
        let lo = chain_start(js, k - 1);
        let j = js[k - 1];
        assert(0 <= lo) by { reveal(chain_start); if k - 1 > 0 { assert(0 <= js[k - 2]); } }
        assert(lo <= j < hs.len());
        assert(no_title_between(hs, parts[k - 1], lo, j));
        lemma_chain_step(hs, parts, k - 1, lo, j);
        assert(hs[j].title_raw@ == parts[k - 1]);
        assert(hs[j].level != parts.len());
        lemma_match_step(hs, parts, k - 1, j);
    }
}

proof fn lemma_found_stays(hs: Seq<OrgHeadline>, parts: Seq<Seq<char>>, m: nat, n: nat, cur: int, f: int)
    requires
        m <= n <= hs.len(),
        heading_scan(hs, parts, m) == (cur, Some(f)),
    ensures
        heading_scan(hs, parts, n) == (cur, Some(f)),
    decreases n - m,
{
    if n > m {
        lemma_found_stays(hs, parts, m, (n - 1) as nat, cur, f);
    }
}

/// A heading path `p1/.../pn` that can be followed through the headings,
/// each segment matched by the first heading with that title after the
/// previous one, and whose last heading is at level `n` (the earlier ones
/// not), finds exactly that last heading: the heading found for
/// `Projects/Work` is the first `Work` after the first `Projects`, never a
/// `Work` that comes before it.
pub proof fn lemma_heading_path_follows(hs: Seq<OrgHeadline>, parts: Seq<Seq<char>>, js: Seq<int>)
    requires
        first_title_chain(hs, parts, js),
    ensures
        heading_scan(hs, parts, hs.len()).1 == Some(js[js.len() - 1]),
{
    let last = js.len() - 1;
    lemma_chain_upto(hs, parts, js, last);
    let lo = chain_start(js, last);
    let j = js[last];
    assert(0 <= lo) by { reveal(chain_start); if last > 0 { assert(0 <= js[last - 1]); } }
    assert(lo <= j < hs.len());
    assert(no_title_between(hs, parts[last], lo, j));
    lemma_chain_step(hs, parts, last, lo, j);
    assert(hs[j].title_raw@ == parts[last]);
    lemma_match_step(hs, parts, last, j);
    lemma_found_stays(hs, parts, (j + 1) as nat, hs.len(), last, j);
}


/// A listed task carries the priority that filter `p` asks for: the cookie
/// letter of `p`, or no cookie for `Unset`.
pub open spec fn item_has_priority(
    x: (Seq<char>, Seq<char>, usize, Option<Seq<char>>, Option<Seq<char>>, Option<Seq<char>>, Option<Seq<char>>, Seq<Seq<char>>, Option<(u32, u32)>),
    p: Priority,
) -> bool {
    match x.4 {
        Some(s) => priority_letter(p) matches Some(c) && s == seq![c],
        None => priority_letter(p) is None,
    }
}

/// Filtering the tasks of one file by a priority gives the unfiltered
/// tasks kept to those with that priority, in their order: no task with
/// the priority is lost, none without it is added.
pub proof fn lemma_priority_filter_tasks(path: Seq<char>, hs: Seq<OrgHeadline>, states: Option<Seq<String>>, tags: Option<Seq<String>>, p: Priority, n: nat)
    ensures
        tasks_in(path, hs, states, tags, Some(p), n) == tasks_in(path, hs, states, tags, None, n).filter(
            |x: (Seq<char>, Seq<char>, usize, Option<Seq<char>>, Option<Seq<char>>, Option<Seq<char>>, Option<Seq<char>>, Seq<Seq<char>>, Option<(u32, u32)>)| item_has_priority(x, p),
        ),
    decreases n,
{
    reveal(Seq::filter);
    let pred = |x: (Seq<char>, Seq<char>, usize, Option<Seq<char>>, Option<Seq<char>>, Option<Seq<char>>, Option<Seq<char>>, Seq<Seq<char>>, Option<(u32, u32)>)| item_has_priority(x, p);
    if n == 0 || n > hs.len() {
        assert(tasks_in(path, hs, states, tags, None, n).filter(pred) =~= Seq::empty());
    } else {
        lemma_priority_filter_tasks(path, hs, states, tags, p, (n - 1) as nat);
        let h = hs[n - 1];
        let r = tasks_in(path, hs, states, tags, None, (n - 1) as nat);
        if task_ok(h, states, tags, None) {
            let s = r.push(task_view(path, h));
            assert(s.drop_last() =~= r);
            lemma_priority_filter(h, p);
            assert(item_has_priority(task_view(path, h), p) <==> crate::tasks::priority_ok(h.priority, p));
        }
    }
}


/// The minutes between repetitions of a repeater of `v` hours, days or
/// weeks.
pub open spec fn repeat_minutes(u: RepeatUnit, v: int) -> int {
    match u {
        RepeatUnit::Hour => v * 60,
        RepeatUnit::Day => v * 1440,
        RepeatUnit::Week => v * 10080,
        _ => 0,
    }
}

proof fn lemma_advance_steps(c: int, s: int, lo: int) -> (j: int)
    requires
        s > 0,
    ensures
        j >= 0,
        advance(c, s, lo) == c + j * s,
        advance(c, s, lo) >= lo,
        j > 0 ==> advance(c, s, lo) - s < lo,
    decreases (if c < lo { lo - c } else { 0 }),
{
    if c < lo {
        let j0 = lemma_advance_steps(c + s, s, lo);
        assert((c + s) + j0 * s == c + (j0 + 1) * s) by (nonlinear_arith);
        j0 + 1
    } else {
        assert(c + 0 * s == c) by (nonlinear_arith);
        0
    }
}

/// A timestamp repeating every `v` hours, days or weeks (`v` > 0) is within
/// the agenda's days exactly when one of its repetitions after the first
/// occurrence (one step on, two steps on, ...) falls between the start of
/// the first day and 23:59 of the last.
pub proof fn lemma_repeating_stamp_in_range(t: OrgTimestamp, start: OrgDate, end: OrgDate)
    requires
        t.repeater_value matches Some(v) && v > 0,
        t.repeater_unit matches Some(u) && (u == RepeatUnit::Hour || u == RepeatUnit::Day || u == RepeatUnit::Week),
    ensures
        ts_in_range(t, start, end) <==> (ts_when(t) matches Some((d, h, mi)) && exists|k: int|
            k >= 1 && moment(start, 0, 0) <= #[trigger] (moment(d, h, mi) + k * repeat_minutes(t.repeater_unit->0, t.repeater_value->0 as int))
                && moment(d, h, mi) + k * repeat_minutes(t.repeater_unit->0, t.repeater_value->0 as int) <= moment(end, 23, 59)),
{
    if let Some((d, h, mi)) = ts_when(t) {
        let v = t.repeater_value->0 as int;
        let u = t.repeater_unit->0;
        let s = repeat_minutes(u, v);
        assert(s > 0);
        let m = moment(d, h, mi);
        let lo = moment(start, 0, 0);
        let hi = moment(end, 23, 59);
        let j = lemma_advance_steps(m + s, s, lo);
        let r = advance(m + s, s, lo);
        assert(r == m + (j + 1) * s) by (nonlinear_arith)
            requires
                r == (m + s) + j * s;
        if ts_in_range(t, start, end) {
            assert(lo <= m + (j + 1) * s <= hi);
        }
        if exists|k: int| k >= 1 && lo <= #[trigger] (m + k * s) && m + k * s <= hi {
            let k = choose|k: int| k >= 1 && lo <= #[trigger] (m + k * s) && m + k * s <= hi;
            if j > 0 {
                assert(j < k) by (nonlinear_arith)
                    requires
                        r - s < lo,
                        lo <= m + k * s,
                        r == m + (j + 1) * s,
                        s > 0;
            }
            assert(r <= m + k * s) by (nonlinear_arith)
                requires
                    j == 0 || j < k,
                    k >= 1,
                    r == m + (j + 1) * s,
                    s > 0;
            assert(ts_in_range(t, start, end));
        }
    }
}

} // verus!
