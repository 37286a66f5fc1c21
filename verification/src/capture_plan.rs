//! Where a captured heading goes and what text is inserted there.
use vstd::prelude::*;
use vstd::utf8::{encode_utf8, valid_utf8};
use crate::capture::{CaptureEntry, CaptureResult, PropertyPair, ValidCapture, MAX_HEADING_LEVEL, spec_heading, opt_sview, opt_vtags, as_opt_str, as_opt_slice};
use crate::org_mode::OrgMode;
use crate::orgdoc::OrgHeadline;
use crate::text::{bytes_of, concat, push_char, string_from_utf8, splice_bytes, extend_range, string_of, split_char, split_on, trim, trim_chars, views_of, join_with, join_strings, string_views};
use crate::timestamp::{OrgDate, LocalDateTime, ParsedTimestamp, calendar_valid, spec_datetree, spec_org_timestamp, ts_renderable, ymd_text, weekday_abbrev, weekday_of, pad2};
use crate::tree::{rep, push_repeat};

verus! {

/// Where a heading path search ended.
#[derive(Debug, Clone)]
pub struct HeadingSearchResult {
    /// Byte offset after the deepest matched heading's subtree, or the end of
    /// the content when nothing matched.
    pub insert_pos: usize,
    /// How many leading path segments matched.
    pub matched_depth: usize,
    /// Level of the deepest matched heading (0 when none matched).
    pub last_matched_level: usize,
    /// The path segments that did not match.
    pub remaining_parts: Vec<String>,
}

/// The stack of open headings, each as (level, matched segment + 1, or 0),
/// after dropping those at `level` or deeper.
pub open spec fn pop_ge(stack: Seq<(int, int)>, level: int) -> Seq<(int, int)>
    decreases stack.len(),
{
    if stack.len() > 0 && stack.last().0 >= level { pop_ge(stack.drop_last(), level) } else { stack }
}

/// One step of the search over the headlines in document order: a headline
/// matches the next path segment when its raw title equals the segment and
/// its parent matched the previous segment (any headline may match the
/// first). The search stops once every segment matched.
pub open spec fn search_step(
    st: (Seq<(int, int)>, int, int, int),
    h: OrgHeadline,
    parts: Seq<Seq<char>>,
) -> (Seq<(int, int)>, int, int, int) {
    let (stack, matched, pos, last) = st;
    if matched >= parts.len() {
        st
    } else {
        let stk = pop_ge(stack, h.level as int);
        let parent_ok = matched == 0 || (stk.len() > 0 && stk.last().1 == matched);
        if parent_ok && h.title_raw@ == parts[matched] {
            (stk.push((h.level as int, matched + 1)), matched + 1, h.end as int, h.level as int)
        } else {
            (stk.push((h.level as int, 0)), matched, pos, last)
        }
    }
}

/// The search state after the first `n` headlines: open stack, matched
/// segments, insertion offset and level of the deepest match.
pub open spec fn search_fold(hs: Seq<OrgHeadline>, parts: Seq<Seq<char>>, n: nat, content_len: int) -> (Seq<(int, int)>, int, int, int)
    decreases n,
{
    if n == 0 || n > hs.len() {
        (Seq::empty(), 0, content_len, 0)
    } else {
        search_step(search_fold(hs, parts, (n - 1) as nat, content_len), hs[n - 1], parts)
    }
}

fn pop_ge_exec(stack: &mut Vec<(usize, usize)>, level: usize)
    ensures
        stack_view(final(stack)@) == pop_ge(stack_view(old(stack)@), level as int),
{
    loop
        invariant_except_break
            pop_ge(stack_view(stack@), level as int) == pop_ge(stack_view(old(stack)@), level as int),
        ensures
            stack_view(stack@) == pop_ge(stack_view(old(stack)@), level as int),
        decreases stack@.len(),
    {
        let n = stack.len();
        if n > 0 && stack[n - 1].0 >= level {
            proof {
                assert(stack_view(stack@).drop_last() =~= stack_view(stack@.drop_last()));
            }
            stack.pop();
        } else {
            break;
        }
    }
}

pub open spec fn stack_view(s: Seq<(usize, usize)>) -> Seq<(int, int)> {
    s.map_values(|p: (usize, usize)| (p.0 as int, p.1 as int))
}

impl OrgMode {
    /// Follows `parts` down the heading tree of a document whose headlines
    /// are `hs` (in document order), as `search_fold` describes.
    pub fn find_heading_path(hs: &Vec<OrgHeadline>, parts: &Vec<String>, content_len: usize) -> (res: HeadingSearchResult)
        ensures
            ({
                let (_, matched, pos, last) = search_fold(hs@, string_views(parts@), hs@.len(), content_len as int);
                &&& res.matched_depth == matched
                &&& res.insert_pos == pos
                &&& res.last_matched_level == last
                &&& string_views(res.remaining_parts@) == string_views(parts@).skip(matched)
            }),
            res.matched_depth <= parts@.len(),
    {
        let ghost ps = string_views(parts@);
        let mut stack: Vec<(usize, usize)> = Vec::new();
        let mut matched: usize = 0;
        let mut pos: usize = content_len;
        let mut last: usize = 0;
        let mut i: usize = 0;
        assert(stack_view(stack@) =~= Seq::<(int, int)>::empty());
        while i < hs.len()
            invariant
                ps == string_views(parts@),
                i <= hs@.len(),
                matched <= parts@.len(),
                (stack_view(stack@), matched as int, pos as int, last as int) == search_fold(hs@, ps, i as nat, content_len as int),
            decreases hs@.len() - i,
        {
            let h = &hs[i];
            if matched < parts.len() {
                pop_ge_exec(&mut stack, h.level);
                let n = stack.len();
                let parent_ok = matched == 0 || (n > 0 && stack[n - 1].1 == matched);
                if parent_ok && crate::text::str_eq(h.title_raw.as_str(), parts[matched].as_str()) {
                    let ghost old_stack = stack@;
                    stack.push((h.level, matched + 1));
                    proof { assert(stack_view(stack@) =~= stack_view(old_stack).push((h.level as int, matched + 1))); }
                    matched = matched + 1;
                    pos = h.end;
                    last = h.level;
                } else {
                    let ghost old_stack = stack@;
                    stack.push((h.level, 0));
                    proof { assert(stack_view(stack@) =~= stack_view(old_stack).push((h.level as int, 0int))); }
                }
            }
            i = i + 1;
        }
        let mut remaining: Vec<String> = Vec::new();
        let mut k = matched;
        while k < parts.len()
            invariant
                ps == string_views(parts@),
                matched <= k <= parts@.len(),
                string_views(remaining@) == ps.subrange(matched as int, k as int),
            decreases parts@.len() - k,
        {
            let ghost old_rem = remaining@;
            let part = parts[k].clone();
            remaining.push(part);
            proof {
                assert(remaining@ =~= old_rem.push(part));
                assert(string_views(remaining@) =~= string_views(old_rem).push(part@));
                assert(ps[k as int] == parts@[k as int]@);
                assert(string_views(remaining@) =~= ps.subrange(matched as int, k + 1));
            }
            k = k + 1;
        }
        assert(ps.subrange(matched as int, parts@.len() as int) =~= ps.skip(matched as int));
        HeadingSearchResult { insert_pos: pos, matched_depth: matched, last_matched_level: last, remaining_parts: remaining }
    }
}


pub open spec fn min_int(a: int, b: int) -> int {
    if a <= b { a } else { b }
}

pub open spec fn max_int(a: int, b: int) -> int {
    if a >= b { a } else { b }
}

/// Heading lines created for the path segments that did not match: the
/// `i`-th at level `min(base + i, 19)`.
pub open spec fn missing_prefix(rem: Seq<Seq<char>>, base: int) -> Seq<char>
    decreases rem.len(),
{
    if rem.len() == 0 {
        Seq::empty()
    } else {
        missing_prefix(rem.drop_last(), base) + rep('*', min_int(base + rem.len() - 1, MAX_HEADING_LEVEL as int) as nat)
            + seq![' '] + rem.last() + seq!['\n']
    }
}

fn push_missing_prefix(s: &mut String, rem: &Vec<String>, base: usize)
    ensures
        final(s)@ == old(s)@ + missing_prefix(string_views(rem@), base as int),
{
    let mut i: usize = 0;
    while i < rem.len()
        invariant
            i <= rem@.len(),
            s@ == old(s)@ + missing_prefix(string_views(rem@.take(i as int)), base as int),
        decreases rem@.len() - i,
    {
        let lv = if base <= MAX_HEADING_LEVEL && i <= MAX_HEADING_LEVEL - base { base + i } else { MAX_HEADING_LEVEL };
        let ghost before = s@;
        push_repeat(s, '*', lv);
        push_char(s, ' ');
        s.append(rem[i].as_str());
        push_char(s, '\n');
        proof {
            let t = string_views(rem@.take(i + 1));
            assert(t.drop_last() =~= string_views(rem@.take(i as int)));
            assert(t.last() == rem@[i as int]@);
            assert(s@ =~= before + rep('*', lv as nat) + seq![' '] + rem@[i as int]@ + seq!['\n']);
        }
        i = i + 1;
    }
    assert(rem@.take(rem@.len() as int) =~= rem@);
}

/// One planning entry: `KEYWORD: <timestamp>`.
pub open spec fn planning_entry(kw: Seq<char>, ts: ParsedTimestamp, active: bool) -> Seq<char> {
    kw + seq![':', ' '] + spec_org_timestamp(ts, active)
}

/// The planning entries of a capture, in the order SCHEDULED, DEADLINE,
/// CLOSED (the last inactive).
pub open spec fn planning_entries(v: ValidCapture) -> Seq<Seq<char>> {
    opt_entry("SCHEDULED"@, v.scheduled, true) + opt_entry("DEADLINE"@, v.deadline, true) + opt_entry(
        "CLOSED"@,
        v.closed,
        false,
    )
}

pub open spec fn opt_entry(kw: Seq<char>, t: Option<ParsedTimestamp>, active: bool) -> Seq<Seq<char>> {
    match t {
        Some(t) => seq![planning_entry(kw, t, active)],
        None => Seq::empty(),
    }
}

/// The planning line with its newline, or nothing.
pub open spec fn planning_block(v: ValidCapture) -> Seq<char> {
    let p = planning_entries(v);
    if p.len() == 0 { Seq::empty() } else { join_with(p, seq![' ']) + seq!['\n'] }
}

/// The property drawer for the given pairs, or nothing when there are none.
pub open spec fn drawer_text(ps: Seq<(Seq<char>, Seq<char>)>) -> Seq<char> {
    if ps.len() == 0 { Seq::empty() } else { ":PROPERTIES:\n"@ + drawer_lines(ps) + ":END:\n"@ }
}

/// `:KEY: value` lines.
pub open spec fn drawer_lines(ps: Seq<(Seq<char>, Seq<char>)>) -> Seq<char>
    decreases ps.len(),
{
    if ps.len() == 0 {
        Seq::empty()
    } else {
        drawer_lines(ps.drop_last()) + seq![':'] + ps.last().0 + seq![':', ' '] + ps.last().1 + seq!['\n']
    }
}

pub open spec fn pair_views(ps: Seq<PropertyPair>) -> Seq<(Seq<char>, Seq<char>)> {
    ps.map_values(|p: PropertyPair| (p.key@, p.value@))
}

/// ASCII case-insensitive equality (`str::eq_ignore_ascii_case`).
pub open spec fn eq_ignore_ascii_case(a: Seq<char>, b: Seq<char>) -> bool {
    a.len() == b.len() && forall|i: int| 0 <= i < a.len() ==> #[trigger] ascii_lower(a[i]) == ascii_lower(b[i])
}

pub open spec fn ascii_lower(c: char) -> char {
    if 'A' <= c && c <= 'Z' { ((c as u32) + 32) as char } else { c }
}

fn ascii_lower_exec(c: char) -> (res: char)
    ensures
        res == ascii_lower(c),
{
    if 'A' <= c && c <= 'Z' {
        let u = (c as u32) + 32;
        assert(u < 0xD800);
        char_from(u)
    } else {
        c
    }
}

/// The character with a code point below the surrogate range.
#[verifier::external_body]
fn char_from(u: u32) -> (res: char)
    requires
        u < 0xD800,
    ensures
        res == u as char,
{
    char::from_u32(u).unwrap()
}

pub fn str_eq_ignore_ascii_case(a: &str, b: &str) -> (res: bool)
    ensures
        res == eq_ignore_ascii_case(a@, b@),
{
    let x = crate::text::chars_of(a);
    let y = crate::text::chars_of(b);
    if x.len() != y.len() {
        return false;
    }
    let mut i: usize = 0;
    while i < x.len()
        invariant
            x@ == a@,
            y@ == b@,
            x@.len() == y@.len(),
            i <= x@.len(),
            forall|k: int| 0 <= k < i ==> #[trigger] ascii_lower(x@[k]) == ascii_lower(y@[k]),
        decreases x@.len() - i,
    {
        if ascii_lower_exec(x[i]) != ascii_lower_exec(y[i]) {
            return false;
        }
        i = i + 1;
    }
    true
}

/// The user's properties include a `CREATED` key, in any ASCII case.
pub open spec fn user_has_created(ps: Seq<PropertyPair>) -> bool {
    exists|i: int| 0 <= i < ps.len() && eq_ignore_ascii_case(#[trigger] ps[i].key@, "CREATED"@)
}

/// `[YYYY-MM-DD Dow HH:MM]` for the current moment.
pub open spec fn created_value(now: LocalDateTime) -> Seq<char> {
    let d = now.date;
    seq!['['] + ymd_text(d) + seq![' '] + weekday_abbrev(weekday_of(d.year as int, d.month as int, d.day as int))
        + seq![' '] + pad2(now.hour as nat) + seq![':'] + pad2(now.minute as nat) + seq![']']
}

/// The properties a capture writes: a `CREATED` stamp first when the
/// configuration asks for one and the user gave none, then the user's.
pub open spec fn effective_properties(auto_created: bool, ps: Seq<PropertyPair>, now: LocalDateTime) -> Seq<(Seq<char>, Seq<char>)> {
    if auto_created && !user_has_created(ps) {
        seq![("CREATED"@, created_value(now))] + pair_views(ps)
    } else {
        pair_views(ps)
    }
}

/// The body with a newline added when it does not end in one.
pub open spec fn body_text(b: Option<String>) -> Seq<char> {
    match b {
        Some(b) => if b@.len() > 0 && b@.last() == '\n' { b@ } else { b@ + seq!['\n'] },
        None => Seq::empty(),
    }
}


fn push_planning_block(s: &mut String, v: &ValidCapture)
    requires
        v.scheduled matches Some(t) ==> ts_renderable(t),
        v.deadline matches Some(t) ==> ts_renderable(t),
        v.closed matches Some(t) ==> ts_renderable(t),
    ensures
        final(s)@ == old(s)@ + planning_block(*v),
{
    let mut parts: Vec<String> = Vec::new();
    match &v.scheduled {
        Some(t) => {
            let x = concat("SCHEDULED: ", OrgMode::format_org_timestamp(t, true).as_str());
            parts.push(x);
        },
        None => {},
    }
    let ghost p1 = parts@;
    match &v.deadline {
        Some(t) => {
            let x = concat("DEADLINE: ", OrgMode::format_org_timestamp(t, true).as_str());
            parts.push(x);
        },
        None => {},
    }
    let ghost p2 = parts@;
    match &v.closed {
        Some(t) => {
            let x = concat("CLOSED: ", OrgMode::format_org_timestamp(t, false).as_str());
            parts.push(x);
        },
        None => {},
    }
    proof {
        reveal_strlit("SCHEDULED: ");
        reveal_strlit("DEADLINE: ");
        reveal_strlit("CLOSED: ");
        reveal_strlit("SCHEDULED");
        reveal_strlit("DEADLINE");
        reveal_strlit("CLOSED");
        assert("SCHEDULED: "@ =~= "SCHEDULED"@ + seq![':', ' ']);
        assert("DEADLINE: "@ =~= "DEADLINE"@ + seq![':', ' ']);
        assert("CLOSED: "@ =~= "CLOSED"@ + seq![':', ' ']);
        let a = opt_entry("SCHEDULED"@, v.scheduled, true);
        let b = opt_entry("DEADLINE"@, v.deadline, true);
        let c = opt_entry("CLOSED"@, v.closed, false);
        assert(string_views(p1) =~= a);
        assert(string_views(p2) =~= a + b);
        assert(string_views(parts@) =~= a + b + c);
        assert(string_views(parts@) =~= planning_entries(*v));
    }
    if parts.len() > 0 {
        let line = join_strings(parts.as_slice(), " ");
        s.append(line.as_str());
        push_char(s, '\n');
        proof {
            reveal_strlit(" ");
            assert(" "@ =~= seq![' ']);
            assert(final(s)@ =~= old(s)@ + planning_block(*v));
        }
    } else {
        assert(final(s)@ =~= old(s)@ + planning_block(*v));
    }
}

fn push_drawer_lines(s: &mut String, ps: &Vec<PropertyPair>)
    ensures
        final(s)@ == old(s)@ + drawer_lines(pair_views(ps@)),
{
    let mut i: usize = 0;
    while i < ps.len()
        invariant
            i <= ps@.len(),
            s@ == old(s)@ + drawer_lines(pair_views(ps@.take(i as int))),
        decreases ps@.len() - i,
    {
        let ghost before = s@;
        push_char(s, ':');
        s.append(ps[i].key.as_str());
        push_char(s, ':');
        push_char(s, ' ');
        s.append(ps[i].value.as_str());
        push_char(s, '\n');
        proof {
            let t = pair_views(ps@.take(i + 1));
            assert(t.drop_last() =~= pair_views(ps@.take(i as int)));
            assert(s@ =~= before + seq![':'] + t.last().0 + seq![':', ' '] + t.last().1 + seq!['\n']);
        }
        i = i + 1;
    }
    assert(ps@.take(ps@.len() as int) =~= ps@);
}

fn push_created_value(s: &mut String, now: LocalDateTime)
    requires
        calendar_valid(now.date),
        now.hour < 24,
        now.minute < 60,
    ensures
        final(s)@ == old(s)@ + created_value(now),
{
    let ts = ParsedTimestamp {
        date: now.date,
        time: Some(crate::timestamp::OrgTime { hour: now.hour, minute: now.minute }),
        repeater: None,
        warning: None,
    };
    let t = OrgMode::format_org_timestamp(&ts, false);
    s.append(t.as_str());
    proof {
        assert(final(s)@ =~= old(s)@ + created_value(now));
    }
}

fn push_drawer(s: &mut String, auto_created: bool, ps: &Vec<PropertyPair>, now: LocalDateTime)
    requires
        calendar_valid(now.date),
        now.hour < 24,
        now.minute < 60,
    ensures
        final(s)@ == old(s)@ + drawer_text(effective_properties(auto_created, ps@, now)),
{
    let mut has_created = false;
    let mut i: usize = 0;
    while i < ps.len()
        invariant
            i <= ps@.len(),
            has_created == exists|k: int| 0 <= k < i && eq_ignore_ascii_case(#[trigger] ps@[k].key@, "CREATED"@),
        decreases ps@.len() - i,
    {
        if str_eq_ignore_ascii_case(ps[i].key.as_str(), "CREATED") {
            has_created = true;
        }
        i = i + 1;
    }
    let stamp = auto_created && !has_created;
    if !stamp && ps.len() == 0 {
        assert(pair_views(ps@) =~= Seq::<(Seq<char>, Seq<char>)>::empty());
        return;
    }
    let ghost start = s@;
    s.append(":PROPERTIES:\n");
    let ghost head = s@;
    if stamp {
        s.append(":CREATED: ");
        push_created_value(s, now);
        push_char(s, '\n');
    }
    let ghost mid = s@;
    push_drawer_lines(s, ps);
    s.append(":END:\n");
    proof {
        reveal_strlit(":CREATED: ");
        reveal_strlit("CREATED");
        let eff = effective_properties(auto_created, ps@, now);
        if stamp {
            let first = seq![("CREATED"@, created_value(now))];
            assert(eff == first + pair_views(ps@));
            lemma_drawer_lines_prepend(("CREATED"@, created_value(now)), pair_views(ps@));
            assert(":CREATED: "@ =~= seq![':'] + "CREATED"@ + seq![':', ' ']);
            assert(first.drop_last() =~= Seq::<(Seq<char>, Seq<char>)>::empty());
            assert(drawer_lines(first.drop_last()) == Seq::<char>::empty());
            assert(first.last() == ("CREATED"@, created_value(now)));
            assert(drawer_lines(first) == drawer_lines(first.drop_last()) + seq![':'] + first.last().0 + seq![':', ' '] + first.last().1 + seq!['\n']);
            assert(drawer_lines(first) =~= seq![':'] + "CREATED"@ + seq![':', ' '] + created_value(now) + seq!['\n']);
            assert(mid =~= head + drawer_lines(first));
        } else {
            assert(eff == pair_views(ps@));
            assert(mid == head);
            assert(pair_views(ps@).len() > 0);
        }
        assert(final(s)@ =~= start + drawer_text(eff));
    }
}

proof fn lemma_drawer_lines_prepend(p: (Seq<char>, Seq<char>), ps: Seq<(Seq<char>, Seq<char>)>)
    ensures
        drawer_lines(seq![p] + ps) == drawer_lines(seq![p]) + drawer_lines(ps),
    decreases ps.len(),
{
    if ps.len() == 0 {
        assert(seq![p] + ps =~= seq![p]);
    } else {
        lemma_drawer_lines_prepend(p, ps.drop_last());
        assert((seq![p] + ps).drop_last() =~= seq![p] + ps.drop_last());
    }
}

fn push_body(s: &mut String, b: &Option<String>)
    ensures
        final(s)@ == old(s)@ + body_text(*b),
{
    match b {
        Some(body) => {
            s.append(body.as_str());
            let v = crate::text::chars_of(body.as_str());
            if !(v.len() > 0 && v[v.len() - 1] == '\n') {
                push_char(s, '\n');
            }
            assert(final(s)@ =~= old(s)@ + body_text(*b));
        },
        None => {
            assert(final(s)@ =~= old(s)@ + body_text(*b));
        },
    }
}


/// The heading path a capture goes under: the trimmed segments of the target
/// heading, then the datetree headings.
pub open spec fn capture_target_parts(e: CaptureEntry, v: ValidCapture) -> Seq<Seq<char>> {
    (match e.target_heading {
        Some(t) => split_on(t@, '/').map_values(|p: Seq<char>| trim(p)),
        None => Seq::empty(),
    }) + match v.datetree_date {
        Some(d) => spec_datetree(d),
        None => Seq::empty(),
    }
}

/// `x + 1`, held at the largest `usize`.
pub open spec fn sat_inc(x: int) -> int {
    if x < usize::MAX { x + 1 } else { x }
}

/// Level of the first created heading when part of the path is missing.
pub open spec fn base_level(level: Option<usize>, matched: int, last: int, n_missing: int) -> int {
    match level {
        Some(l) => {
            let from_explicit = max_int(l - n_missing, 0);
            if matched > 0 { max_int(from_explicit, sat_inc(last)) } else { max_int(from_explicit, 1) }
        },
        None => if matched > 0 { sat_inc(last) } else { 1 },
    }
}

/// The captured heading's level: the requested one, raised below a target
/// to one deeper than its parent and capped at 19; by default one deeper
/// than the parent, or 1 without a target.
pub open spec fn capture_level(level: Option<usize>, parent: int, under: bool) -> int {
    match level {
        Some(l) => if under { min_int(max_int(l as int, parent + 1), MAX_HEADING_LEVEL as int) } else { l as int },
        None => if under { min_int(parent + 1, MAX_HEADING_LEVEL as int) } else { 1 },
    }
}

/// The text a capture inserts.
pub open spec fn insert_text(
    nonempty: bool,
    prefix: Seq<char>,
    heading: Seq<char>,
    v: ValidCapture,
    auto_created: bool,
    now: LocalDateTime,
    body: Option<String>,
) -> Seq<char> {
    (if nonempty { seq!['\n'] } else { Seq::empty() }) + prefix + heading + seq!['\n'] + planning_block(v)
        + drawer_text(effective_properties(auto_created, v.properties@, now)) + body_text(body)
}

/// The outcome of placing a capture into a file's content.
#[derive(Debug, Clone)]
pub struct CapturePlan {
    /// The file content after the insertion.
    pub new_content: String,
    pub result: CaptureResult,
}


fn capture_parts(entry: &CaptureEntry, valid: &ValidCapture) -> (parts: Vec<String>)
    requires
        valid.datetree_date matches Some(d) ==> calendar_valid(d),
    ensures
        string_views(parts@) == capture_target_parts(*entry, *valid),
{
    let mut parts: Vec<String> = Vec::new();
    match &entry.target_heading {
        Some(t) => {
            let segs = split_char(t.as_str(), '/');
            let mut i: usize = 0;
            while i < segs.len()
                invariant
                    i <= segs@.len(),
                    views_of(segs@) == split_on(t@, '/'),
                    string_views(parts@) == split_on(t@, '/').take(i as int).map_values(|p: Seq<char>| trim(p)),
                decreases segs@.len() - i,
            {
                let trimmed = trim_chars(&segs[i]);
                let ghost before = string_views(parts@);
                parts.push(string_of(trimmed.as_slice()));
                proof {
                    assert(string_views(parts@) =~= before.push(trim(segs@[i as int]@)));
                    assert(split_on(t@, '/').take(i + 1).map_values(|p: Seq<char>| trim(p)) =~= before.push(trim(split_on(t@, '/')[i as int])));
                }
                i = i + 1;
            }
            proof { assert(split_on(t@, '/').take(segs@.len() as int) =~= split_on(t@, '/')); }
        },
        None => {},
    }
    let ghost target_part = string_views(parts@);
    match valid.datetree_date {
        Some(d) => {
            let segs = OrgMode::datetree_segments(d);
            let mut k: usize = 0;
            while k < 3
                invariant
                    segs@.len() == 3,
                    forall|j: int| 0 <= j < 3 ==> #[trigger] segs@[j]@ == spec_datetree(d)[j],
                    k <= 3,
                    string_views(parts@) == target_part + spec_datetree(d).take(k as int),
                decreases 3 - k,
            {
                let ghost before = string_views(parts@);
                parts.push(segs[k].clone());
                proof {
                    assert(string_views(parts@) =~= before.push(segs@[k as int]@));
                    assert(target_part + spec_datetree(d).take(k + 1) =~= (target_part + spec_datetree(d).take(k as int)).push(spec_datetree(d)[k as int]));
                }
                k = k + 1;
            }
            proof { assert(spec_datetree(d).take(3) =~= spec_datetree(d)); }
        },
        None => {},
    }
    assert(string_views(parts@) =~= capture_target_parts(*entry, *valid));
    parts
}

fn sat_inc_exec(x: usize) -> (r: usize)
    ensures
        r == sat_inc(x as int),
{
    if x < usize::MAX { x + 1 } else { x }
}

fn place_capture(level: Option<usize>, parts: &Vec<String>, hs: &Vec<OrgHeadline>, content_len: usize) -> (res: (usize, String, usize, Option<String>))
    ensures
        ({
            let pl = placement_for(level, string_views(parts@), hs@, content_len as int);
            &&& res.0 as int == pl.0
            &&& res.1@ == pl.1
            &&& res.2 as int == pl.2
            &&& match res.3 {
                Some(u) => pl.3 == Some(u@),
                None => pl.3 is None,
            }
        }),
{
    if parts.len() == 0 {
        return (content_len, String::new(), 0, None);
    }
    let search = OrgMode::find_heading_path(hs, parts, content_len);
    let joined = join_strings(parts.as_slice(), "/");
    proof { reveal_strlit("/"); assert("/"@ =~= seq!['/']); }
    if search.remaining_parts.len() == 0 {
        return (search.insert_pos, String::new(), search.last_matched_level, Some(joined));
    }
    let n = search.remaining_parts.len();
    let base: usize = match level {
        Some(l) => {
            let fe = if l >= n { l - n } else { 0 };
            if search.matched_depth > 0 {
                let lp = sat_inc_exec(search.last_matched_level);
                if fe >= lp { fe } else { lp }
            } else {
                if fe >= 1 { fe } else { 1 }
            }
        },
        None => {
            if search.matched_depth > 0 {
                sat_inc_exec(search.last_matched_level)
            } else {
                1
            }
        },
    };
    let mut prefix = String::new();
    push_missing_prefix(&mut prefix, &search.remaining_parts, base);
    let parent = if base <= MAX_HEADING_LEVEL && n - 1 <= MAX_HEADING_LEVEL - base { base + n - 1 } else { MAX_HEADING_LEVEL };
    (search.insert_pos, prefix, parent, Some(joined))
}

/// Where the heading goes: (byte offset, heading lines created first,
/// parent level, effective target path).
pub open spec fn placement_for(
    level: Option<usize>,
    parts: Seq<Seq<char>>,
    hs: Seq<OrgHeadline>,
    content_len: int,
) -> (int, Seq<char>, int, Option<Seq<char>>) {
    if parts.len() == 0 {
        (content_len, Seq::empty(), 0, None)
    } else {
        let (_, m, p, last) = search_fold(hs, parts, hs.len(), content_len);
        let rem = parts.skip(m);
        let target = Some(join_with(parts, seq!['/']));
        if rem.len() == 0 {
            (p, Seq::empty(), last, target)
        } else {
            let base = base_level(level, m, last, rem.len() as int);
            (p, missing_prefix(rem, base), min_int(base + rem.len() - 1, MAX_HEADING_LEVEL as int), target)
        }
    }
}

fn capture_level_exec(level: Option<usize>, parent: usize, under: bool) -> (r: usize)
    ensures
        r as int == capture_level(level, parent as int, under),
{
    match level {
        Some(l) => {
            if under {
                let lp = if parent < MAX_HEADING_LEVEL { parent + 1 } else { MAX_HEADING_LEVEL + 1 };
                let m = if l >= lp { l } else { lp };
                if m <= MAX_HEADING_LEVEL { m } else { MAX_HEADING_LEVEL }
            } else {
                l
            }
        },
        None => {
            if under {
                if parent < MAX_HEADING_LEVEL { parent + 1 } else { MAX_HEADING_LEVEL }
            } else {
                1
            }
        },
    }
}

fn build_insert_text(
    nonempty: bool,
    prefix: &String,
    heading: &String,
    valid: &ValidCapture,
    auto_created: bool,
    now: LocalDateTime,
    body: &Option<String>,
) -> (ins: String)
    requires
        calendar_valid(now.date),
        now.hour < 24,
        now.minute < 60,
        valid.scheduled matches Some(t) ==> ts_renderable(t),
        valid.deadline matches Some(t) ==> ts_renderable(t),
        valid.closed matches Some(t) ==> ts_renderable(t),
    ensures
        ins@ == insert_text(nonempty, prefix@, heading@, *valid, auto_created, now, *body),
{
    let mut ins = String::new();
    if nonempty {
        push_char(&mut ins, '\n');
    }
    ins.append(prefix.as_str());
    ins.append(heading.as_str());
    push_char(&mut ins, '\n');
    let ghost a = ins@;
    push_planning_block(&mut ins, valid);
    let ghost b = ins@;
    push_drawer(&mut ins, auto_created, &valid.properties, now);
    let ghost c = ins@;
    push_body(&mut ins, body);
    assert(ins@ =~= insert_text(nonempty, prefix@, heading@, *valid, auto_created, now, *body));
    ins
}

impl OrgMode {
    /// Computes the new content of the target file for a validated capture:
    /// the heading (with any missing target path headings before it), its
    /// planning line, property drawer and body, inserted after the deepest
    /// matched heading of the target path, or at the end of the file.
    /// `None` when the result would not be valid UTF-8.
    pub fn plan_capture(
        &self,
        entry: &CaptureEntry,
        valid: &ValidCapture,
        content: &str,
        now: LocalDateTime,
    ) -> (res: Option<CapturePlan>)
        requires
            calendar_valid(now.date),
            now.hour < 24,
            now.minute < 60,
            valid.scheduled matches Some(t) ==> ts_renderable(t),
            valid.deadline matches Some(t) ==> ts_renderable(t),
            valid.closed matches Some(t) ==> ts_renderable(t),
            valid.datetree_date matches Some(d) ==> calendar_valid(d),
        ensures
            ({
                let c = self.spec_config();
                let hs = crate::orgdoc::parsed_headlines(content@, string_views(crate::config::spec_unfinished(c.org_todo_keywords@)), string_views(crate::config::spec_finished(c.org_todo_keywords@)));
                let bytes = encode_utf8(content@);
                let (pos0, prefix, parent, under) = placement_for(entry.level, capture_target_parts(*entry, *valid), hs, bytes.len() as int);
                let pos = min_int(pos0, bytes.len() as int);
                let level = capture_level(entry.level, parent, under is Some);
                let heading = spec_heading(level as nat, opt_sview(entry.todo_state), opt_sview(entry.priority), entry.title@, opt_vtags(entry.tags));
                let ins = insert_text(content@.len() > 0, prefix, heading, *valid, c.org_auto_created_property, now, entry.body);
                let new_bytes = splice_bytes(bytes, pos, encode_utf8(ins));
                &&& res is Some <==> valid_utf8(new_bytes)
                &&& res matches Some(plan) ==> {
                    &&& encode_utf8(plan.new_content@) == new_bytes
                    &&& plan.result.file_path@ == valid.file_rel@
                    &&& plan.result.level == level
                    &&& plan.result.heading_line@ == heading
                    &&& match under {
                        Some(t) => plan.result.under_target matches Some(u) && u@ == t,
                        None => plan.result.under_target is None,
                    }
                }
            }),
    {
        proof { self.lemma_spec_config(); use_type_invariant(self); }
        let todo = self.config.unfinished_keywords();
        let done = self.config.finished_keywords();
        let hs = crate::orgdoc::parse_headlines(content, todo, done);
        let bytes = bytes_of(content);
        let content_len = bytes.len();
        let parts = capture_parts(entry, valid);
        let (pos, prefix, parent, under) = place_capture(entry.level, &parts, &hs, content_len);
        let level = capture_level_exec(entry.level, parent, under.is_some());
        let heading_line = OrgMode::format_heading(
            level,
            as_opt_str(&entry.todo_state),
            as_opt_str(&entry.priority),
            entry.title.as_str(),
            as_opt_slice(&entry.tags),
        );
        let ins = build_insert_text(content_len > 0, &prefix, &heading_line, valid, self.config.org_auto_created_property, now, &entry.body);
        let ins_bytes = bytes_of(ins.as_str());
        let at = if pos <= content_len { pos } else { content_len };
        let mut out: Vec<u8> = Vec::new();
        extend_range(&mut out, &bytes, 0, at);
        extend_range(&mut out, &ins_bytes, 0, ins_bytes.len());
        extend_range(&mut out, &bytes, at, content_len);
        proof {
            assert(bytes@.subrange(0, at as int) =~= bytes@.take(at as int));
            assert(bytes@.subrange(at as int, content_len as int) =~= bytes@.skip(at as int));
            assert(ins_bytes@.subrange(0, ins_bytes@.len() as int) =~= ins_bytes@);
            assert(content_len > 0 <==> content@.len() > 0) by {
                crate::text::lemma_encode_utf8_empty(content@);
            }
        }
        match string_from_utf8(out) {
            Some(new_content) => Some(CapturePlan {
                new_content,
                result: CaptureResult {
                    file_path: valid.file_rel.clone(),
                    level,
                    heading_line,
                    under_target: under,
                },
            }),
            None => None,
        }
    }
}

} // verus!
