//! The heading an update targets: finding it, by ID property or by heading
//! path, and the lines its planning block, property drawer and body take.
use vstd::prelude::*;
use vstd::utf8::encode_utf8;
use crate::capture::{opt_sview, lower_of, to_lower};
use crate::lines::{spec_lines, nl_count, body_end, starts_with, count_newlines, body_end_in};
use crate::orgdoc::{OrgHeadline, OrgDrawer};
use crate::text::{chars_of, string_of, string_views, split_on, split_char, views_of, str_eq, trim, trim_chars, trim_start, trim_end, trim_start_chars, trim_end_chars};
use crate::update::UpdateEntry;

verus! {

/// The planning timestamps of a heading, as written.
#[derive(Debug, Clone, PartialEq, Eq, Default)]
pub struct PlanningValues {
    pub scheduled: Option<String>,
    pub deadline: Option<String>,
    pub closed: Option<String>,
}

pub open spec fn pv_view(v: PlanningValues) -> (Option<Seq<char>>, Option<Seq<char>>, Option<Seq<char>>) {
    (opt_sview(v.scheduled), opt_sview(v.deadline), opt_sview(v.closed))
}

/// Number of leading `:` characters.
pub open spec fn lead_colons(s: Seq<char>) -> nat
    decreases s.len(),
{
    if s.len() > 0 && s[0] == ':' { 1 + lead_colons(s.skip(1)) } else { 0 }
}

/// `s` without leading `:` characters (`trim_start_matches(':')`).
pub open spec fn drop_colons(s: Seq<char>) -> Seq<char> {
    s.skip(lead_colons(s) as int)
}

/// A planning line: after leading whitespace it starts with `SCHEDULED:`,
/// `DEADLINE:` or `CLOSED:`. Gives the kind (0, 1, 2) and the timestamp text
/// after the keyword, its colons and surrounding whitespace removed.
pub open spec fn planning_line(l: Seq<char>) -> Option<(int, Seq<char>)> {
    let t = trim_start(l);
    if starts_with(t, "SCHEDULED:"@) {
        Some((0, trim(drop_colons(t.skip(9)))))
    } else if starts_with(t, "DEADLINE:"@) {
        Some((1, trim(drop_colons(t.skip(8)))))
    } else if starts_with(t, "CLOSED:"@) {
        Some((2, trim(drop_colons(t.skip(6)))))
    } else {
        None
    }
}

/// Fills slot `k` of the planning values if it is still empty.
pub open spec fn pv_set(
    v: (Option<Seq<char>>, Option<Seq<char>>, Option<Seq<char>>),
    k: int,
    raw: Seq<char>,
) -> (Option<Seq<char>>, Option<Seq<char>>, Option<Seq<char>>) {
    if k == 0 && v.0 is None {
        (Some(raw), v.1, v.2)
    } else if k == 1 && v.1 is None {
        (v.0, Some(raw), v.2)
    } else if k == 2 && v.2 is None {
        (v.0, v.1, Some(raw))
    } else {
        v
    }
}

/// The index after the run of planning lines that starts at line `i`.
pub open spec fn extra_end(lines: Seq<Seq<char>>, i: int) -> int
    decreases lines.len() - i,
{
    if 0 <= i < lines.len() && planning_line(lines[i]) is Some {
        extra_end(lines, i + 1)
    } else {
        i
    }
}

/// The planning values after reading the run of planning lines from `i`.
pub open spec fn extra_values(
    lines: Seq<Seq<char>>,
    i: int,
    v: (Option<Seq<char>>, Option<Seq<char>>, Option<Seq<char>>),
) -> (Option<Seq<char>>, Option<Seq<char>>, Option<Seq<char>>)
    decreases lines.len() - i,
{
    if 0 <= i < lines.len() && planning_line(lines[i]) is Some {
        let (k, raw) = planning_line(lines[i])->0;
        extra_values(lines, i + 1, pv_set(v, k, raw))
    } else {
        v
    }
}

pub open spec fn at_least_one(n: int) -> int {
    if n < 1 { 1 } else { n }
}

/// The planning block of a headline: (first line, number of lines, values).
/// Without planning, it is the empty run after the headline's line. With
/// one, it is the lines the parsed planning spans (at least one), followed
/// by any further lines that start with a planning keyword; those lines fill
/// values the parsed planning left empty.
pub open spec fn planning_span(h: OrgHeadline, bytes: Seq<u8>, lines: Seq<Seq<char>>) -> (int, int, (
    Option<Seq<char>>,
    Option<Seq<char>>,
    Option<Seq<char>>,
)) {
    match h.planning {
        None => (nl_count(bytes.take(h.start as int)) + 1int, 0, (None, None, None)),
        Some(p) => {
            let first = nl_count(bytes.take(p.start as int)) as int;
            let next = first + at_least_one(nl_count(bytes.subrange(p.start as int, p.end as int)) as int);
            (
                first,
                extra_end(lines, next) - first,
                extra_values(lines, next, (opt_sview(p.scheduled), opt_sview(p.deadline), opt_sview(p.closed))),
            )
        },
    }
}

pub open spec fn pairs_view(v: Seq<(String, String)>) -> Seq<(Seq<char>, Seq<char>)> {
    v.map_values(|p: (String, String)| (p.0@, p.1@))
}

/// The property drawer of a headline: (first line, number of lines, pairs);
/// without one, the empty run at `after`.
pub open spec fn drawer_span(h: OrgHeadline, bytes: Seq<u8>, after: int) -> (int, int, Seq<(Seq<char>, Seq<char>)>) {
    match h.properties {
        None => (after, 0, Seq::empty()),
        Some(d) => {
            let txt = bytes.subrange(d.start as int, d.end as int);
            let n = nl_count(txt) as int;
            (nl_count(bytes.take(d.start as int)) as int, if txt.len() > 0 && txt.last() == 10u8 { n } else { n + 1 }, pairs_view(d.pairs@))
        },
    }
}

/// The parsed spans of the headline lie within the content.
pub open spec fn spans_in(h: OrgHeadline, len: int) -> bool {
    &&& h.start <= len
    &&& (h.planning matches Some(p) ==> p.start <= p.end <= len)
    &&& (h.properties matches Some(d) ==> d.start <= d.end <= len)
}

/// The heading an update rewrites, with the lines its parts take.
#[derive(Debug, Clone)]
pub struct TargetHeadline {
    pub line_idx: usize,
    pub level: usize,
    /// The title without trailing whitespace.
    pub title: String,
    pub keyword: Option<String>,
    pub priority: Option<String>,
    pub tags: Vec<String>,
    pub planning_first_line: usize,
    pub planning_line_count: usize,
    pub planning_values: PlanningValues,
    pub property_drawer_first_line: usize,
    pub property_drawer_line_count: usize,
    pub existing_properties: Vec<(String, String)>,
    pub body_first_line: usize,
    /// The line after the body: the next line starting with `*`, or the end.
    pub body_last_line: usize,
}

/// The headline's spans fit the content, and its body does not start past
/// the last line.
pub open spec fn target_ok(h: OrgHeadline, content: Seq<char>) -> bool {
    let bytes = encode_utf8(content);
    let lines = spec_lines(content);
    let (pf, pc, pv) = planning_span(h, bytes, lines);
    let (df, dc, props) = drawer_span(h, bytes, pf + pc);
    spans_in(h, bytes.len() as int) && df + dc <= lines.len()
}

/// What an update reads of a heading, as plain values.
pub struct TargetView {
    pub line_idx: int,
    pub level: nat,
    pub title: Seq<char>,
    pub keyword: Option<Seq<char>>,
    pub priority: Option<Seq<char>>,
    pub tags: Seq<Seq<char>>,
    pub planning_first_line: int,
    pub planning_line_count: int,
    pub planning_values: (Option<Seq<char>>, Option<Seq<char>>, Option<Seq<char>>),
    pub drawer_first_line: int,
    pub drawer_line_count: int,
    pub properties: Seq<(Seq<char>, Seq<char>)>,
    pub body_first_line: int,
    pub body_last_line: int,
}

/// What an update reads of headline `h` of `content`.
pub open spec fn target_view(h: OrgHeadline, content: Seq<char>) -> TargetView {
    let bytes = encode_utf8(content);
    let lines = spec_lines(content);
    let (pf, pc, pv) = planning_span(h, bytes, lines);
    let (df, dc, props) = drawer_span(h, bytes, pf + pc);
    TargetView {
        line_idx: nl_count(bytes.take(h.start as int)) as int,
        level: h.level as nat,
        title: trim_end(h.title_raw@),
        keyword: opt_sview(h.keyword),
        priority: opt_sview(h.priority),
        tags: string_views(h.tags@),
        planning_first_line: pf,
        planning_line_count: pc,
        planning_values: pv,
        drawer_first_line: df,
        drawer_line_count: dc,
        properties: props,
        body_first_line: df + dc,
        body_last_line: body_end(lines, df + dc),
    }
}

/// The plain values of a target heading.
pub open spec fn tview(t: TargetHeadline) -> TargetView {
    TargetView {
        line_idx: t.line_idx as int,
        level: t.level as nat,
        title: t.title@,
        keyword: opt_sview(t.keyword),
        priority: opt_sview(t.priority),
        tags: string_views(t.tags@),
        planning_first_line: t.planning_first_line as int,
        planning_line_count: t.planning_line_count as int,
        planning_values: pv_view(t.planning_values),
        drawer_first_line: t.property_drawer_first_line as int,
        drawer_line_count: t.property_drawer_line_count as int,
        properties: pairs_view(t.existing_properties@),
        body_first_line: t.body_first_line as int,
        body_last_line: t.body_last_line as int,
    }
}

/// `t` is what the update reads of headline `h` of `content`.
pub open spec fn describes(t: TargetHeadline, h: OrgHeadline, content: Seq<char>) -> bool {
    tview(t) == target_view(h, content)
}

/// Whether `s` starts with the literal `p`.
fn has_prefix(s: &Vec<char>, p: &str) -> (res: bool)
    ensures
        res == starts_with(s@, p@),
{
    let q = chars_of(p);
    if s.len() < q.len() {
        return false;
    }
    let mut i: usize = 0;
    while i < q.len()
        invariant
            q@ == p@,
            q@.len() <= s@.len(),
            i <= q@.len(),
            forall|k: int| 0 <= k < i ==> s@[k] == q@[k],
        decreases q@.len() - i,
    {
        if s[i] != q[i] {
            assert(s@.take(q@.len() as int)[i as int] != p@[i as int]);
            return false;
        }
        i = i + 1;
    }
    assert(s@.take(q@.len() as int) =~= p@);
    true
}

proof fn lemma_lead_colons(s: Seq<char>, i: int)
    requires
        0 <= i <= s.len(),
        forall|k: int| 0 <= k < i ==> s[k] == ':',
        i == s.len() || s[i] != ':',
    ensures
        lead_colons(s) == i,
    decreases i,
{
    if i > 0 {
        assert forall|k: int| 0 <= k < i - 1 implies s.skip(1)[k] == ':' by {
            assert(s.skip(1)[k] == s[k + 1]);
        }
        if i - 1 < s.skip(1).len() {
            assert(s.skip(1)[i - 1] == s[i]);
        }
        lemma_lead_colons(s.skip(1), i - 1);
    }
}

/// The timestamp text of a planning line after its keyword of `n` letters.
fn planning_raw(t: &Vec<char>, n: usize) -> (res: Vec<char>)
    requires
        n <= t@.len(),
    ensures
        res@ == trim(drop_colons(t@.skip(n as int))),
{
    let mut i = n;
    while i < t.len() && t[i] == ':'
        invariant
            n <= i <= t@.len(),
            forall|k: int| n <= k < i ==> t@[k] == ':',
        decreases t@.len() - i,
    {
        i = i + 1;
    }
    let ghost a = t@.skip(n as int);
    proof {
        assert forall|k: int| 0 <= k < i - n implies a[k] == ':' by { assert(a[k] == t@[k + n]); }
        if i < t@.len() { assert(a[i - n] == t@[i as int]); }
        lemma_lead_colons(a, i - n);
    }
    let mut rest: Vec<char> = Vec::new();
    let mut k = i;
    while k < t.len()
        invariant
            i <= k <= t@.len(),
            rest@ == t@.subrange(i as int, k as int),
        decreases t@.len() - k,
    {
        rest.push(t[k]);
        proof { assert(t@.subrange(i as int, k + 1) =~= t@.subrange(i as int, k as int).push(t@[k as int])); }
        k = k + 1;
    }
    assert(rest@ =~= drop_colons(a));
    trim_chars(&rest)
}

/// Reads a planning line: its kind and timestamp text, if it is one.
fn read_planning_line(line: &String) -> (res: Option<(usize, String)>)
    ensures
        match res {
            Some((k, raw)) => planning_line(line@) == Some((k as int, raw@)),
            None => planning_line(line@) is None,
        },
{
    let v = chars_of(line.as_str());
    let t = trim_start_chars(&v);
    if has_prefix(&t, "SCHEDULED:") {
        proof { reveal_strlit("SCHEDULED:"); }
        let raw = planning_raw(&t, 9);
        Some((0, string_of(raw.as_slice())))
    } else if has_prefix(&t, "DEADLINE:") {
        proof { reveal_strlit("DEADLINE:"); }
        let raw = planning_raw(&t, 8);
        Some((1, string_of(raw.as_slice())))
    } else if has_prefix(&t, "CLOSED:") {
        proof { reveal_strlit("CLOSED:"); }
        let raw = planning_raw(&t, 6);
        Some((2, string_of(raw.as_slice())))
    } else {
        None
    }
}

fn clone_opt(o: &Option<String>) -> (res: Option<String>)
    ensures
        opt_sview(res) == opt_sview(*o),
{
    match o {
        Some(s) => Some(s.clone()),
        None => None,
    }
}

/// Reads the planning block of `h`, as `planning_span` describes it.
fn extract_planning(h: &OrgHeadline, bytes: &Vec<u8>, lines: &Vec<String>) -> (res: (usize, usize, PlanningValues))
    requires
        spans_in(*h, bytes@.len() as int),
        bytes@.len() <= isize::MAX,
    ensures
        ({
            let (pf, pc, pv) = planning_span(*h, bytes@, string_views(lines@));
            &&& res.0 == pf
            &&& res.1 == pc
            &&& pv_view(res.2) == pv
        }),
        res.0 + res.1 <= usize::MAX,
{
    let ghost ls = string_views(lines@);
    match &h.planning {
        None => {
            proof { assert(bytes@.subrange(0, h.start as int) =~= bytes@.take(h.start as int)); }
            let li = count_newlines(bytes, 0, h.start);
            (li + 1, 0, PlanningValues { scheduled: None, deadline: None, closed: None })
        },
        Some(p) => {
            proof { assert(bytes@.subrange(0, p.start as int) =~= bytes@.take(p.start as int)); }
            let first = count_newlines(bytes, 0, p.start);
            let span = count_newlines(bytes, p.start, p.end);
            let ast = if span < 1 { 1 } else { span };
            let start = first + ast;
            let mut values = PlanningValues {
                scheduled: clone_opt(&p.scheduled),
                deadline: clone_opt(&p.deadline),
                closed: clone_opt(&p.closed),
            };
            let ghost v0 = pv_view(values);
            let mut next = start;
            while next < lines.len()
                invariant
                    ls == string_views(lines@),
                    start <= next,
                    extra_end(ls, start as int) == extra_end(ls, next as int),
                    extra_values(ls, start as int, v0) == extra_values(ls, next as int, pv_view(values)),
                ensures
                    start <= next,
                    extra_end(ls, start as int) == next,
                    extra_values(ls, start as int, v0) == pv_view(values),
                decreases lines@.len() - next,
            {
                match read_planning_line(&lines[next]) {
                    Some((k, raw)) => {
                        assert(lines@[next as int]@ == ls[next as int]);
                        if k == 0 && values.scheduled.is_none() {
                            values.scheduled = Some(raw);
                        } else if k == 1 && values.deadline.is_none() {
                            values.deadline = Some(raw);
                        } else if k == 2 && values.closed.is_none() {
                            values.closed = Some(raw);
                        }
                        next = next + 1;
                    },
                    None => {
                        assert(lines@[next as int]@ == ls[next as int]);
                        break;
                    },
                }
            }
            (first, next - first, values)
        },
    }
}

/// Reads the property drawer of `h`, as `drawer_span` describes it.
fn extract_property_drawer(h: &OrgHeadline, bytes: &Vec<u8>, after: usize) -> (res: (usize, usize, Vec<(String, String)>))
    requires
        spans_in(*h, bytes@.len() as int),
        bytes@.len() <= isize::MAX,
    ensures
        ({
            let (df, dc, props) = drawer_span(*h, bytes@, after as int);
            &&& res.0 == df
            &&& res.1 == dc
            &&& pairs_view(res.2@) == props
        }),
        h.properties is Some ==> res.0 + res.1 <= usize::MAX,
{
    match &h.properties {
        None => (after, 0, Vec::new()),
        Some(d) => {
            proof { assert(bytes@.subrange(0, d.start as int) =~= bytes@.take(d.start as int)); }
            let first = count_newlines(bytes, 0, d.start);
            let n = count_newlines(bytes, d.start, d.end);
            let ends = d.end > d.start && bytes[d.end - 1] == 10u8;
            proof {
                let txt = bytes@.subrange(d.start as int, d.end as int);
                if txt.len() > 0 { assert(txt.last() == bytes@[d.end - 1]); }
            }
            let count = if ends { n } else { n + 1 };
            let mut pairs: Vec<(String, String)> = Vec::new();
            let mut i: usize = 0;
            while i < d.pairs.len()
                invariant
                    i <= d.pairs@.len(),
                    pairs_view(pairs@) == pairs_view(d.pairs@.take(i as int)),
                decreases d.pairs@.len() - i,
            {
                let ghost before = pairs_view(pairs@);
                pairs.push((d.pairs[i].0.clone(), d.pairs[i].1.clone()));
                proof {
                    assert(pairs_view(pairs@) =~= before.push((d.pairs@[i as int].0@, d.pairs@[i as int].1@)));
                    assert(pairs_view(d.pairs@.take(i + 1)) =~= pairs_view(d.pairs@.take(i as int)).push((d.pairs@[i as int].0@, d.pairs@[i as int].1@)));
                }
                i = i + 1;
            }
            proof { assert(d.pairs@.take(d.pairs@.len() as int) =~= d.pairs@); }
            (first, count, pairs)
        },
    }
}

fn clone_strings(v: &Vec<String>) -> (res: Vec<String>)
    ensures
        string_views(res@) == string_views(v@),
{
    let mut out: Vec<String> = Vec::new();
    let mut i: usize = 0;
    while i < v.len()
        invariant
            i <= v@.len(),
            string_views(out@) == string_views(v@.take(i as int)),
        decreases v@.len() - i,
    {
        let ghost before = string_views(out@);
        out.push(v[i].clone());
        proof {
            assert(string_views(out@) =~= before.push(v@[i as int]@));
            assert(string_views(v@.take(i + 1)) =~= string_views(v@.take(i as int)).push(v@[i as int]@));
        }
        i = i + 1;
    }
    proof { assert(v@.take(v@.len() as int) =~= v@); }
    out
}

/// What an update reads of headline `h`: `None` when its spans do not fit
/// the content.
pub fn target_of(h: &OrgHeadline, content: &str, bytes: &Vec<u8>, lines: &Vec<String>) -> (res: Option<TargetHeadline>)
    requires
        bytes@ == encode_utf8(content@),
        bytes@.len() <= isize::MAX,
        string_views(lines@) == spec_lines(content@),
        lines@.len() <= content@.len() + 1,
    ensures
        res is Some <==> target_ok(*h, content@),
        res matches Some(t) ==> describes(t, *h, content@),
{
    proof { crate::text::lemma_encode_utf8_len_ge(content@); }
    let len = bytes.len();
    let fits = h.start <= len && match &h.planning {
        Some(p) => p.start <= p.end && p.end <= len,
        None => true,
    } && match &h.properties {
        Some(d) => d.start <= d.end && d.end <= len,
        None => true,
    };
    if !fits {
        return None;
    }
    proof { assert(bytes@.subrange(0, h.start as int) =~= bytes@.take(h.start as int)); }
    let line_idx = count_newlines(bytes, 0, h.start);
    let (pf, pc, pv) = extract_planning(h, bytes, lines);
    let (df, dc, props) = extract_property_drawer(h, bytes, pf + pc);
    if df > lines.len() || dc > lines.len() - df {
        return None;
    }
    let body_first = df + dc;
    let body_last = body_end_in(lines, body_first);
    let tv = chars_of(h.title_raw.as_str());
    let title = string_of(trim_end_chars(&tv).as_slice());
    Some(TargetHeadline {
        line_idx,
        level: h.level,
        title,
        keyword: clone_opt(&h.keyword),
        priority: clone_opt(&h.priority),
        tags: clone_strings(&h.tags),
        planning_first_line: pf,
        planning_line_count: pc,
        planning_values: pv,
        property_drawer_first_line: df,
        property_drawer_line_count: dc,
        existing_properties: props,
        body_first_line: body_first,
        body_last_line: body_last,
    })
}

/// The ID pairs of a property drawer as a map keeps them: a pair counts
/// when no later pair has the same key.
pub open spec fn has_id_pair(ps: Seq<(Seq<char>, Seq<char>)>, id: Seq<char>) -> bool {
    exists|i: int| 0 <= i < ps.len() && lower_of(#[trigger] ps[i].0) == "id"@ && ps[i].1 == id
        && forall|j: int| i < j < ps.len() ==> #[trigger] ps[j].0 != ps[i].0
}

/// The headline's property drawer gives it the ID `id` (key compared
/// lowercased).
pub open spec fn id_hit(h: OrgHeadline, id: Seq<char>) -> bool {
    h.properties matches Some(d) && has_id_pair(pairs_view(d.pairs@), id)
}

/// Whether a later pair has the same key as pair `i`.
fn key_repeats_later(pairs: &Vec<(String, String)>, i: usize) -> (res: bool)
    requires
        i < pairs@.len(),
    ensures
        res == exists|j: int| i < j < pairs@.len() && #[trigger] pairs_view(pairs@)[j].0 == pairs_view(pairs@)[i as int].0,
{
    let ghost ps = pairs_view(pairs@);
    let n = pairs.len();
    let mut j = i + 1;
    while j < pairs.len()
        invariant
            ps == pairs_view(pairs@),
            i < j <= pairs@.len(),
            forall|m: int| i < m < j ==> #[trigger] ps[m].0 != ps[i as int].0,
        decreases pairs@.len() - j,
    {
        assert(ps[j as int] == (pairs@[j as int].0@, pairs@[j as int].1@));
        assert(ps[i as int] == (pairs@[i as int].0@, pairs@[i as int].1@));
        if str_eq(pairs[j].0.as_str(), pairs[i].0.as_str()) {
            assert(pairs_view(pairs@)[j as int].0 == pairs_view(pairs@)[i as int].0);
            return true;
        }
        j = j + 1;
    }
    false
}

/// Whether a key/value list, read as a map, holds `id` under a key that
/// lowercases to `id`.
pub fn pairs_have_id(pairs: &Vec<(String, String)>, id: &str) -> (res: bool)
    ensures
        res == has_id_pair(pairs_view(pairs@), id@),
{
    let ghost ps = pairs_view(pairs@);
    let mut i: usize = 0;
    while i < pairs.len()
        invariant
            ps == pairs_view(pairs@),
            i <= pairs@.len(),
            forall|k: int| 0 <= k < i ==> !(lower_of(#[trigger] ps[k].0) == "id"@ && ps[k].1 == id@
                && forall|j: int| k < j < ps.len() ==> #[trigger] ps[j].0 != ps[k].0),
        decreases pairs@.len() - i,
    {
        let lo = to_lower(pairs[i].0.as_str());
        assert(ps[i as int] == (pairs@[i as int].0@, pairs@[i as int].1@));
        if str_eq(lo.as_str(), "id") && str_eq(pairs[i].1.as_str(), id) && !key_repeats_later(pairs, i) {
            proof {
                assert(lower_of(ps[i as int].0) == "id"@);
                assert(forall|j: int| i < j < ps.len() ==> #[trigger] ps[j].0 != ps[i as int].0);
            }
            return true;
        }
        i = i + 1;
    }
    false
}

/// Whether headline `h` carries the ID `id`.
pub fn has_id_property(h: &OrgHeadline, id: &str) -> (res: bool)
    ensures
        res == id_hit(*h, id@),
{
    match &h.properties {
        Some(d) => pairs_have_id(&d.pairs, id),
        None => false,
    }
}

/// The open headings after dropping those at `level` or deeper.
pub open spec fn pop_titles(stack: Seq<(int, Seq<char>)>, level: int) -> Seq<(int, Seq<char>)>
    decreases stack.len(),
{
    if stack.len() > 0 && stack.last().0 >= level { pop_titles(stack.drop_last(), level) } else { stack }
}

/// The chain of open headings (level, title without trailing whitespace)
/// after the first `n` headlines, the last one included.
pub open spec fn title_stack(hs: Seq<OrgHeadline>, n: nat) -> Seq<(int, Seq<char>)>
    decreases n,
{
    if n == 0 || n > hs.len() {
        Seq::empty()
    } else {
        pop_titles(title_stack(hs, (n - 1) as nat), hs[n - 1].level as int).push(
            (hs[n - 1].level as int, trim_end(hs[n - 1].title_raw@)),
        )
    }
}

pub open spec fn stack_titles(st: Seq<(int, Seq<char>)>) -> Seq<Seq<char>> {
    st.map_values(|e: (int, Seq<char>)| e.1)
}

/// Headline `i` is reached by the heading path `parts`: the titles of it
/// and its ancestors, outermost first, are `parts`.
pub open spec fn path_hit(hs: Seq<OrgHeadline>, i: int, parts: Seq<Seq<char>>) -> bool {
    stack_titles(title_stack(hs, (i + 1) as nat)) == parts
}

/// The segments of the request's heading path (of `""` when there is none).
pub open spec fn target_path(e: UpdateEntry) -> Seq<Seq<char>> {
    split_on(
        match e.heading_path {
            Some(p) => p@,
            None => Seq::empty(),
        },
        '/',
    )
}

/// Headline `i` is what the request targets: by ID when one is given, else
/// by heading path.
pub open spec fn hits(e: UpdateEntry, hs: Seq<OrgHeadline>, i: int) -> bool {
    match e.id {
        Some(id) => id_hit(hs[i], id@),
        None => path_hit(hs, i, target_path(e)),
    }
}

/// The outcome of looking for an update's target.
#[derive(Debug, Clone)]
pub enum Located {
    /// No headline matches.
    NotFound,
    /// Two or more headlines match.
    Ambiguous,
    /// Exactly one headline matches.
    Found(TargetHeadline),
    /// Exactly one headline matches, but its parsed spans do not fit the
    /// content.
    OutOfRange,
}

pub open spec fn stack_tv(s: Seq<(usize, String)>) -> Seq<(int, Seq<char>)> {
    s.map_values(|p: (usize, String)| (p.0 as int, p.1@))
}

fn pop_titles_exec(stack: &mut Vec<(usize, String)>, level: usize)
    ensures
        stack_tv(final(stack)@) == pop_titles(stack_tv(old(stack)@), level as int),
{
    loop
        invariant_except_break
            pop_titles(stack_tv(stack@), level as int) == pop_titles(stack_tv(old(stack)@), level as int),
        ensures
            stack_tv(stack@) == pop_titles(stack_tv(old(stack)@), level as int),
        decreases stack@.len(),
    {
        let n = stack.len();
        if n > 0 && stack[n - 1].0 >= level {
            proof { assert(stack_tv(stack@).drop_last() =~= stack_tv(stack@.drop_last())); }
            stack.pop();
        } else {
            break;
        }
    }
}

/// Whether the titles on the stack are exactly `parts`.
fn stack_is_path(stack: &Vec<(usize, String)>, parts: &Vec<Vec<char>>) -> (res: bool)
    ensures
        res == (stack_titles(stack_tv(stack@)) == views_of(parts@)),
{
    if stack.len() != parts.len() {
        proof {
            assert(stack_titles(stack_tv(stack@)).len() != views_of(parts@).len());
        }
        return false;
    }
    let mut i: usize = 0;
    while i < stack.len()
        invariant
            stack@.len() == parts@.len(),
            i <= stack@.len(),
            forall|k: int| 0 <= k < i ==> stack@[k].1@ == parts@[k]@,
        decreases stack@.len() - i,
    {
        let pv = string_of(parts[i].as_slice());
        if !str_eq(stack[i].1.as_str(), pv.as_str()) {
            proof {
                assert(stack_titles(stack_tv(stack@))[i as int] != views_of(parts@)[i as int]);
            }
            return false;
        }
        i = i + 1;
    }
    assert(stack_titles(stack_tv(stack@)) =~= views_of(parts@));
    true
}

/// Finds the headline an update targets among `hs`, the headlines of
/// `content` in document order: by ID property when the request has an
/// `id`, else by heading path (the titles of the headline and its
/// ancestors, stripped of trailing whitespace, are the path's segments).
pub fn locate_headline(hs: &Vec<OrgHeadline>, content: &str, entry: &UpdateEntry) -> (res: Located)
    ensures
        match res {
            Located::NotFound => forall|i: int| 0 <= i < hs@.len() ==> !#[trigger] hits(*entry, hs@, i),
            Located::Ambiguous => exists|i: int, j: int| 0 <= i < j < hs@.len() && #[trigger] hits(*entry, hs@, i) && #[trigger] hits(*entry, hs@, j),
            Located::Found(t) => exists|i: int| 0 <= i < hs@.len() && #[trigger] hits(*entry, hs@, i)
                && (forall|j: int| 0 <= j < hs@.len() && j != i ==> !#[trigger] hits(*entry, hs@, j))
                && target_ok(hs@[i], content@) && describes(t, hs@[i], content@),
            Located::OutOfRange => exists|i: int| 0 <= i < hs@.len() && #[trigger] hits(*entry, hs@, i)
                && (forall|j: int| 0 <= j < hs@.len() && j != i ==> !#[trigger] hits(*entry, hs@, j))
                && !target_ok(hs@[i], content@),
        },
{
    let path_str: String = match &entry.heading_path {
        Some(p) => p.clone(),
        None => String::new(),
    };
    let parts = split_char(path_str.as_str(), '/');
    assert(views_of(parts@) == target_path(*entry));
    let mut stack: Vec<(usize, String)> = Vec::new();
    let mut found: usize = 0;
    let mut count: usize = 0;
    let mut i: usize = 0;
    assert(stack_tv(stack@) =~= title_stack(hs@, 0));
    while i < hs.len()
        invariant
            views_of(parts@) == target_path(*entry),
            i <= hs@.len(),
            entry.id is None ==> stack_tv(stack@) == title_stack(hs@, i as nat),
            count <= 1,
            count == 0 ==> forall|k: int| 0 <= k < i ==> !#[trigger] hits(*entry, hs@, k),
            count == 1 ==> found < i && hits(*entry, hs@, found as int)
                && forall|k: int| 0 <= k < i && k != found ==> !#[trigger] hits(*entry, hs@, k),
        decreases hs@.len() - i,
    {
        let h = &hs[i];
        let hit = match &entry.id {
            Some(id) => has_id_property(h, id.as_str()),
            None => {
                pop_titles_exec(&mut stack, h.level);
                let tv = chars_of(h.title_raw.as_str());
                let title = string_of(trim_end_chars(&tv).as_slice());
                let ghost before = stack_tv(stack@);
                stack.push((h.level, title));
                proof {
                    assert(stack_tv(stack@) =~= before.push((h.level as int, trim_end(h.title_raw@))));
                    assert(stack_tv(stack@) == title_stack(hs@, (i + 1) as nat));
                }
                stack_is_path(&stack, &parts)
            },
        };
        assert(hit == hits(*entry, hs@, i as int));
        if hit {
            if count == 1 {
                proof {
                    assert(hits(*entry, hs@, found as int) && hits(*entry, hs@, i as int));
                }
                return Located::Ambiguous;
            }
            found = i;
            count = 1;
        }
        i = i + 1;
    }
    if count == 0 {
        return Located::NotFound;
    }
    let bytes = crate::text::bytes_of(content);
    let lines = crate::lines::lines_of(content);
    match target_of(&hs[found], content, &bytes, &lines) {
        Some(t) => Located::Found(t),
        None => Located::OutOfRange,
    }
}

} // verus!
