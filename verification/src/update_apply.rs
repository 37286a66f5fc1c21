//! Rewriting a heading in place: the new values of its fields, the new
//! planning line and property drawer, the body splice, and the list of
//! changes reported back.
use vstd::prelude::*;
use crate::capture::{PropertyPair, opt_view, opt_sview, upper_of, to_upper, spec_heading, as_opt_str};
use crate::config::{OrgConfig, spec_finished, spec_unfinished};
use crate::error::OrgModeError;
use crate::lines::{spec_lines, splice_seq, ends_nl, has_crlf, lines_of, splice_lines, ends_with_newline, contains_crlf};
use crate::org_mode::OrgMode;
use crate::orgdoc::{OrgHeadline, parsed_headlines, parse_headlines};
use crate::text::{concat, concat3, string_views, join_with, join_strings, str_eq};
use crate::timestamp::{LocalDateTime, OrgTime, ParsedTimestamp, calendar_valid, spec_org_timestamp, ts_renderable};
use crate::update::{ClearField, UpdateEntry, UpdateResult, ResolvedUpdate};
use crate::update_target::{PlanningValues, TargetHeadline, TargetView, Located, pv_view, pairs_view, target_view, tview, target_ok, hits, locate_headline, id_hit, has_id_property};
use crate::utils::{contains_text, seq_has_text};

verus! {

/// The planning entries of the given values, in the order SCHEDULED,
/// DEADLINE, CLOSED.
pub open spec fn planning_parts(v: (Option<Seq<char>>, Option<Seq<char>>, Option<Seq<char>>)) -> Seq<Seq<char>> {
    (match v.0 {
        Some(x) => seq!["SCHEDULED: "@ + x],
        None => Seq::empty(),
    }) + (match v.1 {
        Some(x) => seq!["DEADLINE: "@ + x],
        None => Seq::empty(),
    }) + (match v.2 {
        Some(x) => seq!["CLOSED: "@ + x],
        None => Seq::empty(),
    })
}

/// The planning line for the given values: its entries separated by single
/// spaces, or none when all three are empty.
pub open spec fn render_planning(v: (Option<Seq<char>>, Option<Seq<char>>, Option<Seq<char>>)) -> Option<Seq<char>> {
    let ps = planning_parts(v);
    if ps.len() == 0 { None } else { Some(join_with(ps, " "@)) }
}

/// Renders the planning line `SCHEDULED: .. DEADLINE: .. CLOSED: ..` from
/// the values present, or `None` when none is.
pub fn render_planning_line(values: &PlanningValues) -> (res: Option<String>)
    ensures
        opt_sview(res) == render_planning(pv_view(*values)),
{
    let mut parts: Vec<String> = Vec::new();
    match &values.scheduled {
        Some(s) => parts.push(concat("SCHEDULED: ", s.as_str())),
        None => {},
    }
    let ghost a = string_views(parts@);
    match &values.deadline {
        Some(d) => parts.push(concat("DEADLINE: ", d.as_str())),
        None => {},
    }
    let ghost b = string_views(parts@);
    match &values.closed {
        Some(c) => parts.push(concat("CLOSED: ", c.as_str())),
        None => {},
    }
    proof {
        let v = pv_view(*values);
        assert(a =~= match v.0 {
            Some(x) => seq!["SCHEDULED: "@ + x],
            None => Seq::<Seq<char>>::empty(),
        });
        assert(b =~= a + match v.1 {
            Some(x) => seq!["DEADLINE: "@ + x],
            None => Seq::<Seq<char>>::empty(),
        });
        assert(string_views(parts@) =~= planning_parts(v));
    }
    if parts.len() == 0 {
        None
    } else {
        Some(join_strings(parts.as_slice(), " "))
    }
}

/// A value, or `<none>`.
pub open spec fn or_none(o: Option<Seq<char>>) -> Seq<char> {
    match o {
        Some(x) => x,
        None => "<none>"@,
    }
}

/// The change line for a field: `name: old -> new`, or nothing when the
/// value did not change.
pub open spec fn change_line(name: Seq<char>, old: Option<Seq<char>>, new: Option<Seq<char>>) -> Seq<Seq<char>> {
    if old == new {
        Seq::empty()
    } else {
        seq![name + ": "@ + or_none(old) + " -> "@ + or_none(new)]
    }
}

fn opt_str_eq(a: Option<&str>, b: Option<&str>) -> (res: bool)
    ensures
        res == (opt_view(a) == opt_view(b)),
{
    match (a, b) {
        (Some(x), Some(y)) => str_eq(x, y),
        (None, None) => true,
        _ => false,
    }
}

fn or_none_str(o: Option<&str>) -> (res: &str)
    ensures
        res@ == or_none(opt_view(o)),
{
    match o {
        Some(x) => x,
        None => "<none>",
    }
}

impl OrgMode {
    /// Records `name: old -> new` when the value changed.
    pub fn push_change(changes: &mut Vec<String>, name: &str, old_value: Option<&str>, new_value: Option<&str>)
        ensures
            string_views(final(changes)@) == string_views(old(changes)@) + change_line(name@, opt_view(old_value), opt_view(new_value)),
    {
        if !opt_str_eq(old_value, new_value) {
            let mut line = concat(name, ": ");
            line.append(or_none_str(old_value));
            line.append(" -> ");
            line.append(or_none_str(new_value));
            let ghost before = string_views(changes@);
            changes.push(line);
            proof { assert(string_views(changes@) =~= before + change_line(name@, opt_view(old_value), opt_view(new_value))); }
        } else {
            proof { assert(string_views(changes@) =~= string_views(changes@) + change_line(name@, opt_view(old_value), opt_view(new_value))); }
        }
    }
}

/// The first pair from `i` on whose key has the uppercase `u`.
pub open spec fn first_upper_from(p: Seq<(Seq<char>, Seq<char>)>, u: Seq<char>, i: int) -> Option<int>
    decreases p.len() - i,
{
    if i < 0 || i >= p.len() {
        None
    } else if upper_of(p[i].0) == u {
        Some(i)
    } else {
        first_upper_from(p, u, i + 1)
    }
}

/// Sets property `k` to `v`: the first pair whose key matches `k`
/// (uppercased) takes the value, or a new pair goes at the end.
pub open spec fn set_prop(p: Seq<(Seq<char>, Seq<char>)>, k: Seq<char>, v: Seq<char>) -> Seq<(Seq<char>, Seq<char>)> {
    match first_upper_from(p, upper_of(k), 0) {
        Some(i) => p.update(i, (p[i].0, v)),
        None => p.push((k, v)),
    }
}

/// The first `n` requested properties set in turn.
pub open spec fn set_props(p: Seq<(Seq<char>, Seq<char>)>, ps: Seq<PropertyPair>, n: nat) -> Seq<(Seq<char>, Seq<char>)>
    decreases n,
{
    if n == 0 || n > ps.len() {
        p
    } else {
        set_prop(set_props(p, ps, (n - 1) as nat), ps[n - 1].key@, ps[n - 1].value@)
    }
}

/// The pairs whose key does not have the uppercase `u`, in order.
pub open spec fn drop_key(p: Seq<(Seq<char>, Seq<char>)>, u: Seq<char>) -> Seq<(Seq<char>, Seq<char>)>
    decreases p.len(),
{
    if p.len() == 0 {
        p
    } else {
        let r = drop_key(p.drop_last(), u);
        if upper_of(p.last().0) != u { r.push(p.last()) } else { r }
    }
}

/// The first `n` requested removals applied in turn.
pub open spec fn drop_keys(p: Seq<(Seq<char>, Seq<char>)>, rs: Seq<String>, n: nat) -> Seq<(Seq<char>, Seq<char>)>
    decreases n,
{
    if n == 0 || n > rs.len() {
        p
    } else {
        drop_key(drop_keys(p, rs, (n - 1) as nat), upper_of(rs[n - 1]@))
    }
}

/// The properties after an update: the requested ones set, then the
/// requested removals applied.
pub open spec fn merged_props(existing: Seq<(Seq<char>, Seq<char>)>, e: UpdateEntry) -> Seq<(Seq<char>, Seq<char>)> {
    let a = match e.properties {
        Some(ps) => set_props(existing, ps@, ps@.len()),
        None => existing,
    };
    match e.remove_properties {
        Some(rs) => drop_keys(a, rs@, rs@.len()),
        None => a,
    }
}

/// The lines of a property drawer for the pairs, none when there are none.
pub open spec fn drawer_block(p: Seq<(Seq<char>, Seq<char>)>) -> Seq<Seq<char>> {
    if p.len() == 0 {
        Seq::empty()
    } else {
        seq![":PROPERTIES:"@] + p.map_values(|kv: (Seq<char>, Seq<char>)| drawer_entry(kv)) + seq![":END:"@]
    }
}

/// One `:KEY: value` line of a property drawer.
pub open spec fn drawer_entry(kv: (Seq<char>, Seq<char>)) -> Seq<char> {
    ":"@ + kv.0 + ": "@ + kv.1
}

/// The value of the last pair whose key has the uppercase `u` (a map keyed
/// by uppercase keys keeps that one).
pub open spec fn last_upper_value(p: Seq<(Seq<char>, Seq<char>)>, u: Seq<char>) -> Option<Seq<char>>
    decreases p.len(),
{
    if p.len() == 0 {
        None
    } else if upper_of(p.last().0) == u {
        Some(p.last().1)
    } else {
        last_upper_value(p.drop_last(), u)
    }
}

/// Change lines for the first `n` properties set.
pub open spec fn set_changes(existing: Seq<(Seq<char>, Seq<char>)>, ps: Seq<PropertyPair>, n: nat) -> Seq<Seq<char>>
    decreases n,
{
    if n == 0 || n > ps.len() {
        Seq::empty()
    } else {
        set_changes(existing, ps, (n - 1) as nat) + change_line(
            "property:"@ + ps[n - 1].key@,
            last_upper_value(existing, upper_of(ps[n - 1].key@)),
            Some(ps[n - 1].value@),
        )
    }
}

/// Change lines for the first `n` removals of properties that existed.
pub open spec fn remove_changes(existing: Seq<(Seq<char>, Seq<char>)>, rs: Seq<String>, n: nat) -> Seq<Seq<char>>
    decreases n,
{
    if n == 0 || n > rs.len() {
        Seq::empty()
    } else {
        remove_changes(existing, rs, (n - 1) as nat) + match last_upper_value(existing, upper_of(rs[n - 1]@)) {
            Some(v) => change_line("property:"@ + rs[n - 1]@, Some(v), None),
            None => Seq::empty(),
        }
    }
}

/// The change lines for the property drawer.
pub open spec fn property_changes(existing: Seq<(Seq<char>, Seq<char>)>, e: UpdateEntry) -> Seq<Seq<char>> {
    (match e.properties {
        Some(ps) => set_changes(existing, ps@, ps@.len()),
        None => Seq::empty(),
    }) + (match e.remove_properties {
        Some(rs) => remove_changes(existing, rs@, rs@.len()),
        None => Seq::empty(),
    })
}

fn uppers_of(p: &Vec<(String, String)>) -> (res: Vec<String>)
    ensures
        res@.len() == p@.len(),
        forall|k: int| 0 <= k < p@.len() ==> #[trigger] res@[k]@ == upper_of(p@[k].0@),
{
    let mut out: Vec<String> = Vec::new();
    let mut i: usize = 0;
    while i < p.len()
        invariant
            i <= p@.len(),
            out@.len() == i,
            forall|k: int| 0 <= k < i ==> #[trigger] out@[k]@ == upper_of(p@[k].0@),
        decreases p@.len() - i,
    {
        out.push(to_upper(p[i].0.as_str()));
        i = i + 1;
    }
    out
}

/// Index of the first pair whose key has the uppercase `u`.
fn find_upper(p: &Vec<(String, String)>, u: &String) -> (res: Option<usize>)
    ensures
        res matches Some(i) ==> i < p@.len(),
        match res {
            Some(i) => first_upper_from(pairs_view(p@), u@, 0) == Some(i as int),
            None => first_upper_from(pairs_view(p@), u@, 0) is None,
        },
{
    let ghost pv = pairs_view(p@);
    let ups = uppers_of(p);
    let mut i: usize = 0;
    while i < p.len()
        invariant
            pv == pairs_view(p@),
            ups@.len() == p@.len(),
            forall|k: int| 0 <= k < p@.len() ==> #[trigger] ups@[k]@ == upper_of(p@[k].0@),
            i <= p@.len(),
            first_upper_from(pv, u@, 0) == first_upper_from(pv, u@, i as int),
        decreases p@.len() - i,
    {
        assert(pv[i as int].0 == p@[i as int].0@);
        if str_eq(ups[i].as_str(), u.as_str()) {
            return Some(i);
        }
        i = i + 1;
    }
    None
}

/// The pairs whose key does not have the uppercase `u`.
fn without_key(p: &Vec<(String, String)>, u: &String) -> (res: Vec<(String, String)>)
    ensures
        pairs_view(res@) == drop_key(pairs_view(p@), u@),
{
    let mut out: Vec<(String, String)> = Vec::new();
    let mut i: usize = 0;
    while i < p.len()
        invariant
            i <= p@.len(),
            pairs_view(out@) == drop_key(pairs_view(p@.take(i as int)), u@),
        decreases p@.len() - i,
    {
        let up = to_upper(p[i].0.as_str());
        let ghost before = pairs_view(out@);
        proof {
            let t = pairs_view(p@.take(i + 1));
            assert(t.drop_last() =~= pairs_view(p@.take(i as int)));
            assert(t.last() == (p@[i as int].0@, p@[i as int].1@));
        }
        if !str_eq(up.as_str(), u.as_str()) {
            out.push((p[i].0.clone(), p[i].1.clone()));
            proof { assert(pairs_view(out@) =~= before.push((p@[i as int].0@, p@[i as int].1@))); }
        }
        i = i + 1;
    }
    proof { assert(p@.take(p@.len() as int) =~= p@); }
    out
}

/// The properties after an update, as `merged_props` describes.
pub fn merge_properties(existing: &Vec<(String, String)>, entry: &UpdateEntry) -> (res: Vec<(String, String)>)
    ensures
        pairs_view(res@) == merged_props(pairs_view(existing@), *entry),
{
    let mut props: Vec<(String, String)> = Vec::new();
    let mut i: usize = 0;
    while i < existing.len()
        invariant
            i <= existing@.len(),
            pairs_view(props@) == pairs_view(existing@.take(i as int)),
        decreases existing@.len() - i,
    {
        let ghost before = pairs_view(props@);
        props.push((existing[i].0.clone(), existing[i].1.clone()));
        proof {
            assert(pairs_view(props@) =~= before.push((existing@[i as int].0@, existing@[i as int].1@)));
            assert(pairs_view(existing@.take(i + 1)) =~= pairs_view(existing@.take(i as int)).push((existing@[i as int].0@, existing@[i as int].1@)));
        }
        i = i + 1;
    }
    proof { assert(existing@.take(existing@.len() as int) =~= existing@); }
    let ghost ex = pairs_view(existing@);
    match &entry.properties {
        Some(ps) => {
            let mut j: usize = 0;
            while j < ps.len()
                invariant
                    j <= ps@.len(),
                    pairs_view(props@) == set_props(ex, ps@, j as nat),
                decreases ps@.len() - j,
            {
                let up = to_upper(ps[j].key.as_str());
                let ghost before = pairs_view(props@);
                match find_upper(&props, &up) {
                    Some(k) => {
                        let key = props[k].0.clone();
                        props.set(k, (key, ps[j].value.clone()));
                        proof { assert(pairs_view(props@) =~= before.update(k as int, (before[k as int].0, ps@[j as int].value@))); }
                    },
                    None => {
                        props.push((ps[j].key.clone(), ps[j].value.clone()));
                        proof { assert(pairs_view(props@) =~= before.push((ps@[j as int].key@, ps@[j as int].value@))); }
                    },
                }
                j = j + 1;
            }
        },
        None => {},
    }
    let ghost after_set = pairs_view(props@);
    match &entry.remove_properties {
        Some(rs) => {
            let mut j: usize = 0;
            while j < rs.len()
                invariant
                    j <= rs@.len(),
                    pairs_view(props@) == drop_keys(after_set, rs@, j as nat),
                decreases rs@.len() - j,
            {
                let up = to_upper(rs[j].as_str());
                props = without_key(&props, &up);
                j = j + 1;
            }
        },
        None => {},
    }
    props
}

/// The drawer lines for `props`, as `drawer_block` describes.
pub fn drawer_block_lines(props: &Vec<(String, String)>) -> (res: Vec<String>)
    ensures
        string_views(res@) == drawer_block(pairs_view(props@)),
{
    let mut out: Vec<String> = Vec::new();
    if props.len() == 0 {
        proof { assert(string_views(out@) =~= drawer_block(pairs_view(props@))); }
        return out;
    }
    out.push(String::from_str(":PROPERTIES:"));
    let mut i: usize = 0;
    while i < props.len()
        invariant
            i <= props@.len(),
            string_views(out@) == seq![":PROPERTIES:"@] + pairs_view(props@.take(i as int)).map_values(|kv: (Seq<char>, Seq<char>)| drawer_entry(kv)),
        decreases props@.len() - i,
    {
        let mut line = concat(":", props[i].0.as_str());
        line.append(": ");
        line.append(props[i].1.as_str());
        let ghost before = string_views(out@);
        out.push(line);
        proof {
            assert(line@ == drawer_entry((props@[i as int].0@, props@[i as int].1@)));
            assert(string_views(out@) =~= before.push(line@));
            assert(pairs_view(props@.take(i + 1)).map_values(|kv: (Seq<char>, Seq<char>)| drawer_entry(kv)) =~= pairs_view(props@.take(i as int)).map_values(|kv: (Seq<char>, Seq<char>)| drawer_entry(kv)).push(drawer_entry((props@[i as int].0@, props@[i as int].1@))));
        }
        i = i + 1;
    }
    let ghost before = string_views(out@);
    out.push(String::from_str(":END:"));
    proof {
        assert(props@.take(props@.len() as int) =~= props@);
        assert(string_views(out@) =~= before.push(":END:"@));
        assert(string_views(out@) =~= drawer_block(pairs_view(props@)));
    }
    out
}

/// The value of the last pair whose key has the uppercase `u`.
fn last_value_upper(p: &Vec<(String, String)>, u: &String) -> (res: Option<String>)
    ensures
        opt_sview(res) == last_upper_value(pairs_view(p@), u@),
{
    let mut i = p.len();
    proof { assert(p@.take(p@.len() as int) =~= p@); }
    while i > 0
        invariant
            i <= p@.len(),
            last_upper_value(pairs_view(p@), u@) == last_upper_value(pairs_view(p@.take(i as int)), u@),
        decreases i,
    {
        let up = to_upper(p[i - 1].0.as_str());
        proof {
            let t = pairs_view(p@.take(i as int));
            assert(t.drop_last() =~= pairs_view(p@.take(i - 1)));
            assert(t.last() == (p@[i - 1].0@, p@[i - 1].1@));
        }
        if str_eq(up.as_str(), u.as_str()) {
            return Some(p[i - 1].1.clone());
        }
        i = i - 1;
    }
    proof { assert(pairs_view(p@.take(0)) =~= Seq::<(Seq<char>, Seq<char>)>::empty()); }
    None
}

/// Appends the change lines for the property drawer, as
/// `property_changes` describes.
fn push_property_changes(changes: &mut Vec<String>, existing: &Vec<(String, String)>, entry: &UpdateEntry)
    ensures
        string_views(final(changes)@) == string_views(old(changes)@) + property_changes(pairs_view(existing@), *entry),
{
    let ghost ex = pairs_view(existing@);
    let ghost start = string_views(changes@);
    match &entry.properties {
        Some(ps) => {
            let mut j: usize = 0;
            while j < ps.len()
                invariant
                    j <= ps@.len(),
                    ex == pairs_view(existing@),
                    string_views(changes@) == start + set_changes(ex, ps@, j as nat),
                decreases ps@.len() - j,
            {
                let up = to_upper(ps[j].key.as_str());
                let old_val = last_value_upper(existing, &up);
                let name = concat("property:", ps[j].key.as_str());
                let old_ref: Option<&str> = match &old_val {
                    Some(v) => Some(v.as_str()),
                    None => None,
                };
                assert(opt_view(old_ref) == last_upper_value(ex, upper_of(ps@[j as int].key@)));
                assert(name@ == "property:"@ + ps@[j as int].key@);
                let ghost before = string_views(changes@);
                OrgMode::push_change(changes, name.as_str(), old_ref, Some(ps[j].value.as_str()));
                assert(string_views(changes@) == before + change_line("property:"@ + ps@[j as int].key@, last_upper_value(ex, upper_of(ps@[j as int].key@)), Some(ps@[j as int].value@)));
                proof {
                    assert(start + set_changes(ex, ps@, (j + 1) as nat) =~= start + set_changes(ex, ps@, j as nat)
                        + change_line("property:"@ + ps@[j as int].key@, last_upper_value(ex, upper_of(ps@[j as int].key@)), Some(ps@[j as int].value@)));
                }
                j = j + 1;
            }
        },
        None => {},
    }
    let ghost mid = string_views(changes@);
    match &entry.remove_properties {
        Some(rs) => {
            let mut j: usize = 0;
            while j < rs.len()
                invariant
                    j <= rs@.len(),
                    ex == pairs_view(existing@),
                    string_views(changes@) == mid + remove_changes(ex, rs@, j as nat),
                decreases rs@.len() - j,
            {
                let up = to_upper(rs[j].as_str());
                let old_val = last_value_upper(existing, &up);
                let ghost before = string_views(changes@);
                match &old_val {
                    Some(v) => {
                        let name = concat("property:", rs[j].as_str());
                        OrgMode::push_change(changes, name.as_str(), Some(v.as_str()), None);
                        assert(string_views(changes@) == before + change_line("property:"@ + rs@[j as int]@, Some(v@), None));
                    },
                    None => {
                        assert(string_views(changes@) =~= before + Seq::<Seq<char>>::empty());
                    },
                }
                proof {
                    assert(mid + remove_changes(ex, rs@, (j + 1) as nat) =~= mid + remove_changes(ex, rs@, j as nat)
                        + match last_upper_value(ex, upper_of(rs@[j as int]@)) {
                            Some(v) => change_line("property:"@ + rs@[j as int]@, Some(v), None),
                            None => Seq::<Seq<char>>::empty(),
                        });
                }
                j = j + 1;
            }
        },
        None => {},
    }
    proof { assert(string_views(changes@) =~= start + property_changes(ex, *entry)); }
}

/// Whether the request clears field `f`.
pub open spec fn cleared(e: UpdateEntry, f: ClearField) -> bool {
    e.clear@.contains(f)
}

pub open spec fn first_some(a: Option<Seq<char>>, b: Option<Seq<char>>) -> Option<Seq<char>> {
    if a is Some { a } else { b }
}

pub open spec fn opt_stamp(o: Option<ParsedTimestamp>, active: bool) -> Option<Seq<char>> {
    match o {
        Some(ts) => Some(spec_org_timestamp(ts, active)),
        None => None,
    }
}

/// The TODO keyword after the update: cleared, set, or kept.
pub open spec fn new_keyword(e: UpdateEntry, t: TargetView) -> Option<Seq<char>> {
    if cleared(e, ClearField::TodoState) { None } else { first_some(opt_sview(e.todo_state), t.keyword) }
}

pub open spec fn new_priority(e: UpdateEntry, t: TargetView) -> Option<Seq<char>> {
    if cleared(e, ClearField::Priority) { None } else { first_some(opt_sview(e.priority), t.priority) }
}

pub open spec fn new_tags(e: UpdateEntry, t: TargetView) -> Seq<Seq<char>> {
    if cleared(e, ClearField::Tags) {
        Seq::empty()
    } else {
        match e.tags {
            Some(ts) => string_views(ts@),
            None => t.tags,
        }
    }
}

pub open spec fn new_scheduled(e: UpdateEntry, r: ResolvedUpdate, t: TargetView) -> Option<Seq<char>> {
    if cleared(e, ClearField::Scheduled) { None } else { first_some(opt_stamp(r.scheduled, true), t.planning_values.0) }
}

pub open spec fn new_deadline(e: UpdateEntry, r: ResolvedUpdate, t: TargetView) -> Option<Seq<char>> {
    if cleared(e, ClearField::Deadline) { None } else { first_some(opt_stamp(r.deadline, true), t.planning_values.1) }
}

/// The moment `now` as a timestamp to the minute.
pub open spec fn now_stamp(now: LocalDateTime) -> ParsedTimestamp {
    ParsedTimestamp { date: now.date, time: Some(OrgTime { hour: now.hour, minute: now.minute }), repeater: None, warning: None }
}

/// CLOSED after the update: cleared, or set explicitly; on a finished
/// keyword the existing one, else (when automatic) `now`; on any other
/// state removed when automatic, else kept.
pub open spec fn new_closed(c: OrgConfig, e: UpdateEntry, r: ResolvedUpdate, t: TargetView, now: LocalDateTime) -> Option<Seq<char>> {
    let existing = t.planning_values.2;
    if cleared(e, ClearField::Closed) {
        None
    } else if r.closed is Some {
        opt_stamp(r.closed, false)
    } else if new_keyword(e, t) matches Some(k) && seq_has_text(spec_finished(c.org_todo_keywords@), k) {
        if existing is Some {
            existing
        } else if c.org_auto_closed_timestamp {
            Some(spec_org_timestamp(now_stamp(now), false))
        } else {
            None
        }
    } else if c.org_auto_closed_timestamp {
        None
    } else {
        existing
    }
}

pub open spec fn new_title(e: UpdateEntry, t: TargetView) -> Seq<char> {
    match e.title {
        Some(x) => x@,
        None => t.title,
    }
}

/// The rewritten heading line.
pub open spec fn new_heading(e: UpdateEntry, t: TargetView) -> Seq<char> {
    spec_heading(t.level, new_keyword(e, t), new_priority(e, t), new_title(e, t), new_tags(e, t))
}

/// The planning lines that replace the old planning block (none or one).
pub open spec fn planning_repl(c: OrgConfig, e: UpdateEntry, r: ResolvedUpdate, t: TargetView, now: LocalDateTime) -> Seq<Seq<char>> {
    match render_planning((new_scheduled(e, r, t), new_deadline(e, r, t), new_closed(c, e, r, t, now))) {
        Some(l) => seq![l],
        None => Seq::empty(),
    }
}

/// The request touches the property drawer.
pub open spec fn needs_drawer(e: UpdateEntry) -> bool {
    e.properties is Some || e.remove_properties is Some
}

/// The body lines that replace the old body, if the body changes.
pub open spec fn body_repl(e: UpdateEntry) -> Option<Seq<Seq<char>>> {
    if cleared(e, ClearField::Body) {
        Some(Seq::empty())
    } else {
        match e.body {
            Some(b) => Some(spec_lines(b@)),
            None => None,
        }
    }
}

/// The line separator a file uses: `\r\n` when it holds one, else `\n`.
pub open spec fn line_sep(content: Seq<char>) -> Seq<char> {
    if has_crlf(content) { "\r\n"@ } else { "\n"@ }
}

/// The lines `l0` after replacing line `t.line_idx` by `heading`, the
/// planning block by `p`, the property drawer by `d` (when given) and the
/// body by `b` (when given), each position shifted by what the earlier
/// splices added or removed; with the old and new body text joined by
/// `sep`. `None` when a splice would leave the lines.
pub open spec fn rewrite_with(
    l0: Seq<Seq<char>>,
    t: TargetView,
    heading: Seq<char>,
    p: Seq<Seq<char>>,
    d: Option<Seq<Seq<char>>>,
    b: Option<Seq<Seq<char>>>,
    sep: Seq<char>,
) -> Option<(Seq<Seq<char>>, Option<(Seq<char>, Seq<char>)>)> {
    let pf = t.planning_first_line;
    let pc = t.planning_line_count;
    let pd = p.len() - pc;
    let df = t.drawer_first_line + pd;
    let dc = t.drawer_line_count;
    let dd = match d {
        Some(dl) => dl.len() - dc,
        None => 0,
    };
    let bf = t.body_first_line + pd + dd;
    let bl = t.body_last_line + pd + dd;
    if !(0 <= t.line_idx < l0.len() && 0 <= pf && 0 <= pc && pf + pc <= l0.len()) {
        None
    } else {
        let l2 = splice_seq(l0.update(t.line_idx, heading), pf, pc, p);
        let l3 = match d {
            Some(dl) => if 0 <= df && 0 <= dc && df + dc <= l2.len() { Some(splice_seq(l2, df, dc, dl)) } else { None },
            None => Some(l2),
        };
        match l3 {
            None => None,
            Some(l3) => match b {
                None => Some((l3, None)),
                Some(bl_lines) => if !(0 <= bf <= bl <= l3.len()) {
                    None
                } else {
                    Some((splice_seq(l3, bf, bl - bf, bl_lines), Some((join_with(l3.subrange(bf, bl), sep), join_with(bl_lines, sep)))))
                },
            },
        }
    }
}

/// The file's lines after the update and the old and new body text (when
/// the body changes); `None` when a splice would leave the lines.
pub open spec fn rewritten(c: OrgConfig, e: UpdateEntry, r: ResolvedUpdate, t: TargetView, now: LocalDateTime, content: Seq<char>) -> Option<(Seq<Seq<char>>, Option<(Seq<char>, Seq<char>)>)> {
    rewrite_with(
        spec_lines(content),
        t,
        new_heading(e, t),
        planning_repl(c, e, r, t, now),
        if needs_drawer(e) { Some(drawer_block(merged_props(t.properties, e))) } else { None },
        body_repl(e),
        line_sep(content),
    )
}

pub open spec fn nonempty(s: Seq<char>) -> Option<Seq<char>> {
    if s.len() == 0 { None } else { Some(s) }
}

/// The change lines for the heading's fields, from the old values of `t` to
/// the given new ones, in the order TODO state, priority, tags, SCHEDULED,
/// DEADLINE, CLOSED, title, body.
pub open spec fn field_changes(
    t: TargetView,
    kw: Option<Seq<char>>,
    prio: Option<Seq<char>>,
    tags: Seq<Seq<char>>,
    sched: Option<Seq<char>>,
    dl: Option<Seq<char>>,
    closed: Option<Seq<char>>,
    title: Seq<char>,
    body: Option<(Seq<char>, Seq<char>)>,
) -> Seq<Seq<char>> {
    heading_changes(t, kw, prio, tags) + later_changes(t, sched, dl, closed, title, body)
}

/// The message for a target heading whose parsed position does not fit the
/// file's lines.
pub open spec fn span_message() -> Seq<char> {
    "heading position does not match the file content"@
}

/// What is shown of the target in errors: the ID, else the heading path.
pub open spec fn shown_target(e: UpdateEntry) -> Seq<char> {
    match e.id {
        Some(id) => id@,
        None => match e.heading_path {
            Some(p) => p@,
            None => Seq::empty(),
        },
    }
}

/// The outcome of an update of the target `t` of `content`.
pub open spec fn update_outcome(
    c: OrgConfig,
    e: UpdateEntry,
    r: ResolvedUpdate,
    t: TargetView,
    now: LocalDateTime,
    content: Seq<char>,
    file_rel: Seq<char>,
    res: Result<(String, UpdateResult), OrgModeError>,
) -> bool {
    match rewritten(c, e, r, t, now, content) {
        None => res matches Err(OrgModeError::InvalidUpdate(m)) && m@ == span_message(),
        Some((ls, body)) => res matches Ok((out, ur)) && {
            let sep = line_sep(content);
            &&& out@ == join_with(ls, sep) + if ends_nl(content) { sep } else { Seq::empty() }
            &&& ur.file_path@ == file_rel
            &&& ur.heading_line@ == new_heading(e, t)
            &&& string_views(ur.changes@) == property_changes(t.properties, e) + field_changes(
                t,
                new_keyword(e, t),
                new_priority(e, t),
                new_tags(e, t),
                new_scheduled(e, r, t),
                new_deadline(e, r, t),
                new_closed(c, e, r, t, now),
                new_title(e, t),
                body,
            )
        },
    }
}

fn clear_has(entry: &UpdateEntry, f: ClearField) -> (res: bool)
    ensures
        res == cleared(*entry, f),
{
    let mut i: usize = 0;
    while i < entry.clear.len()
        invariant
            i <= entry.clear@.len(),
            forall|k: int| 0 <= k < i ==> entry.clear@[k] != f,
        decreases entry.clear@.len() - i,
    {
        if entry.clear[i] == f {
            assert(entry.clear@[i as int] == f);
            return true;
        }
        i = i + 1;
    }
    false
}

fn clone_opt_string(o: &Option<String>) -> (res: Option<String>)
    ensures
        opt_sview(res) == opt_sview(*o),
{
    match o {
        Some(s) => Some(s.clone()),
        None => None,
    }
}

fn clone_string_vec(v: &Vec<String>) -> (res: Vec<String>)
    ensures
        string_views(res@) == string_views(v@),
{
    let mut out: Vec<String> = Vec::new();
    let mut i: usize = 0;
    while i < v.len()
        invariant
            i <= v@.len(),
            string_views(out@) == string_views(v@.take(i as int)),
        decreases v@.len() - i,
    {
        let ghost before = string_views(out@);
        out.push(v[i].clone());
        proof {
            assert(string_views(out@) =~= before.push(v@[i as int]@));
            assert(string_views(v@.take(i + 1)) =~= string_views(v@.take(i as int)).push(v@[i as int]@));
        }
        i = i + 1;
    }
    proof { assert(v@.take(v@.len() as int) =~= v@); }
    out
}

fn stamp_of(o: &Option<ParsedTimestamp>, active: bool) -> (res: Option<String>)
    requires
        *o matches Some(t) ==> ts_renderable(t),
    ensures
        opt_sview(res) == opt_stamp(*o, active),
{
    match o {
        Some(t) => Some(OrgMode::format_org_timestamp(t, active)),
        None => None,
    }
}

/// A heading's field values after an update.
pub struct NewValues {
    pub keyword: Option<String>,
    pub priority: Option<String>,
    pub tags: Vec<String>,
    pub scheduled: Option<String>,
    pub deadline: Option<String>,
    pub closed: Option<String>,
    pub title: String,
}

/// Whether a slice of lines joined by `sep` is empty; else the text.
fn nonempty_join(parts: &[String], sep: &str) -> (res: Option<String>)
    ensures
        opt_sview(res) == nonempty(join_with(string_views(parts@), sep@)),
{
    let j = join_strings(parts, sep);
    if j.as_str().is_empty() { None } else { Some(j) }
}

impl OrgMode {
    /// The field values of target `t` after the update, as the `new_*`
    /// functions describe.
    fn new_values(&self, entry: &UpdateEntry, resolved: &ResolvedUpdate, t: &TargetHeadline, now: LocalDateTime) -> (nv: NewValues)
        requires
            calendar_valid(now.date),
            now.hour < 24,
            now.minute < 60,
            resolved.scheduled matches Some(x) ==> ts_renderable(x),
            resolved.deadline matches Some(x) ==> ts_renderable(x),
            resolved.closed matches Some(x) ==> ts_renderable(x),
        ensures
            ({
                let c = self.spec_config();
                let tv = tview(*t);
                &&& opt_sview(nv.keyword) == new_keyword(*entry, tv)
                &&& opt_sview(nv.priority) == new_priority(*entry, tv)
                &&& string_views(nv.tags@) == new_tags(*entry, tv)
                &&& opt_sview(nv.scheduled) == new_scheduled(*entry, *resolved, tv)
                &&& opt_sview(nv.deadline) == new_deadline(*entry, *resolved, tv)
                &&& opt_sview(nv.closed) == new_closed(c, *entry, *resolved, tv, now)
                &&& nv.title@ == new_title(*entry, tv)
            }),
    {
        proof { self.lemma_spec_config(); }
        let keyword = if clear_has(entry, ClearField::TodoState) {
            None
        } else if entry.todo_state.is_some() {
            clone_opt_string(&entry.todo_state)
        } else {
            clone_opt_string(&t.keyword)
        };
        let priority = if clear_has(entry, ClearField::Priority) {
            None
        } else if entry.priority.is_some() {
            clone_opt_string(&entry.priority)
        } else {
            clone_opt_string(&t.priority)
        };
        let tags = if clear_has(entry, ClearField::Tags) {
            let v: Vec<String> = Vec::new();
            proof { assert(string_views(v@) =~= Seq::<Seq<char>>::empty()); }
            v
        } else {
            match &entry.tags {
                Some(ts) => clone_string_vec(ts),
                None => clone_string_vec(&t.tags),
            }
        };
        let scheduled = if clear_has(entry, ClearField::Scheduled) {
            None
        } else if resolved.scheduled.is_some() {
            stamp_of(&resolved.scheduled, true)
        } else {
            clone_opt_string(&t.planning_values.scheduled)
        };
        let deadline = if clear_has(entry, ClearField::Deadline) {
            None
        } else if resolved.deadline.is_some() {
            stamp_of(&resolved.deadline, true)
        } else {
            clone_opt_string(&t.planning_values.deadline)
        };
        let finished = self.config.finished_keywords();
        let is_done = match &keyword {
            Some(k) => contains_text(finished.as_slice(), k),
            None => false,
        };
        let closed = if clear_has(entry, ClearField::Closed) {
            None
        } else if resolved.closed.is_some() {
            stamp_of(&resolved.closed, false)
        } else if is_done {
            if t.planning_values.closed.is_some() {
                clone_opt_string(&t.planning_values.closed)
            } else if self.config.org_auto_closed_timestamp {
                let ts = ParsedTimestamp {
                    date: now.date,
                    time: Some(OrgTime { hour: now.hour, minute: now.minute }),
                    repeater: None,
                    warning: None,
                };
                Some(OrgMode::format_org_timestamp(&ts, false))
            } else {
                None
            }
        } else if self.config.org_auto_closed_timestamp {
            None
        } else {
            clone_opt_string(&t.planning_values.closed)
        };
        let title = match &entry.title {
            Some(x) => x.clone(),
            None => t.title.clone(),
        };
        NewValues { keyword, priority, tags, scheduled, deadline, closed, title }
    }
}

/// Moves line index `x` by `add - sub`; `None` when the result is negative
/// or does not fit a `usize`.
fn shift_index(x: usize, add: usize, sub: usize) -> (res: Option<usize>)
    ensures
        match res {
            Some(v) => v == x + add - sub,
            None => x + add - sub < 0 || x + add - sub > usize::MAX,
        },
{
    let v: i128 = x as i128 + add as i128 - sub as i128;
    if v < 0 || v > usize::MAX as i128 {
        None
    } else {
        Some(v as usize)
    }
}

/// Splices the new heading line, planning block, drawer and body into the
/// lines, as `rewrite_with` describes.
fn rewrite_lines(
    lines: Vec<String>,
    t: &TargetHeadline,
    heading: &String,
    planning: Vec<String>,
    drawer: Option<Vec<String>>,
    body: Option<Vec<String>>,
    sep: &str,
) -> (res: Option<(Vec<String>, Option<(String, String)>)>)
    ensures
        ({
            let d = match drawer {
                Some(v) => Some(string_views(v@)),
                None => None,
            };
            let b = match body {
                Some(v) => Some(string_views(v@)),
                None => None,
            };
            match rewrite_with(string_views(lines@), tview(*t), heading@, string_views(planning@), d, b, sep@) {
                None => res is None,
                Some((ls, bd)) => res matches Some((out, obd)) && string_views(out@) == ls && match bd {
                    Some((o, n)) => obd matches Some((oo, nn)) && oo@ == o && nn@ == n,
                    None => obd is None,
                },
            }
        }),
{
    let mut lines = lines;
    let ghost l0 = string_views(lines@);
    let ghost tv = tview(*t);
    let pf = t.planning_first_line;
    let pc = t.planning_line_count;
    if !(t.line_idx < lines.len() && pf <= lines.len() && pc <= lines.len() - pf) {
        return None;
    }
    lines.set(t.line_idx, heading.clone());
    proof { assert(string_views(lines@) =~= l0.update(t.line_idx as int, heading@)); }
    let plen = planning.len();
    splice_lines(&mut lines, pf, pc, planning);
    let ghost l2 = string_views(lines@);
    let cur = lines.len();
    assert(l2.len() == cur);
    let (dadd, dsub): (usize, usize) = match drawer {
        Some(dl) => {
            let dlen = dl.len();
            let dc = t.property_drawer_line_count;
            let df = match shift_index(t.property_drawer_first_line, plen, pc) {
                Some(v) => v,
                None => { return None; },
            };
            if !(df <= lines.len() && dc <= lines.len() - df) {
                return None;
            }
            splice_lines(&mut lines, df, dc, dl);
            (dlen, dc)
        },
        None => (0, 0),
    };
    let ghost l3 = string_views(lines@);
    match body {
        None => Some((lines, None)),
        Some(bl_lines) => {
            let bf: i128 = t.body_first_line as i128 + plen as i128 - pc as i128 + dadd as i128 - dsub as i128;
            let bl: i128 = t.body_last_line as i128 + plen as i128 - pc as i128 + dadd as i128 - dsub as i128;
            if !(0 <= bf && bf <= bl && bl <= lines.len() as i128) {
                return None;
            }
            let bfu = bf as usize;
            let blu = bl as usize;
            let mut old_part: Vec<String> = Vec::new();
            let mut k = bfu;
            while k < blu
                invariant
                    bfu <= k <= blu <= lines@.len(),
                    string_views(old_part@) == string_views(lines@).subrange(bfu as int, k as int),
                decreases blu - k,
            {
                let ghost before = string_views(old_part@);
                old_part.push(lines[k].clone());
                proof {
                    assert(string_views(old_part@) =~= before.push(lines@[k as int]@));
                    assert(string_views(lines@).subrange(bfu as int, k + 1) =~= string_views(lines@).subrange(bfu as int, k as int).push(lines@[k as int]@));
                }
                k = k + 1;
            }
            let old_text = join_strings(old_part.as_slice(), sep);
            let new_text = join_strings(bl_lines.as_slice(), sep);
            splice_lines(&mut lines, bfu, blu - bfu, bl_lines);
            Some((lines, Some((old_text, new_text))))
        },
    }
}

fn shown_of(entry: &UpdateEntry) -> (res: String)
    ensures
        res@ == shown_target(*entry),
{
    match &entry.id {
        Some(id) => id.clone(),
        None => match &entry.heading_path {
            Some(p) => p.clone(),
            None => String::new(),
        },
    }
}

fn opt_ref(o: &Option<String>) -> (r: Option<&str>)
    ensures
        opt_view(r) == opt_sview(*o),
{
    as_opt_str(o)
}

pub open spec fn diff_view(b: Option<(String, String)>) -> Option<(Seq<char>, Seq<char>)> {
    match b {
        Some((o, n)) => Some((o@, n@)),
        None => None,
    }
}

/// The change lines of the heading line's fields.
pub open spec fn heading_changes(t: TargetView, kw: Option<Seq<char>>, prio: Option<Seq<char>>, tags: Seq<Seq<char>>) -> Seq<Seq<char>> {
    change_line("todo_state"@, t.keyword, kw)
        + change_line("priority"@, t.priority, prio)
        + change_line("tags"@, nonempty(join_with(t.tags, ":"@)), nonempty(join_with(tags, ":"@)))
}

/// The change lines of the planning timestamps, the title and the body.
pub open spec fn later_changes(
    t: TargetView,
    sched: Option<Seq<char>>,
    dl: Option<Seq<char>>,
    closed: Option<Seq<char>>,
    title: Seq<char>,
    body: Option<(Seq<char>, Seq<char>)>,
) -> Seq<Seq<char>> {
    change_line("scheduled"@, t.planning_values.0, sched)
        + change_line("deadline"@, t.planning_values.1, dl)
        + change_line("closed"@, t.planning_values.2, closed)
        + change_line("title"@, Some(t.title), Some(title))
        + match body {
            Some((o, n)) => change_line("body"@, nonempty(o), nonempty(n)),
            None => Seq::empty(),
        }
}

fn push_heading_changes(changes: &mut Vec<String>, t: &TargetHeadline, nv: &NewValues)
    ensures
        string_views(final(changes)@) == string_views(old(changes)@) + heading_changes(
            tview(*t),
            opt_sview(nv.keyword),
            opt_sview(nv.priority),
            string_views(nv.tags@),
        ),
{
    let ghost tv = tview(*t);
    let ghost p0 = string_views(changes@);
    OrgMode::push_change(changes, "todo_state", opt_ref(&t.keyword), opt_ref(&nv.keyword));
    let ghost p1 = string_views(changes@);
    OrgMode::push_change(changes, "priority", opt_ref(&t.priority), opt_ref(&nv.priority));
    let ghost p2 = string_views(changes@);
    let old_tags = nonempty_join(t.tags.as_slice(), ":");
    let new_tags_joined = nonempty_join(nv.tags.as_slice(), ":");
    OrgMode::push_change(changes, "tags", opt_ref(&old_tags), opt_ref(&new_tags_joined));
    proof {
        assert(string_views(changes@) =~= p0 + heading_changes(
            tv,
            opt_sview(nv.keyword),
            opt_sview(nv.priority),
            string_views(nv.tags@),
        ));
    }
}

fn push_later_changes(changes: &mut Vec<String>, t: &TargetHeadline, nv: &NewValues, body_diff: &Option<(String, String)>)
    ensures
        string_views(final(changes)@) == string_views(old(changes)@) + later_changes(
            tview(*t),
            opt_sview(nv.scheduled),
            opt_sview(nv.deadline),
            opt_sview(nv.closed),
            nv.title@,
            diff_view(*body_diff),
        ),
{
    let ghost tv = tview(*t);
    let ghost p3 = string_views(changes@);
    OrgMode::push_change(changes, "scheduled", opt_ref(&t.planning_values.scheduled), opt_ref(&nv.scheduled));
    OrgMode::push_change(changes, "deadline", opt_ref(&t.planning_values.deadline), opt_ref(&nv.deadline));
    OrgMode::push_change(changes, "closed", opt_ref(&t.planning_values.closed), opt_ref(&nv.closed));
    OrgMode::push_change(changes, "title", Some(t.title.as_str()), Some(nv.title.as_str()));
    let ghost p7 = string_views(changes@);
    match body_diff {
        Some((old_body, new_body)) => {
            let o: Option<&str> = if old_body.as_str().is_empty() { None } else { Some(old_body.as_str()) };
            let n: Option<&str> = if new_body.as_str().is_empty() { None } else { Some(new_body.as_str()) };
            assert(opt_view(o) == nonempty(old_body@));
            assert(opt_view(n) == nonempty(new_body@));
            OrgMode::push_change(changes, "body", o, n);
        },
        None => {},
    }
    proof {
        assert(string_views(changes@) =~= p3 + later_changes(
            tv,
            opt_sview(nv.scheduled),
            opt_sview(nv.deadline),
            opt_sview(nv.closed),
            nv.title@,
            diff_view(*body_diff),
        ));
    }
}

fn collect_changes(entry: &UpdateEntry, t: &TargetHeadline, nv: &NewValues, body_diff: &Option<(String, String)>) -> (changes: Vec<String>)
    ensures
        string_views(changes@) == property_changes(tview(*t).properties, *entry) + field_changes(
            tview(*t),
            opt_sview(nv.keyword),
            opt_sview(nv.priority),
            string_views(nv.tags@),
            opt_sview(nv.scheduled),
            opt_sview(nv.deadline),
            opt_sview(nv.closed),
            nv.title@,
            diff_view(*body_diff),
        ),
{
    let ghost tv = tview(*t);
    let mut changes: Vec<String> = Vec::new();
    push_property_changes(&mut changes, &t.existing_properties, entry);
    let ghost p0 = string_views(changes@);
    push_heading_changes(&mut changes, t, nv);
    push_later_changes(&mut changes, t, nv, body_diff);
    proof {
        let h = heading_changes(tv, opt_sview(nv.keyword), opt_sview(nv.priority), string_views(nv.tags@));
        let l = later_changes(tv, opt_sview(nv.scheduled), opt_sview(nv.deadline), opt_sview(nv.closed), nv.title@, diff_view(*body_diff));
        assert(string_views(changes@) =~= p0 + (h + l));
    }
    changes
}

impl OrgMode {
    /// The update of a located target `t`, as `update_outcome` describes.
    fn finish_update(
        &self,
        file_rel: &str,
        content: &str,
        entry: &UpdateEntry,
        resolved: &ResolvedUpdate,
        t: TargetHeadline,
        now: LocalDateTime,
    ) -> (res: Result<(String, UpdateResult), OrgModeError>)
        requires
            calendar_valid(now.date),
            now.hour < 24,
            now.minute < 60,
            resolved.scheduled matches Some(x) ==> ts_renderable(x),
            resolved.deadline matches Some(x) ==> ts_renderable(x),
            resolved.closed matches Some(x) ==> ts_renderable(x),
        ensures
            update_outcome(self.spec_config(), *entry, *resolved, tview(t), now, content@, file_rel@, res),
    {
        let ghost tv = tview(t);
        let nv = self.new_values(entry, resolved, &t, now);
        let heading = OrgMode::format_heading(t.level, opt_ref(&nv.keyword), opt_ref(&nv.priority), nv.title.as_str(), Some(nv.tags.as_slice()));
        assert(heading@ == new_heading(*entry, tv));
        let pvals = PlanningValues { scheduled: clone_opt_string(&nv.scheduled), deadline: clone_opt_string(&nv.deadline), closed: clone_opt_string(&nv.closed) };
        let mut planning: Vec<String> = Vec::new();
        match render_planning_line(&pvals) {
            Some(l) => planning.push(l),
            None => {},
        }
        assert(string_views(planning@) =~= planning_repl(self.spec_config(), *entry, *resolved, tv, now));
        let drawer: Option<Vec<String>> = if entry.properties.is_some() || entry.remove_properties.is_some() {
            let merged = merge_properties(&t.existing_properties, entry);
            Some(drawer_block_lines(&merged))
        } else {
            None
        };
        let body: Option<Vec<String>> = if clear_has(entry, ClearField::Body) {
            let v: Vec<String> = Vec::new();
            proof { assert(string_views(v@) =~= Seq::<Seq<char>>::empty()); }
            Some(v)
        } else {
            match &entry.body {
                Some(b) => Some(lines_of(b.as_str())),
                None => None,
            }
        };
        let sep: &str = if contains_crlf(content) { "\r\n" } else { "\n" };
        assert(sep@ == line_sep(content@));
        let lines = lines_of(content);
        let (new_lines, body_diff) = match rewrite_lines(lines, &t, &heading, planning, drawer, body, sep) {
            Some(x) => x,
            None => {
                return Err(OrgModeError::InvalidUpdate(String::from_str("heading position does not match the file content")));
            },
        };
        let mut out = join_strings(new_lines.as_slice(), sep);
        if ends_with_newline(content) {
            out.append(sep);
        }
        let changes = collect_changes(entry, &t, &nv, &body_diff);
        let result = UpdateResult { file_path: String::from_str(file_rel), heading_line: heading, changes };
        Ok((out, result))
    }

    /// Rewrites the heading that `entry` targets in `content` (the text of
    /// `file_rel`): its heading line, planning line, property drawer and
    /// body, as `update_outcome` describes, using `now` for an automatic
    /// CLOSED stamp. Returns the new file text and what changed.
    pub fn apply_update(
        &self,
        file_rel: &str,
        content: &str,
        entry: &UpdateEntry,
        resolved: &ResolvedUpdate,
        now: LocalDateTime,
    ) -> (res: Result<(String, UpdateResult), OrgModeError>)
        requires
            calendar_valid(now.date),
            now.hour < 24,
            now.minute < 60,
            resolved.scheduled matches Some(x) ==> ts_renderable(x),
            resolved.deadline matches Some(x) ==> ts_renderable(x),
            resolved.closed matches Some(x) ==> ts_renderable(x),
        ensures
            ({
                let c = self.spec_config();
                let e = *entry;
                let hs = parsed_headlines(content@, string_views(spec_unfinished(c.org_todo_keywords@)), string_views(spec_finished(c.org_todo_keywords@)));
                &&& (forall|i: int| 0 <= i < hs.len() ==> !#[trigger] hits(e, hs, i)) ==> (res matches Err(OrgModeError::HeadingNotFound(m)) && m@ == shown_target(e))
                &&& (exists|i: int, j: int| 0 <= i < j < hs.len() && #[trigger] hits(e, hs, i) && #[trigger] hits(e, hs, j)) ==> (res matches Err(OrgModeError::AmbiguousTarget(m)) && m@ == shown_target(e))
                &&& forall|i: int| 0 <= i < hs.len() && #[trigger] hits(e, hs, i) && (forall|j: int| 0 <= j < hs.len() && j != i ==> !#[trigger] hits(e, hs, j)) ==> {
                    if !target_ok(hs[i], content@) {
                        (res matches Err(OrgModeError::InvalidUpdate(m)) && m@ == span_message())
                    } else {
                        update_outcome(c, e, *resolved, target_view(hs[i], content@), now, content@, file_rel@, res)
                    }
                }
            }),
    {
        proof { self.lemma_spec_config(); use_type_invariant(self); }
        let todo = self.config.unfinished_keywords();
        let done = self.config.finished_keywords();
        let hs = parse_headlines(content, todo, done);
        match locate_headline(&hs, content, entry) {
            Located::NotFound => Err(OrgModeError::HeadingNotFound(shown_of(entry))),
            Located::Ambiguous => Err(OrgModeError::AmbiguousTarget(shown_of(entry))),
            Located::OutOfRange => Err(OrgModeError::InvalidUpdate(String::from_str("heading position does not match the file content"))),
            Located::Found(t) => self.finish_update(file_rel, content, entry, resolved, t, now),
        }
    }
}

/// The parser's default TODO keywords.
pub open spec fn default_todo() -> Seq<Seq<char>> {
    seq!["TODO"@]
}

pub open spec fn default_done() -> Seq<Seq<char>> {
    seq!["DONE"@]
}

/// Some headline of `content` (parsed with the default keywords) carries
/// the ID `id`.
#[verifier::opaque]
pub open spec fn content_has_id(content: Seq<char>, id: Seq<char>) -> bool {
    let hs = parsed_headlines(content, default_todo(), default_done());
    exists|i: int| 0 <= i < hs.len() && #[trigger] id_hit(hs[i], id)
}

/// File `k` of `files` (path, content) holds a headline with the ID.
pub open spec fn file_has_id(files: Seq<(String, String)>, k: int, id: Seq<char>) -> bool {
    content_has_id(files[k].1@, id)
}

impl OrgMode {
    /// Whether some headline of `content` has the property `ID` (key in any
    /// case) equal to `id`.
    pub fn file_contains_id(content: &str, id: &str) -> (res: bool)
        ensures
            res == content_has_id(content@, id@),
    {
        let mut todo: Vec<String> = Vec::new();
        todo.push(String::from_str("TODO"));
        let mut done: Vec<String> = Vec::new();
        done.push(String::from_str("DONE"));
        proof {
            assert(string_views(todo@) =~= default_todo());
            assert(string_views(done@) =~= default_done());
        }
        let hs = parse_headlines(content, todo, done);
        proof { reveal(content_has_id); }
        let mut i: usize = 0;
        while i < hs.len()
            invariant
                i <= hs@.len(),
                hs@ == parsed_headlines(content@, default_todo(), default_done()),
                forall|k: int| 0 <= k < i ==> !#[trigger] id_hit(hs@[k], id@),
            decreases hs@.len() - i,
        {
            if has_id_property(&hs[i], id) {
                proof { reveal(content_has_id); }
                return true;
            }
            i = i + 1;
        }
        proof { reveal(content_has_id); }
        false
    }

    /// The file an update targets. By ID: the one file of `files` (every
    /// org file as (relative path, content)) holding a headline with that
    /// ID; none is `HeadingNotFound`, several `AmbiguousTarget`. By path:
    /// `entry.file` when `file_exists`, else `HeadingNotFound`.
    pub fn resolve_target_file(entry: &UpdateEntry, files: &Vec<(String, String)>, file_exists: bool) -> (res: Result<String, OrgModeError>)
        requires
            entry.id is Some || entry.file is Some,
        ensures
            match entry.id {
                Some(id) => {
                    &&& (forall|k: int| 0 <= k < files@.len() ==> !#[trigger] file_has_id(files@, k, id@))
                        ==> (res matches Err(OrgModeError::HeadingNotFound(m)) && m@ == id@)
                    &&& (exists|k: int, l: int| 0 <= k < l < files@.len() && #[trigger] file_has_id(files@, k, id@) && #[trigger] file_has_id(files@, l, id@))
                        ==> (res matches Err(OrgModeError::AmbiguousTarget(m)) && m@ == id@)
                    &&& forall|k: int| 0 <= k < files@.len() && #[trigger] file_has_id(files@, k, id@)
                        && (forall|l: int| 0 <= l < files@.len() && l != k ==> !#[trigger] file_has_id(files@, l, id@))
                        ==> (res matches Ok(p) && p@ == files@[k].0@)
                },
                None => if file_exists {
                    res matches Ok(p) && p@ == entry.file->0@
                } else {
                    res matches Err(OrgModeError::HeadingNotFound(m)) && m@ == entry.file->0@ + " (file does not exist)"@
                },
            },
    {
        match &entry.id {
            Some(id) => {
                let mut found: usize = 0;
                let mut count: usize = 0;
                let mut k: usize = 0;
                while k < files.len()
                    invariant
                        entry.id == Some(*id),
                        k <= files@.len(),
                        count <= 1,
                        count == 0 ==> forall|j: int| 0 <= j < k ==> !#[trigger] file_has_id(files@, j, id@),
                        count == 1 ==> found < k && file_has_id(files@, found as int, id@)
                            && forall|j: int| 0 <= j < k && j != found ==> !#[trigger] file_has_id(files@, j, id@),
                    decreases files@.len() - k,
                {
                    if Self::file_contains_id(files[k].1.as_str(), id.as_str()) {
                        assert(file_has_id(files@, k as int, id@));
                        if count == 1 {
                            proof {
                                let cur = k as int;
                                let f = found as int;
                                assert(file_has_id(files@, f, id@) && file_has_id(files@, cur, id@));
                                assert forall|m: int| 0 <= m < files@.len() && #[trigger] file_has_id(files@, m, id@)
                                    && (forall|l: int| 0 <= l < files@.len() && l != m ==> !#[trigger] file_has_id(files@, l, id@))
                                    implies false by {
                                    if m != f {
                                        assert(file_has_id(files@, f, id@));
                                    } else {
                                        assert(file_has_id(files@, cur, id@));
                                    }
                                }
                            }
                            let r = id.clone();
                            assert(r@ == id@);
                            assert(id@ == entry.id->0@);
                            let res: Result<String, OrgModeError> = Err(OrgModeError::AmbiguousTarget(r));
                            assert(res matches Err(OrgModeError::AmbiguousTarget(m)) && m@ == entry.id->0@);
                            return res;
                        }
                        found = k;
                        count = 1;
                    }
                    k = k + 1;
                }
                if count == 0 {
                    Err(OrgModeError::HeadingNotFound(id.clone()))
                } else {
                    Ok(files[found].0.clone())
                }
            },
            None => {
                let f = match &entry.file {
                    Some(f) => f,
                    None => { return Err(OrgModeError::HeadingNotFound(String::new())); },
                };
                if file_exists {
                    Ok(f.clone())
                } else {
                    Err(OrgModeError::HeadingNotFound(concat(f.as_str(), " (file does not exist)")))
                }
            },
        }
    }
}

} // verus!
