//! Updating an existing heading in place: the request, its validation, and
//! the values a validated request carries on.
use vstd::prelude::*;
use crate::capture::{PropertyPair, valid_tag, valid_prop_key, has_nl, keyword_allowed, priority_allowed, path_is_absolute, path_has_parent_segment, prop_ok, ts_ok, opt_ts_matches, upper_of, is_valid_tag, is_valid_property_key, has_newline, keyword_is_allowed, priority_is_allowed, to_upper};
use crate::config::OrgConfig;
use crate::error::OrgModeError;
use crate::org_mode::OrgMode;
use crate::text::{all_ws, is_blank, split_char, split_on, views_of, string_of, str_eq, concat3};
use crate::timestamp::{ParsedTimestamp, ts_renderable};
use crate::utils::contains_text;

verus! {

/// A field that an update can remove from a heading.
#[derive(Debug, Clone, Copy, PartialEq, Eq, Hash, Structural)]
pub enum ClearField {
    TodoState,
    Priority,
    Tags,
    Scheduled,
    Deadline,
    Closed,
    Body,
}

/// The name of a clearable field, as requests write it.
pub open spec fn clear_name(f: ClearField) -> Seq<char> {
    match f {
        ClearField::TodoState => "todo_state"@,
        ClearField::Priority => "priority"@,
        ClearField::Tags => "tags"@,
        ClearField::Scheduled => "scheduled"@,
        ClearField::Deadline => "deadline"@,
        ClearField::Closed => "closed"@,
        ClearField::Body => "body"@,
    }
}

impl ClearField {
    /// The field's name (`todo_state`, `priority`, `tags`, `scheduled`,
    /// `deadline`, `closed`, `body`).
    pub fn name(&self) -> (res: String)
        ensures
            res@ == clear_name(*self),
    {
        match self {
            ClearField::TodoState => String::from_str("todo_state"),
            ClearField::Priority => String::from_str("priority"),
            ClearField::Tags => String::from_str("tags"),
            ClearField::Scheduled => String::from_str("scheduled"),
            ClearField::Deadline => String::from_str("deadline"),
            ClearField::Closed => String::from_str("closed"),
            ClearField::Body => String::from_str("body"),
        }
    }

    /// The field with the given name, if there is one.
    pub fn from_name(s: &str) -> (res: Option<ClearField>)
        ensures
            match res {
                Some(f) => clear_name(f) == s@,
                None => forall|f: ClearField| clear_name(f) != s@,
            },
    {
        if str_eq(s, "todo_state") {
            Some(ClearField::TodoState)
        } else if str_eq(s, "priority") {
            Some(ClearField::Priority)
        } else if str_eq(s, "tags") {
            Some(ClearField::Tags)
        } else if str_eq(s, "scheduled") {
            Some(ClearField::Scheduled)
        } else if str_eq(s, "deadline") {
            Some(ClearField::Deadline)
        } else if str_eq(s, "closed") {
            Some(ClearField::Closed)
        } else if str_eq(s, "body") {
            Some(ClearField::Body)
        } else {
            None
        }
    }
}

impl std::str::FromStr for ClearField {
    type Err = String;

    fn from_str(s: &str) -> (res: Result<ClearField, String>)
        ensures
            match res {
                Ok(f) => clear_name(f) == s@,
                Err(m) => (forall|f: ClearField| clear_name(f) != s@) && m@ == "unknown field '"@ + s@ + "'"@,
            },
    {
        match ClearField::from_name(s) {
            Some(f) => Ok(f),
            None => Err(concat3("unknown field '", s, "'")),
        }
    }
}

/// A request to change an existing heading. The target is `id`, or `file`
/// together with a slash-separated `heading_path`; `id` wins when both are
/// given.
#[derive(Debug, Clone)]
pub struct UpdateEntry {
    pub id: Option<String>,
    pub file: Option<String>,
    pub heading_path: Option<String>,
    pub todo_state: Option<String>,
    pub priority: Option<String>,
    /// Replaces the tag list wholesale.
    pub tags: Option<Vec<String>>,
    pub scheduled: Option<String>,
    pub deadline: Option<String>,
    pub closed: Option<String>,
    /// Fields to remove.
    pub clear: Vec<ClearField>,
    pub title: Option<String>,
    pub body: Option<String>,
    /// Properties to set (matched by key, case-insensitively).
    pub properties: Option<Vec<PropertyPair>>,
    /// Property keys to remove (case-insensitively).
    pub remove_properties: Option<Vec<String>>,
}

/// What an update did: the file, the new heading line and one line per
/// changed field.
#[derive(Debug, Clone)]
pub struct UpdateResult {
    pub file_path: String,
    pub heading_line: String,
    pub changes: Vec<String>,
}

/// The timestamps of a validated update, parsed.
#[derive(Debug, Clone)]
pub struct ResolvedUpdate {
    pub scheduled: Option<ParsedTimestamp>,
    pub deadline: Option<ParsedTimestamp>,
    pub closed: Option<ParsedTimestamp>,
}

/// Whether setting field `f` is also requested.
pub open spec fn clear_conflicts(e: UpdateEntry, f: ClearField) -> bool {
    match f {
        ClearField::TodoState => e.todo_state is Some,
        ClearField::Priority => e.priority is Some,
        ClearField::Tags => e.tags is Some,
        ClearField::Scheduled => e.scheduled is Some,
        ClearField::Deadline => e.deadline is Some,
        ClearField::Closed => e.closed is Some,
        ClearField::Body => e.body is Some,
    }
}

/// Clear entry `i` repeats an earlier one.
pub open spec fn clear_repeats(cl: Seq<ClearField>, i: int) -> bool {
    exists|j: int| 0 <= j < i && cl[j] == cl[i]
}

/// Clear entry `i` is acceptable.
pub open spec fn clear_item_ok(e: UpdateEntry, i: int) -> bool {
    !clear_repeats(e.clear@, i) && !clear_conflicts(e, e.clear@[i])
}

/// The request changes something.
pub open spec fn has_mutation(e: UpdateEntry) -> bool {
    e.todo_state is Some || e.priority is Some || e.tags is Some || e.scheduled is Some
        || e.deadline is Some || e.closed is Some || e.title is Some || e.body is Some
        || e.properties is Some || e.remove_properties is Some || e.clear@.len() > 0
}

/// Property `k` of `ps` is also named, uppercased, in `rs`.
pub open spec fn prop_removed(ps: Seq<PropertyPair>, rs: Seq<String>, k: int) -> bool {
    exists|r: int| 0 <= r < rs.len() && upper_of(#[trigger] rs[r]@) == upper_of(ps[k].key@)
}

/// The `i`-th check of an update request, in the order in which they run.
pub open spec fn update_check(c: OrgConfig, e: UpdateEntry, i: int) -> bool {
    if i == 1 {
        (e.file is Some) == (e.heading_path is Some)
    } else if i == 2 {
        !(e.id is None && e.file is None)
    } else if i == 3 {
        e.id matches Some(id) ==> !all_ws(id@)
    } else if i == 4 {
        e.heading_path matches Some(p) ==> forall|k: int| 0 <= k < split_on(p@, '/').len() ==> !all_ws(#[trigger] split_on(p@, '/')[k])
    } else if i == 5 {
        has_mutation(e)
    } else if i == 6 {
        forall|k: int| 0 <= k < e.clear@.len() ==> #[trigger] clear_item_ok(e, k)
    } else if i == 7 {
        e.todo_state matches Some(k) ==> keyword_allowed(c.org_todo_keywords@, k@)
    } else if i == 8 {
        e.priority matches Some(p) ==> priority_allowed(p@)
    } else if i == 9 {
        e.tags matches Some(ts) ==> forall|k: int| 0 <= k < ts@.len() ==> valid_tag(#[trigger] ts@[k]@)
    } else if i == 10 {
        ts_ok(e.scheduled)
    } else if i == 11 {
        ts_ok(e.deadline)
    } else if i == 12 {
        ts_ok(e.closed)
    } else if i == 13 {
        e.title matches Some(t) ==> !all_ws(t@) && !has_nl(t@)
    } else if i == 14 {
        e.properties matches Some(ps) ==> forall|k: int| 0 <= k < ps@.len() ==> #[trigger] prop_ok(ps@, k)
    } else if i == 15 {
        (e.properties is Some && e.remove_properties is Some) ==> forall|k: int|
            0 <= k < e.properties->0@.len() ==> !#[trigger] prop_removed(e.properties->0@, e.remove_properties->0@, k)
    } else {
        e.file matches Some(f) ==> !path_is_absolute(f@) && !path_has_parent_segment(f@)
    }
}

/// The first `k` checks pass.
pub open spec fn update_ok_upto(c: OrgConfig, e: UpdateEntry, k: int) -> bool {
    forall|i: int| 1 <= i <= k ==> #[trigger] update_check(c, e, i)
}

/// Check `k` is the first one to fail.
pub open spec fn update_fails_at(c: OrgConfig, e: UpdateEntry, k: int) -> bool {
    update_ok_upto(c, e, k - 1) && !update_check(c, e, k)
}

fn parse_opt_ts(field: &str, o: &Option<String>) -> (res: Result<Option<ParsedTimestamp>, OrgModeError>)
    ensures
        res is Ok <==> ts_ok(*o),
        res matches Ok(t) ==> opt_ts_matches(*o, t) && (t matches Some(ts) ==> ts_renderable(ts)),
        res matches Err(e) ==> (e matches OrgModeError::InvalidTimestamp { field: f, value: v }
            && f@ == field@ && v@ == o->0@),
{
    match o {
        Some(v) => {
            match OrgMode::parse_iso_timestamp(field, v.as_str()) {
                Ok(t) => Ok(Some(t)),
                Err(e) => Err(e),
            }
        },
        None => Ok(None),
    }
}

/// Checks the clear list: the first entry that repeats an earlier one, or
/// names a field that is also set, is refused.
fn check_clear_list(entry: &UpdateEntry) -> (res: Result<(), OrgModeError>)
    ensures
        res is Ok <==> forall|k: int| 0 <= k < entry.clear@.len() ==> #[trigger] clear_item_ok(*entry, k),
        res matches Err(err) ==> exists|i: int| 0 <= i < entry.clear@.len() && !clear_item_ok(*entry, i)
            && (forall|j: int| 0 <= j < i ==> #[trigger] clear_item_ok(*entry, j)) && {
                let f = entry.clear@[i];
                if clear_repeats(entry.clear@, i) {
                    (err matches OrgModeError::InvalidUpdate(m) && m@ == "duplicate clear entry '"@ + clear_name(f) + "'"@)
                } else {
                    (err matches OrgModeError::InvalidUpdate(m) && m@ == "field '"@ + clear_name(f) + "' is both set and cleared"@)
                }
            },
{
    let cl = &entry.clear;
    let mut i: usize = 0;
    while i < cl.len()
        invariant
            cl == &entry.clear,
            i <= cl@.len(),
            forall|k: int| 0 <= k < i ==> #[trigger] clear_item_ok(*entry, k),
        decreases cl@.len() - i,
    {
        let f = cl[i];
        let mut j: usize = 0;
        while j < i
            invariant
                cl == &entry.clear,
                i < cl@.len(),
                j <= i,
                f == cl@[i as int],
                forall|k: int| 0 <= k < i ==> #[trigger] clear_item_ok(*entry, k),
                forall|k: int| 0 <= k < j ==> cl@[k] != cl@[i as int],
            decreases i - j,
        {
            if cl[j] == f {
                let name = f.name();
                proof { assert(clear_repeats(cl@, i as int)); assert(!clear_item_ok(*entry, i as int)); }
                return Err(OrgModeError::InvalidUpdate(concat3("duplicate clear entry '", name.as_str(), "'")));
            }
            j = j + 1;
        }
        assert(!clear_repeats(cl@, i as int));
        let conflict = match f {
            ClearField::TodoState => entry.todo_state.is_some(),
            ClearField::Priority => entry.priority.is_some(),
            ClearField::Tags => entry.tags.is_some(),
            ClearField::Scheduled => entry.scheduled.is_some(),
            ClearField::Deadline => entry.deadline.is_some(),
            ClearField::Closed => entry.closed.is_some(),
            ClearField::Body => entry.body.is_some(),
        };
        if conflict {
            let name = f.name();
            proof { assert(!clear_item_ok(*entry, i as int)); }
            return Err(OrgModeError::InvalidUpdate(concat3("field '", name.as_str(), "' is both set and cleared")));
        }
        i = i + 1;
    }
    Ok(())
}

/// Checks the properties to set: the first with an invalid key, a value with
/// a line break, or a key that repeats an earlier one (uppercased) is refused.
fn check_properties(ps: &Vec<PropertyPair>) -> (res: Result<(), OrgModeError>)
    ensures
        res is Ok <==> forall|k: int| 0 <= k < ps@.len() ==> #[trigger] prop_ok(ps@, k),
        res matches Err(err) ==> exists|i: int| 0 <= i < ps@.len() && !prop_ok(ps@, i)
            && (forall|j: int| 0 <= j < i ==> #[trigger] prop_ok(ps@, j)) && {
                let p = ps@[i];
                if !valid_prop_key(p.key@) {
                    (err matches OrgModeError::InvalidPropertyKey(k) && k@ == p.key@)
                } else if has_nl(p.value@) {
                    (err matches OrgModeError::InvalidPropertyValue { key: k, reason: r } && k@ == p.key@
                        && r@ == "value must not contain newline or carriage return"@)
                } else {
                    (err matches OrgModeError::DuplicatePropertyKey(k) && k@ == p.key@)
                }
            },
{
    let mut uppers: Vec<String> = Vec::new();
    let mut i: usize = 0;
    while i < ps.len()
        invariant
            i <= ps@.len(),
            uppers@.len() == i,
            forall|k: int| 0 <= k < i ==> #[trigger] prop_ok(ps@, k),
            forall|k: int| 0 <= k < i ==> #[trigger] uppers@[k]@ == upper_of(ps@[k].key@),
        decreases ps@.len() - i,
    {
        let p = &ps[i];
        if !is_valid_property_key(p.key.as_str()) {
            proof { assert(!prop_ok(ps@, i as int)); }
            return Err(OrgModeError::InvalidPropertyKey(p.key.clone()));
        }
        if has_newline(p.value.as_str()) {
            proof { assert(!prop_ok(ps@, i as int)); }
            return Err(OrgModeError::InvalidPropertyValue {
                key: p.key.clone(),
                reason: String::from_str("value must not contain newline or carriage return"),
            });
        }
        let up = to_upper(p.key.as_str());
        if contains_text(uppers.as_slice(), &up) {
            proof {
                let j = choose|j: int| 0 <= j < uppers@.len() && #[trigger] uppers@[j]@ == up@;
                assert(upper_of(ps@[j].key@) == upper_of(ps@[i as int].key@));
                assert(!prop_ok(ps@, i as int));
            }
            return Err(OrgModeError::DuplicatePropertyKey(p.key.clone()));
        }
        proof {
            assert forall|j: int| 0 <= j < i implies upper_of(#[trigger] ps@[j].key@) != upper_of(ps@[i as int].key@) by {
                if upper_of(ps@[j].key@) == upper_of(ps@[i as int].key@) {
                    assert(uppers@[j]@ == up@);
                }
            }
            assert(prop_ok(ps@, i as int));
        }
        uppers.push(up);
        i = i + 1;
    }
    Ok(())
}

/// Checks that no property to set is also to be removed (keys compared
/// uppercased); the first such property is refused.
fn check_set_and_remove(ps: &Vec<PropertyPair>, rs: &Vec<String>) -> (res: Result<(), OrgModeError>)
    ensures
        res is Ok <==> forall|k: int| 0 <= k < ps@.len() ==> !#[trigger] prop_removed(ps@, rs@, k),
        res matches Err(err) ==> exists|i: int| 0 <= i < ps@.len() && prop_removed(ps@, rs@, i)
            && (forall|j: int| 0 <= j < i ==> !#[trigger] prop_removed(ps@, rs@, j))
            && (err matches OrgModeError::InvalidUpdate(m)
            && m@ == "property key '"@ + ps@[i].key@ + "' appears in both properties and remove_properties"@),
{
    let mut ups: Vec<String> = Vec::new();
    let mut r: usize = 0;
    while r < rs.len()
        invariant
            r <= rs@.len(),
            ups@.len() == r,
            forall|k: int| 0 <= k < r ==> #[trigger] ups@[k]@ == upper_of(rs@[k]@),
        decreases rs@.len() - r,
    {
        ups.push(to_upper(rs[r].as_str()));
        r = r + 1;
    }
    let mut i: usize = 0;
    while i < ps.len()
        invariant
            i <= ps@.len(),
            ups@.len() == rs@.len(),
            forall|k: int| 0 <= k < rs@.len() ==> #[trigger] ups@[k]@ == upper_of(rs@[k]@),
            forall|k: int| 0 <= k < i ==> !#[trigger] prop_removed(ps@, rs@, k),
        decreases ps@.len() - i,
    {
        let up = to_upper(ps[i].key.as_str());
        if contains_text(ups.as_slice(), &up) {
            proof {
                let j = choose|j: int| 0 <= j < ups@.len() && #[trigger] ups@[j]@ == up@;
                assert(upper_of(rs@[j]@) == upper_of(ps@[i as int].key@));
                assert(prop_removed(ps@, rs@, i as int));
            }
            return Err(OrgModeError::InvalidUpdate(concat3("property key '", ps[i].key.as_str(), "' appears in both properties and remove_properties")));
        }
        proof {
            assert forall|j: int| 0 <= j < rs@.len() implies upper_of(#[trigger] rs@[j]@) != upper_of(ps@[i as int].key@) by {
                if upper_of(rs@[j]@) == upper_of(ps@[i as int].key@) {
                    assert(ups@[j]@ == up@);
                }
            }
        }
        i = i + 1;
    }
    Ok(())
}

impl OrgMode {
    /// Validates an update request, checking in order: the target (`file`
    /// and `heading_path` together, some target, a non-blank `id`, no blank
    /// path segment), that something changes, the clear list, TODO keyword,
    /// priority, tags, timestamps, title, properties, properties both set and
    /// removed, and the file path.
    #[verifier::loop_isolation(false)]
    pub fn validate_update(&self, entry: &UpdateEntry) -> (res: Result<ResolvedUpdate, OrgModeError>)
        ensures
            ({
                let c = self.spec_config();
                let e = *entry;
                &&& update_fails_at(c, e, 1) ==> (res matches Err(OrgModeError::InvalidUpdate(m)) && m@ == "file and heading_path must be given together"@)
                &&& update_fails_at(c, e, 2) ==> (res matches Err(OrgModeError::InvalidUpdate(m)) && m@ == "target required: pass id or file + heading_path"@)
                &&& update_fails_at(c, e, 3) ==> (res matches Err(OrgModeError::InvalidUpdate(m)) && m@ == "id must not be empty"@)
                &&& update_fails_at(c, e, 4) ==> (res matches Err(OrgModeError::InvalidHeadingPath(m)) && m@ == "heading_path contains an empty or whitespace-only segment: '"@ + e.heading_path->0@ + "'"@)
                &&& update_fails_at(c, e, 5) ==> (res matches Err(OrgModeError::InvalidUpdate(m)) && m@ == "nothing to update"@)
                &&& update_fails_at(c, e, 6) ==> exists|i: int| 0 <= i < e.clear@.len() && !clear_item_ok(e, i)
                    && (forall|j: int| 0 <= j < i ==> #[trigger] clear_item_ok(e, j)) && {
                        let f = e.clear@[i];
                        if clear_repeats(e.clear@, i) {
                            (res matches Err(OrgModeError::InvalidUpdate(m)) && m@ == "duplicate clear entry '"@ + clear_name(f) + "'"@)
                        } else {
                            (res matches Err(OrgModeError::InvalidUpdate(m)) && m@ == "field '"@ + clear_name(f) + "' is both set and cleared"@)
                        }
                    }
                &&& update_fails_at(c, e, 7) ==> (res matches Err(OrgModeError::InvalidTodoKeyword(k)) && k@ == e.todo_state->0@)
                &&& update_fails_at(c, e, 8) ==> (res matches Err(OrgModeError::InvalidPriority(p)) && p@ == e.priority->0@)
                &&& update_fails_at(c, e, 9) ==> (res matches Err(OrgModeError::InvalidTag(t)) && exists|i: int| 0 <= i < e.tags->0@.len() && !valid_tag(#[trigger] e.tags->0@[i]@) && t@ == e.tags->0@[i]@ && forall|j: int| 0 <= j < i ==> valid_tag(#[trigger] e.tags->0@[j]@))
                &&& update_fails_at(c, e, 10) ==> (res matches Err(OrgModeError::InvalidTimestamp { field: f, value: v }) && f@ == "scheduled"@ && v@ == e.scheduled->0@)
                &&& update_fails_at(c, e, 11) ==> (res matches Err(OrgModeError::InvalidTimestamp { field: f, value: v }) && f@ == "deadline"@ && v@ == e.deadline->0@)
                &&& update_fails_at(c, e, 12) ==> (res matches Err(OrgModeError::InvalidTimestamp { field: f, value: v }) && f@ == "closed"@ && v@ == e.closed->0@)
                &&& update_fails_at(c, e, 13) ==> (res matches Err(OrgModeError::InvalidTitle(t)) && t@ == e.title->0@)
                &&& update_fails_at(c, e, 14) ==> exists|i: int| 0 <= i < e.properties->0@.len() && !prop_ok(e.properties->0@, i)
                    && (forall|j: int| 0 <= j < i ==> #[trigger] prop_ok(e.properties->0@, j)) && {
                        let p = e.properties->0@[i];
                        if !valid_prop_key(p.key@) {
                            (res matches Err(OrgModeError::InvalidPropertyKey(k)) && k@ == p.key@)
                        } else if has_nl(p.value@) {
                            (res matches Err(OrgModeError::InvalidPropertyValue { key: k, reason: r }) && k@ == p.key@
                                && r@ == "value must not contain newline or carriage return"@)
                        } else {
                            (res matches Err(OrgModeError::DuplicatePropertyKey(k)) && k@ == p.key@)
                        }
                    }
                &&& update_fails_at(c, e, 15) ==> exists|i: int| 0 <= i < e.properties->0@.len()
                    && prop_removed(e.properties->0@, e.remove_properties->0@, i)
                    && (forall|j: int| 0 <= j < i ==> !#[trigger] prop_removed(e.properties->0@, e.remove_properties->0@, j))
                    && (res matches Err(OrgModeError::InvalidUpdate(m))
                    && m@ == "property key '"@ + e.properties->0@[i].key@ + "' appears in both properties and remove_properties"@)
                &&& update_fails_at(c, e, 16) ==> {
                    let f = e.file->0@;
                    if path_is_absolute(f) {
                        (res matches Err(OrgModeError::InvalidDirectory(m)) && m@ == "absolute path not allowed: "@ + f)
                    } else {
                        (res matches Err(OrgModeError::InvalidDirectory(m)) && m@ == "path traversal segment '..' not allowed: "@ + f)
                    }
                }
                &&& update_ok_upto(c, e, 16) <==> res is Ok
                &&& res matches Ok(r) ==> {
                    &&& opt_ts_matches(e.scheduled, r.scheduled)
                    &&& opt_ts_matches(e.deadline, r.deadline)
                    &&& opt_ts_matches(e.closed, r.closed)
                    &&& (r.scheduled matches Some(t) ==> ts_renderable(t))
                    &&& (r.deadline matches Some(t) ==> ts_renderable(t))
                    &&& (r.closed matches Some(t) ==> ts_renderable(t))
                }
            }),
    {
        let ghost c = self.spec_config();
        let ghost e = *entry;
        proof { self.lemma_spec_config(); }
        if entry.file.is_some() != entry.heading_path.is_some() {
            proof { assert(!update_check(c, e, 1)); }
            return Err(OrgModeError::InvalidUpdate(String::from_str("file and heading_path must be given together")));
        }
        assert(update_check(c, e, 1));
        assert(update_ok_upto(c, e, 1));
        if entry.id.is_none() && entry.file.is_none() {
            proof { assert(!update_check(c, e, 2)); }
            return Err(OrgModeError::InvalidUpdate(String::from_str("target required: pass id or file + heading_path")));
        }
        assert(update_check(c, e, 2));
        assert(update_ok_upto(c, e, 2));
        match &entry.id {
            Some(id) => {
                if is_blank(id.as_str()) {
                    proof { assert(!update_check(c, e, 3)); }
                    return Err(OrgModeError::InvalidUpdate(String::from_str("id must not be empty")));
                }
            },
            None => {},
        }
        assert(update_ok_upto(c, e, 3));
        match &entry.heading_path {
            Some(t) => {
                let segs = split_char(t.as_str(), '/');
                let mut i: usize = 0;
                while i < segs.len()
                    invariant
                        views_of(segs@) == split_on(t@, '/'),
                        i <= segs@.len(),
                        forall|k: int| 0 <= k < i ==> !all_ws(#[trigger] split_on(t@, '/')[k]),
                    decreases segs@.len() - i,
                {
                    let seg = string_of(segs[i].as_slice());
                    assert(seg@ == split_on(t@, '/')[i as int]);
                    if is_blank(seg.as_str()) {
                        let m = concat3("heading_path contains an empty or whitespace-only segment: '", t.as_str(), "'");
                        proof { assert(!update_check(c, e, 4)); }
                        return Err(OrgModeError::InvalidHeadingPath(m));
                    }
                    i = i + 1;
                }
            },
            None => {},
        }
        assert(update_ok_upto(c, e, 4));
        if entry.todo_state.is_none() && entry.priority.is_none() && entry.tags.is_none()
            && entry.scheduled.is_none() && entry.deadline.is_none() && entry.closed.is_none()
            && entry.title.is_none() && entry.body.is_none() && entry.properties.is_none()
            && entry.remove_properties.is_none() && entry.clear.len() == 0 {
            proof { assert(!update_check(c, e, 5)); }
            return Err(OrgModeError::InvalidUpdate(String::from_str("nothing to update")));
        }
        assert(update_ok_upto(c, e, 5));
        match check_clear_list(entry) {
            Ok(()) => {},
            Err(err) => {
                proof { assert(!update_check(c, e, 6)); }
                return Err(err);
            },
        }
        assert(update_ok_upto(c, e, 6));
        match &entry.todo_state {
            Some(k) => {
                if !keyword_is_allowed(self.config.org_todo_keywords.as_slice(), k.as_str()) {
                    proof { assert(!update_check(c, e, 7)); }
                    return Err(OrgModeError::InvalidTodoKeyword(k.clone()));
                }
            },
            None => {},
        }
        assert(update_ok_upto(c, e, 7));
        match &entry.priority {
            Some(p) => {
                if !priority_is_allowed(p.as_str()) {
                    proof { assert(!update_check(c, e, 8)); }
                    return Err(OrgModeError::InvalidPriority(p.clone()));
                }
            },
            None => {},
        }
        assert(update_ok_upto(c, e, 8));
        match &entry.tags {
            Some(ts) => {
                let mut i: usize = 0;
                while i < ts.len()
                    invariant
                        i <= ts@.len(),
                        forall|k: int| 0 <= k < i ==> valid_tag(#[trigger] ts@[k]@),
                    decreases ts@.len() - i,
                {
                    if !is_valid_tag(ts[i].as_str()) {
                        proof {
                            assert(!update_check(c, e, 9));
                            assert(!valid_tag(e.tags->0@[i as int]@));
                        }
                        return Err(OrgModeError::InvalidTag(ts[i].clone()));
                    }
                    i = i + 1;
                }
            },
            None => {},
        }
        assert(update_ok_upto(c, e, 9));
        let scheduled = match parse_opt_ts("scheduled", &entry.scheduled) {
            Ok(t) => t,
            Err(err) => { proof { assert(!update_check(c, e, 10)); } return Err(err); },
        };
        assert(update_ok_upto(c, e, 10));
        let deadline = match parse_opt_ts("deadline", &entry.deadline) {
            Ok(t) => t,
            Err(err) => { proof { assert(!update_check(c, e, 11)); } return Err(err); },
        };
        assert(update_ok_upto(c, e, 11));
        let closed = match parse_opt_ts("closed", &entry.closed) {
            Ok(t) => t,
            Err(err) => { proof { assert(!update_check(c, e, 12)); } return Err(err); },
        };
        assert(update_ok_upto(c, e, 12));
        match &entry.title {
            Some(t) => {
                if is_blank(t.as_str()) || has_newline(t.as_str()) {
                    proof { assert(!update_check(c, e, 13)); }
                    return Err(OrgModeError::InvalidTitle(t.clone()));
                }
            },
            None => {},
        }
        assert(update_ok_upto(c, e, 13));
        match &entry.properties {
            Some(ps) => {
                match check_properties(ps) {
                    Ok(()) => {},
                    Err(err) => {
                        proof { assert(!update_check(c, e, 14)); }
                        return Err(err);
                    },
                }
            },
            None => {},
        }
        assert(update_ok_upto(c, e, 14));
        match (&entry.properties, &entry.remove_properties) {
            (Some(ps), Some(rs)) => {
                match check_set_and_remove(ps, rs) {
                    Ok(()) => {},
                    Err(err) => {
                        proof { assert(!update_check(c, e, 15)); }
                        return Err(err);
                    },
                }
            },
            _ => {},
        }
        assert(update_ok_upto(c, e, 15));
        match &entry.file {
            Some(f) => {
                match Self::validate_relative_file_path(f.as_str()) {
                    Ok(()) => {},
                    Err(err) => {
                        proof { assert(!update_check(c, e, 16)); }
                        return Err(err);
                    },
                }
            },
            None => {},
        }
        assert(update_ok_upto(c, e, 16));
        Ok(ResolvedUpdate { scheduled, deadline, closed })
    }
}

} // verus!
