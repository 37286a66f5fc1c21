//! Appending a heading to an org file: validating the request, locating the
//! target heading path, and building the text to insert.
use vstd::prelude::*;
use crate::config::{OrgConfig, is_sep};
use crate::error::OrgModeError;
use crate::org_mode::OrgMode;
use crate::text::{chars_of, concat, concat3, has_char, is_single, one, is_ascii_alnum, char_is_ascii_alnum, split_char, split_on, views_of, all_ws, is_blank, trim, trim_chars, string_of, push_char, join_with, join_strings, string_views};
use crate::timestamp::{OrgDate, local_now, ParsedTimestamp, LocalDateTime, calendar_valid, parse_iso_date, iso_date_of, ts_grammar_ok, ts_denotes, ts_renderable};
use crate::utils::{contains_text, seq_has_text};
use crate::tree::{rep, push_repeat};
use crate::text::{ws_tokens, is_ws};

verus! {

/// Deepest heading level that capture writes.
pub const MAX_HEADING_LEVEL: usize = 19;

/// Single key/value pair for the org property drawer.
#[derive(Debug, Clone, PartialEq, Eq)]
pub struct PropertyPair {
    pub key: String,
    pub value: String,
}

/// Describes a heading to append to an org file.
#[derive(Debug, Clone)]
pub struct CaptureEntry {
    /// Heading title. Must be non-empty (after trimming) and contain no `\n`/`\r`.
    pub title: String,
    /// Heading level (1..=19).
    pub level: Option<usize>,
    /// TODO keyword (must match a configured keyword).
    pub todo_state: Option<String>,
    /// Tags, each matching `[A-Za-z0-9_@]+`.
    pub tags: Option<Vec<String>>,
    /// Priority cookie: `A`, `B`, or `C`.
    pub priority: Option<String>,
    /// Body placed beneath the heading; a trailing newline is added if missing.
    pub body: Option<String>,
    /// Relative path under the org directory; defaults to the notes file.
    pub file: Option<String>,
    /// Slash-separated heading path the new entry should live under.
    pub target_heading: Option<String>,
    /// SCHEDULED timestamp, ISO input grammar.
    pub scheduled: Option<String>,
    /// DEADLINE timestamp, ISO input grammar.
    pub deadline: Option<String>,
    /// CLOSED timestamp, ISO input grammar; rendered inactive.
    pub closed: Option<String>,
    /// Property drawer entries in order.
    pub properties: Option<Vec<PropertyPair>>,
    /// File the entry under a Year/Month/Day datetree.
    pub datetree: bool,
    /// The datetree day, `YYYY-MM-DD`; today when omitted.
    pub datetree_date: Option<String>,
}

/// Result returned from a successful capture.
#[derive(Debug, Clone)]
pub struct CaptureResult {
    /// Path the heading was written to, relative to the org directory.
    pub file_path: String,
    /// Final heading level used.
    pub level: usize,
    /// The full heading line written.
    pub heading_line: String,
    /// The effective target heading path, when there was one.
    pub under_target: Option<String>,
}

/// Tag characters: `[A-Za-z0-9_@]`.
pub open spec fn valid_tag(t: Seq<char>) -> bool {
    t.len() > 0 && forall|i: int| 0 <= i < t.len() ==> #[trigger] is_ascii_alnum(t[i]) || t[i] == '_' || t[i] == '@'
}

/// Property key characters: `[A-Za-z0-9_-]`.
pub open spec fn valid_prop_key(t: Seq<char>) -> bool {
    t.len() > 0 && forall|i: int| 0 <= i < t.len() ==> #[trigger] is_ascii_alnum(t[i]) || t[i] == '_' || t[i] == '-'
}

/// Holds a newline or carriage return.
pub open spec fn has_nl(s: Seq<char>) -> bool {
    s.contains('\n') || s.contains('\r')
}

/// A TODO keyword the configuration defines (`|` excluded).
pub open spec fn keyword_allowed(ks: Seq<String>, kw: Seq<char>) -> bool {
    kw != one('|') && seq_has_text(ks, kw)
}

pub open spec fn priority_allowed(p: Seq<char>) -> bool {
    p == one('A') || p == one('B') || p == one('C')
}

/// Relative path check on `/`-separated paths: absolute paths and `..`
/// segments are refused.
pub open spec fn path_is_absolute(p: Seq<char>) -> bool {
    p.len() > 0 && p[0] == '/'
}

pub open spec fn path_has_parent_segment(p: Seq<char>) -> bool {
    exists|i: int| 0 <= i < split_on(p, '/').len() && #[trigger] split_on(p, '/')[i] == seq!['.', '.']
}

/// Uppercase form of a string (`str::to_uppercase`).
pub uninterp spec fn upper_of(s: Seq<char>) -> Seq<char>;

/// Lowercase form of a string (`str::to_lowercase`).
pub uninterp spec fn lower_of(s: Seq<char>) -> Seq<char>;

/// Unicode uppercase (`str::to_uppercase`). Claimed: the named uppercase of
/// the input.
#[verifier::external_body]
pub fn to_upper(s: &str) -> (res: String)
    ensures
        res@ == upper_of(s@),
{
    s.to_uppercase()
}

/// Unicode lowercase (`str::to_lowercase`). Claimed: the named lowercase of
/// the input.
#[verifier::external_body]
pub fn to_lower(s: &str) -> (res: String)
    ensures
        res@ == lower_of(s@),
{
    s.to_lowercase()
}

/// Whether the tag matches `[A-Za-z0-9_@]+`.
pub fn is_valid_tag(tag: &str) -> (res: bool)
    ensures
        res == valid_tag(tag@),
{
    let v = chars_of(tag);
    if v.len() == 0 {
        return false;
    }
    let mut i: usize = 0;
    while i < v.len()
        invariant
            v@ == tag@,
            i <= v@.len(),
            forall|k: int| 0 <= k < i ==> #[trigger] is_ascii_alnum(v@[k]) || v@[k] == '_' || v@[k] == '@',
        decreases v@.len() - i,
    {
        let c = v[i];
        if !(char_is_ascii_alnum(c) || c == '_' || c == '@') {
            return false;
        }
        i = i + 1;
    }
    true
}

/// Whether the property key matches `[A-Za-z0-9_-]+`.
pub fn is_valid_property_key(key: &str) -> (res: bool)
    ensures
        res == valid_prop_key(key@),
{
    let v = chars_of(key);
    if v.len() == 0 {
        return false;
    }
    let mut i: usize = 0;
    while i < v.len()
        invariant
            v@ == key@,
            i <= v@.len(),
            forall|k: int| 0 <= k < i ==> #[trigger] is_ascii_alnum(v@[k]) || v@[k] == '_' || v@[k] == '-',
        decreases v@.len() - i,
    {
        let c = v[i];
        if !(char_is_ascii_alnum(c) || c == '_' || c == '-') {
            return false;
        }
        i = i + 1;
    }
    true
}

/// Whether `s` holds a newline or carriage return.
pub fn has_newline(s: &str) -> (res: bool)
    ensures
        res == has_nl(s@),
{
    has_char(s, '\n') || has_char(s, '\r')
}

/// Whether `kw` is one of the configured TODO keywords.
pub fn keyword_is_allowed(ks: &[String], kw: &str) -> (res: bool)
    ensures
        res == keyword_allowed(ks@, kw@),
{
    if is_single(kw, '|') {
        return false;
    }
    let k = String::from_str(kw);
    contains_text(ks, &k)
}

/// Whether `p` is `A`, `B` or `C`.
pub fn priority_is_allowed(p: &str) -> (res: bool)
    ensures
        res == priority_allowed(p@),
{
    is_single(p, 'A') || is_single(p, 'B') || is_single(p, 'C')
}

impl OrgMode {
    /// Refuses absolute paths and `..` segments; other relative paths pass.
    pub fn validate_relative_file_path(file_rel: &str) -> (res: Result<(), OrgModeError>)
        ensures
            path_is_absolute(file_rel@) ==> (res matches Err(OrgModeError::InvalidDirectory(m))
                && m@ == "absolute path not allowed: "@ + file_rel@),
            !path_is_absolute(file_rel@) && path_has_parent_segment(file_rel@) ==> (res matches Err(
                OrgModeError::InvalidDirectory(m),
            ) && m@ == "path traversal segment '..' not allowed: "@ + file_rel@),
            !path_is_absolute(file_rel@) && !path_has_parent_segment(file_rel@) ==> res is Ok,
    {
        let v = chars_of(file_rel);
        if v.len() > 0 && v[0] == '/' {
            return Err(OrgModeError::InvalidDirectory(concat("absolute path not allowed: ", file_rel)));
        }
        let segs = split_char(file_rel, '/');
        let mut i: usize = 0;
        while i < segs.len()
            invariant
                views_of(segs@) == split_on(file_rel@, '/'),
                !path_is_absolute(file_rel@),
                i <= segs@.len(),
                forall|k: int| 0 <= k < i ==> #[trigger] split_on(file_rel@, '/')[k] != seq!['.', '.'],
            decreases segs@.len() - i,
        {
            let s = &segs[i];
            assert(s@ == split_on(file_rel@, '/')[i as int]);
            if s.len() == 2 && s[0] == '.' && s[1] == '.' {
                assert(s@ =~= seq!['.', '.']);
                return Err(
                    OrgModeError::InvalidDirectory(
                        concat("path traversal segment '..' not allowed: ", file_rel),
                    ),
                );
            }
            assert(s@ != seq!['.', '.']);
            i = i + 1;
        }
        Ok(())
    }
}


pub open spec fn opt_view(o: Option<&str>) -> Option<Seq<char>> {
    match o {
        Some(s) => Some(s@),
        None => None,
    }
}

/// ` :a:b:` for a non-empty tag list, nothing otherwise.
pub open spec fn tags_suffix(tags: Seq<Seq<char>>) -> Seq<char> {
    if tags.len() == 0 { Seq::empty() } else { seq![' ', ':'] + join_with(tags, seq![':']) + seq![':'] }
}

/// `** TODO [#A] Title :tag1:tag2:`: the stars, then keyword, priority cookie
/// and title separated by single spaces, then the tags.
pub open spec fn spec_heading(
    level: nat,
    kw: Option<Seq<char>>,
    p: Option<Seq<char>>,
    title: Seq<char>,
    tags: Seq<Seq<char>>,
) -> Seq<char> {
    rep('*', level) + match kw {
        Some(k) => seq![' '] + k,
        None => Seq::empty(),
    } + match p {
        Some(p) => seq![' ', '[', '#'] + p + seq![']'],
        None => Seq::empty(),
    } + seq![' '] + title + tags_suffix(tags)
}

pub open spec fn opt_sview(o: Option<String>) -> Option<Seq<char>> {
    match o {
        Some(s) => Some(s@),
        None => None,
    }
}

pub open spec fn opt_vtags(o: Option<Vec<String>>) -> Seq<Seq<char>> {
    match o {
        Some(ts) => string_views(ts@),
        None => Seq::empty(),
    }
}

/// The string inside an optional `String`, borrowed.
pub fn as_opt_str(o: &Option<String>) -> (r: Option<&str>)
    ensures
        opt_view(r) == opt_sview(*o),
{
    match o {
        Some(s) => Some(s.as_str()),
        None => None,
    }
}

/// The tags inside an optional list, borrowed.
pub fn as_opt_slice(o: &Option<Vec<String>>) -> (r: Option<&[String]>)
    ensures
        opt_tags_view(r) == opt_vtags(*o),
{
    match o {
        Some(v) => Some(v.as_slice()),
        None => None,
    }
}

pub open spec fn opt_tags_view(t: Option<&[String]>) -> Seq<Seq<char>> {
    match t {
        Some(ts) => string_views(ts@),
        None => Seq::empty(),
    }
}

impl OrgMode {
    /// Formats a heading line: stars for the level, optional TODO keyword,
    /// optional `[#P]` priority cookie, the title and optional `:tags:`.
    pub fn format_heading(
        level: usize,
        todo_state: Option<&str>,
        priority: Option<&str>,
        title: &str,
        tags: Option<&[String]>,
    ) -> (res: String)
        ensures
            res@ == spec_heading(level as nat, opt_view(todo_state), opt_view(priority), title@, opt_tags_view(tags)),
    {
        let mut line = String::new();
        push_repeat(&mut line, '*', level);
        let ghost a = line@;
        match todo_state {
            Some(k) => {
                push_char(&mut line, ' ');
                line.append(k);
            },
            None => {},
        }
        let ghost b = line@;
        assert(b =~= a + match opt_view(todo_state) {
            Some(k) => seq![' '] + k,
            None => Seq::<char>::empty(),
        });
        match priority {
            Some(p) => {
                line.append(" [#");
                line.append(p);
                push_char(&mut line, ']');
            },
            None => {},
        }
        let ghost c = line@;
        assert(c =~= b + match opt_view(priority) {
            Some(p) => seq![' ', '[', '#'] + p + seq![']'],
            None => Seq::<char>::empty(),
        }) by {
            reveal_strlit(" [#");
        }
        push_char(&mut line, ' ');
        line.append(title);
        let ghost d = line@;
        match tags {
            Some(ts) => {
                if ts.len() > 0 {
                    let joined = join_strings(ts, ":");
                    line.append(" :");
                    line.append(joined.as_str());
                    push_char(&mut line, ':');
                    proof {
                        reveal_strlit(" :");
                        reveal_strlit(":");
                        assert(":"@ =~= seq![':']);
                        assert(" :"@ =~= seq![' ', ':']);
                        assert(line@ =~= d + tags_suffix(opt_tags_view(tags)));
                    }
                } else {
                    assert(line@ =~= d + tags_suffix(opt_tags_view(tags)));
                }
            },
            None => {
                assert(line@ =~= d + tags_suffix(opt_tags_view(tags)));
            },
        }
        line
    }
}


/// A capture request that passed validation, with its parsed parts.
#[derive(Debug, Clone)]
pub struct ValidCapture {
    /// Target file relative to the org directory.
    pub file_rel: String,
    pub scheduled: Option<ParsedTimestamp>,
    pub deadline: Option<ParsedTimestamp>,
    pub closed: Option<ParsedTimestamp>,
    /// The datetree day, when the entry goes under a datetree.
    pub datetree_date: Option<OrgDate>,
    /// The user's property drawer entries.
    pub properties: Vec<PropertyPair>,
}

/// The file a capture writes to, relative to the org directory.
pub open spec fn capture_file(c: OrgConfig, e: CaptureEntry) -> Seq<char> {
    match e.file {
        Some(f) => f@,
        None => c.org_default_notes_file@,
    }
}

pub open spec fn ts_ok(o: Option<String>) -> bool {
    match o {
        Some(v) => ts_grammar_ok(ws_tokens(v@)),
        None => true,
    }
}

/// Property `i` of `ps` is acceptable: a valid key, a value without line
/// breaks, and a key that differs, uppercased, from every earlier key.
pub open spec fn prop_ok(ps: Seq<PropertyPair>, i: int) -> bool {
    &&& valid_prop_key(ps[i].key@)
    &&& !has_nl(ps[i].value@)
    &&& forall|j: int| 0 <= j < i ==> upper_of(#[trigger] ps[j].key@) != upper_of(ps[i].key@)
}

/// The `i`-th check of a capture request, in the order in which they run.
pub open spec fn capture_check(c: OrgConfig, e: CaptureEntry, i: int) -> bool {
    if i == 1 {
        !all_ws(e.title@)
    } else if i == 2 {
        !has_nl(e.title@)
    } else if i == 3 {
        e.level matches Some(l) ==> 1 <= l <= MAX_HEADING_LEVEL
    } else if i == 4 {
        !path_is_absolute(capture_file(c, e))
    } else if i == 5 {
        !path_has_parent_segment(capture_file(c, e))
    } else if i == 6 {
        e.target_heading matches Some(t) ==> forall|k: int| 0 <= k < split_on(t@, '/').len() ==> !all_ws(#[trigger] split_on(t@, '/')[k])
    } else if i == 7 {
        e.todo_state matches Some(k) ==> keyword_allowed(c.org_todo_keywords@, k@)
    } else if i == 8 {
        e.priority matches Some(p) ==> priority_allowed(p@)
    } else if i == 9 {
        e.tags matches Some(ts) ==> forall|k: int| 0 <= k < ts@.len() ==> valid_tag(#[trigger] ts@[k]@)
    } else if i == 10 {
        ts_ok(e.scheduled)
    } else if i == 11 {
        ts_ok(e.deadline)
    } else if i == 12 {
        ts_ok(e.closed)
    } else if i == 13 {
        !(e.datetree_date is Some && !e.datetree)
    } else if i == 14 {
        (e.datetree && e.datetree_date is Some) ==> {
            let d = e.datetree_date->0@;
            &&& !exists|k: int| 0 <= k < d.len() && is_ws(#[trigger] d[k])
            &&& iso_date_of(d) is Some
        }
    } else {
        e.properties matches Some(ps) ==> forall|k: int| 0 <= k < ps@.len() ==> #[trigger] prop_ok(ps@, k)
    }
}

/// The first `k` checks pass.
pub open spec fn capture_ok_upto(c: OrgConfig, e: CaptureEntry, k: int) -> bool {
    forall|i: int| 1 <= i <= k ==> #[trigger] capture_check(c, e, i)
}

/// Check `k` is the first one to fail.
pub open spec fn capture_fails_at(c: OrgConfig, e: CaptureEntry, k: int) -> bool {
    capture_ok_upto(c, e, k - 1) && !capture_check(c, e, k)
}

pub open spec fn opt_ts_matches(o: Option<String>, t: Option<ParsedTimestamp>) -> bool {
    match o {
        Some(v) => t matches Some(ts) && ts_denotes(ts, ws_tokens(v@)),
        None => t is None,
    }
}


/// Whether `s` holds a whitespace character.
pub fn has_ws(s: &str) -> (res: bool)
    ensures
        res == exists|k: int| 0 <= k < s@.len() && is_ws(#[trigger] s@[k]),
{
    let v = chars_of(s);
    let mut i: usize = 0;
    while i < v.len()
        invariant
            v@ == s@,
            i <= v@.len(),
            forall|k: int| 0 <= k < i ==> !is_ws(#[trigger] v@[k]),
        decreases v@.len() - i,
    {
        if crate::text::char_is_ws(v[i]) {
            assert(is_ws(s@[i as int]));
            return true;
        }
        i = i + 1;
    }
    false
}

/// A copy of a list of property pairs.
pub fn clone_pairs(ps: &Vec<PropertyPair>) -> (res: Vec<PropertyPair>)
    ensures
        res@ == ps@,
{
    let mut out: Vec<PropertyPair> = Vec::new();
    let mut i: usize = 0;
    while i < ps.len()
        invariant
            i <= ps@.len(),
            out@ == ps@.take(i as int),
        decreases ps@.len() - i,
    {
        out.push(PropertyPair { key: ps[i].key.clone(), value: ps[i].value.clone() });
        proof { assert(out@ =~= ps@.take(i + 1)); }
        i = i + 1;
    }
    assert(ps@.take(ps@.len() as int) =~= ps@);
    out
}

fn parse_opt_ts(field: &str, o: &Option<String>) -> (res: Result<Option<ParsedTimestamp>, OrgModeError>)
    ensures
        res is Ok <==> ts_ok(*o),
        res matches Ok(t) ==> opt_ts_matches(*o, t) && (t matches Some(ts) ==> ts_renderable(ts)),
        res matches Err(e) ==> (e matches OrgModeError::InvalidTimestamp { field: f, value: v }
            && f@ == field@ && v@ == o->0@),
        res is Err ==> o is Some,
{
    match o {
        Some(v) => {
            match OrgMode::parse_iso_timestamp(field, v.as_str()) {
                Ok(t) => Ok(Some(t)),
                Err(e) => Err(e),
            }
        },
        None => Ok(None),
    }
}

impl OrgMode {
    /// Validates a capture request, checking in order: title, level, file
    /// path, target heading segments, TODO keyword, priority, tags,
    /// timestamps, datetree flag and date, and properties. `today` is the
    /// datetree day when none is given.
    #[verifier::loop_isolation(false)]
    pub fn validate_capture(&self, entry: &CaptureEntry, today: OrgDate) -> (res: Result<ValidCapture, OrgModeError>)
        requires
            calendar_valid(today),
        ensures
            ({
                let c = self.spec_config();
                let e = *entry;
                &&& capture_fails_at(c, e, 1) ==> (res matches Err(OrgModeError::InvalidTitle(m)) && m@ == "title must not be empty or whitespace-only"@)
                &&& capture_fails_at(c, e, 2) ==> (res matches Err(OrgModeError::InvalidTitle(m)) && m@ == "title must not contain newline or carriage return characters"@)
                &&& capture_fails_at(c, e, 3) ==> res == Err::<ValidCapture, OrgModeError>(OrgModeError::InvalidLevel(e.level->0))
                &&& capture_fails_at(c, e, 4) ==> (res matches Err(OrgModeError::InvalidDirectory(m)) && m@ == "absolute path not allowed: "@ + capture_file(c, e))
                &&& capture_fails_at(c, e, 5) ==> (res matches Err(OrgModeError::InvalidDirectory(m)) && m@ == "path traversal segment '..' not allowed: "@ + capture_file(c, e))
                &&& capture_fails_at(c, e, 6) ==> (res matches Err(OrgModeError::InvalidHeadingPath(m)) && m@ == "target_heading contains an empty or whitespace-only segment: '"@ + e.target_heading->0@ + "'"@)
                &&& capture_fails_at(c, e, 7) ==> (res matches Err(OrgModeError::InvalidTodoKeyword(k)) && k@ == e.todo_state->0@)
                &&& capture_fails_at(c, e, 8) ==> (res matches Err(OrgModeError::InvalidPriority(p)) && p@ == e.priority->0@)
                &&& capture_fails_at(c, e, 9) ==> (res matches Err(OrgModeError::InvalidTag(t)) && exists|i: int| 0 <= i < e.tags->0@.len() && !valid_tag(#[trigger] e.tags->0@[i]@) && t@ == e.tags->0@[i]@ && forall|j: int| 0 <= j < i ==> valid_tag(#[trigger] e.tags->0@[j]@))
                &&& capture_fails_at(c, e, 10) ==> (res matches Err(OrgModeError::InvalidTimestamp { field: f, value: v }) && f@ == "scheduled"@ && v@ == e.scheduled->0@)
                &&& capture_fails_at(c, e, 11) ==> (res matches Err(OrgModeError::InvalidTimestamp { field: f, value: v }) && f@ == "deadline"@ && v@ == e.deadline->0@)
                &&& capture_fails_at(c, e, 12) ==> (res matches Err(OrgModeError::InvalidTimestamp { field: f, value: v }) && f@ == "closed"@ && v@ == e.closed->0@)
                &&& capture_fails_at(c, e, 13) ==> res == Err::<ValidCapture, OrgModeError>(OrgModeError::DatetreeDateWithoutFlag)
                &&& capture_fails_at(c, e, 14) ==> (res matches Err(OrgModeError::InvalidDatetreeDate(d)) && d@ == e.datetree_date->0@)
                &&& capture_fails_at(c, e, 15) ==> exists|i: int| 0 <= i < e.properties->0@.len() && !prop_ok(e.properties->0@, i)
                    && (forall|j: int| 0 <= j < i ==> #[trigger] prop_ok(e.properties->0@, j)) && {
                        let p = e.properties->0@[i];
                        if !valid_prop_key(p.key@) {
                            res matches Err(OrgModeError::InvalidPropertyKey(k)) && k@ == p.key@
                        } else if has_nl(p.value@) {
                            res matches Err(OrgModeError::InvalidPropertyValue { key: k, reason: r }) && k@ == p.key@
                                && r@ == "value must not contain newline or carriage return"@
                        } else {
                            res matches Err(OrgModeError::DuplicatePropertyKey(k)) && k@ == p.key@
                        }
                    }
                &&& capture_ok_upto(c, e, 15) <==> res is Ok
                &&& res matches Ok(v) ==> {
                    &&& v.file_rel@ == capture_file(c, e)
                    &&& opt_ts_matches(e.scheduled, v.scheduled)
                    &&& opt_ts_matches(e.deadline, v.deadline)
                    &&& opt_ts_matches(e.closed, v.closed)
                    &&& (v.scheduled matches Some(t) ==> ts_renderable(t))
                    &&& (v.deadline matches Some(t) ==> ts_renderable(t))
                    &&& (v.closed matches Some(t) ==> ts_renderable(t))
                    &&& (if e.datetree {
                        v.datetree_date matches Some(d) && calendar_valid(d) && match e.datetree_date {
                            Some(s) => iso_date_of(s@) == Some(crate::timestamp::date_triple(d)),
                            None => d == today,
                        }
                    } else {
                        v.datetree_date is None
                    })
                    &&& v.properties@ == match e.properties {
                        Some(ps) => ps@,
                        None => Seq::empty(),
                    }
                }
            }),
    {
        let ghost c = self.spec_config();
        let ghost e = *entry;
        proof { self.lemma_spec_config(); }
        let file_rel: String = match &entry.file {
            Some(f) => f.clone(),
            None => self.config.org_default_notes_file.clone(),
        };
        if is_blank(entry.title.as_str()) {
            proof { assert(!capture_check(c, e, 1)); }
return Err(OrgModeError::InvalidTitle(String::from_str("title must not be empty or whitespace-only")));
        }
        if has_newline(entry.title.as_str()) {
            proof { assert(!capture_check(c, e, 2)); }
return Err(OrgModeError::InvalidTitle(String::from_str("title must not contain newline or carriage return characters")));
        }
        assert(capture_ok_upto(c, e, 2));
        match entry.level {
            Some(l) => {
                if !(1 <= l && l <= MAX_HEADING_LEVEL) {
                    proof { assert(!capture_check(c, e, 3)); }
return Err(OrgModeError::InvalidLevel(l));
                }
            },
            None => {},
        }
        assert(capture_ok_upto(c, e, 3));
        match Self::validate_relative_file_path(file_rel.as_str()) {
            Ok(()) => {},
            Err(err) => {
                proof { assert(!capture_check(c, e, 4) || !capture_check(c, e, 5)); }
                return Err(err);
            },
        }
        assert(capture_ok_upto(c, e, 5));
        match &entry.target_heading {
            Some(t) => {
                let segs = split_char(t.as_str(), '/');
                let mut i: usize = 0;
                while i < segs.len()
                    invariant
                        views_of(segs@) == split_on(t@, '/'),
                        i <= segs@.len(),
                        forall|k: int| 0 <= k < i ==> !all_ws(#[trigger] split_on(t@, '/')[k]),
                    decreases segs@.len() - i,
                {
                    let seg = string_of(segs[i].as_slice());
                    assert(seg@ == split_on(t@, '/')[i as int]);
                    if is_blank(seg.as_str()) {
                        let m = concat3("target_heading contains an empty or whitespace-only segment: '", t.as_str(), "'");
                        proof { assert(!capture_check(c, e, 6)); }
return Err(OrgModeError::InvalidHeadingPath(m));
                    }
                    i = i + 1;
                }
            },
            None => {},
        }
        assert(capture_ok_upto(c, e, 6));
        match &entry.todo_state {
            Some(k) => {
                if !keyword_is_allowed(self.config.org_todo_keywords.as_slice(), k.as_str()) {
                    proof { assert(!capture_check(c, e, 7)); }
return Err(OrgModeError::InvalidTodoKeyword(k.clone()));
                }
            },
            None => {},
        }
        assert(capture_ok_upto(c, e, 7));
        match &entry.priority {
            Some(p) => {
                if !priority_is_allowed(p.as_str()) {
                    proof { assert(!capture_check(c, e, 8)); }
return Err(OrgModeError::InvalidPriority(p.clone()));
                }
            },
            None => {},
        }
        assert(capture_ok_upto(c, e, 8));
        match &entry.tags {
            Some(ts) => {
                let mut i: usize = 0;
                while i < ts.len()
                    invariant
                        i <= ts@.len(),
                        forall|k: int| 0 <= k < i ==> valid_tag(#[trigger] ts@[k]@),
                    decreases ts@.len() - i,
                {
                    if !is_valid_tag(ts[i].as_str()) {
                        proof {
                            assert(!capture_check(c, e, 9));
                            assert(!valid_tag(e.tags->0@[i as int]@));
                        }
return Err(OrgModeError::InvalidTag(ts[i].clone()));
                    }
                    i = i + 1;
                }
            },
            None => {},
        }
        assert(capture_ok_upto(c, e, 9));
        let scheduled = match parse_opt_ts("scheduled", &entry.scheduled) {
            Ok(t) => t,
            Err(err) => { proof { assert(!capture_check(c, e, 10)); } return Err(err); },
        };
        assert(capture_ok_upto(c, e, 10));
        let deadline = match parse_opt_ts("deadline", &entry.deadline) {
            Ok(t) => t,
            Err(err) => { proof { assert(!capture_check(c, e, 11)); } return Err(err); },
        };
        assert(capture_ok_upto(c, e, 11));
        let closed = match parse_opt_ts("closed", &entry.closed) {
            Ok(t) => t,
            Err(err) => { proof { assert(!capture_check(c, e, 12)); } return Err(err); },
        };
        assert(capture_ok_upto(c, e, 12));
        if entry.datetree_date.is_some() && !entry.datetree {
            proof { assert(!capture_check(c, e, 13)); }
return Err(OrgModeError::DatetreeDateWithoutFlag);
        }
        assert(capture_ok_upto(c, e, 13));
        let datetree_date: Option<OrgDate> = if entry.datetree {
            match &entry.datetree_date {
                Some(s) => {
                    if has_ws(s.as_str()) {
                        proof { assert(!capture_check(c, e, 14)); }
                        return Err(OrgModeError::InvalidDatetreeDate(s.clone()));
                    }
                    match parse_iso_date(s.as_str()) {
                        Some(d) => Some(d),
                        None => {
                            proof { assert(!capture_check(c, e, 14)); }
                            return Err(OrgModeError::InvalidDatetreeDate(s.clone()));
                        },
                    }
                },
                None => Some(today),
            }
        } else {
            None
        };
        assert(capture_ok_upto(c, e, 14));
        let properties: Vec<PropertyPair> = match &entry.properties {
            Some(ps) => {
                let mut uppers: Vec<String> = Vec::new();
                let mut i: usize = 0;
                while i < ps.len()
                    invariant
                        i <= ps@.len(),
                        uppers@.len() == i,
                        forall|k: int| 0 <= k < i ==> #[trigger] prop_ok(ps@, k),
                        forall|k: int| 0 <= k < i ==> #[trigger] uppers@[k]@ == upper_of(ps@[k].key@),
                        ps@ == e.properties->0@,
                        capture_ok_upto(c, e, 14),
                    decreases ps@.len() - i,
                {
                    let p = &ps[i];
                    if !is_valid_property_key(p.key.as_str()) {
                        proof {
                            assert(!prop_ok(ps@, i as int));
                            assert(!capture_check(c, e, 15));
                            assert(!prop_ok(e.properties->0@, i as int));
                        }
                        return Err(OrgModeError::InvalidPropertyKey(p.key.clone()));
                    }
                    if has_newline(p.value.as_str()) {
                        proof {
                            assert(!prop_ok(ps@, i as int));
                            assert(!capture_check(c, e, 15));
                            assert(!prop_ok(e.properties->0@, i as int));
                        }
                        return Err(OrgModeError::InvalidPropertyValue {
                            key: p.key.clone(),
                            reason: String::from_str("value must not contain newline or carriage return"),
                        });
                    }
                    let up = to_upper(p.key.as_str());
                    if contains_text(uppers.as_slice(), &up) {
                        proof {
                            let j = choose|j: int| 0 <= j < uppers@.len() && #[trigger] uppers@[j]@ == up@;
                            assert(upper_of(ps@[j].key@) == upper_of(ps@[i as int].key@));
                            assert(!prop_ok(ps@, i as int));
                            assert(!capture_check(c, e, 15));
                        }
                        return Err(OrgModeError::DuplicatePropertyKey(p.key.clone()));
                    }
                    proof {
                        assert forall|j: int| 0 <= j < i implies upper_of(#[trigger] ps@[j].key@) != upper_of(ps@[i as int].key@) by {
                            if upper_of(ps@[j].key@) == upper_of(ps@[i as int].key@) {
                                assert(uppers@[j]@ == up@);
                            }
                        }
                        assert(prop_ok(ps@, i as int));
                    }
                    uppers.push(up);
                    i = i + 1;
                }
                clone_pairs(ps)
            },
            None => Vec::new(),
        };
        assert(capture_ok_upto(c, e, 15));
        Ok(ValidCapture { file_rel, scheduled, deadline, closed, datetree_date, properties })
    }
}

} // verus!
