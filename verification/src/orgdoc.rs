//! The parts of a parsed org document that the library reads, as plain
//! values. Parsing is done by `orgize`.
use vstd::prelude::*;

verus! {

/// The planning line of a headline: its byte span and raw timestamps.
#[derive(Debug, Clone)]
pub struct OrgPlanning {
    pub start: usize,
    pub end: usize,
    pub scheduled: Option<String>,
    pub deadline: Option<String>,
    pub closed: Option<String>,
}

/// A property drawer: its byte span and key/value pairs in order.
#[derive(Debug, Clone)]
pub struct OrgDrawer {
    pub start: usize,
    pub end: usize,
    pub pairs: Vec<(String, String)>,
}

/// The unit of a timestamp's repeater.
#[derive(Debug, Clone, Copy, PartialEq, Eq, Structural)]
pub enum RepeatUnit {
    Hour,
    Day,
    Week,
    Month,
    Year,
}

/// A timestamp as written: where it starts, whether it is active, the
/// texts of its start date and time, and its repeater.
#[derive(Debug, Clone)]
pub struct OrgTimestamp {
    pub start: usize,
    pub active: bool,
    pub year: Option<String>,
    pub month: Option<String>,
    pub day: Option<String>,
    pub hour: Option<String>,
    pub minute: Option<String>,
    pub repeater_value: Option<u32>,
    pub repeater_unit: Option<RepeatUnit>,
}

/// One headline of a parsed document.
#[derive(Debug, Clone)]
pub struct OrgHeadline {
    /// Number of leading stars.
    pub level: usize,
    /// The title text as written, including a trailing space before tags.
    pub title_raw: String,
    /// Byte offset where the headline starts.
    pub start: usize,
    /// Byte offset where the headline's subtree ends.
    pub end: usize,
    /// The text of the headline's subtree.
    pub raw: String,
    pub keyword: Option<String>,
    pub is_todo: bool,
    pub is_done: bool,
    pub priority: Option<String>,
    pub tags: Vec<String>,
    pub planning: Option<OrgPlanning>,
    pub properties: Option<OrgDrawer>,
    pub scheduled_ts: Option<OrgTimestamp>,
    pub deadline_ts: Option<OrgTimestamp>,
    /// Every timestamp in the headline's subtree, in document order.
    pub timestamps: Vec<OrgTimestamp>,
}

/// The document-level data: its text and the property drawer before the
/// first headline.
#[derive(Debug, Clone)]
pub struct OrgDocument {
    pub raw: String,
    pub properties: Option<OrgDrawer>,
}

/// The headlines that `orgize` finds in `content`, in document order, with
/// `todo` and `done` as the unfinished and finished keywords.
pub uninterp spec fn parsed_headlines(content: Seq<char>, todo: Seq<Seq<char>>, done: Seq<Seq<char>>) -> Seq<OrgHeadline>;

/// The document node that `orgize` finds in `content`.
pub uninterp spec fn parsed_document(content: Seq<char>) -> OrgDocument;

#[verifier::external_type_specification]
#[verifier::external_body]
pub struct ExHeadline(orgize::ast::Headline);

#[verifier::external_type_specification]
#[verifier::external_body]
pub struct ExPlanning(orgize::ast::Planning);

#[verifier::external_type_specification]
#[verifier::external_body]
pub struct ExPropertyDrawer(orgize::ast::PropertyDrawer);

#[verifier::external_type_specification]
#[verifier::external_body]
pub struct ExTimestamp(orgize::ast::Timestamp);

#[verifier::external_type_specification]
#[verifier::external_body]
pub struct ExTimeUnit(orgize::ast::TimeUnit);

/// Reads the position and text fields of an `orgize` headline (`level`,
/// `title_raw`, `start`, `end`, `raw`). Nothing is claimed of the result
/// here; the caller's name covers it.
#[verifier::external_body]
fn headline_text_data(h: &orgize::ast::Headline) -> (usize, String, usize, usize, String) {
    (h.level(), h.title_raw(), h.start().into(), h.end().into(), h.raw())
}

/// Reads the keyword fields of an `orgize` headline (`todo_keyword`,
/// `is_todo`, `is_done`, `priority`, `tags`). Nothing is claimed of the
/// result here.
#[verifier::external_body]
fn headline_todo_data(h: &orgize::ast::Headline) -> (Option<String>, bool, bool, Option<String>, Vec<String>) {
    (
        h.todo_keyword().map(|t| t.as_ref().to_string()),
        h.is_todo(),
        h.is_done(),
        h.priority().map(|t| t.as_ref().to_string()),
        h.tags().map(|t| t.as_ref().to_string()).collect(),
    )
}

/// Reads the planning, property drawer, SCHEDULED and DEADLINE timestamps
/// of an `orgize` headline. Nothing is claimed of the result here.
#[verifier::external_body]
fn headline_parts_data(h: &orgize::ast::Headline) -> (Option<OrgPlanning>, Option<OrgDrawer>, Option<OrgTimestamp>, Option<OrgTimestamp>) {
    (
        h.planning().map(planning_data),
        h.properties().map(drawer_data),
        h.scheduled().map(timestamp_data),
        h.deadline().map(timestamp_data),
    )
}

/// Reads every timestamp node in an `orgize` headline's subtree, in
/// document order. Nothing is claimed of the result here.
#[verifier::external_body]
fn headline_timestamps(h: &orgize::ast::Headline) -> Vec<OrgTimestamp> {
    let nodes = orgize::rowan::ast::AstNode::syntax(h).descendants();
    nodes.filter_map(<orgize::ast::Timestamp as orgize::rowan::ast::AstNode>::cast).map(timestamp_data).collect()
}

/// Reads an `orgize` timestamp: its start offset, `is_active`, the start
/// date and time texts and the repeater. Nothing is claimed of the result
/// here.
#[verifier::external_body]
fn timestamp_data(t: orgize::ast::Timestamp) -> OrgTimestamp {
    OrgTimestamp {
        start: orgize::rowan::ast::AstNode::syntax(&t).text_range().start().into(),
        active: t.is_active(),
        year: t.year_start().map(|x| x.as_ref().to_string()),
        month: t.month_start().map(|x| x.as_ref().to_string()),
        day: t.day_start().map(|x| x.as_ref().to_string()),
        hour: t.hour_start().map(|x| x.as_ref().to_string()),
        minute: t.minute_start().map(|x| x.as_ref().to_string()),
        repeater_value: t.repeater_value(),
        repeater_unit: t.repeater_unit().map(unit_data),
    }
}

/// Reads an `orgize` time unit. Nothing is claimed of the result here.
#[verifier::external_body]
fn unit_data(u: orgize::ast::TimeUnit) -> RepeatUnit {
    match u {
        orgize::ast::TimeUnit::Hour => RepeatUnit::Hour,
        orgize::ast::TimeUnit::Day => RepeatUnit::Day,
        orgize::ast::TimeUnit::Week => RepeatUnit::Week,
        orgize::ast::TimeUnit::Month => RepeatUnit::Month,
        orgize::ast::TimeUnit::Year => RepeatUnit::Year,
    }
}

/// Gathers what the library reads of one `orgize` headline into one
/// record: the position and text fields, the keyword fields, the planning,
/// drawer and planning timestamps, and the subtree's timestamps.
fn headline_data(
    text: (usize, String, usize, usize, String),
    todo: (Option<String>, bool, bool, Option<String>, Vec<String>),
    parts: (Option<OrgPlanning>, Option<OrgDrawer>, Option<OrgTimestamp>, Option<OrgTimestamp>),
    timestamps: Vec<OrgTimestamp>,
) -> (res: OrgHeadline)
    ensures
        res == (OrgHeadline {
            level: text.0,
            title_raw: text.1,
            start: text.2,
            end: text.3,
            raw: text.4,
            keyword: todo.0,
            is_todo: todo.1,
            is_done: todo.2,
            priority: todo.3,
            tags: todo.4,
            planning: parts.0,
            properties: parts.1,
            scheduled_ts: parts.2,
            deadline_ts: parts.3,
            timestamps,
        }),
{
    let (level, title_raw, start, end, raw) = text;
    let (keyword, is_todo, is_done, priority, tags) = todo;
    let (planning, properties, scheduled_ts, deadline_ts) = parts;
    OrgHeadline {
        level, title_raw, start, end, raw, keyword, is_todo, is_done, priority, tags,
        planning, properties, scheduled_ts, deadline_ts, timestamps,
    }
}

/// Reads an `orgize` planning line: its span (`start`, `end`) and the raw
/// text of its `scheduled`, `deadline` and `closed` timestamps. Nothing is
/// claimed of the result here.
#[verifier::external_body]
fn planning_data(p: orgize::ast::Planning) -> OrgPlanning {
    OrgPlanning {
        start: p.start().into(),
        end: p.end().into(),
        scheduled: p.scheduled().map(|t| t.raw()),
        deadline: p.deadline().map(|t| t.raw()),
        closed: p.closed().map(|t| t.raw()),
    }
}

/// Reads an `orgize` property drawer: the span of its syntax node and its
/// (key, value) pairs from `iter`. Nothing is claimed of the result here.
#[verifier::external_body]
fn drawer_data(d: orgize::ast::PropertyDrawer) -> OrgDrawer {
    let range = orgize::rowan::ast::AstNode::syntax(&d).text_range();
    OrgDrawer {
        start: range.start().into(),
        end: range.end().into(),
        pairs: d.iter().map(|(k, v)| (k.as_ref().to_string(), v.as_ref().to_string())).collect(),
    }
}

/// Parses `content` with `orgize` (`ParseConfig::parse` with `todo` and
/// `done` as the TODO keywords) and lists every headline in document order.
/// Claimed: the result is the named parse of these arguments.
#[verifier::external_body]
pub fn parse_headlines(content: &str, todo: Vec<String>, done: Vec<String>) -> (res: Vec<OrgHeadline>)
    ensures
        res@ == parsed_headlines(content@, crate::text::string_views(todo@), crate::text::string_views(done@)),
{
    let cfg = orgize::ParseConfig { todo_keywords: (todo, done), ..Default::default() };
    let doc = cfg.parse(content).document();
    let nodes = orgize::rowan::ast::AstNode::syntax(&doc).descendants();
    nodes.filter_map(<orgize::ast::Headline as orgize::rowan::ast::AstNode>::cast).map(|h| {
        headline_data(headline_text_data(&h), headline_todo_data(&h), headline_parts_data(&h), headline_timestamps(&h))
    }).collect()
}

/// Parses `content` with `orgize`'s default configuration and reads the
/// document node: its text (`raw`) and top-level property drawer. Claimed:
/// the result is the named parse of `content`.
#[verifier::external_body]
pub fn parse_document(content: &str) -> (res: OrgDocument)
    ensures
        res == parsed_document(content@),
{
    let doc = orgize::Org::parse(content).document();
    OrgDocument { raw: doc.raw(), properties: doc.properties().map(drawer_data) }
}

} // verus!
