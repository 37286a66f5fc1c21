//! Settings of the MCP server and the requests its tools take.
use vstd::prelude::*;
use crate::capture::PropertyPair;
use crate::config::{OrgConfig, LoggingConfig};
use crate::text::{chars_of, string_of, str_eq, concat3};
use crate::capture::{to_upper, upper_of};
use crate::tasks::Priority;

verus! {

/// Server settings.
#[derive(Debug, Clone)]
pub struct ServerConfig {
    pub max_connections: usize,
}

/// The default connection limit.
pub fn default_max_connections() -> (res: usize)
    ensures
        res == 10,
{
    10
}

impl Default for ServerConfig {
    fn default() -> (res: ServerConfig)
        ensures
            res.max_connections == 10,
    {
        ServerConfig { max_connections: default_max_connections() }
    }
}

/// The whole server configuration: org, server and logging settings.
#[derive(Debug, Clone)]
pub struct ServerAppConfig {
    pub org: OrgConfig,
    pub server: ServerConfig,
    pub logging: LoggingConfig,
}

/// `p` with every backslash turned into a slash.
pub open spec fn slashes(p: Seq<char>) -> Seq<char> {
    p.map_values(|c: char| if c == '\\' { '/' } else { c })
}

/// A path for use in configuration files: backslashes become slashes.
pub fn normalize_path(path: &str) -> (res: String)
    ensures
        res@ == slashes(path@),
{
    let v = chars_of(path);
    let mut out: Vec<char> = Vec::new();
    let mut i: usize = 0;
    while i < v.len()
        invariant
            v@ == path@,
            i <= v@.len(),
            out@ == slashes(v@.take(i as int)),
        decreases v@.len() - i,
    {
        let c = v[i];
        out.push(if c == '\\' { '/' } else { c });
        proof { assert(out@ =~= slashes(v@.take(i + 1))); }
        i = i + 1;
    }
    proof { assert(v@.take(v@.len() as int) =~= v@); }
    string_of(out.as_slice())
}

/// An agenda query: a date range for the view mode, filters, a limit and
/// the mode (`list` or `view`).
#[derive(Debug, Clone)]
pub struct AgendaRequest {
    pub start_date: Option<String>,
    pub end_date: Option<String>,
    pub todo_states: Option<Vec<String>>,
    pub tags: Option<Vec<String>>,
    pub priority: Option<String>,
    pub limit: Option<usize>,
    pub mode: Option<String>,
}

/// How an agenda query answers: every task, or the tasks of a date view.
#[derive(Debug, Clone, Copy, PartialEq, Eq, Structural)]
pub enum AgendaMode {
    List,
    View,
}

impl AgendaRequest {
    /// The priority to filter by: none when the request names none, else
    /// `A`, `B` or `C` read after uppercasing; any other text is refused.
    pub fn priority_filter(&self) -> (res: Result<Option<Priority>, String>)
        ensures
            match self.priority {
                None => res == Ok::<Option<Priority>, String>(None),
                Some(p) => {
                    let u = upper_of(p@);
                    if u == "A"@ {
                        res == Ok::<Option<Priority>, String>(Some(Priority::A))
                    } else if u == "B"@ {
                        res == Ok::<Option<Priority>, String>(Some(Priority::B))
                    } else if u == "C"@ {
                        res == Ok::<Option<Priority>, String>(Some(Priority::C))
                    } else {
                        res matches Err(m) && m@ == "Invalid priority '"@ + p@ + "'. Must be A, B, or C."@
                    }
                },
            },
    {
        match &self.priority {
            None => Ok(None),
            Some(p) => {
                let u = to_upper(p.as_str());
                if str_eq(u.as_str(), "A") {
                    Ok(Some(Priority::A))
                } else if str_eq(u.as_str(), "B") {
                    Ok(Some(Priority::B))
                } else if str_eq(u.as_str(), "C") {
                    Ok(Some(Priority::C))
                } else {
                    Err(concat3("Invalid priority '", p.as_str(), "'. Must be A, B, or C."))
                }
            },
        }
    }

    /// The answer mode: `list` when the request names none, `list` or
    /// `view` as named; any other text is refused.
    pub fn agenda_mode(&self) -> (res: Result<AgendaMode, String>)
        ensures
            match self.mode {
                None => res == Ok::<AgendaMode, String>(AgendaMode::List),
                Some(m) => if m@ == "list"@ {
                    res == Ok::<AgendaMode, String>(AgendaMode::List)
                } else if m@ == "view"@ {
                    res == Ok::<AgendaMode, String>(AgendaMode::View)
                } else {
                    res matches Err(e) && e@ == "Invalid mode '"@ + m@ + "'. Must be 'list' or 'view'."@
                },
            },
    {
        match &self.mode {
            None => Ok(AgendaMode::List),
            Some(m) => {
                if str_eq(m.as_str(), "list") {
                    Ok(AgendaMode::List)
                } else if str_eq(m.as_str(), "view") {
                    Ok(AgendaMode::View)
                } else {
                    Err(concat3("Invalid mode '", m.as_str(), "'. Must be 'list' or 'view'."))
                }
            },
        }
    }
}

/// One property drawer entry of a capture request.
#[derive(Debug, Clone)]
pub struct PropertyPairRequest {
    pub key: String,
    pub value: String,
}

impl PropertyPairRequest {
    /// The property pair the request names.
    pub fn to_pair(self) -> (res: PropertyPair)
        ensures
            res.key == self.key,
            res.value == self.value,
    {
        PropertyPair { key: self.key, value: self.value }
    }
}

/// A capture request as the capture tool takes it.
#[derive(Debug, Clone)]
pub struct CaptureRequest {
    pub title: String,
    pub level: Option<usize>,
    pub todo_state: Option<String>,
    pub tags: Option<Vec<String>>,
    pub priority: Option<String>,
    pub body: Option<String>,
    pub file: Option<String>,
    pub target_heading: Option<String>,
    pub scheduled: Option<String>,
    pub deadline: Option<String>,
    pub closed: Option<String>,
    pub properties: Option<Vec<PropertyPairRequest>>,
    pub datetree: bool,
    pub datetree_date: Option<String>,
}

/// An update request as the update tool takes it; `clear` lists field
/// names.
#[derive(Debug, Clone)]
pub struct UpdateTodoRequest {
    pub id: Option<String>,
    pub file: Option<String>,
    pub heading_path: Option<String>,
    pub todo_state: Option<String>,
    pub priority: Option<String>,
    pub tags: Option<Vec<String>>,
    pub scheduled: Option<String>,
    pub deadline: Option<String>,
    pub closed: Option<String>,
    pub clear: Option<Vec<String>>,
}

} // verus!
