use vstd::prelude::*;
use crate::agenda::{dec_text, push_decimal};
use crate::text::{concat, concat3};

verus! {

/// Errors reported by the library. Errors that originate in the file system
/// or an outside crate carry that error's message.
#[derive(Debug, Clone, PartialEq, Eq)]
pub enum OrgModeError {
    InvalidDirectory(String),
    InvalidHeadingPath(String),
    InvalidElementId(String),
    InvalidAgendaViewType(String),
    WalkError(String),
    GlobError(String),
    IoError(String),
    ShellExpansionError(String),
    ConfigError(String),
    InvalidTodoKeyword(String),
    InvalidPriority(String),
    InvalidTitle(String),
    InvalidLevel(usize),
    InvalidTag(String),
    InvalidTimestamp { field: String, value: String },
    InvalidPropertyKey(String),
    InvalidPropertyValue { key: String, reason: String },
    DuplicatePropertyKey(String),
    InvalidDatetreeDate(String),
    DatetreeDateWithoutFlag,
    InvalidUpdate(String),
    HeadingNotFound(String),
    AmbiguousTarget(String),
}

/// The message of an error (what `Display` writes for it).
pub open spec fn error_message(e: OrgModeError) -> Seq<char> {
    match e {
        OrgModeError::InvalidDirectory(p) => "Invalid or inaccessible directory: "@ + p@,
        OrgModeError::InvalidHeadingPath(p) => "Invalid heading path: "@ + p@,
        OrgModeError::InvalidElementId(id) => "Invalid element id: "@ + id@,
        OrgModeError::InvalidAgendaViewType(i) => "Invalid agenda view type: "@ + i@,
        OrgModeError::WalkError(m) => "Error walking directory: "@ + m@,
        OrgModeError::GlobError(m) => "Error with glob pattern: "@ + m@,
        OrgModeError::IoError(m) => "IO error: "@ + m@,
        OrgModeError::ShellExpansionError(p) => "Failed to expand path: "@ + p@,
        OrgModeError::ConfigError(m) => "Configuration error: "@ + m@,
        OrgModeError::InvalidTodoKeyword(k) => "Invalid TODO keyword: "@ + k@,
        OrgModeError::InvalidPriority(p) => "Invalid priority: "@ + p@,
        OrgModeError::InvalidTitle(r) => "Invalid heading title: "@ + r@,
        OrgModeError::InvalidLevel(l) => "Invalid heading level: "@ + dec_text(l as nat) + " (must be 1..=19)"@,
        OrgModeError::InvalidTag(t) => "Invalid tag '"@ + t@ + "': tags must match [A-Za-z0-9_@]+"@,
        OrgModeError::InvalidTimestamp { field, value } => "Invalid timestamp for "@ + field@ + ": '"@ + value@
            + "', expected YYYY-MM-DD or YYYY-MM-DD HH:MM"@,
        OrgModeError::InvalidPropertyKey(k) => "Invalid property key '"@ + k@ + "': must be non-empty and contain only [A-Za-z0-9_-]"@,
        OrgModeError::InvalidPropertyValue { key, reason } => "Invalid property value for key '"@ + key@ + "': "@ + reason@,
        OrgModeError::DuplicatePropertyKey(k) => "Duplicate property key: '"@ + k@ + "'"@,
        OrgModeError::InvalidDatetreeDate(v) => "Invalid datetree date '"@ + v@ + "': expected YYYY-MM-DD"@,
        OrgModeError::DatetreeDateWithoutFlag => "Datetree date specified without enabling datetree"@,
        OrgModeError::InvalidUpdate(m) => "Invalid update: "@ + m@,
        OrgModeError::HeadingNotFound(t) => "Heading not found: "@ + t@,
        OrgModeError::AmbiguousTarget(t) => "Ambiguous target: "@ + t@,
    }
}

impl OrgModeError {
    /// The error's message.
    pub fn message(&self) -> (res: String)
        ensures
            res@ == error_message(*self),
    {
        match self {
            OrgModeError::InvalidDirectory(p) => concat("Invalid or inaccessible directory: ", p.as_str()),
            OrgModeError::InvalidHeadingPath(p) => concat("Invalid heading path: ", p.as_str()),
            OrgModeError::InvalidElementId(id) => concat("Invalid element id: ", id.as_str()),
            OrgModeError::InvalidAgendaViewType(i) => concat("Invalid agenda view type: ", i.as_str()),
            OrgModeError::WalkError(m) => concat("Error walking directory: ", m.as_str()),
            OrgModeError::GlobError(m) => concat("Error with glob pattern: ", m.as_str()),
            OrgModeError::IoError(m) => concat("IO error: ", m.as_str()),
            OrgModeError::ShellExpansionError(p) => concat("Failed to expand path: ", p.as_str()),
            OrgModeError::ConfigError(m) => concat("Configuration error: ", m.as_str()),
            OrgModeError::InvalidTodoKeyword(k) => concat("Invalid TODO keyword: ", k.as_str()),
            OrgModeError::InvalidPriority(p) => concat("Invalid priority: ", p.as_str()),
            OrgModeError::InvalidTitle(r) => concat("Invalid heading title: ", r.as_str()),
            OrgModeError::InvalidLevel(l) => {
                let mut s = String::from_str("Invalid heading level: ");
                push_decimal(&mut s, *l as u64);
                s.append(" (must be 1..=19)");
                s
            },
            OrgModeError::InvalidTag(t) => concat3("Invalid tag '", t.as_str(), "': tags must match [A-Za-z0-9_@]+"),
            OrgModeError::InvalidTimestamp { field, value } => {
                let mut s = concat3("Invalid timestamp for ", field.as_str(), ": '");
                s.append(value.as_str());
                s.append("', expected YYYY-MM-DD or YYYY-MM-DD HH:MM");
                s
            },
            OrgModeError::InvalidPropertyKey(k) => concat3("Invalid property key '", k.as_str(), "': must be non-empty and contain only [A-Za-z0-9_-]"),
            OrgModeError::InvalidPropertyValue { key, reason } => {
                let mut s = concat3("Invalid property value for key '", key.as_str(), "': ");
                s.append(reason.as_str());
                s
            },
            OrgModeError::DuplicatePropertyKey(k) => concat3("Duplicate property key: '", k.as_str(), "'"),
            OrgModeError::InvalidDatetreeDate(v) => concat3("Invalid datetree date '", v.as_str(), "': expected YYYY-MM-DD"),
            OrgModeError::DatetreeDateWithoutFlag => String::from_str("Datetree date specified without enabling datetree"),
            OrgModeError::InvalidUpdate(m) => concat("Invalid update: ", m.as_str()),
            OrgModeError::HeadingNotFound(t) => concat("Heading not found: ", t.as_str()),
            OrgModeError::AmbiguousTarget(t) => concat("Ambiguous target: ", t.as_str()),
        }
    }
}

} // verus!
