//! Org-mode configuration: the settings with their defaults, the split of the
//! TODO keyword list into unfinished and finished states, and validation.
use vstd::prelude::*;
use crate::error::OrgModeError;
use crate::text::{concat, is_single, one};

verus! {

/// Core org-mode configuration settings.
#[derive(Debug, Clone)]
pub struct OrgConfig {
    pub org_directory: String,
    pub org_default_notes_file: String,
    pub org_agenda_files: Vec<String>,
    pub org_agenda_text_search_extra_files: Vec<String>,
    pub org_todo_keywords: Vec<String>,
    /// Stamp a `CREATED` property on captured headings.
    pub org_auto_created_property: bool,
    /// Stamp and drop `CLOSED` on done / reactivation transitions.
    pub org_auto_closed_timestamp: bool,
}

/// Logging configuration (shared across CLI and server).
#[derive(Debug, Clone)]
pub struct LoggingConfig {
    pub level: String,
    pub file: String,
}

/// The keyword that separates unfinished from finished TODO states.
pub open spec fn is_sep(s: String) -> bool {
    s@ == one('|')
}

/// Index of the first `|` in the keyword list, if any.
pub open spec fn sep_index(k: Seq<String>) -> Option<int> {
    if exists|i: int| 0 <= i < k.len() && is_sep(#[trigger] k[i]) {
        Some(choose|i: int| 0 <= i < k.len() && is_sep(#[trigger] k[i]) && forall|j: int|
            0 <= j < i ==> !is_sep(#[trigger] k[j]))
    } else {
        None
    }
}

/// Keywords before the first `|`; without a separator, all but the last.
pub open spec fn spec_unfinished(k: Seq<String>) -> Seq<String> {
    match sep_index(k) {
        Some(p) => k.take(p),
        None => k.take(k.len() - 1),
    }
}

/// Keywords after the first `|`; without a separator, only the last one.
pub open spec fn spec_finished(k: Seq<String>) -> Seq<String> {
    match sep_index(k) {
        Some(p) => k.skip(p + 1),
        None => if k.len() == 0 { Seq::empty() } else { seq![k.last()] },
    }
}

/// Number of `|` separators in the keyword list.
pub open spec fn sep_count(k: Seq<String>) -> nat
    decreases k.len(),
{
    if k.len() == 0 {
        0
    } else {
        sep_count(k.drop_last()) + if is_sep(k.last()) { 1nat } else { 0nat }
    }
}

proof fn lemma_sep_index_first(k: Seq<String>, p: int)
    requires
        0 <= p < k.len(),
        is_sep(k[p]),
        forall|j: int| 0 <= j < p ==> !is_sep(#[trigger] k[j]),
    ensures
        sep_index(k) == Some(p),
{
    let q = choose|i: int| 0 <= i < k.len() && is_sep(#[trigger] k[i]) && forall|j: int|
        0 <= j < i ==> !is_sep(#[trigger] k[j]);
    assert(0 <= p < k.len() && is_sep(k[p]) && forall|j: int| 0 <= j < p ==> !is_sep(#[trigger] k[j]));
    if q < p {
        assert(!is_sep(k[q]));
    }
    if p < q {
        assert(!is_sep(k[p]));
    }
}

/// Finds the first separator.
fn find_sep(k: &Vec<String>) -> (res: Option<usize>)
    ensures
        match res {
            Some(p) => p < k@.len() && sep_index(k@) == Some(p as int),
            None => sep_index(k@) is None,
        },
{
    let mut i: usize = 0;
    while i < k.len()
        invariant
            i <= k@.len(),
            forall|j: int| 0 <= j < i ==> !is_sep(#[trigger] k@[j]),
        decreases k@.len() - i,
    {
        if is_single(k[i].as_str(), '|') {
            proof { lemma_sep_index_first(k@, i as int); }
            return Some(i);
        }
        i = i + 1;
    }
    None
}

fn slice_to_vec(k: &Vec<String>, from: usize, to: usize) -> (res: Vec<String>)
    requires
        from <= to <= k@.len(),
    ensures
        res@ == k@.subrange(from as int, to as int),
{
    let mut out: Vec<String> = Vec::new();
    let mut i = from;
    while i < to
        invariant
            from <= i <= to <= k@.len(),
            out@ == k@.subrange(from as int, i as int),
        decreases to - i,
    {
        out.push(k[i].clone());
        proof {
            assert(k@.subrange(from as int, i + 1) =~= k@.subrange(from as int, i as int).push(k@[i as int]));
        }
        i = i + 1;
    }
    out
}

pub fn default_org_directory() -> (res: String)
    ensures
        res@ == "~/org/"@,
{
    String::from_str("~/org/")
}

pub fn default_notes_file() -> (res: String)
    ensures
        res@ == "notes.org"@,
{
    String::from_str("notes.org")
}

pub fn default_agenda_files() -> (res: Vec<String>)
    ensures
        res@.len() == 1,
        res@[0]@ == "agenda.org"@,
{
    let mut v = Vec::new();
    v.push(String::from_str("agenda.org"));
    v
}

pub fn default_todo_keywords() -> (res: Vec<String>)
    ensures
        res@.len() == 3,
        res@[0]@ == "TODO"@,
        res@[1]@ == one('|'),
        res@[2]@ == "DONE"@,
{
    let mut v = Vec::new();
    v.push(String::from_str("TODO"));
    let mut bar = String::new();
    crate::text::push_char(&mut bar, '|');
    v.push(bar);
    v.push(String::from_str("DONE"));
    v
}

pub fn default_log_level() -> (res: String)
    ensures
        res@ == "info"@,
{
    String::from_str("info")
}

pub fn default_log_file() -> (res: String)
    ensures
        res@ == "~/.local/share/org-mcp-server/logs/server.log"@,
{
    String::from_str("~/.local/share/org-mcp-server/logs/server.log")
}

/// The configuration that holds every default.
pub open spec fn is_default_org_config(c: OrgConfig) -> bool {
    &&& c.org_directory@ == "~/org/"@
    &&& c.org_default_notes_file@ == "notes.org"@
    &&& c.org_agenda_files@.len() == 1
    &&& c.org_agenda_files@[0]@ == "agenda.org"@
    &&& c.org_agenda_text_search_extra_files@.len() == 0
    &&& c.org_todo_keywords@.len() == 3
    &&& c.org_todo_keywords@[0]@ == "TODO"@
    &&& c.org_todo_keywords@[1]@ == one('|')
    &&& c.org_todo_keywords@[2]@ == "DONE"@
    &&& c.org_auto_created_property
    &&& c.org_auto_closed_timestamp
}

impl Default for OrgConfig {
    fn default() -> (res: Self)
        ensures
            is_default_org_config(res),
    {
        OrgConfig {
            org_directory: default_org_directory(),
            org_default_notes_file: default_notes_file(),
            org_agenda_files: default_agenda_files(),
            org_agenda_text_search_extra_files: Vec::new(),
            org_todo_keywords: default_todo_keywords(),
            org_auto_created_property: true,
            org_auto_closed_timestamp: true,
        }
    }
}

impl Default for LoggingConfig {
    fn default() -> (res: Self)
        ensures
            res.level@ == "info"@,
            res.file@ == "~/.local/share/org-mcp-server/logs/server.log"@,
    {
        LoggingConfig { level: default_log_level(), file: default_log_file() }
    }
}

/// What a probe of the (tilde-expanded) org directory found.
#[derive(Debug, Clone)]
pub enum RootDirProbe {
    /// Nothing exists at the path.
    Missing,
    /// The path exists and is not a directory.
    NotADirectory,
    /// Listing the directory was refused; carries the path as printed in messages.
    PermissionDenied(String),
    /// Listing the directory failed otherwise; carries the I/O error message.
    ReadFailed(String),
    /// The directory exists and can be listed.
    Readable,
}

/// `c` passes every check of `validate` but the directory listing.
pub open spec fn keywords_ok(k: Seq<String>) -> bool {
    &&& k.len() >= 2
    &&& sep_count(k) <= 1
    &&& sep_index(k) != Some(0int)
    &&& sep_index(k) != Some(k.len() - 1)
}

fn count_seps(k: &Vec<String>) -> (res: usize)
    ensures
        res == sep_count(k@),
{
    let mut n: usize = 0;
    let mut i: usize = 0;
    while i < k.len()
        invariant
            i <= k@.len(),
            n == sep_count(k@.take(i as int)),
            n <= i,
        decreases k@.len() - i,
    {
        proof {
            assert(k@.take(i + 1).drop_last() =~= k@.take(i as int));
        }
        if is_single(k[i].as_str(), '|') {
            n = n + 1;
        }
        i = i + 1;
    }
    assert(k@.take(k@.len() as int) =~= k@);
    n
}

/// What tilde expansion may make of `input`: `input` itself, or, when
/// `input` is `~` alone or `~` followed by `/` (or, on Windows, by `\`), some
/// home directory followed by the rest of `input` after the `~`.
pub open spec fn tilde_expansion(input: Seq<char>, out: Seq<char>) -> bool {
    ||| out == input
    ||| (input.len() > 0 && input[0] == '~' && (input.len() == 1 || input[1] == '/' || input[1] == '\\')
        && out.len() >= input.len() - 1 && out.skip(out.len() - (input.len() - 1)) == input.skip(1))
}

/// Tilde expansion of a path (`shellexpand::tilde`), which reads the home
/// directory from the environment. What is claimed: a path that does not
/// start with `~` comes back unchanged; otherwise the result is the input
/// itself or, where the `~` stands alone or before `/` (or before `\`, which
/// only Windows builds expand), some home directory followed by the rest of
/// the input. Which home directory is not stated.
#[verifier::external_body]
pub fn expand_tilde(path: &str) -> (res: String)
    ensures
        !(path@.len() > 0 && path@[0] == '~') ==> res@ == path@,
        tilde_expansion(path@, res@),
{
    shellexpand::tilde(path).into_owned()
}

impl OrgConfig {
    /// The org directory with a leading `~` expanded, as `expand_tilde`
    /// describes.
    pub fn expanded_root(&self) -> (res: String)
        ensures
            !(self.org_directory@.len() > 0 && self.org_directory@[0] == '~') ==> res@
                == self.org_directory@,
            tilde_expansion(self.org_directory@, res@),
    {
        expand_tilde(self.org_directory.as_str())
    }

    /// Validates the configuration against `probe`, what a look at the
    /// expanded org directory found, and replaces the directory by its
    /// expansion.
    /// What `validate` returns for `probe`: the first failed check, in the
    /// order directory exists, is a directory, keyword rules, listing; or the
    /// configuration with its directory expanded.
    pub open spec fn spec_validate(self, probe: RootDirProbe, res: Result<OrgConfig, OrgModeError>) -> bool {
        &&& (probe is Missing ==> (res matches Err(OrgModeError::ConfigError(m)) && m@
                    == "Root directory does not exist: "@ + self.org_directory@))
        &&& (probe is NotADirectory ==> (res matches Err(OrgModeError::ConfigError(m)) && m@
                    == "Root directory is not a directory: "@ + self.org_directory@))
        &&& (!(probe is Missing || probe is NotADirectory) ==> {
                    let k = self.org_todo_keywords@;
                    &&& k.len() < 2 ==> (res matches Err(OrgModeError::ConfigError(m)) && m@
                        == "org_todo_keywords must contain at least two keywords"@)
                    &&& k.len() >= 2 && sep_count(k) > 1 ==> (res matches Err(
                        OrgModeError::ConfigError(m),
                    ) && m@ == "Multiple '|' separators found in org_todo_keywords"@)
                    &&& k.len() >= 2 && sep_count(k) <= 1 && sep_index(k) == Some(0int) ==> (res matches Err(
                        OrgModeError::ConfigError(m),
                    ) && m@ == "Separator '|' cannot be at the beginning of org_todo_keywords"@)
                    &&& k.len() >= 2 && sep_count(k) <= 1 && sep_index(k) == Some(k.len() - 1)
                        ==> (res matches Err(OrgModeError::ConfigError(m)) && m@
                        == "Separator '|' cannot be at the end of org_todo_keywords"@)
                    &&& keywords_ok(k) ==> match probe {
                        RootDirProbe::PermissionDenied(p) => (res matches Err(
                            OrgModeError::InvalidDirectory(m),
                        ) && m@ == "Permission denied accessing directory: "@ + p@),
                        RootDirProbe::ReadFailed(e) => res == Err::<OrgConfig, OrgModeError>(
                            OrgModeError::IoError(e),
                        ),
                        _ => (res matches Ok(c) && {
                            &&& c.org_default_notes_file == self.org_default_notes_file
                            &&& c.org_agenda_files == self.org_agenda_files
                            &&& c.org_agenda_text_search_extra_files
                                == self.org_agenda_text_search_extra_files
                            &&& c.org_todo_keywords == self.org_todo_keywords
                            &&& c.org_auto_created_property == self.org_auto_created_property
                            &&& c.org_auto_closed_timestamp == self.org_auto_closed_timestamp
                            &&& (!(self.org_directory@.len() > 0 && self.org_directory@[0] == '~')
                                ==> c.org_directory@ == self.org_directory@)
                            &&& tilde_expansion(self.org_directory@, c.org_directory@)
                        }),
                    }
                })
    }

    pub fn validate(self, probe: RootDirProbe) -> (res: Result<OrgConfig, OrgModeError>)
        ensures
            self.spec_validate(probe, res),
            res matches Ok(c) ==> keywords_ok(c.org_todo_keywords@),
    {
        match probe {
            RootDirProbe::Missing => {
                return Err(
                    OrgModeError::ConfigError(
                        concat("Root directory does not exist: ", self.org_directory.as_str()),
                    ),
                );
            },
            RootDirProbe::NotADirectory => {
                return Err(
                    OrgModeError::ConfigError(
                        concat("Root directory is not a directory: ", self.org_directory.as_str()),
                    ),
                );
            },
            _ => {},
        }
        if self.org_todo_keywords.len() < 2 {
            return Err(
                OrgModeError::ConfigError(
                    String::from_str("org_todo_keywords must contain at least two keywords"),
                ),
            );
        }
        let seps = count_seps(&self.org_todo_keywords);
        if seps > 1 {
            return Err(
                OrgModeError::ConfigError(
                    String::from_str("Multiple '|' separators found in org_todo_keywords"),
                ),
            );
        }
        match find_sep(&self.org_todo_keywords) {
            Some(p) => {
                if p == 0 {
                    return Err(
                        OrgModeError::ConfigError(
                            String::from_str(
                                "Separator '|' cannot be at the beginning of org_todo_keywords",
                            ),
                        ),
                    );
                }
                if p == self.org_todo_keywords.len() - 1 {
                    return Err(
                        OrgModeError::ConfigError(
                            String::from_str(
                                "Separator '|' cannot be at the end of org_todo_keywords",
                            ),
                        ),
                    );
                }
            },
            None => {},
        }
        match probe {
            RootDirProbe::PermissionDenied(p) => {
                return Err(
                    OrgModeError::InvalidDirectory(
                        concat("Permission denied accessing directory: ", p.as_str()),
                    ),
                );
            },
            RootDirProbe::ReadFailed(e) => {
                return Err(OrgModeError::IoError(e));
            },
            _ => {},
        }
        let expanded = self.expanded_root();
        let mut c = self;
        c.org_directory = expanded;
        Ok(c)
    }

    /// The unfinished TODO keywords: those before the `|` separator, or all
    /// but the last keyword when there is no separator.
    pub fn unfinished_keywords(&self) -> (res: Vec<String>)
        requires
            self.org_todo_keywords@.len() >= 1,
        ensures
            res@ == spec_unfinished(self.org_todo_keywords@),
    {
        match find_sep(&self.org_todo_keywords) {
            Some(p) => slice_to_vec(&self.org_todo_keywords, 0, p),
            None => slice_to_vec(&self.org_todo_keywords, 0, self.org_todo_keywords.len() - 1),
        }
    }

    /// The finished TODO keywords: those after the `|` separator, or just the
    /// last keyword when there is no separator.
    pub fn finished_keywords(&self) -> (res: Vec<String>)
        ensures
            res@ == spec_finished(self.org_todo_keywords@),
    {
        let n = self.org_todo_keywords.len();
        match find_sep(&self.org_todo_keywords) {
            Some(p) => {
                let r = slice_to_vec(&self.org_todo_keywords, p + 1, n);
                assert(r@ =~= self.org_todo_keywords@.skip(p + 1));
                r
            },
            None => {
                if n == 0 {
                    let r: Vec<String> = Vec::new();
                    assert(r@ =~= Seq::<String>::empty());
                    r
                } else {
                    let r = slice_to_vec(&self.org_todo_keywords, n - 1, n);
                    assert(r@ =~= seq![self.org_todo_keywords@.last()]);
                    r
                }
            },
        }
    }
}

} // verus!
