//! The org-mode workspace: a validated configuration and the data types
//! that its operations take and return.
use vstd::prelude::*;
use crate::config::{OrgConfig, RootDirProbe, keywords_ok};
use crate::error::OrgModeError;

verus! {

/// An org-mode workspace over a validated configuration.
#[derive(Debug)]
pub struct OrgMode {
    pub(crate) config: OrgConfig,
}

impl OrgMode {
    /// The keyword list of a workspace passed validation.
    #[verifier::type_invariant]
    pub(crate) open spec fn inv(self) -> bool {
        keywords_ok(self.config.org_todo_keywords@)
    }

    /// The workspace's configuration.
    pub closed spec fn spec_config(&self) -> OrgConfig {
        self.config
    }

    /// Validates `config` against `probe` (see `OrgConfig::validate`) and
    /// opens a workspace over the validated configuration.
    pub fn new(config: OrgConfig, probe: RootDirProbe) -> (res: Result<OrgMode, OrgModeError>)
        ensures
            config.spec_validate(
                probe,
                match res {
                    Ok(m) => Ok(m.spec_config()),
                    Err(e) => Err(e),
                },
            ),
    {
        match config.validate(probe) {
            Ok(c) => Ok(OrgMode { config: c }),
            Err(e) => Err(e),
        }
    }

    /// Inside the crate, the configuration view is the field itself.
    pub(crate) proof fn lemma_spec_config(&self)
        ensures
            self.spec_config() == self.config,
    {
    }

    /// The workspace's configuration.
    pub fn config(&self) -> (res: &OrgConfig)
        ensures
            *res == self.spec_config(),
            keywords_ok(res.org_todo_keywords@),
    {
        proof { use_type_invariant(self); }
        &self.config
    }
}

} // verus!
