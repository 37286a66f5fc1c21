//! Core logic of an org-mode knowledge base: configuration, TODO keyword
//! handling, heading formatting, timestamp parsing, capture planning and
//! in-place heading updates, with the behaviour of each operation stated in
//! its contract.
use vstd::prelude::*;

pub mod agenda;
pub mod agenda_files;
pub mod capture;
pub mod capture_plan;
pub mod config;
pub mod error;
pub mod laws;
pub mod lines;
pub mod org_mode;
pub mod search;
pub mod server;
pub mod tasks;
pub mod orgdoc;
pub mod outline;
pub mod text;
pub mod timestamp;
pub mod tree;
pub mod update;
pub mod update_apply;
pub mod update_target;
pub mod utils;

pub use error::OrgModeError;
pub use config::{LoggingConfig, OrgConfig};
pub use org_mode::OrgMode;

verus! {

} // verus!
