//! The daemon's settings, resolved once at start-up.

use vstd::prelude::*;
use vstd::string::StringExecFns;
use crate::text::{parse_usize, parsed_usize};

verus! {

/// How many entries the store keeps where no bound is set.
pub const DEFAULT_MAX_ENTRIES: usize = 10000;

/// The channel's name where none is set.
pub open spec fn default_pipe_name() -> Seq<char> {
    "\\\\.\\pipe\\clipmgr"@
}

/// The daemon's settings.
#[derive(Debug, Clone, PartialEq, Eq)]
pub struct Config {
    /// Where the history is kept.
    pub db_path: String,
    /// The name of the channel on which clients are served.
    pub pipe_name: String,
    /// The bound on the number of entries kept.
    pub max_entries: usize,
}

impl Config {
    /// The settings for a history kept at `db_path`, given what the
    /// environment sets, if anything, for the channel's name and for the
    /// bound. A bound that is not a number counts as not set.
    pub fn load(db_path: String, pipe_name: Option<String>, max_entries: Option<String>) -> (r:
        Config)
        ensures
            r.db_path@ == db_path@,
            r.pipe_name@ == match pipe_name {
                Some(name) => name@,
                None => default_pipe_name(),
            },
            r.max_entries == match max_entries {
                Some(text) => match parsed_usize(text@) {
                    Some(n) => n,
                    None => DEFAULT_MAX_ENTRIES,
                },
                None => DEFAULT_MAX_ENTRIES,
            },
    {
        let pipe_name = match pipe_name {
            Some(name) => name,
            None => String::from_str("\\\\.\\pipe\\clipmgr"),
        };
        let max_entries = match max_entries {
            Some(text) => match parse_usize(text.as_str()) {
                Some(n) => n,
                None => DEFAULT_MAX_ENTRIES,
            },
            None => DEFAULT_MAX_ENTRIES,
        };
        Config { db_path, pipe_name, max_entries }
    }
}

} // verus!
