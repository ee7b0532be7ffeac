//! The configuration of the program.

use vstd::prelude::*;

verus! {

/// The configuration.
#[derive(Debug, Clone, PartialEq, Eq)]
pub struct Config {
    /// Where the database lies; a leading tilde stands for the home
    /// directory.
    pub database_path: String,
    /// Whether responses are streamed where the command line does not say.
    pub stream: Option<bool>,
}

/// Where the database lies by default.
pub const DEFAULT_DATABASE_PATH: &'static str = "~/.retort/data/retort.db";

impl Default for Config {
    fn default() -> (c: Self)
        ensures
            c.database_path@ == DEFAULT_DATABASE_PATH@,
            c.stream is None,
    {
        Config { database_path: DEFAULT_DATABASE_PATH.to_owned(), stream: None }
    }
}

} // verus!
