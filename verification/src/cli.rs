//! The command-line options, as plain values. Parsing an argument vector
//! into them is an outer concern.

use vstd::prelude::*;
use crate::logger::LogLevel;

verus! {

/// What the command line may override.
pub struct Args {
    pub log_level: Option<LogLevel>,
    pub delete_original: Option<bool>,
    pub rename: Option<bool>,
    pub description: Option<String>,
    pub links_file: String,
}

} // verus!
