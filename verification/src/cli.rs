//! The command-line surface, as plain values.
//!
//! Argument parsing itself happens outside the library; the parsed flags
//! arrive here and the library decides what they mean.

use vstd::prelude::*;

verus! {

/// The parsed command line: an optional project name and the action
/// flags.
pub struct Cli {
    /// Project name, or for the open command an optional filter keyword.
    /// A temporary project without a name gets a generated one.
    pub name: Option<String>,
    /// Store the project permanently under `keep` instead of `temp`.
    pub keep: bool,
    /// List all projects of both categories.
    pub list: bool,
    /// Remove every temporary project.
    pub clean: bool,
    /// Initialize version control in the new project (off by default).
    pub git: bool,
    /// Choose an existing project and print the editor command for it.
    pub open: bool,
}

} // verus!
