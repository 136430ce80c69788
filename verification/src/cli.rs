//! The command line of `espm`: its options and subcommands.

use vstd::prelude::*;

verus! {

/// The parsed command line.
#[derive(Debug, Clone, PartialEq, Eq)]
pub struct Cli {
    /// Print debug messages while the command runs.
    pub verbose: bool,
    pub command: Commands,
}

/// The subcommands.
#[derive(Debug, Clone, PartialEq, Eq)]
pub enum Commands {
    /// Add a package dependency.
    Add { specifier: String, dev: bool, require_esm: bool },
    /// Remove a dependency.
    Remove { package: String },
    /// Install dependencies.
    Install { dev: bool, force: bool, require_esm: bool },
    /// Update a package dependency.
    Update { specifier: String },
    /// Initialize espm.json.
    Init,
    /// Publish a package.
    Publish { npm: bool, dry_run: bool },
    /// Use the right version of espm.
    Setup { version: String },
}

} // verus!
