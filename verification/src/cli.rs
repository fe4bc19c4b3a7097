//! The command-line surface as plain data: the parsed invocation and its
//! subcommands. Argument parsing itself is a front-end concern; this module
//! only models the decoded values.

use vstd::prelude::*;

verus! {

/// A parsed invocation: the chosen subcommand and the global flags.
#[derive(Debug, Clone, PartialEq, Eq)]
pub struct Cli {
    /// The subcommand, if one was given.
    pub command: Option<Commands>,
    /// Override the configuration file path.
    pub config_path: Option<String>,
    /// Suppress all output.
    pub quiet: bool,
    /// Use verbose output (each repetition adds more).
    pub verbose: u8,
    /// Show help information.
    pub help: Option<bool>,
    /// Show version information.
    pub version: bool,
}

/// The subcommands the tool understands.
#[derive(Debug, Clone, PartialEq, Eq)]
pub enum Commands {
    /// Run first time setup.
    Init(InitArgs),
    /// Fetch missing modules.
    Fetch,
    /// Apply configuration modules and profiles.
    Apply(ApplyArgs),
    /// Show information about various items.
    Info,
    /// Remove unnecessary files.
    Clean,
    /// Reset configuration state or application data.
    Reset(ResetArgs),
    /// Show current configuration status.
    Status,
    /// Show version information.
    Version,
}

/// Arguments of the `init` subcommand.
#[derive(Debug, Clone, PartialEq, Eq)]
pub struct InitArgs {
    /// Clone setup information from a git repository.
    pub repo: Option<String>,
}

/// Arguments of the `apply` subcommand.
#[derive(Debug, Clone, PartialEq, Eq)]
pub struct ApplyArgs {
    /// Apply the list of modules in the order they are given.
    pub module: Vec<String>,
    /// Apply the given profile.
    pub profile: Option<String>,
}

/// Arguments of the `reset` subcommand.
#[derive(Debug, Clone, PartialEq, Eq)]
pub struct ResetArgs {
    /// Completely remove all data (useful before uninstalling).
    pub full: bool,
}

/// The version text shown for `verbose` repetitions: one line normally, with
/// build details appended in verbose runs. A verified library has no access
/// to build-time metadata, so the detail fields are reported as unknown.
pub open spec fn version_string(verbose: u8) -> Seq<char> {
    if verbose == 0 {
        "confman 0.1.0"@
    } else {
        "confman 0.1.0"@
            + "\ncommit-hash: unknown\ncommit-date: unknown\nbuild-target: unknown\nbuild-type: unknown"@
    }
}

impl Cli {
    /// The version text this invocation should print.
    pub fn get_version_string(&self) -> (r: String)
        ensures
            r@ == version_string(self.verbose),
    {
        let mut value = String::from_str("confman 0.1.0");
        if self.verbose > 0 {
            value.append(
                "\ncommit-hash: unknown\ncommit-date: unknown\nbuild-target: unknown\nbuild-type: unknown",
            );
        }
        value
    }
}

} // verus!
