//! The commands the tool takes, as plain values.
use vstd::prelude::*;

verus! {

/// One invocation of the tool.
pub struct Cli {
    pub command: Commands,
}

/// What an invocation asks for. Paths are as given on the command line.
pub enum Commands {
    /// Add the files with this extension found under `directory` (the
    /// project's directory by default), narrowed by `regex` (negated by `not`).
    Add {
        extension: String,
        project: String,
        directory: Option<String>,
        recursive: bool,
        regex: Option<String>,
        not: bool,
        dryrun: bool,
    },
    /// Delete a file, a folder, a node, or all files with an extension.
    Delete {
        project: String,
        target: Option<String>,
        extension: Option<String>,
        yes: bool,
        regex: Option<String>,
        not: bool,
        dryrun: bool,
    },
    /// Show the hierarchy.
    View { project: String, files_only: bool, level: Option<usize> },
    /// Rename a node, or merge it into an existing one.
    Rename { project: String, from: String, to: String, yes: bool, dryrun: bool },
    /// Add an include directory to every configuration.
    AddInclude { project: String, path: String },
    /// Add a library directory to every configuration.
    AddLibDir { project: String, path: String },
    /// Add a library to every configuration.
    AddLib { project: String, name: String },
}

} // verus!
