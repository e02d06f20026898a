//! Editing the two documents of a native build project: the compile-unit
//! list (which sources the build compiles, and per-configuration search paths
//! and libraries) and the filter document (the folder hierarchy the sources
//! show under). Edits are line-level and leave untouched text byte for byte;
//! each operation's result is stated over the documents' text in its contract.
pub mod cli;
pub mod text;
pub mod markup;
pub mod paths;
pub mod entries;
pub mod placement;
pub mod project;
pub mod filters;
pub mod ids;
pub mod error;
pub mod order;
pub mod structure;
pub mod pattern;
pub mod laws;

pub use cli::{Cli, Commands};
pub use error::ProjectError;
pub use filters::{basic_filter_text, create_basic_filter_file, FilterFile};
pub use pattern::{check_selector, refine_by_flags, refine_paths, select_candidates, select_matching, PathPattern};
pub use project::{ConfigProperty, ProjectFile, VcxprojFile};
pub use structure::ProjectStructure;
