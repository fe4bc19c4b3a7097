//! Declarative dotfile/configuration deployment engine.
//!
//! A configuration declares named modules; each module names a source (a git
//! repository or a local directory), a list of entries describing which files
//! of that source to expose, and where they should land. This crate turns
//! those declarations into a conflict-checked mapping from source files to
//! destination paths and plans the filesystem actions that materialize it.

pub mod cli;
pub mod config;
pub mod deploy;
pub mod glob;
pub mod module;
pub mod resolve;
pub mod utils;

pub use config::{Config, LinkMode};
pub use module::entry::{Entry, Kind as EntryKind};
pub use module::source::{Source, SourceError};
pub use module::{Module, ModuleError};
