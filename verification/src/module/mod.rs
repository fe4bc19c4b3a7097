//! A named, declaratively-configured unit of deployable files originating
//! from one source.

pub mod entry;
pub mod source;

use vstd::prelude::*;

use crate::utils;

use self::entry::Entry;
use self::source::Source;

verus! {

/// Validation failures when constructing a [`Module`].
#[derive(Debug, Clone, Copy, PartialEq, Eq, Structural)]
pub enum ModuleError {
    /// The module name is empty or whitespace only.
    MissingName,
}

/// A named unit of deployable files.
#[derive(Debug, Clone, PartialEq, Eq)]
pub struct Module {
    /// The name of the module.
    ///
    /// This serves as a unique identifier for the module, used in profiles
    /// and various commands. It does not affect destination paths or
    /// deployment logic.
    pub name: String,
    /// Source repository or directory of the module.
    pub source: Source,
    /// Base output path of module entries.
    ///
    /// If not specified, the user's home directory is used.
    pub base: Option<String>,
    /// Defines a listing of sources and where they map to when deployed.
    ///
    /// If no entries are specified, all source files are mapped relative to
    /// the module structure.
    pub entries: Vec<Entry>,
    /// A list of glob patterns to exclude from matched files in `entries`.
    ///
    /// Useful for ignoring common files like README, LICENSE, etc.
    pub exclude: Vec<String>,
}

impl Module {
    /// A module named `name` with source `source` and everything else at its
    /// default. Fails when the name carries no information.
    pub fn new(name: &str, source: Source) -> (r: Result<Self, ModuleError>)
        ensures
            utils::empty_or_whitespace(name@) <==> r == Err::<Module, ModuleError>(
                ModuleError::MissingName,
            ),
            !utils::empty_or_whitespace(name@) ==> (r matches Ok(m) && m.name@ == name@
                && m.source == source && m.base is None && m.entries@.len() == 0
                && m.exclude@.len() == 0),
    {
        if utils::is_empty_or_whitespace(name) {
            return Err(ModuleError::MissingName);
        }
        Ok(
            Module {
                name: String::from_str(name),
                source,
                base: None,
                entries: Vec::new(),
                exclude: Vec::new(),
            },
        )
    }
}

} // verus!
