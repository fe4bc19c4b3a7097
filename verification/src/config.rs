//! The aggregate configuration: the global link policy, included fragments,
//! and the ordered module list.

use vstd::prelude::*;

use crate::module::Module;

verus! {

/// The global deployment policy: whether destinations are created as
/// symbolic links, as links with a copy fallback, or always as copies.
#[derive(Debug, Clone, Copy, PartialEq, Eq, Structural)]
pub enum LinkMode {
    Always,
    Prefer,
    Never,
}

impl Default for LinkMode {
    fn default() -> (r: Self)
        ensures
            r == LinkMode::Always,
    {
        LinkMode::Always
    }
}

/// A loaded configuration. Immutable once loaded; each invocation re-reads
/// it.
#[derive(Debug, Clone)]
pub struct Config {
    /// The deployment policy applied to every module. The data model has no
    /// per-module override, so this value applies uniformly.
    pub link_mode: LinkMode,
    /// Paths of additional configuration fragments to merge; collecting and
    /// merging them is the loader's concern.
    pub includes: Vec<String>,
    /// The ordered module list.
    pub modules: Vec<Module>,
}

impl Default for Config {
    fn default() -> (r: Self)
        ensures
            r.link_mode == LinkMode::Always,
            r.includes@.len() == 0,
            r.modules@.len() == 0,
    {
        Config { link_mode: LinkMode::Always, includes: Vec::new(), modules: Vec::new() }
    }
}

impl Config {
    /// The link mode that governs `_module`. A module cannot override the
    /// global policy, so this is the global value for every module.
    pub fn effective_link_mode(&self, _module: &Module) -> (r: LinkMode)
        ensures
            r == self.link_mode,
    {
        self.link_mode
    }
}

} // verus!
