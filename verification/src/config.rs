//! What the configuration file holds.

use crate::paths::{anchor, anchored};
use crate::text::text_of;
use vstd::prelude::*;

verus! {

/// One path alias: a token that may occur in references, and the path that
/// stands for it there.
#[derive(Clone, Debug, PartialEq, Eq)]
pub struct AliasEntry {
    pub token: String,
    /// Absolute, or relative to the directory that is being scanned.
    pub target_path: String,
}

impl AliasEntry {
    /// The absolute path that the alias stands for while `base_dir` is
    /// scanned: an absolute target normalized, a relative one joined to
    /// `base_dir` and normalized. The file system is not consulted.
    pub fn target(&self, base_dir: &str) -> (path: Option<String>)
        ensures
            text_of(path) == anchored(self.target_path@, base_dir@),
    {
        anchor(self.target_path.as_str(), base_dir)
    }
}

/// The configuration: the path aliases in the order in which they were
/// declared, and the directories to scan in place of the one given on the
/// command line.
#[derive(Clone, Debug, PartialEq, Eq)]
pub struct Config {
    pub path_aliases: Option<Vec<AliasEntry>>,
    pub dirs: Option<Vec<String>>,
}

impl Config {
    /// The configuration that a new configuration file starts with: no alias
    /// and no directory, both tables present.
    pub fn default() -> (config: Self)
        ensures
            config.path_aliases matches Some(aliases) && aliases@.len() == 0,
            config.dirs matches Some(dirs) && dirs@.len() == 0,
    {
        Config { path_aliases: Some(Vec::new()), dirs: Some(Vec::new()) }
    }
}

} // verus!
