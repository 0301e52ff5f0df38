//! The repositories that packages are fetched from.

use vstd::prelude::*;
use crate::config::{names, names_ascend};
use crate::strset::ascending;

verus! {

/// The repositories by name, in the order of the names.
#[derive(Debug, Clone, PartialEq, Eq, Default)]
pub struct RepoConfig {
    pub repos: Vec<(String, RepoLike)>,
}

impl RepoConfig {
    /// The names of the repositories ascend.
    pub open spec fn wf(&self) -> bool {
        ascending(names(self.repos@))
    }

    /// Decides `wf`.
    pub fn is_wf(&self) -> (r: bool)
        ensures
            r == self.wf(),
    {
        names_ascend(&self.repos)
    }
}

/// A repository as the configuration may give it: by its address alone, or
/// in full.
#[derive(Debug, Clone, PartialEq, Eq)]
pub enum RepoLike {
    Url(String),
    Full(Repo),
}

/// A repository.
#[derive(Debug, Clone, PartialEq, Eq)]
pub struct Repo {
    pub url: String,
}

} // verus!
