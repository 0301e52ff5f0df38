//! The configuration of a package, as the rest of the tool reads it.

use vstd::prelude::*;
use crate::config::version::{VersionRange, VersionRangeView};
use crate::modpath::clone_strings;
use crate::strset::{ascending, lemma_lex_transitive, lex_lt, text_lt};
use crate::text::strs;

pub mod constant;
pub mod repo;
pub mod version;

verus! {

/// A version as the configuration gives it.
pub type Version = String;

/// The names of the entries of a table.
pub open spec fn names<T>(table: Seq<(String, T)>) -> Seq<Seq<char>> {
    table.map_values(|entry: (String, T)| entry.0@)
}

/// Whether the names of the entries of a table ascend, so that the table
/// holds no name twice and stands in the one order that its names have.
pub fn names_ascend<T>(table: &Vec<(String, T)>) -> (r: bool)
    ensures
        r == ascending(names(table@)),
{
    let ghost all = names(table@);
    let mut i: usize = 1;
    while i < table.len()
        invariant
            1 <= i,
            all == names(table@),
            forall|a: int, b: int| 0 <= a < b < i && b < all.len() ==> lex_lt(all[a], all[b]),
        decreases table.len() - i,
    {
        if !text_lt(table[i - 1].0.as_str(), table[i].0.as_str()) {
            assert(!lex_lt(all[i - 1], all[i as int]));
            return false;
        }
        proof {
            assert forall|a: int| 0 <= a < i implies lex_lt(all[a], all[i as int]) by {
                if a < i - 1 {
                    lemma_lex_transitive(all[a], all[i - 1], all[i as int]);
                }
            }
        }
        i += 1;
    }
    true
}

/// The configuration of a package. Dependencies and features stand in the
/// order of their names.
#[derive(Debug, Clone, PartialEq, Eq)]
pub struct PackageConfig {
    pub package: Package,
    pub dependencies: Vec<(String, DependencyLike)>,
    pub features: Vec<(String, FeatureLike)>,
    pub resources: Vec<Resource>,
}

impl PackageConfig {
    /// The names of the dependencies ascend, and so do those of the
    /// features.
    pub open spec fn wf(&self) -> bool {
        ascending(names(self.dependencies@)) && ascending(names(self.features@))
    }

    /// Decides `wf`.
    pub fn is_wf(&self) -> (r: bool)
        ensures
            r == self.wf(),
    {
        names_ascend(&self.dependencies) && names_ascend(&self.features)
    }
}

/// What a package says of itself.
#[derive(Debug, Clone, PartialEq, Eq)]
pub struct Package {
    pub name: String,
    pub version: Version,
    pub authors: Vec<String>,
    pub edition: String,
    pub registry: String,
    pub others: Vec<(String, String)>,
}

/// A dependency as the configuration may give it: by its version alone, or
/// in full.
#[derive(Debug, Clone, PartialEq, Eq)]
pub enum DependencyLike {
    Version(VersionRange),
    Full(Dependency),
}

/// A dependency.
#[derive(Debug, Clone, PartialEq, Eq)]
pub struct Dependency {
    pub version: VersionRange,
    pub features: Vec<String>,
    pub java: bool,
    pub org: Option<String>,
    pub others: Vec<(String, String)>,
}

/// A feature as the configuration may give it: by its group alone, or in
/// full.
#[derive(Debug, Clone, PartialEq, Eq)]
pub enum FeatureLike {
    Group(Vec<String>),
    Full(Feature),
}

/// A feature.
#[derive(Debug, Clone, PartialEq, Eq)]
pub struct Feature {
    pub conflict: bool,
    pub computed: bool,
    pub group: Vec<String>,
}

/// Files that are packed with what is built.
#[derive(Debug, Clone, PartialEq, Eq)]
pub struct Resource {
    pub pattern: String,
}

/// The views of a sequence of pairs of strings.
pub open spec fn pairs(v: Seq<(String, String)>) -> Seq<(Seq<char>, Seq<char>)> {
    v.map_values(|p: (String, String)| (p.0@, p.1@))
}

/// The view of a string that may be missing.
pub open spec fn opt_text(s: Option<String>) -> Option<Seq<char>> {
    match s {
        Some(x) => Some(x@),
        None => None,
    }
}

/// A dependency as a mathematical value.
pub struct DependencyView {
    pub version: VersionRangeView,
    pub features: Seq<Seq<char>>,
    pub java: bool,
    pub org: Option<Seq<char>>,
    pub others: Seq<(Seq<char>, Seq<char>)>,
}

impl View for Dependency {
    type V = DependencyView;

    open spec fn view(&self) -> DependencyView {
        DependencyView {
            version: self.version@,
            features: strs(self.features@),
            java: self.java,
            org: opt_text(self.org),
            others: pairs(self.others@),
        }
    }
}

/// The dependency that asks for a version and for nothing else.
pub open spec fn plain_dependency(version: VersionRangeView) -> DependencyView {
    DependencyView {
        version,
        features: Seq::empty(),
        java: false,
        org: None,
        others: Seq::empty(),
    }
}

/// The dependency that a configuration entry stands for.
pub open spec fn dependency_of(like: DependencyLike) -> DependencyView {
    match like {
        DependencyLike::Version(v) => plain_dependency(v@),
        DependencyLike::Full(d) => d@,
    }
}

impl Dependency {
    /// The dependency that asks for the version `s` and for nothing else.
    pub fn from(s: VersionRange) -> (r: Dependency)
        ensures
            r@ == plain_dependency(s@),
    {
        let r = Dependency {
            version: s,
            features: Vec::new(),
            java: false,
            org: None,
            others: Vec::new(),
        };
        assert(r@.features =~= Seq::<Seq<char>>::empty());
        assert(r@.others =~= Seq::<(Seq<char>, Seq<char>)>::empty());
        r
    }

    /// A copy of the dependency.
    pub fn duplicate(&self) -> (r: Dependency)
        ensures
            r@ == self@,
    {
        let mut others: Vec<(String, String)> = Vec::new();
        let mut i: usize = 0;
        while i < self.others.len()
            invariant
                i <= self.others.len(),
                pairs(others@) == pairs(self.others@).take(i as int),
            decreases self.others.len() - i,
        {
            let item = (self.others[i].0.clone(), self.others[i].1.clone());
            others.push(item);
            assert(pairs(others@) =~= pairs(self.others@).take(i + 1));
            i += 1;
        }
        assert(pairs(self.others@).take(self.others.len() as int) == pairs(self.others@));
        let org = match &self.org {
            Some(o) => Some(o.clone()),
            None => None,
        };
        Dependency {
            version: self.version.duplicate(),
            features: clone_strings(&self.features),
            java: self.java,
            org,
            others,
        }
    }
}

impl DependencyLike {
    /// The dependency that the entry stands for: itself where it is given in
    /// full, and else the one that asks for its version alone.
    pub fn as_dep(&self) -> (r: Dependency)
        ensures
            r@ == dependency_of(*self),
    {
        match self {
            DependencyLike::Full(dep) => dep.duplicate(),
            DependencyLike::Version(version) => Dependency::from(version.duplicate()),
        }
    }
}

} // verus!
