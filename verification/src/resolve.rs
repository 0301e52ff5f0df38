//! What the dependency resolver is asked: one line of coordinates for each
//! dependency that names an organisation.

use vstd::prelude::*;
use crate::config::version::coursier_text;
use crate::config::{DependencyLike, DependencyView, PackageConfig, dependency_of};
use crate::text::{push_text, text_of};

verus! {

/// Why the resolver cannot be asked.
#[derive(Debug, Clone, Copy, PartialEq, Eq)]
pub enum DepsError {
    /// A dependency admits no version that could be named.
    NoVersion,
}

impl DepsError {
    /// What the error says.
    pub open spec fn message_text(self) -> Seq<char> {
        "cannot find a version"@
    }

    /// What the error says.
    pub fn message(&self) -> (r: String)
        ensures
            r@ == self.message_text(),
    {
        text_of("cannot find a version")
    }
}

/// The line for one dependency: its organisation, its name and its version
/// with colons between them. The name of a dependency that is not plain
/// Java carries the edition of the package after an underscore. A
/// dependency without an organisation has no line.
pub open spec fn coordinate(edition: Seq<char>, name: Seq<char>, dep: DependencyView) -> Result<
    Seq<char>,
    DepsError,
> {
    match dep.org {
        None => Ok(Seq::empty()),
        Some(org) => match coursier_text(dep.version) {
            None => Err(DepsError::NoVersion),
            Some(version) => Ok(
                org + seq![':'] + (if dep.java {
                    name
                } else {
                    name + seq!['_'] + edition
                }) + seq![':'] + version + seq!['\n'],
            ),
        },
    }
}

/// The lines for the first `n` dependencies, or the first error among them.
pub open spec fn coordinates(
    edition: Seq<char>,
    deps: Seq<(String, DependencyLike)>,
    n: int,
) -> Result<Seq<char>, DepsError>
    decreases n,
{
    if 0 < n <= deps.len() {
        match coordinates(edition, deps, n - 1) {
            Err(e) => Err(e),
            Ok(before) => match coordinate(edition, deps[n - 1].0@, dependency_of(deps[n - 1].1)) {
                Err(e) => Err(e),
                Ok(line) => Ok(before + line),
            },
        }
    } else {
        Ok(Seq::empty())
    }
}

/// Once the lines for some first dependencies fail, so do those for more.
pub proof fn lemma_coordinates_fail(
    edition: Seq<char>,
    deps: Seq<(String, DependencyLike)>,
    n: int,
    m: int,
)
    requires
        0 <= n <= m <= deps.len(),
        coordinates(edition, deps, n).is_err(),
    ensures
        coordinates(edition, deps, m) == coordinates(edition, deps, n),
    decreases m - n,
{
    if n < m {
        lemma_coordinates_fail(edition, deps, n, m - 1);
    }
}

/// The text that the resolver is given: the lines of the package's
/// dependencies, in the ascending order of their names.
pub fn dump_deps_in(config: &PackageConfig) -> (r: Result<String, DepsError>)
    requires
        config.wf(),
    ensures
        match r {
            Ok(s) => coordinates(
                config.package.edition@,
                config.dependencies@,
                config.dependencies@.len() as int,
            ) == Ok::<Seq<char>, DepsError>(s@),
            Err(e) => coordinates(
                config.package.edition@,
                config.dependencies@,
                config.dependencies@.len() as int,
            ) == Err::<Seq<char>, DepsError>(e),
        },
{
    let ghost edition = config.package.edition@;
    let ghost deps = config.dependencies@;
    let mut result = String::new();
    let mut i: usize = 0;
    proof {
        reveal_strlit(":");
        reveal_strlit("_");
        reveal_strlit("\n");
    }
    while i < config.dependencies.len()
        invariant
            i <= config.dependencies.len(),
            edition == config.package.edition@,
            deps == config.dependencies@,
            ":"@ == seq![':'],
            "_"@ == seq!['_'],
            "\n"@ == seq!['\n'],
            coordinates(edition, deps, i as int) == Ok::<Seq<char>, DepsError>(result@),
        decreases config.dependencies.len() - i,
    {
        let name = &config.dependencies[i].0;
        let dep = config.dependencies[i].1.as_dep();
        let ghost before = result@;
        match &dep.org {
            None => {
                assert(before + Seq::<char>::empty() == before);
            },
            Some(org) => {
                match dep.version.as_coursier() {
                    None => {
                        proof {
                            lemma_coordinates_fail(edition, deps, i + 1, deps.len() as int);
                        }
                        return Err(DepsError::NoVersion);
                    },
                    Some(version) => {
                        let mut line = String::new();
                        push_text(&mut line, org.as_str());
                        push_text(&mut line, ":");
                        push_text(&mut line, name.as_str());
                        if !dep.java {
                            push_text(&mut line, "_");
                            push_text(&mut line, config.package.edition.as_str());
                        }
                        push_text(&mut line, ":");
                        push_text(&mut line, version.as_str());
                        push_text(&mut line, "\n");
                        assert(coordinate(edition, name@, dep@) == Ok::<Seq<char>, DepsError>(
                            line@,
                        )) by {
                            assert(line@ =~= org@ + seq![':'] + (if dep.java {
                                name@
                            } else {
                                name@ + seq!['_'] + edition
                            }) + seq![':'] + version@ + seq!['\n']);
                        }
                        push_text(&mut result, line.as_str());
                    },
                }
            },
        }
        i += 1;
    }
    Ok(result)
}

} // verus!
