//! The preprocessing stage: each source file is located, rewritten, and
//! listed in the manifest under the module that it declares.

use vstd::prelude::*;
use crate::manifest::{Manifest, Unit, UnitView};
use crate::modpath::{Mod, ModPath, located, show_path};
use crate::rewrite::{RewriteError, Rewritten, rewrite, rewritten};
use crate::text::{chars_of, join, push_joined, push_text, split, split_text, strs};

verus! {

/// What the stage is told: the features of the build, the pattern that the
/// source files match, and the source root where it is not the pattern's.
#[derive(Debug, Clone, PartialEq, Eq)]
pub struct Opts {
    pub features: Vec<String>,
    pub pattern: String,
    pub src_root: Option<String>,
}

/// How many of the first components of a pattern hold no `*`.
pub open spec fn plain_len(parts: Seq<Seq<char>>) -> nat
    decreases parts.len(),
{
    if parts.len() > 0 && !parts[0].contains('*') {
        1 + plain_len(parts.drop_first())
    } else {
        0
    }
}

/// The directory that a pattern starts from: its components before the
/// first that holds a `*`.
pub open spec fn pattern_root(pattern: Seq<char>) -> Seq<char> {
    let parts = split(pattern, '/');
    join(parts.take(plain_len(parts) as int), seq!['/'])
}

/// Whether `s` holds a `*`.
fn has_star(s: &str) -> (r: bool)
    ensures
        r == s@.contains('*'),
{
    let v = chars_of(s);
    let mut i: usize = 0;
    while i < v.len()
        invariant
            i <= v.len(),
            v@ == s@,
            forall|j: int| 0 <= j < i ==> v@[j] != '*',
        decreases v.len() - i,
    {
        if v[i] == '*' {
            return true;
        }
        i += 1;
    }
    false
}

impl Opts {
    /// The source root: the one given, or else the directory that the
    /// pattern starts from.
    pub fn source_root(&self) -> (r: String)
        ensures
            r@ == match self.src_root {
                Some(s) => s@,
                None => pattern_root(self.pattern@),
            },
    {
        match &self.src_root {
            Some(s) => s.clone(),
            None => {
                let v = chars_of(self.pattern.as_str());
                let parts = split_text(&v, '/');
                let ghost all = strs(parts@);
                let mut k: usize = 0;
                assert(all.skip(0) == all);
                while k < parts.len() && !has_star(parts[k].as_str())
                    invariant
                        k <= parts.len(),
                        all == strs(parts@),
                        plain_len(all) == k + plain_len(all.skip(k as int)),
                    decreases parts.len() - k,
                {
                    assert(all.skip(k as int).drop_first() == all.skip(k + 1));
                    k += 1;
                }
                let mut r = String::new();
                proof {
                    reveal_strlit("/");
                    assert("/"@ == seq!['/']);
                }
                push_joined(&mut r, &parts, k, "/");
                r
            },
        }
    }
}

/// The manifest after a file has been listed under the module that it
/// declares, or as it was where the file declares none.
pub open spec fn listed_under(
    m: Map<Seq<char>, Seq<UnitView>>,
    module: Option<ModPath>,
    unit: UnitView,
) -> Map<Seq<char>, Seq<UnitView>> {
    match module {
        None => m,
        Some(p) => m.insert(
            show_path(p),
            (if m.contains_key(show_path(p)) {
                m[show_path(p)]
            } else {
                Seq::empty()
            }).push(unit),
        ),
    }
}

/// Preprocesses one source file: `path` gives the components of its path,
/// `file` the path as the manifest is to show it, `content` its text, and
/// `root` the components of the source root.
///
/// The file is rewritten as the module that its place under the root makes
/// it. Where it declares a module, it is listed under that module as a unit
/// with the features that its name asks for. On an error the manifest stays
/// as it was.
pub fn preprocess(
    mods: &mut Manifest,
    path: &Vec<String>,
    file: &str,
    content: &str,
    root: &Vec<String>,
    crate_name: &str,
    registry_name: &str,
) -> (r: Result<Rewritten, RewriteError>)
    requires
        old(mods).wf(),
    ensures
        final(mods).wf(),
        match rewritten(
            content@,
            located(strs(path@), strs(root@)).0,
            registry_name@,
            crate_name@,
        ) {
            Ok(out) => r matches Ok(x) && x@ == out && final(mods)@ == listed_under(
                old(mods)@,
                out.module,
                UnitView { path: file@, features: located(strs(path@), strs(root@)).1 },
            ),
            Err(e) => r matches Err(x) && (x.line as int, x.fault) == e && final(mods)@ == old(
                mods,
            )@,
        },
{
    let (current, features) = Mod::from_path(path, root);
    match rewrite(content, &current, crate_name, registry_name) {
        Err(e) => Err(e),
        Ok(out) => {
            match &out.module {
                Some(m) => {
                    let mut name = String::new();
                    push_text(&mut name, file);
                    assert(name@ =~= file@);
                    mods.register(m, Unit { path: name, features });
                },
                None => {},
            }
            Ok(out)
        },
    }
}

} // verus!
