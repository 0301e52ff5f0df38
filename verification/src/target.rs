//! Build targets, and the source files that a target is compiled from.

use vstd::prelude::*;
use crate::manifest::{Manifest, Unit, UnitView};
use crate::modpath::{ModPath, PrefixView, show_path};
use crate::strset::{StringSet, ascending, lemma_ascending_unique};
use crate::text::{chars_of, join, lemma_strs_push, push_text, strs, text_of};

verus! {

/// What a target builds.
#[derive(Debug, Clone, PartialEq, Eq)]
pub enum TargetName {
    Lib,
    BinMain,
    Bin(String),
    Example(String),
    Test(String),
}

/// How a target is built.
#[derive(Debug, Clone, Copy, PartialEq, Eq)]
pub enum Profile {
    Debug,
    Release,
    RelWithDebugInfo,
    Test,
}

/// A build target: what to build, how, and with which features.
#[derive(Debug, Clone, PartialEq, Eq)]
pub struct Target {
    pub name: TargetName,
    pub profile: Profile,
    pub features: StringSet,
}

/// A target's name as a mathematical value.
pub enum TargetNameView {
    Lib,
    BinMain,
    Bin(Seq<char>),
    Example(Seq<char>),
    Test(Seq<char>),
}

impl View for TargetName {
    type V = TargetNameView;

    open spec fn view(&self) -> TargetNameView {
        match *self {
            TargetName::Lib => TargetNameView::Lib,
            TargetName::BinMain => TargetNameView::BinMain,
            TargetName::Bin(s) => TargetNameView::Bin(s@),
            TargetName::Example(s) => TargetNameView::Example(s@),
            TargetName::Test(s) => TargetNameView::Test(s@),
        }
    }
}

/// A target as a mathematical value.
pub struct TargetView {
    pub name: TargetNameView,
    pub profile: Profile,
    pub features: Set<Seq<char>>,
}

impl View for Target {
    type V = TargetView;

    open spec fn view(&self) -> TargetView {
        TargetView { name: self.name@, profile: self.profile, features: self.features@ }
    }
}

/// The views of a sequence of targets.
pub open spec fn targets(v: Seq<Target>) -> Seq<TargetView> {
    v.map_values(|t: Target| t@)
}

/// Why a project has nothing to build.
#[derive(Debug, Clone, Copy, PartialEq, Eq)]
pub enum TargetError {
    /// The project has neither a library nor a program entry point.
    NoTargetFound,
}

impl TargetError {
    /// What the error says.
    pub open spec fn message_text(self) -> Seq<char> {
        "no target found"@
    }

    /// What the error says.
    pub fn message(&self) -> (r: String)
        ensures
            r@ == self.message_text(),
    {
        text_of("no target found")
    }
}

/// The target named `name`, built for release or for debugging, with no
/// feature.
pub open spec fn plain_target(name: TargetNameView, release: bool) -> TargetView {
    TargetView {
        name,
        profile: if release {
            Profile::Release
        } else {
            Profile::Debug
        },
        features: Set::empty(),
    }
}

/// The targets of a project that has a library entry point, a program entry
/// point, or both: the library first.
pub open spec fn found_targets(has_lib: bool, has_main: bool, release: bool) -> Seq<TargetView> {
    (if has_lib {
        seq![plain_target(TargetNameView::Lib, release)]
    } else {
        Seq::empty()
    }) + (if has_main {
        seq![plain_target(TargetNameView::BinMain, release)]
    } else {
        Seq::empty()
    })
}

/// The targets to build, from whether the project has a library entry point
/// and whether it has a program entry point. A project with neither has
/// nothing to build.
pub fn get_target(has_lib: bool, has_main: bool, release: bool) -> (r: Result<
    Vec<Target>,
    TargetError,
>)
    ensures
        match r {
            Ok(list) => (has_lib || has_main) && targets(list@) == found_targets(
                has_lib,
                has_main,
                release,
            ) && forall|i: int| 0 <= i < list@.len() ==> (#[trigger] list@[i]).features.wf(),
            Err(e) => !has_lib && !has_main,
        },
{
    if !has_lib && !has_main {
        return Err(TargetError::NoTargetFound);
    }
    let profile = if release {
        Profile::Release
    } else {
        Profile::Debug
    };
    let mut list: Vec<Target> = Vec::new();
    if has_lib {
        list.push(Target { name: TargetName::Lib, profile, features: StringSet::new() });
    }
    if has_main {
        list.push(Target { name: TargetName::BinMain, profile, features: StringSet::new() });
    }
    assert(targets(list@) =~= found_targets(has_lib, has_main, release));
    Ok(list)
}

/// The text of a target's name: `lib`, `main`, or the kind of the target, an
/// underscore and its own name.
pub open spec fn target_text(name: TargetNameView) -> Seq<char> {
    match name {
        TargetNameView::Lib => "lib"@,
        TargetNameView::BinMain => "main"@,
        TargetNameView::Bin(s) => "bin_"@ + s,
        TargetNameView::Example(s) => "example_"@ + s,
        TargetNameView::Test(s) => "test_"@ + s,
    }
}

/// `base` followed by the first `n` of `features`, a hyphen before each.
pub open spec fn tagged(base: Seq<char>, features: Seq<Seq<char>>, n: int) -> Seq<char>
    decreases n,
{
    if 0 < n <= features.len() {
        tagged(base, features, n - 1) + seq!['-'] + features[n - 1]
    } else {
        base
    }
}

/// The key under which the manifest lists the entry point named `base`: the
/// text of its path, which is `@`, the name and a dot.
pub open spec fn entry_key(base: Seq<char>) -> Seq<char> {
    show_path(ModPath { prefix: PrefixView::EntryPoint(base), segments: Seq::empty() })
}

/// Whether a key of the manifest is that of an entry point.
pub open spec fn is_entry_key(key: Seq<char>) -> bool {
    key.len() > 0 && key[0] == '@'
}

/// Whether a unit belongs to a build with the features `wanted`: it asks
/// for no feature, or for one of them.
pub open spec fn selected(unit: UnitView, wanted: Set<Seq<char>>) -> bool {
    unit.features == Set::<Seq<char>>::empty() || !unit.features.disjoint(wanted)
}

/// Whether the unit `unit`, listed under `key`, is taken for a build with
/// the features `wanted` as the unit of a module: the key is that of no
/// entry point, and the unit is selected.
pub open spec fn taken(key: Seq<char>, unit: UnitView, wanted: Set<Seq<char>>) -> bool {
    !is_entry_key(key) && selected(unit, wanted)
}

/// Whether `p` is the path of the unit at place `b` under `key`, and that
/// unit is taken.
pub open spec fn listed_at(
    m: Map<Seq<char>, Seq<UnitView>>,
    key: Seq<char>,
    b: int,
    p: Seq<char>,
    wanted: Set<Seq<char>>,
) -> bool {
    m.contains_key(key) && 0 <= b < m[key].len() && m[key][b].path == p && taken(
        key,
        m[key][b],
        wanted,
    )
}

/// The paths of the units of the modules that are taken.
pub open spec fn module_sources(
    m: Map<Seq<char>, Seq<UnitView>>,
    wanted: Set<Seq<char>>,
) -> Set<Seq<char>> {
    Set::new(|p: Seq<char>| exists|key: Seq<char>, b: int| #[trigger] listed_at(m, key, b, p, wanted))
}

/// The paths of some units, in the order of the units.
pub open spec fn unit_paths(list: Seq<UnitView>) -> Seq<Seq<char>> {
    list.map_values(|u: UnitView| u.path)
}

/// Whether `paths` is the list of the files that are compiled for the entry
/// point `entry` with the features `wanted`. First come the paths of the
/// units of the modules that are taken, each once, in ascending order; then
/// those of the units of the entry point, every one, in the order in which
/// the manifest lists them under its key.
pub open spec fn is_file_list(
    m: Map<Seq<char>, Seq<UnitView>>,
    wanted: Set<Seq<char>>,
    entry: Seq<char>,
    paths: Seq<Seq<char>>,
) -> bool {
    let n = paths.len() - m[entry].len();
    &&& m.contains_key(entry)
    &&& n >= 0
    &&& ascending(paths.take(n))
    &&& paths.take(n).to_set() == module_sources(m, wanted)
    &&& paths.skip(n) == unit_paths(m[entry])
}

/// The paths of all the units that are compiled: those of the modules that
/// are taken, and those of the entry point.
pub open spec fn sources(
    m: Map<Seq<char>, Seq<UnitView>>,
    wanted: Set<Seq<char>>,
    entry: Seq<char>,
) -> Set<Seq<char>> {
    module_sources(m, wanted).union(unit_paths(m[entry]).to_set())
}

/// There is one list of files for a build: two lists that both are it are
/// the same list.
pub proof fn law_file_list_is_fixed(
    m: Map<Seq<char>, Seq<UnitView>>,
    wanted: Set<Seq<char>>,
    entry: Seq<char>,
    a: Seq<Seq<char>>,
    b: Seq<Seq<char>>,
)
    requires
        is_file_list(m, wanted, entry, a),
        is_file_list(m, wanted, entry, b),
    ensures
        a == b,
{
    let tail = unit_paths(m[entry]);
    let x = a.len() - tail.len();
    let y = b.len() - tail.len();
    lemma_ascending_unique(a.take(x), b.take(y));
    assert(a =~= a.take(x) + a.skip(x));
    assert(b =~= b.take(y) + b.skip(y));
}

/// The list of files holds the sources and nothing else, and the units of
/// the entry point stand last in it.
pub proof fn law_file_list_holds_the_sources(
    m: Map<Seq<char>, Seq<UnitView>>,
    wanted: Set<Seq<char>>,
    entry: Seq<char>,
    paths: Seq<Seq<char>>,
)
    requires
        is_file_list(m, wanted, entry, paths),
    ensures
        paths.to_set() == sources(m, wanted, entry),
        forall|j: int|
            0 <= j < m[entry].len() ==> paths[paths.len() - m[entry].len() + j]
                == (#[trigger] m[entry][j]).path,
{
    let tail = unit_paths(m[entry]);
    let n = paths.len() - tail.len();
    let body = paths.take(n);
    assert(paths =~= body + paths.skip(n));
    assert forall|p: Seq<char>| paths.contains(p) <==> (body.contains(p) || tail.contains(p)) by {
        if paths.contains(p) {
            let k = choose|k: int| 0 <= k < paths.len() && paths[k] == p;
            if k < n {
                assert(body[k] == p);
            } else {
                assert(tail[k - n] == p);
            }
        }
        if body.contains(p) {
            let k = choose|k: int| 0 <= k < body.len() && body[k] == p;
            assert(paths[k] == p);
        }
        if tail.contains(p) {
            let k = choose|k: int| 0 <= k < tail.len() && tail[k] == p;
            assert(paths[n + k] == p);
        }
    }
    assert(paths.to_set() =~= sources(m, wanted, entry));
    assert forall|j: int| 0 <= j < m[entry].len() implies paths[paths.len() - m[entry].len() + j]
        == (#[trigger] m[entry][j]).path by {
        assert(paths.skip(n)[j] == tail[j]);
    }
}

/// The units of the entry point are compiled whatever features the build
/// has.
pub proof fn law_entry_point_is_always_compiled(
    m: Map<Seq<char>, Seq<UnitView>>,
    wanted: Set<Seq<char>>,
    entry: Seq<char>,
    j: int,
)
    requires
        m.contains_key(entry),
        0 <= j < m[entry].len(),
    ensures
        sources(m, wanted, entry).contains(m[entry][j].path),
{
    assert(unit_paths(m[entry])[j] == m[entry][j].path);
}

/// A unit of a module that asks for no feature is compiled whatever
/// features the build has.
pub proof fn law_plain_unit_is_always_compiled(
    m: Map<Seq<char>, Seq<UnitView>>,
    wanted: Set<Seq<char>>,
    entry: Seq<char>,
    key: Seq<char>,
    j: int,
)
    requires
        m.contains_key(key),
        !is_entry_key(key),
        0 <= j < m[key].len(),
        m[key][j].features == Set::<Seq<char>>::empty(),
    ensures
        sources(m, wanted, entry).contains(m[key][j].path),
{
    assert(listed_at(m, key, j, m[key][j].path, wanted));
}

/// A unit of a module that asks for a feature which the build has is
/// compiled.
pub proof fn law_feature_selects_unit(
    m: Map<Seq<char>, Seq<UnitView>>,
    wanted: Set<Seq<char>>,
    entry: Seq<char>,
    key: Seq<char>,
    j: int,
    feature: Seq<char>,
)
    requires
        m.contains_key(key),
        !is_entry_key(key),
        0 <= j < m[key].len(),
        m[key][j].features.contains(feature),
        wanted.contains(feature),
    ensures
        sources(m, wanted, entry).contains(m[key][j].path),
{
    assert(listed_at(m, key, j, m[key][j].path, wanted));
}

/// A build with more features compiles no fewer files.
pub proof fn law_more_features_more_sources(
    m: Map<Seq<char>, Seq<UnitView>>,
    fewer: Set<Seq<char>>,
    more: Set<Seq<char>>,
    entry: Seq<char>,
)
    requires
        fewer.subset_of(more),
    ensures
        sources(m, fewer, entry).subset_of(sources(m, more, entry)),
{
    assert forall|p: Seq<char>| module_sources(m, fewer).contains(p) implies module_sources(
        m,
        more,
    ).contains(p) by {
        let (key, b) = choose|key: Seq<char>, b: int| #[trigger] listed_at(m, key, b, p, fewer);
        let unit = m[key][b];
        if unit.features != Set::<Seq<char>>::empty() {
            let f = choose|f: Seq<char>| unit.features.contains(f) && fewer.contains(f);
            assert(unit.features.contains(f) && more.contains(f));
        }
        assert(listed_at(m, key, b, p, more));
    }
}

/// Why a target has no list of source files.
#[derive(Debug, Clone, Copy, PartialEq, Eq)]
pub enum ResolveError {
    /// The manifest lists no entry point for the target.
    EntryPointNotFound,
}

impl ResolveError {
    /// What the error says.
    pub open spec fn message_text(self) -> Seq<char> {
        "entry point not found"@
    }

    /// What the error says.
    pub fn message(&self) -> (r: String)
        ensures
            r@ == self.message_text(),
    {
        text_of("entry point not found")
    }
}

/// The source files of a target.
#[derive(Debug, Clone, PartialEq, Eq)]
pub struct FileList {
    /// The name under which the list is kept: that of the target, and the
    /// features of the build in ascending order, a hyphen before each.
    pub name: String,
    /// The paths of the files: those of the modules, in ascending order and
    /// none twice, and then those of the entry point.
    pub paths: Vec<String>,
}

impl TargetName {
    /// The text of the name.
    pub fn to_string(&self) -> (r: String)
        ensures
            r@ == target_text(self@),
    {
        let mut r = String::new();
        match self {
            TargetName::Lib => {
                push_text(&mut r, "lib");
            },
            TargetName::BinMain => {
                push_text(&mut r, "main");
            },
            TargetName::Bin(s) => {
                push_text(&mut r, "bin_");
                push_text(&mut r, s.as_str());
            },
            TargetName::Example(s) => {
                push_text(&mut r, "example_");
                push_text(&mut r, s.as_str());
            },
            TargetName::Test(s) => {
                push_text(&mut r, "test_");
                push_text(&mut r, s.as_str());
            },
        }
        assert(r@ =~= target_text(self@));
        r
    }
}

/// Whether `p` is the path of the unit at place `b` of the key at place `a`,
/// and that unit is taken.
spec fn found_at(manifest: Manifest, a: int, b: int, p: Seq<char>, wanted: Set<Seq<char>>) -> bool {
    0 <= a < manifest.keys().len() && 0 <= b < manifest.listed(a).len() && manifest.listed(
        a,
    )[b].path == p && taken(manifest.keys()[a], manifest.listed(a)[b], wanted)
}

/// The paths of the taken units that stand before place `j` of the key at
/// place `i`.
spec fn gathered(manifest: Manifest, i: int, j: int, wanted: Set<Seq<char>>) -> Set<Seq<char>> {
    Set::new(
        |p: Seq<char>|
            exists|a: int, b: int|
                (a < i || (a == i && b < j)) && #[trigger] found_at(manifest, a, b, p, wanted),
    )
}

/// Whether a unit belongs to a build with the features `wanted`.
fn is_selected(unit: &Unit, wanted: &StringSet) -> (r: bool)
    requires
        unit.wf(),
        wanted.wf(),
    ensures
        r == selected(unit@, wanted@),
{
    unit.features.is_empty() || unit.features.intersects(wanted)
}

/// Whether `key` is the key of an entry point.
fn is_entry(key: &str) -> (r: bool)
    ensures
        r == is_entry_key(key@),
{
    let v = chars_of(key);
    v.len() > 0 && v[0] == '@'
}

/// The paths of the units of the modules that are taken for a build with the
/// features `wanted`.
fn module_files(units: &Manifest, wanted: &StringSet) -> (acc: StringSet)
    requires
        units.wf(),
        wanted.wf(),
    ensures
        acc.wf(),
        acc@ == module_sources(units@, wanted@),
{
    let ghost want = wanted@;
    let mut acc = StringSet::new();
    let mut i: usize = 0;
    assert(acc@ =~= gathered(*units, 0, 0, want));
    while i < units.len()
        invariant
            i <= units.keys().len(),
            units.wf(),
            wanted.wf(),
            want == wanted@,
            acc.wf(),
            acc@ == gathered(*units, i as int, 0, want),
        decreases units.keys().len() - i,
    {
        let list = units.units(i);
        let k = units.key(i);
        let open = !is_entry(k.as_str());
        let mut j: usize = 0;
        while j < list.len()
            invariant
                i < units.keys().len(),
                j <= list.len(),
                units.wf(),
                wanted.wf(),
                want == wanted@,
                crate::manifest::units(list@) == units.listed(i as int),
                forall|x: int| 0 <= x < list@.len() ==> (#[trigger] list@[x]).wf(),
                k@ == units.keys()[i as int],
                open == !is_entry_key(k@),
                acc.wf(),
                acc@ == gathered(*units, i as int, j as int, want),
            decreases list.len() - j,
        {
            let unit = &list[j];
            assert(unit@ == units.listed(i as int)[j as int]);
            let ghost old_acc = acc@;
            let take = open && is_selected(unit, wanted);
            assert(take == taken(k@, unit@, want));
            if take {
                acc.insert(unit.path.clone());
            }
            proof {
                let next = gathered(*units, i as int, j + 1, want);
                assert forall|p: Seq<char>| acc@.contains(p) <==> next.contains(p) by {
                    if next.contains(p) {
                        let (a, b) = choose|a: int, b: int|
                            (a < i || (a == i && b < j + 1)) && #[trigger] found_at(
                                *units,
                                a,
                                b,
                                p,
                                want,
                            );
                        if a == i && b == j {
                            assert(acc@.contains(p));
                        } else {
                            assert(found_at(*units, a, b, p, want));
                            assert(old_acc.contains(p));
                        }
                    }
                    if acc@.contains(p) {
                        if old_acc.contains(p) {
                            let (a, b) = choose|a: int, b: int|
                                (a < i || (a == i && b < j)) && #[trigger] found_at(
                                    *units,
                                    a,
                                    b,
                                    p,
                                    want,
                                );
                            assert(found_at(*units, a, b, p, want));
                        } else {
                            assert(found_at(*units, i as int, j as int, p, want));
                        }
                    }
                }
                assert(acc@ =~= next);
            }
            j += 1;
        }
        proof {
            let here = gathered(*units, i as int, j as int, want);
            let next = gathered(*units, i + 1, 0, want);
            assert forall|p: Seq<char>| here.contains(p) <==> next.contains(p) by {
                if here.contains(p) {
                    let (a, b) = choose|a: int, b: int|
                        (a < i || (a == i && b < j)) && #[trigger] found_at(*units, a, b, p, want);
                    assert(found_at(*units, a, b, p, want));
                }
                if next.contains(p) {
                    let (a, b) = choose|a: int, b: int|
                        (a < i + 1 || (a == i + 1 && b < 0)) && #[trigger] found_at(
                            *units,
                            a,
                            b,
                            p,
                            want,
                        );
                    assert(found_at(*units, a, b, p, want));
                }
            }
            assert(here =~= next);
        }
        i += 1;
    }
    proof {
        units.lemma_listing();
        let all = gathered(*units, i as int, 0, want);
        let target = module_sources(units@, want);
        assert forall|p: Seq<char>| all.contains(p) <==> target.contains(p) by {
            if all.contains(p) {
                let (a, b) = choose|a: int, b: int|
                    (a < i || (a == i && b < 0)) && #[trigger] found_at(*units, a, b, p, want);
                assert(units@.contains_key(units.keys()[a]));
                assert(listed_at(units@, units.keys()[a], b, p, want));
            }
            if target.contains(p) {
                let (k, b) = choose|k: Seq<char>, b: int| #[trigger]
                    listed_at(units@, k, b, p, want);
                assert(units.keys().contains(k));
                let a = choose|a: int| 0 <= a < units.keys().len() && units.keys()[a] == k;
                assert(units@[units.keys()[a]] == units.listed(a));
                assert(found_at(*units, a, b, p, want));
            }
        }
        assert(all =~= target);
    }
    acc
}

/// The source files that `target` is compiled from. First come the files of
/// the modules: the units that ask for no feature or for one that the target
/// has, each file once, in ascending order of the paths. The units of the
/// target's entry point follow, every one, in the order in which the
/// manifest lists them: the entry point stands last.
pub fn src_files(target: &Target, units: &Manifest) -> (r: Result<FileList, ResolveError>)
    requires
        units.wf(),
        target.features.wf(),
    ensures
        match r {
            Ok(list) => {
                &&& list.name@ == tagged(
                    target_text(target.name@),
                    target.features.elements(),
                    target.features.elements().len() as int,
                )
                &&& is_file_list(
                    units@,
                    target.features@,
                    entry_key(target_text(target.name@)),
                    strs(list.paths@),
                )
            },
            Err(e) => !units@.contains_key(entry_key(target_text(target.name@))),
        },
{
    let base = target.name.to_string();
    let mut entry = String::new();
    push_text(&mut entry, "@");
    push_text(&mut entry, base.as_str());
    push_text(&mut entry, ".");
    proof {
        reveal_strlit("@");
        reveal_strlit(".");
        reveal_with_fuel(join, 2);
        assert(entry@ =~= entry_key(base@));
    }
    let at = match units.find(entry.as_str()) {
        Some(at) => at,
        None => {
            return Err(ResolveError::EntryPointNotFound);
        },
    };
    let mut name = base;
    let mut f: usize = 0;
    while f < target.features.len()
        invariant
            f <= target.features.elements().len(),
            name@ == tagged(target_text(target.name@), target.features.elements(), f as int),
        decreases target.features.elements().len() - f,
    {
        let ghost before = name@;
        push_text(&mut name, "-");
        push_text(&mut name, target.features.get(f).as_str());
        proof {
            reveal_strlit("-");
            assert(name@ =~= before + seq!['-'] + target.features.elements()[f as int]);
        }
        f += 1;
    }
    let acc = module_files(units, &target.features);
    let mut paths = acc.to_vec();
    let ghost body = strs(paths@);
    let ghost tail = unit_paths(units@[entry@]);
    proof {
        acc.lemma_view();
    }
    let last = units.units(at);
    let mut j: usize = 0;
    assert(body + tail.take(0) == body);
    while j < last.len()
        invariant
            j <= last.len(),
            crate::manifest::units(last@) == units@[entry@],
            tail == unit_paths(units@[entry@]),
            strs(paths@) == body + tail.take(j as int),
        decreases last.len() - j,
    {
        let item = last[j].path.clone();
        proof {
            lemma_strs_push(paths@, item);
            assert(tail[j as int] == last@[j as int]@.path);
            assert((body + tail.take(j as int)).push(item@) == body + tail.take(j + 1));
        }
        paths.push(item);
        j += 1;
    }
    proof {
        let all = strs(paths@);
        assert(tail.take(last.len() as int) == tail);
        assert(all.take(all.len() - tail.len()) == body);
        assert(all.skip(all.len() - tail.len()) == tail);
    }
    Ok(FileList { name, paths })
}

} // verus!
