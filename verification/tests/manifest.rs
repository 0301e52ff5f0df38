use carsier::manifest::{Manifest, Unit};
use carsier::modpath::{Mod, Prefix};
use carsier::preprocess::{preprocess, Opts};
use carsier::rewrite::{RewriteError, RewriteFault};
use carsier::modpath::ParseError;
use carsier::strset::StringSet;
use carsier::target::{get_target, src_files, Profile, ResolveError, Target, TargetError, TargetName};

fn segs(v: &[&str]) -> Vec<String> {
    v.iter().map(|s| s.to_string()).collect()
}

fn set(v: &[&str]) -> StringSet {
    StringSet::from_vec(segs(v))
}

fn unit(path: &str, features: &[&str]) -> Unit {
    Unit { path: path.to_string(), features: set(features) }
}

fn keys(m: &Manifest) -> Vec<String> {
    (0..m.len()).map(|i| m.key(i).clone()).collect()
}

fn target(name: TargetName, features: &[&str]) -> Target {
    Target { name, profile: Profile::Debug, features: set(features) }
}

#[test]
fn from_path_reads_module_and_features_from_the_name() {
    let (m, f) = Mod::from_path(&segs(&["src", "render-bench.scala"]), &segs(&["src"]));
    assert_eq!(m, Mod(Prefix::Absolute, segs(&["render"])));
    assert_eq!(f.to_vec(), segs(&["bench"]));
    let (m, f) = Mod::from_path(&segs(&["src", "a", "b-x-y.scala"]), &segs(&["src"]));
    assert_eq!(m, Mod(Prefix::Absolute, segs(&["a", "b"])));
    assert_eq!(f.to_vec(), segs(&["x", "y"]));
}

#[test]
fn from_path_finds_entry_points_at_the_top() {
    let (m, f) = Mod::from_path(&segs(&["src", "main.scala"]), &segs(&["src"]));
    assert_eq!(m, Mod(Prefix::EntryPoint("main".to_string()), vec![]));
    assert!(f.is_empty());
    let (m, _) = Mod::from_path(&segs(&["src", "lib.scala"]), &segs(&["src"]));
    assert_eq!(m, Mod(Prefix::EntryPoint("lib".to_string()), vec![]));
    let (m, f) = Mod::from_path(&segs(&["src", "foo", "lib.scala"]), &segs(&["src"]));
    assert_eq!(m, Mod(Prefix::Absolute, segs(&["foo", "lib"])));
    assert!(f.is_empty());
    let (m, f) = Mod::from_path(&segs(&["src", "foo", "lib-fast.scala"]), &segs(&["src"]));
    assert_eq!(m, Mod(Prefix::Absolute, segs(&["foo", "lib"])));
    assert_eq!(f.to_vec(), segs(&["fast"]));
    let (m, _) = Mod::from_path(&segs(&["src", "a", "main.scala"]), &segs(&["src"]));
    assert_eq!(m, Mod(Prefix::Absolute, segs(&["a", "main"])));
}

#[test]
fn from_path_counts_the_root_components_that_do_not_lead_to_the_file() {
    let (m, _) = Mod::from_path(&segs(&["other", "x.scala"]), &segs(&["src"]));
    assert_eq!(m, Mod(Prefix::Relative(1), segs(&["other", "x"])));
    let (m, _) = Mod::from_path(&segs(&["a", "x.scala"]), &segs(&["a", "b", "c"]));
    assert_eq!(m, Mod(Prefix::Relative(2), segs(&["x"])));
    let (m, f) = Mod::from_path(&segs(&["src"]), &segs(&["src"]));
    assert_eq!(m, Mod(Prefix::Absolute, vec![]));
    assert!(f.is_empty());
    let (m, _) = Mod::from_path(&segs(&["src", "notes.txt"]), &segs(&["src"]));
    assert_eq!(m, Mod(Prefix::Absolute, segs(&["notes.txt"])));
}

#[test]
fn manifest_lists_keys_in_ascending_order() {
    let mut m = Manifest::new();
    m.insert("b".to_string(), unit("b.scala", &[]));
    m.insert("a".to_string(), unit("a.scala", &[]));
    m.insert("c".to_string(), unit("c.scala", &[]));
    m.insert("a".to_string(), unit("a-x.scala", &["x"]));
    m.insert("ab".to_string(), unit("ab.scala", &[]));
    assert_eq!(keys(&m), segs(&["a", "ab", "b", "c"]));
    assert_eq!(m.units(0), &vec![unit("a.scala", &[]), unit("a-x.scala", &["x"])]);
    assert_eq!(m.find("b"), Some(2));
    assert_eq!(m.find("d"), None);
}

#[test]
fn register_lists_under_the_text_of_the_module() {
    let mut m = Manifest::new();
    m.register(&Mod(Prefix::Absolute, segs(&["util"])), unit("src/util.scala", &[]));
    m.register(&Mod(Prefix::EntryPoint("main".to_string()), vec![]), unit("src/main.scala", &[]));
    assert_eq!(keys(&m), segs(&["%.util", "@main."]));
}

#[test]
fn features_select_the_units_of_a_target() {
    let mut m = Manifest::new();
    let (module, features) = Mod::from_path(&segs(&["src", "render-bench.scala"]), &segs(&["src"]));
    m.register(&module, Unit { path: "render-bench.scala".to_string(), features });
    m.register(&Mod(Prefix::Absolute, segs(&["render"])), unit("render.scala", &[]));
    m.register(&Mod(Prefix::EntryPoint("main".to_string()), vec![]), unit("main.scala", &[]));
    assert_eq!(m.units(0)[0], unit("render-bench.scala", &["bench"]));

    let list = src_files(&target(TargetName::BinMain, &[]), &m).unwrap();
    assert_eq!(list.paths, segs(&["render.scala", "main.scala"]));
    assert_eq!(list.name, "main");

    let list = src_files(&target(TargetName::BinMain, &["bench"]), &m).unwrap();
    assert_eq!(list.paths, segs(&["render-bench.scala", "render.scala", "main.scala"]));
    assert_eq!(list.name, "main-bench");

    let list = src_files(&target(TargetName::BinMain, &["other", "fast"]), &m).unwrap();
    assert_eq!(list.paths, segs(&["render.scala", "main.scala"]));
    assert_eq!(list.name, "main-fast-other");
}

#[test]
fn entry_point_units_are_taken_whatever_they_ask_for() {
    let mut m = Manifest::new();
    m.insert("@main.".to_string(), unit("main-extra.scala", &["extra"]));
    m.insert("@lib.".to_string(), unit("lib.scala", &[]));
    m.insert("%.a".to_string(), unit("a.scala", &[]));
    let list = src_files(&target(TargetName::BinMain, &[]), &m).unwrap();
    assert_eq!(list.paths, segs(&["a.scala", "main-extra.scala"]));
    let list = src_files(&target(TargetName::Lib, &[]), &m).unwrap();
    assert_eq!(list.paths, segs(&["a.scala", "lib.scala"]));
}

#[test]
fn a_module_file_listed_twice_is_compiled_once() {
    let mut m = Manifest::new();
    m.insert("@main.".to_string(), unit("main.scala", &[]));
    m.insert("%.a".to_string(), unit("x.scala", &[]));
    m.insert("%.b".to_string(), unit("x.scala", &[]));
    m.insert("%.b".to_string(), unit("w.scala", &[]));
    let list = src_files(&target(TargetName::BinMain, &[]), &m).unwrap();
    assert_eq!(list.paths, segs(&["w.scala", "x.scala", "main.scala"]));
}

#[test]
fn the_entry_point_stands_last_in_its_listed_order() {
    let mut m = Manifest::new();
    m.insert("%.util".to_string(), unit("util.scala", &[]));
    m.insert("%.a".to_string(), unit("a.scala", &[]));
    m.insert("@main.".to_string(), unit("main.scala", &[]));
    m.insert("@main.".to_string(), unit("extra.scala", &[]));
    m.insert("@main.".to_string(), unit("a.scala", &[]));
    let list = src_files(&target(TargetName::BinMain, &[]), &m).unwrap();
    assert_eq!(list.paths, segs(&["a.scala", "util.scala", "main.scala", "extra.scala", "a.scala"]));
    let again = src_files(&target(TargetName::BinMain, &[]), &m).unwrap();
    assert_eq!(again, list);
}

#[test]
fn the_key_of_an_entry_point_without_a_dot_is_not_found() {
    let mut m = Manifest::new();
    m.insert("@main".to_string(), unit("main.scala", &[]));
    assert_eq!(src_files(&target(TargetName::BinMain, &[]), &m), Err(ResolveError::EntryPointNotFound));
}

#[test]
fn missing_entry_point_is_an_error() {
    let mut m = Manifest::new();
    m.insert("%.a".to_string(), unit("a.scala", &[]));
    m.insert("@main.".to_string(), unit("main.scala", &[]));
    assert_eq!(src_files(&target(TargetName::Lib, &[]), &m), Err(ResolveError::EntryPointNotFound));
    let t = target(TargetName::Bin("tool".to_string()), &[]);
    assert_eq!(src_files(&t, &m), Err(ResolveError::EntryPointNotFound));
}

#[test]
fn targets_are_found_from_the_entry_points() {
    let lib = Target { name: TargetName::Lib, profile: Profile::Debug, features: StringSet::new() };
    let main = Target { name: TargetName::BinMain, profile: Profile::Debug, features: StringSet::new() };
    assert_eq!(get_target(true, true, false), Ok(vec![lib.clone(), main.clone()]));
    assert_eq!(get_target(true, false, false), Ok(vec![lib]));
    assert_eq!(get_target(false, true, false), Ok(vec![main]));
    let main = Target { name: TargetName::BinMain, profile: Profile::Release, features: StringSet::new() };
    assert_eq!(get_target(false, true, true), Ok(vec![main]));
    assert_eq!(get_target(false, false, true), Err(TargetError::NoTargetFound));
    assert_eq!(TargetError::NoTargetFound.message(), "no target found");
}

#[test]
fn target_names_have_their_texts() {
    assert_eq!(TargetName::Lib.to_string(), "lib");
    assert_eq!(TargetName::BinMain.to_string(), "main");
    assert_eq!(TargetName::Bin("x".to_string()).to_string(), "bin_x");
    assert_eq!(TargetName::Example("x".to_string()).to_string(), "example_x");
    assert_eq!(TargetName::Test("x".to_string()).to_string(), "test_x");
}

#[test]
fn preprocessing_a_project_end_to_end() {
    let root = segs(&["src"]);
    let mut m = Manifest::new();
    let out = preprocess(
        &mut m,
        &segs(&["src", "main.scala"]),
        "src/main.scala",
        "package %%;",
        &root,
        "demo",
        "crates",
    )
    .unwrap();
    assert_eq!(out.module, Some(Mod(Prefix::EntryPoint("main".to_string()), vec![])));
    assert_eq!(out.text, "package crates.demo; import crates.{demo => %};import crates.{demo => %%};\n");
    let out = preprocess(
        &mut m,
        &segs(&["src", "util.scala"]),
        "src/util.scala",
        "package %.util;",
        &root,
        "demo",
        "crates",
    )
    .unwrap();
    assert_eq!(out.module, Some(Mod(Prefix::Absolute, segs(&["util"]))));
    assert_eq!(keys(&m), segs(&["%.util", "@main."]));
    let list = src_files(&target(TargetName::BinMain, &[]), &m).unwrap();
    assert_eq!(list.paths, segs(&["src/util.scala", "src/main.scala"]));
    assert_eq!(list.name, "main");
}

#[test]
fn preprocess_lists_nothing_for_a_file_without_a_package() {
    let mut m = Manifest::new();
    let out = preprocess(&mut m, &segs(&["src", "x.scala"]), "src/x.scala", "object X\n", &segs(&["src"]), "demo", "crates")
        .unwrap();
    assert_eq!(out.module, None);
    assert_eq!(m.len(), 0);
}

#[test]
fn preprocess_leaves_the_manifest_alone_on_an_error() {
    let mut m = Manifest::new();
    m.insert("%.a".to_string(), unit("a.scala", &[]));
    let got = preprocess(&mut m, &segs(&["src", "x.scala"]), "src/x.scala", "package %?;", &segs(&["src"]), "demo", "crates");
    assert_eq!(got, Err(RewriteError { line: 0, fault: RewriteFault::Package(ParseError::UnknownPrefix) }));
    assert_eq!(keys(&m), segs(&["%.a"]));
}

#[test]
fn source_root_is_given_or_read_from_the_pattern() {
    let opts = Opts { features: vec![], pattern: "src/**/*.scala".to_string(), src_root: None };
    assert_eq!(opts.source_root(), "src");
    let opts = Opts { features: vec![], pattern: "a/b/c*/d/*.scala".to_string(), src_root: None };
    assert_eq!(opts.source_root(), "a/b");
    let opts = Opts { features: vec![], pattern: "*.scala".to_string(), src_root: None };
    assert_eq!(opts.source_root(), "");
    let opts = Opts { features: vec![], pattern: "src/**/*.scala".to_string(), src_root: Some("code".to_string()) };
    assert_eq!(opts.source_root(), "code");
}

#[test]
fn string_sets_are_ordered_and_hold_nothing_twice() {
    let mut s = StringSet::new();
    assert!(s.is_empty());
    s.insert("b".to_string());
    s.insert("a".to_string());
    s.insert("b".to_string());
    s.insert("ab".to_string());
    s.insert("".to_string());
    assert_eq!(s.to_vec(), segs(&["", "a", "ab", "b"]));
    assert_eq!(s.len(), 4);
    assert_eq!(s.get(1), "a");
    assert!(s.contains("ab"));
    assert!(!s.contains("c"));
    assert!(s.intersects(&set(&["x", "ab"])));
    assert!(!s.intersects(&set(&["x", "y"])));
    assert!(!s.intersects(&StringSet::new()));
    assert_eq!(set(&["z", "é", "a", "z"]).to_vec(), segs(&["a", "z", "é"]));
}
