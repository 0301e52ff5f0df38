use carsier::config::constant::{default_author, default_registry, scala_edition, target_dir, toml_name, NAME, REGISTRY, SCALA_VERSION};
use carsier::config::repo::{Repo, RepoConfig, RepoLike};
use carsier::config::version::{Op, Predicate, VersionRange};
use carsier::config::{names_ascend, Dependency, DependencyLike, FeatureLike, Package, PackageConfig};
use carsier::init::{build_template, get_author_from_git};
use carsier::resolve::{dump_deps_in, DepsError};

fn range(s: &str) -> VersionRange {
    VersionRange::from_str(s).unwrap()
}

fn pred(op: Op, major: u64, minor: Option<u64>, patch: Option<u64>) -> Predicate {
    Predicate { op, major, minor, patch }
}

fn config(edition: &str, dependencies: Vec<(String, DependencyLike)>) -> PackageConfig {
    PackageConfig {
        package: Package {
            name: "demo".to_string(),
            version: "0.1.0".to_string(),
            authors: vec![],
            edition: edition.to_string(),
            registry: default_registry(),
            others: vec![],
        },
        dependencies,
        features: vec![],
        resources: vec![],
    }
}

fn full(version: &str, org: Option<&str>, java: bool) -> DependencyLike {
    DependencyLike::Full(Dependency {
        version: range(version),
        features: vec![],
        java,
        org: org.map(|o| o.to_string()),
        others: vec![],
    })
}

#[test]
fn constants_have_their_values() {
    assert_eq!(NAME, "carsier");
    assert_eq!(REGISTRY, "crates");
    assert_eq!(SCALA_VERSION, "2.13");
    assert_eq!(scala_edition(), "2.13");
    assert_eq!(default_author(), "name <email@example.com>");
    assert_eq!(toml_name(), "Carsier.toml");
    assert_eq!(target_dir(), "target");
    assert_eq!(default_registry(), "crates");
}

#[test]
fn version_requirements_are_read_into_predicates() {
    let v = range("1.2.3");
    assert_eq!(v.predicates(), &vec![pred(Op::Compatible, 1, Some(2), Some(3))]);
    assert_eq!(v.to_string(), "1.2.3");
    let v = range(">=1.0, <2.0.0");
    assert_eq!(
        v.predicates(),
        &vec![pred(Op::GtEq, 1, Some(0), None), pred(Op::Lt, 2, Some(0), Some(0))]
    );
    let v = range("~1");
    assert_eq!(v.predicates(), &vec![pred(Op::Tilde, 1, None, None)]);
    let v = range("=0.9.0");
    assert_eq!(v.predicates(), &vec![pred(Op::Ex, 0, Some(9), Some(0))]);
    let v = range("1.*");
    assert_eq!(v.predicates(), &vec![pred(Op::Wildcard, 1, None, None)]);
    let v = range("*");
    assert_eq!(v.predicates(), &vec![pred(Op::Wildcard, 0, None, None)]);
    let v = range("> 3, <= 4.5");
    assert_eq!(v.predicates(), &vec![pred(Op::Gt, 3, None, None), pred(Op::LtEq, 4, Some(5), None)]);
}

#[test]
fn malformed_requirements_are_rejected() {
    assert!(VersionRange::from_str("not a version").is_err());
    assert!(VersionRange::from_str("1.2.3 junk").is_err());
    assert!(VersionRange::from_str("\0").is_err());
}

#[test]
fn format_version_writes_the_parts_that_are_given() {
    assert_eq!(VersionRange::format_version(&pred(Op::Ex, 1, Some(2), Some(3))), "1.2.3");
    assert_eq!(VersionRange::format_version(&pred(Op::Ex, 10, Some(0), None)), "10.0");
    assert_eq!(VersionRange::format_version(&pred(Op::Ex, 7, None, None)), "7");
    assert_eq!(VersionRange::format_version(&pred(Op::Ex, 7, None, Some(9))), "7");
    assert_eq!(
        VersionRange::format_version(&pred(Op::Ex, u64::MAX, Some(0), Some(1234567890))),
        "18446744073709551615.0.1234567890"
    );
}

#[test]
fn example_takes_the_last_pinning_predicate_or_the_first_lower_bound() {
    assert_eq!(range("1.2.3").example(), Some("1.2.3".to_string()));
    assert_eq!(range(">=1.0, <2.0.0").example(), Some("1.0".to_string()));
    assert_eq!(range(">=1.0, >=1.5").example(), Some("1.0".to_string()));
    assert_eq!(range(">=1.0, <=1.5").example(), Some("1.5".to_string()));
    assert_eq!(range("<=1.5, >=1.0").example(), Some("1.5".to_string()));
    assert_eq!(range("~1.2, ^2.0").example(), Some("2.0".to_string()));
    assert_eq!(range(">1.0, <2.0").example(), None);
    let made = VersionRange::from_parts("made".to_string(), vec![]);
    assert_eq!(made.example(), None);
    let made = VersionRange::from_parts(
        "made".to_string(),
        vec![pred(Op::Lt, 9, None, None), pred(Op::GtEq, 3, Some(1), None), pred(Op::Gt, 2, None, None)],
    );
    assert_eq!(made.example(), Some("3.1".to_string()));
}

#[test]
fn as_coursier_asks_for_the_latest_release_of_any_version() {
    assert_eq!(range("*").as_coursier(), Some("latest.release".to_string()));
    assert_eq!(range("1.*").as_coursier(), Some("1".to_string()));
    assert_eq!(range("<2").as_coursier(), None);
    assert_eq!(range("x").as_coursier(), Some("0".to_string()));
}

#[test]
fn as_dep_gives_the_dependency_in_full() {
    let like = DependencyLike::Version(range("1.0"));
    let dep = like.as_dep();
    assert_eq!(
        dep,
        Dependency { version: range("1.0"), features: vec![], java: false, org: None, others: vec![] }
    );
    assert_eq!(dep, Dependency::from(range("1.0")));
    let given = Dependency {
        version: range("2"),
        features: vec!["f".to_string()],
        java: true,
        org: Some("org.x".to_string()),
        others: vec![("k".to_string(), "v".to_string())],
    };
    assert_eq!(DependencyLike::Full(given.clone()).as_dep(), given);
    assert_eq!(given.duplicate(), given);
}

#[test]
fn dump_deps_in_writes_one_line_for_each_dependency_with_an_organisation() {
    let c = config(
        "2.13",
        vec![
            ("breeze".to_string(), full("1.0", Some("org.scalanlp"), false)),
            ("guava".to_string(), full("*", Some("com.google.guava"), true)),
            ("local".to_string(), full("<1", None, false)),
            ("plain".to_string(), DependencyLike::Version(range("1"))),
        ],
    );
    assert!(c.is_wf());
    assert_eq!(
        dump_deps_in(&c),
        Ok("org.scalanlp:breeze_2.13:1.0\ncom.google.guava:guava:latest.release\n".to_string())
    );
    assert_eq!(dump_deps_in(&config("3", vec![])), Ok(String::new()));
}

#[test]
fn tables_are_well_formed_where_their_names_ascend() {
    let named = |v: &[&str]| -> Vec<(String, u8)> { v.iter().map(|n| (n.to_string(), 0)).collect() };
    assert!(names_ascend(&named(&[])));
    assert!(names_ascend(&named(&["a"])));
    assert!(names_ascend(&named(&["a", "ab", "b", "c"])));
    assert!(!names_ascend(&named(&["a", "c", "b"])));
    assert!(!names_ascend(&named(&["b", "a"])));
    assert!(!names_ascend(&named(&["a", "a"])));
    assert!(!names_ascend(&named(&["a", "b", "c", "c"])));

    let sorted = config("2.13", vec![("a".to_string(), full("1", None, false)), ("b".to_string(), full("1", None, false))]);
    assert!(sorted.is_wf());
    let unsorted = config("2.13", vec![("b".to_string(), full("1", None, false)), ("a".to_string(), full("1", None, false))]);
    assert!(!unsorted.is_wf());
    let mut features = config("2.13", vec![]);
    features.features = vec![
        ("y".to_string(), FeatureLike::Group(vec![])),
        ("x".to_string(), FeatureLike::Group(vec![])),
    ];
    assert!(!features.is_wf());

    let repos = RepoConfig { repos: vec![("a".to_string(), RepoLike::Url("u".to_string())), ("b".to_string(), RepoLike::Url("v".to_string()))] };
    assert!(repos.is_wf());
    let repos = RepoConfig { repos: vec![("b".to_string(), RepoLike::Url("u".to_string())), ("a".to_string(), RepoLike::Url("v".to_string()))] };
    assert!(!repos.is_wf());
    assert!(RepoConfig::default().is_wf());
}

#[test]
fn dump_deps_in_fails_where_no_version_can_be_named() {
    let c = config(
        "2.13",
        vec![
            ("a".to_string(), full("1.0", Some("o"), false)),
            ("b".to_string(), full("<2", Some("o"), false)),
        ],
    );
    assert_eq!(dump_deps_in(&c), Err(DepsError::NoVersion));
}

#[test]
fn repositories_are_plain_values() {
    let a = RepoLike::Url("https://a".to_string());
    let b = RepoLike::Full(Repo { url: "https://a".to_string() });
    assert_ne!(a, b);
    assert_eq!(a.clone(), a);
}

#[test]
fn author_is_read_from_what_git_says() {
    assert_eq!(
        get_author_from_git(Some("Ada Lovelace\n"), Some(" ada@example.com \n")),
        Some("Ada Lovelace <ada@example.com>".to_string())
    );
    assert_eq!(get_author_from_git(None, Some("a@b")), None);
    assert_eq!(get_author_from_git(Some("a"), None), None);
}

#[test]
fn template_is_filled_in() {
    let expected = "[package]\nname = \"demo\"\nversion = \"0.1.0\"\nauthors = [\"Ada <ada@example.com>\"]\nedition = \"2.13\"\n\n[dependencies]\n";
    assert_eq!(build_template("demo", "2.13", Some("Ada <ada@example.com>")), expected);
    let expected = "[package]\nname = \"demo\"\nversion = \"0.1.0\"\nauthors = [\"name <email@example.com>\"]\nedition = \"3\"\n\n[dependencies]\n";
    assert_eq!(build_template("demo", "3", None), expected);
}

#[test]
fn template_marks_are_replaced_one_after_the_other() {
    let got = build_template("<edition>", "2.13", Some("me"));
    assert!(got.contains("name = \"2.13\""));
}
