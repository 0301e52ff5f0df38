use carsier::cache::LoadError;
use carsier::import::{ImportError, ImportTree};
use carsier::modpath::{Mod, ParseError, Prefix, TransformError};
use carsier::resolve::DepsError;
use carsier::rewrite::RewriteFault;
use carsier::target::ResolveError;

#[test]
fn stray_prefix_says_prefix_mid_expression() {
    let e = ImportTree::parse("a, %.foo").unwrap_err();
    assert_eq!(e.message(), "prefix mid-expression");
}

#[test]
fn import_errors_have_their_messages() {
    assert_eq!(ImportError::UnknownPrefix.message(), "unknown prefix operator");
    assert_eq!(ImportError::TrailingAfterGroup.message(), "trailing characters after closed group");
    assert_eq!(ImportError::UnexpectedBrace.message(), "unmatched brace");
    assert_eq!(ImportError::UnclosedGroup.message(), "unclosed group");
}

#[test]
fn path_errors_have_their_messages() {
    assert_eq!(ParseError::UnknownPrefix.message(), "unknown prefix operator");
    assert_eq!(TransformError::OutOfAbsolute.message(), "relative depth exceeds available ancestry");
    assert_eq!(
        TransformError::DepthOverflow.message(),
        "relative depth exceeds what a machine word holds"
    );
}

#[test]
fn rewrite_faults_have_their_messages() {
    assert_eq!(RewriteFault::Package(ParseError::UnknownPrefix).message(), "unknown prefix operator");
    assert_eq!(RewriteFault::Import(ImportError::StrayPrefix).message(), "prefix mid-expression");
    assert_eq!(RewriteFault::Depth(TransformError::OutOfAbsolute).message(), "depth out of range");
    assert_eq!(RewriteFault::Depth(TransformError::DepthOverflow).message(), "depth out of range");
}

#[test]
fn other_errors_have_their_messages() {
    assert_eq!(ResolveError::EntryPointNotFound.message(), "entry point not found");
    assert_eq!(DepsError::NoVersion.message(), "cannot find a version");
    assert_eq!(LoadError::NotUtf8.message(), "content is not UTF-8");
}

#[test]
fn module_paths_are_read_from_strings() {
    let m: Mod = "%^.a.b".parse().unwrap();
    assert_eq!(m, Mod(Prefix::Relative(1), vec!["a".to_string(), "b".to_string()]));
    assert_eq!("%!".parse::<Mod>(), Err(ParseError::UnknownPrefix));
    assert_eq!(m.duplicate(), m);
}

#[test]
fn parse_keeps_empty_segments() {
    let m = Mod::parse("%.").unwrap();
    assert_eq!(m, Mod(Prefix::Absolute, vec![String::new()]));
    let m = Mod::parse("").unwrap();
    assert_eq!(m, Mod(Prefix::Root(String::new()), vec![]));
    let m = Mod::parse("a..b").unwrap();
    assert_eq!(m, Mod(Prefix::Root("a".to_string()), vec![String::new(), "b".to_string()]));
}
