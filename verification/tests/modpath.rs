use carsier::modpath::{Mod, ParseError, Prefix, TransformError};

fn segs(v: &[&str]) -> Vec<String> {
    v.iter().map(|s| s.to_string()).collect()
}

#[test]
fn parse_absolute_path() {
    let m = Mod::parse("%.foo.bar").unwrap();
    assert_eq!(m, Mod(Prefix::Absolute, segs(&["foo", "bar"])));
}

#[test]
fn parse_relative_paths() {
    assert_eq!(Mod::parse("%%").unwrap(), Mod(Prefix::Relative(0), vec![]));
    assert_eq!(Mod::parse("%^.a").unwrap(), Mod(Prefix::Relative(1), segs(&["a"])));
    assert_eq!(Mod::parse("%^^^").unwrap(), Mod(Prefix::Relative(3), vec![]));
}

#[test]
fn parse_outside_root() {
    assert_eq!(Mod::parse("scala.util").unwrap(), Mod(Prefix::Root("scala".to_string()), segs(&["util"])));
}

#[test]
fn parse_rejects_unknown_prefix() {
    assert_eq!(Mod::parse("%x.a"), Err(ParseError::UnknownPrefix));
    assert_eq!(Mod::parse("%^%"), Err(ParseError::UnknownPrefix));
}

#[test]
fn show_then_parse_gives_the_path_back() {
    for text in ["%.a.b", "%%.x", "%^^.y.z", "scala.collection.mutable", "%", "%%", "%^", "scala", "", "%.", "a..b"] {
        let m = Mod::parse(text).unwrap();
        assert_eq!(m.show(), text);
        assert_eq!(Mod::parse(&m.show()).unwrap(), m);
    }
}

#[test]
fn transform_of_self_reference_is_the_base() {
    let base = Mod(Prefix::Absolute, segs(&["a", "b"]));
    assert_eq!(Mod::parse("%%").unwrap().transform(&base), Ok(base.clone()));
    let base = Mod(Prefix::EntryPoint("main".to_string()), vec![]);
    assert_eq!(Mod::parse("%%").unwrap().transform(&base), Ok(base.clone()));
}

#[test]
fn transform_climbs_and_appends() {
    let base = Mod(Prefix::Absolute, segs(&["a", "b", "c"]));
    let got = Mod::parse("%^^.x").unwrap().transform(&base);
    assert_eq!(got, Ok(Mod(Prefix::Absolute, segs(&["a", "x"]))));
}

#[test]
fn transform_past_a_relative_base_adds_depth() {
    let base = Mod(Prefix::Relative(2), segs(&["a"]));
    let got = Mod::parse("%^^^.x").unwrap().transform(&base);
    assert_eq!(got, Ok(Mod(Prefix::Relative(4), segs(&["x"]))));
}

#[test]
fn transform_past_an_absolute_base_fails() {
    let base = Mod(Prefix::Absolute, segs(&["a"]));
    assert_eq!(Mod::parse("%^^.x").unwrap().transform(&base), Err(TransformError::OutOfAbsolute));
    let base = Mod(Prefix::Root("r".to_string()), vec![]);
    assert_eq!(Mod::parse("%^.x").unwrap().transform(&base), Err(TransformError::OutOfAbsolute));
    let base = Mod(Prefix::EntryPoint("lib".to_string()), vec![]);
    assert_eq!(Mod::parse("%^.x").unwrap().transform(&base), Err(TransformError::OutOfAbsolute));
}

#[test]
fn transform_reports_a_depth_too_large() {
    let base = Mod(Prefix::Relative(usize::MAX), vec![]);
    assert_eq!(Mod::parse("%^.x").unwrap().transform(&base), Err(TransformError::DepthOverflow));
}

#[test]
fn prefix_renders_as_its_token() {
    assert_eq!(Prefix::Absolute.to_string(), "%");
    assert_eq!(Prefix::Relative(0).to_string(), "%%");
    assert_eq!(Prefix::Relative(3).to_string(), "%^^^");
    assert_eq!(Prefix::Root("foo".to_string()).to_string(), "foo");
    assert_eq!(Prefix::EntryPoint("main".to_string()).to_string(), "@main");
}

#[test]
fn show_of_a_path_without_segments() {
    assert_eq!(Mod(Prefix::EntryPoint("main".to_string()), vec![]).show(), "@main.");
    assert_eq!(Mod(Prefix::EntryPoint("main".to_string()), vec!["a".to_string()]).show(), "@main.a");
    assert_eq!(Mod(Prefix::Absolute, vec![]).show(), "%");
    assert_eq!(Mod(Prefix::Absolute, vec![String::new()]).show(), "%.");
    assert_eq!(Mod(Prefix::Absolute, segs(&["a", "b"])).path(), "a.b");
    assert!(Mod(Prefix::Absolute, vec![]).is_empty());
}
