use carsier::import::{ImportError, ImportTree};
use carsier::modpath::{Mod, Prefix, TransformError};

fn segs(v: &[&str]) -> Vec<String> {
    v.iter().map(|s| s.to_string()).collect()
}

fn shown(mods: &[Mod]) -> Vec<String> {
    mods.iter().map(|m| m.show()).collect()
}

fn leaf(path: Mod) -> ImportTree {
    ImportTree { path, children: vec![] }
}

#[test]
fn nested_groups_flatten_from_left_to_right() {
    let tree = ImportTree::parse("a.{b, c.{d,e}}").unwrap();
    let mods = tree.mods();
    assert_eq!(
        mods,
        vec![
            Mod(Prefix::Root("a".to_string()), segs(&["b"])),
            Mod(Prefix::Root("a".to_string()), segs(&["c", "d"])),
            Mod(Prefix::Root("a".to_string()), segs(&["c", "e"])),
        ]
    );
    assert_eq!(shown(&mods), vec!["a.b", "a.c.d", "a.c.e"]);
}

#[test]
fn parse_builds_the_tree_of_the_groups() {
    let tree = ImportTree::parse("a.{b, c.{d,e}}").unwrap();
    let rel = |v: &[&str]| Mod(Prefix::Relative(0), segs(v));
    let expected = ImportTree {
        path: Mod(Prefix::Relative(0), vec![]),
        children: vec![ImportTree {
            path: Mod(Prefix::Root("a".to_string()), vec![]),
            children: vec![
                leaf(rel(&["b"])),
                ImportTree { path: rel(&["c"]), children: vec![leaf(rel(&["d"])), leaf(rel(&["e"]))] },
            ],
        }],
    };
    assert_eq!(tree, expected);
}

#[test]
fn prefix_is_accepted_at_the_start_only() {
    let tree = ImportTree::parse("%.foo").unwrap();
    assert_eq!(tree.mods(), vec![Mod(Prefix::Absolute, segs(&["foo"]))]);
    assert_eq!(ImportTree::parse("a, %.foo"), Err(ImportError::StrayPrefix));
    assert_eq!(ImportTree::parse("%.a.{%.b}"), Err(ImportError::StrayPrefix));
    assert_eq!(ImportTree::parse("%.a.%%"), Err(ImportError::StrayPrefix));
    assert_eq!(ImportTree::parse("a%.b"), Err(ImportError::StrayPrefix));
}

#[test]
fn unknown_prefix_is_rejected() {
    assert_eq!(ImportTree::parse("%x.foo"), Err(ImportError::UnknownPrefix));
    assert_eq!(ImportTree::parse("%^%.foo"), Err(ImportError::UnknownPrefix));
}

#[test]
fn trailing_characters_after_a_group_are_rejected() {
    assert_eq!(ImportTree::parse("a.{b}c"), Err(ImportError::TrailingAfterGroup));
    assert_eq!(ImportTree::parse("a.{b}.c"), Err(ImportError::TrailingAfterGroup));
    assert_eq!(ImportTree::parse("a.{b.{c}d}"), Err(ImportError::TrailingAfterGroup));
}

#[test]
fn braces_out_of_place_are_rejected() {
    assert_eq!(ImportTree::parse("a.b}"), Err(ImportError::UnexpectedBrace));
    assert_eq!(ImportTree::parse("a.{b}}"), Err(ImportError::UnexpectedBrace));
    assert_eq!(ImportTree::parse("a{b}"), Err(ImportError::UnexpectedBrace));
    assert_eq!(ImportTree::parse("a.{b{c}}"), Err(ImportError::UnexpectedBrace));
}

#[test]
fn unclosed_group_is_rejected() {
    assert_eq!(ImportTree::parse("a.{b"), Err(ImportError::UnclosedGroup));
    assert_eq!(ImportTree::parse("a.{b, c.{d}"), Err(ImportError::UnclosedGroup));
}

#[test]
fn white_space_counts_nowhere() {
    let a = ImportTree::parse(" % . foo . { bar ,\tbaz } ").unwrap();
    let b = ImportTree::parse("%.foo.{bar,baz}").unwrap();
    assert_eq!(a, b);
    assert_eq!(shown(&a.mods()), vec!["%.foo.bar", "%.foo.baz"]);
}

#[test]
fn several_terms_stand_side_by_side() {
    let tree = ImportTree::parse("%^.a, b.c").unwrap();
    assert_eq!(
        tree.mods(),
        vec![Mod(Prefix::Relative(1), segs(&["a"])), Mod(Prefix::Root("b".to_string()), segs(&["c"]))]
    );
}

#[test]
fn normalize_resolves_the_outermost_paths() {
    let current = Mod(Prefix::Absolute, segs(&["x", "y"]));
    let tree = ImportTree::parse("%^.a.{b, c.{d}}").unwrap();
    let resolved = tree.normalize(&current).unwrap();
    assert_eq!(shown(&resolved.mods()), vec!["%.x.a.b", "%.x.a.c.d"]);
    let tree = ImportTree::parse("%%.{p, q}").unwrap();
    assert_eq!(shown(&tree.normalize(&current).unwrap().mods()), vec!["%.x.y.p", "%.x.y.q"]);
    let tree = ImportTree::parse("%.top").unwrap();
    assert_eq!(shown(&tree.normalize(&current).unwrap().mods()), vec!["%.top"]);
}

#[test]
fn normalize_keeps_the_shape_of_the_tree() {
    let current = Mod(Prefix::Absolute, segs(&["x"]));
    let tree = ImportTree::parse("%%.a.{b, c}").unwrap();
    let resolved = tree.normalize(&current).unwrap();
    assert_eq!(resolved.children.len(), 1);
    assert_eq!(resolved.children[0].path, Mod(Prefix::Absolute, segs(&["x", "a"])));
    assert_eq!(resolved.children[0].children, tree.children[0].children);
}

#[test]
fn normalize_fails_above_an_absolute_module() {
    let current = Mod(Prefix::Absolute, segs(&["x"]));
    let tree = ImportTree::parse("%^^.a").unwrap();
    assert_eq!(tree.normalize(&current), Err(TransformError::OutOfAbsolute));
}

#[test]
fn normalize_reports_a_depth_too_large() {
    let current = Mod(Prefix::Relative(usize::MAX), vec![]);
    let tree = ImportTree::parse("%^.b").unwrap();
    assert_eq!(tree.normalize(&current), Err(TransformError::DepthOverflow));
}

#[test]
fn normalize_reports_the_first_failure() {
    let current = Mod(Prefix::Absolute, segs(&["x"]));
    let tree = ImportTree {
        path: Mod(Prefix::Relative(0), vec![]),
        children: vec![
            leaf(Mod(Prefix::Relative(1), segs(&["ok"]))),
            leaf(Mod(Prefix::Relative(2), segs(&["far"]))),
            leaf(Mod(Prefix::Relative(3), segs(&["farther"]))),
        ],
    };
    assert_eq!(tree.normalize(&current), Err(TransformError::OutOfAbsolute));
}

#[test]
fn resolving_then_flattening_is_flattening_then_resolving() {
    let current = Mod(Prefix::Absolute, segs(&["x", "y"]));
    for text in ["%^.a.{b, c.{d, e}}", "%%.{p, q.{r}}", "%.top.{u}", "%^^.{v}", "%%"] {
        let tree = ImportTree::parse(text).unwrap();
        let one: Vec<Mod> = tree.normalize(&current).unwrap().mods();
        let other: Vec<Mod> = tree.mods().into_iter().map(|m| m.transform(&current).unwrap()).collect();
        assert_eq!(one, other);
    }
}

#[test]
fn a_tree_without_children_stands_for_its_path() {
    let tree = leaf(Mod(Prefix::Absolute, segs(&["a"])));
    assert_eq!(tree.mods(), vec![Mod(Prefix::Absolute, segs(&["a"]))]);
    assert_eq!(tree.duplicate(), tree);
}
