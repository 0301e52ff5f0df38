use carsier::import::ImportError;
use carsier::modpath::{Mod, ParseError, Prefix, TransformError};
use carsier::rewrite::{rewrite, RewriteError, RewriteFault};

fn segs(v: &[&str]) -> Vec<String> {
    v.iter().map(|s| s.to_string()).collect()
}

fn absolute(v: &[&str]) -> Mod {
    Mod(Prefix::Absolute, segs(v))
}

#[test]
fn package_at_the_root_is_rewritten() {
    let current = Mod(Prefix::EntryPoint("main".to_string()), vec![]);
    let out = rewrite("package %%;\nobject Main\n", &current, "demo", "crates").unwrap();
    assert_eq!(
        out.text,
        "package crates.demo; import crates.{demo => %};import crates.{demo => %%};\nobject Main\n"
    );
    assert_eq!(out.module, Some(current));
    assert!(out.imports.is_empty());
}

#[test]
fn package_of_a_nested_module_gets_its_alias_chain() {
    let current = absolute(&["a", "b"]);
    let out = rewrite("package %%;\n", &current, "demo", "crates").unwrap();
    let expected = concat_all(&[
        "package crates.demo.a.b;",
        " import crates.{demo => %};",
        "import crates.{demo => %^^};",
        "import %.{a => %^};",
        "import %.a.{b => %%};",
        "\n",
    ]);
    assert_eq!(out.text, expected);
    assert_eq!(out.module, Some(absolute(&["a", "b"])));
}

fn concat_all(parts: &[&str]) -> String {
    let mut s = String::new();
    for p in parts {
        s.push_str(p);
    }
    s
}

#[test]
fn package_is_resolved_against_the_module_of_the_file() {
    let current = absolute(&["a", "b"]);
    let out = rewrite("package %^.c;", &current, "demo", "crates").unwrap();
    assert_eq!(out.module, Some(absolute(&["a", "c"])));
    assert!(out.text.starts_with("package crates.demo.a.c; import crates.{demo => %};"));
    let out = rewrite("package %.util;", &current, "demo", "crates").unwrap();
    assert_eq!(out.module, Some(absolute(&["util"])));
}

#[test]
fn plain_package_is_left_as_it_stands() {
    let current = absolute(&["a"]);
    let out = rewrite("  package foo.bar;  \nclass X\n", &current, "demo", "crates").unwrap();
    assert_eq!(out.text, "  package foo.bar;  \nclass X\n");
    assert_eq!(out.module, Some(Mod(Prefix::Root("foo".to_string()), segs(&["bar"]))));
}

#[test]
fn comments_and_blank_lines_are_passed_over() {
    let current = absolute(&["a"]);
    let text = "// package %.x;\n\n/* package %.y;\n package %.z;\n*/\n/* package %.w; */\npackage %%;\n";
    let out = rewrite(text, &current, "demo", "crates").unwrap();
    assert_eq!(out.module, Some(absolute(&["a"])));
    assert!(out.text.starts_with("// package %.x;\n\n/* package %.y;\n package %.z;\n*/\n/* package %.w; */\npackage crates.demo.a;"));
}

#[test]
fn a_comment_closed_on_its_own_line_opens_no_block() {
    let current = absolute(&["a"]);
    let out = rewrite("/* note */\npackage %.b;\n", &current, "demo", "crates").unwrap();
    assert_eq!(out.module, Some(absolute(&["b"])));
    let out = rewrite("/*/\npackage %.b;\n*/\n", &current, "demo", "crates").unwrap();
    assert_eq!(out.module, None);
}

#[test]
fn a_file_without_a_package_declares_no_module() {
    let current = absolute(&["a"]);
    let out = rewrite("object X\nimport %.foo\n", &current, "demo", "crates").unwrap();
    assert_eq!(out.module, None);
    assert_eq!(out.text, "object X\nimport %.foo\n");
    assert!(out.imports.is_empty());
}

#[test]
fn imports_after_the_package_are_collected_and_left_in_the_text() {
    let current = absolute(&["a", "b"]);
    let text = "package %%;\nimport %^.c.{d, e};\nimport scala.util\n// import %.no\nimport %.top\n";
    let out = rewrite(text, &current, "demo", "crates").unwrap();
    assert_eq!(
        out.imports,
        vec![absolute(&["a", "c", "d"]), absolute(&["a", "c", "e"]), absolute(&["top"])]
    );
    assert!(out.text.ends_with("\nimport %^.c.{d, e};\nimport scala.util\n// import %.no\nimport %.top\n"));
}

#[test]
fn lines_end_with_a_line_feed_in_the_output() {
    let current = absolute(&[]);
    let out = rewrite("a\r\nb\nc", &current, "demo", "crates").unwrap();
    assert_eq!(out.text, "a\nb\nc\n");
    let out = rewrite("", &current, "demo", "crates").unwrap();
    assert_eq!(out.text, "");
}

#[test]
fn a_malformed_package_names_its_line() {
    let current = absolute(&["a"]);
    let got = rewrite("\n\npackage %x.y;\n", &current, "demo", "crates");
    assert_eq!(got, Err(RewriteError { line: 2, fault: RewriteFault::Package(ParseError::UnknownPrefix) }));
}

#[test]
fn a_package_out_of_range_names_its_line() {
    let current = absolute(&["a"]);
    let got = rewrite("package %^^.y;\n", &current, "demo", "crates");
    assert_eq!(
        got,
        Err(RewriteError { line: 0, fault: RewriteFault::Depth(TransformError::OutOfAbsolute) })
    );
}

#[test]
fn a_depth_too_large_names_its_line() {
    let current = Mod(Prefix::Relative(usize::MAX), vec![]);
    let got = rewrite("// top
package %^.y;
", &current, "demo", "crates");
    assert_eq!(
        got,
        Err(RewriteError { line: 1, fault: RewriteFault::Depth(TransformError::DepthOverflow) })
    );
}

#[test]
fn a_module_outside_the_sources_keeps_its_segments_only() {
    let current = Mod(Prefix::Relative(1), segs(&["other", "x"]));
    let out = rewrite("package %%;
", &current, "demo", "crates").unwrap();
    assert_eq!(out.module, Some(Mod(Prefix::Relative(1), segs(&["other", "x"]))));
    assert!(out.text.starts_with("package crates.demo.other.x;"));
}

#[test]
fn a_malformed_import_names_its_line() {
    let current = absolute(&["a"]);
    let got = rewrite("package %%;\nimport %.a.{b}c\n", &current, "demo", "crates");
    assert_eq!(
        got,
        Err(RewriteError { line: 1, fault: RewriteFault::Import(ImportError::TrailingAfterGroup) })
    );
    let got = rewrite("package %%;\nval x = 1\nimport %^^^.q\n", &current, "demo", "crates");
    assert_eq!(
        got,
        Err(RewriteError { line: 2, fault: RewriteFault::Depth(TransformError::OutOfAbsolute) })
    );
}
