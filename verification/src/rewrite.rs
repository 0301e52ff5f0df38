//! The source rewriter: one pass over the lines of a source file that turns
//! a `package` declaration written with a module prefix into Scala's own and
//! collects the modules that the file imports.

use vstd::prelude::*;
use crate::import::{
    ImportError, ImportTree, flatten, law_parsed_trees_continue, law_resolve_then_flatten,
    parse_import, resolve,
};
use crate::modpath::{
    Mod, ModPath, ParseError, Prefix, PrefixView, TransformError, bounded_transform, dotted,
    parse_path, paths, prefix_text,
};
use crate::text::{
    chars_of, ends_with, has_prefix, has_suffix, lines_of, push_chars, push_joined,
    push_text, rows, slice_of, starts_with, string_of, strip_trailing, strs, text_lines, text_of,
    trim, trimmed, without_trailing,
};

verus! {

/// What is wrong with a line.
#[derive(Debug, Clone, Copy, PartialEq, Eq)]
pub enum RewriteFault {
    /// The `package` declaration names no module path.
    Package(ParseError),
    /// The `import` statement holds no import expression.
    Import(ImportError),
    /// A path climbs out of range of the module it is resolved against.
    Depth(TransformError),
}

impl RewriteFault {
    /// What the fault says: a path out of range is named as such, and any
    /// other fault by the message of its own error.
    pub open spec fn message_text(self) -> Seq<char> {
        match self {
            RewriteFault::Package(e) => e.message_text(),
            RewriteFault::Import(e) => e.message_text(),
            RewriteFault::Depth(_) => "depth out of range"@,
        }
    }

    /// What the fault says.
    pub fn message(&self) -> (r: String)
        ensures
            r@ == self.message_text(),
    {
        match self {
            RewriteFault::Package(e) => e.message(),
            RewriteFault::Import(e) => e.message(),
            RewriteFault::Depth(_) => text_of("depth out of range"),
        }
    }
}

/// The line at which rewriting stopped, counted from 0, and why.
#[derive(Debug, Clone, Copy, PartialEq, Eq)]
pub struct RewriteError {
    pub line: usize,
    pub fault: RewriteFault,
}

/// A rewritten source file.
#[derive(Debug, Clone, PartialEq, Eq)]
pub struct Rewritten {
    /// The text to compile in place of the source.
    pub text: String,
    /// The module that the file declares, if it declares one.
    pub module: Option<Mod>,
    /// The modules that the file imports by prefix, in the order of the text.
    pub imports: Vec<Mod>,
}

/// A rewritten source file as a mathematical value.
pub struct RewrittenView {
    pub text: Seq<char>,
    pub module: Option<ModPath>,
    pub imports: Seq<ModPath>,
}

/// The view of a path that may be missing.
pub open spec fn opt_path(m: Option<Mod>) -> Option<ModPath> {
    match m {
        Some(x) => Some(x@),
        None => None,
    }
}

impl View for Rewritten {
    type V = RewrittenView;

    open spec fn view(&self) -> RewrittenView {
        RewrittenView {
            text: self.text@,
            module: opt_path(self.module),
            imports: paths(self.imports@),
        }
    }
}

/// What the pass knows after a line: whether a block comment is open, and
/// the module that the file has declared.
pub struct ScanState {
    pub in_comment: bool,
    pub module: Option<ModPath>,
}

/// What a line gives: the state after it, the line to write for it, and the
/// modules it imports.
pub struct LineResult {
    pub state: ScanState,
    pub out: Seq<char>,
    pub imports: Seq<ModPath>,
}

/// What follows the keyword of a statement, without the white space around
/// it and without the semicolons at its end.
pub open spec fn statement(l: Seq<char>, keyword: Seq<char>) -> Seq<char> {
    without_trailing(trim(l.skip(keyword.len() as int)), ';')
}

/// The import that gives the segment at place `i` of a module the name by
/// which the module's own code reaches it: `%%` for the last segment, one
/// more caret for each one before it.
pub open spec fn alias_line(segments: Seq<Seq<char>>, i: int) -> Seq<char> {
    "import %"@ + (if i == 0 {
        Seq::<char>::empty()
    } else {
        seq!['.']
    }) + dotted(segments.take(i)) + ".{"@ + segments[i] + " => "@ + prefix_text(
        PrefixView::Relative((segments.len() - i - 1) as nat),
    ) + "};"@
}

/// The alias imports for the first `n` segments of a module.
pub open spec fn alias_chain(segments: Seq<Seq<char>>, n: int) -> Seq<char>
    decreases n,
{
    if 0 < n <= segments.len() {
        alias_chain(segments, n - 1) + alias_line(segments, n - 1)
    } else {
        Seq::empty()
    }
}

/// The line written for the declaration of the module with these segments:
/// the `package` clause with the module's full name under the registry and
/// the crate, an import that names the crate `%`, one that names it by the
/// module's depth, and the alias imports for the module's segments.
pub open spec fn package_line(
    registry: Seq<char>,
    crate_name: Seq<char>,
    segments: Seq<Seq<char>>,
) -> Seq<char> {
    "package "@ + registry + seq!['.'] + crate_name + (if segments.len() == 0 {
        Seq::<char>::empty()
    } else {
        seq!['.']
    }) + dotted(segments) + ";"@ + " import "@ + registry + ".{"@ + crate_name + " => %};"@
        + "import "@ + registry + ".{"@ + crate_name + " => "@ + prefix_text(
        PrefixView::Relative(segments.len()),
    ) + "};"@ + alias_chain(segments, segments.len() as int)
}

/// What a `package` declaration gives: the module, and the line to write.
/// A declaration that begins with `%` is resolved against the module of the
/// file and written anew, from the segments of the module alone, whatever
/// its prefix; any other is read and left as it stands.
pub open spec fn package_outcome(
    decl: Seq<char>,
    line: Seq<char>,
    current: ModPath,
    registry: Seq<char>,
    crate_name: Seq<char>,
) -> Result<(ModPath, Seq<char>), RewriteFault> {
    match parse_path(decl) {
        Err(e) => Err(RewriteFault::Package(e)),
        Ok(p) => if has_prefix(decl, "%"@) {
            match bounded_transform(p, current) {
                Err(e) => Err(RewriteFault::Depth(e)),
                Ok(m) => Ok((m, package_line(registry, crate_name, m.segments))),
            }
        } else {
            Ok((p, line))
        },
    }
}

/// The modules that an `import` statement names, resolved against the
/// module of the file. A statement that does not begin with `%` names none.
pub open spec fn import_outcome(rhs: Seq<char>, module: ModPath) -> Result<
    Seq<ModPath>,
    RewriteFault,
> {
    if !has_prefix(rhs, "%"@) {
        Ok(Seq::empty())
    } else {
        match parse_import(rhs) {
            Err(e) => Err(RewriteFault::Import(e)),
            Ok(t) => match resolve(t, module) {
                Err(e) => Err(RewriteFault::Depth(e)),
                Ok(n) => Ok(flatten(n)),
            },
        }
    }
}

/// The modules that an `import` statement names are the paths that its
/// expression stands for, each resolved against the module of the file.
pub proof fn law_imports_resolve_path_by_path(rhs: Seq<char>, module: ModPath)
    requires
        has_prefix(rhs, "%"@),
        import_outcome(rhs, module).is_ok(),
    ensures
        parse_import(rhs).is_ok(),
        import_outcome(rhs, module).unwrap().len() == flatten(parse_import(rhs).unwrap()).len(),
        forall|k: int|
            0 <= k < flatten(parse_import(rhs).unwrap()).len() ==> bounded_transform(
                #[trigger] flatten(parse_import(rhs).unwrap())[k],
                module,
            ) == Ok::<ModPath, TransformError>(import_outcome(rhs, module).unwrap()[k]),
{
    law_parsed_trees_continue(rhs);
    law_resolve_then_flatten(parse_import(rhs).unwrap(), module);
}

/// One step of the pass. Inside a block comment a line only counts for
/// where the comment ends. Blank lines and line comments count for nothing.
/// A line that opens a block comment and does not close it starts one.
/// The first line after that which begins with `package` declares the
/// module; from then on each line that begins with `import` is read for
/// the modules it names. Every line but a rewritten declaration is written
/// as it stands.
pub open spec fn scan_line(
    st: ScanState,
    line: Seq<char>,
    current: ModPath,
    registry: Seq<char>,
    crate_name: Seq<char>,
) -> Result<LineResult, RewriteFault> {
    let l = trim(line);
    let same = LineResult { state: st, out: line, imports: Seq::empty() };
    if st.in_comment {
        Ok(
            LineResult {
                state: ScanState { in_comment: !has_suffix(l, "*/"@), module: st.module },
                out: line,
                imports: Seq::empty(),
            },
        )
    } else if l.len() == 0 || has_prefix(l, "//"@) {
        Ok(same)
    } else if has_prefix(l, "/*"@) {
        Ok(
            LineResult {
                state: ScanState {
                    in_comment: !(has_suffix(l, "*/"@) && l.len() >= 4),
                    module: st.module,
                },
                out: line,
                imports: Seq::empty(),
            },
        )
    } else {
        match st.module {
            None => if has_prefix(l, "package"@) {
                match package_outcome(
                    statement(l, "package"@),
                    line,
                    current,
                    registry,
                    crate_name,
                ) {
                    Err(f) => Err(f),
                    Ok((m, out)) => Ok(
                        LineResult {
                            state: ScanState { in_comment: false, module: Some(m) },
                            out,
                            imports: Seq::empty(),
                        },
                    ),
                }
            } else {
                Ok(same)
            },
            Some(m) => if has_prefix(l, "import"@) {
                match import_outcome(statement(l, "import"@), m) {
                    Err(f) => Err(f),
                    Ok(found) => Ok(LineResult { state: st, out: line, imports: found }),
                }
            } else {
                Ok(same)
            },
        }
    }
}

/// The pass over the first `n` lines: the state after them, the text
/// written for them, each line followed by a line feed, and the modules
/// they import; or the place of the first line at fault, and the fault.
pub open spec fn scan(
    lines: Seq<Seq<char>>,
    n: int,
    current: ModPath,
    registry: Seq<char>,
    crate_name: Seq<char>,
) -> Result<LineResult, (int, RewriteFault)>
    decreases n,
{
    if 0 < n <= lines.len() {
        match scan(lines, n - 1, current, registry, crate_name) {
            Err(e) => Err(e),
            Ok(sofar) => match scan_line(
                sofar.state,
                lines[n - 1],
                current,
                registry,
                crate_name,
            ) {
                Err(f) => Err((n - 1, f)),
                Ok(step) => Ok(
                    LineResult {
                        state: step.state,
                        out: sofar.out + step.out + seq!['\n'],
                        imports: sofar.imports + step.imports,
                    },
                ),
            },
        }
    } else {
        Ok(
            LineResult {
                state: ScanState { in_comment: false, module: None },
                out: Seq::empty(),
                imports: Seq::empty(),
            },
        )
    }
}

/// A source file rewritten: the pass over all the lines of `content`, for a
/// file whose place makes it the module `current`.
pub open spec fn rewritten(
    content: Seq<char>,
    current: ModPath,
    registry: Seq<char>,
    crate_name: Seq<char>,
) -> Result<RewrittenView, (int, RewriteFault)> {
    let lines = text_lines(content);
    match scan(lines, lines.len() as int, current, registry, crate_name) {
        Err(e) => Err(e),
        Ok(all) => Ok(
            RewrittenView { text: all.out, module: all.state.module, imports: all.imports },
        ),
    }
}

/// Once the pass has stopped at a line, it has stopped for every longer
/// run of lines.
pub proof fn lemma_scan_fails(
    lines: Seq<Seq<char>>,
    n: int,
    m: int,
    current: ModPath,
    registry: Seq<char>,
    crate_name: Seq<char>,
)
    requires
        0 <= n <= m <= lines.len(),
        scan(lines, n, current, registry, crate_name).is_err(),
    ensures
        scan(lines, m, current, registry, crate_name) == scan(
            lines,
            n,
            current,
            registry,
            crate_name,
        ),
    decreases m - n,
{
    if n < m {
        lemma_scan_fails(lines, n, m - 1, current, registry, crate_name);
    }
}

/// What follows `keyword` in `l`, trimmed and without trailing semicolons.
fn statement_of(l: &Vec<char>, keyword: &Vec<char>) -> (r: Vec<char>)
    requires
        keyword.len() <= l.len(),
    ensures
        r@ == statement(l@, keyword@),
{
    let rest = slice_of(l, keyword.len(), l.len());
    assert(rest@ == l@.skip(keyword.len() as int));
    let t = trimmed(&rest);
    strip_trailing(&t, ';')
}

/// Appends `s` to `out`, of which `base` and then `acc` is known to be the
/// text: `base` and then `acc` with `s` is the text afterwards.
fn put(out: &mut String, s: &str, Ghost(base): Ghost<Seq<char>>, Ghost(acc): Ghost<Seq<char>>)
    requires
        old(out)@ == base + acc,
    ensures
        final(out)@ == base + (acc + s@),
{
    push_text(out, s);
    assert((base + acc) + s@ =~= base + (acc + s@));
}

/// Writes the alias import for the segment at place `i`.
fn write_alias_line(out: &mut String, segments: &Vec<String>, i: usize)
    requires
        i < segments.len(),
    ensures
        final(out)@ == old(out)@ + alias_line(strs(segments@), i as int),
{
    let ghost segs = strs(segments@);
    let ghost base = out@;
    proof {
        reveal_strlit(".");
        reveal_strlit("");
        assert("."@ == seq!['.']);
        assert(""@ == Seq::<char>::empty());
    }
    let dot = if i == 0 {
        ""
    } else {
        "."
    };
    let mut path = String::new();
    push_joined(&mut path, segments, i, ".");
    assert(path@ == dotted(segs.take(i as int)));
    let up = Prefix::Relative(segments.len() - i - 1).to_string();
    push_text(out, "import %");
    let ghost a0 = "import %"@;
    put(out, dot, Ghost(base), Ghost(a0));
    let ghost a1 = a0 + dot@;
    put(out, path.as_str(), Ghost(base), Ghost(a1));
    let ghost a2 = a1 + path@;
    put(out, ".{", Ghost(base), Ghost(a2));
    let ghost a3 = a2 + ".{"@;
    put(out, segments[i].as_str(), Ghost(base), Ghost(a3));
    let ghost a4 = a3 + segs[i as int];
    put(out, " => ", Ghost(base), Ghost(a4));
    let ghost a5 = a4 + " => "@;
    put(out, up.as_str(), Ghost(base), Ghost(a5));
    let ghost a6 = a5 + up@;
    put(out, "};", Ghost(base), Ghost(a6));
}

/// Writes the `package` clause and the two imports that name the crate.
fn write_package_head(out: &mut String, registry: &str, crate_name: &str, segments: &Vec<String>)
    ensures
        final(out)@ + alias_chain(strs(segments@), segments.len() as int) == old(out)@
            + package_line(registry@, crate_name@, strs(segments@)),
{
    let ghost segs = strs(segments@);
    let ghost base = out@;
    let len = segments.len();
    proof {
        reveal_strlit(".");
        reveal_strlit("");
        assert("."@ == seq!['.']);
        assert(""@ == Seq::<char>::empty());
        assert(segs.take(len as int) == segs);
    }
    let dot = if len == 0 {
        ""
    } else {
        "."
    };
    let mut path = String::new();
    push_joined(&mut path, segments, len, ".");
    assert(path@ == dotted(segs));
    let depth = Prefix::Relative(len).to_string();
    push_text(out, "package ");
    let ghost a0 = "package "@;
    put(out, registry, Ghost(base), Ghost(a0));
    let ghost a1 = a0 + registry@;
    put(out, ".", Ghost(base), Ghost(a1));
    let ghost a2 = a1 + seq!['.'];
    put(out, crate_name, Ghost(base), Ghost(a2));
    let ghost a3 = a2 + crate_name@;
    put(out, dot, Ghost(base), Ghost(a3));
    let ghost a4 = a3 + dot@;
    put(out, path.as_str(), Ghost(base), Ghost(a4));
    let ghost a5 = a4 + path@;
    put(out, ";", Ghost(base), Ghost(a5));
    let ghost a6 = a5 + ";"@;
    put(out, " import ", Ghost(base), Ghost(a6));
    let ghost a7 = a6 + " import "@;
    put(out, registry, Ghost(base), Ghost(a7));
    let ghost a8 = a7 + registry@;
    put(out, ".{", Ghost(base), Ghost(a8));
    let ghost a9 = a8 + ".{"@;
    put(out, crate_name, Ghost(base), Ghost(a9));
    let ghost a10 = a9 + crate_name@;
    put(out, " => %};", Ghost(base), Ghost(a10));
    let ghost a11 = a10 + " => %};"@;
    put(out, "import ", Ghost(base), Ghost(a11));
    let ghost a12 = a11 + "import "@;
    put(out, registry, Ghost(base), Ghost(a12));
    let ghost a13 = a12 + registry@;
    put(out, ".{", Ghost(base), Ghost(a13));
    let ghost a14 = a13 + ".{"@;
    put(out, crate_name, Ghost(base), Ghost(a14));
    let ghost a15 = a14 + crate_name@;
    put(out, " => ", Ghost(base), Ghost(a15));
    let ghost a16 = a15 + " => "@;
    put(out, depth.as_str(), Ghost(base), Ghost(a16));
    let ghost a17 = a16 + depth@;
    put(out, "};", Ghost(base), Ghost(a17));
    let ghost a18 = a17 + "};"@;
    let ghost chain = alias_chain(segs, len as int);
    assert(package_line(registry@, crate_name@, segs) == a18 + chain);
    assert((base + a18) + chain =~= base + (a18 + chain));
}

/// Writes the line for the declaration of a module.
fn write_package_line(out: &mut String, registry: &str, crate_name: &str, segments: &Vec<String>)
    ensures
        final(out)@ == old(out)@ + package_line(registry@, crate_name@, strs(segments@)),
{
    let ghost segs = strs(segments@);
    write_package_head(out, registry, crate_name, segments);
    let ghost head = out@;
    let len = segments.len();
    assert(head + alias_chain(segs, 0) =~= head);
    let mut i: usize = 0;
    while i < len
        invariant
            i <= len == segments.len(),
            segs == strs(segments@),
            out@ == head + alias_chain(segs, i as int),
        decreases len - i,
    {
        write_alias_line(out, segments, i);
        assert(head + alias_chain(segs, i as int) + alias_line(segs, i as int) =~= head + (
        alias_chain(segs, i as int) + alias_line(segs, i as int)));
        i += 1;
    }
}

/// Reads a `package` declaration.
fn read_package(
    decl: &Vec<char>,
    line: &Vec<char>,
    current: &Mod,
    registry: &str,
    crate_name: &str,
) -> (r: Result<(Mod, String), RewriteFault>)
    ensures
        match r {
            Ok((m, out)) => package_outcome(decl@, line@, current@, registry@, crate_name@)
                == Ok::<(ModPath, Seq<char>), RewriteFault>((m@, out@)),
            Err(f) => package_outcome(decl@, line@, current@, registry@, crate_name@) == Err::<
                (ModPath, Seq<char>),
                RewriteFault,
            >(f),
        },
{
    let text = string_of(decl, 0, decl.len());
    assert(text@ == decl@);
    let mark = chars_of("%");
    match Mod::parse(text.as_str()) {
        Err(e) => Err(RewriteFault::Package(e)),
        Ok(p) => {
            if starts_with(decl, &mark) {
                match p.transform(current) {
                    Err(e) => Err(RewriteFault::Depth(e)),
                    Ok(m) => {
                        let mut out = String::new();
                        write_package_line(&mut out, registry, crate_name, &m.1);
                        Ok((m, out))
                    },
                }
            } else {
                let out = string_of(line, 0, line.len());
                assert(out@ == line@);
                Ok((p, out))
            }
        },
    }
}

/// Reads an `import` statement.
fn read_import(rhs: &Vec<char>, module: &Mod) -> (r: Result<Vec<Mod>, RewriteFault>)
    ensures
        match r {
            Ok(found) => import_outcome(rhs@, module@) == Ok::<Seq<ModPath>, RewriteFault>(
                paths(found@),
            ),
            Err(f) => import_outcome(rhs@, module@) == Err::<Seq<ModPath>, RewriteFault>(f),
        },
{
    let mark = chars_of("%");
    if !starts_with(rhs, &mark) {
        let none: Vec<Mod> = Vec::new();
        assert(paths(none@) == Seq::<ModPath>::empty());
        return Ok(none);
    }
    let text = string_of(rhs, 0, rhs.len());
    assert(text@ == rhs@);
    match ImportTree::parse(text.as_str()) {
        Err(e) => Err(RewriteFault::Import(e)),
        Ok(t) => match t.normalize(module) {
            Err(e) => Err(RewriteFault::Depth(e)),
            Ok(n) => Ok(n.mods()),
        },
    }
}

/// Rewrites the source text `content` of a file whose place makes it the
/// module `current`, in the crate `crate_name` of the registry
/// `registry_name`.
pub fn rewrite(content: &str, current: &Mod, crate_name: &str, registry_name: &str) -> (r: Result<
    Rewritten,
    RewriteError,
>)
    ensures
        match r {
            Ok(x) => rewritten(content@, current@, registry_name@, crate_name@) == Ok::<
                RewrittenView,
                (int, RewriteFault),
            >(x@),
            Err(e) => rewritten(content@, current@, registry_name@, crate_name@) == Err::<
                RewrittenView,
                (int, RewriteFault),
            >((e.line as int, e.fault)),
        },
{
    let chars = chars_of(content);
    let lines = lines_of(&chars);
    let ghost all = text_lines(content@);
    let ghost cur = current@;
    let ghost reg = registry_name@;
    let ghost cr = crate_name@;
    let package = chars_of("package");
    let import = chars_of("import");
    let line_comment = chars_of("//");
    let open = chars_of("/*");
    let close = chars_of("*/");
    let mut text = String::new();
    let mut module: Option<Mod> = None;
    let mut imports: Vec<Mod> = Vec::new();
    let mut in_comment = false;
    let mut i: usize = 0;
    assert(paths(imports@) == Seq::<ModPath>::empty());
    while i < lines.len()
        invariant
            i <= lines.len(),
            rows(lines@) == all,
            package@ == "package"@,
            import@ == "import"@,
            line_comment@ == "//"@,
            open@ == "/*"@,
            close@ == "*/"@,
            scan(all, i as int, cur, reg, cr) == Ok::<LineResult, (int, RewriteFault)>(
                LineResult {
                    state: ScanState { in_comment, module: opt_path(module) },
                    out: text@,
                    imports: paths(imports@),
                },
            ),
        decreases lines.len() - i,
    {
        let line = &lines[i];
        assert(all[i as int] == line@);
        let l = trimmed(line);
        let ghost st = ScanState { in_comment, module: opt_path(module) };
        let ghost before = text@;
        let ghost found = paths(imports@);
        let mut copy = true;
        if in_comment {
            in_comment = !ends_with(&l, &close);
        } else if l.len() == 0 || starts_with(&l, &line_comment) {
        } else if starts_with(&l, &open) {
            in_comment = !(ends_with(&l, &close) && l.len() >= 4);
        } else {
            match &module {
                None => {
                    if starts_with(&l, &package) {
                        let decl = statement_of(&l, &package);
                        match read_package(&decl, line, current, registry_name, crate_name) {
                            Err(fault) => {
                                proof {
                                    lemma_scan_fails(all, i + 1, all.len() as int, cur, reg, cr);
                                }
                                return Err(RewriteError { line: i, fault });
                            },
                            Ok((m, out)) => {
                                push_text(&mut text, out.as_str());
                                module = Some(m);
                                copy = false;
                            },
                        }
                    }
                },
                Some(m) => {
                    if starts_with(&l, &import) {
                        let rhs = statement_of(&l, &import);
                        match read_import(&rhs, m) {
                            Err(fault) => {
                                proof {
                                    lemma_scan_fails(all, i + 1, all.len() as int, cur, reg, cr);
                                }
                                return Err(RewriteError { line: i, fault });
                            },
                            Ok(mut more) => {
                                let ghost a = paths(imports@);
                                let ghost b = paths(more@);
                                imports.append(&mut more);
                                assert(paths(imports@) == a + b);
                            },
                        }
                    } else {
                        assert(paths(imports@) + Seq::<ModPath>::empty() == paths(imports@));
                    }
                },
            }
        }
        if copy {
            push_chars(&mut text, line);
        }
        proof {
            reveal_strlit("\n");
            assert("\n"@ == seq!['\n']);
            assert(found + Seq::<ModPath>::empty() == found);
        }
        push_text(&mut text, "\n");
        i += 1;
    }
    Ok(Rewritten { text, module, imports })
}

} // verus!
