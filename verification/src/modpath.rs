//! Module paths: where a module stands in a project's hierarchy, as a prefix
//! and a list of segments, and how one path is resolved against another.

use vstd::prelude::*;
use crate::strset::StringSet;
use crate::text::{
    chars_of, ends_with, join, lemma_join_split, lemma_split_nonempty, lemma_split_pieces,
    lemma_strs_push, push_joined, push_text, same_text, slice_of, split, split_text, strs, text_of,
    without_suffix,
};

verus! {

/// How the segments of a path are to be read.
#[derive(Debug, Clone, PartialEq, Eq)]
pub enum Prefix {
    /// So many levels above the current module; none is the module itself.
    Relative(usize),
    /// From the root of this project's sources.
    Absolute,
    /// From a named root outside this project.
    Root(String),
    /// The project's `main` or `lib` unit. Only a file's place gives it.
    EntryPoint(String),
}

/// A prefix as a mathematical value; its depth is not bounded.
pub enum PrefixView {
    Relative(nat),
    Absolute,
    Root(Seq<char>),
    EntryPoint(Seq<char>),
}

impl View for Prefix {
    type V = PrefixView;

    open spec fn view(&self) -> PrefixView {
        match *self {
            Prefix::Relative(n) => PrefixView::Relative(n as nat),
            Prefix::Absolute => PrefixView::Absolute,
            Prefix::Root(s) => PrefixView::Root(s@),
            Prefix::EntryPoint(s) => PrefixView::EntryPoint(s@),
        }
    }
}

/// A module path: a prefix and the segments that follow it.
#[derive(Debug, Clone, PartialEq, Eq)]
pub struct Mod(pub Prefix, pub Vec<String>);

/// A module path as a mathematical value.
pub struct ModPath {
    pub prefix: PrefixView,
    pub segments: Seq<Seq<char>>,
}

impl View for Mod {
    type V = ModPath;

    open spec fn view(&self) -> ModPath {
        ModPath { prefix: self.0@, segments: strs(self.1@) }
    }
}

/// Why a text is no module path.
#[derive(Debug, Clone, Copy, PartialEq, Eq)]
pub enum ParseError {
    /// The first token begins with `%` and is none of `%`, `%%`, `%^`, `%^^`, ...
    UnknownPrefix,
}

/// Why a path cannot be resolved against a base.
#[derive(Debug, Clone, Copy, PartialEq, Eq)]
pub enum TransformError {
    /// The path climbs above a base that is not itself relative.
    OutOfAbsolute,
    /// The depth of the resolved path is more than a `usize` holds.
    DepthOverflow,
}

impl ParseError {
    /// What the error says.
    pub open spec fn message_text(self) -> Seq<char> {
        "unknown prefix operator"@
    }

    /// What the error says.
    pub fn message(&self) -> (r: String)
        ensures
            r@ == self.message_text(),
    {
        text_of("unknown prefix operator")
    }
}

impl TransformError {
    /// What the error says.
    pub open spec fn message_text(self) -> Seq<char> {
        match self {
            TransformError::OutOfAbsolute => "relative depth exceeds available ancestry"@,
            TransformError::DepthOverflow => "relative depth exceeds what a machine word holds"@,
        }
    }

    /// What the error says.
    pub fn message(&self) -> (r: String)
        ensures
            r@ == self.message_text(),
    {
        match self {
            TransformError::OutOfAbsolute => text_of("relative depth exceeds available ancestry"),
            TransformError::DepthOverflow => text_of(
                "relative depth exceeds what a machine word holds",
            ),
        }
    }
}

/// `n` carets.
pub open spec fn carets(n: nat) -> Seq<char> {
    Seq::new(n, |i: int| '^')
}

/// The token that stands for a prefix: `%` for the project's root, `%%` for
/// the current module, `%` and one caret per level for a module above it, the
/// name of an outside root, and `@` before the name of an entry point.
pub open spec fn prefix_text(p: PrefixView) -> Seq<char> {
    match p {
        PrefixView::EntryPoint(s) => seq!['@'] + s,
        PrefixView::Absolute => seq!['%'],
        PrefixView::Relative(n) => if n == 0 {
            seq!['%', '%']
        } else {
            seq!['%'] + carets(n)
        },
        PrefixView::Root(s) => s,
    }
}

/// The prefix that a first token stands for, if any. A token that does not
/// begin with `%` names an outside root.
pub open spec fn parse_prefix(tok: Seq<char>) -> Option<PrefixView> {
    if tok == seq!['%'] {
        Some(PrefixView::Absolute)
    } else if tok == seq!['%', '%'] {
        Some(PrefixView::Relative(0))
    } else if tok.len() >= 2 && tok[0] == '%' && tok.skip(1) == carets((tok.len() - 1) as nat) {
        Some(PrefixView::Relative((tok.len() - 1) as nat))
    } else if tok.len() == 0 || tok[0] != '%' {
        Some(PrefixView::Root(tok))
    } else {
        None
    }
}

/// The path that a text stands for: its tokens are what the dots part, the
/// first gives the prefix and the others are the segments as they stand.
pub open spec fn parse_path(s: Seq<char>) -> Result<ModPath, ParseError> {
    let toks = split(s, '.');
    match parse_prefix(toks[0]) {
        Some(p) => Ok(ModPath { prefix: p, segments: toks.skip(1) }),
        None => Err(ParseError::UnknownPrefix),
    }
}

/// The segments with dots between them.
pub open spec fn dotted(segments: Seq<Seq<char>>) -> Seq<char> {
    join(segments, seq!['.'])
}

/// The dot that ends the text of an entry point without segments, and sets
/// it apart from every text that reads as a path.
pub open spec fn entry_mark(m: ModPath) -> Seq<char> {
    if m.prefix is EntryPoint && m.segments.len() == 0 {
        seq!['.']
    } else {
        Seq::empty()
    }
}

/// A path as text: its prefix and its segments, with dots between them. An
/// entry point without segments is its prefix and a dot, as in `@main.`.
pub open spec fn show_path(m: ModPath) -> Seq<char> {
    join(seq![prefix_text(m.prefix)] + m.segments, seq!['.']) + entry_mark(m)
}

/// `p` resolved against `base`. A relative path drops as many trailing
/// segments of the base as it has levels and continues from there with its
/// own; where the base has too few, what is left over adds to the depth of a
/// relative base, and is an error under any other. A path that is not
/// relative is resolved already.
pub open spec fn transform_path(p: ModPath, base: ModPath) -> Result<ModPath, TransformError> {
    match p.prefix {
        PrefixView::Relative(n) => {
            let len = base.segments.len();
            if len >= n {
                Ok(
                    ModPath {
                        prefix: base.prefix,
                        segments: base.segments.take(len - n) + p.segments,
                    },
                )
            } else {
                match base.prefix {
                    PrefixView::Relative(m) => Ok(
                        ModPath {
                            prefix: PrefixView::Relative((m + n - len) as nat),
                            segments: p.segments,
                        },
                    ),
                    _ => Err(TransformError::OutOfAbsolute),
                }
            }
        },
        _ => Ok(p),
    }
}

/// How many leading components two paths share.
pub open spec fn common_len(a: Seq<Seq<char>>, b: Seq<Seq<char>>) -> nat
    decreases a.len(),
{
    if a.len() > 0 && b.len() > 0 && a[0] == b[0] {
        1 + common_len(a.drop_first(), b.drop_first())
    } else {
        0
    }
}

/// The module that a source file belongs to, and the features it asks for,
/// from the components of its path and of the source root's path.
///
/// The components that follow what the two paths share name the module: the
/// directories, then the file's name without `.scala` and without what follows
/// its first `-`. The words that the further `-` part are the features. The
/// prefix is absolute where the whole root leads to the file, and else counts
/// the components of the root that do not. A file `main` or `lib` directly
/// under what is shared is the entry point of that name and has no segment;
/// further down such a file is named like any other.
pub open spec fn located(path: Seq<Seq<char>>, root: Seq<Seq<char>>) -> (ModPath, Set<Seq<char>>) {
    let k = common_len(path, root) as int;
    let rest = path.skip(k);
    let prefix = if root.len() - k == 0 {
        PrefixView::Absolute
    } else {
        PrefixView::Relative((root.len() - k) as nat)
    };
    if rest.len() == 0 {
        (ModPath { prefix, segments: rest }, Set::empty())
    } else {
        let dirs = rest.drop_last();
        let words = split(without_suffix(rest.last(), ".scala"@), '-');
        let name = module_name(rest.last());
        let features = words.skip(1).to_set();
        if (name == "lib"@ || name == "main"@) && dirs.len() == 0 {
            (ModPath { prefix: PrefixView::EntryPoint(name), segments: dirs }, features)
        } else {
            (ModPath { prefix, segments: dirs.push(name) }, features)
        }
    }
}

/// Whether the depth of a path fits a `usize`.
pub open spec fn depth_fits(m: ModPath) -> bool {
    m.prefix matches PrefixView::Relative(n) ==> n <= usize::MAX
}

/// `transform_path` on a machine: a result whose depth no `usize` holds is an
/// error.
pub open spec fn bounded_transform(p: ModPath, base: ModPath) -> Result<ModPath, TransformError> {
    match transform_path(p, base) {
        Ok(m) => if depth_fits(m) {
            Ok(m)
        } else {
            Err(TransformError::DepthOverflow)
        },
        Err(e) => Err(e),
    }
}

/// The views of a sequence of paths.
pub open spec fn paths(v: Seq<Mod>) -> Seq<ModPath> {
    v.map_values(|m: Mod| m@)
}

/// The views of a sequence with one more path.
pub proof fn lemma_paths_push(v: Seq<Mod>, m: Mod)
    ensures
        paths(v.push(m)) == paths(v).push(m@),
{
    assert(paths(v.push(m)) =~= paths(v).push(m@));
}

/// A copy of `v`.
pub fn clone_strings(v: &Vec<String>) -> (r: Vec<String>)
    ensures
        strs(r@) == strs(v@),
{
    let mut r: Vec<String> = Vec::new();
    let mut i: usize = 0;
    while i < v.len()
        invariant
            i <= v.len(),
            strs(r@) == strs(v@).take(i as int),
        decreases v.len() - i,
    {
        let item = v[i].clone();
        proof {
            lemma_strs_push(r@, item);
            assert(strs(v@).take(i as int).push(item@) == strs(v@).take(i + 1));
        }
        r.push(item);
        i += 1;
    }
    assert(strs(v@).take(v.len() as int) == strs(v@));
    r
}

impl Prefix {
    /// The token that stands for this prefix.
    pub fn to_string(&self) -> (r: String)
        ensures
            r@ == prefix_text(self@),
    {
        match self {
            Prefix::EntryPoint(s) => {
                let mut r = String::new();
                push_text(&mut r, "@");
                push_text(&mut r, s.as_str());
                proof {
                    reveal_strlit("@");
                    assert("@"@ == seq!['@']);
                }
                r
            },
            Prefix::Absolute => {
                let mut r = String::new();
                push_text(&mut r, "%");
                proof {
                    reveal_strlit("%");
                    assert(r@ == seq!['%']);
                }
                r
            },
            Prefix::Relative(n) => {
                let mut r = String::new();
                push_text(&mut r, "%");
                proof {
                    reveal_strlit("%");
                    reveal_strlit("^");
                    assert(r@ == seq!['%'] + carets(0));
                }
                if *n == 0 {
                    push_text(&mut r, "%");
                    assert(r@ == seq!['%', '%']);
                    return r;
                }
                let mut i: usize = 0;
                while i < *n
                    invariant
                        i <= *n,
                        r@ == seq!['%'] + carets(i as nat),
                        "^"@ == seq!['^'],
                    decreases *n - i,
                {
                    push_text(&mut r, "^");
                    assert(r@ == seq!['%'] + carets((i + 1) as nat));
                    i += 1;
                }
                r
            },
            Prefix::Root(s) => s.clone(),
        }
    }

    /// A copy of this prefix.
    pub fn duplicate(&self) -> (r: Prefix)
        ensures
            r@ == self@,
    {
        match self {
            Prefix::EntryPoint(s) => Prefix::EntryPoint(s.clone()),
            Prefix::Absolute => Prefix::Absolute,
            Prefix::Relative(n) => Prefix::Relative(*n),
            Prefix::Root(s) => Prefix::Root(s.clone()),
        }
    }

    /// Reads a first token as a prefix.
    pub fn parse(tok: &str) -> (r: Option<Prefix>)
        ensures
            match r {
                Some(p) => parse_prefix(tok@) == Some(p@),
                None => parse_prefix(tok@).is_none(),
            },
    {
        let t = chars_of(tok);
        let n = t.len();
        if n == 0 || t[0] != '%' {
            assert(tok@ != seq!['%']);
            assert(tok@ != seq!['%', '%']);
            let mut name = String::new();
            push_text(&mut name, tok);
            return Some(Prefix::Root(name));
        }
        if n == 1 {
            assert(tok@ == seq!['%']);
            return Some(Prefix::Absolute);
        }
        if n == 2 && t[1] == '%' {
            assert(tok@ == seq!['%', '%']);
            return Some(Prefix::Relative(0));
        }
        assert(tok@ != seq!['%']);
        assert(tok@ != seq!['%', '%']) by {
            if tok@ == seq!['%', '%'] {
                assert(tok@[1] == '%');
            }
        }
        let mut i: usize = 1;
        while i < n
            invariant
                1 <= i <= n == t.len(),
                t@ == tok@,
                t@[0] == '%',
                tok@ != seq!['%'],
                tok@ != seq!['%', '%'],
                forall|j: int| 1 <= j < i ==> t@[j] == '^',
            decreases n - i,
        {
            if t[i] != '^' {
                assert(tok@.skip(1)[i - 1] != carets((n - 1) as nat)[i - 1]);
                return None;
            }
            i += 1;
        }
        assert(tok@.skip(1) == carets((n - 1) as nat));
        Some(Prefix::Relative(n - 1))
    }
}

impl std::str::FromStr for Mod {
    type Err = ParseError;

    /// Reads a module path, as `Mod::parse` does.
    fn from_str(s: &str) -> (r: Result<Mod, ParseError>)
        ensures
            match r {
                Ok(m) => parse_path(s@) == Ok::<ModPath, ParseError>(m@),
                Err(e) => parse_path(s@) == Err::<ModPath, ParseError>(e),
            },
    {
        Mod::parse(s)
    }
}

impl Mod {
    /// Reads a module path. The tokens of `s` are what its dots part: the
    /// first gives the prefix, the others are the segments as they stand.
    pub fn parse(s: &str) -> (r: Result<Mod, ParseError>)
        ensures
            match r {
                Ok(m) => parse_path(s@) == Ok::<ModPath, ParseError>(m@),
                Err(e) => parse_path(s@) == Err::<ModPath, ParseError>(e),
            },
    {
        let v = chars_of(s);
        let mut parts = split_text(&v, '.');
        proof {
            lemma_split_nonempty(s@, '.');
        }
        let first = parts.remove(0);
        assert(strs(parts@) == split(s@, '.').skip(1));
        assert(first@ == split(s@, '.')[0]);
        match Prefix::parse(first.as_str()) {
            Some(p) => Ok(Mod(p, parts)),
            None => Err(ParseError::UnknownPrefix),
        }
    }

    /// The module of the source file at `path`, under the source root `root`,
    /// and the features that the file's name asks for. Both paths are given
    /// by their components.
    pub fn from_path(path: &Vec<String>, root: &Vec<String>) -> (r: (Mod, StringSet))
        ensures
            r.0@ == located(strs(path@), strs(root@)).0,
            r.1@ == located(strs(path@), strs(root@)).1,
            r.1.wf(),
    {
        let ghost p = strs(path@);
        let ghost q = strs(root@);
        let mut k: usize = 0;
        assert(p.skip(0) == p && q.skip(0) == q);
        while k < path.len() && k < root.len() && path[k] == root[k]
            invariant
                k <= path.len(),
                k <= root.len(),
                common_len(p, q) == k + common_len(p.skip(k as int), q.skip(k as int)),
            decreases path.len() - k,
        {
            assert(p.skip(k as int).drop_first() == p.skip(k + 1));
            assert(q.skip(k as int).drop_first() == q.skip(k + 1));
            k += 1;
        }
        assert(common_len(p, q) == k) by {
            if k < path.len() && k < root.len() {
                assert(p.skip(k as int)[0] == path@[k as int]@);
                assert(q.skip(k as int)[0] == root@[k as int]@);
            }
        }
        let ghost rest = p.skip(k as int);
        let prefix = if root.len() - k == 0 {
            Prefix::Absolute
        } else {
            Prefix::Relative(root.len() - k)
        };
        if k == path.len() {
            let set = StringSet::new();
            let segments: Vec<String> = Vec::new();
            assert(strs(segments@) == rest);
            return (Mod(prefix, segments), set);
        }
        let last = path.len() - 1;
        let mut dirs: Vec<String> = Vec::new();
        let mut i: usize = k;
        while i < last
            invariant
                k <= i <= last < path.len(),
                strs(dirs@) == p.subrange(k as int, i as int),
            decreases last - i,
        {
            let item = path[i].clone();
            proof {
                lemma_strs_push(dirs@, item);
                assert(p.subrange(k as int, i as int).push(item@) == p.subrange(k as int, i + 1));
            }
            dirs.push(item);
            i += 1;
        }
        assert(strs(dirs@) == rest.drop_last());
        assert(rest.last() == path@[last as int]@);
        let file = chars_of(path[last].as_str());
        let ext = chars_of(".scala");
        let stem = if ends_with(&file, &ext) {
            slice_of(&file, 0, file.len() - ext.len())
        } else {
            file
        };
        assert(stem@ == without_suffix(rest.last(), ".scala"@));
        let mut words = split_text(&stem, '-');
        proof {
            lemma_split_nonempty(stem@, '-');
        }
        let name = words.remove(0);
        assert(strs(words@) == split(stem@, '-').skip(1));
        assert(name@ == split(stem@, '-')[0]);
        let features = StringSet::from_vec(words);
        let is_entry = same_text(name.as_str(), "lib") || same_text(name.as_str(), "main");
        if is_entry && dirs.len() == 0 {
            (Mod(Prefix::EntryPoint(name), dirs), features)
        } else {
            proof {
                lemma_strs_push(dirs@, name);
            }
            dirs.push(name);
            (Mod(prefix, dirs), features)
        }
    }

    /// The segments with dots between them.
    pub fn path(&self) -> (r: String)
        ensures
            r@ == dotted(self@.segments),
    {
        let mut r = String::new();
        proof {
            reveal_strlit(".");
            assert("."@ == seq!['.']);
            assert(strs(self.1@).take(self.1.len() as int) == strs(self.1@));
        }
        push_joined(&mut r, &self.1, self.1.len(), ".");
        r
    }

    /// The path as text: the prefix and the segments, with dots between
    /// them, and a dot after an entry point without segments.
    pub fn show(&self) -> (r: String)
        ensures
            r@ == show_path(self@),
    {
        let mut r = self.0.to_string();
        let ghost head = seq![prefix_text(self@.prefix)];
        let ghost segments = self@.segments;
        proof {
            reveal_strlit(".");
            assert(head + segments.take(0) == head);
        }
        let mut i: usize = 0;
        while i < self.1.len()
            invariant
                i <= self.1.len(),
                head == seq![prefix_text(self@.prefix)],
                segments == strs(self.1@),
                "."@ == seq!['.'],
                r@ == join(head + segments.take(i as int), seq!['.']),
            decreases self.1.len() - i,
        {
            proof {
                let all = head + segments.take(i + 1);
                assert(all.drop_last() == head + segments.take(i as int));
                assert(all.last() == self.1@[i as int]@);
            }
            push_text(&mut r, ".");
            push_text(&mut r, self.1[i].as_str());
            i += 1;
        }
        assert(segments.take(self.1.len() as int) == segments);
        let marked = match &self.0 {
            Prefix::EntryPoint(_) => self.1.len() == 0,
            _ => false,
        };
        if marked {
            push_text(&mut r, ".");
        } else {
            assert(r@ + entry_mark(self@) == r@);
        }
        r
    }

    /// Whether the path has no segments.
    pub fn is_empty(&self) -> (r: bool)
        ensures
            r == (self@.segments.len() == 0),
    {
        self.1.len() == 0
    }

    /// A copy of this path.
    pub fn duplicate(&self) -> (r: Mod)
        ensures
            r@ == self@,
    {
        Mod(self.0.duplicate(), clone_strings(&self.1))
    }

    /// Resolves this path against `base`, as `transform_path` says. The one
    /// case it has no answer for is a depth that no `usize` holds.
    pub fn transform(self, base: &Mod) -> (r: Result<Mod, TransformError>)
        ensures
            match r {
                Ok(m) => bounded_transform(self@, base@) == Ok::<ModPath, TransformError>(m@),
                Err(e) => bounded_transform(self@, base@) == Err::<ModPath, TransformError>(e),
            },
    {
        let Mod(prefix, mut segments) = self;
        match prefix {
            Prefix::Relative(n) => {
                let len = base.1.len();
                if len >= n {
                    let mut out: Vec<String> = Vec::new();
                    let mut i: usize = 0;
                    while i < len - n
                        invariant
                            i <= len - n,
                            n <= len == base.1.len(),
                            strs(out@) == strs(base.1@).take(i as int),
                        decreases len - n - i,
                    {
                        let item = base.1[i].clone();
                        proof {
                            lemma_strs_push(out@, item);
                            assert(strs(base.1@).take(i as int).push(item@) == strs(base.1@).take(
                                i + 1,
                            ));
                        }
                        out.push(item);
                        i += 1;
                    }
                    let ghost kept = out@;
                    let ghost own = segments@;
                    out.append(&mut segments);
                    assert(strs(out@) == strs(kept) + strs(own));
                    Ok(Mod(base.0.duplicate(), out))
                } else {
                    match &base.0 {
                        Prefix::Relative(m) => match m.checked_add(n - len) {
                            Some(depth) => Ok(Mod(Prefix::Relative(depth), segments)),
                            None => Err(TransformError::DepthOverflow),
                        },
                        _ => Err(TransformError::OutOfAbsolute),
                    }
                }
            },
            Prefix::Absolute => Ok(Mod(Prefix::Absolute, segments)),
            Prefix::Root(s) => Ok(Mod(Prefix::Root(s), segments)),
            Prefix::EntryPoint(s) => Ok(Mod(Prefix::EntryPoint(s), segments)),
        }
    }
}

/// A token that stands for a prefix is the text of that prefix.
pub proof fn lemma_prefix_text_of_parsed(tok: Seq<char>)
    requires
        parse_prefix(tok).is_some(),
    ensures
        prefix_text(parse_prefix(tok).unwrap()) == tok,
{
    if tok == seq!['%'] {
    } else if tok == seq!['%', '%'] {
    } else if tok.len() >= 2 && tok[0] == '%' && tok.skip(1) == carets((tok.len() - 1) as nat) {
        assert(seq!['%'] + tok.skip(1) == tok);
    } else {
    }
}

/// The name that a source file gives its module: the file's name without
/// `.scala` and without what follows its first `-`.
pub open spec fn module_name(file: Seq<char>) -> Seq<char> {
    split(without_suffix(file, ".scala"@), '-')[0]
}

/// A file below the source root: where the whole root leads to the file, a
/// file `main` or `lib` directly under the root is the entry point of that
/// name, and any other file is the absolute module of its directories below
/// the root and its name.
pub proof fn law_located_below_the_root(path: Seq<Seq<char>>, root: Seq<Seq<char>>)
    requires
        common_len(path, root) == root.len(),
        path.len() > root.len(),
    ensures
        ({
            let name = module_name(path.last());
            let dirs = path.subrange(root.len() as int, path.len() - 1);
            located(path, root).0 == if dirs.len() == 0 && (name == "lib"@ || name == "main"@) {
                ModPath { prefix: PrefixView::EntryPoint(name), segments: Seq::empty() }
            } else {
                ModPath { prefix: PrefixView::Absolute, segments: dirs.push(name) }
            }
        }),
{
    let k = root.len() as int;
    let rest = path.skip(k);
    assert(rest.last() == path.last());
    assert(rest.drop_last() =~= path.subrange(k, path.len() - 1));
    assert(rest.drop_last().len() == 0 ==> rest.drop_last() =~= Seq::<Seq<char>>::empty());
}

/// The name that a file gives its module holds no `-`.
pub proof fn law_module_name_holds_no_hyphen(file: Seq<char>)
    ensures
        !module_name(file).contains('-'),
{
    let stem = without_suffix(file, ".scala"@);
    lemma_split_nonempty(stem, '-');
    lemma_split_pieces(stem, '-', 0);
}

/// Rendering and reading back: `show` renders a path that `parse` gave from
/// a text as that very text, so `parse` reads the same path from it.
pub proof fn law_show_then_parse(s: Seq<char>, p: ModPath)
    requires
        parse_path(s) == Ok::<ModPath, ParseError>(p),
    ensures
        show_path(p) == s,
        parse_path(show_path(p)) == Ok::<ModPath, ParseError>(p),
{
    let toks = split(s, '.');
    lemma_split_nonempty(s, '.');
    lemma_prefix_text_of_parsed(toks[0]);
    lemma_join_split(s, '.');
    assert(seq![toks[0]] + toks.skip(1) == toks);
    assert(s + entry_mark(p) == s);
}

/// No segment of a path that `parse` gives holds a dot.
pub proof fn law_parsed_segments_hold_no_dot(s: Seq<char>, i: int)
    requires
        parse_path(s).is_ok(),
        0 <= i < parse_path(s).unwrap().segments.len(),
    ensures
        !parse_path(s).unwrap().segments[i].contains('.'),
{
    lemma_split_pieces(s, '.', i + 1);
}

/// No path that `parse` gives is an entry point.
pub proof fn law_parse_gives_no_entry_point(s: Seq<char>)
    ensures
        parse_path(s) matches Ok(p) ==> !(p.prefix is EntryPoint),
{
}

/// A reference to the current module itself resolves to the base, whatever
/// the base is.
pub proof fn law_self_reference(base: ModPath)
    ensures
        transform_path(
            ModPath { prefix: PrefixView::Relative(0), segments: Seq::empty() },
            base,
        ) == Ok::<ModPath, TransformError>(base),
{
    let len = base.segments.len() as int;
    assert(base.segments.take(len) + Seq::<Seq<char>>::empty() == base.segments);
}

/// A path that climbs more levels than the base has segments: under a
/// relative base the levels left over add to the depth of the base and the
/// path keeps its own segments; under any other base there is no result.
pub proof fn law_climb_past_base(p: ModPath, base: ModPath, n: nat)
    requires
        p.prefix == PrefixView::Relative(n),
        base.segments.len() < n,
    ensures
        match base.prefix {
            PrefixView::Relative(m) => transform_path(p, base) == Ok::<ModPath, TransformError>(
                ModPath {
                    prefix: PrefixView::Relative((m + (n - base.segments.len())) as nat),
                    segments: p.segments,
                },
            ),
            _ => transform_path(p, base) == Err::<ModPath, TransformError>(
                TransformError::OutOfAbsolute,
            ),
        },
{
}

/// A path that is not relative is resolved already: no base changes it.
pub proof fn law_resolved_paths_stay(p: ModPath, base: ModPath)
    requires
        !(p.prefix is Relative),
    ensures
        transform_path(p, base) == Ok::<ModPath, TransformError>(p),
{
}

} // verus!
