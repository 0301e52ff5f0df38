//! Import expressions: a comma-separated list of dotted paths, each of which
//! may end in a group in braces that holds such a list again.

use vstd::prelude::*;
use crate::modpath::{
    Mod, ModPath, Prefix, PrefixView, TransformError, bounded_transform, clone_strings,
    lemma_paths_push, parse_prefix, paths,
};
use crate::text::{
    chars_of, is_space, is_space_char, lemma_strs_push, string_of, strs, text_of,
};

verus! {

/// An import expression as a tree. A node stands for its path where it has no
/// children, and else for what its children stand for, each continued from
/// the node's path.
#[derive(Debug, PartialEq, Eq)]
pub struct ImportTree {
    pub path: Mod,
    pub children: Vec<ImportTree>,
}

/// An import tree as a mathematical value.
pub struct TreeView {
    pub path: ModPath,
    pub children: Seq<TreeView>,
}

/// The value of a tree: the value of its path and the values of its children.
pub open spec fn tree_view(t: ImportTree) -> TreeView
    decreases t,
{
    TreeView {
        path: t.path@,
        children: Seq::new(
            t.children@.len(),
            |i: int|
                if 0 <= i < t.children@.len() {
                    tree_view(t.children@[i])
                } else {
                    arbitrary()
                },
        ),
    }
}

impl View for ImportTree {
    type V = TreeView;

    open spec fn view(&self) -> TreeView {
        tree_view(*self)
    }
}

/// The views of a sequence of trees.
pub open spec fn trees(v: Seq<ImportTree>) -> Seq<TreeView> {
    v.map_values(|t: ImportTree| t@)
}

/// Why a text is no import expression.
#[derive(Debug, Clone, Copy, PartialEq, Eq)]
pub enum ImportError {
    /// The expression begins with `%` and what follows is no prefix.
    UnknownPrefix,
    /// A `%` stands elsewhere than at the very start of the expression.
    StrayPrefix,
    /// Something other than `,` or `}` follows a closed group.
    TrailingAfterGroup,
    /// A `}` that closes nothing, or a `{` that no dot precedes.
    UnexpectedBrace,
    /// The text ends inside a group.
    UnclosedGroup,
}

impl ImportError {
    /// What the error says.
    pub open spec fn message_text(self) -> Seq<char> {
        match self {
            ImportError::UnknownPrefix => "unknown prefix operator"@,
            ImportError::StrayPrefix => "prefix mid-expression"@,
            ImportError::TrailingAfterGroup => "trailing characters after closed group"@,
            ImportError::UnexpectedBrace => "unmatched brace"@,
            ImportError::UnclosedGroup => "unclosed group"@,
        }
    }

    /// What the error says.
    pub fn message(&self) -> (r: String)
        ensures
            r@ == self.message_text(),
    {
        match self {
            ImportError::UnknownPrefix => text_of("unknown prefix operator"),
            ImportError::StrayPrefix => text_of("prefix mid-expression"),
            ImportError::TrailingAfterGroup => text_of("trailing characters after closed group"),
            ImportError::UnexpectedBrace => text_of("unmatched brace"),
            ImportError::UnclosedGroup => text_of("unclosed group"),
        }
    }
}

/// `s` without its white space.
pub open spec fn squeeze(s: Seq<char>) -> Seq<char>
    decreases s.len(),
{
    if s.len() == 0 {
        Seq::empty()
    } else if is_space(s.last()) {
        squeeze(s.drop_last())
    } else {
        squeeze(s.drop_last()).push(s.last())
    }
}

/// The characters that part identifiers.
pub open spec fn is_mark(c: char) -> bool {
    c == '.' || c == ',' || c == '{' || c == '}'
}

/// How many characters the identifier at the start of `s` has: those before
/// the first mark.
pub open spec fn ident_len(s: Seq<char>) -> nat
    decreases s.len(),
{
    if s.len() == 0 || is_mark(s[0]) {
        0
    } else {
        1 + ident_len(s.drop_first())
    }
}

/// What is wrong with an identifier, if anything. Only the first identifier
/// of an expression may hold `%`: at its start, as a prefix.
pub open spec fn ident_fault(id: Seq<char>, lead: bool) -> Option<ImportError> {
    if !id.contains('%') {
        None
    } else if lead && id[0] == '%' {
        if parse_prefix(id).is_none() {
            Some(ImportError::UnknownPrefix)
        } else {
            None
        }
    } else {
        Some(ImportError::StrayPrefix)
    }
}

/// The path that the identifiers of a term make. The first term of the
/// expression is read as a module path is; another term of the outermost
/// list names an outside root; a term in a group continues its parent.
pub open spec fn term_path(ids: Seq<Seq<char>>, lead: bool, nested: bool) -> ModPath {
    if lead {
        ModPath {
            prefix: match parse_prefix(ids[0]) {
                Some(p) => p,
                None => PrefixView::Root(ids[0]),
            },
            segments: ids.skip(1),
        }
    } else if nested {
        ModPath { prefix: PrefixView::Relative(0), segments: ids }
    } else {
        ModPath { prefix: PrefixView::Root(ids[0]), segments: ids.skip(1) }
    }
}

/// What reading a term from place `i` on gives: its identifiers, its
/// children, and how many characters it took.
pub type TermParts = (Seq<Seq<char>>, Seq<TreeView>, nat);

/// Reads at `i` the identifiers of a term, from one of them on, and the
/// group that may end it.
pub open spec fn read_term(t: Seq<char>, i: int, lead: bool) -> Result<TermParts, ImportError>
    decreases t.len() - i, 0int,
{
    if 0 <= i <= t.len() {
        let n = ident_len(t.skip(i));
        let j = i + n;
        let id = t.subrange(i, j);
        if ident_fault(id, lead).is_some() {
            Err(ident_fault(id, lead).unwrap())
        } else if j < t.len() && t[j] == '.' {
            if j + 1 < t.len() && t[j + 1] == '{' {
                match read_group(t, j + 2, false, true) {
                    Err(e) => Err(e),
                    Ok((kids, used)) => {
                        let m = j + 2 + used;
                        if m >= t.len() {
                            Err(ImportError::UnclosedGroup)
                        } else if t[m] != '}' {
                            Err(ImportError::UnexpectedBrace)
                        } else if m + 1 < t.len() && t[m + 1] != ',' && t[m + 1] != '}' {
                            Err(ImportError::TrailingAfterGroup)
                        } else {
                            Ok((seq![id], kids, (m + 1 - i) as nat))
                        }
                    },
                }
            } else {
                match read_term(t, j + 1, false) {
                    Err(e) => Err(e),
                    Ok((ids, kids, used)) => Ok((seq![id] + ids, kids, (j + 1 + used - i) as nat)),
                }
            }
        } else {
            Ok((seq![id], Seq::empty(), n))
        }
    } else {
        Err(ImportError::UnclosedGroup)
    }
}

/// Reads at `i` a list of terms with commas between them: the trees of the
/// terms and how many characters the list took.
pub open spec fn read_group(t: Seq<char>, i: int, lead: bool, nested: bool) -> Result<
    (Seq<TreeView>, nat),
    ImportError,
>
    decreases t.len() - i, 1int,
{
    if 0 <= i <= t.len() {
        match read_term(t, i, lead) {
            Err(e) => Err(e),
            Ok((ids, kids, used)) => {
                let tree = TreeView { path: term_path(ids, lead, nested), children: kids };
                let k = i + used;
                if k < t.len() && t[k] == ',' {
                    match read_group(t, k + 1, false, nested) {
                        Err(e) => Err(e),
                        Ok((rest, more)) => Ok((seq![tree] + rest, (used + 1 + more) as nat)),
                    }
                } else {
                    Ok((seq![tree], used))
                }
            },
        }
    } else {
        Err(ImportError::UnclosedGroup)
    }
}

/// The path of a node that only holds its children together.
pub open spec fn ambient() -> ModPath {
    ModPath { prefix: PrefixView::Relative(0), segments: Seq::empty() }
}

/// The tree that an import expression stands for, white space aside: a node
/// with the ambient path whose children are the terms of the expression.
pub open spec fn parse_import(s: Seq<char>) -> Result<TreeView, ImportError> {
    let t = squeeze(s);
    match read_group(t, 0, true, false) {
        Err(e) => Err(e),
        Ok((kids, used)) => if used < t.len() {
            Err(ImportError::UnexpectedBrace)
        } else {
            Ok(TreeView { path: ambient(), children: kids })
        },
    }
}

/// `m` continued from `base`: the prefix of `base`, its segments and then
/// those of `m`. From the ambient path `m` is continued as it is.
pub open spec fn onto(base: ModPath, m: ModPath) -> ModPath {
    if base == ambient() {
        m
    } else {
        ModPath { prefix: base.prefix, segments: base.segments + m.segments }
    }
}

/// Each of `ms` continued from `base`.
pub open spec fn all_onto(base: ModPath, ms: Seq<ModPath>) -> Seq<ModPath> {
    Seq::new(ms.len(), |i: int| onto(base, ms[i]))
}

/// The paths that a tree stands for, from left to right: its own path where
/// it has no children, and else what each child stands for, continued from
/// the tree's path.
pub open spec fn flatten(t: TreeView) -> Seq<ModPath>
    decreases t, 0int,
{
    if t.children.len() == 0 {
        seq![t.path]
    } else {
        all_onto(t.path, flatten_upto(t.children, t.children.len() as int))
    }
}

/// The paths that the first `n` trees of `ts` stand for.
pub open spec fn flatten_upto(ts: Seq<TreeView>, n: int) -> Seq<ModPath>
    decreases ts, n,
{
    if 0 < n <= ts.len() {
        flatten_upto(ts, n - 1) + flatten(ts[n - 1])
    } else {
        Seq::empty()
    }
}

/// A tree with its outermost paths resolved against `current`: those of the
/// nodes that stand under ambient nodes only. What lies below such a path
/// continues it and stays as it is. The first path that cannot be resolved
/// gives the error.
pub open spec fn resolve(t: TreeView, current: ModPath) -> Result<TreeView, TransformError>
    decreases t, 0int,
{
    if t.path == ambient() && t.children.len() > 0 {
        match resolve_upto(t.children, t.children.len() as int, current) {
            Ok(kids) => Ok(TreeView { path: t.path, children: kids }),
            Err(e) => Err(e),
        }
    } else {
        match bounded_transform(t.path, current) {
            Ok(p) => Ok(TreeView { path: p, children: t.children }),
            Err(e) => Err(e),
        }
    }
}

/// The first `n` trees of `ts`, resolved against `current`.
pub open spec fn resolve_upto(ts: Seq<TreeView>, n: int, current: ModPath) -> Result<
    Seq<TreeView>,
    TransformError,
>
    decreases ts, n,
{
    if 0 < n <= ts.len() {
        match resolve_upto(ts, n - 1, current) {
            Err(e) => Err(e),
            Ok(done) => match resolve(ts[n - 1], current) {
                Err(e) => Err(e),
                Ok(x) => Ok(done.push(x)),
            },
        }
    } else {
        Ok(Seq::empty())
    }
}

/// The view of a tree is made of the views of its parts.
pub proof fn lemma_tree_view(t: ImportTree)
    ensures
        t@ == (TreeView { path: t.path@, children: trees(t.children@) }),
{
    let a = t@.children;
    let b = trees(t.children@);
    assert(a.len() == t.children@.len());
    assert(b.len() == t.children@.len());
    assert forall|i: int| 0 <= i < a.len() implies a[i] == b[i] by {
        assert(a[i] == t.children@[i]@);
        assert(b[i] == t.children@[i]@);
    }
    assert(a =~= b);
}

/// The views of a sequence with one more tree.
pub proof fn lemma_trees_push(v: Seq<ImportTree>, t: ImportTree)
    ensures
        trees(v.push(t)) == trees(v).push(t@),
{
    assert(trees(v.push(t)) =~= trees(v).push(t@));
}

/// `s` without its white space.
pub fn squeezed(s: &str) -> (t: Vec<char>)
    ensures
        t@ == squeeze(s@),
{
    let v = chars_of(s);
    let mut t: Vec<char> = Vec::new();
    let mut i: usize = 0;
    while i < v.len()
        invariant
            i <= v.len(),
            v@ == s@,
            t@ == squeeze(v@.take(i as int)),
        decreases v.len() - i,
    {
        assert(v@.take(i + 1).drop_last() == v@.take(i as int));
        if !is_space_char(v[i]) {
            t.push(v[i]);
        }
        i += 1;
    }
    assert(v@.take(v.len() as int) == v@);
    t
}

/// The place where the identifier that begins at `i` ends.
fn ident_end(t: &Vec<char>, i: usize) -> (j: usize)
    requires
        i <= t.len(),
    ensures
        i <= j <= t.len(),
        j == i + ident_len(t@.skip(i as int)),
{
    let mut j: usize = i;
    while j < t.len() && !(t[j] == '.' || t[j] == ',' || t[j] == '{' || t[j] == '}')
        invariant
            i <= j <= t.len(),
            i + ident_len(t@.skip(i as int)) == j + ident_len(t@.skip(j as int)),
        decreases t.len() - j,
    {
        assert(t@.skip(j as int).drop_first() == t@.skip(j + 1));
        j += 1;
    }
    j
}

/// Decides `ident_fault` for the identifier `t[i..j]`.
fn check_ident(t: &Vec<char>, i: usize, j: usize, lead: bool) -> (r: Option<ImportError>)
    requires
        i <= j <= t.len(),
    ensures
        r == ident_fault(t@.subrange(i as int, j as int), lead),
{
    let ghost id = t@.subrange(i as int, j as int);
    let mut k: usize = i;
    while k < j && t[k] != '%'
        invariant
            i <= k <= j <= t.len(),
            forall|x: int| 0 <= x < k - i ==> id[x] != '%',
        decreases j - k,
    {
        k += 1;
    }
    if k == j {
        return None;
    }
    assert(id[k - i] == '%');
    assert(id.contains('%'));
    if lead && t[i] == '%' {
        let text = string_of(t, i, j);
        match Prefix::parse(text.as_str()) {
            Some(_) => None,
            None => Some(ImportError::UnknownPrefix),
        }
    } else {
        Some(ImportError::StrayPrefix)
    }
}

/// The path of a term from its identifiers.
fn make_path(ids: Vec<String>, lead: bool, nested: bool) -> (m: Mod)
    requires
        ids.len() >= 1,
    ensures
        m@ == term_path(strs(ids@), lead, nested),
{
    if !lead && nested {
        return Mod(Prefix::Relative(0), ids);
    }
    let mut rest = ids;
    let first = rest.remove(0);
    assert(strs(rest@) == strs(ids@).skip(1));
    assert(first@ == strs(ids@)[0]);
    if lead {
        match Prefix::parse(first.as_str()) {
            Some(p) => Mod(p, rest),
            None => Mod(Prefix::Root(first), rest),
        }
    } else {
        Mod(Prefix::Root(first), rest)
    }
}

/// Reads the identifiers of a term from place `i` on, and its group.
fn read_term_at(t: &Vec<char>, i: usize, lead: bool) -> (r: Result<
    (Vec<String>, Vec<ImportTree>, usize),
    ImportError,
>)
    requires
        i <= t.len(),
    ensures
        match r {
            Ok((ids, kids, k)) => i <= k <= t.len() && ids.len() >= 1 && read_term(
                t@,
                i as int,
                lead,
            ) == Ok::<TermParts, ImportError>((strs(ids@), trees(kids@), (k - i) as nat)),
            Err(e) => read_term(t@, i as int, lead) == Err::<TermParts, ImportError>(e),
        },
    decreases t.len() - i, 0int,
{
    let j = ident_end(t, i);
    match check_ident(t, i, j, lead) {
        Some(e) => {
            return Err(e);
        },
        None => {},
    }
    let id = string_of(t, i, j);
    if j < t.len() && t[j] == '.' {
        if j + 1 < t.len() && t[j + 1] == '{' {
            match read_group_at(t, j + 2, false, true) {
                Err(e) => Err(e),
                Ok((kids, m)) => {
                    if m >= t.len() {
                        Err(ImportError::UnclosedGroup)
                    } else if t[m] != '}' {
                        Err(ImportError::UnexpectedBrace)
                    } else if m + 1 < t.len() && t[m + 1] != ',' && t[m + 1] != '}' {
                        Err(ImportError::TrailingAfterGroup)
                    } else {
                        let mut ids: Vec<String> = Vec::new();
                        proof {
                            lemma_strs_push(ids@, id);
                            assert(strs(ids@).push(id@) == seq![id@]);
                        }
                        ids.push(id);
                        Ok((ids, kids, m + 1))
                    }
                },
            }
        } else {
            match read_term_at(t, j + 1, false) {
                Err(e) => Err(e),
                Ok((mut ids, kids, k)) => {
                    let ghost tail = strs(ids@);
                    ids.insert(0, id);
                    assert(strs(ids@) == seq![id@] + tail);
                    Ok((ids, kids, k))
                },
            }
        }
    } else {
        let mut ids: Vec<String> = Vec::new();
        proof {
            lemma_strs_push(ids@, id);
            assert(strs(ids@).push(id@) == seq![id@]);
        }
        ids.push(id);
        let kids: Vec<ImportTree> = Vec::new();
        assert(trees(kids@) == Seq::<TreeView>::empty());
        Ok((ids, kids, j))
    }
}

/// Reads a list of terms from place `i` on.
fn read_group_at(t: &Vec<char>, i: usize, lead: bool, nested: bool) -> (r: Result<
    (Vec<ImportTree>, usize),
    ImportError,
>)
    requires
        i <= t.len(),
    ensures
        match r {
            Ok((kids, k)) => i <= k <= t.len() && read_group(t@, i as int, lead, nested) == Ok::<
                (Seq<TreeView>, nat),
                ImportError,
            >((trees(kids@), (k - i) as nat)),
            Err(e) => read_group(t@, i as int, lead, nested) == Err::<
                (Seq<TreeView>, nat),
                ImportError,
            >(e),
        },
    decreases t.len() - i, 1int,
{
    match read_term_at(t, i, lead) {
        Err(e) => Err(e),
        Ok((ids, kids, k)) => {
            let tree = ImportTree { path: make_path(ids, lead, nested), children: kids };
            proof {
                lemma_tree_view(tree);
            }
            if k < t.len() && t[k] == ',' {
                match read_group_at(t, k + 1, false, nested) {
                    Err(e) => Err(e),
                    Ok((mut rest, m)) => {
                        let ghost tail = trees(rest@);
                        rest.insert(0, tree);
                        assert(trees(rest@) == seq![tree@] + tail);
                        Ok((rest, m))
                    },
                }
            } else {
                let mut all: Vec<ImportTree> = Vec::new();
                proof {
                    lemma_trees_push(all@, tree);
                    assert(trees(all@).push(tree@) == seq![tree@]);
                }
                all.push(tree);
                Ok((all, k))
            }
        },
    }
}

/// Once some first trees cannot be resolved, no more of them can, and the
/// error stays the same.
pub proof fn lemma_resolve_fails(ts: Seq<TreeView>, n: int, m: int, current: ModPath)
    requires
        0 <= n <= m <= ts.len(),
        resolve_upto(ts, n, current).is_err(),
    ensures
        resolve_upto(ts, m, current) == resolve_upto(ts, n, current),
    decreases m - n,
{
    if n < m {
        lemma_resolve_fails(ts, n, m - 1, current);
    }
}

/// `m` continued from `base`.
fn continued(base: &Mod, m: &Mod) -> (r: Mod)
    ensures
        r@ == onto(base@, m@),
{
    let is_ambient = match &base.0 {
        Prefix::Relative(n) => *n == 0 && base.1.len() == 0,
        _ => false,
    };
    if is_ambient {
        assert(base@.segments =~= Seq::<Seq<char>>::empty());
        m.duplicate()
    } else {
        assert(base@ != ambient()) by {
            if base@ == ambient() {
                assert(base@.segments.len() == 0);
            }
        }
        let mut segments = clone_strings(&base.1);
        let mut more = clone_strings(&m.1);
        let ghost a = segments@;
        let ghost b = more@;
        segments.append(&mut more);
        assert(strs(segments@) == strs(a) + strs(b));
        Mod(base.0.duplicate(), segments)
    }
}

impl ImportTree {
    /// A copy of this tree.
    pub fn duplicate(&self) -> (r: ImportTree)
        ensures
            r@ == self@,
        decreases self,
    {
        let mut kids: Vec<ImportTree> = Vec::new();
        let mut i: usize = 0;
        while i < self.children.len()
            invariant
                i <= self.children.len(),
                trees(kids@) == trees(self.children@).take(i as int),
            decreases self.children.len() - i,
        {
            let kid = self.children[i].duplicate();
            proof {
                lemma_trees_push(kids@, kid);
                assert(trees(self.children@).take(i as int).push(kid@) == trees(
                    self.children@,
                ).take(i + 1));
            }
            kids.push(kid);
            i += 1;
        }
        assert(trees(self.children@).take(self.children.len() as int) == trees(self.children@));
        let r = ImportTree { path: self.path.duplicate(), children: kids };
        proof {
            lemma_tree_view(r);
            lemma_tree_view(*self);
        }
        r
    }

    /// The paths that the tree stands for, from left to right.
    pub fn mods(&self) -> (r: Vec<Mod>)
        ensures
            paths(r@) == flatten(self@),
        decreases self,
    {
        proof {
            lemma_tree_view(*self);
        }
        let mut out: Vec<Mod> = Vec::new();
        if self.children.len() == 0 {
            let own = self.path.duplicate();
            proof {
                lemma_paths_push(out@, own);
                assert(paths(out@).push(own@) == seq![own@]);
            }
            out.push(own);
            return out;
        }
        let ghost kids = self@.children;
        let mut i: usize = 0;
        assert(paths(out@) == all_onto(self@.path, flatten_upto(kids, 0)));
        while i < self.children.len()
            invariant
                i <= self.children.len(),
                kids == self@.children,
                kids == trees(self.children@),
                paths(out@) == all_onto(self@.path, flatten_upto(kids, i as int)),
            decreases self.children.len() - i,
        {
            let sub = self.children[i].mods();
            let ghost before = flatten_upto(kids, i as int);
            assert(flatten_upto(kids, i + 1) == before + flatten(kids[i as int]));
            let mut j: usize = 0;
            assert(before + paths(sub@).take(0) == before);
            while j < sub.len()
                invariant
                    j <= sub.len(),
                    paths(out@) == all_onto(self@.path, before + paths(sub@).take(j as int)),
                decreases sub.len() - j,
            {
                let item = continued(&self.path, &sub[j]);
                proof {
                    lemma_paths_push(out@, item);
                    assert(all_onto(self@.path, before + paths(sub@).take(j as int)).push(item@)
                        == all_onto(self@.path, before + paths(sub@).take(j + 1)));
                }
                out.push(item);
                j += 1;
            }
            assert(paths(sub@).take(sub.len() as int) == paths(sub@));
            i += 1;
        }
        out
    }

    /// The tree with its outermost paths resolved against `current`.
    pub fn normalize(&self, current: &Mod) -> (r: Result<ImportTree, TransformError>)
        ensures
            match r {
                Ok(t) => resolve(self@, current@) == Ok::<TreeView, TransformError>(t@),
                Err(e) => resolve(self@, current@) == Err::<TreeView, TransformError>(e),
            },
        decreases self,
    {
        proof {
            lemma_tree_view(*self);
        }
        let is_ambient = match &self.path.0 {
            Prefix::Relative(n) => *n == 0 && self.path.1.len() == 0,
            _ => false,
        };
        proof {
            if is_ambient {
                assert(self@.path.segments =~= Seq::<Seq<char>>::empty());
            } else if self@.path == ambient() {
                assert(self@.path.segments.len() == 0);
            }
        }
        if is_ambient && self.children.len() > 0 {
            let ghost kids = self@.children;
            let mut done: Vec<ImportTree> = Vec::new();
            let mut i: usize = 0;
            assert(trees(done@) == Seq::<TreeView>::empty());
            while i < self.children.len()
                invariant
                    i <= self.children.len(),
                    kids == trees(self.children@),
                    resolve_upto(kids, i as int, current@) == Ok::<Seq<TreeView>, TransformError>(
                        trees(done@),
                    ),
                decreases self.children.len() - i,
            {
                match self.children[i].normalize(current) {
                    Err(e) => {
                        proof {
                            lemma_resolve_fails(kids, i + 1, self.children.len() as int, current@);
                        }
                        return Err(e);
                    },
                    Ok(kid) => {
                        proof {
                            lemma_trees_push(done@, kid);
                        }
                        done.push(kid);
                    },
                }
                i += 1;
            }
            let r = ImportTree { path: self.path.duplicate(), children: done };
            proof {
                lemma_tree_view(r);
            }
            Ok(r)
        } else {
            match self.path.duplicate().transform(current) {
                Err(e) => Err(e),
                Ok(p) => {
                    let copy = self.duplicate();
                    let r = ImportTree { path: p, children: copy.children };
                    proof {
                        lemma_tree_view(copy);
                        lemma_tree_view(r);
                    }
                    Ok(r)
                },
            }
        }
    }

    /// Reads an import expression: the text that follows `import`.
    ///
    /// White space counts nowhere. The terms of the expression become the
    /// children of a node with the ambient path. An identifier is what
    /// stands between two of the marks `.`, `,`, `{` and `}`, as it stands.
    pub fn parse(s: &str) -> (r: Result<ImportTree, ImportError>)
        ensures
            match r {
                Ok(t) => parse_import(s@) == Ok::<TreeView, ImportError>(t@),
                Err(e) => parse_import(s@) == Err::<TreeView, ImportError>(e),
            },
    {
        let t = squeezed(s);
        match read_group_at(&t, 0, true, false) {
            Err(e) => Err(e),
            Ok((kids, k)) => {
                if k < t.len() {
                    Err(ImportError::UnexpectedBrace)
                } else {
                    let segments: Vec<String> = Vec::new();
                    assert(strs(segments@) == Seq::<Seq<char>>::empty());
                    let tree = ImportTree { path: Mod(Prefix::Relative(0), segments), children: kids };
                    proof {
                        lemma_tree_view(tree);
                    }
                    Ok(tree)
                }
            },
        }
    }
}

/// Whether the nodes of a tree continue their parents: every node that
/// stands below a node with a path of its own is relative with no level to
/// climb, and has a segment. `under` tells whether the tree itself stands
/// below such a node.
pub open spec fn continues(t: TreeView, under: bool) -> bool
    decreases t,
{
    &&& under ==> t.path.prefix == PrefixView::Relative(0) && t.path.segments.len() > 0
    &&& forall|i: int|
        0 <= i < t.children.len() ==> continues(
            #[trigger] t.children[i],
            under || t.path != ambient(),
        )
}

/// A tree that continues a parent is well formed on its own too.
pub proof fn lemma_continues_alone(t: TreeView)
    requires
        continues(t, true),
    ensures
        continues(t, false),
{
    assert(t.path != ambient());
}

/// A term has an identifier, and the trees of its group continue it.
pub proof fn lemma_read_term_continues(t: Seq<char>, i: int, lead: bool)
    requires
        read_term(t, i, lead).is_ok(),
    ensures
        read_term(t, i, lead).unwrap().0.len() >= 1,
        forall|k: int|
            0 <= k < read_term(t, i, lead).unwrap().1.len() ==> continues(
                #[trigger] read_term(t, i, lead).unwrap().1[k],
                true,
            ),
    decreases t.len() - i, 0int,
{
    let n = ident_len(t.skip(i));
    let j = i + n;
    if j < t.len() && t[j] == '.' {
        if j + 1 < t.len() && t[j + 1] == '{' {
            lemma_read_group_continues(t, j + 2, false, true);
        } else {
            lemma_read_term_continues(t, j + 1, false);
        }
    }
}

/// The trees that `read_group` gives continue their parents, where there
/// is one.
pub proof fn lemma_read_group_continues(t: Seq<char>, i: int, lead: bool, nested: bool)
    requires
        read_group(t, i, lead, nested).is_ok(),
        nested ==> !lead,
    ensures
        forall|k: int|
            0 <= k < read_group(t, i, lead, nested).unwrap().0.len() ==> continues(
                #[trigger] read_group(t, i, lead, nested).unwrap().0[k],
                nested,
            ),
    decreases t.len() - i, 1int,
{
    lemma_read_term_continues(t, i, lead);
    let (ids, kids, used) = read_term(t, i, lead).unwrap();
    let tree = TreeView { path: term_path(ids, lead, nested), children: kids };
    let k = i + used;
    assert(continues(tree, nested)) by {
        assert forall|x: int| 0 <= x < kids.len() implies continues(
            #[trigger] tree.children[x],
            nested || tree.path != ambient(),
        ) by {
            lemma_continues_alone(kids[x]);
        }
    }
    if k < t.len() && t[k] == ',' {
        lemma_read_group_continues(t, k + 1, false, nested);
    }
}

/// The tree of an import expression is made of nodes that continue their
/// parents: below the terms of the expression every path is relative.
pub proof fn law_parsed_trees_continue(s: Seq<char>)
    requires
        parse_import(s).is_ok(),
    ensures
        continues(parse_import(s).unwrap(), false),
{
    let t = squeeze(s);
    lemma_read_group_continues(t, 0, true, false);
}

/// The paths of the first trees depend on those trees alone.
pub proof fn lemma_flatten_upto_same(a: Seq<TreeView>, b: Seq<TreeView>, n: int)
    requires
        0 <= n <= a.len(),
        n <= b.len(),
        forall|j: int| 0 <= j < n ==> a[j] == b[j],
    ensures
        flatten_upto(a, n) == flatten_upto(b, n),
    decreases n,
{
    if n > 0 {
        lemma_flatten_upto_same(a, b, n - 1);
    }
}

/// The paths of trees that continue a parent are relative with no level.
pub proof fn lemma_flatten_upto_relative(ts: Seq<TreeView>, n: int)
    requires
        0 <= n <= ts.len(),
        forall|j: int| 0 <= j < ts.len() ==> continues(#[trigger] ts[j], true),
    ensures
        forall|k: int|
            0 <= k < flatten_upto(ts, n).len() ==> (#[trigger] flatten_upto(ts, n)[k]).prefix
                == PrefixView::Relative(0),
    decreases n,
{
    if n > 0 {
        lemma_flatten_upto_relative(ts, n - 1);
        let before = flatten_upto(ts, n - 1);
        let last = ts[n - 1];
        assert(continues(last, true));
        assert(last.path != ambient());
        assert forall|k: int| 0 <= k < flatten_upto(ts, n).len() implies (#[trigger] flatten_upto(
            ts,
            n,
        )[k]).prefix == PrefixView::Relative(0) by {
            if k < before.len() {
                assert(flatten_upto(ts, n)[k] == before[k]);
            } else {
                assert(flatten_upto(ts, n)[k] == flatten(last)[k - before.len()]);
            }
        }
    }
}

/// Resolving a path and then continuing it is continuing it and then
/// resolving: for a path `p` that is not ambient and a relative `m` with no
/// level to climb.
pub proof fn lemma_resolve_onto(p: ModPath, m: ModPath, current: ModPath)
    requires
        p != ambient(),
        m.prefix == PrefixView::Relative(0),
        bounded_transform(p, current).is_ok(),
    ensures
        bounded_transform(onto(p, m), current) == Ok::<ModPath, TransformError>(
            onto(bounded_transform(p, current).unwrap(), m),
        ),
{
    let resolved = bounded_transform(p, current).unwrap();
    let len = current.segments.len() as int;
    match p.prefix {
        PrefixView::Relative(n) => {
            if len >= n {
                let kept = current.segments.take(len - n);
                assert(kept + (p.segments + m.segments) =~= (kept + p.segments) + m.segments);
                if resolved == ambient() {
                    assert(resolved.segments.len() == 0);
                    assert((kept + p.segments) + m.segments =~= m.segments);
                }
            }
        },
        _ => {},
    }
}

/// Resolving a tree and flattening it gives, path by path, what flattening
/// it and resolving each path gives: so it is for every tree whose nodes
/// continue their parents, as those of import expressions do.
pub proof fn law_resolve_then_flatten(t: TreeView, current: ModPath)
    requires
        continues(t, false),
        resolve(t, current).is_ok(),
    ensures
        flatten(resolve(t, current).unwrap()).len() == flatten(t).len(),
        forall|k: int|
            0 <= k < flatten(t).len() ==> bounded_transform(#[trigger] flatten(t)[k], current)
                == Ok::<ModPath, TransformError>(flatten(resolve(t, current).unwrap())[k]),
    decreases t, 0int,
{
    let t2 = resolve(t, current).unwrap();
    let n = t.children.len() as int;
    if t.path == ambient() && n > 0 {
        lemma_resolve_upto_then_flatten(t.children, n, current);
        let kids = resolve_upto(t.children, n, current).unwrap();
        assert(flatten(t2) =~= flatten_upto(kids, n));
        assert(flatten(t) =~= flatten_upto(t.children, n));
    } else if n > 0 {
        let resolved = bounded_transform(t.path, current).unwrap();
        let below = flatten_upto(t.children, n);
        lemma_flatten_upto_relative(t.children, n);
        assert forall|k: int| 0 <= k < flatten(t).len() implies bounded_transform(
            #[trigger] flatten(t)[k],
            current,
        ) == Ok::<ModPath, TransformError>(flatten(t2)[k]) by {
            lemma_resolve_onto(t.path, below[k], current);
        }
    }
}

/// The same for the first `n` trees of a sequence.
pub proof fn lemma_resolve_upto_then_flatten(ts: Seq<TreeView>, n: int, current: ModPath)
    requires
        0 <= n <= ts.len(),
        forall|j: int| 0 <= j < ts.len() ==> continues(#[trigger] ts[j], false),
        resolve_upto(ts, n, current).is_ok(),
    ensures
        resolve_upto(ts, n, current).unwrap().len() == n,
        flatten_upto(resolve_upto(ts, n, current).unwrap(), n).len() == flatten_upto(ts, n).len(),
        forall|k: int|
            0 <= k < flatten_upto(ts, n).len() ==> bounded_transform(
                #[trigger] flatten_upto(ts, n)[k],
                current,
            ) == Ok::<ModPath, TransformError>(
                flatten_upto(resolve_upto(ts, n, current).unwrap(), n)[k],
            ),
    decreases ts, n,
{
    if n > 0 {
        lemma_resolve_upto_then_flatten(ts, n - 1, current);
        assert(continues(ts[n - 1], false));
        law_resolve_then_flatten(ts[n - 1], current);
        let before = resolve_upto(ts, n - 1, current).unwrap();
        let x = resolve(ts[n - 1], current).unwrap();
        let done = before.push(x);
        lemma_flatten_upto_same(done, before, n - 1);
        let a = flatten_upto(ts, n - 1);
        let b = flatten_upto(before, n - 1);
        assert(flatten_upto(done, n) == b + flatten(x));
        assert(flatten_upto(ts, n) == a + flatten(ts[n - 1]));
        assert forall|k: int| 0 <= k < flatten_upto(ts, n).len() implies bounded_transform(
            #[trigger] flatten_upto(ts, n)[k],
            current,
        ) == Ok::<ModPath, TransformError>(flatten_upto(done, n)[k]) by {
            if k < a.len() {
                assert(flatten_upto(ts, n)[k] == a[k]);
                assert(flatten_upto(done, n)[k] == b[k]);
            } else {
                assert(flatten_upto(ts, n)[k] == flatten(ts[n - 1])[k - a.len()]);
                assert(flatten_upto(done, n)[k] == flatten(x)[k - a.len()]);
            }
        }
    }
}

} // verus!
