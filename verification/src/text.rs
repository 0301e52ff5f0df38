//! Text as sequences of characters: conversions between strings and character
//! vectors, and the small scanning functions the parsers are built from.

use vstd::prelude::*;

verus! {

/// The views of a sequence of strings.
pub open spec fn strs(v: Seq<String>) -> Seq<Seq<char>> {
    v.map_values(|s: String| s@)
}

/// The views of a sequence of character vectors.
pub open spec fn rows(v: Seq<Vec<char>>) -> Seq<Seq<char>> {
    v.map_values(|s: Vec<char>| s@)
}

/// The views of a sequence with one more string are the views of the
/// sequence with one more view.
pub proof fn lemma_strs_push(v: Seq<String>, s: String)
    ensures
        strs(v.push(s)) == strs(v).push(s@),
{
}

/// Appends one character to a string: `String::push`.
///
/// The string afterwards holds the characters it held before, followed by `c`.
#[verifier::external_body]
pub(crate) fn push_char(s: &mut String, c: char)
    ensures
        final(s)@ == old(s)@.push(c),
{
    s.push(c)
}

/// The characters of `s`, in order.
pub fn chars_of(s: &str) -> (v: Vec<char>)
    ensures
        v@ == s@,
{
    let mut v: Vec<char> = Vec::new();
    for c in it: s.chars()
        invariant
            v@ == it.seq().take(it.index() as int),
            it.seq() == s@,
    {
        v.push(c);
    }
    v
}

/// The string made of the characters `v[from..to]`.
pub fn string_of(v: &Vec<char>, from: usize, to: usize) -> (s: String)
    requires
        from <= to <= v.len(),
    ensures
        s@ == v@.subrange(from as int, to as int),
{
    let mut s = String::new();
    let mut i: usize = from;
    while i < to
        invariant
            from <= i <= to <= v.len(),
            s@ == v@.subrange(from as int, i as int),
        decreases to - i,
    {
        push_char(&mut s, v[i]);
        i += 1;
    }
    s
}

/// Appends the characters of `v` to `out`.
pub fn push_chars(out: &mut String, v: &Vec<char>)
    ensures
        final(out)@ == old(out)@ + v@,
{
    let mut i: usize = 0;
    while i < v.len()
        invariant
            i <= v.len(),
            out@ == old(out)@ + v@.take(i as int),
        decreases v.len() - i,
    {
        push_char(out, v[i]);
        i += 1;
    }
    assert(v@.take(v.len() as int) == v@);
}

/// Appends `s` to `out`.
pub fn push_text(out: &mut String, s: &str)
    ensures
        final(out)@ == old(out)@ + s@,
{
    let v = chars_of(s);
    push_chars(out, &v);
}

/// A string with the text of `s`.
pub fn text_of(s: &str) -> (r: String)
    ensures
        r@ == s@,
{
    let mut r = String::new();
    push_text(&mut r, s);
    assert(r@ =~= s@);
    r
}

/// The characters `v[from..to]` as a vector of their own.
pub fn slice_of(v: &Vec<char>, from: usize, to: usize) -> (r: Vec<char>)
    requires
        from <= to <= v.len(),
    ensures
        r@ == v@.subrange(from as int, to as int),
{
    let mut r: Vec<char> = Vec::new();
    let mut i: usize = from;
    while i < to
        invariant
            from <= i <= to <= v.len(),
            r@ == v@.subrange(from as int, i as int),
        decreases to - i,
    {
        r.push(v[i]);
        i += 1;
    }
    r
}

/// Whether two character vectors hold the same text.
pub fn same_chars(a: &Vec<char>, b: &Vec<char>) -> (r: bool)
    ensures
        r == (a@ == b@),
{
    if a.len() != b.len() {
        return false;
    }
    let mut i: usize = 0;
    while i < a.len()
        invariant
            i <= a.len(),
            a.len() == b.len(),
            a@.take(i as int) == b@.take(i as int),
        decreases a.len() - i,
    {
        if a[i] != b[i] {
            return false;
        }
        assert(a@.take(i + 1) == a@.take(i as int).push(a@[i as int]));
        assert(b@.take(i + 1) == b@.take(i as int).push(b@[i as int]));
        i += 1;
    }
    assert(a@.take(a.len() as int) == a@);
    assert(b@.take(b.len() as int) == b@);
    true
}

/// Whether two strings hold the same text.
pub fn same_text(a: &str, b: &str) -> (r: bool)
    ensures
        r == (a@ == b@),
{
    let x = chars_of(a);
    let y = chars_of(b);
    same_chars(&x, &y)
}

/// Whether `c` is white space, as Unicode's `White_Space` property has it.
pub open spec fn is_space(c: char) -> bool {
    let u = c as u32;
    ||| 0x09 <= u <= 0x0D
    ||| u == 0x20
    ||| u == 0x85
    ||| u == 0xA0
    ||| u == 0x1680
    ||| 0x2000 <= u <= 0x200A
    ||| u == 0x2028
    ||| u == 0x2029
    ||| u == 0x202F
    ||| u == 0x205F
    ||| u == 0x3000
}

/// Decides `is_space`.
pub fn is_space_char(c: char) -> (r: bool)
    ensures
        r == is_space(c),
{
    let u: u32 = c as u32;
    (0x09 <= u && u <= 0x0D) || u == 0x20 || u == 0x85 || u == 0xA0 || u == 0x1680 || (0x2000 <= u
        && u <= 0x200A) || u == 0x2028 || u == 0x2029 || u == 0x202F || u == 0x205F || u == 0x3000
}

/// How many white-space characters `s` starts with.
pub open spec fn leading_spaces(s: Seq<char>) -> nat
    decreases s.len(),
{
    if s.len() > 0 && is_space(s[0]) {
        1 + leading_spaces(s.drop_first())
    } else {
        0
    }
}

/// How many white-space characters `s` ends with.
pub open spec fn trailing_spaces(s: Seq<char>) -> nat
    decreases s.len(),
{
    if s.len() > 0 && is_space(s.last()) {
        1 + trailing_spaces(s.drop_last())
    } else {
        0
    }
}

/// `s` without the white space at its start and at its end.
pub open spec fn trim(s: Seq<char>) -> Seq<char> {
    let t = s.skip(leading_spaces(s) as int);
    t.take(t.len() - trailing_spaces(t))
}

/// `v` without the white space at its start and at its end.
pub fn trimmed(v: &Vec<char>) -> (r: Vec<char>)
    ensures
        r@ == trim(v@),
{
    let n = v.len();
    let mut a: usize = 0;
    assert(v@.skip(0) == v@);
    while a < n && is_space_char(v[a])
        invariant
            a <= n == v.len(),
            leading_spaces(v@) == a + leading_spaces(v@.skip(a as int)),
        decreases n - a,
    {
        assert(v@.skip(a as int).drop_first() == v@.skip(a + 1));
        a += 1;
    }
    let ghost t = v@.skip(a as int);
    let mut b: usize = n;
    assert(t.take(n - a) == t);
    while b > a && is_space_char(v[b - 1])
        invariant
            a <= b <= n == v.len(),
            t == v@.skip(a as int),
            trailing_spaces(t) == (n - b) + trailing_spaces(t.take(b - a)),
        decreases b - a,
    {
        assert(t.take(b - a).drop_last() == t.take(b - a - 1));
        b -= 1;
    }
    assert(t.take(b - a) == v@.subrange(a as int, b as int));
    slice_of(v, a, b)
}

/// Whether `s` begins with `p`.
pub open spec fn has_prefix(s: Seq<char>, p: Seq<char>) -> bool {
    p.len() <= s.len() && s.take(p.len() as int) == p
}

/// Whether `s` ends with `p`.
pub open spec fn has_suffix(s: Seq<char>, p: Seq<char>) -> bool {
    p.len() <= s.len() && s.skip(s.len() - p.len()) == p
}

/// `s` without `p` at its end, or `s` as it is where it does not end with `p`.
pub open spec fn without_suffix(s: Seq<char>, p: Seq<char>) -> Seq<char> {
    if has_suffix(s, p) {
        s.take(s.len() - p.len())
    } else {
        s
    }
}

/// Decides `has_prefix`.
pub fn starts_with(v: &Vec<char>, p: &Vec<char>) -> (r: bool)
    ensures
        r == has_prefix(v@, p@),
{
    if p.len() > v.len() {
        return false;
    }
    let head = slice_of(v, 0, p.len());
    same_chars(&head, p)
}

/// Decides `has_suffix`.
pub fn ends_with(v: &Vec<char>, p: &Vec<char>) -> (r: bool)
    ensures
        r == has_suffix(v@, p@),
{
    if p.len() > v.len() {
        return false;
    }
    let tail = slice_of(v, v.len() - p.len(), v.len());
    same_chars(&tail, p)
}

/// The place of the first `c` in `s`, or the length of `s` where it holds none.
pub open spec fn index_of(s: Seq<char>, c: char) -> nat
    decreases s.len(),
{
    if s.len() == 0 || s[0] == c {
        0
    } else {
        1 + index_of(s.drop_first(), c)
    }
}

/// `index_of` is the one place before which no `c` stands and at which `s`
/// ends or holds `c`.
pub proof fn lemma_index_of(s: Seq<char>, c: char, k: int)
    requires
        0 <= k <= s.len(),
        forall|j: int| 0 <= j < k ==> s[j] != c,
        k < s.len() ==> s[k] == c,
    ensures
        index_of(s, c) == k,
    decreases s.len(),
{
    if s.len() == 0 || s[0] == c {
    } else {
        lemma_index_of(s.drop_first(), c, k - 1);
    }
}

/// No `c` stands before `index_of`, which is a place in `s` that holds `c`
/// or the end of `s`.
pub proof fn lemma_index_of_bound(s: Seq<char>, c: char)
    ensures
        index_of(s, c) <= s.len(),
        forall|j: int| 0 <= j < index_of(s, c) ==> s[j] != c,
        index_of(s, c) < s.len() ==> s[index_of(s, c) as int] == c,
    decreases s.len(),
{
    if s.len() == 0 || s[0] == c {
    } else {
        let t = s.drop_first();
        lemma_index_of_bound(t, c);
        assert forall|j: int| 0 <= j < index_of(s, c) implies s[j] != c by {
            if j > 0 {
                assert(s[j] == t[j - 1]);
            }
        }
    }
}

/// The pieces of `s` between the occurrences of `sep`: one more piece than
/// there are occurrences, each free of `sep`.
pub open spec fn split(s: Seq<char>, sep: char) -> Seq<Seq<char>>
    decreases s.len(),
{
    let i = index_of(s, sep) as int;
    if i >= s.len() {
        seq![s]
    } else {
        seq![s.take(i)] + split(s.skip(i + 1), sep)
    }
}

/// `split` gives at least one piece.
pub proof fn lemma_split_nonempty(s: Seq<char>, sep: char)
    ensures
        split(s, sep).len() >= 1,
    decreases s.len(),
{
    let i = index_of(s, sep) as int;
    if i < s.len() {
        lemma_split_nonempty(s.skip(i + 1), sep);
    }
}

/// No piece that `split` gives holds the separator.
pub proof fn lemma_split_pieces(s: Seq<char>, sep: char, i: int)
    requires
        0 <= i < split(s, sep).len(),
    ensures
        !split(s, sep)[i].contains(sep),
    decreases s.len(),
{
    let k = index_of(s, sep) as int;
    lemma_index_of_bound(s, sep);
    if k >= s.len() {
        if s.contains(sep) {
            let j = choose|j: int| 0 <= j < s.len() && s[j] == sep;
            assert(s[j] != sep);
        }
    } else if i == 0 {
        let head = s.take(k);
        if head.contains(sep) {
            let j = choose|j: int| 0 <= j < head.len() && head[j] == sep;
            assert(s[j] != sep);
        }
    } else {
        lemma_split_pieces(s.skip(k + 1), sep, i - 1);
    }
}

/// The pieces of `v` between the occurrences of `sep`.
pub fn split_text(v: &Vec<char>, sep: char) -> (parts: Vec<String>)
    ensures
        strs(parts@) == split(v@, sep),
{
    let mut parts: Vec<String> = Vec::new();
    let mut cur = String::new();
    let ghost mut start: int = 0;
    let mut i: usize = 0;
    assert(v@.skip(0) == v@);
    assert(strs(parts@) + split(v@, sep) == split(v@, sep));
    while i < v.len()
        invariant
            0 <= start <= i <= v.len(),
            cur@ == v@.subrange(start, i as int),
            forall|j: int| start <= j < i ==> v@[j] != sep,
            split(v@, sep) == strs(parts@) + split(v@.skip(start), sep),
        decreases v.len() - i,
    {
        if v[i] == sep {
            proof {
                let t = v@.skip(start);
                lemma_index_of(t, sep, i - start);
                assert(t.take(i - start) == cur@);
                assert(t.skip(i - start + 1) == v@.skip(i + 1));
                assert(strs(parts@.push(cur)) == strs(parts@) + seq![cur@]);
            }
            parts.push(cur);
            cur = String::new();
            proof {
                start = i + 1;
            }
        } else {
            push_char(&mut cur, v[i]);
        }
        i += 1;
    }
    proof {
        let t = v@.skip(start);
        lemma_index_of(t, sep, t.len() as int);
        assert(t == cur@);
        assert(strs(parts@.push(cur)) == strs(parts@) + seq![cur@]);
    }
    parts.push(cur);
    parts
}

/// The pieces of `parts` in a row, with `sep` between each two.
pub open spec fn join(parts: Seq<Seq<char>>, sep: Seq<char>) -> Seq<char>
    decreases parts.len(),
{
    if parts.len() == 0 {
        Seq::empty()
    } else if parts.len() == 1 {
        parts[0]
    } else {
        join(parts.drop_last(), sep) + sep + parts.last()
    }
}

/// A first piece, a separator and the rest joined are the whole joined.
pub proof fn lemma_join_first(a: Seq<char>, rest: Seq<Seq<char>>, sep: Seq<char>)
    requires
        rest.len() >= 1,
    ensures
        join(seq![a] + rest, sep) == a + sep + join(rest, sep),
    decreases rest.len(),
{
    let all = seq![a] + rest;
    reveal_with_fuel(join, 3);
    if rest.len() == 1 {
        assert(all.drop_last() == seq![a]);
        assert(all.last() == rest[0]);
    } else {
        lemma_join_first(a, rest.drop_last(), sep);
        assert(all.drop_last() == seq![a] + rest.drop_last());
        assert(all.last() == rest.last());
        assert(a + sep + join(rest.drop_last(), sep) + sep + rest.last() == a + sep + (join(
            rest.drop_last(),
            sep,
        ) + sep + rest.last()));
    }
}

/// What `split` parts at a character, `join` puts together again with it.
pub proof fn lemma_join_split(s: Seq<char>, c: char)
    ensures
        join(split(s, c), seq![c]) == s,
    decreases s.len(),
{
    let i = index_of(s, c) as int;
    lemma_index_of_bound(s, c);
    if i < s.len() {
        let rest = split(s.skip(i + 1), c);
        lemma_split_nonempty(s.skip(i + 1), c);
        lemma_join_split(s.skip(i + 1), c);
        lemma_join_first(s.take(i), rest, seq![c]);
        assert(s.take(i) + seq![c] + s.skip(i + 1) == s);
    }
}

/// Appends to `out` the strings `parts[..n]`, with `sep` between each two.
pub fn push_joined(out: &mut String, parts: &Vec<String>, n: usize, sep: &str)
    requires
        n <= parts.len(),
    ensures
        final(out)@ == old(out)@ + join(strs(parts@).take(n as int), sep@),
{
    let mut i: usize = 0;
    while i < n
        invariant
            i <= n <= parts.len(),
            out@ == old(out)@ + join(strs(parts@).take(i as int), sep@),
        decreases n - i,
    {
        proof {
            let p = strs(parts@).take(i + 1);
            assert(p.drop_last() == strs(parts@).take(i as int));
            assert(p.last() == parts@[i as int]@);
        }
        if i > 0 {
            push_text(out, sep);
        }
        push_text(out, parts[i].as_str());
        i += 1;
    }
}

/// `s` without the characters `c` at its end.
pub open spec fn without_trailing(s: Seq<char>, c: char) -> Seq<char>
    decreases s.len(),
{
    if s.len() > 0 && s.last() == c {
        without_trailing(s.drop_last(), c)
    } else {
        s
    }
}

/// `v` without the characters `c` at its end.
pub fn strip_trailing(v: &Vec<char>, c: char) -> (r: Vec<char>)
    ensures
        r@ == without_trailing(v@, c),
{
    let mut b: usize = v.len();
    assert(v@.take(b as int) == v@);
    while b > 0 && v[b - 1] == c
        invariant
            b <= v.len(),
            without_trailing(v@, c) == without_trailing(v@.take(b as int), c),
        decreases b,
    {
        assert(v@.take(b as int).drop_last() == v@.take(b - 1));
        b -= 1;
    }
    assert(v@.take(b as int) == v@.subrange(0, b as int));
    slice_of(v, 0, b)
}

/// A line without the carriage return that may end it.
pub open spec fn chomp(l: Seq<char>) -> Seq<char> {
    if l.len() > 0 && l.last() == '\r' {
        l.drop_last()
    } else {
        l
    }
}

/// The lines of a text. A line ends with a line feed, or with a carriage
/// return and a line feed, neither of which belongs to it; what follows the
/// last line feed is a line as it stands, unless it is empty.
pub open spec fn text_lines(s: Seq<char>) -> Seq<Seq<char>>
    decreases s.len(),
{
    if s.len() == 0 {
        Seq::empty()
    } else {
        let i = index_of(s, '\n') as int;
        if i >= s.len() {
            seq![s]
        } else {
            seq![chomp(s.take(i))] + text_lines(s.skip(i + 1))
        }
    }
}

/// The lines of `v`.
pub fn lines_of(v: &Vec<char>) -> (lines: Vec<Vec<char>>)
    ensures
        rows(lines@) == text_lines(v@),
{
    let mut lines: Vec<Vec<char>> = Vec::new();
    let mut start: usize = 0;
    let mut i: usize = 0;
    assert(v@.skip(0) == v@);
    assert(rows(lines@) + text_lines(v@) == text_lines(v@));
    while i < v.len()
        invariant
            start <= i <= v.len(),
            forall|j: int| start <= j < i ==> v@[j] != '\n',
            text_lines(v@) == rows(lines@) + text_lines(v@.skip(start as int)),
        decreases v.len() - i,
    {
        if v[i] == '\n' {
            let end = if i > start && v[i - 1] == '\r' {
                i - 1
            } else {
                i
            };
            let line = slice_of(v, start, end);
            proof {
                let t = v@.skip(start as int);
                lemma_index_of(t, '\n', i - start);
                assert(t.take(i - start) == v@.subrange(start as int, i as int));
                assert(line@ == chomp(t.take(i - start)));
                assert(t.skip(i - start + 1) == v@.skip(i + 1));
                assert(rows(lines@.push(line)) == rows(lines@) + seq![line@]);
            }
            lines.push(line);
            start = i + 1;
        }
        i += 1;
    }
    if start < v.len() {
        let line = slice_of(v, start, v.len());
        proof {
            let t = v@.skip(start as int);
            lemma_index_of(t, '\n', t.len() as int);
            assert(t == line@);
            assert(rows(lines@.push(line)) == rows(lines@) + seq![line@]);
        }
        lines.push(line);
    } else {
        assert(rows(lines@) + Seq::<Seq<char>>::empty() == rows(lines@));
    }
    lines
}

/// The character of a digit.
pub open spec fn digit_char(d: nat) -> char {
    ((48 + d) as u8) as char
}

/// A number in decimal digits, with no leading zero but for zero itself.
pub open spec fn decimal(n: nat) -> Seq<char>
    decreases n,
{
    if n < 10 {
        seq![digit_char(n)]
    } else {
        decimal(n / 10).push(digit_char(n % 10))
    }
}

/// Appends `n` in decimal digits to `out`.
pub fn push_decimal(out: &mut String, n: u64)
    ensures
        final(out)@ == old(out)@ + decimal(n as nat),
    decreases n,
{
    if n >= 10 {
        push_decimal(out, n / 10);
    }
    let d = (n % 10) as u8;
    push_char(out, (48 + d) as char);
    assert(out@ =~= old(out)@ + decimal(n as nat));
}

/// `s` with each occurrence of `pat` replaced by `with`, the occurrences
/// taken from left to right and none overlapping another. An empty `pat`
/// occurs nowhere.
pub open spec fn replaced(s: Seq<char>, pat: Seq<char>, with: Seq<char>) -> Seq<char>
    decreases s.len(),
{
    if s.len() == 0 || pat.len() == 0 {
        s
    } else if has_prefix(s, pat) {
        with + replaced(s.skip(pat.len() as int), pat, with)
    } else {
        seq![s[0]] + replaced(s.drop_first(), pat, with)
    }
}

/// Whether `p` stands in `v` at place `i`.
fn matches_at(v: &Vec<char>, i: usize, p: &Vec<char>) -> (r: bool)
    requires
        i <= v.len(),
    ensures
        r == has_prefix(v@.skip(i as int), p@),
{
    if p.len() > v.len() - i {
        return false;
    }
    let mut k: usize = 0;
    while k < p.len()
        invariant
            k <= p.len() <= v.len() - i,
            v@.skip(i as int).take(k as int) == p@.take(k as int),
        decreases p.len() - k,
    {
        if v[i + k] != p[k] {
            assert(v@.skip(i as int).take(p.len() as int)[k as int] != p@[k as int]);
            return false;
        }
        assert(v@.skip(i as int).take(k + 1) == v@.skip(i as int).take(k as int).push(
            v@[i + k],
        ));
        assert(p@.take(k + 1) == p@.take(k as int).push(p@[k as int]));
        k += 1;
    }
    assert(p@.take(p.len() as int) == p@);
    true
}

/// `s` with each occurrence of `pat` replaced by `with`.
pub fn replace_all(s: &str, pat: &str, with: &str) -> (r: String)
    ensures
        r@ == replaced(s@, pat@, with@),
{
    let v = chars_of(s);
    let p = chars_of(pat);
    let w = chars_of(with);
    let mut r = String::new();
    if p.len() == 0 {
        push_chars(&mut r, &v);
        assert(r@ =~= s@);
        return r;
    }
    let mut i: usize = 0;
    assert(v@.skip(0) == v@);
    assert(r@ + replaced(v@, p@, w@) == replaced(v@, p@, w@));
    while i < v.len()
        invariant
            i <= v.len(),
            p.len() > 0,
            v@ == s@,
            p@ == pat@,
            w@ == with@,
            replaced(v@, p@, w@) == r@ + replaced(v@.skip(i as int), p@, w@),
        decreases v.len() - i,
    {
        let ghost rest = v@.skip(i as int);
        let ghost before = r@;
        if matches_at(&v, i, &p) {
            push_chars(&mut r, &w);
            assert(rest.skip(p.len() as int) == v@.skip(i + p.len()));
            assert(before + (w@ + replaced(rest.skip(p.len() as int), p@, w@)) == before + w@
                + replaced(rest.skip(p.len() as int), p@, w@));
            i += p.len();
        } else {
            push_char(&mut r, v[i]);
            assert(rest.drop_first() == v@.skip(i + 1));
            assert(before + (seq![rest[0]] + replaced(rest.drop_first(), p@, w@))
                == before.push(v@[i as int]) + replaced(rest.drop_first(), p@, w@));
            i += 1;
        }
    }
    assert(r@ + replaced(v@.skip(i as int), p@, w@) == r@);
    r
}

} // verus!
