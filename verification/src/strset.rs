//! Sets of strings, kept in ascending order so that what is written out from
//! them is the same on every run.

use vstd::prelude::*;
use crate::text::{chars_of, lemma_strs_push, strs};

verus! {

/// Whether `a` comes before `b`: at the first place where they differ `a` has
/// the lesser character, or `a` ends there and `b` does not.
pub open spec fn lex_lt(a: Seq<char>, b: Seq<char>) -> bool
    decreases a.len(),
{
    if b.len() == 0 {
        false
    } else if a.len() == 0 {
        true
    } else if a[0] != b[0] {
        (a[0] as u32) < (b[0] as u32)
    } else {
        lex_lt(a.drop_first(), b.drop_first())
    }
}

/// Nothing comes before itself.
pub proof fn lemma_lex_irreflexive(a: Seq<char>)
    ensures
        !lex_lt(a, a),
    decreases a.len(),
{
    if a.len() > 0 {
        lemma_lex_irreflexive(a.drop_first());
    }
}

/// What comes before something that comes before a third comes before the
/// third.
pub proof fn lemma_lex_transitive(a: Seq<char>, b: Seq<char>, c: Seq<char>)
    requires
        lex_lt(a, b),
        lex_lt(b, c),
    ensures
        lex_lt(a, c),
    decreases a.len(),
{
    if a.len() > 0 && a[0] == b[0] && b[0] == c[0] {
        lemma_lex_transitive(a.drop_first(), b.drop_first(), c.drop_first());
    }
}

/// Of two different texts one comes before the other.
pub proof fn lemma_lex_total(a: Seq<char>, b: Seq<char>)
    ensures
        a == b || lex_lt(a, b) || lex_lt(b, a),
    decreases a.len(),
{
    if a.len() > 0 && b.len() > 0 && a[0] != b[0] {
        vstd::utf8::char_u32_cast(a[0], a[0] as u32);
        vstd::utf8::char_u32_cast(b[0], b[0] as u32);
    } else if a.len() > 0 && b.len() > 0 {
        lemma_lex_total(a.drop_first(), b.drop_first());
        if a.drop_first() == b.drop_first() {
            assert(a =~= seq![a[0]] + a.drop_first());
            assert(b =~= seq![b[0]] + b.drop_first());
        }
    } else if a.len() == 0 && b.len() == 0 {
        assert(a =~= b);
    }
}

/// Decides `lex_lt`.
pub fn text_lt(a: &str, b: &str) -> (r: bool)
    ensures
        r == lex_lt(a@, b@),
{
    let x = chars_of(a);
    let y = chars_of(b);
    let mut i: usize = 0;
    assert(x@.skip(0) == x@ && y@.skip(0) == y@);
    while i < x.len() && i < y.len()
        invariant
            i <= x.len(),
            i <= y.len(),
            x@ == a@,
            y@ == b@,
            lex_lt(x@, y@) == lex_lt(x@.skip(i as int), y@.skip(i as int)),
        decreases x.len() - i,
    {
        if x[i] != y[i] {
            return (x[i] as u32) < (y[i] as u32);
        }
        assert(x@.skip(i as int).drop_first() == x@.skip(i + 1));
        assert(y@.skip(i as int).drop_first() == y@.skip(i + 1));
        i += 1;
    }
    i < y.len()
}

/// Whether each text of `s` comes before all that follow it.
pub open spec fn ascending(s: Seq<Seq<char>>) -> bool {
    forall|i: int, j: int| 0 <= i < j < s.len() ==> lex_lt(#[trigger] s[i], #[trigger] s[j])
}

/// An ascending sequence is the only one of its members: two ascending
/// sequences with the same members are the same sequence.
pub proof fn lemma_ascending_unique(a: Seq<Seq<char>>, b: Seq<Seq<char>>)
    requires
        ascending(a),
        ascending(b),
        a.to_set() == b.to_set(),
    ensures
        a == b,
    decreases a.len(),
{
    if a.len() == 0 {
        if b.len() > 0 {
            assert(b.contains(b[0]));
            assert(b.to_set().contains(b[0]));
            assert(a.contains(b[0]));
        }
        assert(a =~= b);
    } else if b.len() == 0 {
        assert(a.contains(a[0]));
        assert(a.to_set().contains(a[0]));
        assert(b.contains(a[0]));
    } else {
        assert(a.contains(a[0]) && b.contains(b[0]));
        assert(a.to_set().contains(b[0]) && b.to_set().contains(a[0]));
        assert(a.contains(b[0]) && b.contains(a[0]));
        let i = choose|i: int| 0 <= i < a.len() && a[i] == b[0];
        let j = choose|j: int| 0 <= j < b.len() && b[j] == a[0];
        assert(a[0] == b[0]) by {
            if i > 0 && j > 0 {
                assert(lex_lt(a[0], a[i]));
                assert(lex_lt(b[0], b[j]));
                lemma_lex_transitive(a[0], b[0], a[0]);
                lemma_lex_irreflexive(a[0]);
            }
        }
        lemma_lex_irreflexive(a[0]);
        let x = a.drop_first();
        let y = b.drop_first();
        assert forall|p: int, q: int| 0 <= p < q < x.len() implies lex_lt(
            #[trigger] x[p],
            #[trigger] x[q],
        ) by {
            assert(lex_lt(a[p + 1], a[q + 1]));
        }
        assert forall|p: int, q: int| 0 <= p < q < y.len() implies lex_lt(
            #[trigger] y[p],
            #[trigger] y[q],
        ) by {
            assert(lex_lt(b[p + 1], b[q + 1]));
        }
        assert forall|e: Seq<char>| x.contains(e) <==> y.contains(e) by {
            if x.contains(e) {
                let k = choose|k: int| 0 <= k < x.len() && x[k] == e;
                assert(a[k + 1] == e);
                assert(lex_lt(a[0], a[k + 1]));
                assert(a.contains(e));
                assert(a.to_set().contains(e));
                assert(b.contains(e));
                let l = choose|l: int| 0 <= l < b.len() && b[l] == e;
                assert(l > 0);
                assert(y[l - 1] == e);
            }
            if y.contains(e) {
                let k = choose|k: int| 0 <= k < y.len() && y[k] == e;
                assert(b[k + 1] == e);
                assert(lex_lt(b[0], b[k + 1]));
                assert(b.contains(e));
                assert(b.to_set().contains(e));
                assert(a.contains(e));
                let l = choose|l: int| 0 <= l < a.len() && a[l] == e;
                assert(l > 0);
                assert(x[l - 1] == e);
            }
        }
        assert(x.to_set() =~= y.to_set());
        lemma_ascending_unique(x, y);
        assert(a =~= seq![a[0]] + x);
        assert(b =~= seq![b[0]] + y);
    }
}

/// A set of strings.
#[derive(Debug, Clone, PartialEq, Eq)]
pub struct StringSet {
    items: Vec<String>,
}

impl View for StringSet {
    type V = Set<Seq<char>>;

    closed spec fn view(&self) -> Set<Seq<char>> {
        self.elements().to_set()
    }
}

impl StringSet {
    /// The members, the least first.
    pub closed spec fn elements(&self) -> Seq<Seq<char>> {
        strs(self.items@)
    }

    /// The members are in ascending order, so none stands twice.
    pub closed spec fn wf(&self) -> bool {
        ascending(self.elements())
    }

    /// The set is what its sequence of members holds.
    pub proof fn lemma_view(&self)
        ensures
            self@ == self.elements().to_set(),
            self.wf() == ascending(self.elements()),
            self@.finite(),
            forall|x: Seq<char>| self@.contains(x) <==> self.elements().contains(x),
    {
    }

    /// The order of the members is fixed by the set: two sets with the
    /// same members list them alike.
    pub proof fn law_members_fix_the_order(&self, other: &StringSet)
        requires
            self.wf(),
            other.wf(),
            self@ == other@,
        ensures
            self.elements() == other.elements(),
    {
        lemma_ascending_unique(self.elements(), other.elements());
    }

    /// The empty set.
    pub fn new() -> (r: StringSet)
        ensures
            r.wf(),
            r@ == Set::<Seq<char>>::empty(),
            r.elements() == Seq::<Seq<char>>::empty(),
    {
        let r = StringSet { items: Vec::new() };
        assert(r.elements() =~= Seq::<Seq<char>>::empty());
        assert(r@ =~= Set::<Seq<char>>::empty());
        r
    }

    /// How many members the set has.
    pub fn len(&self) -> (r: usize)
        ensures
            r == self.elements().len(),
    {
        self.items.len()
    }

    /// Whether the set has no member.
    pub fn is_empty(&self) -> (r: bool)
        requires
            self.wf(),
        ensures
            r == (self@ == Set::<Seq<char>>::empty()),
            r == (self.elements().len() == 0),
    {
        proof {
            if self.items.len() == 0 {
                assert(self@ =~= Set::<Seq<char>>::empty());
            } else {
                assert(self.elements().contains(self.elements()[0]));
                assert(self@.contains(self.elements()[0]));
            }
        }
        self.items.len() == 0
    }

    /// The member at place `i`, counting from the least.
    pub fn get(&self, i: usize) -> (r: &String)
        requires
            i < self.elements().len(),
        ensures
            r@ == self.elements()[i as int],
    {
        &self.items[i]
    }

    /// Whether `s` is a member.
    pub fn contains(&self, s: &str) -> (r: bool)
        requires
            self.wf(),
        ensures
            r == self@.contains(s@),
    {
        let mut i: usize = 0;
        while i < self.items.len()
            invariant
                i <= self.items.len(),
                forall|j: int| 0 <= j < i ==> self.elements()[j] != s@,
            decreases self.items.len() - i,
        {
            let item = self.items[i].as_str();
            if !text_lt(item, s) && !text_lt(s, item) {
                proof {
                    lemma_lex_total(item@, s@);
                    assert(self.elements()[i as int] == s@);
                }
                return true;
            }
            proof {
                lemma_lex_irreflexive(s@);
            }
            i += 1;
        }
        false
    }

    /// Adds `s` to the set.
    pub fn insert(&mut self, s: String)
        requires
            old(self).wf(),
        ensures
            final(self).wf(),
            final(self)@ == old(self)@.insert(s@),
    {
        let n = self.items.len();
        let mut i: usize = 0;
        while i < n && text_lt(self.items[i].as_str(), s.as_str())
            invariant
                i <= n == self.items.len(),
                *self == *old(self),
                forall|j: int| 0 <= j < i ==> lex_lt(#[trigger] self.elements()[j], s@),
            decreases n - i,
        {
            i += 1;
        }
        let ghost before = self.elements();
        if i < n && !text_lt(s.as_str(), self.items[i].as_str()) {
            proof {
                lemma_lex_total(before[i as int], s@);
                assert(before.contains(s@));
                assert(self@.insert(s@) =~= self@);
            }
            return ;
        }
        proof {
            assert forall|j: int| i <= j < n implies lex_lt(s@, #[trigger] before[j]) by {
                if j > i {
                    lemma_lex_transitive(s@, before[i as int], before[j]);
                }
            }
        }
        self.items.insert(i, s);
        proof {
            let after = self.elements();
            assert(after =~= before.insert(i as int, s@));
            assert forall|a: int, b: int| 0 <= a < b < after.len() implies lex_lt(
                #[trigger] after[a],
                #[trigger] after[b],
            ) by {
                let x = if a < i { a } else { a - 1 };
                let y = if b < i { b } else { b - 1 };
                if a != i && b != i {
                    assert(lex_lt(before[x], before[y]));
                } else if a == i {
                    assert(lex_lt(s@, before[y]));
                } else {
                    assert(lex_lt(before[x], s@));
                }
            }
            assert forall|x: Seq<char>| after.contains(x) <==> (before.contains(x) || x == s@) by {
                if after.contains(x) {
                    let k = choose|k: int| 0 <= k < after.len() && after[k] == x;
                    if k < i {
                        assert(before[k] == x);
                    } else if k > i {
                        assert(before[k - 1] == x);
                    }
                }
                if before.contains(x) {
                    let k = choose|k: int| 0 <= k < before.len() && before[k] == x;
                    if k < i {
                        assert(after[k] == x);
                    } else {
                        assert(after[k + 1] == x);
                    }
                }
                if x == s@ {
                    assert(after[i as int] == x);
                }
            }
            assert(self@ =~= old(self)@.insert(s@));
        }
    }

    /// Whether the two sets have a member in common.
    pub fn intersects(&self, other: &StringSet) -> (r: bool)
        requires
            self.wf(),
            other.wf(),
        ensures
            r == !self@.disjoint(other@),
    {
        let mut i: usize = 0;
        while i < self.items.len()
            invariant
                i <= self.items.len(),
                other.wf(),
                forall|j: int| 0 <= j < i ==> !other@.contains(#[trigger] self.elements()[j]),
            decreases self.items.len() - i,
        {
            if other.contains(self.items[i].as_str()) {
                proof {
                    let x = self.elements()[i as int];
                    assert(self.elements().contains(x));
                    assert(self@.contains(x) && other@.contains(x));
                }
                return true;
            }
            i += 1;
        }
        proof {
            assert forall|x: Seq<char>| !(self@.contains(x) && other@.contains(x)) by {
                if self@.contains(x) {
                    let k = choose|k: int| 0 <= k < self.elements().len() && self.elements()[k] == x;
                    assert(!other@.contains(self.elements()[k]));
                }
            }
        }
        false
    }

    /// The set of the strings of `v`.
    pub fn from_vec(v: Vec<String>) -> (r: StringSet)
        ensures
            r.wf(),
            r@ == strs(v@).to_set(),
    {
        let mut r = StringSet::new();
        let mut v = v;
        let ghost all = strs(v@);
        let ghost mut done: Seq<Seq<char>> = Seq::empty();
        assert(done.to_set() =~= Set::<Seq<char>>::empty());
        while v.len() > 0
            invariant
                r.wf(),
                r@ == done.to_set(),
                strs(v@) + done == all,
            decreases v.len(),
        {
            let ghost old_v = strs(v@);
            let s = v.pop().unwrap();
            proof {
                assert(strs(v@) == old_v.drop_last());
                assert((seq![s@] + done).to_set() =~= done.to_set().insert(s@)) by {
                    let e = seq![s@] + done;
                    assert forall|x: Seq<char>| e.contains(x) <==> (done.contains(x) || x == s@) by {
                        if e.contains(x) {
                            let k = choose|k: int| 0 <= k < e.len() && e[k] == x;
                            if k > 0 {
                                assert(done[k - 1] == x);
                            }
                        }
                        if done.contains(x) {
                            let k = choose|k: int| 0 <= k < done.len() && done[k] == x;
                            assert(e[k + 1] == x);
                        }
                        if x == s@ {
                            assert(e[0] == x);
                        }
                    }
                }
                assert(strs(v@) + (seq![s@] + done) =~= old_v + done);
                done = seq![s@] + done;
            }
            r.insert(s);
        }
        proof {
            assert(done =~= all);
        }
        r
    }

    /// The members, the least first.
    pub fn to_vec(&self) -> (r: Vec<String>)
        ensures
            strs(r@) == self.elements(),
    {
        let mut r: Vec<String> = Vec::new();
        let mut i: usize = 0;
        while i < self.items.len()
            invariant
                i <= self.items.len(),
                strs(r@) == self.elements().take(i as int),
            decreases self.items.len() - i,
        {
            let item = self.items[i].clone();
            proof {
                lemma_strs_push(r@, item);
                assert(self.elements().take(i as int).push(item@) == self.elements().take(i + 1));
            }
            r.push(item);
            i += 1;
        }
        assert(self.elements().take(self.items.len() as int) == self.elements());
        r
    }
}

} // verus!
