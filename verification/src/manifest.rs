//! The manifest of a preprocessing run: for each module, under the text of
//! its path, the source files that implement it.

use vstd::prelude::*;
use crate::modpath::{Mod, show_path};
use crate::strset::{
    StringSet, ascending, lemma_ascending_unique, lemma_lex_irreflexive, lemma_lex_total,
    lemma_lex_transitive, lex_lt, text_lt,
};

verus! {

/// One source file of a module, with the features that it asks for. A unit
/// that asks for none belongs to every build.
#[derive(Debug, Clone, PartialEq, Eq)]
pub struct Unit {
    pub path: String,
    pub features: StringSet,
}

/// A unit as a mathematical value.
pub struct UnitView {
    pub path: Seq<char>,
    pub features: Set<Seq<char>>,
}

impl View for Unit {
    type V = UnitView;

    open spec fn view(&self) -> UnitView {
        UnitView { path: self.path@, features: self.features@ }
    }
}

impl Unit {
    /// The features of the unit are a well-formed set.
    pub open spec fn wf(&self) -> bool {
        self.features.wf()
    }
}

/// The views of a sequence of units.
pub open spec fn units(v: Seq<Unit>) -> Seq<UnitView> {
    v.map_values(|u: Unit| u@)
}

/// The views of a sequence with one more unit.
pub proof fn lemma_units_push(v: Seq<Unit>, u: Unit)
    ensures
        units(v.push(u)) == units(v).push(u@),
{
    assert(units(v.push(u)) =~= units(v).push(u@));
}

/// The units of one module, under the key that the module is listed by.
#[derive(Debug, Clone, PartialEq, Eq)]
struct Entry {
    key: String,
    units: Vec<Unit>,
}

/// The modules of a project and their units. The keys are in ascending
/// order, so that two runs over the same sources list them alike.
#[derive(Debug, Clone, PartialEq, Eq)]
pub struct Manifest {
    entries: Vec<Entry>,
}

/// Some place at which `keys` holds `k`.
spec fn place(keys: Seq<Seq<char>>, k: Seq<char>) -> int {
    choose|i: int| 0 <= i < keys.len() && keys[i] == k
}

impl View for Manifest {
    type V = Map<Seq<char>, Seq<UnitView>>;

    closed spec fn view(&self) -> Map<Seq<char>, Seq<UnitView>> {
        Map::new(
            |k: Seq<char>| self.keys().contains(k),
            |k: Seq<char>| self.listed(place(self.keys(), k)),
        )
    }
}

impl Manifest {
    /// The keys, in the order in which the manifest lists them.
    pub closed spec fn keys(&self) -> Seq<Seq<char>> {
        Seq::new(self.entries@.len(), |i: int| self.entries@[i].key@)
    }

    /// The units listed under the key at place `i`.
    pub closed spec fn listed(&self, i: int) -> Seq<UnitView> {
        units(self.entries@[i].units@)
    }

    /// The keys ascend, and every unit is well formed.
    pub closed spec fn wf(&self) -> bool {
        &&& ascending(self.keys())
        &&& forall|i: int, j: int|
            0 <= i < self.entries@.len() && 0 <= j < self.entries@[i].units@.len() ==> (
            #[trigger] self.entries@[i].units@[j]).wf()
    }

    /// The mapping and the list agree: the keys ascend, each key maps to
    /// what is listed at its place, and nothing else is mapped.
    pub proof fn lemma_listing(&self)
        requires
            self.wf(),
        ensures
            ascending(self.keys()),
            forall|i: int|
                0 <= i < self.keys().len() ==> self@.contains_key(#[trigger] self.keys()[i])
                    && self@[self.keys()[i]] == self.listed(i),
            forall|k: Seq<char>| #[trigger] self@.contains_key(k) ==> self.keys().contains(k),
    {
        let keys = self.keys();
        assert forall|i: int| 0 <= i < keys.len() implies self@.contains_key(#[trigger] keys[i])
            && self@[keys[i]] == self.listed(i) by {
            assert(keys.contains(keys[i]));
            let p = place(keys, keys[i]);
            lemma_lex_irreflexive(keys[i]);
            if p < i {
                assert(lex_lt(keys[p], keys[i]));
            } else if p > i {
                assert(lex_lt(keys[i], keys[p]));
            }
        }
    }

    /// What the manifest lists is fixed by what it maps: two manifests
    /// with the same mapping list the same keys in the same order, with the
    /// same units, in whatever order their units were entered.
    pub proof fn law_mapping_fixes_the_listing(&self, other: &Manifest)
        requires
            self.wf(),
            other.wf(),
            self@ == other@,
        ensures
            self.keys() == other.keys(),
            forall|i: int| 0 <= i < self.keys().len() ==> self.listed(i) == other.listed(i),
    {
        self.lemma_listing();
        other.lemma_listing();
        let a = self.keys();
        let b = other.keys();
        assert forall|k: Seq<char>| a.contains(k) <==> b.contains(k) by {
            if a.contains(k) {
                let i = choose|i: int| 0 <= i < a.len() && a[i] == k;
                assert(self@.contains_key(a[i]));
                assert(other@.contains_key(k));
            }
            if b.contains(k) {
                let i = choose|i: int| 0 <= i < b.len() && b[i] == k;
                assert(other@.contains_key(b[i]));
                assert(self@.contains_key(k));
            }
        }
        assert(a.to_set() =~= b.to_set());
        lemma_ascending_unique(a, b);
        assert forall|i: int| 0 <= i < a.len() implies self.listed(i) == other.listed(i) by {
            assert(self@[a[i]] == self.listed(i));
            assert(other@[b[i]] == other.listed(i));
        }
    }

    /// The manifest of no module.
    pub fn new() -> (r: Manifest)
        ensures
            r.wf(),
            r@ == Map::<Seq<char>, Seq<UnitView>>::empty(),
            r.keys().len() == 0,
    {
        let r = Manifest { entries: Vec::new() };
        assert(r@ =~= Map::<Seq<char>, Seq<UnitView>>::empty());
        r
    }

    /// How many modules are listed.
    pub fn len(&self) -> (r: usize)
        ensures
            r == self.keys().len(),
    {
        self.entries.len()
    }

    /// The key at place `i`.
    pub fn key(&self, i: usize) -> (r: &String)
        requires
            i < self.keys().len(),
        ensures
            r@ == self.keys()[i as int],
    {
        &self.entries[i].key
    }

    /// The units listed under the key at place `i`.
    pub fn units(&self, i: usize) -> (r: &Vec<Unit>)
        requires
            self.wf(),
            i < self.keys().len(),
        ensures
            units(r@) == self.listed(i as int),
            forall|j: int| 0 <= j < r@.len() ==> (#[trigger] r@[j]).wf(),
    {
        &self.entries[i].units
    }

    /// The place of `key` among the keys, if it is one.
    pub fn find(&self, key: &str) -> (r: Option<usize>)
        requires
            self.wf(),
        ensures
            match r {
                Some(i) => i < self.keys().len() && self.keys()[i as int] == key@
                    && self@.contains_key(key@) && self@[key@] == self.listed(i as int),
                None => !self@.contains_key(key@),
            },
    {
        proof {
            self.lemma_listing();
        }
        let mut i: usize = 0;
        while i < self.entries.len()
            invariant
                i <= self.entries.len(),
                forall|j: int| 0 <= j < i ==> self.keys()[j] != key@,
            decreases self.entries.len() - i,
        {
            let k = self.entries[i].key.as_str();
            if !text_lt(k, key) && !text_lt(key, k) {
                proof {
                    lemma_lex_total(k@, key@);
                    assert(self.keys()[i as int] == key@);
                }
                return Some(i);
            }
            proof {
                lemma_lex_irreflexive(key@);
            }
            i += 1;
        }
        proof {
            if self@.contains_key(key@) {
                let p = place(self.keys(), key@);
                assert(self.keys()[p] == key@);
            }
        }
        None
    }

    /// Lists `unit` under `key`, after the units that the key has already.
    pub fn insert(&mut self, key: String, unit: Unit)
        requires
            old(self).wf(),
            unit.wf(),
        ensures
            final(self).wf(),
            final(self)@ == old(self)@.insert(
                key@,
                (if old(self)@.contains_key(key@) {
                    old(self)@[key@]
                } else {
                    Seq::empty()
                }).push(unit@),
            ),
    {
        proof {
            old(self).lemma_listing();
        }
        let ghost before = *old(self);
        let ghost old_keys = before.keys();
        let n = self.entries.len();
        let mut i: usize = 0;
        while i < n && text_lt(self.entries[i].key.as_str(), key.as_str())
            invariant
                i <= n == self.entries.len(),
                *self == before,
                forall|j: int| 0 <= j < i ==> lex_lt(#[trigger] old_keys[j], key@),
            decreases n - i,
        {
            i += 1;
        }
        let ghost added: Seq<UnitView>;
        let ghost at = i as int;
        if i < n && !text_lt(key.as_str(), self.entries[i].key.as_str()) {
            proof {
                lemma_lex_total(old_keys[at], key@);
                assert(old_keys[at] == key@);
                added = before.listed(at).push(unit@);
                lemma_units_push(before.entries@[at].units@, unit);
            }
            let mut entry = self.entries.remove(i);
            entry.units.push(unit);
            self.entries.insert(i, entry);
            proof {
                assert(self.keys() =~= old_keys);
                assert(self.listed(at) == added);
                assert forall|j: int| 0 <= j < n && j != at implies self.listed(j)
                    == before.listed(j) by {
                    assert(self.entries@[j] == before.entries@[j]);
                }
                assert forall|a: int, b: int|
                    0 <= a < self.entries@.len() && 0 <= b < self.entries@[a].units@.len() implies (
                #[trigger] self.entries@[a].units@[b]).wf() by {
                    if a != at {
                        assert(self.entries@[a] == before.entries@[a]);
                        assert(before.entries@[a].units@[b].wf());
                    } else if b < before.entries@[a].units@.len() {
                        assert(before.entries@[a].units@[b].wf());
                    }
                }
                assert(self.wf());
                self.lemma_listing();
                let target = before@.insert(key@, added);
                assert forall|k: Seq<char>| self@.contains_key(k) implies #[trigger] target.contains_key(
                    k,
                ) && self@[k] == target[k] by {
                    let p = place(self.keys(), k);
                    assert(self.keys()[p] == k);
                    assert(before@.contains_key(old_keys[p]));
                }
                assert forall|k: Seq<char>| #[trigger] target.contains_key(k) implies self@.contains_key(
                    k,
                ) by {
                    if k != key@ {
                        let p = place(old_keys, k);
                        assert(old_keys[p] == k);
                    }
                    assert(self@.contains_key(self.keys()[at]));
                }
                assert(self@ =~= target);
            }
            return ;
        }
        proof {
            added = Seq::<UnitView>::empty().push(unit@);
            assert(!before@.contains_key(key@)) by {
                if before@.contains_key(key@) {
                    let p = place(old_keys, key@);
                    assert(old_keys[p] == key@);
                    lemma_lex_irreflexive(key@);
                    if p < i {
                        assert(lex_lt(old_keys[p], key@));
                    } else {
                        lemma_lex_total(old_keys[at], key@);
                        if p > i {
                            lemma_lex_transitive(key@, old_keys[at], old_keys[p]);
                        }
                    }
                }
            }
            assert forall|j: int| i <= j < n implies lex_lt(key@, #[trigger] old_keys[j]) by {
                lemma_lex_total(old_keys[at], key@);
                if j > i {
                    lemma_lex_transitive(key@, old_keys[at], old_keys[j]);
                }
            }
        }
        let mut list: Vec<Unit> = Vec::new();
        proof {
            lemma_units_push(list@, unit);
        }
        list.push(unit);
        let ghost key_view = key@;
        self.entries.insert(i, Entry { key, units: list });
        proof {
            let new_keys = self.keys();
            assert(new_keys =~= old_keys.insert(at, key_view));
            assert forall|a: int, b: int| 0 <= a < b < new_keys.len() implies lex_lt(
                #[trigger] new_keys[a],
                #[trigger] new_keys[b],
            ) by {
                let x = if a < at { a } else { a - 1 };
                let y = if b < at { b } else { b - 1 };
                if a != at && b != at {
                    assert(lex_lt(old_keys[x], old_keys[y]));
                } else if a == at {
                    assert(lex_lt(key_view, old_keys[y]));
                } else {
                    assert(lex_lt(old_keys[x], key_view));
                }
            }
            assert forall|a: int, b: int|
                0 <= a < self.entries@.len() && 0 <= b < self.entries@[a].units@.len() implies (
            #[trigger] self.entries@[a].units@[b]).wf() by {
                if a < at {
                    assert(self.entries@[a] == before.entries@[a]);
                    assert(before.entries@[a].units@[b].wf());
                } else if a > at {
                    assert(self.entries@[a] == before.entries@[a - 1]);
                    assert(before.entries@[a - 1].units@[b].wf());
                }
            }
            assert(self.wf());
            self.lemma_listing();
            assert(self.listed(at) == added);
            let target = before@.insert(key_view, added);
            assert forall|k: Seq<char>| self@.contains_key(k) implies #[trigger] target.contains_key(
                k,
            ) && self@[k] == target[k] by {
                let p = place(new_keys, k);
                assert(new_keys[p] == k);
                if p < at {
                    assert(self.entries@[p] == before.entries@[p]);
                    assert(before@.contains_key(old_keys[p]));
                } else if p > at {
                    assert(self.entries@[p] == before.entries@[p - 1]);
                    assert(before@.contains_key(old_keys[p - 1]));
                    assert(self.listed(p) == before.listed(p - 1));
                }
            }
            assert forall|k: Seq<char>| #[trigger] target.contains_key(k) implies self@.contains_key(
                k,
            ) by {
                if k != key_view {
                    let p = place(old_keys, k);
                    assert(old_keys[p] == k);
                    if p < at {
                        assert(new_keys[p] == k);
                    } else {
                        assert(new_keys[p + 1] == k);
                    }
                } else {
                    assert(new_keys[at] == k);
                }
            }
            assert(self@ =~= target);
        }
    }

    /// Lists `unit` under the text of `module`.
    pub fn register(&mut self, module: &Mod, unit: Unit)
        requires
            old(self).wf(),
            unit.wf(),
        ensures
            final(self).wf(),
            final(self)@ == old(self)@.insert(
                show_path(module@),
                (if old(self)@.contains_key(show_path(module@)) {
                    old(self)@[show_path(module@)]
                } else {
                    Seq::empty()
                }).push(unit@),
            ),
    {
        self.insert(module.show(), unit);
    }
}

} // verus!
