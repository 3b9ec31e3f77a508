//! A small map from names to values, kept as a list of names in increasing
//! order.
use crate::key_order::{
    key_less, lemma_key_less_irreflexive, lemma_key_less_total, lemma_key_less_transitive, str_less,
};
use vstd::prelude::*;

verus! {

pub struct NamedMap<V> {
    entries: Vec<(String, V)>,
}

/// The names of the entries increase from first to last.
pub open spec fn sorted_names<V>(entries: Seq<(String, V)>) -> bool {
    forall|i: int, j: int| 0 <= i < j < entries.len() ==> key_less(#[trigger] entries[i].0@, #[trigger] entries[j].0@)
}

/// Putting an entry where its name falls between the names before and
/// after it keeps the names increasing.
proof fn lemma_sorted_insert<V>(before: Seq<(String, V)>, p: int, x: (String, V))
    requires
        sorted_names(before),
        0 <= p <= before.len(),
        forall|j: int| 0 <= j < p ==> key_less(#[trigger] before[j].0@, x.0@),
        forall|j: int| p <= j < before.len() ==> key_less(x.0@, #[trigger] before[j].0@),
    ensures
        sorted_names(before.insert(p, x)),
{
    let after = before.insert(p, x);
    assert forall|i: int, j: int| 0 <= i < j < after.len() implies key_less(#[trigger] after[i].0@, #[trigger] after[j].0@) by {
        if j < p {
            assert(after[i] == before[i] && after[j] == before[j]);
        } else if j == p {
            assert(after[i] == before[i]);
        } else if i < p {
            assert(after[i] == before[i] && after[j] == before[j - 1]);
        } else if i == p {
            assert(after[j] == before[j - 1]);
        } else {
            assert(after[i] == before[i - 1] && after[j] == before[j - 1]);
        }
    }
}

/// Taking an entry out keeps the names increasing.
proof fn lemma_sorted_remove<V>(before: Seq<(String, V)>, k: int)
    requires
        sorted_names(before),
        0 <= k < before.len(),
    ensures
        sorted_names(before.remove(k)),
{
    let after = before.remove(k);
    assert forall|i: int, j: int| 0 <= i < j < after.len() implies key_less(#[trigger] after[i].0@, #[trigger] after[j].0@) by {
        let bi = if i < k { i } else { i + 1 };
        let bj = if j < k { j } else { j + 1 };
        assert(after[i] == before[bi] && after[j] == before[bj]);
    }
}

impl<V> NamedMap<V> {
    /// The names and their values.
    pub closed spec fn view(&self) -> Map<Seq<char>, V> {
        Map::new(
            |k: Seq<char>| exists|i: int| 0 <= i < self.entries@.len() && #[trigger] self.entries@[i].0@ == k,
            |k: Seq<char>| self.entries@[choose|i: int| 0 <= i < self.entries@.len() && #[trigger] self.entries@[i].0@ == k].1,
        )
    }

    /// The values, in increasing order of their names.
    pub closed spec fn values(&self) -> Seq<V> {
        self.entries@.map_values(|e: (String, V)| e.1)
    }

    /// The names in the order they are kept.
    pub closed spec fn keys(&self) -> Seq<Seq<char>> {
        self.entries@.map_values(|e: (String, V)| e.0@)
    }

    /// No name is held twice, and the names are kept in increasing order.
    pub closed spec fn well_formed(&self) -> bool {
        &&& forall|i: int, j: int|
            0 <= i < j < self.entries@.len() ==> #[trigger] self.entries@[i].0@ != #[trigger] self.entries@[j].0@
        &&& sorted_names(self.entries@)
    }

    /// With distinct names, the value under the name at index `k` is the one
    /// stored there.
    proof fn lemma_at(&self, k: int)
        requires
            self.well_formed(),
            0 <= k < self.entries@.len(),
        ensures
            self.view().contains_key(self.entries@[k].0@),
            self.view()[self.entries@[k].0@] == self.entries@[k].1,
    {
        let t = self.entries@[k].0@;
        assert(self.view().dom().contains(t));
        let i = choose|i: int| 0 <= i < self.entries@.len() && #[trigger] self.entries@[i].0@ == t;
        if i != k {
            if i < k {
                assert(self.entries@[i].0@ != self.entries@[k].0@);
            } else {
                assert(self.entries@[k].0@ != self.entries@[i].0@);
            }
        }
    }

    /// The values are exactly those of the map, each once.
    pub proof fn lemma_values(&self)
        requires
            self.well_formed(),
        ensures
            self.values().len() == self.view().dom().len(),
            forall|v: V| self.values().contains(v) <==> exists|k: Seq<char>| #[trigger] self.view().contains_key(k) && self.view()[k] == v,
    {
        let names = self.entries@.map_values(|e: (String, V)| e.0@);
        assert forall|a: int, b: int| 0 <= a < b < names.len() implies names[a] != names[b] by {
            assert(self.entries@[a].0@ != self.entries@[b].0@);
        }
        assert(names.to_set() =~= self.view().dom()) by {
            assert forall|t: Seq<char>| names.to_set().contains(t) <==> self.view().dom().contains(t) by {
                if self.view().dom().contains(t) {
                    let k = choose|k: int| 0 <= k < self.entries@.len() && #[trigger] self.entries@[k].0@ == t;
                    assert(names[k] == t);
                }
                if names.to_set().contains(t) {
                    let k = choose|k: int| 0 <= k < names.len() && names[k] == t;
                    assert(self.entries@[k].0@ == t);
                }
            }
        }
        names.unique_seq_to_set();
        assert forall|v: V| self.values().contains(v) <==> exists|k: Seq<char>| #[trigger] self.view().contains_key(k) && self.view()[k] == v by {
            if self.values().contains(v) {
                let i = choose|i: int| 0 <= i < self.values().len() && self.values()[i] == v;
                self.lemma_at(i);
                assert(self.view().contains_key(self.entries@[i].0@));
            }
            if exists|k: Seq<char>| #[trigger] self.view().contains_key(k) && self.view()[k] == v {
                let k = choose|k: Seq<char>| #[trigger] self.view().contains_key(k) && self.view()[k] == v;
                let i = choose|i: int| 0 <= i < self.entries@.len() && #[trigger] self.entries@[i].0@ == k;
                self.lemma_at(i);
                assert(self.values()[i] == v);
            }
        }
    }

    /// The names are listed in increasing order, each with its value, and
    /// they are exactly the names of the map.
    pub proof fn lemma_keys(&self)
        requires
            self.well_formed(),
        ensures
            self.keys().len() == self.values().len(),
            forall|i: int, j: int| 0 <= i < j < self.keys().len() ==> key_less(#[trigger] self.keys()[i], #[trigger] self.keys()[j]),
            forall|k: Seq<char>| #[trigger] self.view().contains_key(k) <==> self.keys().contains(k),
            forall|i: int| 0 <= i < self.keys().len() ==> #[trigger] self.view().contains_key(self.keys()[i]) && self.view()[self.keys()[i]] == self.values()[i],
    {
        assert forall|i: int, j: int| 0 <= i < j < self.keys().len() implies key_less(#[trigger] self.keys()[i], #[trigger] self.keys()[j]) by {
            assert(key_less(self.entries@[i].0@, self.entries@[j].0@));
        }
        assert forall|k: Seq<char>| #[trigger] self.view().contains_key(k) <==> self.keys().contains(k) by {
            if self.view().contains_key(k) {
                let i = choose|i: int| 0 <= i < self.entries@.len() && #[trigger] self.entries@[i].0@ == k;
                assert(self.keys()[i] == k);
            }
            if self.keys().contains(k) {
                let i = choose|i: int| 0 <= i < self.keys().len() && self.keys()[i] == k;
                assert(self.entries@[i].0@ == k);
            }
        }
        assert forall|i: int| 0 <= i < self.keys().len() implies #[trigger] self.view().contains_key(self.keys()[i]) && self.view()[self.keys()[i]] == self.values()[i] by {
            self.lemma_at(i);
        }
    }

    pub fn new() -> (r: Self)
        ensures
            r.well_formed(),
            r.view() == Map::<Seq<char>, V>::empty(),
    {
        let r = Self { entries: Vec::new() };
        assert(r.view() =~= Map::<Seq<char>, V>::empty());
        r
    }

    /// The index of `name`, if it is held.
    fn position(&self, name: &str) -> (r: Option<usize>)
        requires
            self.well_formed(),
        ensures
            r matches Some(k) ==> k < self.entries@.len() && self.entries@[k as int].0@ == name@,
            r is None ==> !self.view().contains_key(name@),
    {
        let key = name.to_owned();
        assert(key@ == name@);
        let mut i: usize = 0;
        while i < self.entries.len()
            invariant
                i <= self.entries@.len(),
                key@ == name@,
                forall|j: int| 0 <= j < i ==> #[trigger] self.entries@[j].0@ != key@,
            decreases self.entries@.len() - i,
        {
            if self.entries[i].0 == key {
                return Some(i);
            }
            i = i + 1;
        }
        None
    }

    pub fn get(&self, name: &str) -> (r: Option<&V>)
        requires
            self.well_formed(),
        ensures
            match r {
                Some(v) => self.view().contains_key(name@) && *v == self.view()[name@],
                None => !self.view().contains_key(name@),
            },
    {
        match self.position(name) {
            Some(k) => {
                proof {
                    self.lemma_at(k as int);
                }
                Some(&self.entries[k].1)
            },
            None => None,
        }
    }

    /// Puts `value` under `name`, in place of the value it had, if any.
    pub fn insert(&mut self, name: String, value: V)
        requires
            old(self).well_formed(),
        ensures
            final(self).well_formed(),
            final(self).view() == old(self).view().insert(name@, value),
    {
        let ghost key = name@;
        let ghost before = self.entries@;
        match self.position(name.as_str()) {
            Some(k) => {
                let mut entry = (name, value);
                self.entries.set_and_swap(k, &mut entry);
                proof {
                    assert(self.entries@[k as int].0@ == key);
                    assert forall|i: int, j: int| 0 <= i < j < self.entries@.len() implies key_less(#[trigger] self.entries@[i].0@, #[trigger] self.entries@[j].0@) by {
                        assert(self.entries@[i].0@ == before[i].0@);
                        assert(self.entries@[j].0@ == before[j].0@);
                    }
                    assert forall|t: Seq<char>| #[trigger] self.view().contains_key(t) <==> old(self).view().insert(key, value).contains_key(t) by {
                        if self.view().contains_key(t) {
                            let i = choose|i: int| 0 <= i < self.entries@.len() && #[trigger] self.entries@[i].0@ == t;
                            if i != k {
                                assert(before[i].0@ == t);
                            }
                        }
                        if old(self).view().contains_key(t) && t != key {
                            let i = choose|i: int| 0 <= i < before.len() && #[trigger] before[i].0@ == t;
                            assert(self.entries@[i].0@ == t);
                        }
                    }
                    assert forall|t: Seq<char>| #[trigger] self.view().contains_key(t) implies self.view()[t] == old(self).view().insert(key, value)[t] by {
                        let i = choose|i: int| 0 <= i < self.entries@.len() && #[trigger] self.entries@[i].0@ == t;
                        self.lemma_at(i);
                        if i != k {
                            old(self).lemma_at(i);
                        }
                    }
                    assert(self.view() =~= old(self).view().insert(key, value));
                }
            },
            None => {
                let mut p: usize = 0;
                while p < self.entries.len() && str_less(self.entries[p].0.as_str(), name.as_str())
                    invariant
                        p <= self.entries@.len(),
                        self.entries@ == before,
                        key == name@,
                        forall|j: int| 0 <= j < p ==> key_less(#[trigger] before[j].0@, key),
                    decreases self.entries@.len() - p,
                {
                    p = p + 1;
                }
                proof {
                    assert forall|j: int| p <= j < before.len() implies key_less(key, #[trigger] before[j].0@) by {
                        assert(before[p as int].0@ != key);
                        lemma_key_less_total(key, before[p as int].0@);
                        if j > p {
                            assert(key_less(before[p as int].0@, before[j].0@));
                            lemma_key_less_transitive(key, before[p as int].0@, before[j].0@);
                        }
                    }
                    lemma_sorted_insert(before, p as int, (name, value));
                }
                self.entries.insert(p, (name, value));
                proof {
                    let after = self.entries@;
                    assert(after == before.insert(p as int, (name, value)));
                    assert(after[p as int].0@ == key);
                    assert forall|i: int, j: int| 0 <= i < j < after.len() implies #[trigger] after[i].0@ != #[trigger] after[j].0@ by {
                        assert(key_less(after[i].0@, after[j].0@));
                        lemma_key_less_irreflexive(after[i].0@);
                    }
                    assert forall|t: Seq<char>| #[trigger] self.view().contains_key(t) <==> old(self).view().insert(key, value).contains_key(t) by {
                        if old(self).view().contains_key(t) {
                            let i = choose|i: int| 0 <= i < before.len() && #[trigger] before[i].0@ == t;
                            if i < p {
                                assert(after[i].0@ == t);
                            } else {
                                assert(after[i + 1].0@ == t);
                            }
                        }
                        if self.view().contains_key(t) && t != key {
                            let i = choose|i: int| 0 <= i < after.len() && #[trigger] after[i].0@ == t;
                            if i < p {
                                assert(before[i].0@ == t);
                            } else {
                                assert(before[i - 1].0@ == t);
                            }
                        }
                    }
                    assert forall|t: Seq<char>| #[trigger] self.view().contains_key(t) implies self.view()[t] == old(self).view().insert(key, value)[t] by {
                        let i = choose|i: int| 0 <= i < after.len() && #[trigger] after[i].0@ == t;
                        self.lemma_at(i);
                        if i < p {
                            old(self).lemma_at(i);
                        } else if i > p {
                            old(self).lemma_at(i - 1);
                        }
                    }
                    assert(self.view() =~= old(self).view().insert(key, value));
                }
            },
        }
    }

    /// Takes out the value under `name`, if any.
    pub fn remove(&mut self, name: &str) -> (r: Option<V>)
        requires
            old(self).well_formed(),
        ensures
            final(self).well_formed(),
            final(self).view() == old(self).view().remove(name@),
            match r {
                Some(v) => old(self).view().contains_key(name@) && v == old(self).view()[name@],
                None => !old(self).view().contains_key(name@),
            },
    {
        let ghost before = self.entries@;
        match self.position(name) {
            Some(k) => {
                proof {
                    old(self).lemma_at(k as int);
                }
                proof {
                    lemma_sorted_remove(before, k as int);
                }
                let (_, value) = self.entries.remove(k);
                proof {
                    let key = name@;
                    assert forall|t: Seq<char>| #[trigger] self.view().contains_key(t) <==> old(self).view().remove(key).contains_key(t) by {
                        if self.view().contains_key(t) {
                            let i = choose|i: int| 0 <= i < self.entries@.len() && #[trigger] self.entries@[i].0@ == t;
                            if i < k {
                                assert(before[i].0@ == t);
                            } else {
                                assert(before[i + 1].0@ == t);
                                assert(before[k as int].0@ != before[i + 1].0@);
                            }
                        }
                        if old(self).view().contains_key(t) && t != key {
                            let i = choose|i: int| 0 <= i < before.len() && #[trigger] before[i].0@ == t;
                            if i < k {
                                assert(self.entries@[i].0@ == t);
                            } else {
                                assert(self.entries@[i - 1].0@ == t);
                            }
                        }
                    }
                    assert forall|t: Seq<char>| #[trigger] self.view().contains_key(t) implies self.view()[t] == old(self).view().remove(key)[t] by {
                        let i = choose|i: int| 0 <= i < self.entries@.len() && #[trigger] self.entries@[i].0@ == t;
                        self.lemma_at(i);
                        if i < k {
                            old(self).lemma_at(i);
                        } else {
                            old(self).lemma_at(i + 1);
                        }
                    }
                    assert(self.view() =~= old(self).view().remove(key));
                }
                Some(value)
            },
            None => {
                assert(self.view() =~= old(self).view().remove(name@));
                None
            },
        }
    }

    /// The entries, in increasing order of their names: each entry's
    /// value is the one under its name, and every name has an entry.
    pub fn entries(&self) -> (r: &Vec<(String, V)>)
        requires
            self.well_formed(),
        ensures
            r@.map_values(|e: (String, V)| e.1) == self.values(),
            r@.map_values(|e: (String, V)| e.0@) == self.keys(),
            forall|i: int, j: int| 0 <= i < j < r@.len() ==> key_less(#[trigger] r@[i].0@, #[trigger] r@[j].0@),
            forall|i: int| 0 <= i < r@.len() ==> #[trigger] self.view().contains_key(r@[i].0@) && self.view()[r@[i].0@] == r@[i].1,
            forall|k: Seq<char>| #[trigger] self.view().contains_key(k) ==> exists|i: int| 0 <= i < r@.len() && r@[i].0@ == k,
    {
        proof {
            assert forall|i: int| 0 <= i < self.entries@.len() implies #[trigger] self.view().contains_key(self.entries@[i].0@) && self.view()[self.entries@[i].0@] == self.entries@[i].1 by {
                self.lemma_at(i);
            }
        }
        &self.entries
    }
}

} // verus!
