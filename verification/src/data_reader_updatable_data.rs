//! The tables a data reader is subscribed to.
use vstd::prelude::*;

verus! {

pub struct DataReaderUpdatableData {
    tables: Vec<String>,
}

impl DataReaderUpdatableData {
    /// The names of the subscribed tables.
    pub closed spec fn view(&self) -> Set<Seq<char>> {
        Set::new(|t: Seq<char>| exists|i: int| 0 <= i < self.tables@.len() && #[trigger] self.tables@[i]@ == t)
    }

    /// No table is held twice.
    pub closed spec fn well_formed(&self) -> bool {
        forall|i: int, j: int|
            0 <= i < j < self.tables@.len() ==> #[trigger] self.tables@[i]@ != #[trigger] self.tables@[j]@
    }

    pub fn new() -> (r: Self)
        ensures
            r.well_formed(),
            r.view() == Set::<Seq<char>>::empty(),
    {
        let r = Self { tables: Vec::new() };
        assert(r.view() =~= Set::<Seq<char>>::empty());
        r
    }

    /// The index of `name`, if it is held.
    fn position(&self, name: &String) -> (r: Option<usize>)
        ensures
            r matches Some(k) ==> k < self.tables@.len() && self.tables@[k as int]@ == name@,
            r is None ==> !self.view().contains(name@),
    {
        let mut i: usize = 0;
        while i < self.tables.len()
            invariant
                i <= self.tables@.len(),
                forall|j: int| 0 <= j < i ==> #[trigger] self.tables@[j]@ != name@,
            decreases self.tables@.len() - i,
        {
            if self.tables[i] == *name {
                return Some(i);
            }
            i = i + 1;
        }
        None
    }

    /// Subscribes to the table named `table_name` (again, if it already was).
    pub fn subscribe(&mut self, table_name: String)
        requires
            old(self).well_formed(),
        ensures
            final(self).well_formed(),
            final(self).view() == old(self).view().insert(table_name@),
    {
        match self.position(&table_name) {
            Some(_) => {
                assert(self.view() =~= old(self).view().insert(table_name@));
            },
            None => {
                let ghost name = table_name@;
                self.tables.push(table_name);
                proof {
                    let n = self.tables@.len() - 1;
                    assert(self.tables@[n]@ == name);
                    assert forall|t: Seq<char>| #[trigger] self.view().contains(t) <==> old(self).view().insert(name).contains(t) by {
                        if old(self).view().contains(t) {
                            let i = choose|i: int| 0 <= i < old(self).tables@.len() && #[trigger] old(self).tables@[i]@ == t;
                            assert(self.tables@[i]@ == t);
                        }
                        if self.view().contains(t) && t != name {
                            let i = choose|i: int| 0 <= i < self.tables@.len() && #[trigger] self.tables@[i]@ == t;
                            assert(old(self).tables@[i]@ == t);
                        }
                    }
                    assert(self.view() =~= old(self).view().insert(name));
                }
            },
        }
    }

    /// Drops the subscription to `table_name`, if there is one.
    pub fn unsubscribe(&mut self, table_name: &str)
        requires
            old(self).well_formed(),
        ensures
            final(self).well_formed(),
            final(self).view() == old(self).view().remove(table_name@),
    {
        let name = table_name.to_owned();
        match self.position(&name) {
            Some(k) => {
                self.tables.remove(k);
                proof {
                    assert forall|t: Seq<char>| #[trigger] self.view().contains(t) <==> old(self).view().remove(name@).contains(t) by {
                        if self.view().contains(t) {
                            let i = choose|i: int| 0 <= i < self.tables@.len() && #[trigger] self.tables@[i]@ == t;
                            if i < k {
                                assert(old(self).tables@[i]@ == t);
                            } else {
                                assert(old(self).tables@[i + 1]@ == t);
                            }
                        }
                        if old(self).view().contains(t) && t != name@ {
                            let i = choose|i: int| 0 <= i < old(self).tables@.len() && #[trigger] old(self).tables@[i]@ == t;
                            if i < k {
                                assert(self.tables@[i]@ == t);
                            } else {
                                assert(i != k);
                                assert(self.tables@[i - 1]@ == t);
                            }
                        }
                    }
                    assert(self.view() =~= old(self).view().remove(name@));
                }
            },
            None => {
                assert(self.view() =~= old(self).view().remove(name@));
            },
        }
    }

    pub fn has_table(&self, table_name: &str) -> (r: bool)
        ensures
            r == self.view().contains(table_name@),
    {
        let name = table_name.to_owned();
        self.position(&name).is_some()
    }

    /// The names of the subscribed tables, each once.
    pub fn get_table_names(&self) -> (r: Vec<String>)
        requires
            self.well_formed(),
        ensures
            r@.len() == self.view().len(),
            forall|t: Seq<char>| self.view().contains(t) <==> exists|i: int| 0 <= i < r@.len() && #[trigger] r@[i]@ == t,
            forall|i: int, j: int| 0 <= i < j < r@.len() ==> #[trigger] r@[i]@ != #[trigger] r@[j]@,
    {
        let mut result: Vec<String> = Vec::new();
        let mut i: usize = 0;
        while i < self.tables.len()
            invariant
                i <= self.tables@.len(),
                result@.len() == i,
                forall|j: int| 0 <= j < i ==> #[trigger] result@[j]@ == self.tables@[j]@,
            decreases self.tables@.len() - i,
        {
            result.push(self.tables[i].clone());
            i = i + 1;
        }
        proof {
            let views = self.tables@.map_values(|s: String| s@);
            assert forall|a: int, b: int| 0 <= a < b < views.len() implies views[a] != views[b] by {
                assert(self.tables@[a]@ != self.tables@[b]@);
            }
            assert(views.no_duplicates());
            assert(views.to_set() =~= self.view()) by {
                assert forall|t: Seq<char>| views.to_set().contains(t) <==> self.view().contains(t) by {
                    if self.view().contains(t) {
                        let k = choose|k: int| 0 <= k < self.tables@.len() && #[trigger] self.tables@[k]@ == t;
                        assert(views[k] == t);
                    }
                    if views.to_set().contains(t) {
                        let k = choose|k: int| 0 <= k < views.len() && views[k] == t;
                        assert(self.tables@[k]@ == t);
                    }
                }
            }
            views.unique_seq_to_set();
            assert forall|t: Seq<char>| self.view().contains(t) <==> exists|k: int| 0 <= k < result@.len() && #[trigger] result@[k]@ == t by {
                if self.view().contains(t) {
                    let k = choose|k: int| 0 <= k < self.tables@.len() && #[trigger] self.tables@[k]@ == t;
                    assert(result@[k]@ == t);
                }
                if exists|k: int| 0 <= k < result@.len() && #[trigger] result@[k]@ == t {
                    let k = choose|k: int| 0 <= k < result@.len() && #[trigger] result@[k]@ == t;
                    assert(self.tables@[k]@ == t);
                }
            }
            assert forall|a: int, b: int| 0 <= a < b < result@.len() implies #[trigger] result@[a]@ != #[trigger] result@[b]@ by {
                assert(self.tables@[a]@ != self.tables@[b]@);
            }
        }
        result
    }
}

} // verus!
