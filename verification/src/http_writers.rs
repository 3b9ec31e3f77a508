//! The writers that report to the server over HTTP, with their last ping.
use crate::key_order::key_less;
use crate::named_map::NamedMap;
use vstd::prelude::*;

verus! {

/// A writer is dropped once this many whole minutes have passed since its
/// last ping are more than one: two minutes, in microseconds.
pub const WRITER_TIMEOUT_MICROS: i64 = 120_000_000;

pub struct WriterInfo {
    pub version: String,
    /// The moment of the last ping, in microseconds since the Unix epoch.
    pub last_ping: i64,
    pub tables: Vec<String>,
}

/// A writer last pinged at `last_ping` has been silent for more than one
/// whole minute at `now`.
pub open spec fn writer_expired(last_ping: i64, now: i64) -> bool {
    now - last_ping >= WRITER_TIMEOUT_MICROS
}

pub struct HttpWritersData {
    data: NamedMap<WriterInfo>,
}

impl HttpWritersData {
    /// The writers by name.
    pub closed spec fn view(&self) -> Map<Seq<char>, WriterInfo> {
        self.data.view()
    }

    pub closed spec fn well_formed(&self) -> bool {
        self.data.well_formed()
    }

    pub fn new() -> (r: Self)
        ensures
            r.well_formed(),
            r.view() == Map::<Seq<char>, WriterInfo>::empty(),
    {
        Self { data: NamedMap::new() }
    }

    /// Records a ping of writer `name`: its version, the tables it writes
    /// and the moment.
    pub fn update(&mut self, name: &str, version: &str, tables: Vec<String>, now: i64)
        requires
            old(self).well_formed(),
        ensures
            final(self).well_formed(),
            final(self).view().dom() == old(self).view().dom().insert(name@),
            final(self).view()[name@].version@ == version@,
            final(self).view()[name@].last_ping == now,
            final(self).view()[name@].tables == tables,
            forall|k: Seq<char>| k != name@ && #[trigger] old(self).view().contains_key(k) ==> final(self).view()[k] == old(self).view()[k],
    {
        let info = WriterInfo { version: version.to_owned(), last_ping: now, tables };
        self.data.insert(name.to_owned(), info);
    }

    /// The writers, in the order of their names.
    pub fn get(&self) -> (r: &Vec<(String, WriterInfo)>)
        requires
            self.well_formed(),
        ensures
            forall|i: int, j: int| 0 <= i < j < r@.len() ==> key_less(#[trigger] r@[i].0@, #[trigger] r@[j].0@),
            forall|i: int| 0 <= i < r@.len() ==> #[trigger] self.view().contains_key(r@[i].0@) && self.view()[r@[i].0@] == r@[i].1,
            forall|k: Seq<char>| #[trigger] self.view().contains_key(k) ==> exists|i: int| 0 <= i < r@.len() && r@[i].0@ == k,
    {
        self.data.entries()
    }

    /// Drops the writers silent for more than a minute at `now`.
    pub fn gc(&mut self, now: i64)
        requires
            old(self).well_formed(),
        ensures
            final(self).well_formed(),
            final(self).view() == old(self).view().remove_keys(
                Set::new(|k: Seq<char>| old(self).view().contains_key(k) && writer_expired(old(self).view()[k].last_ping, now)),
            ),
    {
        let ghost expired = Set::new(|k: Seq<char>| old(self).view().contains_key(k) && writer_expired(old(self).view()[k].last_ping, now));
        let mut to_remove: Vec<String> = Vec::new();
        {
            let entries = self.data.entries();
            assert(forall|j: int| 0 <= j < entries@.len() ==> #[trigger] self.data.view().contains_key(entries@[j].0@));
            let mut i: usize = 0;
            while i < entries.len()
                invariant
                    i <= entries@.len(),
                    forall|j: int| 0 <= j < entries@.len() ==> #[trigger] self.data.view().contains_key(entries@[j].0@) && self.data.view()[entries@[j].0@] == entries@[j].1,
                    forall|k: Seq<char>| #[trigger] self.data.view().contains_key(k) ==> exists|j: int| 0 <= j < entries@.len() && entries@[j].0@ == k,
                    forall|j: int| 0 <= j < to_remove@.len() ==> #[trigger] expired.contains(to_remove@[j]@),
                    forall|j: int| 0 <= j < i && #[trigger] expired.contains(entries@[j].0@) ==> exists|m: int| 0 <= m < to_remove@.len() && to_remove@[m]@ == entries@[j].0@,
                    self.data.view() == old(self).view(),
                    expired == Set::new(|k: Seq<char>| old(self).view().contains_key(k) && writer_expired(old(self).view()[k].last_ping, now)),
                decreases entries@.len() - i,
            {
                assert(self.data.view().contains_key(entries@[i as int].0@));
                if now as i128 - entries[i].1.last_ping as i128 >= WRITER_TIMEOUT_MICROS as i128 {
                    let ghost before = to_remove@;
                    assert(expired.contains(entries@[i as int].0@));
                    to_remove.push(entries[i].0.clone());
                    proof {
                        assert(to_remove@[before.len() as int]@ == entries@[i as int].0@);
                        assert forall|j: int| 0 <= j < to_remove@.len() implies #[trigger] expired.contains(to_remove@[j]@) by {
                            if j < before.len() {
                                assert(to_remove@[j] == before[j]);
                            }
                        }
                        assert forall|j: int| 0 <= j <= i && #[trigger] expired.contains(entries@[j].0@) implies exists|m: int| 0 <= m < to_remove@.len() && to_remove@[m]@ == entries@[j].0@ by {
                            if j < i {
                                let m = choose|m: int| 0 <= m < before.len() && before[m]@ == entries@[j].0@;
                                assert(to_remove@[m] == before[m]);
                            } else {
                                assert(to_remove@[before.len() as int]@ == entries@[j].0@);
                            }
                        }
                    }
                } else {
                    assert(!expired.contains(entries@[i as int].0@));
                }
                i = i + 1;
            }
            proof {
                assert forall|k: Seq<char>| #[trigger] expired.contains(k) implies exists|m: int| 0 <= m < to_remove@.len() && to_remove@[m]@ == k by {
                    let j = choose|j: int| 0 <= j < entries@.len() && entries@[j].0@ == k;
                    assert(expired.contains(entries@[j].0@));
                }
            }
        }
        let mut j: usize = 0;
        while j < to_remove.len()
            invariant
                j <= to_remove@.len(),
                self.well_formed(),
                forall|m: int| 0 <= m < to_remove@.len() ==> #[trigger] expired.contains(to_remove@[m]@),
                forall|k: Seq<char>| #[trigger] expired.contains(k) ==> exists|m: int| 0 <= m < to_remove@.len() && to_remove@[m]@ == k,
                self.view() == old(self).view().remove_keys(
                    Set::new(|k: Seq<char>| exists|m: int| 0 <= m < j && #[trigger] to_remove@[m]@ == k),
                ),
            decreases to_remove@.len() - j,
        {
            let ghost prev = self.view();
            self.data.remove(to_remove[j].as_str());
            proof {
                let removed_before = Set::new(|k: Seq<char>| exists|m: int| 0 <= m < j && #[trigger] to_remove@[m]@ == k);
                let removed_after = Set::new(|k: Seq<char>| exists|m: int| 0 <= m < j + 1 && #[trigger] to_remove@[m]@ == k);
                assert(removed_after =~= removed_before.insert(to_remove@[j as int]@)) by {
                    assert forall|k: Seq<char>| removed_after.contains(k) implies removed_before.insert(to_remove@[j as int]@).contains(k) by {
                        let m = choose|m: int| 0 <= m < j + 1 && #[trigger] to_remove@[m]@ == k;
                        if m < j {
                            assert(removed_before.contains(k));
                        }
                    }
                    assert(removed_after.contains(to_remove@[j as int]@));
                }
                assert(self.view() =~= old(self).view().remove_keys(removed_after));
            }
            j = j + 1;
        }
        proof {
            let removed = Set::new(|k: Seq<char>| exists|m: int| 0 <= m < to_remove@.len() && #[trigger] to_remove@[m]@ == k);
            assert(removed =~= expired);
            assert(self.view() =~= old(self).view().remove_keys(expired));
        }
    }
}

} // verus!
