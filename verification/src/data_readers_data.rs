//! The registry of connected data readers: by TCP connection id, by HTTP
//! session id, and all of them by reader id.
use crate::named_map::NamedMap;
use crate::shared::share_arc;
use std::collections::HashMap;
use std::sync::Arc;
use vstd::prelude::*;

verus! {

broadcast use vstd::std_specs::hash::group_hash_axioms;

/// How a reader is connected: the id of its TCP connection, or its HTTP
/// session id.
pub enum ReaderConnectionKey {
    Tcp(i32),
    Http(String),
}

/// A reader under its reader id.
pub struct RegisteredReader<R> {
    pub id: String,
    pub reader: Arc<R>,
}

/// The abstract registry: readers by TCP connection id, by HTTP session id,
/// all readers by reader id, and the next HTTP reader number.
pub struct ReadersView<R> {
    pub tcp: Map<i32, RegisteredReader<R>>,
    pub http: Map<Seq<char>, RegisteredReader<R>>,
    pub all: Map<Seq<char>, Arc<R>>,
    pub next_id: nat,
}

pub struct DataReadersData<R> {
    tcp: HashMap<i32, RegisteredReader<R>>,
    http: NamedMap<RegisteredReader<R>>,
    all: NamedMap<Arc<R>>,
    id: usize,
}

impl<R> DataReadersData<R> {
    pub closed spec fn view(&self) -> ReadersView<R> {
        ReadersView { tcp: self.tcp@, http: self.http.view(), all: self.all.view(), next_id: self.id as nat }
    }

    pub closed spec fn well_formed(&self) -> bool {
        self.http.well_formed() && self.all.well_formed()
    }

    pub fn new() -> (r: Self)
        ensures
            r.well_formed(),
            r.view().tcp == Map::<i32, RegisteredReader<R>>::empty(),
            r.view().http == Map::<Seq<char>, RegisteredReader<R>>::empty(),
            r.view().all == Map::<Seq<char>, Arc<R>>::empty(),
            r.view().next_id == 0,
    {
        Self { tcp: HashMap::new(), http: NamedMap::new(), all: NamedMap::new(), id: 0 }
    }

    /// The next reader number, counting up from zero.
    pub fn get_next_id(&mut self) -> (r: usize)
        requires
            old(self).view().next_id < usize::MAX,
        ensures
            r == old(self).view().next_id,
            final(self).view() == (ReadersView { next_id: old(self).view().next_id + 1, ..old(self).view() }),
            final(self).well_formed() == old(self).well_formed(),
    {
        let result = self.id;
        self.id = self.id + 1;
        result
    }

    /// Registers `reader` under its reader id `id` and under its connection.
    pub fn insert(&mut self, id: String, connection: ReaderConnectionKey, reader: Arc<R>)
        requires
            old(self).well_formed(),
        ensures
            final(self).well_formed(),
            final(self).view().all == old(self).view().all.insert(id@, reader),
            final(self).view().next_id == old(self).view().next_id,
            match connection {
                ReaderConnectionKey::Tcp(c) => final(self).view().tcp == old(self).view().tcp.insert(
                    c,
                    RegisteredReader { id, reader },
                ) && final(self).view().http == old(self).view().http,
                ReaderConnectionKey::Http(s) => final(self).view().http == old(self).view().http.insert(
                    s@,
                    RegisteredReader { id, reader },
                ) && final(self).view().tcp == old(self).view().tcp,
            },
    {
        self.all.insert(id.clone(), share_arc(&reader));
        match connection {
            ReaderConnectionKey::Tcp(connection_id) => {
                self.tcp.insert(connection_id, RegisteredReader { id, reader });
            },
            ReaderConnectionKey::Http(session_id) => {
                self.http.insert(session_id, RegisteredReader { id, reader });
            },
        }
    }

    /// The reader of TCP connection `connection_id`, if registered.
    pub fn get_tcp(&self, connection_id: i32) -> (r: Option<Arc<R>>)
        ensures
            match r {
                Some(v) => self.view().tcp.contains_key(connection_id) && v == self.view().tcp[connection_id].reader,
                None => !self.view().tcp.contains_key(connection_id),
            },
    {
        let result = self.tcp.get(&connection_id)?;
        Some(share_arc(&result.reader))
    }

    /// The reader of HTTP session `session_id`, if registered.
    pub fn get_http(&self, session_id: &str) -> (r: Option<Arc<R>>)
        requires
            self.well_formed(),
        ensures
            match r {
                Some(v) => self.view().http.contains_key(session_id@) && v == self.view().http[session_id@].reader,
                None => !self.view().http.contains_key(session_id@),
            },
    {
        let result = self.http.get(session_id)?;
        Some(share_arc(&result.reader))
    }

    /// Unregisters the reader of TCP connection `connection_id`, and gives
    /// back what was registered under its reader id.
    pub fn remove_tcp(&mut self, connection_id: i32) -> (r: Option<Arc<R>>)
        requires
            old(self).well_formed(),
        ensures
            final(self).well_formed(),
            final(self).view().tcp == old(self).view().tcp.remove(connection_id),
            final(self).view().http == old(self).view().http,
            final(self).view().next_id == old(self).view().next_id,
            match old(self).view().tcp.contains_key(connection_id) {
                true => {
                    let id = old(self).view().tcp[connection_id].id@;
                    &&& final(self).view().all == old(self).view().all.remove(id)
                    &&& match r {
                        Some(v) => old(self).view().all.contains_key(id) && v == old(self).view().all[id],
                        None => !old(self).view().all.contains_key(id),
                    }
                },
                false => r is None && final(self).view().all == old(self).view().all,
            },
    {
        if let Some(removed_connection) = self.tcp.remove(&connection_id) {
            return self.all.remove(removed_connection.id.as_str());
        }
        None
    }

    /// Unregisters the reader of HTTP session `session_id`, if registered, and
    /// the reader registered under its reader id.
    pub fn remove_http(&mut self, session_id: &str)
        requires
            old(self).well_formed(),
        ensures
            final(self).well_formed(),
            final(self).view().http == old(self).view().http.remove(session_id@),
            final(self).view().tcp == old(self).view().tcp,
            final(self).view().next_id == old(self).view().next_id,
            final(self).view().all == if old(self).view().http.contains_key(session_id@) {
                old(self).view().all.remove(old(self).view().http[session_id@].id@)
            } else {
                old(self).view().all
            },
    {
        if let Some(removed_connection) = self.http.remove(session_id) {
            self.all.remove(removed_connection.id.as_str());
        }
    }

    /// Every registered reader, each once.
    pub fn get_all(&self) -> (r: Vec<Arc<R>>)
        requires
            self.well_formed(),
        ensures
            r@.len() == self.view().all.dom().len(),
            forall|v: Arc<R>| r@.contains(v) <==> exists|k: Seq<char>| #[trigger] self.view().all.contains_key(k) && self.view().all[k] == v,
    {
        let entries = self.all.entries();
        let mut result: Vec<Arc<R>> = Vec::new();
        let mut i: usize = 0;
        while i < entries.len()
            invariant
                i <= entries@.len(),
                result@ == entries@.map_values(|e: (String, Arc<R>)| e.1).subrange(0, i as int),
            decreases entries@.len() - i,
        {
            result.push(share_arc(&entries[i].1));
            i = i + 1;
            assert(result@ =~= entries@.map_values(|e: (String, Arc<R>)| e.1).subrange(0, i as int));
        }
        proof {
            assert(result@ =~= self.all.values());
            self.all.lemma_values();
            assert forall|v: Arc<R>| result@.contains(v) <==> exists|k: Seq<char>| #[trigger] self.view().all.contains_key(k) && self.view().all[k] == v by {
                assert(result@.contains(v) <==> self.all.values().contains(v));
                if self.all.values().contains(v) {
                    let k = choose|k: Seq<char>| #[trigger] self.all.view().contains_key(k) && self.all.view()[k] == v;
                    assert(self.view().all.contains_key(k) && self.view().all[k] == v);
                }
                if exists|k: Seq<char>| #[trigger] self.view().all.contains_key(k) && self.view().all[k] == v {
                    let k = choose|k: Seq<char>| #[trigger] self.view().all.contains_key(k) && self.view().all[k] == v;
                    assert(self.all.view().contains_key(k) && self.all.view()[k] == v);
                    assert(self.all.values().contains(v));
                }
            }
        }
        result
    }

    /// The registered HTTP sessions with their readers.
    pub fn http_sessions(&self) -> (r: Vec<(String, Arc<R>)>)
        requires
            self.well_formed(),
        ensures
            forall|i: int| 0 <= i < r@.len() ==> #[trigger] self.view().http.contains_key(r@[i].0@)
                && self.view().http[r@[i].0@].reader == r@[i].1,
            forall|k: Seq<char>| #[trigger] self.view().http.contains_key(k) ==> exists|i: int| 0 <= i < r@.len() && r@[i].0@ == k,
    {
        let entries = self.http.entries();
        assert(forall|j: int| 0 <= j < entries@.len() ==> #[trigger] self.http.view().contains_key(entries@[j].0@));
        let mut result: Vec<(String, Arc<R>)> = Vec::new();
        let mut i: usize = 0;
        while i < entries.len()
            invariant
                i <= entries@.len(),
                forall|j: int| 0 <= j < entries@.len() ==> #[trigger] self.http.view().contains_key(entries@[j].0@) && self.http.view()[entries@[j].0@] == entries@[j].1,
                result@.len() == i,
                forall|j: int| 0 <= j < i ==> #[trigger] result@[j].0@ == entries@[j].0@ && result@[j].1 == entries@[j].1.reader,
            decreases entries@.len() - i,
        {
            result.push((entries[i].0.clone(), share_arc(&entries[i].1.reader)));
            i = i + 1;
        }
        proof {
            assert forall|k: Seq<char>| #[trigger] self.view().http.contains_key(k) implies exists|i: int| 0 <= i < result@.len() && result@[i].0@ == k by {
                let i = choose|i: int| 0 <= i < entries@.len() && entries@[i].0@ == k;
                assert(result@[i].0@ == k);
            }
            assert forall|i: int| 0 <= i < result@.len() implies #[trigger] self.view().http.contains_key(result@[i].0@)
                && self.view().http[result@[i].0@].reader == result@[i].1 by {
                assert(self.http.view().contains_key(entries@[i].0@));
            }
        }
        result
    }
}

/// The HTTP sessions whose last incoming request, in microseconds since the
/// epoch, lies at least `timeout_micros` before `now_micros`, in the order
/// given.
pub open spec fn expired_sessions(sessions: Seq<(String, i64)>, now_micros: i64, timeout_micros: u64) -> Seq<String>
    decreases sessions.len(),
{
    if sessions.len() == 0 {
        Seq::empty()
    } else {
        let rest = expired_sessions(sessions.drop_last(), now_micros, timeout_micros);
        if now_micros - sessions.last().1 >= timeout_micros {
            rest.push(sessions.last().0)
        } else {
            rest
        }
    }
}

/// The sessions to drop are, in the order given, exactly those idle for at
/// least `timeout_micros` at `now_micros`.
pub proof fn lemma_expired_sessions(sessions: Seq<(String, i64)>, now_micros: i64, timeout_micros: u64)
    ensures
        expired_sessions(sessions, now_micros, timeout_micros) == sessions.filter(
            |p: (String, i64)| now_micros - p.1 >= timeout_micros,
        ).map_values(|p: (String, i64)| p.0),
    decreases sessions.len(),
{
    reveal(Seq::filter);
    if sessions.len() > 0 {
        lemma_expired_sessions(sessions.drop_last(), now_micros, timeout_micros);
        let f = sessions.drop_last().filter(|p: (String, i64)| now_micros - p.1 >= timeout_micros);
        assert(f.push(sessions.last()).map_values(|p: (String, i64)| p.0) =~= f.map_values(|p: (String, i64)| p.0).push(sessions.last().0));
    }
}

/// The sessions among `sessions` (session id and last incoming moment) that
/// have been idle for at least `timeout_micros` at `now_micros`.
pub fn get_http_sessions_to_gc(sessions: &Vec<(String, i64)>, now_micros: i64, timeout_micros: u64) -> (r: Vec<String>)
    ensures
        r@.map_values(|s: String| s@) == expired_sessions(sessions@, now_micros, timeout_micros).map_values(|s: String| s@),
        r@.map_values(|s: String| s@) == sessions@.filter(
            |p: (String, i64)| now_micros - p.1 >= timeout_micros,
        ).map_values(|p: (String, i64)| p.0@),
{
    let mut result: Vec<String> = Vec::new();
    let mut i: usize = 0;
    while i < sessions.len()
        invariant
            i <= sessions@.len(),
            result@.map_values(|s: String| s@) == expired_sessions(sessions@.subrange(0, i as int), now_micros, timeout_micros).map_values(|s: String| s@),
        decreases sessions@.len() - i,
    {
        let (session_id, last_incoming) = &sessions[i];
        let idle = now_micros as i128 - *last_incoming as i128;
        let ghost prefix = sessions@.subrange(0, i as int);
        let ghost next = sessions@.subrange(0, i + 1);
        let ghost before = result@;
        assert(next.drop_last() =~= prefix);
        assert(next.last() == sessions@[i as int]);
        if idle >= timeout_micros as i128 {
            let copy = session_id.clone();
            result.push(copy);
            proof {
                assert(expired_sessions(next, now_micros, timeout_micros) == expired_sessions(prefix, now_micros, timeout_micros).push(sessions@[i as int].0));
                assert(result@.map_values(|s: String| s@) =~= before.map_values(|s: String| s@).push(copy@));
                assert(expired_sessions(next, now_micros, timeout_micros).map_values(|s: String| s@) =~= expired_sessions(prefix, now_micros, timeout_micros).map_values(|s: String| s@).push(sessions@[i as int].0@));
            }
        } else {
            assert(expired_sessions(next, now_micros, timeout_micros) == expired_sessions(prefix, now_micros, timeout_micros));
        }
        i = i + 1;
    }
    assert(sessions@.subrange(0, sessions@.len() as int) =~= sessions@);
    proof {
        lemma_expired_sessions(sessions@, now_micros, timeout_micros);
        let f = sessions@.filter(|p: (String, i64)| now_micros - p.1 >= timeout_micros);
        assert(f.map_values(|p: (String, i64)| p.0).map_values(|s: String| s@) =~= f.map_values(|p: (String, i64)| p.0@));
    }
    result
}

/// The readers, out of (reader, subscribed to the table) pairs, that are
/// subscribed, in the order given.
pub open spec fn subscribed_readers<R>(readers: Seq<(Arc<R>, bool)>) -> Seq<Arc<R>>
    decreases readers.len(),
{
    if readers.len() == 0 {
        Seq::empty()
    } else {
        let rest = subscribed_readers(readers.drop_last());
        if readers.last().1 {
            rest.push(readers.last().0)
        } else {
            rest
        }
    }
}

/// The readers subscribed to a table are, in the order given, exactly those
/// marked as subscribed.
pub proof fn lemma_subscribed_readers<R>(readers: Seq<(Arc<R>, bool)>)
    ensures
        subscribed_readers(readers) == readers.filter(|p: (Arc<R>, bool)| p.1).map_values(|p: (Arc<R>, bool)| p.0),
    decreases readers.len(),
{
    reveal(Seq::filter);
    if readers.len() > 0 {
        lemma_subscribed_readers(readers.drop_last());
        let f = readers.drop_last().filter(|p: (Arc<R>, bool)| p.1);
        assert(f.push(readers.last()).map_values(|p: (Arc<R>, bool)| p.0) =~= f.map_values(|p: (Arc<R>, bool)| p.0).push(readers.last().0));
    }
}

/// The readers subscribed to a table, given each reader with whether it is
/// subscribed; `None` when there is none.
pub fn get_subscribred_to_table<R>(readers: Vec<(Arc<R>, bool)>) -> (r: Option<Vec<Arc<R>>>)
    ensures
        match r {
            Some(v) => v@ == subscribed_readers(readers@) && v@.len() > 0,
            None => subscribed_readers(readers@).len() == 0,
        },
        match r {
            Some(v) => v@ == readers@.filter(|p: (Arc<R>, bool)| p.1).map_values(|p: (Arc<R>, bool)| p.0),
            None => readers@.filter(|p: (Arc<R>, bool)| p.1).len() == 0,
        },
{
    proof {
        lemma_subscribed_readers(readers@);
    }
    let mut result: Option<Vec<Arc<R>>> = None;
    let mut source = readers;
    let ghost all = source@;
    let total: usize = source.len();
    let mut done: usize = 0;
    while source.len() > 0
        invariant
            total == all.len(),
            done + source@.len() == total,
            source@ == all.subrange(done as int, all.len() as int),
            match result {
                Some(v) => v@ == subscribed_readers(all.subrange(0, done as int)) && v@.len() > 0,
                None => subscribed_readers(all.subrange(0, done as int)).len() == 0,
            },
        decreases source@.len(),
    {
        let (reader, subscribed) = source.remove(0);
        proof {
            assert(all.subrange(0, done + 1).drop_last() =~= all.subrange(0, done as int));
            assert(all.subrange(0, done + 1).last() == (reader, subscribed));
        }
        if subscribed {
            let mut items = match result {
                Some(v) => v,
                None => Vec::new(),
            };
            items.push(reader);
            result = Some(items);
        }
        done = done + 1;
    }
    assert(all.subrange(0, all.len() as int) =~= all);
    result
}

} // verus!
