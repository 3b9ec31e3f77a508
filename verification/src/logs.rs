//! The server's own log: items kept per table and per process, newest last.
use crate::persist_history_duration::keep_last;
use crate::shared::share_arc;
use std::sync::Arc;
use vstd::prelude::*;

verus! {

/// How many items each log list keeps.
pub const MAX_LOG_ITEMS: usize = 100;

#[derive(Debug, Clone, Copy, PartialEq, Eq, Structural)]
pub enum SystemProcess {
    System,
    TcpSocket,
    BlobOperation,
    TableOperation,
    Init,
}

/// The number that identifies a process in the per-process log.
pub open spec fn process_id(p: SystemProcess) -> u8 {
    match p {
        SystemProcess::System => 0,
        SystemProcess::TcpSocket => 1,
        SystemProcess::BlobOperation => 2,
        SystemProcess::TableOperation => 3,
        SystemProcess::Init => 4,
    }
}

/// The name under which `SystemProcess::parse` knows a process.
pub open spec fn process_name(p: SystemProcess) -> Seq<char> {
    match p {
        SystemProcess::System => "system"@,
        SystemProcess::TcpSocket => "tcpsocket"@,
        SystemProcess::BlobOperation => "bloboperation"@,
        SystemProcess::TableOperation => "tableoperation"@,
        SystemProcess::Init => "init"@,
    }
}

impl SystemProcess {
    /// Every process, in the order of their numbers.
    pub fn iterate() -> (r: Vec<Self>)
        ensures
            r@ == seq![
                SystemProcess::System,
                SystemProcess::TcpSocket,
                SystemProcess::BlobOperation,
                SystemProcess::TableOperation,
                SystemProcess::Init,
            ],
    {
        let mut result = Vec::new();
        result.push(SystemProcess::System);
        result.push(SystemProcess::TcpSocket);
        result.push(SystemProcess::BlobOperation);
        result.push(SystemProcess::TableOperation);
        result.push(SystemProcess::Init);
        result
    }

    /// The process whose name is `value`, if any.
    pub fn parse(value: &str) -> (r: Option<Self>)
        ensures
            r matches Some(p) ==> process_name(p) == value@,
            r is None ==> forall|p: SystemProcess| process_name(p) != value@,
    {
        let value = value.to_owned();
        if value == String::from_str("system") {
            return Some(SystemProcess::System);
        }
        if value == String::from_str("tcpsocket") {
            return Some(SystemProcess::TcpSocket);
        }
        if value == String::from_str("bloboperation") {
            return Some(SystemProcess::BlobOperation);
        }
        if value == String::from_str("tableoperation") {
            return Some(SystemProcess::TableOperation);
        }
        if value == String::from_str("init") {
            return Some(SystemProcess::Init);
        }
        proof {
            assert forall|p: SystemProcess| process_name(p) != value@ by {
                match p {
                    SystemProcess::System => {},
                    SystemProcess::TcpSocket => {},
                    SystemProcess::BlobOperation => {},
                    SystemProcess::TableOperation => {},
                    SystemProcess::Init => {},
                }
            }
        }
        None
    }

    pub fn as_u8(&self) -> (r: u8)
        ensures
            r == process_id(*self),
    {
        match self {
            SystemProcess::System => 0,
            SystemProcess::TcpSocket => 1,
            SystemProcess::BlobOperation => 2,
            SystemProcess::TableOperation => 3,
            SystemProcess::Init => 4,
        }
    }
}

/// Reading a process's name back gives the process.
pub proof fn lemma_process_name_parses(p: SystemProcess, q: SystemProcess)
    ensures
        process_name(p) == process_name(q) ==> p == q,
        process_id(p) == process_id(q) ==> p == q,
{
    reveal_strlit("system");
    reveal_strlit("tcpsocket");
    reveal_strlit("bloboperation");
    reveal_strlit("tableoperation");
    reveal_strlit("init");
    if process_name(p) == process_name(q) {
        assert(process_name(p).len() == process_name(q).len());
        assert(process_name(p)[0] == process_name(q)[0]);
        assert(process_name(p)[1] == process_name(q)[1]);
    }
}

#[derive(Debug, Clone, Copy, PartialEq, Eq, Structural)]
pub enum LogLevel {
    Info,
    Error,
    FatalError,
}

#[derive(Debug, Clone)]
pub struct LogItem {
    /// The moment of the item, in microseconds since the Unix epoch.
    pub date: i64,
    pub table: Option<String>,
    pub level: LogLevel,
    pub process: SystemProcess,
    pub process_name: String,
    pub message: String,
    pub err_ctx: Option<String>,
}

/// How many times adding an item prints it to the console: once for an error
/// level, once more for the `System` and `Init` processes.
pub open spec fn console_print_count(level: LogLevel, process: SystemProcess) -> nat {
    (if level != LogLevel::Info { 1nat } else { 0nat }) + (if process == SystemProcess::System
        || process == SystemProcess::Init {
        1nat
    } else {
        0nat
    })
}

/// How many times `LogsData::add` prints the item to the console.
pub fn console_prints(item: &LogItem) -> (r: usize)
    ensures
        r == console_print_count(item.level, item.process),
{
    let mut result: usize = 0;
    match item.level {
        LogLevel::Info => {},
        LogLevel::Error => result = result + 1,
        LogLevel::FatalError => result = result + 1,
    }
    match item.process {
        SystemProcess::System => result = result + 1,
        SystemProcess::TcpSocket => {},
        SystemProcess::BlobOperation => {},
        SystemProcess::TableOperation => {},
        SystemProcess::Init => result = result + 1,
    }
    result
}

/// Drops the oldest items until at most `MAX_LOG_ITEMS` remain.
pub fn gc_logs(items: &mut Vec<Arc<LogItem>>)
    ensures
        final(items)@ == keep_last(old(items)@, MAX_LOG_ITEMS as nat),
{
    while items.len() > MAX_LOG_ITEMS
        invariant
            items@.len() >= MAX_LOG_ITEMS ==> items@ == old(items)@.subrange(
                old(items)@.len() - items@.len(),
                old(items)@.len() as int,
            ),
            old(items)@.len() <= MAX_LOG_ITEMS ==> items@ == old(items)@,
            old(items)@.len() > MAX_LOG_ITEMS ==> items@.len() >= MAX_LOG_ITEMS,
            items@.len() <= old(items)@.len(),
        decreases items@.len(),
    {
        let ghost before = items@;
        items.remove(0);
        proof {
            assert(items@ =~= old(items)@.subrange(
                old(items)@.len() - items@.len(),
                old(items)@.len() as int,
            ));
        }
    }
}

/// The log items of one table, oldest first.
pub struct TableLogs {
    pub table: String,
    pub items: Vec<Arc<LogItem>>,
}

/// The abstract state of the log: all items, the items of each table that
/// has logged, and the items of each process, each list oldest first.
pub struct LogsView {
    pub items: Seq<Arc<LogItem>>,
    pub by_table: Map<Seq<char>, Seq<Arc<LogItem>>>,
    pub by_process: Map<u8, Seq<Arc<LogItem>>>,
}

/// The list under `key`, or the empty list.
pub open spec fn list_or_empty<K>(m: Map<K, Seq<Arc<LogItem>>>, key: K) -> Seq<Arc<LogItem>> {
    if m.contains_key(key) {
        m[key]
    } else {
        Seq::empty()
    }
}

/// `list` with `item` appended and the oldest items dropped beyond the limit.
pub open spec fn appended(list: Seq<Arc<LogItem>>, item: Arc<LogItem>) -> Seq<Arc<LogItem>> {
    keep_last(list.push(item), MAX_LOG_ITEMS as nat)
}

/// The log after `item` is added.
pub open spec fn logs_after_add(v: LogsView, item: Arc<LogItem>) -> LogsView {
    let p = process_id(item.process);
    LogsView {
        items: appended(v.items, item),
        by_process: v.by_process.insert(p, appended(list_or_empty(v.by_process, p), item)),
        by_table: match item.table {
            Some(t) => v.by_table.insert(t@, appended(list_or_empty(v.by_table, t@), item)),
            None => v.by_table,
        },
    }
}

pub struct LogsData {
    items: Vec<Arc<LogItem>>,
    items_by_table: Vec<TableLogs>,
    items_by_process: Vec<Vec<Arc<LogItem>>>,
}

impl LogsData {
    /// The table lists as a map from table name.
    closed spec fn table_map(&self) -> Map<Seq<char>, Seq<Arc<LogItem>>> {
        Map::new(
            |t: Seq<char>| exists|i: int| 0 <= i < self.items_by_table@.len() && #[trigger] self.items_by_table@[i].table@ == t,
            |t: Seq<char>| self.items_by_table@[choose|i: int| 0 <= i < self.items_by_table@.len() && #[trigger] self.items_by_table@[i].table@ == t].items@,
        )
    }

    /// The process lists as a map from process number, holding the processes
    /// that have logged.
    closed spec fn process_map(&self) -> Map<u8, Seq<Arc<LogItem>>> {
        Map::new(
            |p: u8| p < self.items_by_process@.len() && self.items_by_process@[p as int]@.len() > 0,
            |p: u8| self.items_by_process@[p as int]@,
        )
    }

    pub closed spec fn view(&self) -> LogsView {
        LogsView { items: self.items@, by_table: self.table_map(), by_process: self.process_map() }
    }

    /// Table names are distinct, and there is one process list per process.
    pub closed spec fn well_formed(&self) -> bool {
        &&& self.items_by_process@.len() == 5
        &&& forall|i: int, j: int|
            0 <= i < j < self.items_by_table@.len() ==> #[trigger] self.items_by_table@[i].table@
                != #[trigger] self.items_by_table@[j].table@
        &&& forall|i: int|
            0 <= i < self.items_by_table@.len() ==> #[trigger] self.items_by_table@[i].items@.len() > 0
    }

    pub fn new() -> (r: Self)
        ensures
            r.well_formed(),
            r.view().items == Seq::<Arc<LogItem>>::empty(),
            r.view().by_table == Map::<Seq<char>, Seq<Arc<LogItem>>>::empty(),
            r.view().by_process == Map::<u8, Seq<Arc<LogItem>>>::empty(),
    {
        let mut items_by_process: Vec<Vec<Arc<LogItem>>> = Vec::new();
        items_by_process.push(Vec::new());
        items_by_process.push(Vec::new());
        items_by_process.push(Vec::new());
        items_by_process.push(Vec::new());
        items_by_process.push(Vec::new());
        let r = Self { items: Vec::new(), items_by_table: Vec::new(), items_by_process };
        assert(r.table_map() =~= Map::<Seq<char>, Seq<Arc<LogItem>>>::empty());
        assert(r.process_map() =~= Map::<u8, Seq<Arc<LogItem>>>::empty());
        r
    }
}

/// A copy of a list of items.
fn copy_items(items: &Vec<Arc<LogItem>>) -> (r: Vec<Arc<LogItem>>)
    ensures
        r@ == items@,
{
    let mut result: Vec<Arc<LogItem>> = Vec::with_capacity(items.len());
    let mut i: usize = 0;
    while i < items.len()
        invariant
            i <= items@.len(),
            result@ == items@.subrange(0, i as int),
        decreases items@.len() - i,
    {
        result.push(share_arc(&items[i]));
        i = i + 1;
        assert(result@ =~= items@.subrange(0, i as int));
    }
    assert(result@ =~= items@);
    result
}

/// Appends an item to a list and drops the oldest beyond the limit.
fn push_and_gc(items: &mut Vec<Arc<LogItem>>, item: Arc<LogItem>)
    ensures
        final(items)@ == appended(old(items)@, item),
{
    items.push(item);
    gc_logs(items);
}

impl LogsData {
    /// With distinct table names, the list under the name at index `k` is the
    /// one stored there.
    proof fn lemma_table_map_at(&self, k: int)
        requires
            self.well_formed(),
            0 <= k < self.items_by_table@.len(),
        ensures
            self.table_map().contains_key(self.items_by_table@[k].table@),
            self.table_map()[self.items_by_table@[k].table@] == self.items_by_table@[k].items@,
    {
        let t = self.items_by_table@[k].table@;
        assert(self.table_map().dom().contains(t));
        let i = choose|i: int| 0 <= i < self.items_by_table@.len() && #[trigger] self.items_by_table@[i].table@ == t;
        if i != k {
            if i < k {
                assert(self.items_by_table@[i].table@ != self.items_by_table@[k].table@);
            } else {
                assert(self.items_by_table@[k].table@ != self.items_by_table@[i].table@);
            }
        }
    }

    /// The index of the table list named `name`, if there is one.
    fn find_table(&self, name: &String) -> (r: Option<usize>)
        requires
            self.well_formed(),
        ensures
            r matches Some(k) ==> k < self.items_by_table@.len() && self.items_by_table@[k as int].table@ == name@,
            r is None ==> !self.table_map().contains_key(name@),
    {
        let mut i: usize = 0;
        while i < self.items_by_table.len()
            invariant
                i <= self.items_by_table@.len(),
                forall|j: int| 0 <= j < i ==> #[trigger] self.items_by_table@[j].table@ != name@,
            decreases self.items_by_table@.len() - i,
        {
            if self.items_by_table[i].table == *name {
                return Some(i);
            }
            i = i + 1;
        }
        None
    }

    /// Adds an item to the whole log, to its process's list and, when it is
    /// about a table, to that table's list; each list keeps its newest
    /// `MAX_LOG_ITEMS` items.
    pub fn add(&mut self, item: LogItem)
        requires
            old(self).well_formed(),
        ensures
            final(self).well_formed(),
            final(self).view() == logs_after_add(old(self).view(), Arc::new(item)),
    {
        let item = Arc::new(item);
        let ghost old_view = self.view();
        let process_id = item.process.as_u8();
        let ghost mid_lists = self.items_by_process@;
        let mut list: Vec<Arc<LogItem>> = Vec::new();
        self.items_by_process.set_and_swap(process_id as usize, &mut list);
        push_and_gc(&mut list, share_arc(&item));
        self.items_by_process.set(process_id as usize, list);
        proof {
            let p = process_id;
            assert(list_or_empty(old_view.by_process, p) == mid_lists[p as int]@);
            assert(self.items_by_process@[p as int]@.len() > 0);
            assert(forall|q: int| 0 <= q < 5 && q != p ==> self.items_by_process@[q] == mid_lists[q]);
            assert(self.process_map() =~= old_view.by_process.insert(
                process_id,
                appended(list_or_empty(old_view.by_process, process_id), item),
            ));
        }
        let ghost mid_tables = self.items_by_table@;
        assert(self.table_map() == old_view.by_table);
        match &item.table {
            Some(table_name) => {
                match self.find_table(table_name) {
                    Some(k) => {
                        proof {
                            self.lemma_table_map_at(k as int);
                        }
                        let mut entry = TableLogs { table: String::new(), items: Vec::new() };
                        self.items_by_table.set_and_swap(k, &mut entry);
                        push_and_gc(&mut entry.items, share_arc(&item));
                        self.items_by_table.set(k, entry);
                        proof {
                            assert(self.items_by_table@[k as int].table@ == table_name@);
                            assert(forall|i: int| 0 <= i < self.items_by_table@.len() && i != k ==> self.items_by_table@[i] == mid_tables[i]);
                            assert(self.items_by_table@.len() == mid_tables.len());
                            assert forall|t: Seq<char>| #[trigger] self.table_map().contains_key(t) <==> old_view.by_table.insert(table_name@, appended(list_or_empty(old_view.by_table, table_name@), item)).contains_key(t) by {
                                if self.table_map().contains_key(t) {
                                    let i = choose|i: int| 0 <= i < self.items_by_table@.len() && #[trigger] self.items_by_table@[i].table@ == t;
                                    if i != k {
                                        assert(mid_tables[i].table@ == t);
                                    }
                                }
                                if old_view.by_table.contains_key(t) && t != table_name@ {
                                    let i = choose|i: int| 0 <= i < mid_tables.len() && #[trigger] mid_tables[i].table@ == t;
                                    assert(self.items_by_table@[i].table@ == t);
                                }
                            }
                            assert forall|t: Seq<char>| #[trigger] self.table_map().contains_key(t) implies self.table_map()[t] == old_view.by_table.insert(table_name@, appended(list_or_empty(old_view.by_table, table_name@), item))[t] by {
                                let i = choose|i: int| 0 <= i < self.items_by_table@.len() && #[trigger] self.items_by_table@[i].table@ == t;
                                self.lemma_table_map_at(i);
                                if i != k {
                                    assert(mid_tables[i] == self.items_by_table@[i]);
                                    assert(t != table_name@);
                                    let old_self_tables = mid_tables;
                                    assert(old_view.by_table.contains_key(t));
                                    let j = choose|j: int| 0 <= j < mid_tables.len() && #[trigger] mid_tables[j].table@ == t;
                                    if j != i {
                                        if j == k {
                                        } else {
                                            assert(self.items_by_table@[j].table@ == t);
                                            self.lemma_table_map_at(j);
                                        }
                                    }
                                }
                            }
                            assert(self.table_map() =~= old_view.by_table.insert(table_name@, appended(list_or_empty(old_view.by_table, table_name@), item)));
                        }
                    },
                    None => {
                        let mut items: Vec<Arc<LogItem>> = Vec::new();
                        items.push(share_arc(&item));
                        let name_copy = table_name.clone();
                        self.items_by_table.push(TableLogs { table: name_copy, items });
                        proof {
                            let n = self.items_by_table@.len() - 1;
                            assert(items@ =~= appended(Seq::empty(), item));
                            assert forall|t: Seq<char>| #[trigger] self.table_map().contains_key(t) <==> old_view.by_table.insert(table_name@, appended(Seq::empty(), item)).contains_key(t) by {
                                if old_view.by_table.contains_key(t) {
                                    let i = choose|i: int| 0 <= i < mid_tables.len() && #[trigger] mid_tables[i].table@ == t;
                                    assert(self.items_by_table@[i].table@ == t);
                                }
                                if self.table_map().contains_key(t) && t != table_name@ {
                                    let i = choose|i: int| 0 <= i < self.items_by_table@.len() && #[trigger] self.items_by_table@[i].table@ == t;
                                    assert(mid_tables[i].table@ == t);
                                }
                                if t == table_name@ {
                                    assert(self.items_by_table@[n].table@ == t);
                                }
                            }
                            assert forall|t: Seq<char>| #[trigger] self.table_map().contains_key(t) implies self.table_map()[t] == old_view.by_table.insert(table_name@, appended(Seq::empty(), item))[t] by {
                                let i = choose|i: int| 0 <= i < self.items_by_table@.len() && #[trigger] self.items_by_table@[i].table@ == t;
                                self.lemma_table_map_at(i);
                                if i != n {
                                    assert(mid_tables[i].table@ == t);
                                    let j = choose|j: int| 0 <= j < mid_tables.len() && #[trigger] mid_tables[j].table@ == t;
                                    assert(self.items_by_table@[j].table@ == t);
                                    self.lemma_table_map_at(j);
                                }
                            }
                            assert(self.table_map() =~= old_view.by_table.insert(table_name@, appended(list_or_empty(old_view.by_table, table_name@), item)));
                        }
                    },
                }
            },
            None => {},
        }
        let ghost mid_process = self.process_map();
        let ghost mid_table = self.table_map();
        push_and_gc(&mut self.items, item);
        assert(self.process_map() == mid_process);
        assert(self.table_map() == mid_table);
    }

    /// A copy of every kept item, oldest first.
    pub fn get(&self) -> (r: Vec<Arc<LogItem>>)
        ensures
            r@ == self.view().items,
    {
        copy_items(&self.items)
    }

    /// A copy of the items about `table_name`, or `None` when it never logged.
    pub fn get_by_table_name(&self, table_name: &str) -> (r: Option<Vec<Arc<LogItem>>>)
        requires
            self.well_formed(),
        ensures
            match r {
                Some(v) => self.view().by_table.contains_key(table_name@) && v@ == self.view().by_table[table_name@],
                None => !self.view().by_table.contains_key(table_name@),
            },
    {
        let name = table_name.to_owned();
        match self.find_table(&name) {
            Some(k) => {
                proof {
                    self.lemma_table_map_at(k as int);
                }
                Some(copy_items(&self.items_by_table[k].items))
            },
            None => None,
        }
    }

    /// A copy of the items of `process`, or `None` when it never logged.
    pub fn get_by_process(&self, process: SystemProcess) -> (r: Option<Vec<Arc<LogItem>>>)
        requires
            self.well_formed(),
        ensures
            match r {
                Some(v) => self.view().by_process.contains_key(process_id(process)) && v@ == self.view().by_process[process_id(process)],
                None => !self.view().by_process.contains_key(process_id(process)),
            },
    {
        let id = process.as_u8() as usize;
        if self.items_by_process[id].len() == 0 {
            return None;
        }
        Some(copy_items(&self.items_by_process[id]))
    }
}

/// Every list of the log holds at most `MAX_LOG_ITEMS` items.
pub open spec fn logs_bounded(v: LogsView) -> bool {
    &&& v.items.len() <= MAX_LOG_ITEMS
    &&& forall|t: Seq<char>| #[trigger] v.by_table.contains_key(t) ==> v.by_table[t].len() <= MAX_LOG_ITEMS
    &&& forall|p: u8| #[trigger] v.by_process.contains_key(p) ==> v.by_process[p].len() <= MAX_LOG_ITEMS
}

/// Adding an item keeps every list within `MAX_LOG_ITEMS` items, and the item
/// becomes the newest of the whole log, of its process's list and of its
/// table's list.
pub proof fn lemma_add_keeps_logs_bounded(v: LogsView, item: Arc<LogItem>)
    requires
        logs_bounded(v),
    ensures
        logs_bounded(logs_after_add(v, item)),
        logs_after_add(v, item).items.last() == item,
        logs_after_add(v, item).by_process[process_id(item.process)].last() == item,
        item.table matches Some(t) ==> logs_after_add(v, item).by_table[t@].last() == item,
{
    let w = logs_after_add(v, item);
    assert forall|t: Seq<char>| #[trigger] w.by_table.contains_key(t) implies w.by_table[t].len() <= MAX_LOG_ITEMS by {
        if item.table is Some && t == item.table->Some_0@ {
        } else {
            assert(v.by_table.contains_key(t));
        }
    }
    assert forall|p: u8| #[trigger] w.by_process.contains_key(p) implies w.by_process[p].len() <= MAX_LOG_ITEMS by {
        if p != process_id(item.process) {
            assert(v.by_process.contains_key(p));
        }
    }
}

} // verus!
