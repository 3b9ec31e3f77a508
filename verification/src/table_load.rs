//! Assembling a table from the blobs it was saved as: the metadata blob sets
//! its attributes, every other blob is one partition.
use crate::named_map::NamedMap;
use vstd::prelude::*;

verus! {

/// The attributes saved in a table's metadata blob.
pub struct TableMetadata {
    pub persist: bool,
    pub max_partitions_amount: Option<usize>,
}

/// What one blob of a table loads as; a partition is the JSON of its rows.
pub enum LoadBlobResult {
    Metadata(TableMetadata),
    DbPartition { partition_key: String, db_partition: Vec<Vec<u8>> },
}

/// A table being loaded.
pub struct LoadedTableData {
    pub table_name: String,
    pub persist: bool,
    pub max_partitions_amount: Option<usize>,
    partitions: NamedMap<Vec<Vec<u8>>>,
}

pub struct LoadedTableView {
    pub table_name: Seq<char>,
    pub persist: bool,
    pub max_partitions_amount: Option<usize>,
    pub partitions: Map<Seq<char>, Vec<Vec<u8>>>,
}

impl LoadedTableData {
    pub closed spec fn view(&self) -> LoadedTableView {
        LoadedTableView {
            table_name: self.table_name@,
            persist: self.persist,
            max_partitions_amount: self.max_partitions_amount,
            partitions: self.partitions.view(),
        }
    }

    pub closed spec fn well_formed(&self) -> bool {
        self.partitions.well_formed()
    }

    /// A table with no partitions yet, persisted and with no limit on its
    /// partitions until its metadata says otherwise.
    pub fn new(table_name: String) -> (r: Self)
        ensures
            r.well_formed(),
            r.view() == (LoadedTableView { table_name: table_name@, persist: true, max_partitions_amount: None, partitions: Map::empty() }),
    {
        LoadedTableData { table_name, persist: true, max_partitions_amount: None, partitions: NamedMap::new() }
    }

    /// The partition loaded under `partition_key`, if any.
    pub fn get_partition(&self, partition_key: &str) -> (r: Option<&Vec<Vec<u8>>>)
        requires
            self.well_formed(),
        ensures
            match r {
                Some(p) => self.view().partitions.contains_key(partition_key@) && *p == self.view().partitions[partition_key@],
                None => !self.view().partitions.contains_key(partition_key@),
            },
    {
        self.partitions.get(partition_key)
    }
}

/// The table after one loaded blob: metadata replaces the attributes, a
/// partition takes the place of any partition loaded under the same key.
pub open spec fn apply_load_result(t: LoadedTableView, r: LoadBlobResult) -> LoadedTableView {
    match r {
        LoadBlobResult::Metadata(m) => LoadedTableView {
            persist: m.persist,
            max_partitions_amount: m.max_partitions_amount,
            ..t
        },
        LoadBlobResult::DbPartition { partition_key, db_partition } => LoadedTableView {
            partitions: t.partitions.insert(partition_key@, db_partition),
            ..t
        },
    }
}

/// The table after loaded blobs, applied in order.
pub open spec fn apply_load_results(t: LoadedTableView, rs: Seq<LoadBlobResult>) -> LoadedTableView
    decreases rs.len(),
{
    if rs.len() == 0 {
        t
    } else {
        apply_load_result(apply_load_results(t, rs.drop_last()), rs.last())
    }
}

/// Blob `r` is a partition loaded under `key`.
pub open spec fn loads_partition(r: LoadBlobResult, key: Seq<char>) -> bool {
    r matches LoadBlobResult::DbPartition { partition_key, .. } && partition_key@ == key
}

/// The attributes after loading `rs`: those of the last metadata blob, or
/// as they were when there is none.
pub open spec fn attributes_loaded_as(before: LoadedTableView, rs: Seq<LoadBlobResult>, after: LoadedTableView) -> bool {
    &&& (forall|i: int| 0 <= i < rs.len() ==> !(#[trigger] rs[i] is Metadata)) ==> after.persist == before.persist
        && after.max_partitions_amount == before.max_partitions_amount
    &&& forall|i: int|
        0 <= i < rs.len() && (#[trigger] rs[i] is Metadata) && (forall|j: int| i < j < rs.len() ==> !(#[trigger] rs[j] is Metadata))
            ==> after.persist == rs[i]->Metadata_0.persist
            && after.max_partitions_amount == rs[i]->Metadata_0.max_partitions_amount
}

/// The partitions after loading `rs`: a partition is there when it was there
/// or some blob loads it; it holds what the last blob that loads it holds, or
/// what it held when no blob loads it.
pub open spec fn partitions_loaded_as(before: LoadedTableView, rs: Seq<LoadBlobResult>, after: LoadedTableView) -> bool {
    &&& forall|k: Seq<char>| #[trigger] after.partitions.contains_key(k) <==> (before.partitions.contains_key(k)
        || exists|i: int| 0 <= i < rs.len() && #[trigger] loads_partition(rs[i], k))
    &&& forall|k: Seq<char>| before.partitions.contains_key(k) && !(exists|i: int| 0 <= i < rs.len() && #[trigger] loads_partition(rs[i], k))
        ==> #[trigger] after.partitions[k] == before.partitions[k]
    &&& forall|i: int|
        0 <= i < rs.len() && (#[trigger] rs[i] is DbPartition) && (forall|j: int| i < j < rs.len() ==> !#[trigger] loads_partition(rs[j], rs[i]->partition_key@))
            ==> after.partitions[rs[i]->partition_key@] == rs[i]->db_partition
}

/// What loading the blobs `rs` into `before` gives: the table keeps its
/// name, and its attributes and partitions are as the two predicates above
/// say.
pub open spec fn loaded_as(before: LoadedTableView, rs: Seq<LoadBlobResult>, after: LoadedTableView) -> bool {
    &&& after.table_name == before.table_name
    &&& attributes_loaded_as(before, rs, after)
    &&& partitions_loaded_as(before, rs, after)
}

proof fn lemma_load_keeps_name(t: LoadedTableView, rs: Seq<LoadBlobResult>)
    ensures
        apply_load_results(t, rs).table_name == t.table_name,
    decreases rs.len(),
{
    if rs.len() > 0 {
        lemma_load_keeps_name(t, rs.drop_last());
    }
}

proof fn lemma_load_attributes(t: LoadedTableView, rs: Seq<LoadBlobResult>)
    ensures
        attributes_loaded_as(t, rs, apply_load_results(t, rs)),
    decreases rs.len(),
{
    if rs.len() > 0 {
        let prev = rs.drop_last();
        let n = rs.len() - 1;
        lemma_load_attributes(t, prev);
        let after = apply_load_results(t, rs);
        if rs[n] is Metadata {
            assert forall|i: int|
                0 <= i < rs.len() && (#[trigger] rs[i] is Metadata) && (forall|j: int| i < j < rs.len() ==> !(#[trigger] rs[j] is Metadata))
                    implies after.persist == rs[i]->Metadata_0.persist
                    && after.max_partitions_amount == rs[i]->Metadata_0.max_partitions_amount by {
                if i < n {
                    assert(rs[n] is Metadata);
                }
            }
        } else {
            assert forall|i: int|
                0 <= i < rs.len() && (#[trigger] rs[i] is Metadata) && (forall|j: int| i < j < rs.len() ==> !(#[trigger] rs[j] is Metadata))
                    implies after.persist == rs[i]->Metadata_0.persist
                    && after.max_partitions_amount == rs[i]->Metadata_0.max_partitions_amount by {
                assert(prev[i] == rs[i]);
                assert forall|j: int| i < j < prev.len() implies !(#[trigger] prev[j] is Metadata) by {
                    assert(prev[j] == rs[j]);
                    assert(!(rs[j] is Metadata));
                }
            }
            if forall|i: int| 0 <= i < rs.len() ==> !(#[trigger] rs[i] is Metadata) {
                assert forall|i: int| 0 <= i < prev.len() implies !(#[trigger] prev[i] is Metadata) by {
                    assert(prev[i] == rs[i]);
                }
            }
        }
    }
}

proof fn lemma_load_partitions(t: LoadedTableView, rs: Seq<LoadBlobResult>)
    ensures
        partitions_loaded_as(t, rs, apply_load_results(t, rs)),
    decreases rs.len(),
{
    if rs.len() > 0 {
        let prev = rs.drop_last();
        let n = rs.len() - 1;
        let x = rs[n];
        lemma_load_partitions(t, prev);
        let mid = apply_load_results(t, prev);
        let after = apply_load_results(t, rs);
        assert(after == apply_load_result(mid, x));
        assert forall|k: Seq<char>| #[trigger] after.partitions.contains_key(k) <==> (t.partitions.contains_key(k)
            || exists|i: int| 0 <= i < rs.len() && #[trigger] loads_partition(rs[i], k)) by {
            if loads_partition(x, k) {
                assert(loads_partition(rs[n], k));
                assert(after.partitions.contains_key(k));
            } else {
                assert(after.partitions.contains_key(k) == mid.partitions.contains_key(k));
                if exists|i: int| 0 <= i < rs.len() && #[trigger] loads_partition(rs[i], k) {
                    let i = choose|i: int| 0 <= i < rs.len() && #[trigger] loads_partition(rs[i], k);
                    assert(i < n);
                    assert(prev[i] == rs[i]);
                    assert(loads_partition(prev[i], k));
                }
                if exists|i: int| 0 <= i < prev.len() && #[trigger] loads_partition(prev[i], k) {
                    let i = choose|i: int| 0 <= i < prev.len() && #[trigger] loads_partition(prev[i], k);
                    assert(prev[i] == rs[i]);
                    assert(loads_partition(rs[i], k));
                }
            }
        }
        assert forall|k: Seq<char>| t.partitions.contains_key(k) && !(exists|i: int| 0 <= i < rs.len() && #[trigger] loads_partition(rs[i], k))
            implies #[trigger] after.partitions[k] == t.partitions[k] by {
            assert(!loads_partition(rs[n], k));
            if exists|i: int| 0 <= i < prev.len() && #[trigger] loads_partition(prev[i], k) {
                let i = choose|i: int| 0 <= i < prev.len() && #[trigger] loads_partition(prev[i], k);
                assert(prev[i] == rs[i]);
                assert(loads_partition(rs[i], k));
            }
        }
        assert forall|i: int|
            0 <= i < rs.len() && (#[trigger] rs[i] is DbPartition) && (forall|j: int| i < j < rs.len() ==> !#[trigger] loads_partition(rs[j], rs[i]->partition_key@))
                implies after.partitions[rs[i]->partition_key@] == rs[i]->db_partition by {
            if i < n {
                assert(!loads_partition(rs[n], rs[i]->partition_key@));
                assert(prev[i] == rs[i]);
                assert forall|j: int| i < j < prev.len() implies !#[trigger] loads_partition(prev[j], prev[i]->partition_key@) by {
                    assert(prev[j] == rs[j]);
                }
            }
        }
    }
}

/// Loading blobs in order gives the table `loaded_as` says.
pub proof fn lemma_load_results(t: LoadedTableView, rs: Seq<LoadBlobResult>)
    ensures
        loaded_as(t, rs, apply_load_results(t, rs)),
{
    lemma_load_keeps_name(t, rs);
    lemma_load_attributes(t, rs);
    lemma_load_partitions(t, rs);
}

/// Applies the blobs loaded so far to the table, in the order they were loaded.
#[verifier::rlimit(40)]
pub fn init_to_db_table(db_table_data: &mut LoadedTableData, tasks: Vec<LoadBlobResult>)
    requires
        old(db_table_data).well_formed(),
    ensures
        final(db_table_data).well_formed(),
        final(db_table_data).view() == apply_load_results(old(db_table_data).view(), tasks@),
        loaded_as(old(db_table_data).view(), tasks@, final(db_table_data).view()),
{
    let mut tasks = tasks;
    let ghost all = tasks@;
    let ghost start = db_table_data.view();
    let total: usize = tasks.len();
    let mut done: usize = 0;
    while tasks.len() > 0
        invariant
            db_table_data.well_formed(),
            start == old(db_table_data).view(),
            total == all.len(),
            done + tasks@.len() == total,
            tasks@ == all.subrange(done as int, all.len() as int),
            db_table_data.view() == apply_load_results(start, all.subrange(0, done as int)),
        decreases tasks@.len(),
    {
        let result = tasks.remove(0);
        proof {
            assert(all.subrange(0, done + 1).drop_last() =~= all.subrange(0, done as int));
            assert(all.subrange(0, done + 1).last() == result);
        }
        match result {
            LoadBlobResult::Metadata(meta_data) => {
                db_table_data.max_partitions_amount = meta_data.max_partitions_amount;
                db_table_data.persist = meta_data.persist;
            },
            LoadBlobResult::DbPartition { partition_key, db_partition } => {
                db_table_data.partitions.insert(partition_key, db_partition);
            },
        }
        done = done + 1;
    }
    assert(all.subrange(0, all.len() as int) =~= all);
    proof {
        lemma_load_results(start, all);
    }
}

} // verus!
