//! A partition: the chunks of one table and time bucket, and the windows of
//! its unpersisted writes. It alone adds and removes chunks.
use crate::chunk::{copy_columns, copy_strings, copy_preds, copy_rows, same_preds, snapshot_of, time_range, Chunk, ChunkStage};
use crate::compaction::{
    compact, compact_split, compaction_of, layout_of, union_columns, union_schema, ChunkSnapshot,
    CompactError, SplitCompacted, TimeBound,
};
use crate::row::names_view;
use crate::windows::{aged, flushed, handle_made, max_end, truncated, FlushHandle, Window};
use crate::row::{rows_view, Column, Row};
use crate::tombstone::{pred_ids, DeletePredicate};
use crate::windows::{range_added, PersistenceWindows};
use vstd::prelude::*;

verus! {

#[derive(Debug)]
pub enum LifecycleError {
    ChunkNotFound { chunk_id: u64 },
    /// A lifecycle action already holds the chunk.
    ChunkInTransition { chunk_id: u64 },
    /// Two declarations of `column` with different types.
    SchemaConflict { column: String },
    /// No chunk id or order is left.
    IdsExhausted,
    /// A chunk of a persist was gone at its commit.
    ChunkVanished { chunk_id: u64 },
}

impl LifecycleError {
    pub fn from_compact(e: CompactError) -> (r: LifecycleError)
        ensures
            match e {
                CompactError::SchemaConflict { column } => r == (LifecycleError::SchemaConflict {
                    column,
                }),
            },
    {
        match e {
            CompactError::SchemaConflict { column } => LifecycleError::SchemaConflict { column },
        }
    }
}

/// A chunk with id `id` exists.
pub open spec fn has_id(cs: Seq<Chunk>, id: u64) -> bool {
    exists|i: int| 0 <= i < cs.len() && cs[i].id == id
}

/// A chunk with id `id` exists and no lifecycle action holds it.
pub open spec fn free_id(cs: Seq<Chunk>, id: u64) -> bool {
    exists|i: int| 0 <= i < cs.len() && cs[i].id == id && !cs[i].in_transition
}

/// `s` is a snapshot of the chunk with id `id`.
pub open spec fn snapshot_of_id(cs: Seq<Chunk>, id: u64, s: ChunkSnapshot) -> bool {
    exists|i: int| 0 <= i < cs.len() && cs[i].id == id && snapshot_of(cs[i], s)
}

/// Rows exist at times `lo` and `hi` with `lo <= range.end` and `hi >= range.start`:
/// the chunk's time span meets the range.
pub open spec fn span_meets(rows: Seq<Row>, start: i64, end: i64) -> bool {
    (exists|i: int| 0 <= i < rows.len() && rows[i].time <= end) && (exists|i: int|
        0 <= i < rows.len() && rows[i].time >= start)
}

/// How many of `cs` have a time span that meets `start..=end`.
pub open spec fn meets_count(cs: Seq<Chunk>, start: i64, end: i64) -> nat
    decreases cs.len(),
{
    if cs.len() == 0 {
        0
    } else {
        meets_count(cs.drop_last(), start, end) + if span_meets(cs.last().rows@, start, end) { 1nat } else { 0nat }
    }
}

/// A chunk takes writes when it is open and no lifecycle action holds it.
pub open spec fn writable(c: Chunk) -> bool {
    c.stage == ChunkStage::Open && !c.in_transition
}

/// `k` is the first chunk that takes writes.
pub open spec fn first_writable(cs: Seq<Chunk>, k: int) -> bool {
    0 <= k < cs.len() && writable(cs[k]) && forall|j: int| 0 <= j < k ==> !writable(#[trigger] cs[j])
}

#[derive(Debug)]
pub struct Partition {
    table_name: String,
    partition_key: String,
    chunks: Vec<Chunk>,
    windows: PersistenceWindows,
    next_id: u64,
    next_order: u64,
}

impl Partition {
    pub closed spec fn chunks_view(&self) -> Seq<Chunk> {
        self.chunks@
    }

    pub closed spec fn spec_table_name(&self) -> String {
        self.table_name
    }

    pub closed spec fn spec_partition_key(&self) -> String {
        self.partition_key
    }

    pub fn table_name(&self) -> (r: &String)
        ensures
            *r == self.spec_table_name(),
    {
        &self.table_name
    }

    pub fn partition_key(&self) -> (r: &String)
        ensures
            *r == self.spec_partition_key(),
    {
        &self.partition_key
    }

    pub closed spec fn windows_view(&self) -> PersistenceWindows {
        self.windows
    }

    pub closed spec fn spec_next_id(&self) -> u64 {
        self.next_id
    }

    pub closed spec fn spec_next_order(&self) -> u64 {
        self.next_order
    }

    /// Chunk ids are unique and below the next id.
    pub open spec fn wf(&self) -> bool {
        let cs = self.chunks_view();
        &&& forall|i: int| 0 <= i < cs.len() ==> (#[trigger] cs[i]).id < self.spec_next_id()
        &&& forall|i: int, j: int| 0 <= i < cs.len() && 0 <= j < cs.len() && i != j ==> cs[i].id != cs[j].id
    }

    pub fn new(table_name: String, partition_key: String, late_arrival: i64) -> (r: Partition)
        requires
            late_arrival >= 0,
        ensures
            r.wf(),
            r.spec_table_name() == table_name,
            r.spec_partition_key() == partition_key,
            r.chunks_view().len() == 0,
            r.windows_view().windows().len() == 0,
            r.windows_view().open_window() is None,
            r.windows_view().late() == late_arrival,
            r.spec_next_id() == 0,
            r.spec_next_order() == 0,
    {
        Partition {
            table_name,
            partition_key,
            chunks: Vec::new(),
            windows: PersistenceWindows::new(late_arrival),
            next_id: 0,
            next_order: 0,
        }
    }

    pub fn chunks(&self) -> (r: &Vec<Chunk>)
        ensures
            r@ == self.chunks_view(),
    {
        &self.chunks
    }

    pub fn persistence_windows(&self) -> (r: &PersistenceWindows)
        ensures
            *r == self.windows_view(),
    {
        &self.windows
    }

    /// Where the chunk with id `id` stands.
    pub fn find_chunk(&self, id: u64) -> (r: Option<usize>)
        ensures
            match r {
                Some(i) => i < self.chunks_view().len() && self.chunks_view()[i as int].id == id,
                None => !has_id(self.chunks_view(), id),
            },
    {
        let mut i: usize = 0;
        while i < self.chunks.len()
            invariant
                i <= self.chunks.len(),
                forall|j: int| 0 <= j < i ==> self.chunks@[j].id != id,
            decreases self.chunks.len() - i,
        {
            if self.chunks[i].id == id {
                return Some(i);
            }
            i += 1;
        }
        None
    }

    /// Where the chunk that takes writes stands: the first open chunk that no
    /// lifecycle action holds.
    fn find_open(&self) -> (r: Option<usize>)
        ensures
            match r {
                Some(i) => first_writable(self.chunks_view(), i as int),
                None => forall|j: int|
                    0 <= j < self.chunks_view().len() ==> !writable(#[trigger] self.chunks_view()[j]),
            },
    {
        let mut i: usize = 0;
        while i < self.chunks.len()
            invariant
                i <= self.chunks.len(),
                forall|j: int| 0 <= j < i ==> !writable(#[trigger] self.chunks@[j]),
            decreases self.chunks.len() - i,
        {
            if self.chunks[i].stage == ChunkStage::Open && !self.chunks[i].in_transition {
                return Some(i);
            }
            i += 1;
        }
        None
    }

    /// Appends a batch of rows, declared by `schema`, with sequence number
    /// `seq`, received at `now`, to the chunk that takes writes, opening one
    /// when there is none. Returns the id of that chunk.
    #[verifier::rlimit(40)]
    pub fn write(&mut self, schema: &Vec<Column>, rows: Vec<Row>, seq: u64, now: i64) -> (r: Result<
        u64,
        LifecycleError,
    >)
        requires
            old(self).wf(),
        ensures
            final(self).wf(),
            final(self).spec_next_id() >= old(self).spec_next_id(),
            final(self).spec_next_order() >= old(self).spec_next_order(),
            r is Err ==> final(self).chunks_view() == old(self).chunks_view()
                && final(self).windows_view() == old(self).windows_view(),
            r is Err <==> ((exists|k: int| first_writable(old(self).chunks_view(), k)
                && crate::compaction::schema_conflict(old(self).chunks_view()[k].schema@ + schema@))
                || ((forall|j: int| 0 <= j < old(self).chunks_view().len() ==> !writable(#[trigger] old(self).chunks_view()[j]))
                && (old(self).spec_next_id() == u64::MAX || old(self).spec_next_order() == u64::MAX
                || crate::compaction::schema_conflict(schema@)))),
            r matches Err(LifecycleError::IdsExhausted) ==> old(self).spec_next_id() == u64::MAX || old(self).spec_next_order() == u64::MAX,
            r is Err ==> r matches Err(LifecycleError::IdsExhausted) || r matches Err(LifecycleError::SchemaConflict { .. }),
            r matches Ok(id) ==> {
                let before = old(self).chunks_view();
                let after = final(self).chunks_view();
                let k = if after.len() == before.len() { index_of_id(after, id) } else { before.len() as int };
                &&& 0 <= k < after.len()
                &&& after[k].id == id
                &&& after[k].stage == ChunkStage::Open
                &&& !after[k].in_transition
                &&& forall|j: int| 0 <= j < before.len() && j != k ==> #[trigger] after[j] == before[j]
                &&& if after.len() == before.len() {
                    &&& before[k].stage == ChunkStage::Open && !before[k].in_transition
                    &&& rows_view(after[k].rows@) == rows_view(before[k].rows@) + rows_view(rows@)
                    &&& union_schema(before[k].schema@ + schema@, after[k].schema@)
                    &&& after[k].tombstones == before[k].tombstones
                } else {
                    &&& after.len() == before.len() + 1
                    &&& id == old(self).spec_next_id()
                    &&& after[k].order == old(self).spec_next_order()
                    &&& final(self).spec_next_id() == old(self).spec_next_id() + 1
                    &&& final(self).spec_next_order() == old(self).spec_next_order() + 1
                    &&& forall|j: int| 0 <= j < before.len() ==> !(#[trigger] before[j].stage == ChunkStage::Open && !before[j].in_transition)
                    &&& rows_view(after[k].rows@) == rows_view(rows@)
                    &&& union_schema(schema@, after[k].schema@)
                    &&& after[k].tombstones@.len() == 0
                }
            },
            r is Ok ==> if rows@.len() == 0 {
                final(self).windows_view() == old(self).windows_view()
            } else {
                exists|lo: i64, hi: i64|
                    #[trigger] range_added(
                        old(self).windows_view(),
                        final(self).windows_view(),
                        seq,
                        rows@.len() as u64,
                        lo,
                        hi,
                        now,
                    ) && (forall|i: int| 0 <= i < rows@.len() ==> lo <= #[trigger] rows@[i].time <= hi)
                        && (exists|i: int| 0 <= i < rows@.len() && rows@[i].time == lo) && (exists|i: int|
                        0 <= i < rows@.len() && rows@[i].time == hi)
            },
    {
        let span = time_range(&rows);
        let n = rows.len();
        let ghost rv = rows_view(rows@);
        let ghost rs = rows@;
        let ghost w0 = self.windows;
        let id: u64;
        match self.find_open() {
            Some(k) => {
                proof {
                    if exists|k2: int| first_writable(self.chunks@, k2) && k2 != k {
                        let k2 = choose|k2: int| first_writable(self.chunks@, k2) && k2 != k;
                        if k2 < k {
                            assert(!writable(self.chunks@[k2]));
                        } else {
                            assert(!writable(self.chunks@[k as int]));
                        }
                    }
                }
                let mut cols = copy_columns(&self.chunks[k].schema);
                let mut i: usize = 0;
                let ghost base = cols@;
                while i < schema.len()
                    invariant
                        i <= schema.len(),
                        cols@ == base + schema@.take(i as int),
                    decreases schema.len() - i,
                {
                    cols.push(schema[i].copy());
                    i += 1;
                    assert(cols@ =~= base + schema@.take(i as int));
                }
                assert(schema@.take(i as int) =~= schema@);
                let merged = match union_columns(&cols) {
                    Ok(m) => m,
                    Err(e) => return Err(LifecycleError::from_compact(e)),
                };
                let ghost old_rows = rows_view(self.chunks@[k as int].rows@);
                let mut rows = rows;
                self.chunks[k].schema = merged;
                self.chunks[k].rows.append(&mut rows);
                self.chunks[k].time_of_last_write = now;
                if seq < self.chunks[k].min_seq {
                    self.chunks[k].min_seq = seq;
                }
                if seq > self.chunks[k].max_seq {
                    self.chunks[k].max_seq = seq;
                }
                id = self.chunks[k].id;
                proof {
                    assert(rows_view(self.chunks@[k as int].rows@) =~= old_rows + rv);
                    assert(index_of_id(self.chunks@, id) == k as int) by {
                        lemma_index_of_id(self.chunks@, k as int);
                    }
                }
            },
            None => {
                proof {
                    if exists|k2: int| first_writable(self.chunks@, k2) {
                        let k2 = choose|k2: int| first_writable(self.chunks@, k2);
                        assert(!writable(self.chunks@[k2]));
                    }
                }
                if self.next_id == u64::MAX || self.next_order == u64::MAX {
                    return Err(LifecycleError::IdsExhausted);
                }
                let merged = match union_columns(schema) {
                    Ok(m) => m,
                    Err(e) => return Err(LifecycleError::from_compact(e)),
                };
                id = self.next_id;
                let chunk = Chunk {
                    id,
                    order: self.next_order,
                    stage: ChunkStage::Open,
                    in_transition: false,
                    schema: merged,
                    sort_key: Vec::new(),
                    rows,
                    tombstones: Vec::new(),
                    time_of_first_write: now,
                    time_of_last_write: now,
                    min_seq: seq,
                    max_seq: seq,
                };
                self.chunks.push(chunk);
                self.next_id = self.next_id + 1;
                self.next_order = self.next_order + 1;
            },
        }
        match span {
            Some((lo, hi)) => {
                self.windows.add_range(seq, n as u64, lo, hi, now);
                assert(range_added(
                    old(self).windows_view(),
                    self.windows_view(),
                    seq,
                    rs.len() as u64,
                    lo,
                    hi,
                    now,
                ));
                assert(forall|i: int| 0 <= i < rs.len() ==> lo <= #[trigger] rs[i].time <= hi);
            },
            None => {},
        }
        Ok(id)
    }

    /// Closes the chunk that takes writes; later writes open a new one.
    /// Returns its id, or `None` when there is none.
    #[verifier::rlimit(40)]
    pub fn rollover(&mut self) -> (r: Option<u64>)
        requires
            old(self).wf(),
        ensures
            final(self).wf(),
            final(self).windows_view() == old(self).windows_view(),
            final(self).spec_next_id() == old(self).spec_next_id(),
            final(self).spec_next_order() == old(self).spec_next_order(),
            final(self).chunks_view().len() == old(self).chunks_view().len(),
            r is None <==> forall|j: int| 0 <= j < old(self).chunks_view().len() ==> !writable(#[trigger] old(self).chunks_view()[j]),
            r is None ==> final(self).chunks_view() == old(self).chunks_view(),
            r matches Some(id) ==> {
                let k = index_of_id(old(self).chunks_view(), id);
                &&& 0 <= k < old(self).chunks_view().len()
                &&& old(self).chunks_view()[k].stage == ChunkStage::Open
                &&& old(self).chunks_view()[k].id == id
                &&& final(self).chunks_view()[k] == (Chunk { stage: ChunkStage::Closed, ..old(self).chunks_view()[k] })
                &&& forall|j: int| 0 <= j < old(self).chunks_view().len() && j != k ==> #[trigger] final(self).chunks_view()[j] == old(self).chunks_view()[j]
            },
    {
        match self.find_open() {
            Some(k) => {
                self.chunks[k].stage = ChunkStage::Closed;
                let id = self.chunks[k].id;
                proof {
                    lemma_index_of_id(old(self).chunks_view(), k as int);
                }
                Some(id)
            },
            None => None,
        }
    }

    /// Attaches a copy of tombstone `pred` to every chunk whose time span
    /// meets its range. Returns how many chunks took it.
    pub fn delete(&mut self, pred: &DeletePredicate) -> (r: usize)
        requires
            old(self).wf(),
        ensures
            final(self).wf(),
            r == meets_count(old(self).chunks_view(), pred.range.start, pred.range.end),
            final(self).windows_view() == old(self).windows_view(),
            final(self).spec_next_id() == old(self).spec_next_id(),
            final(self).spec_next_order() == old(self).spec_next_order(),
            final(self).chunks_view().len() == old(self).chunks_view().len(),
            forall|i: int| 0 <= i < old(self).chunks_view().len() ==> {
                let a = old(self).chunks_view()[i];
                let b = #[trigger] final(self).chunks_view()[i];
                &&& b.id == a.id && b.order == a.order && b.stage == a.stage
                &&& b.in_transition == a.in_transition && b.rows == a.rows && b.schema == a.schema
                &&& if span_meets(a.rows@, pred.range.start, pred.range.end) {
                    &&& b.tombstones@.drop_last() == a.tombstones@
                    &&& b.tombstones@.len() == a.tombstones@.len() + 1
                    &&& b.tombstones@.last().id == pred.id
                    &&& b.tombstones@.last().range == pred.range
                    &&& b.tombstones@.last().exprs@ == pred.exprs@
                } else {
                    b.tombstones == a.tombstones
                }
            },
    {
        let mut count: usize = 0;
        let mut i: usize = 0;
        while i < self.chunks.len()
            invariant
                i <= self.chunks.len(),
                count <= i,
                count == meets_count(old(self).chunks_view().take(i as int), pred.range.start, pred.range.end),
                self.chunks@.len() == old(self).chunks_view().len(),
                self.windows == old(self).windows_view(),
                self.next_id == old(self).spec_next_id(),
                self.next_order == old(self).spec_next_order(),
                forall|j: int| i <= j < self.chunks@.len() ==> #[trigger] self.chunks@[j] == old(self).chunks_view()[j],
                forall|j: int| 0 <= j < i ==> {
                    let a = old(self).chunks_view()[j];
                    let b = #[trigger] self.chunks@[j];
                    &&& b.id == a.id && b.order == a.order && b.stage == a.stage
                    &&& b.in_transition == a.in_transition && b.rows == a.rows && b.schema == a.schema
                    &&& if span_meets(a.rows@, pred.range.start, pred.range.end) {
                        &&& b.tombstones@.drop_last() == a.tombstones@
                        &&& b.tombstones@.len() == a.tombstones@.len() + 1
                        &&& b.tombstones@.last().id == pred.id
                        &&& b.tombstones@.last().range == pred.range
                        &&& b.tombstones@.last().exprs@ == pred.exprs@
                    } else {
                        b.tombstones == a.tombstones
                    }
                },
            decreases self.chunks.len() - i,
        {
            assert(old(self).chunks_view().take(i + 1).drop_last() =~= old(self).chunks_view().take(i as int));
            assert(old(self).chunks_view().take(i + 1).last() == old(self).chunks_view()[i as int]);
            let meets = match time_range(&self.chunks[i].rows) {
                Some((lo, hi)) => lo <= pred.range.end && hi >= pred.range.start,
                None => false,
            };
            proof {
                let rs = self.chunks@[i as int].rows@;
                if span_meets(rs, pred.range.start, pred.range.end) {
                    let a = choose|a: int| 0 <= a < rs.len() && rs[a].time <= pred.range.end;
                    let b = choose|b: int| 0 <= b < rs.len() && rs[b].time >= pred.range.start;
                    assert(rs[a].time <= pred.range.end);
                }
            }
            if meets {
                let ghost t0 = self.chunks@[i as int].tombstones@;
                let copy = pred.copy();
                self.chunks[i].tombstones.push(copy);
                assert(self.chunks@[i as int].tombstones@.drop_last() =~= t0);
                count += 1;
            }
            i += 1;
        }
        proof {
            assert(old(self).chunks_view().take(i as int) =~= old(self).chunks_view());
            assert forall|a: int, b: int| 0 <= a < self.chunks@.len() && 0 <= b < self.chunks@.len() && a != b implies self.chunks@[a].id != self.chunks@[b].id by {
                assert(self.chunks@[a].id == old(self).chunks_view()[a].id);
                assert(self.chunks@[b].id == old(self).chunks_view()[b].id);
            }
            assert forall|a: int| 0 <= a < self.chunks@.len() implies (#[trigger] self.chunks@[a]).id < self.next_id by {
                assert(self.chunks@[a].id == old(self).chunks_view()[a].id);
            }
        }
        count
    }
}

/// Where the chunk with id `id` stands (the first such).
pub open spec fn index_of_id(cs: Seq<Chunk>, id: u64) -> int {
    choose|k: int| 0 <= k < cs.len() && cs[k].id == id && forall|j: int| 0 <= j < k ==> #[trigger] cs[j].id != id
}

pub proof fn lemma_index_of_id(cs: Seq<Chunk>, k: int)
    requires
        0 <= k < cs.len(),
        forall|i: int, j: int| 0 <= i < cs.len() && 0 <= j < cs.len() && i != j ==> cs[i].id != cs[j].id,
    ensures
        index_of_id(cs, cs[k].id) == k,
{
    let id = cs[k].id;
    assert(0 <= k < cs.len() && cs[k].id == id && forall|j: int| 0 <= j < k ==> #[trigger] cs[j].id != id);
    let c = index_of_id(cs, id);
    assert(cs[c].id == id);
}

/// What a persist holds between taking its snapshot and its commit.
#[derive(Debug)]
pub struct PersistJob {
    pub chunk_ids: Vec<u64>,
    pub snapshots: Vec<ChunkSnapshot>,
    /// Ids of the tombstones that the chunks carried at the snapshot.
    pub before: Vec<u64>,
    pub max_order: u64,
    pub time_of_first_write: i64,
    pub time_of_last_write: i64,
    pub min_seq: u64,
    pub max_seq: u64,
    pub input_rows: u64,
    pub handle: FlushHandle,
}

/// A chunk among those with ids `ids` carries tombstone `t`.
pub open spec fn carried(cs: Seq<Chunk>, ids: Seq<u64>, t: u64) -> bool {
    exists|i: int| 0 <= i < cs.len() && ids.contains(cs[i].id) && #[trigger] pred_ids(cs[i].tombstones@).contains(t)
}

/// `d` holds, once each and in ascending order of id, the tombstones that
/// the chunks with ids `ids` carry and that are not among `before`.
pub open spec fn delta_of(cs: Seq<Chunk>, ids: Seq<u64>, before: Seq<u64>, d: Seq<DeletePredicate>) -> bool {
    &&& forall|t: u64| #[trigger] pred_ids(d).contains(t) <==> carried(cs, ids, t) && !before.contains(t)
    &&& pred_ids(d).no_duplicates()
    &&& forall|i: int, j: int| 0 <= i < j < d.len() ==> d[i].id < d[j].id
}

/// Orders tombstones of distinct ids by ascending id.
fn sort_by_id(d: Vec<DeletePredicate>) -> (r: Vec<DeletePredicate>)
    requires
        pred_ids(d@).no_duplicates(),
    ensures
        forall|t: u64| #[trigger] pred_ids(r@).contains(t) <==> pred_ids(d@).contains(t),
        forall|i: int, j: int| 0 <= i < j < r@.len() ==> r@[i].id < r@[j].id,
{
    let ghost dv = pred_ids(d@);
    let mut rest = d;
    let mut out: Vec<DeletePredicate> = Vec::new();
    let ghost mut k: int = 0;
    assert(pred_ids(rest@) =~= dv.subrange(0, dv.len() as int));
    while rest.len() > 0
        invariant
            0 <= k <= dv.len(),
            dv.no_duplicates(),
            pred_ids(rest@) == dv.subrange(k, dv.len() as int),
            forall|t: u64| #[trigger] pred_ids(out@).contains(t) <==> dv.subrange(0, k).contains(t),
            forall|i: int, j: int| 0 <= i < j < out@.len() ==> out@[i].id < out@[j].id,
        decreases rest.len(),
    {
        let ghost r0 = rest@;
        assert(pred_ids(r0).len() == r0.len());
        assert(k < dv.len());
        assert(pred_ids(r0)[0] == dv.subrange(k, dv.len() as int)[0]);
        assert(dv.subrange(k, dv.len() as int)[0] == dv[k]);
        let x = rest.remove(0);
        let ghost xid = x.id;
        assert(pred_ids(r0)[0] == r0[0].id);
        assert(xid == dv[k]);
        let mut p: usize = 0;
        while p < out.len() && out[p].id < x.id
            invariant
                p <= out.len(),
                forall|i: int| 0 <= i < p ==> out@[i].id < x.id,
            decreases out.len() - p,
        {
            p += 1;
        }
        proof {
            // x's id is new, so every later element is above it
            if p < out.len() {
                assert(pred_ids(out@)[p as int] == out@[p as int].id);
                if out@[p as int].id == xid {
                    assert(pred_ids(out@).contains(xid));
                    assert(dv.subrange(0, k).contains(xid));
                    let q = choose|q: int| 0 <= q < k && dv.subrange(0, k)[q] == xid;
                    assert(dv[q] == dv[k]);
                    assert(q != k);
                    assert(false);
                }
                assert(out@[p as int].id >= xid);
                assert(out@[p as int].id > xid);
            }
        }
        let ghost o0 = out@;
        out.insert(p, x);
        proof {
            o0.insert_ensures(p as int, out@[p as int]);
            assert(out@ == o0.insert(p as int, out@[p as int]));
            assert forall|i: int, j: int| 0 <= i < j < out@.len() implies out@[i].id < out@[j].id by {
                if j < p {
                } else if i < p && j == p {
                } else if i < p {
                    assert(out@[j] == o0[j - 1]);
                    assert(o0[p as int].id > xid);
                } else if i == p {
                    assert(out@[j] == o0[j - 1]);
                    assert(o0[p as int].id > xid);
                } else {
                    assert(out@[i] == o0[i - 1]);
                    assert(out@[j] == o0[j - 1]);
                }
            }
            let s0 = dv.subrange(0, k);
            let s1 = dv.subrange(0, k + 1);
            assert forall|t: u64| #[trigger] pred_ids(out@).contains(t) <==> s1.contains(t) by {
                if pred_ids(out@).contains(t) {
                    let a = choose|a: int| 0 <= a < out@.len() && pred_ids(out@)[a] == t;
                    if a < p {
                        assert(pred_ids(o0)[a] == t);
                        assert(pred_ids(o0).contains(t));
                    } else if a > p {
                        assert(pred_ids(o0)[a - 1] == t);
                        assert(pred_ids(o0).contains(t));
                    }
                    if a != p {
                        assert(s0.contains(t));
                        let q = choose|q: int| 0 <= q < s0.len() && s0[q] == t;
                        assert(s1[q] == t);
                    } else {
                        assert(pred_ids(out@)[p as int] == xid);
                        assert(s1[k] == t);
                    }
                }
                if s1.contains(t) {
                    let q = choose|q: int| 0 <= q < s1.len() && s1[q] == t;
                    if q < k {
                        assert(s0[q] == t);
                        assert(pred_ids(o0).contains(t));
                        let a = choose|a: int| 0 <= a < o0.len() && pred_ids(o0)[a] == t;
                        if a < p {
                            assert(pred_ids(out@)[a] == t);
                        } else {
                            assert(pred_ids(out@)[a + 1] == t);
                        }
                    } else {
                        assert(pred_ids(out@)[p as int] == t);
                    }
                }
            }
            assert(rest@ =~= r0.subrange(1, r0.len() as int));
            assert forall|i: int| 0 <= i < rest@.len() implies pred_ids(rest@)[i] == dv[k + 1 + i] by {
                assert(rest@[i] == r0[i + 1]);
                assert(pred_ids(r0)[i + 1] == r0[i + 1].id);
                assert(pred_ids(r0)[i + 1] == dv.subrange(k, dv.len() as int)[i + 1]);
            }
            k = k + 1;
            assert(pred_ids(rest@) =~= dv.subrange(k, dv.len() as int));
        }
    }
    assert(dv.subrange(0, k) =~= dv);
    out
}

/// `kept` is `before` without the chunks whose ids are in `ids`, in order.
pub open spec fn embeds(before: Seq<Chunk>, ids: Seq<u64>, kept: Seq<Chunk>, m: Seq<int>) -> bool {
    &&& m.len() == kept.len()
    &&& forall|a: int| 0 <= a < kept.len() ==> 0 <= #[trigger] m[a] < before.len() && kept[a] == before[m[a]] && !ids.contains(kept[a].id)
    &&& forall|a: int, b: int| 0 <= a < b < kept.len() ==> m[a] < m[b]
    &&& forall|i: int| 0 <= i < before.len() && !ids.contains(#[trigger] before[i].id) ==> exists|a: int| 0 <= a < m.len() && m[a] == i
}

pub open spec fn retains(before: Seq<Chunk>, ids: Seq<u64>, kept: Seq<Chunk>) -> bool {
    exists|m: Seq<int>| embeds(before, ids, kept, m)
}

fn contains_u64(v: &Vec<u64>, x: u64) -> (r: bool)
    ensures
        r == v@.contains(x),
{
    let mut i: usize = 0;
    while i < v.len()
        invariant
            i <= v.len(),
            forall|j: int| 0 <= j < i ==> v@[j] != x,
        decreases v.len() - i,
    {
        if v[i] == x {
            return true;
        }
        i += 1;
    }
    false
}

proof fn lemma_push_contains(s: Seq<u64>, x: u64)
    ensures
        forall|t: u64| #[trigger] s.push(x).contains(t) <==> (s.contains(t) || t == x),
{
    assert forall|t: u64| #[trigger] s.push(x).contains(t) <==> (s.contains(t) || t == x) by {
        if s.contains(t) {
            let i = choose|i: int| 0 <= i < s.len() && s[i] == t;
            assert(s.push(x)[i] == t);
        }
        if t == x {
            assert(s.push(x)[s.len() as int] == t);
        }
        if s.push(x).contains(t) {
            let i = choose|i: int| 0 <= i < s.len() + 1 && s.push(x)[i] == t;
            if i < s.len() {
                assert(s[i] == t);
            }
        }
    }
}

/// Ids of the tombstones that the chunks with ids `ids` carry.
fn carried_ids(cs: &Vec<Chunk>, ids: &Vec<u64>) -> (r: Vec<u64>)
    ensures
        forall|t: u64| #[trigger] r@.contains(t) <==> carried(cs@, ids@, t),
{
    let mut r: Vec<u64> = Vec::new();
    let mut i: usize = 0;
    while i < cs.len()
        invariant
            i <= cs.len(),
            forall|t: u64| #[trigger] r@.contains(t) <==> carried(cs@.take(i as int), ids@, t),
        decreases cs.len() - i,
    {
        let ghost b0 = r@;
        let takes = contains_u64(ids, cs[i].id);
        if takes {
            let mut j: usize = 0;
            while j < cs[i].tombstones.len()
                invariant
                    i < cs.len(),
                    ids@.contains(cs@[i as int].id),
                    j <= cs@[i as int].tombstones.len(),
                    forall|t: u64| #[trigger] r@.contains(t) <==> (b0.contains(t) || pred_ids(cs@[i as int].tombstones@.take(j as int)).contains(t)),
                decreases cs@[i as int].tombstones.len() - j,
            {
                let ghost tk = cs@[i as int].tombstones@;
                assert(pred_ids(tk.take(j + 1)) =~= pred_ids(tk.take(j as int)).push(tk[j as int].id));
                let ghost rr = r@;
                r.push(cs[i].tombstones[j].id);
                proof {
                    lemma_push_contains(rr, tk[j as int].id);
                    lemma_push_contains(pred_ids(tk.take(j as int)), tk[j as int].id);
                }
                j += 1;
            }
            assert(cs@[i as int].tombstones@.take(j as int) =~= cs@[i as int].tombstones@);
        }
        proof {
            let c1 = cs@.take(i + 1);
            let c0 = cs@.take(i as int);
            assert forall|t: u64| #[trigger] r@.contains(t) <==> carried(c1, ids@, t) by {
                if carried(c1, ids@, t) {
                    let q = choose|q: int| 0 <= q < c1.len() && ids@.contains(c1[q].id) && #[trigger] pred_ids(c1[q].tombstones@).contains(t);
                    if q < i {
                        assert(c0[q] == c1[q]);
                        assert(carried(c0, ids@, t));
                    }
                }
                if carried(c0, ids@, t) {
                    let q = choose|q: int| 0 <= q < c0.len() && ids@.contains(c0[q].id) && #[trigger] pred_ids(c0[q].tombstones@).contains(t);
                    assert(c1[q] == c0[q]);
                }
                if takes && pred_ids(cs@[i as int].tombstones@).contains(t) {
                    assert(c1[i as int] == cs@[i as int]);
                }
            }
        }
        i += 1;
    }
    assert(cs@.take(i as int) =~= cs@);
    r
}

/// The tombstones that the chunks with ids `ids` carry and that are not
/// among `before`, each once.
fn collect_delta(cs: &Vec<Chunk>, ids: &Vec<u64>, before: &Vec<u64>) -> (r: Vec<DeletePredicate>)
    ensures
        delta_of(cs@, ids@, before@, r@),
{
    let d = collect_delta_unordered(cs, ids, before);
    let r = sort_by_id(d);
    proof {
        assert forall|i: int, j: int| 0 <= i < r@.len() && 0 <= j < r@.len() && i != j implies pred_ids(r@)[i] != pred_ids(r@)[j] by {
            if i < j {
                assert(r@[i].id < r@[j].id);
            } else {
                assert(r@[j].id < r@[i].id);
            }
        }
    }
    r
}

fn collect_delta_unordered(cs: &Vec<Chunk>, ids: &Vec<u64>, before: &Vec<u64>) -> (d: Vec<DeletePredicate>)
    ensures
        forall|t: u64| #[trigger] pred_ids(d@).contains(t) <==> carried(cs@, ids@, t) && !before@.contains(t),
        pred_ids(d@).no_duplicates(),
{
    let all = carried_ids(cs, ids);
    let mut d: Vec<DeletePredicate> = Vec::new();
    let mut i: usize = 0;
    while i < cs.len()
        invariant
            i <= cs.len(),
            forall|t: u64| #[trigger] all@.contains(t) <==> carried(cs@, ids@, t),
            pred_ids(d@).no_duplicates(),
            forall|t: u64| #[trigger] pred_ids(d@).contains(t) ==> carried(cs@, ids@, t) && !before@.contains(t),
            forall|t: u64| carried(cs@.take(i as int), ids@, t) && !before@.contains(t) ==> #[trigger] pred_ids(d@).contains(t),
        decreases cs.len() - i,
    {
        let takes = contains_u64(ids, cs[i].id);
        let mut j: usize = 0;
        while j < cs[i].tombstones.len()
            invariant
                i < cs.len(),
                j <= cs@[i as int].tombstones.len(),
                takes == ids@.contains(cs@[i as int].id),
                pred_ids(d@).no_duplicates(),
                forall|t: u64| #[trigger] pred_ids(d@).contains(t) ==> carried(cs@, ids@, t) && !before@.contains(t),
                forall|t: u64| carried(cs@.take(i as int), ids@, t) && !before@.contains(t) ==> #[trigger] pred_ids(d@).contains(t),
                forall|t: u64| takes && pred_ids(cs@[i as int].tombstones@.take(j as int)).contains(t) && !before@.contains(t) ==> #[trigger] pred_ids(d@).contains(t),
            decreases cs@[i as int].tombstones.len() - j,
        {
            let ghost tk = cs@[i as int].tombstones@;
            let ghost tid = tk[j as int].id;
            assert(pred_ids(tk.take(j + 1)) =~= pred_ids(tk.take(j as int)).push(tid));
            proof {
                lemma_push_contains(pred_ids(tk.take(j as int)), tid);
                if takes {
                    assert(pred_ids(tk)[j as int] == tid);
                    assert(pred_ids(cs@[i as int].tombstones@).contains(tid));
                    assert(carried(cs@, ids@, tid));
                }
            }
            if takes && !contains_u64(before, cs[i].tombstones[j].id) && !crate::tombstone::contains_id(&d, cs[i].tombstones[j].id) {
                let ghost d0 = pred_ids(d@);
                d.push(cs[i].tombstones[j].copy());
                proof {
                    assert(pred_ids(d@) =~= d0.push(tid));
                    lemma_push_contains(d0, tid);
                }
            }
            j += 1;
        }
        proof {
            let tk = cs@[i as int].tombstones@;
            assert(tk.take(j as int) =~= tk);
            let c1 = cs@.take(i + 1);
            let c0 = cs@.take(i as int);
            assert forall|t: u64| carried(c1, ids@, t) && !before@.contains(t) implies #[trigger] pred_ids(d@).contains(t) by {
                let q = choose|q: int| 0 <= q < c1.len() && ids@.contains(c1[q].id) && #[trigger] pred_ids(c1[q].tombstones@).contains(t);
                if q < i {
                    assert(c0[q] == c1[q]);
                    assert(carried(c0, ids@, t));
                } else {
                    assert(c1[q] == cs@[i as int]);
                }
            }
        }
        i += 1;
    }
    assert(cs@.take(i as int) =~= cs@);
    d
}

/// What the snapshots of a persist add up to.
struct Gathered {
    snapshots: Vec<ChunkSnapshot>,
    max_order: u64,
    first: i64,
    last: i64,
    min_seq: u64,
    max_seq: u64,
    input_rows: u64,
}

impl Partition {
    /// Ok when every chunk of `ids` exists and no lifecycle action holds it.
    fn check_free(&self, ids: &Vec<u64>) -> (r: Result<(), LifecycleError>)
        requires
            self.wf(),
        ensures
            r is Ok <==> (forall|k: int| 0 <= k < ids@.len() ==> #[trigger] free_id(self.chunks_view(), ids@[k])),
            r matches Err(LifecycleError::ChunkNotFound { chunk_id }) ==> ids@.contains(chunk_id) && !has_id(self.chunks_view(), chunk_id),
            r matches Err(LifecycleError::ChunkInTransition { chunk_id }) ==> ids@.contains(chunk_id) && has_id(self.chunks_view(), chunk_id) && !free_id(self.chunks_view(), chunk_id),
            r is Err ==> (r matches Err(LifecycleError::ChunkNotFound { .. }) || r matches Err(LifecycleError::ChunkInTransition { .. })),
    {
        let mut k: usize = 0;
        while k < ids.len()
            invariant
                k <= ids.len(),
                self.wf(),
                forall|q: int| 0 <= q < k ==> #[trigger] free_id(self.chunks@, ids@[q]),
            decreases ids.len() - k,
        {
            match self.find_chunk(ids[k]) {
                None => {
                    proof {
                        let id = ids@[k as int];
                        if free_id(self.chunks@, id) {
                            let j = choose|j: int| 0 <= j < self.chunks@.len() && self.chunks@[j].id == id && !self.chunks@[j].in_transition;
                            assert(has_id(self.chunks@, id));
                        }
                        assert(!free_id(self.chunks@, ids@[k as int]));
                    }
                    return Err(LifecycleError::ChunkNotFound { chunk_id: ids[k] });
                },
                Some(i) => {
                    if self.chunks[i].in_transition {
                        proof {
                            let id = ids@[k as int];
                            if free_id(self.chunks@, id) {
                                let j = choose|j: int| 0 <= j < self.chunks@.len() && self.chunks@[j].id == id && !self.chunks@[j].in_transition;
                                assert(j == i as int);
                            }
                            assert(!free_id(self.chunks@, ids@[k as int]));
                            assert(has_id(self.chunks@, id));
                        }
                        return Err(LifecycleError::ChunkInTransition { chunk_id: ids[k] });
                    }
                    assert(free_id(self.chunks@, ids@[k as int]));
                },
            }
            k += 1;
        }
        Ok(())
    }

    /// Snapshots of the chunks of `ids`, in that order, and their totals.
    fn gather(&self, ids: &Vec<u64>) -> (g: Gathered)
        requires
            self.wf(),
            forall|k: int| 0 <= k < ids@.len() ==> #[trigger] has_id(self.chunks_view(), ids@[k]),
        ensures
            g.snapshots@.len() == ids@.len(),
            forall|q: int| 0 <= q < ids@.len() ==> #[trigger] snapshot_of_id(self.chunks_view(), ids@[q], g.snapshots@[q]),
            forall|i: int| 0 <= i < self.chunks_view().len() && ids@.contains(#[trigger] self.chunks_view()[i].id) ==> self.chunks_view()[i].order <= g.max_order,
            ids@.len() > 0 ==> exists|i: int| 0 <= i < self.chunks_view().len() && ids@.contains(self.chunks_view()[i].id) && self.chunks_view()[i].order == g.max_order,
    {
        let mut g = Gathered {
            snapshots: Vec::new(),
            max_order: 0,
            first: i64::MAX,
            last: i64::MIN,
            min_seq: u64::MAX,
            max_seq: 0,
            input_rows: 0,
        };
        let mut k: usize = 0;
        while k < ids.len()
            invariant
                k <= ids.len(),
                g.snapshots@.len() == k,
                forall|q: int| 0 <= q < ids@.len() ==> #[trigger] has_id(self.chunks@, ids@[q]),
                forall|q: int| 0 <= q < k ==> #[trigger] snapshot_of_id(self.chunks@, ids@[q], g.snapshots@[q]),
                self.wf(),
                forall|q: int, i: int| 0 <= q < k && 0 <= i < self.chunks@.len() && #[trigger] self.chunks@[i].id == #[trigger] ids@[q] ==> self.chunks@[i].order <= g.max_order,
                k > 0 ==> exists|q: int, i: int| 0 <= q < k && 0 <= i < self.chunks@.len() && self.chunks@[i].id == ids@[q] && self.chunks@[i].order == g.max_order,
            decreases ids.len() - k,
        {
            let ghost kk = k as int;
            assert(has_id(self.chunks@, ids@[kk]));
            let i = match self.find_chunk(ids[k]) {
                Some(i) => i,
                None => {
                    return g;
                },
            };
            let c = &self.chunks[i];
            let snap = c.snapshot();
            assert(snapshot_of_id(self.chunks@, ids@[kk], snap));
            g.snapshots.push(snap);
            let ghost m0 = g.max_order;
            if c.order > g.max_order || k == 0 {
                g.max_order = c.order;
            }
            if c.time_of_first_write < g.first {
                g.first = c.time_of_first_write;
            }
            if c.time_of_last_write > g.last {
                g.last = c.time_of_last_write;
            }
            if c.min_seq < g.min_seq {
                g.min_seq = c.min_seq;
            }
            if c.max_seq > g.max_seq {
                g.max_seq = c.max_seq;
            }
            g.input_rows = g.input_rows.saturating_add(c.rows.len() as u64);
            k += 1;
        }
        proof {
            if ids@.len() > 0 {
                let (q, i) = choose|q: int, i: int| 0 <= q < k && 0 <= i < self.chunks@.len() && self.chunks@[i].id == ids@[q] && self.chunks@[i].order == g.max_order;
                assert(ids@.contains(self.chunks@[i].id));
            }
            assert forall|j: int| 0 <= j < self.chunks@.len() && ids@.contains(#[trigger] self.chunks@[j].id) implies self.chunks@[j].order <= g.max_order by {
                let x = choose|x: int| 0 <= x < ids@.len() && ids@[x] == self.chunks@[j].id;
                assert(self.chunks@[j].id == ids@[x]);
            }
        }
        g
    }

    /// Marks the chunks of `ids` as held by a lifecycle action.
    fn mark_held(&mut self, ids: &Vec<u64>)
        requires
            old(self).wf(),
        ensures
            final(self).wf(),
            final(self).windows_view() == old(self).windows_view(),
            final(self).spec_next_id() == old(self).spec_next_id(),
            final(self).spec_next_order() == old(self).spec_next_order(),
            final(self).chunks_view().len() == old(self).chunks_view().len(),
            forall|i: int| 0 <= i < old(self).chunks_view().len() ==> #[trigger] final(self).chunks_view()[i] == (Chunk { in_transition: old(self).chunks_view()[i].in_transition || ids@.contains(old(self).chunks_view()[i].id), ..old(self).chunks_view()[i] }),
    {
        let ghost before = self.chunks@;
        let mut i: usize = 0;
        while i < self.chunks.len()
            invariant
                i <= self.chunks.len(),
                self.chunks@.len() == before.len(),
                self.next_id == old(self).spec_next_id(),
                self.next_order == old(self).spec_next_order(),
                self.windows == old(self).windows_view(),
                before == old(self).chunks_view(),
                forall|q: int| 0 <= q < i ==> #[trigger] self.chunks@[q] == (Chunk { in_transition: before[q].in_transition || ids@.contains(before[q].id), ..before[q] }),
                forall|q: int| i <= q < before.len() ==> #[trigger] self.chunks@[q] == before[q],
            decreases self.chunks.len() - i,
        {
            if contains_u64(ids, self.chunks[i].id) {
                self.chunks[i].in_transition = true;
            }
            i += 1;
        }
        proof {
            assert forall|a: int| 0 <= a < self.chunks@.len() implies (#[trigger] self.chunks@[a]).id < self.next_id by {
                assert(self.chunks@[a].id == before[a].id);
            }
            assert forall|a: int, b: int| 0 <= a < self.chunks@.len() && 0 <= b < self.chunks@.len() && a != b implies self.chunks@[a].id != self.chunks@[b].id by {
                assert(self.chunks@[a].id == before[a].id);
                assert(self.chunks@[b].id == before[b].id);
            }
        }
    }

    /// First phase of a persist: checks that every chunk of `ids` exists and
    /// that no lifecycle action holds it, then marks them all held and takes
    /// their snapshots. Nothing changes on an error.
    #[verifier::rlimit(40)]
    pub fn persist_chunks(&mut self, ids: Vec<u64>, handle: FlushHandle) -> (r: Result<PersistJob, LifecycleError>)
        requires
            old(self).wf(),
        ensures
            final(self).wf(),
            final(self).windows_view() == old(self).windows_view(),
            final(self).spec_next_id() == old(self).spec_next_id(),
            final(self).spec_next_order() == old(self).spec_next_order(),
            r is Ok <==> (forall|k: int| 0 <= k < ids@.len() ==> #[trigger] free_id(old(self).chunks_view(), ids@[k])),
            r is Err ==> final(self).chunks_view() == old(self).chunks_view(),
            r matches Err(LifecycleError::ChunkNotFound { chunk_id }) ==> ids@.contains(chunk_id) && !has_id(old(self).chunks_view(), chunk_id),
            r matches Err(LifecycleError::ChunkInTransition { chunk_id }) ==> ids@.contains(chunk_id) && has_id(old(self).chunks_view(), chunk_id) && !free_id(old(self).chunks_view(), chunk_id),
            r matches Ok(job) ==> {
                let before = old(self).chunks_view();
                let after = final(self).chunks_view();
                &&& job.chunk_ids@ == ids@
                &&& job.handle == handle
                &&& job.snapshots@.len() == ids@.len()
                &&& forall|k: int| 0 <= k < ids@.len() ==> #[trigger] snapshot_of_id(before, ids@[k], job.snapshots@[k])
                &&& forall|t: u64| #[trigger] job.before@.contains(t) <==> carried(before, ids@, t)
                &&& forall|i: int| 0 <= i < before.len() && ids@.contains(#[trigger] before[i].id) ==> before[i].order <= job.max_order
                &&& ids@.len() > 0 ==> exists|i: int| 0 <= i < before.len() && ids@.contains(before[i].id) && before[i].order == job.max_order
                &&& after.len() == before.len()
                &&& forall|i: int| 0 <= i < before.len() ==> #[trigger] after[i] == (Chunk { in_transition: before[i].in_transition || ids@.contains(before[i].id), ..before[i] })
            },
    {
        match self.check_free(&ids) {
            Ok(()) => {},
            Err(e) => return Err(e),
        }
        proof {
            assert forall|k: int| 0 <= k < ids@.len() implies #[trigger] has_id(self.chunks@, ids@[k]) by {
                assert(free_id(self.chunks@, ids@[k]));
                let j = choose|j: int| 0 <= j < self.chunks@.len() && self.chunks@[j].id == ids@[k] && !self.chunks@[j].in_transition;
            }
        }
        let g = self.gather(&ids);
        let before_ids = carried_ids(&self.chunks, &ids);
        self.mark_held(&ids);
        Ok(PersistJob {
            chunk_ids: ids,
            snapshots: g.snapshots,
            before: before_ids,
            max_order: g.max_order,
            time_of_first_write: g.first,
            time_of_last_write: g.last,
            min_seq: g.min_seq,
            max_seq: g.max_seq,
            input_rows: g.input_rows,
            handle,
        })
    }
}

/// A chunk with id `id` exists and a lifecycle action holds it.
pub open spec fn held_id(cs: Seq<Chunk>, id: u64) -> bool {
    exists|i: int| 0 <= i < cs.len() && cs[i].id == id && cs[i].in_transition
}

/// A chunk that a commit creates: what it holds, and that it carries the
/// tombstones added to the persisted chunks after their snapshot.
pub open spec fn created_chunk(
    c: Chunk,
    before: Seq<Chunk>,
    job: PersistJob,
    stage: ChunkStage,
    rows: Seq<crate::row::RowV>,
) -> bool {
    &&& c.stage == stage
    &&& c.order == job.max_order
    &&& !c.in_transition
    &&& rows_view(c.rows@) == rows
    &&& delta_of(before, job.chunk_ids@, job.before@, c.tombstones@)
}

impl PersistJob {
    /// The work between the two phases: the split compaction of the
    /// snapshots at the handle's timestamp. `None` when there is nothing to
    /// compact.
    pub fn execute(&self) -> (r: Result<Option<SplitCompacted>, CompactError>)
        ensures
            self.snapshots@.len() == 0 ==> r matches Ok(None),
            self.snapshots@.len() > 0 ==> !(r matches Ok(None)),
            self.snapshots@.len() > 0 ==> (r is Ok <==> !crate::compaction::schema_conflict(
                crate::compaction::all_columns(self.snapshots@),
            )),
            r matches Ok(Some(c)) ==> self.snapshots@.len() > 0 && layout_of(self.snapshots@, c.schema@, c.sort_key@)
                && compaction_of(
                self.snapshots@,
                names_view(c.sort_key@),
                TimeBound::AtMost(self.handle.spec_timestamp()),
                rows_view(c.persist@),
            ) && compaction_of(
                self.snapshots@,
                names_view(c.sort_key@),
                TimeBound::After(self.handle.spec_timestamp()),
                rows_view(c.remainder@),
            ),
    {
        if self.snapshots.len() == 0 {
            return Ok(None);
        }
        match compact_split(&self.snapshots, self.handle.timestamp()) {
            Ok(c) => Ok(Some(c)),
            Err(e) => Err(e),
        }
    }
}

impl Partition {
    /// Drops the chunks whose ids are in `ids`, keeping the order of the
    /// others.
    fn remove_chunks(&mut self, ids: &Vec<u64>)
        requires
            old(self).wf(),
        ensures
            final(self).wf(),
            retains(old(self).chunks_view(), ids@, final(self).chunks_view()),
            final(self).windows_view() == old(self).windows_view(),
            final(self).spec_next_id() == old(self).spec_next_id(),
            final(self).spec_next_order() == old(self).spec_next_order(),
            final(self).spec_table_name() == old(self).spec_table_name(),
            final(self).spec_partition_key() == old(self).spec_partition_key(),
    {
        let ghost before = self.chunks@;
        let mut rest: Vec<Chunk> = Vec::new();
        core::mem::swap(&mut rest, &mut self.chunks);
        let ghost mut m: Seq<int> = Seq::empty();
        let ghost mut j: int = 0;
        assert(before.subrange(0, before.len() as int) =~= before);
        while rest.len() > 0
            invariant
                0 <= j <= before.len(),
                rest@ == before.subrange(j, before.len() as int),
                embeds(before.take(j), ids@, self.chunks@, m),
                forall|a: int| 0 <= a < m.len() ==> #[trigger] m[a] < j,
                self.next_id == old(self).spec_next_id(),
                self.next_order == old(self).spec_next_order(),
                self.windows == old(self).windows_view(),
                self.table_name == old(self).spec_table_name(),
                self.partition_key == old(self).spec_partition_key(),
                before == old(self).chunks_view(),
            decreases rest.len(),
        {
            let ghost kept0 = self.chunks@;
            let ghost m0 = m;
            let c = rest.remove(0);
            assert(c == before[j]);
            let drop = contains_u64(ids, c.id);
            if !drop {
                self.chunks.push(c);
                proof {
                    m = m.push(j);
                }
            }
            proof {
                let t1 = before.take(j + 1);
                assert forall|a: int| 0 <= a < self.chunks@.len() implies 0 <= #[trigger] m[a] < t1.len() && self.chunks@[a] == t1[m[a]] && !ids@.contains(self.chunks@[a].id) by {
                    if a < kept0.len() {
                        assert(self.chunks@[a] == kept0[a]);
                        assert(m[a] == m0[a]);
                        assert(before.take(j)[m0[a]] == before[m0[a]]);
                    }
                }
                assert forall|i: int| 0 <= i < t1.len() && !ids@.contains(#[trigger] t1[i].id) implies exists|a: int| 0 <= a < m.len() && m[a] == i by {
                    if i < j {
                        assert(before.take(j)[i] == t1[i]);
                        let a = choose|a: int| 0 <= a < m0.len() && m0[a] == i;
                        assert(m[a] == i);
                    } else {
                        assert(m[m.len() - 1] == i);
                    }
                }
                j = j + 1;
                assert(rest@ =~= before.subrange(j, before.len() as int));
            }
        }
        proof {
            assert(before.take(j) =~= before);
            assert(retains(before, ids@, self.chunks@));
            assert forall|a: int| 0 <= a < self.chunks@.len() implies (#[trigger] self.chunks@[a]).id < self.next_id by {
                assert(self.chunks@[a] == before[m[a]]);
            }
            assert forall|a: int, b: int| 0 <= a < self.chunks@.len() && 0 <= b < self.chunks@.len() && a != b implies self.chunks@[a].id != self.chunks@[b].id by {
                assert(self.chunks@[a] == before[m[a]]);
                assert(self.chunks@[b] == before[m[b]]);
                if a < b {
                    assert(m[a] < m[b]);
                } else {
                    assert(m[b] < m[a]);
                }
            }
        }
    }

    /// Ok when every chunk of `ids` exists and is held.
    fn check_held(&self, ids: &Vec<u64>) -> (r: Result<(), LifecycleError>)
        ensures
            r is Ok <==> (forall|k: int| 0 <= k < ids@.len() ==> #[trigger] held_id(self.chunks_view(), ids@[k])),
            r matches Err(LifecycleError::ChunkVanished { chunk_id }) ==> ids@.contains(chunk_id) && !held_id(self.chunks_view(), chunk_id),
            r is Err ==> r matches Err(LifecycleError::ChunkVanished { .. }),
    {
        let mut k: usize = 0;
        while k < ids.len()
            invariant
                k <= ids.len(),
                forall|q: int| 0 <= q < k ==> #[trigger] held_id(self.chunks@, ids@[q]),
            decreases ids.len() - k,
        {
            let mut i: usize = 0;
            let mut found = false;
            while i < self.chunks.len()
                invariant
                    i <= self.chunks.len(),
                    k < ids.len(),
                    !found ==> forall|q: int| 0 <= q < i ==> !(self.chunks@[q].id == ids@[k as int] && self.chunks@[q].in_transition),
                    found ==> held_id(self.chunks@, ids@[k as int]),
                decreases self.chunks.len() - i,
            {
                if self.chunks[i].id == ids[k] && self.chunks[i].in_transition {
                    found = true;
                }
                i += 1;
            }
            if !found {
                proof {
                    let id = ids@[k as int];
                    if held_id(self.chunks@, id) {
                        let q = choose|q: int| 0 <= q < self.chunks@.len() && self.chunks@[q].id == id && self.chunks@[q].in_transition;
                    }
                    assert(!held_id(self.chunks@, ids@[k as int]));
                    assert(!held_id(self.chunks_view(), ids@[k as int]));
                }
                return Err(LifecycleError::ChunkVanished { chunk_id: ids[k] });
            }
            k += 1;
        }
        Ok(())
    }

    /// Second phase of a persist: removes the persisted chunks, adds a
    /// compacted chunk with the remainder rows and a persisted chunk with the
    /// persist rows (each only when it has rows), both carrying the
    /// tombstones that were added to the removed chunks after the snapshot,
    /// then advances the watermark with the job's handle. Returns the id of
    /// the persisted chunk, or `None` when there was nothing to persist.
    /// On an error the job's chunks are released and nothing else changes.
    #[verifier::rlimit(40)]
    pub fn commit_persist(&mut self, job: PersistJob, output: Option<SplitCompacted>) -> (r: Result<Option<u64>, LifecycleError>)
        requires
            old(self).wf(),
        ensures
            final(self).wf(),
            r is Err ==> final(self).windows_view() == old(self).windows_view()
                && final(self).chunks_view().len() == old(self).chunks_view().len()
                && forall|i: int| 0 <= i < old(self).chunks_view().len() ==> #[trigger] final(self).chunks_view()[i] == (Chunk { in_transition: old(self).chunks_view()[i].in_transition && !job.chunk_ids@.contains(old(self).chunks_view()[i].id), ..old(self).chunks_view()[i] }),
            r matches Err(LifecycleError::ChunkVanished { chunk_id }) ==> job.chunk_ids@.contains(chunk_id) && !held_id(old(self).chunks_view(), chunk_id),
            r matches Err(LifecycleError::IdsExhausted) ==> old(self).spec_next_id() > u64::MAX - 2,
            r is Ok <==> (forall|k: int| 0 <= k < job.chunk_ids@.len() ==> #[trigger] held_id(old(self).chunks_view(), job.chunk_ids@[k])) && old(self).spec_next_id() <= u64::MAX - 2,
            r is Err ==> (r matches Err(LifecycleError::ChunkVanished { .. }) || r matches Err(LifecycleError::IdsExhausted)),
            r matches Ok(p) ==> {
                let before = old(self).chunks_view();
                let after = final(self).chunks_view();
                let rem = output matches Some(o) && o.remainder@.len() > 0;
                let per = output matches Some(o) && o.persist@.len() > 0;
                let nk = after.len() - (if rem { 1int } else { 0 }) - (if per { 1int } else { 0 });
                &&& 0 <= nk
                &&& retains(before, job.chunk_ids@, after.take(nk))
                &&& rem ==> created_chunk(after[nk], before, job, ChunkStage::Compacted, rows_view(output->0.remainder@))
                &&& per ==> created_chunk(after[after.len() - 1], before, job, ChunkStage::Persisted, rows_view(output->0.persist@))
                &&& rem ==> after[nk].schema@ == output->0.schema@ && after[nk].sort_key@ == output->0.sort_key@
                &&& per ==> after[after.len() - 1].schema@ == output->0.schema@ && after[after.len() - 1].sort_key@ == output->0.sort_key@
                &&& per ==> p == Some(after[after.len() - 1].id)
                &&& per ==> after[after.len() - 1].id >= old(self).spec_next_id()
                &&& !per ==> p is None
                &&& if job.handle.generation() == old(self).windows_view().spec_generation() && job.handle.sealed_count() <= old(self).windows_view().closed_windows().len() {
                    flushed(old(self).windows_view(), final(self).windows_view(), job.handle)
                } else {
                    final(self).windows_view().closed_windows() == old(self).windows_view().closed_windows()
                        && final(self).windows_view().open_window() == old(self).windows_view().open_window()
                }
            },
    {
        match self.check_held(&job.chunk_ids) {
            Ok(()) => {},
            Err(e) => {
                proof {
                    if let LifecycleError::ChunkVanished { chunk_id } = e {
                        let k = choose|k: int| 0 <= k < job.chunk_ids@.len() && job.chunk_ids@[k] == chunk_id;
                    }
                }
                self.release(&job.chunk_ids);
                return Err(e);
            },
        }
        if self.next_id > u64::MAX - 2 {
            self.release(&job.chunk_ids);
            return Err(LifecycleError::IdsExhausted);
        }
        let ghost before = self.chunks@;
        let ghost w0 = self.windows;
        let ghost job0 = job;
        let delta = collect_delta(&self.chunks, &job.chunk_ids, &job.before);
        self.remove_chunks(&job.chunk_ids);
        let ghost nk = self.chunks@.len();
        let ghost kept = self.chunks@;
        let PersistJob { chunk_ids, snapshots, before: before_ids, max_order, time_of_first_write, time_of_last_write, min_seq, max_seq, input_rows, handle } = job;
        let mut persisted: Option<u64> = None;
        match output {
            Some(out) => {
                let SplitCompacted { schema, sort_key, persist, remainder } = out;
                if remainder.len() > 0 {
                    let id = self.next_id;
                    self.next_id = self.next_id + 1;
                    let c = Chunk {
                        id,
                        order: max_order,
                        stage: ChunkStage::Compacted,
                        in_transition: false,
                        schema: copy_columns(&schema),
                        sort_key: copy_strings(&sort_key),
                        rows: remainder,
                        tombstones: copy_preds(&delta),
                        time_of_first_write,
                        time_of_last_write,
                        min_seq,
                        max_seq,
                    };
                    assert(created_chunk(c, before, job0, ChunkStage::Compacted, rows_view(c.rows@)));
                    self.chunks.push(c);
                }
                if persist.len() > 0 {
                    let id = self.next_id;
                    self.next_id = self.next_id + 1;
                    let c = Chunk {
                        id,
                        order: max_order,
                        stage: ChunkStage::Persisted,
                        in_transition: false,
                        schema,
                        sort_key,
                        rows: persist,
                        tombstones: copy_preds(&delta),
                        time_of_first_write,
                        time_of_last_write,
                        min_seq,
                        max_seq,
                    };
                    assert(created_chunk(c, before, job0, ChunkStage::Persisted, rows_view(c.rows@)));
                    self.chunks.push(c);
                    persisted = Some(id);
                }
            },
            None => {},
        }
        self.windows.flush(handle);
        proof {
            assert(self.chunks@.take(nk as int) =~= kept);
            assert forall|a: int| 0 <= a < self.chunks@.len() implies (#[trigger] self.chunks@[a]).id < self.next_id by {
                if a < nk {
                    assert(self.chunks@[a] == kept[a]);
                }
            }
            assert forall|a: int, b: int| 0 <= a < self.chunks@.len() && 0 <= b < self.chunks@.len() && a != b implies self.chunks@[a].id != self.chunks@[b].id by {
                if a < nk {
                    assert(self.chunks@[a] == kept[a]);
                }
                if b < nk {
                    assert(self.chunks@[b] == kept[b]);
                }
            }
        }
        Ok(persisted)
    }
}

/// `snaps` are snapshots of the chunks with ids `ids`, in that order.
pub open spec fn snapshots_of(before: Seq<Chunk>, ids: Seq<u64>, snaps: Seq<ChunkSnapshot>) -> bool {
    snaps.len() == ids.len() && forall|k: int| 0 <= k < ids.len() ==> #[trigger] snapshot_of_id(before, ids[k], snaps[k])
}

/// The chunks with ids `ids` declare a column with two types.
pub open spec fn conflict_among(before: Seq<Chunk>, ids: Seq<u64>) -> bool {
    exists|snaps: Seq<ChunkSnapshot>| #[trigger] snapshots_of(before, ids, snaps) && crate::compaction::schema_conflict(crate::compaction::all_columns(snaps))
}

/// The ids of the chunks that neither a lifecycle action holds nor are
/// persisted already, in chunk order.
pub open spec fn selected_ids(cs: Seq<Chunk>) -> Seq<u64>
    decreases cs.len(),
{
    if cs.len() == 0 {
        Seq::empty()
    } else if !cs.last().in_transition && cs.last().stage != ChunkStage::Persisted {
        selected_ids(cs.drop_last()).push(cs.last().id)
    } else {
        selected_ids(cs.drop_last())
    }
}

/// `t` is the timestamp of a flush handle made from windows `ws` at `now`:
/// the largest end of the windows it persists (all when `force`, else the
/// closed ones at the front).
pub open spec fn watermark_for(ws: Seq<Window>, now: i64, force: bool, late: i64, t: i64) -> bool {
    exists|pc: int|
        0 < pc <= ws.len() && (force ==> pc == ws.len()) && (!force ==> (forall|i: int|
            0 <= i < pc ==> aged(#[trigger] ws[i], now, late)) && (pc < ws.len() ==> !aged(
            ws[pc],
            now,
            late,
        ))) && #[trigger] max_end(ws.take(pc)) == Some(t)
}

/// `after` is `before` once the chunks of `ids` were persisted at `t`: they
/// are gone, and a compacted chunk holds the rows after `t` and a persisted
/// chunk (id `p`) the rows up to `t`, each only when it has rows.
pub open spec fn persist_outcome(
    before: Seq<Chunk>,
    ids: Seq<u64>,
    t: i64,
    after: Seq<Chunk>,
    p: Option<u64>,
) -> bool {
    exists|snaps: Seq<ChunkSnapshot>, sch: Seq<Column>, sk: Seq<String>, pers: Seq<crate::row::RowV>, rem: Seq<crate::row::RowV>|
        #![trigger compaction_of(snaps, names_view(sk), TimeBound::AtMost(t), pers), compaction_of(snaps, names_view(sk), TimeBound::After(t), rem), layout_of(snaps, sch, sk)]
        snapshots_of(before, ids, snaps) && layout_of(snaps, sch, sk)
            && compaction_of(snaps, names_view(sk), TimeBound::AtMost(t), pers)
            && compaction_of(snaps, names_view(sk), TimeBound::After(t), rem)
            && outcome_chunks(before, ids, after, p, pers, rem)
}

pub open spec fn outcome_chunks(
    before: Seq<Chunk>,
    ids: Seq<u64>,
    after: Seq<Chunk>,
    p: Option<u64>,
    pers: Seq<crate::row::RowV>,
    rem: Seq<crate::row::RowV>,
) -> bool {
    let nk = after.len() - (if rem.len() > 0 { 1int } else { 0 }) - (if pers.len() > 0 { 1int } else { 0 });
    &&& 0 <= nk
    &&& retains(before, ids, after.take(nk))
    &&& rem.len() > 0 ==> after[nk].stage == ChunkStage::Compacted && rows_view(after[nk].rows@) == rem
    &&& pers.len() > 0 ==> after[after.len() - 1].stage == ChunkStage::Persisted && rows_view(after[after.len() - 1].rows@) == pers && p == Some(after[after.len() - 1].id)
    &&& pers.len() == 0 ==> p is None
}

proof fn lemma_retains_marked(c0: Seq<Chunk>, c1: Seq<Chunk>, ids: Seq<u64>, kept: Seq<Chunk>)
    requires
        c1.len() == c0.len(),
        forall|i: int| 0 <= i < c0.len() ==> #[trigger] c1[i] == (Chunk { in_transition: c0[i].in_transition || ids.contains(c0[i].id), ..c0[i] }),
        retains(c1, ids, kept),
    ensures
        retains(c0, ids, kept),
{
    let m = choose|m: Seq<int>| embeds(c1, ids, kept, m);
    assert forall|a: int| 0 <= a < kept.len() implies 0 <= #[trigger] m[a] < c0.len() && kept[a] == c0[m[a]] && !ids.contains(kept[a].id) by {
        assert(c1[m[a]] == (Chunk { in_transition: c0[m[a]].in_transition || ids.contains(c0[m[a]].id), ..c0[m[a]] }));
    }
    assert forall|i: int| 0 <= i < c0.len() && !ids.contains(#[trigger] c0[i].id) implies exists|a: int| 0 <= a < m.len() && m[a] == i by {
        assert(c1[i].id == c0[i].id);
        assert(!ids.contains(c1[i].id));
    }
    assert(embeds(c0, ids, kept, m));
}

/// Compacting the chunks with ids `ids` of `before` yields `rows`.
pub open spec fn compacts_to(before: Seq<Chunk>, ids: Seq<u64>, rows: Seq<crate::row::RowV>) -> bool {
    exists|snaps: Seq<ChunkSnapshot>, schema: Seq<Column>, sk: Seq<String>|
        #![trigger compaction_of(snaps, names_view(sk), TimeBound::All, rows), layout_of(snaps, schema, sk)]
        compaction_of(snaps, names_view(sk), TimeBound::All, rows)
            && snaps.len() == ids.len() && (forall|k: int| 0 <= k < ids.len() ==> #[trigger] snapshot_of_id(before, ids[k], snaps[k]))
            && layout_of(snaps, schema, sk)
}

/// Of the tombstones on the chunks that a persist commit creates: one that
/// a persisted chunk carries at the commit and did not carry at the snapshot
/// is there; one that a persisted chunk carried at the snapshot is not.
pub proof fn lemma_tombstone_retention(
    at_snapshot: Seq<Chunk>,
    at_commit: Seq<Chunk>,
    ids: Seq<u64>,
    before: Seq<u64>,
    created: Seq<DeletePredicate>,
    t: u64,
)
    requires
        forall|x: u64| #[trigger] before.contains(x) <==> carried(at_snapshot, ids, x),
        delta_of(at_commit, ids, before, created),
    ensures
        carried(at_commit, ids, t) && !carried(at_snapshot, ids, t) ==> pred_ids(created).contains(t),
        carried(at_snapshot, ids, t) ==> !pred_ids(created).contains(t),
{
    assert(before.contains(t) <==> carried(at_snapshot, ids, t));
    assert(pred_ids(created).contains(t) <==> carried(at_commit, ids, t) && !before.contains(t));
}

impl Partition {
    /// A flush handle for the closed windows (all when `force`), or `None`
    /// when nothing can be persisted yet.
    pub fn prepare_persist(&mut self, now: i64, force: bool) -> (r: Option<FlushHandle>)
        requires
            old(self).wf(),
        ensures
            final(self).wf(),
            final(self).chunks_view() == old(self).chunks_view(),
            final(self).spec_next_id() == old(self).spec_next_id(),
            final(self).spec_next_order() == old(self).spec_next_order(),
            handle_made(old(self).windows_view(), final(self).windows_view(), now, force, r),
    {
        self.windows.flush_handle(now, force)
    }

    /// Frees the chunks of `ids` from the lifecycle action that held them.
    fn release(&mut self, ids: &Vec<u64>)
        requires
            old(self).wf(),
        ensures
            final(self).wf(),
            final(self).windows_view() == old(self).windows_view(),
            final(self).spec_next_id() == old(self).spec_next_id(),
            final(self).chunks_view().len() == old(self).chunks_view().len(),
            forall|i: int| 0 <= i < old(self).chunks_view().len() ==> #[trigger] final(self).chunks_view()[i] == (Chunk { in_transition: old(self).chunks_view()[i].in_transition && !ids@.contains(old(self).chunks_view()[i].id), ..old(self).chunks_view()[i] }),
    {
        let ghost before = self.chunks@;
        let mut i: usize = 0;
        while i < self.chunks.len()
            invariant
                i <= self.chunks.len(),
                self.chunks@.len() == before.len(),
                self.next_id == old(self).spec_next_id(),
                self.windows == old(self).windows_view(),
                before == old(self).chunks_view(),
                forall|q: int| 0 <= q < i ==> #[trigger] self.chunks@[q] == (Chunk { in_transition: before[q].in_transition && !ids@.contains(before[q].id), ..before[q] }),
                forall|q: int| i <= q < before.len() ==> #[trigger] self.chunks@[q] == before[q],
            decreases self.chunks.len() - i,
        {
            if contains_u64(ids, self.chunks[i].id) {
                self.chunks[i].in_transition = false;
            }
            i += 1;
        }
        proof {
            assert forall|a: int| 0 <= a < self.chunks@.len() implies (#[trigger] self.chunks@[a]).id < self.next_id by {
                assert(self.chunks@[a].id == before[a].id);
            }
            assert forall|a: int, b: int| 0 <= a < self.chunks@.len() && 0 <= b < self.chunks@.len() && a != b implies self.chunks@[a].id != self.chunks@[b].id by {
                assert(self.chunks@[a].id == before[a].id);
                assert(self.chunks@[b].id == before[b].id);
            }
        }
    }

    /// Gives up a persist before its commit: the chunks are free again and
    /// the handle is dropped unused, so the watermark stays where it was.
    pub fn abort_persist(&mut self, job: PersistJob)
        requires
            old(self).wf(),
        ensures
            final(self).wf(),
            final(self).windows_view() == old(self).windows_view(),
            final(self).spec_next_id() == old(self).spec_next_id(),
            final(self).chunks_view().len() == old(self).chunks_view().len(),
            forall|i: int| 0 <= i < old(self).chunks_view().len() ==> #[trigger] final(self).chunks_view()[i] == (Chunk { in_transition: old(self).chunks_view()[i].in_transition && !job.chunk_ids@.contains(old(self).chunks_view()[i].id), ..old(self).chunks_view()[i] }),
    {
        self.release(&job.chunk_ids);
    }

    /// Compacts the chunks of `ids` into one compacted chunk: duplicates
    /// resolved, all their tombstones applied (so it carries none), order the
    /// highest of theirs. When no row is left, no chunk is created and the
    /// result is `None`. Nothing changes on an error.
    #[verifier::rlimit(40)]
    pub fn compact_chunks(&mut self, ids: Vec<u64>) -> (r: Result<Option<u64>, LifecycleError>)
        requires
            old(self).wf(),
            ids@.len() > 0,
        ensures
            final(self).wf(),
            final(self).windows_view() == old(self).windows_view(),
            r is Err ==> final(self).chunks_view() == old(self).chunks_view(),
            r matches Err(LifecycleError::ChunkNotFound { chunk_id }) ==> ids@.contains(chunk_id) && !has_id(old(self).chunks_view(), chunk_id),
            r matches Err(LifecycleError::ChunkInTransition { chunk_id }) ==> ids@.contains(chunk_id) && has_id(old(self).chunks_view(), chunk_id) && !free_id(old(self).chunks_view(), chunk_id),
            (forall|k: int| 0 <= k < ids@.len() ==> #[trigger] free_id(old(self).chunks_view(), ids@[k])) == !(r matches Err(LifecycleError::ChunkNotFound { .. }) || r matches Err(LifecycleError::ChunkInTransition { .. })),
            r matches Err(LifecycleError::SchemaConflict { .. }) ==> conflict_among(old(self).chunks_view(), ids@),
            r matches Err(LifecycleError::IdsExhausted) ==> old(self).spec_next_id() == u64::MAX,
            final(self).spec_next_order() == old(self).spec_next_order(),
            final(self).spec_next_id() <= old(self).spec_next_id() + 1,
            (forall|k: int| 0 <= k < ids@.len() ==> #[trigger] free_id(old(self).chunks_view(), ids@[k])) && !conflict_among(old(self).chunks_view(), ids@) && old(self).spec_next_id() < u64::MAX ==> r is Ok,
            r matches Ok(p) ==> {
                let before = old(self).chunks_view();
                let after = final(self).chunks_view();
                let nk = if p is Some { after.len() - 1 } else { after.len() as int };
                &&& 0 <= nk
                &&& retains(before, ids@, after.take(nk))
                &&& p is None ==> compacts_to(before, ids@, Seq::empty())
                &&& p matches Some(id) ==> {
                    let c = after[nk];
                    &&& c.id == id
                    &&& c.stage == ChunkStage::Compacted
                    &&& !c.in_transition
                    &&& c.tombstones@.len() == 0
                    &&& c.rows@.len() > 0
                    &&& compacts_to(before, ids@, rows_view(c.rows@))
                    &&& forall|i: int| 0 <= i < before.len() && ids@.contains(#[trigger] before[i].id) ==> before[i].order <= c.order
                    &&& exists|i: int| 0 <= i < before.len() && ids@.contains(before[i].id) && before[i].order == c.order
                    &&& c.id == old(self).spec_next_id()
                    &&& !crate::compaction::schema_conflict(c.schema@)
                }
            },
    {
        match self.check_free(&ids) {
            Ok(()) => {},
            Err(e) => return Err(e),
        }
        proof {
            assert forall|k: int| 0 <= k < ids@.len() implies #[trigger] has_id(self.chunks@, ids@[k]) by {
                assert(free_id(self.chunks@, ids@[k]));
                let j = choose|j: int| 0 <= j < self.chunks@.len() && self.chunks@[j].id == ids@[k] && !self.chunks@[j].in_transition;
            }
        }
        let ghost before = self.chunks@;
        let g = self.gather(&ids);
        assert(snapshots_of(before, ids@, g.snapshots@));
        let c = match compact(&g.snapshots) {
            Ok(c) => c,
            Err(e) => return Err(LifecycleError::from_compact(e)),
        };
        if self.next_id == u64::MAX {
            return Err(LifecycleError::IdsExhausted);
        }
        proof {
            crate::compaction::lemma_union_no_conflict(crate::compaction::all_columns(g.snapshots@), c.schema@);
            assert(compaction_of(g.snapshots@, names_view(c.sort_key@), TimeBound::All, rows_view(c.rows@)));
            assert(compacts_to(before, ids@, rows_view(c.rows@)));
        }
        self.remove_chunks(&ids);
        let ghost kept = self.chunks@;
        if c.rows.len() == 0 {
            proof {
                assert(self.chunks@.take(self.chunks@.len() as int) =~= kept);
                assert(rows_view(c.rows@) =~= Seq::<crate::row::RowV>::empty());
            }
            return Ok(None);
        }
        let id = self.next_id;
        self.next_id = self.next_id + 1;
        let Gathered { snapshots: _, max_order, first, last, min_seq, max_seq, input_rows: _ } = g;
        let crate::compaction::Compacted { schema, sort_key, rows } = c;
        let chunk = Chunk {
            id,
            order: max_order,
            stage: ChunkStage::Compacted,
            in_transition: false,
            schema,
            sort_key,
            rows,
            tombstones: Vec::new(),
            time_of_first_write: first,
            time_of_last_write: last,
            min_seq,
            max_seq,
        };
        self.chunks.push(chunk);
        proof {
            assert(self.chunks@.take(kept.len() as int) =~= kept);
            assert forall|a: int| 0 <= a < self.chunks@.len() implies (#[trigger] self.chunks@[a]).id < self.next_id by {
                if a < kept.len() {
                    assert(self.chunks@[a] == kept[a]);
                }
            }
            assert forall|a: int, b: int| 0 <= a < self.chunks@.len() && 0 <= b < self.chunks@.len() && a != b implies self.chunks@[a].id != self.chunks@[b].id by {
                if a < kept.len() {
                    assert(self.chunks@[a] == kept[a]);
                }
                if b < kept.len() {
                    assert(self.chunks@[b] == kept[b]);
                }
            }
        }
        Ok(Some(id))
    }

    /// Persists in one go what the windows allow: takes a flush handle, then
    /// persists every chunk that is neither held nor already persisted.
    /// Returns the new persisted chunk, or `None` when nothing was persisted.
    /// On a schema conflict the chunks are released and the watermark stays.
    #[verifier::rlimit(100)]
    pub fn persist_partition(&mut self, now: i64, force: bool) -> (r: Result<Option<u64>, LifecycleError>)
        requires
            old(self).wf(),
        ensures
            final(self).wf(),
            ({
                let ws = old(self).windows_view().windows();
                let late = old(self).windows_view().late();
                let before = old(self).chunks_view();
                let ids = selected_ids(before);
                if ws.len() == 0 || (!force && !crate::windows::aged(ws[0], now, late)) {
                    &&& r matches Ok(None)
                    &&& final(self).chunks_view() == before
                    &&& final(self).windows_view().windows() == ws
                } else {
                    &&& r is Err ==> (r matches Err(LifecycleError::SchemaConflict { .. }) && conflict_among(before, ids))
                        || (r matches Err(LifecycleError::IdsExhausted) && old(self).spec_next_id() > u64::MAX - 2)
                    &&& !conflict_among(before, ids) && old(self).spec_next_id() <= u64::MAX - 2 ==> r is Ok
                    &&& r matches Ok(p) ==> exists|t: i64| #[trigger] watermark_for(ws, now, force, late, t)
                        && final(self).windows_view().closed_windows() == truncated(ws, t)
                        && final(self).windows_view().open_window() is None
                        && persist_outcome(before, ids, t, final(self).chunks_view(), p)
                }
            }),
    {
        let ghost c0 = self.chunks@;
        let ghost w0 = self.windows;
        let handle = match self.prepare_persist(now, force) {
            Some(h) => h,
            None => return Ok(None),
        };
        let ghost h0 = handle;
        let ghost w1 = self.windows;
        let mut ids: Vec<u64> = Vec::new();
        let mut i: usize = 0;
        while i < self.chunks.len()
            invariant
                i <= self.chunks.len(),
                self.chunks@ == c0,
                ids@ == selected_ids(c0.take(i as int)),
                forall|k: int| 0 <= k < ids@.len() ==> #[trigger] free_id(self.chunks@, ids@[k]),
            decreases self.chunks.len() - i,
        {
            assert(c0.take(i + 1).drop_last() =~= c0.take(i as int));
            assert(c0.take(i + 1).last() == c0[i as int]);
            if !self.chunks[i].in_transition && self.chunks[i].stage != ChunkStage::Persisted {
                let ghost i0 = i as int;
                ids.push(self.chunks[i].id);
                assert(free_id(self.chunks@, self.chunks@[i0].id));
            }
            i += 1;
        }
        assert(c0.take(i as int) =~= c0);
        let ghost sel = ids@;
        let job = match self.persist_chunks(ids, handle) {
            Ok(job) => job,
            Err(e) => return Err(e),
        };
        let ghost c1 = self.chunks@;
        let ghost snaps = job.snapshots@;
        let ghost jb = job;
        proof {
            assert(snapshots_of(c0, sel, snaps));
            assert forall|k: int| 0 <= k < sel.len() implies #[trigger] held_id(c1, sel[k]) by {
                assert(free_id(c0, sel[k]));
                let j = choose|j: int| 0 <= j < c0.len() && c0[j].id == sel[k] && !c0[j].in_transition;
                assert(c1[j] == (Chunk { in_transition: c0[j].in_transition || sel.contains(c0[j].id), ..c0[j] }));
                assert(sel.contains(c0[j].id));
            }
        }
        match job.execute() {
            Ok(out) => {
                let ghost o = out;
                let r = self.commit_persist(job, out);
                proof {
                    if let Ok(p) = r {
                        let t = h0.spec_timestamp();
                        let ws = w0.windows();
                        let after = self.chunks_view();
                        let e0 = Seq::<crate::row::RowV>::empty();
                        let (sch, sk, pers, rem) = match o {
                            Some(oo) => (oo.schema@, oo.sort_key@, rows_view(oo.persist@), rows_view(oo.remainder@)),
                            None => (Seq::<Column>::empty(), Seq::<String>::empty(), e0, e0),
                        };
                        let nk = after.len() - (if rem.len() > 0 { 1int } else { 0 }) - (if pers.len() > 0 { 1int } else { 0 });
                        lemma_retains_marked(c0, c1, sel, after.take(nk));
                        if o is None {
                            assert(snaps.len() == 0);
                            assert(crate::compaction::entries_of(snaps) =~= Seq::<(u64, crate::row::RowV)>::empty());
                            assert(crate::compaction::all_columns(snaps) =~= Seq::<Column>::empty());
                            assert(names_view(sk) =~= crate::compaction::tag_names(sch));
                        }
                        assert(layout_of(snaps, sch, sk));
                        assert(compaction_of(snaps, names_view(sk), TimeBound::AtMost(t), pers));
                        assert(compaction_of(snaps, names_view(sk), TimeBound::After(t), rem));
                        assert(outcome_chunks(c0, sel, after, p, pers, rem));
                        assert(persist_outcome(c0, sel, t, after, p));
                        let pc = h0.persist_count() as int;
                        assert(max_end(ws.take(pc)) == Some(t));
                        assert(watermark_for(ws, now, force, w0.late(), t));
                        assert(w1.closed_windows().take(ws.len() as int) =~= ws);
                        assert(w1.closed_windows().skip(ws.len() as int) =~= Seq::<crate::windows::Window>::empty());
                        assert(truncated(ws, t) + Seq::<crate::windows::Window>::empty() =~= truncated(ws, t));
                    }
                }
                r
            },
            Err(e) => {
                self.abort_persist(job);
                Err(LifecycleError::from_compact(e))
            },
        }
    }
}

impl Partition {
    /// Removes chunk `id` unless a lifecycle action holds it.
    pub fn drop_chunk(&mut self, id: u64) -> (r: Result<(), LifecycleError>)
        requires
            old(self).wf(),
        ensures
            final(self).wf(),
            final(self).windows_view() == old(self).windows_view(),
            r is Err ==> final(self).chunks_view() == old(self).chunks_view(),
            r matches Err(LifecycleError::ChunkNotFound { chunk_id }) ==> chunk_id == id && !has_id(old(self).chunks_view(), id),
            r matches Err(LifecycleError::ChunkInTransition { chunk_id }) ==> chunk_id == id && has_id(old(self).chunks_view(), id) && !free_id(old(self).chunks_view(), id),
            r is Ok <==> free_id(old(self).chunks_view(), id),
            r is Ok ==> retains(old(self).chunks_view(), seq![id], final(self).chunks_view()),
    {
        let ids = vec![id];
        match self.check_free(&ids) {
            Ok(()) => {},
            Err(e) => {
                proof {
                    assert(ids@[0] == id);
                    match e {
                        LifecycleError::ChunkNotFound { chunk_id } => {
                            let k = choose|k: int| 0 <= k < ids@.len() && ids@[k] == chunk_id;
                        },
                        LifecycleError::ChunkInTransition { chunk_id } => {
                            let k = choose|k: int| 0 <= k < ids@.len() && ids@[k] == chunk_id;
                        },
                        _ => {},
                    }
                }
                return Err(e);
            },
        }
        assert(free_id(self.chunks@, ids@[0]));
        self.remove_chunks(&ids);
        assert(ids@ =~= seq![id]);
        Ok(())
    }
}

} // verus!
