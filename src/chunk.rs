//! A chunk: rows of one table and partition plus the metadata that its
//! lifecycle needs.
use crate::compaction::ChunkSnapshot;
use crate::row::{rows_view, Column, Row};
use crate::tombstone::{pred_ids, DeletePredicate};
use vstd::prelude::*;

verus! {

/// Where a chunk's data lives.
#[derive(Debug, Clone, Copy, PartialEq, Eq, Structural)]
pub enum ChunkStage {
    /// Takes writes.
    Open,
    /// Immutable, not yet compacted.
    Closed,
    /// Deduplicated and read-optimised.
    Compacted,
    /// Also durable in object storage.
    Persisted,
}

/// A unit of row data. `order` ranks chunks for deduplication: on equal
/// primary keys the row of the higher order wins.
#[derive(Debug)]
pub struct Chunk {
    pub id: u64,
    pub order: u64,
    pub stage: ChunkStage,
    /// A lifecycle action holds this chunk.
    pub in_transition: bool,
    pub schema: Vec<Column>,
    /// The primary-key tags the rows are sorted by, once compacted.
    pub sort_key: Vec<String>,
    pub rows: Vec<Row>,
    /// Pending tombstones, not yet applied to `rows`.
    pub tombstones: Vec<DeletePredicate>,
    /// Wall-clock time of the first and of the last write.
    pub time_of_first_write: i64,
    pub time_of_last_write: i64,
    pub min_seq: u64,
    pub max_seq: u64,
}

/// Two tombstone lists that agree on everything that matching reads.
pub open spec fn same_preds(a: Seq<DeletePredicate>, b: Seq<DeletePredicate>) -> bool {
    &&& a.len() == b.len()
    &&& forall|i: int|
        0 <= i < a.len() ==> (#[trigger] a[i]).id == b[i].id && a[i].range == b[i].range
            && a[i].exprs@ == b[i].exprs@
}

/// `s` is a snapshot of chunk `c`.
pub open spec fn snapshot_of(c: Chunk, s: ChunkSnapshot) -> bool {
    &&& s.order == c.order
    &&& s.schema@ == c.schema@
    &&& rows_view(s.rows@) == rows_view(c.rows@)
    &&& same_preds(s.tombstones@, c.tombstones@)
}

pub fn copy_rows(rows: &Vec<Row>) -> (r: Vec<Row>)
    ensures
        rows_view(r@) == rows_view(rows@),
{
    let mut out: Vec<Row> = Vec::new();
    let mut i: usize = 0;
    while i < rows.len()
        invariant
            i <= rows.len(),
            rows_view(out@) == rows_view(rows@.take(i as int)),
        decreases rows.len() - i,
    {
        let ghost o0 = out@;
        out.push(rows[i].copy());
        assert(rows_view(out@) =~= rows_view(o0).push(rows@[i as int]@));
        i += 1;
        assert(rows_view(out@) =~= rows_view(rows@.take(i as int)));
    }
    assert(rows@.take(i as int) =~= rows@);
    out
}

pub fn copy_strings(v: &Vec<String>) -> (r: Vec<String>)
    ensures
        r@ == v@,
{
    let mut out: Vec<String> = Vec::new();
    let mut i: usize = 0;
    while i < v.len()
        invariant
            i <= v.len(),
            out@ == v@.take(i as int),
        decreases v.len() - i,
    {
        out.push(v[i].clone());
        i += 1;
        assert(out@ =~= v@.take(i as int));
    }
    assert(v@.take(i as int) =~= v@);
    out
}

pub fn copy_columns(cols: &Vec<Column>) -> (r: Vec<Column>)
    ensures
        r@ == cols@,
{
    let mut out: Vec<Column> = Vec::new();
    let mut i: usize = 0;
    while i < cols.len()
        invariant
            i <= cols.len(),
            out@ == cols@.take(i as int),
        decreases cols.len() - i,
    {
        out.push(cols[i].copy());
        i += 1;
        assert(out@ =~= cols@.take(i as int));
    }
    assert(cols@.take(i as int) =~= cols@);
    out
}

pub fn copy_preds(preds: &Vec<DeletePredicate>) -> (r: Vec<DeletePredicate>)
    ensures
        same_preds(r@, preds@),
        pred_ids(r@) == pred_ids(preds@),
{
    let mut out: Vec<DeletePredicate> = Vec::new();
    let mut i: usize = 0;
    while i < preds.len()
        invariant
            i <= preds.len(),
            out.len() == i,
            forall|j: int|
                0 <= j < i ==> (#[trigger] out@[j]).id == preds@[j].id && out@[j].range
                    == preds@[j].range && out@[j].exprs@ == preds@[j].exprs@,
        decreases preds.len() - i,
    {
        out.push(preds[i].copy());
        i += 1;
    }
    assert(pred_ids(out@) =~= pred_ids(preds@));
    out
}

/// The smallest and the largest time of `rows`, or `None` when it is empty.
pub fn time_range(rows: &Vec<Row>) -> (r: Option<(i64, i64)>)
    ensures
        r is None <==> rows.len() == 0,
        r matches Some((lo, hi)) ==> {
            &&& exists|i: int| 0 <= i < rows.len() && rows@[i].time == lo
            &&& exists|i: int| 0 <= i < rows.len() && rows@[i].time == hi
            &&& forall|i: int| 0 <= i < rows.len() ==> lo <= #[trigger] rows@[i].time <= hi
        },
{
    if rows.len() == 0 {
        return None;
    }
    let mut lo = rows[0].time;
    let mut hi = rows[0].time;
    let mut i: usize = 1;
    while i < rows.len()
        invariant
            1 <= i <= rows.len(),
            exists|j: int| 0 <= j < rows.len() && rows@[j].time == lo,
            exists|j: int| 0 <= j < rows.len() && rows@[j].time == hi,
            forall|j: int| 0 <= j < i ==> lo <= #[trigger] rows@[j].time <= hi,
        decreases rows.len() - i,
    {
        let t = rows[i].time;
        if t < lo {
            lo = t;
        }
        if t > hi {
            hi = t;
        }
        i += 1;
    }
    Some((lo, hi))
}

impl Chunk {
    /// The tombstones still pending on this chunk.
    pub fn delete_predicates(&self) -> (r: &Vec<DeletePredicate>)
        ensures
            r == &self.tombstones,
    {
        &self.tombstones
    }

    /// The ids of the pending tombstones, in order.
    pub fn tombstone_ids(&self) -> (r: Vec<u64>)
        ensures
            r@ == pred_ids(self.tombstones@),
    {
        let mut ids: Vec<u64> = Vec::new();
        let mut i: usize = 0;
        while i < self.tombstones.len()
            invariant
                i <= self.tombstones.len(),
                ids@ == pred_ids(self.tombstones@.take(i as int)),
            decreases self.tombstones.len() - i,
        {
            ids.push(self.tombstones[i].id);
            i += 1;
            assert(ids@ =~= pred_ids(self.tombstones@.take(i as int)));
        }
        assert(self.tombstones@.take(i as int) =~= self.tombstones@);
        ids
    }

    /// Whether no tombstone is pending.
    pub fn no_tombstones(&self) -> (r: bool)
        ensures
            r == (self.tombstones@.len() == 0),
    {
        self.tombstones.len() == 0
    }

    pub fn row_count(&self) -> (r: usize)
        ensures
            r == self.rows.len(),
    {
        self.rows.len()
    }

    /// An owned copy of what a compaction reads.
    pub fn snapshot(&self) -> (r: ChunkSnapshot)
        ensures
            snapshot_of(*self, r),
    {
        ChunkSnapshot {
            order: self.order,
            schema: copy_columns(&self.schema),
            rows: copy_rows(&self.rows),
            tombstones: copy_preds(&self.tombstones),
        }
    }
}

/// What the catalog records of a persisted chunk.
#[derive(Debug)]
pub struct CatalogUpdate {
    pub chunk_id: u64,
    pub schema: Vec<Column>,
    pub sort_key: Vec<String>,
    pub row_count: u64,
    pub min_time: i64,
    pub max_time: i64,
    pub min_seq: u64,
    pub max_seq: u64,
    pub tombstone_ids: Vec<u64>,
}

impl CatalogUpdate {
    /// The record of `chunk`, or `None` for a chunk without rows.
    pub fn new(chunk: &Chunk) -> (r: Option<CatalogUpdate>)
        ensures
            r is None <==> chunk.rows@.len() == 0,
            r matches Some(u) ==> {
                &&& u.chunk_id == chunk.id
                &&& u.schema@ == chunk.schema@
                &&& u.sort_key@ == chunk.sort_key@
                &&& u.row_count == chunk.rows@.len()
                &&& u.min_seq == chunk.min_seq
                &&& u.max_seq == chunk.max_seq
                &&& u.tombstone_ids@ == pred_ids(chunk.tombstones@)
                &&& exists|i: int| 0 <= i < chunk.rows@.len() && chunk.rows@[i].time == u.min_time
                &&& exists|i: int| 0 <= i < chunk.rows@.len() && chunk.rows@[i].time == u.max_time
                &&& forall|i: int|
                    0 <= i < chunk.rows@.len() ==> u.min_time <= #[trigger] chunk.rows@[i].time
                        <= u.max_time
            },
    {
        let (min_time, max_time) = match time_range(&chunk.rows) {
            Some(span) => span,
            None => return None,
        };
        let mut ids: Vec<u64> = Vec::new();
        let mut i: usize = 0;
        while i < chunk.tombstones.len()
            invariant
                i <= chunk.tombstones.len(),
                ids@ == pred_ids(chunk.tombstones@.take(i as int)),
            decreases chunk.tombstones.len() - i,
        {
            ids.push(chunk.tombstones[i].id);
            i += 1;
            assert(ids@ =~= pred_ids(chunk.tombstones@.take(i as int)));
        }
        assert(chunk.tombstones@.take(i as int) =~= chunk.tombstones@);
        Some(CatalogUpdate {
            chunk_id: chunk.id,
            schema: copy_columns(&chunk.schema),
            sort_key: copy_strings(&chunk.sort_key),
            row_count: chunk.rows.len() as u64,
            min_time,
            max_time,
            min_seq: chunk.min_seq,
            max_seq: chunk.max_seq,
            tombstone_ids: ids,
        })
    }
}

} // verus!
