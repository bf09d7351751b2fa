//! Database states that exercise the lifecycle: the same data held in open,
//! closed, compacted or persisted chunks, with deletes before or after the
//! data moved, and with data spread over two chunks.
use crate::chunk::{Chunk, ChunkStage};
use crate::partition::Partition;
use crate::row::Row;
use crate::tombstone::DeletePredicate;
use crate::windows::FlushHandle;
use vstd::prelude::*;

verus! {

/// The partitions of a database, one per table.
#[derive(Debug)]
pub struct Db {
    pub partitions: Vec<Partition>,
}

/// How many of `cs` are in `stage`.
pub open spec fn stage_count(cs: Seq<Chunk>, stage: ChunkStage) -> nat
    decreases cs.len(),
{
    if cs.len() == 0 {
        0
    } else {
        stage_count(cs.drop_last(), stage) + if cs.last().stage == stage { 1nat } else { 0nat }
    }
}

/// How many chunks of the partitions are in `stage`.
pub open spec fn db_stage_count(ps: Seq<Partition>, stage: ChunkStage) -> nat
    decreases ps.len(),
{
    if ps.len() == 0 {
        0
    } else {
        db_stage_count(ps.drop_last(), stage) + stage_count(ps.last().chunks_view(), stage)
    }
}

/// A named database state.
#[derive(Debug)]
pub struct DbScenario {
    pub scenario_name: String,
    pub db: Db,
}

/// A row of a table.
#[derive(Debug)]
pub struct Line {
    pub table: String,
    pub row: Row,
}

pub(crate) fn line(table: &str, row: Row) -> (r: Line)
    ensures
        r.table@ == table@,
        r.row == row,
{
    Line { table: table.to_owned(), row }
}

pub(crate) fn rollover_one(p: &mut Partition)
    requires
        old(p).wf(),
    ensures
        final(p).wf(),
{
    let _ = p.rollover();
}

pub(crate) fn compact_open_one(p: &mut Partition)
    requires
        old(p).wf(),
    ensures
        final(p).wf(),
{
    match p.rollover() {
        Some(id) => {
            let _ = p.compact_chunks(vec![id]);
        },
        None => {},
    }
}

fn persist_one(p: &mut Partition)
    requires
        old(p).wf(),
    ensures
        final(p).wf(),
{
    let _ = p.rollover();
    let _ = p.persist_partition(0, true);
}

fn drop_one(p: &mut Partition)
    requires
        old(p).wf(),
    ensures
        final(p).wf(),
{
    let mut n = p.chunks().len();
    while n > 0
        invariant
            p.wf(),
        decreases n,
    {
        n -= 1;
        if n < p.chunks().len() {
            let id = p.chunks()[n].id;
            let _ = p.drop_chunk(id);
        }
    }
}

fn delete_one(p: &mut Partition, pred: &DeletePredicate)
    requires
        old(p).wf(),
    ensures
        final(p).wf(),
{
    let _ = p.delete(pred);
}

pub(crate) fn write_one(p: &mut Partition, row: Row, seq: u64)
    requires
        old(p).wf(),
    ensures
        final(p).wf(),
{
    let schema = row.schema();
    let _ = p.write(&schema, vec![row], seq, 0);
}

/// A flush handle for everything, and the ids of the chunks it covers.
pub(crate) fn prepare_all(p: &mut Partition) -> (r: (Option<FlushHandle>, Vec<u64>))
    requires
        old(p).wf(),
    ensures
        final(p).wf(),
{
    let handle = p.prepare_persist(0, true);
    let mut ids: Vec<u64> = Vec::new();
    let cs = p.chunks();
    let mut i: usize = 0;
    while i < cs.len()
        decreases cs.len() - i,
    {
        ids.push(cs[i].id);
        i += 1;
    }
    (handle, ids)
}

/// Runs both phases of a persist prepared earlier.
pub(crate) fn persist_prepared(p: &mut Partition, handle: Option<FlushHandle>, ids: Vec<u64>)
    requires
        old(p).wf(),
    ensures
        final(p).wf(),
{
    if let Some(h) = handle {
        if let Ok(job) = p.persist_chunks(ids, h) {
            match job.execute() {
                Ok(out) => {
                    let _ = p.commit_persist(job, out);
                },
                Err(_) => p.abort_persist(job),
            }
        }
    }
}

impl Db {
    pub open spec fn wf(&self) -> bool {
        forall|i: int| 0 <= i < self.partitions@.len() ==> (#[trigger] self.partitions@[i]).wf()
    }

    pub fn new() -> (r: Db)
        ensures
            r.wf(),
            r.partitions@.len() == 0,
    {
        Db { partitions: Vec::new() }
    }

    /// Where the partition of `table` stands, if there is one.
    pub(crate) fn find(&self, table: &String) -> (r: Option<usize>)
        ensures
            r matches Some(i) ==> i < self.partitions@.len() && self.partitions@[i as int].spec_table_name()@ == table@,
    {
        let mut i: usize = 0;
        while i < self.partitions.len()
            invariant
                i <= self.partitions.len(),
            decreases self.partitions.len() - i,
        {
            if *self.partitions[i].table_name() == *table {
                return Some(i);
            }
            i += 1;
        }
        None
    }

    /// Where the partition of `table` stands, made with key `key` when there
    /// is none.
    pub(crate) fn partition_index(&mut self, table: &String, key: &String) -> (r: usize)
        requires
            old(self).wf(),
        ensures
            final(self).wf(),
            r < final(self).partitions@.len(),
            final(self).partitions@[r as int].spec_table_name()@ == table@,
    {
        match self.find(table) {
            Some(i) => i,
            None => {
                self.partitions.push(Partition::new(table.clone(), key.clone(), 0));
                self.partitions.len() - 1
            },
        }
    }

    /// Writes one row, with sequence number `seq`, to the partition of `table`.
    pub(crate) fn write_row(&mut self, table: &String, key: &String, row: Row, seq: u64)
        requires
            old(self).wf(),
        ensures
            final(self).wf(),
    {
        let i = self.partition_index(table, key);
        write_one(&mut self.partitions[i], row, seq);
    }

    /// Issues tombstone `pred` against `table`.
    pub(crate) fn delete(&mut self, table: &String, pred: &DeletePredicate)
        requires
            old(self).wf(),
        ensures
            final(self).wf(),
    {
        match self.find(table) {
            Some(i) => {
                delete_one(&mut self.partitions[i], pred);
            },
            None => {},
        }
    }

    /// Closes the open chunk of every partition.
    pub(crate) fn rollover_all(&mut self)
        requires
            old(self).wf(),
        ensures
            final(self).wf(),
    {
        let mut i: usize = 0;
        while i < self.partitions.len()
            invariant
                i <= self.partitions.len(),
                self.partitions@.len() == old(self).partitions@.len(),
                self.wf(),
            decreases self.partitions.len() - i,
        {
            rollover_one(&mut self.partitions[i]);
            i += 1;
        }
    }

    /// Closes the open chunk of every partition and compacts it on its own.
    pub(crate) fn compact_open_all(&mut self)
        requires
            old(self).wf(),
        ensures
            final(self).wf(),
    {
        let mut i: usize = 0;
        while i < self.partitions.len()
            invariant
                i <= self.partitions.len(),
                self.partitions@.len() == old(self).partitions@.len(),
                self.wf(),
            decreases self.partitions.len() - i,
        {
            compact_open_one(&mut self.partitions[i]);
            i += 1;
        }
    }

    /// Closes the open chunk of every partition and persists everything.
    pub(crate) fn persist_all(&mut self)
        requires
            old(self).wf(),
        ensures
            final(self).wf(),
    {
        let mut i: usize = 0;
        while i < self.partitions.len()
            invariant
                i <= self.partitions.len(),
                self.partitions@.len() == old(self).partitions@.len(),
                self.wf(),
            decreases self.partitions.len() - i,
        {
            persist_one(&mut self.partitions[i]);
            i += 1;
        }
    }

    /// Drops every chunk that no lifecycle action holds.
    pub(crate) fn drop_all(&mut self)
        requires
            old(self).wf(),
        ensures
            final(self).wf(),
    {
        let mut i: usize = 0;
        while i < self.partitions.len()
            invariant
                i <= self.partitions.len(),
                self.partitions@.len() == old(self).partitions@.len(),
                self.wf(),
            decreases self.partitions.len() - i,
        {
            drop_one(&mut self.partitions[i]);
            i += 1;
        }
    }

    /// How many chunks the database holds in `stage`.
    pub fn count_chunks(&self, stage: ChunkStage) -> (r: usize)
        ensures
            db_stage_count(self.partitions@, stage) <= usize::MAX ==> r == db_stage_count(self.partitions@, stage),
    {
        let mut total: usize = 0;
        let mut i: usize = 0;
        while i < self.partitions.len()
            invariant
                i <= self.partitions.len(),
                db_stage_count(self.partitions@.take(i as int), stage) <= usize::MAX ==> total == db_stage_count(self.partitions@.take(i as int), stage),
                total <= db_stage_count(self.partitions@.take(i as int), stage),
            decreases self.partitions.len() - i,
        {
            let cs = self.partitions[i].chunks();
            let ghost t0 = total;
            let ghost base = db_stage_count(self.partitions@.take(i as int), stage);
            let mut j: usize = 0;
            while j < cs.len()
                invariant
                    j <= cs.len(),
                    t0 <= base,
                    base <= usize::MAX ==> t0 == base,
                    base + stage_count(cs@.take(j as int), stage) <= usize::MAX ==> total == t0 + stage_count(cs@.take(j as int), stage),
                    total <= t0 + stage_count(cs@.take(j as int), stage),
                decreases cs.len() - j,
            {
                assert(cs@.take(j + 1).drop_last() =~= cs@.take(j as int));
                assert(cs@.take(j + 1).last() == cs@[j as int]);
                if cs[j].stage == stage && total < usize::MAX {
                    total += 1;
                }
                j += 1;
            }
            assert(cs@.take(j as int) =~= cs@);
            assert(self.partitions@.take(i + 1).drop_last() =~= self.partitions@.take(i as int));
            assert(self.partitions@.take(i + 1).last() == self.partitions@[i as int]);
            i += 1;
        }
        assert(self.partitions@.take(i as int) =~= self.partitions@);
        total
    }
}

/// Writes each line, in order, with its index as sequence number.
fn write_lines(db: &mut Db, lines: &Vec<Line>, key: &String)
    requires
        old(db).wf(),
    ensures
        final(db).wf(),
{
    let mut k: usize = 0;
    while k < lines.len()
        invariant
            k <= lines.len(),
            db.wf(),
        decreases lines.len() - k,
    {
        db.write_row(&lines[k].table, key, lines[k].row.copy(), k as u64);
        k += 1;
    }
}

fn delete_all(db: &mut Db, table: &String, preds: &Vec<DeletePredicate>)
    requires
        old(db).wf(),
    ensures
        final(db).wf(),
{
    let mut k: usize = 0;
    while k < preds.len()
        invariant
            k <= preds.len(),
            db.wf(),
        decreases preds.len() - k,
    {
        db.delete(table, &preds[k]);
        k += 1;
    }
}

/// Moves the data of every partition to `stage`.
fn move_to(db: &mut Db, stage: ChunkStage)
    requires
        old(db).wf(),
    ensures
        final(db).wf(),
{
    match stage {
        ChunkStage::Open => {},
        ChunkStage::Closed => db.rollover_all(),
        ChunkStage::Compacted => db.compact_open_all(),
        ChunkStage::Persisted => db.persist_all(),
    }
}

fn stage_name(stage: ChunkStage) -> (r: String) {
    match stage {
        ChunkStage::Open => "Data in open chunk".to_owned(),
        ChunkStage::Closed => "Data in closed chunk".to_owned(),
        ChunkStage::Compacted => "Data in compacted chunk".to_owned(),
        ChunkStage::Persisted => "Data in persisted chunk".to_owned(),
    }
}

/// One chunk of data in `stage`, with `before` issued before the data moved
/// there and `after` issued after, both against `delete_table`.
fn one_chunk(
    before: &Vec<DeletePredicate>,
    after: &Vec<DeletePredicate>,
    lines: &Vec<Line>,
    delete_table: &str,
    key: &str,
    stage: ChunkStage,
) -> (r: DbScenario)
    ensures
        r.db.wf(),
{
    let key = key.to_owned();
    let table = delete_table.to_owned();
    let mut db = Db::new();
    write_lines(&mut db, lines, &key);
    delete_all(&mut db, &table, before);
    move_to(&mut db, stage);
    delete_all(&mut db, &table, after);
    DbScenario { scenario_name: stage_name(stage), db }
}

/// The data in one chunk of each stage: open, closed, compacted, persisted.
pub(crate) fn all_scenarios_for_one_chunk(
    before: &Vec<DeletePredicate>,
    after: &Vec<DeletePredicate>,
    lines: &Vec<Line>,
    delete_table: &str,
    key: &str,
) -> (r: Vec<DbScenario>)
    ensures
        r@.len() == 4,
        forall|i: int| 0 <= i < r@.len() ==> (#[trigger] r@[i]).db.wf(),
{
    let mut r: Vec<DbScenario> = Vec::new();
    r.push(one_chunk(before, after, lines, delete_table, key, ChunkStage::Open));
    r.push(one_chunk(before, after, lines, delete_table, key, ChunkStage::Closed));
    r.push(one_chunk(before, after, lines, delete_table, key, ChunkStage::Compacted));
    r.push(one_chunk(before, after, lines, delete_table, key, ChunkStage::Persisted));
    r
}

/// The data in one open chunk.
pub(crate) fn make_one_chunk_mub_scenario(lines: &Vec<Line>, key: &str) -> (r: Vec<DbScenario>)
    ensures
        r@.len() == 1,
        forall|i: int| 0 <= i < r@.len() ==> (#[trigger] r@[i]).db.wf(),
{
    let none: Vec<DeletePredicate> = Vec::new();
    vec![one_chunk(&none, &none, lines, "", key, ChunkStage::Open)]
}

/// The data in one compacted chunk.
pub(crate) fn make_one_chunk_rub_scenario(lines: &Vec<Line>, key: &str) -> (r: Vec<DbScenario>)
    ensures
        r@.len() == 1,
        forall|i: int| 0 <= i < r@.len() ==> (#[trigger] r@[i]).db.wf(),
{
    let none: Vec<DeletePredicate> = Vec::new();
    vec![one_chunk(&none, &none, lines, "", key, ChunkStage::Compacted)]
}

/// The data in one compacted chunk, and in one persisted chunk.
pub(crate) fn make_one_rub_or_parquet_chunk_scenario(lines: &Vec<Line>, key: &str) -> (r: Vec<DbScenario>)
    ensures
        r@.len() == 2,
        forall|i: int| 0 <= i < r@.len() ==> (#[trigger] r@[i]).db.wf(),
{
    let none: Vec<DeletePredicate> = Vec::new();
    vec![
        one_chunk(&none, &none, lines, "", key, ChunkStage::Compacted),
        one_chunk(&none, &none, lines, "", key, ChunkStage::Persisted),
    ]
}

fn two_chunks(
    first: &Vec<Line>,
    second: &Vec<Line>,
    key: &str,
    first_stage: ChunkStage,
    second_stage: ChunkStage,
    name: &str,
) -> (r: DbScenario)
    ensures
        r.db.wf(),
{
    let key = key.to_owned();
    let mut db = Db::new();
    write_lines(&mut db, first, &key);
    move_to(&mut db, first_stage);
    write_lines(&mut db, second, &key);
    move_to(&mut db, second_stage);
    DbScenario { scenario_name: name.to_owned(), db }
}

/// `first` and `second` in two chunks of different stages.
pub(crate) fn make_two_chunk_scenarios(first: &Vec<Line>, second: &Vec<Line>, key: &str) -> (r: Vec<
    DbScenario,
>)
    ensures
        r@.len() == 4,
        forall|i: int| 0 <= i < r@.len() ==> (#[trigger] r@[i]).db.wf(),
{
    vec![
        two_chunks(first, second, key, ChunkStage::Closed, ChunkStage::Open, "Data in closed and open chunks"),
        two_chunks(first, second, key, ChunkStage::Compacted, ChunkStage::Open, "Data in compacted and open chunks"),
        two_chunks(first, second, key, ChunkStage::Compacted, ChunkStage::Compacted, "Data in two compacted chunks"),
        two_chunks(first, second, key, ChunkStage::Persisted, ChunkStage::Open, "Data in persisted and open chunks"),
    ]
}

/// Each batch written in turn and then moved to its stage (a batch without a
/// stage stays open).
pub(crate) fn make_staged_scenario(batches: &Vec<Vec<Line>>, stages: &Vec<ChunkStage>, key: &str, name: &str) -> (r: Vec<DbScenario>)
    ensures
        r@.len() == 1,
        forall|i: int| 0 <= i < r@.len() ==> (#[trigger] r@[i]).db.wf(),
{
    let key = key.to_owned();
    let mut db = Db::new();
    let mut k: usize = 0;
    while k < batches.len()
        invariant
            k <= batches.len(),
            db.wf(),
        decreases batches.len() - k,
    {
        write_lines(&mut db, &batches[k], &key);
        if k < stages.len() {
            move_to(&mut db, stages[k]);
        }
        k += 1;
    }
    vec![DbScenario { scenario_name: name.to_owned(), db }]
}

} // verus!
