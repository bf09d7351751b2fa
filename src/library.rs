//! The library of database states: each type makes the states of one data
//! set, in every chunk stage that matters for it.
use crate::chunk::Chunk;
use crate::compaction::{compaction_of, layout_of, ChunkSnapshot, TimeBound};
use crate::partition::{
    compacts_to, conflict_among, embeds, first_writable, free_id, held_id, lemma_index_of_id,
    snapshot_of_id, snapshots_of, writable, Partition,
};
use crate::chunk::snapshot_of;
use crate::row::{names_view, rows_view, Column, RowV, Value};
use crate::windows::{max_end, range_added, FlushHandle, Window};
use crate::row::Row;
use crate::chunk::ChunkStage;
use crate::scenarios::{
    all_scenarios_for_one_chunk, compact_open_one, make_staged_scenario, persist_prepared, prepare_all, write_one, line, make_one_chunk_mub_scenario, make_one_chunk_rub_scenario,
    make_one_rub_or_parquet_chunk_scenario, make_two_chunk_scenarios, Db, DbScenario, Line,
};
use crate::tombstone::{DeleteExpr, DeletePredicate, Op, Scalar, TimestampRange};
use vstd::prelude::*;

verus! {

/// Two chunks whose ids and orders rank them differently: the first write is
/// compacted and persisted only after a second write to the same key opened
/// a newer chunk, so the persisted chunk gets the newer id but keeps the
/// older order. Deduplication must go by order.
#[derive(Debug)]
pub struct ChunkOrder {}

/// `r` is the row `region=west user=<user>` at time 100.
pub open spec fn is_west_row(r: RowV, user: i64) -> bool {
    &&& r.0 == 100
    &&& r.1.len() == 2
    &&& r.1[0].name@ == "region"@
    &&& (r.1[0].value matches Value::Tag(v) && v@ == "west"@)
    &&& r.1[1].name@ == "user"@
    &&& r.1[1].value == Value::Decimal(user, 0)
}

fn west_row(user: i64) -> (res: (Row, Vec<Column>))
    ensures
        is_west_row(res.0@, user),
        !crate::compaction::schema_conflict(res.1@),
{
    let r0 = Row::at(100);
    let r1 = r0.tag("region", "west");
    let r = r1.dec("user", user, 0);
    proof {
        assert(r1.cells@.drop_last() =~= Seq::<crate::row::Cell>::empty());
        assert(r1.cells@.len() == 1);
        assert(r.cells@.len() == 2);
        assert(r.cells@[0] == r1.cells@[0]);
        reveal_strlit("region");
        reveal_strlit("user");
        assert("region"@[0] != "user"@[0]);
    }
    let schema = r.schema();
    let ghost s = schema@;
    proof {
        if crate::compaction::schema_conflict(s) {
            let (i, j) = choose|i: int, j: int|
                0 <= i < s.len() && 0 <= j < s.len() && s[i].name@ == s[j].name@ && s[i].data_type != s[j].data_type;
            assert(i != j);
        }
    }
    (r, schema)
}

/// Writes the row `region=west user=<user>` at 100 into a new chunk.
fn write_fresh(p: &mut Partition, user: i64, seq: u64) -> (id: u64)
    requires
        old(p).wf(),
        forall|j: int| 0 <= j < old(p).chunks_view().len() ==> !writable(#[trigger] old(p).chunks_view()[j]),
        old(p).spec_next_id() < u64::MAX,
        old(p).spec_next_order() < u64::MAX,
    ensures
        final(p).wf(),
        id == old(p).spec_next_id(),
        final(p).spec_next_id() == old(p).spec_next_id() + 1,
        final(p).spec_next_order() == old(p).spec_next_order() + 1,
        final(p).chunks_view().len() == old(p).chunks_view().len() + 1,
        final(p).chunks_view().drop_last() == old(p).chunks_view(),
        ({
            let c = final(p).chunks_view().last();
            &&& c.id == id && c.order == old(p).spec_next_order()
            &&& c.stage == ChunkStage::Open && !c.in_transition && c.tombstones@.len() == 0
            &&& rows_view(c.rows@).len() == 1 && is_west_row(rows_view(c.rows@)[0], user)
            &&& !crate::compaction::schema_conflict(c.schema@)
        }),
        old(p).windows_view().open_window() is None && old(p).windows_view().closed_windows().len() == 0
            ==> final(p).windows_view().windows().len() == 1 && final(p).windows_view().windows()[0].max_time == 100,
{
    let (row, schema) = west_row(user);
    let ghost r1 = row@;
    let rows = vec![row];
    let ghost rv = rows_view(rows@);
    assert(rv =~= seq![r1]);
    let ghost before = p.chunks_view();
    let ghost w00 = p.windows_view();
    proof {
        if exists|k: int| first_writable(before, k) {
            let k = choose|k: int| first_writable(before, k);
            assert(!writable(before[k]));
        }
    }
    let w = p.write(&schema, rows, seq, 0);
    let id = match w {
        Ok(id) => id,
        Err(_) => {
            assert(false);
            return 0;
        },
    };
    proof {
        let after = p.chunks_view();
        let k = before.len() as int;
        assert(after.len() == before.len() + 1);
        assert(after.drop_last() =~= before);
        crate::compaction::lemma_union_no_conflict(schema@, after[k].schema@);
        assert(after.last() == after[k]);
        if w00.open_window() is None && w00.closed_windows().len() == 0 {
            let ws = p.windows_view();
            let (lo, hi) = choose|lo: i64, hi: i64|
                #[trigger] range_added(w00, ws, seq, 1u64, lo, hi, 0) && (forall|i: int| 0 <= i < rv.len() ==> lo <= #[trigger] rv[i].0 <= hi)
                    && (exists|i: int| 0 <= i < rv.len() && rv[i].0 == lo) && (exists|i: int| 0 <= i < rv.len() && rv[i].0 == hi);
            assert(rv[0].0 == 100);
            assert(hi == 100);
            assert(ws.windows() =~= seq![ws.open_window()->0]);
        }
    }
    id
}

/// Closes and compacts the only chunk, which holds one row and no tombstone.
#[verifier::rlimit(80)]
fn compact_single(p: &mut Partition)
    requires
        old(p).wf(),
        old(p).chunks_view().len() == 1,
        writable(old(p).chunks_view()[0]),
        old(p).chunks_view()[0].tombstones@.len() == 0,
        rows_view(old(p).chunks_view()[0].rows@).len() == 1,
        !crate::compaction::schema_conflict(old(p).chunks_view()[0].schema@),
        old(p).spec_next_id() < u64::MAX,
    ensures
        final(p).wf(),
        final(p).windows_view() == old(p).windows_view(),
        final(p).spec_next_order() == old(p).spec_next_order(),
        final(p).spec_next_id() <= old(p).spec_next_id() + 1,
        final(p).chunks_view().len() == 1,
        ({
            let c = final(p).chunks_view()[0];
            let c0 = old(p).chunks_view()[0];
            &&& c.stage == ChunkStage::Compacted && c.order == c0.order && !c.in_transition
            &&& c.tombstones@.len() == 0
            &&& rows_view(c.rows@) == rows_view(c0.rows@)
            &&& !crate::compaction::schema_conflict(c.schema@)
        }),
{
    let ghost c0 = p.chunks_view()[0];
    let ghost r1 = rows_view(c0.rows@)[0];
    assert(rows_view(c0.rows@) =~= seq![r1]);
    let id = match p.rollover() {
        Some(i) => i,
        None => {
            assert(false);
            return;
        },
    };
    proof {
        lemma_index_of_id(p.chunks_view(), 0);
    }
    let ghost before = p.chunks_view();
    assert(before[0].id == id);
    assert(before[0] == (Chunk { stage: ChunkStage::Closed, ..c0 }));
    let ids = vec![id];
    proof {
        assert(free_id(before, ids@[0]));
        if conflict_among(before, ids@) {
            let snaps = choose|snaps: Seq<ChunkSnapshot>| #[trigger] snapshots_of(before, ids@, snaps) && crate::compaction::schema_conflict(crate::compaction::all_columns(snaps));
            assert(snapshot_of_id(before, ids@[0], snaps[0]));
            assert(snaps.drop_last() =~= Seq::<ChunkSnapshot>::empty());
            assert(crate::compaction::all_columns(Seq::<ChunkSnapshot>::empty()) =~= Seq::<Column>::empty());
            assert(snaps.last() == snaps[0]);
            assert(crate::compaction::all_columns(snaps) =~= snaps[0].schema@);
        }
    }
    let ghost idsv = ids@;
    let cr = p.compact_chunks(ids);
    proof {
        let after = p.chunks_view();
        if let Ok(pp) = cr {
            let nk = if pp is Some { after.len() - 1 } else { after.len() as int };
            let kept = after.take(nk);
            let m = choose|m: Seq<int>| embeds(before, idsv, kept, m);
            if kept.len() > 0 {
                assert(0 <= m[0] < before.len());
                assert(idsv.contains(before[0].id));
            }
            let target = if pp is Some { rows_view(after[nk].rows@) } else { Seq::<RowV>::empty() };
            assert(compacts_to(before, idsv, target));
            let (snaps, sch, sk) = choose|snaps: Seq<ChunkSnapshot>, sch: Seq<Column>, sk: Seq<String>|
                #![trigger compaction_of(snaps, names_view(sk), TimeBound::All, target), layout_of(snaps, sch, sk)]
                compaction_of(snaps, names_view(sk), TimeBound::All, target)
                    && snaps.len() == idsv.len() && (forall|k: int| 0 <= k < idsv.len() ==> #[trigger] snapshot_of_id(before, idsv[k], snaps[k]))
                    && layout_of(snaps, sch, sk);
            assert(snapshot_of_id(before, idsv[0], snaps[0]));
            assert(snapshot_of(before[0], snaps[0]));
            crate::compaction::lemma_single_row_compaction(snaps, names_view(sk), TimeBound::All, target, r1);
            if let Some(cid) = pp {
                let j = choose|j: int| 0 <= j < before.len() && idsv.contains(before[j].id) && before[j].order == after[nk].order;
                assert(j == 0);
            }
        }
    }
}

/// Persists chunk 0 (one row, no tombstone) with a handle at 100; chunk 1
/// stays.
#[verifier::rlimit(60)]
fn persist_first(p: &mut Partition, h: FlushHandle)
    requires
        old(p).wf(),
        old(p).chunks_view().len() == 2,
        !old(p).chunks_view()[0].in_transition,
        old(p).chunks_view()[0].tombstones@.len() == 0,
        rows_view(old(p).chunks_view()[0].rows@).len() == 1,
        rows_view(old(p).chunks_view()[0].rows@)[0].0 <= h.spec_timestamp(),
        !crate::compaction::schema_conflict(old(p).chunks_view()[0].schema@),
        old(p).spec_next_id() <= u64::MAX - 2,
    ensures
        final(p).wf(),
        final(p).chunks_view().len() == 2,
        final(p).chunks_view()[0] == old(p).chunks_view()[1],
        ({
            let c = final(p).chunks_view()[1];
            let c0 = old(p).chunks_view()[0];
            &&& c.stage == ChunkStage::Persisted && c.order == c0.order
            &&& rows_view(c.rows@) == rows_view(c0.rows@)
            &&& c.id >= old(p).spec_next_id()
        }),
{
    let ghost before = p.chunks_view();
    let ghost r1 = rows_view(before[0].rows@)[0];
    assert(rows_view(before[0].rows@) =~= seq![r1]);
    let id1 = p.chunks()[0].id;
    let ids = vec![id1];
    assert(free_id(before, ids@[0]));
    let job = match p.persist_chunks(ids, h) {
        Ok(job) => job,
        Err(_) => {
            assert(false);
            return;
        },
    };
    let ghost marked = p.chunks_view();
    let ghost snaps = job.snapshots@;
    let ghost jb = job;
    proof {
        assert(jb.chunk_ids@ =~= seq![id1]);
        assert(snapshot_of_id(before, id1, snaps[0]));
        let j = choose|j: int| 0 <= j < before.len() && before[j].id == id1 && snapshot_of(before[j], snaps[0]);
        assert(j == 0);
        assert(snaps.drop_last() =~= Seq::<ChunkSnapshot>::empty());
        assert(crate::compaction::all_columns(Seq::<ChunkSnapshot>::empty()) =~= Seq::<Column>::empty());
        assert(snaps.last() == snaps[0]);
        assert(crate::compaction::all_columns(snaps) =~= snaps[0].schema@);
        let i = choose|i: int| 0 <= i < before.len() && jb.chunk_ids@.contains(before[i].id) && before[i].order == jb.max_order;
        assert(i == 0);
        assert(marked[0] == (Chunk { in_transition: before[0].in_transition || jb.chunk_ids@.contains(before[0].id), ..before[0] }));
        assert(jb.chunk_ids@.contains(before[0].id));
        assert(held_id(marked, jb.chunk_ids@[0]));
    }
    let out = match job.execute() {
        Ok(Some(out)) => out,
        _ => {
            assert(false);
            return;
        },
    };
    proof {
        crate::compaction::lemma_single_row_compaction(snaps, names_view(out.sort_key@), TimeBound::AtMost(jb.handle.spec_timestamp()), rows_view(out.persist@), r1);
        crate::compaction::lemma_single_row_compaction(snaps, names_view(out.sort_key@), TimeBound::After(jb.handle.spec_timestamp()), rows_view(out.remainder@), r1);
    }
    let cr = p.commit_persist(job, Some(out));
    proof {
        if let Ok(pp) = cr {
            let after = p.chunks_view();
            let nk = after.len() - 1;
            let kept = after.take(nk);
            let m = choose|m: Seq<int>| embeds(marked, jb.chunk_ids@, kept, m);
            assert(marked[1] == (Chunk { in_transition: before[1].in_transition || jb.chunk_ids@.contains(before[1].id), ..before[1] }));
            assert(!jb.chunk_ids@.contains(marked[1].id)) by {
                assert(before[1].id != before[0].id);
            }
            let a = choose|a: int| 0 <= a < m.len() && m[a] == 1;
            if kept.len() > 1 {
                let b = if a == 0 { 1int } else { 0int };
                assert(m[b] != m[a]);
                assert(m[b] == 0);
                assert(kept[b] == marked[0]);
                assert(jb.chunk_ids@.contains(marked[0].id));
            }
            assert(kept.len() == 1);
            assert(a == 0);
            assert(kept[0] == marked[1]);
            assert(after[0] == kept[0]);
        } else {
            assert(false);
        }
    }
}

/// A partition with one compacted chunk of order 0 holding the row
/// `region=west user=1` at 100, and one window ending at 100.
fn first_compacted() -> (p: Partition)
    ensures
        p.wf(),
        p.chunks_view().len() == 1,
        p.chunks_view()[0].stage == ChunkStage::Compacted,
        p.chunks_view()[0].order == 0,
        !p.chunks_view()[0].in_transition,
        p.chunks_view()[0].tombstones@.len() == 0,
        !crate::compaction::schema_conflict(p.chunks_view()[0].schema@),
        rows_view(p.chunks_view()[0].rows@).len() == 1,
        is_west_row(rows_view(p.chunks_view()[0].rows@)[0], 1),
        p.spec_next_order() == 1,
        p.spec_next_id() <= 2,
        p.windows_view().windows().len() == 1,
        p.windows_view().windows()[0].max_time == 100,
{
    let mut p = Partition::new("cpu".to_owned(), "1970-01-01T00".to_owned(), 0);
    write_fresh(&mut p, 1, 0);
    assert(p.chunks_view()[0] == p.chunks_view().last());
    compact_single(&mut p);
    p
}

impl ChunkOrder {
    pub fn make(&self) -> (r: Vec<DbScenario>)
        ensures
            r@.len() == 1,
            forall|i: int| 0 <= i < r@.len() ==> (#[trigger] r@[i]).db.wf(),
            r@[0].db.partitions@.len() == 1,
            ({
                let cs = r@[0].db.partitions@[0].chunks_view();
                &&& cs.len() == 2
                &&& cs[0].stage == ChunkStage::Open && cs[0].order == 1
                &&& rows_view(cs[0].rows@).len() == 1 && is_west_row(rows_view(cs[0].rows@)[0], 2)
                &&& cs[1].stage == ChunkStage::Persisted && cs[1].order == 0
                &&& rows_view(cs[1].rows@).len() == 1 && is_west_row(rows_view(cs[1].rows@)[0], 1)
                &&& cs[1].id > cs[0].id
            }),
    {
        let mut p = first_compacted();
        let ghost ws = p.windows_view().windows();
        // prepare the persist, then write again before it runs
        let handle = p.prepare_persist(0, true);
        let h = match handle {
            Some(h) => h,
            None => {
                assert(false);
                return vec![DbScenario { scenario_name: "".to_owned(), db: Db { partitions: vec![p] } }];
            },
        };
        proof {
            assert(ws.take(1) =~= ws);
            assert(ws.take(1).drop_last() =~= Seq::<Window>::empty());
            assert(max_end(Seq::<Window>::empty()) == None::<i64>);
            assert(h.spec_timestamp() == 100);
            assert(!writable(p.chunks_view()[0]));
        }
        let ghost c1 = p.chunks_view()[0];
        let ghost n1 = p.spec_next_id();
        write_fresh(&mut p, 2, 1);
        let ghost c2 = p.chunks_view().last();
        proof {
            assert(p.chunks_view()[0] == p.chunks_view().drop_last()[0]);
            assert(p.chunks_view()[1] == c2);
            assert(c2.id == n1);
            assert(p.spec_next_id() == n1 + 1);
        }
        persist_first(&mut p, h);
        proof {
            let cs = p.chunks_view();
            assert(cs[0] == c2);
            assert(cs[1].id >= n1 + 1);
        }
        let db = Db { partitions: vec![p] };
        assert(db.partitions@[0].wf());
        vec![
            DbScenario {
                scenario_name: "chunks where chunk ID alone cannot be used for ordering".to_owned(),
                db,
            },
        ]
    }
}

/// Databases without data: new, and emptied by dropping chunks.
#[derive(Debug)]
pub struct NoData {}

impl NoData {
    pub fn make(&self) -> (r: Vec<DbScenario>)
        ensures
            r@.len() == 4,
            forall|i: int| 0 <= i < r@.len() ==> (#[trigger] r@[i]).db.wf(),
    {
        let key = "1970-01-01T00".to_owned();
        let table = "cpu".to_owned();
        let s1 = DbScenario { scenario_name: "New, Empty Database".to_owned(), db: Db::new() };
        let s2 = DbScenario {
            scenario_name: "New, Empty Database after partitions are listed".to_owned(),
            db: Db::new(),
        };
        let mut db3 = Db::new();
        db3.write_row(&table, &key, Row::at(100).tag("region", "west").dec("user", 232, 1), 0);
        db3.compact_open_all();
        db3.drop_all();
        let s3 = DbScenario {
            scenario_name: "Empty Database after drop chunk that is in read buffer".to_owned(),
            db: db3,
        };
        let mut db4 = Db::new();
        db4.write_row(&table, &key, Row::at(100).tag("region", "west").dec("user", 232, 1), 0);
        db4.compact_open_all();
        db4.persist_all();
        db4.drop_all();
        let s4 = DbScenario {
            scenario_name: "Empty Database after drop chunk that is in both read buffer and object store".to_owned(),
            db: db4,
        };
        vec![s1, s2, s3, s4]
    }
}

/// One measurement whose only chunk was dropped.
#[derive(Debug)]
pub struct OneMeasurementAllChunksDropped {}

impl OneMeasurementAllChunksDropped {
    pub fn make(&self) -> (r: Vec<DbScenario>)
        ensures
            r@.len() == 1,
            forall|i: int| 0 <= i < r@.len() ==> (#[trigger] r@[i]).db.wf(),
    {
        let mut db = Db::new();
        db.write_row(
            &"h2o".to_owned(),
            &"1970-01-01T00".to_owned(),
            Row::at(50).tag("state", "MA").dec("temp", 704, 1),
            0,
        );
        db.compact_open_all();
        db.drop_all();
        vec![
            DbScenario {
                scenario_name: "one measurement but all chunks are dropped".to_owned(),
                db,
            },
        ]
    }
}

/// A measurement at the largest timestamp that the data model holds.
#[derive(Debug)]
pub struct MeasurementWithMaxTime {}

impl MeasurementWithMaxTime {
    pub fn make(&self) -> (r: Vec<DbScenario>)
        ensures
            r@.len() == 4,
            forall|i: int| 0 <= i < r@.len() ==> (#[trigger] r@[i]).db.wf(),
    {
        let lines: Vec<Line> = vec![
            line("cpu", Row::at(9223372036854775806).tag("host", "server01").dec("value", 100, 0)),
        ];
        let before: Vec<DeletePredicate> = Vec::new();
        let after: Vec<DeletePredicate> = Vec::new();
        all_scenarios_for_one_chunk(&before, &after, &lines, "cpu", "2262-04-11T23")
    }
}

/// A measurement with timestamps in 2021.
#[derive(Debug)]
pub struct OneMeasurementRealisticTimes {}

impl OneMeasurementRealisticTimes {
    pub fn make(&self) -> (r: Vec<DbScenario>)
        ensures
            r@.len() == 4,
            forall|i: int| 0 <= i < r@.len() ==> (#[trigger] r@[i]).db.wf(),
    {
        let lines: Vec<Line> = vec![
            line("cpu", Row::at(1626809330000000000).tag("region", "west").dec("user", 232, 1)),
            line("cpu", Row::at(1626809430000000000).tag("region", "west").dec("user", 210, 1)),
        ];
        let before: Vec<DeletePredicate> = Vec::new();
        let after: Vec<DeletePredicate> = Vec::new();
        all_scenarios_for_one_chunk(&before, &after, &lines, "cpu", "2021-07-20T19")
    }
}

/// A measurement without tags.
#[derive(Debug)]
pub struct OneMeasurementNoTags {}

impl OneMeasurementNoTags {
    pub fn make(&self) -> (r: Vec<DbScenario>)
        ensures
            r@.len() == 4,
            forall|i: int| 0 <= i < r@.len() ==> (#[trigger] r@[i]).db.wf(),
    {
        let lines: Vec<Line> = vec![
            line("h2o", Row::at(100).dec("temp", 704, 1)),
            line("h2o", Row::at(250).dec("temp", 724, 1)),
            line("h2o", Row::at(200).dec("temp", 504, 1)),
            line("h2o", Row::at(300).dec("level", 2000, 1)),
        ];
        let before: Vec<DeletePredicate> = Vec::new();
        let after: Vec<DeletePredicate> = Vec::new();
        all_scenarios_for_one_chunk(&before, &after, &lines, "h2o", "1970-01-01T00")
    }
}

/// A measurement whose rows leave many tags null.
#[derive(Debug)]
pub struct OneMeasurementManyNullTags {}

impl OneMeasurementManyNullTags {
    pub fn make(&self) -> (r: Vec<DbScenario>)
        ensures
            r@.len() == 4,
            forall|i: int| 0 <= i < r@.len() ==> (#[trigger] r@[i]).db.wf(),
    {
        let lines: Vec<Line> = vec![
            line("h2o", Row::at(100).tag("state", "CA").tag("city", "LA").tag("county", "LA").dec("temp", 704, 1)),
            line("h2o", Row::at(250).tag("state", "MA").tag("city", "Boston").tag("county", "Suffolk").dec("temp", 724, 1)),
            line("h2o", Row::at(200).tag("state", "MA").tag("city", "Boston").dec("temp", 504, 1)),
            line("h2o", Row::at(300).tag("state", "CA").dec("temp", 790, 1)),
            line("h2o", Row::at(400).tag("state", "NY").dec("temp", 608, 1)),
            line("h2o", Row::at(500).tag("state", "NY").tag("city", "NYC").dec("temp", 610, 1)),
            line("h2o", Row::at(600).tag("state", "NY").tag("city", "NYC").tag("borough", "Brooklyn").dec("temp", 610, 1)),
        ];
        let before: Vec<DeletePredicate> = Vec::new();
        let after: Vec<DeletePredicate> = Vec::new();
        all_scenarios_for_one_chunk(&before, &after, &lines, "cpu", "1970-01-01T00")
    }
}

/// As `OneMeasurementManyNullTags`, with the rows of state NY in 400..=602 deleted.
#[derive(Debug)]
pub struct OneMeasurementManyNullTagsWithDelete {}

impl OneMeasurementManyNullTagsWithDelete {
    pub fn make(&self) -> (r: Vec<DbScenario>)
        ensures
            r@.len() == 4,
            forall|i: int| 0 <= i < r@.len() ==> (#[trigger] r@[i]).db.wf(),
    {
        let lines: Vec<Line> = vec![
            line("h2o", Row::at(100).tag("state", "CA").tag("city", "LA").tag("county", "LA").dec("temp", 704, 1)),
            line("h2o", Row::at(250).tag("state", "MA").tag("city", "Boston").tag("county", "Suffolk").dec("temp", 724, 1)),
            line("h2o", Row::at(200).tag("state", "MA").tag("city", "Boston").dec("temp", 504, 1)),
            line("h2o", Row::at(300).tag("state", "CA").dec("temp", 790, 1)),
            line("h2o", Row::at(400).tag("state", "NY").dec("temp", 608, 1)),
            line("h2o", Row::at(500).tag("state", "NY").tag("city", "NYC").dec("temp", 610, 1)),
            line("h2o", Row::at(600).tag("state", "NY").tag("city", "NYC").tag("borough", "Brooklyn").dec("temp", 610, 1)),
        ];
        let before: Vec<DeletePredicate> = vec![
            DeletePredicate::new(1, TimestampRange::new(400, 602), vec![DeleteExpr::new("state".to_owned(), Op::Eq, Scalar::String("NY".to_owned()))]),
        ];
        let after: Vec<DeletePredicate> = Vec::new();
        all_scenarios_for_one_chunk(&before, &after, &lines, "h2o", "1970-01-01T00")
    }
}

/// As `OneMeasurementManyNullTags`, with every row deleted.
#[derive(Debug)]
pub struct OneMeasurementManyNullTagsWithDeleteAll {}

impl OneMeasurementManyNullTagsWithDeleteAll {
    pub fn make(&self) -> (r: Vec<DbScenario>)
        ensures
            r@.len() == 4,
            forall|i: int| 0 <= i < r@.len() ==> (#[trigger] r@[i]).db.wf(),
    {
        let lines: Vec<Line> = vec![
            line("h2o", Row::at(100).tag("state", "CA").tag("city", "LA").tag("county", "LA").dec("temp", 704, 1)),
            line("h2o", Row::at(250).tag("state", "MA").tag("city", "Boston").tag("county", "Suffolk").dec("temp", 724, 1)),
            line("h2o", Row::at(200).tag("state", "MA").tag("city", "Boston").dec("temp", 504, 1)),
            line("h2o", Row::at(300).tag("state", "CA").dec("temp", 790, 1)),
            line("h2o", Row::at(400).tag("state", "NY").dec("temp", 608, 1)),
            line("h2o", Row::at(500).tag("state", "NY").tag("city", "NYC").dec("temp", 610, 1)),
            line("h2o", Row::at(600).tag("state", "NY").tag("city", "NYC").tag("borough", "Brooklyn").dec("temp", 610, 1)),
        ];
        let before: Vec<DeletePredicate> = vec![
            DeletePredicate::new(1, TimestampRange::new(100, 602), Vec::new()),
        ];
        let after: Vec<DeletePredicate> = Vec::new();
        all_scenarios_for_one_chunk(&before, &after, &lines, "h2o", "1970-01-01T00")
    }
}

/// Two measurements in one open chunk.
#[derive(Debug)]
pub struct TwoMeasurementsMubScenario {}

impl TwoMeasurementsMubScenario {
    pub fn make(&self) -> (r: Vec<DbScenario>)
        ensures
            r@.len() == 1,
            forall|i: int| 0 <= i < r@.len() ==> (#[trigger] r@[i]).db.wf(),
    {
        let lines: Vec<Line> = vec![
            line("cpu", Row::at(100).tag("region", "west").dec("user", 232, 1)),
            line("cpu", Row::at(150).tag("region", "west").dec("user", 210, 1)),
            line("disk", Row::at(200).tag("region", "east").integer("bytes", 99)),
        ];
        make_one_chunk_mub_scenario(&lines, "1970-01-01T00")
    }
}

/// Two measurements in one compacted chunk.
#[derive(Debug)]
pub struct TwoMeasurementsRubScenario {}

impl TwoMeasurementsRubScenario {
    pub fn make(&self) -> (r: Vec<DbScenario>)
        ensures
            r@.len() == 1,
            forall|i: int| 0 <= i < r@.len() ==> (#[trigger] r@[i]).db.wf(),
    {
        let lines: Vec<Line> = vec![
            line("cpu", Row::at(100).tag("region", "west").dec("user", 232, 1)),
            line("cpu", Row::at(150).tag("region", "west").dec("user", 210, 1)),
            line("disk", Row::at(200).tag("region", "east").integer("bytes", 99)),
        ];
        make_one_chunk_rub_scenario(&lines, "1970-01-01T00")
    }
}

/// Two measurements in each stage of one chunk.
#[derive(Debug)]
pub struct TwoMeasurements {}

impl TwoMeasurements {
    pub fn make(&self) -> (r: Vec<DbScenario>)
        ensures
            r@.len() == 4,
            forall|i: int| 0 <= i < r@.len() ==> (#[trigger] r@[i]).db.wf(),
    {
        let lines: Vec<Line> = vec![
            line("cpu", Row::at(100).tag("region", "west").dec("user", 232, 1)),
            line("cpu", Row::at(150).tag("region", "west").dec("user", 210, 1)),
            line("disk", Row::at(200).tag("region", "east").integer("bytes", 99)),
        ];
        let before: Vec<DeletePredicate> = Vec::new();
        let after: Vec<DeletePredicate> = Vec::new();
        all_scenarios_for_one_chunk(&before, &after, &lines, "cpu", "1970-01-01T00")
    }
}

/// As `TwoMeasurements`, with region west deleted in 120..=160.
#[derive(Debug)]
pub struct TwoMeasurementsWithDelete {}

impl TwoMeasurementsWithDelete {
    pub fn make(&self) -> (r: Vec<DbScenario>)
        ensures
            r@.len() == 4,
            forall|i: int| 0 <= i < r@.len() ==> (#[trigger] r@[i]).db.wf(),
    {
        let lines: Vec<Line> = vec![
            line("cpu", Row::at(100).tag("region", "west").dec("user", 232, 1)),
            line("cpu", Row::at(150).tag("region", "west").dec("user", 210, 1)),
            line("disk", Row::at(200).tag("region", "east").integer("bytes", 99)),
        ];
        let before: Vec<DeletePredicate> = vec![
            DeletePredicate::new(1, TimestampRange::new(120, 160), vec![DeleteExpr::new("region".to_owned(), Op::Eq, Scalar::String("west".to_owned()))]),
        ];
        let after: Vec<DeletePredicate> = Vec::new();
        all_scenarios_for_one_chunk(&before, &after, &lines, "cpu", "1970-01-01T00")
    }
}

/// As `TwoMeasurementsWithDelete`, then everything up to 110 deleted as well.
#[derive(Debug)]
pub struct TwoMeasurementsWithDeleteAll {}

impl TwoMeasurementsWithDeleteAll {
    pub fn make(&self) -> (r: Vec<DbScenario>)
        ensures
            r@.len() == 4,
            forall|i: int| 0 <= i < r@.len() ==> (#[trigger] r@[i]).db.wf(),
    {
        let lines: Vec<Line> = vec![
            line("cpu", Row::at(100).tag("region", "west").dec("user", 232, 1)),
            line("cpu", Row::at(150).tag("region", "west").dec("user", 210, 1)),
            line("disk", Row::at(200).tag("region", "east").integer("bytes", 99)),
        ];
        let before: Vec<DeletePredicate> = vec![
            DeletePredicate::new(1, TimestampRange::new(120, 160), vec![DeleteExpr::new("region".to_owned(), Op::Eq, Scalar::String("west".to_owned()))]),
        ];
        let after: Vec<DeletePredicate> = vec![
            DeletePredicate::new(2, TimestampRange::new(0, 110), Vec::new()),
        ];
        all_scenarios_for_one_chunk(&before, &after, &lines, "cpu", "1970-01-01T00")
    }
}

/// Two measurements with unsigned fields in one open chunk.
#[derive(Debug)]
pub struct TwoMeasurementsUnsignedTypeMubScenario {}

impl TwoMeasurementsUnsignedTypeMubScenario {
    pub fn make(&self) -> (r: Vec<DbScenario>)
        ensures
            r@.len() == 1,
            forall|i: int| 0 <= i < r@.len() ==> (#[trigger] r@[i]).db.wf(),
    {
        let lines: Vec<Line> = vec![
            line("restaurant", Row::at(100).tag("town", "andover").unsigned("count", 40000)),
            line("restaurant", Row::at(120).tag("town", "reading").unsigned("count", 632)),
            line("school", Row::at(150).tag("town", "reading").unsigned("count", 17)),
            line("school", Row::at(160).tag("town", "andover").unsigned("count", 25)),
        ];
        make_one_chunk_mub_scenario(&lines, "1970-01-01T00")
    }
}

/// Two measurements with unsigned fields in each stage of one chunk.
#[derive(Debug)]
pub struct TwoMeasurementsUnsignedType {}

impl TwoMeasurementsUnsignedType {
    pub fn make(&self) -> (r: Vec<DbScenario>)
        ensures
            r@.len() == 4,
            forall|i: int| 0 <= i < r@.len() ==> (#[trigger] r@[i]).db.wf(),
    {
        let lines: Vec<Line> = vec![
            line("restaurant", Row::at(100).tag("town", "andover").unsigned("count", 40000)),
            line("restaurant", Row::at(120).tag("town", "reading").unsigned("count", 632)),
            line("school", Row::at(150).tag("town", "reading").unsigned("count", 17)),
            line("school", Row::at(160).tag("town", "andover").unsigned("count", 25)),
        ];
        let before: Vec<DeletePredicate> = Vec::new();
        let after: Vec<DeletePredicate> = Vec::new();
        all_scenarios_for_one_chunk(&before, &after, &lines, "restaurant", "1970-01-01T00")
    }
}

/// Data for filters on tags and fields, compacted or persisted.
#[derive(Debug)]
pub struct TwoMeasurementsPredicatePushDown {}

impl TwoMeasurementsPredicatePushDown {
    pub fn make(&self) -> (r: Vec<DbScenario>)
        ensures
            r@.len() == 2,
            forall|i: int| 0 <= i < r@.len() ==> (#[trigger] r@[i]).db.wf(),
    {
        let lines: Vec<Line> = vec![
            line("restaurant", Row::at(100).tag("town", "andover").unsigned("count", 40000).dec("system", 50, 1)),
            line("restaurant", Row::at(120).tag("town", "reading").unsigned("count", 632).dec("system", 50, 1)),
            line("restaurant", Row::at(110).tag("town", "bedford").unsigned("count", 189).dec("system", 70, 1)),
            line("restaurant", Row::at(110).tag("town", "tewsbury").unsigned("count", 471).dec("system", 60, 1)),
            line("restaurant", Row::at(100).tag("town", "lexington").unsigned("count", 372).dec("system", 50, 1)),
            line("restaurant", Row::at(110).tag("town", "lawrence").unsigned("count", 872).dec("system", 60, 1)),
            line("restaurant", Row::at(130).tag("town", "reading").unsigned("count", 632).dec("system", 60, 1)),
            line("school", Row::at(150).tag("town", "reading").unsigned("count", 17).dec("system", 60, 1)),
            line("school", Row::at(160).tag("town", "andover").unsigned("count", 25).dec("system", 60, 1)),
        ];
        make_one_rub_or_parquet_chunk_scenario(&lines, "1970-01-01T00")
    }
}

/// Two chunks whose schemas differ and merge.
#[derive(Debug)]
pub struct MultiChunkSchemaMerge {}

impl MultiChunkSchemaMerge {
    pub fn make(&self) -> (r: Vec<DbScenario>)
        ensures
            r@.len() == 4,
            forall|i: int| 0 <= i < r@.len() ==> (#[trigger] r@[i]).db.wf(),
    {
        let first: Vec<Line> = vec![
            line("cpu", Row::at(100).tag("region", "west").dec("user", 232, 1).dec("system", 50, 1)),
            line("cpu", Row::at(150).tag("region", "west").dec("user", 210, 1).dec("system", 60, 1)),
        ];
        let second: Vec<Line> = vec![
            line("cpu", Row::at(100).tag("region", "east").tag("host", "foo").dec("user", 232, 1)),
            line("cpu", Row::at(250).tag("region", "west").tag("host", "bar").dec("user", 210, 1)),
        ];
        make_two_chunk_scenarios(&first, &second, "1970-01-01T00")
    }
}

/// Two measurements with many null tags, over two chunks.
#[derive(Debug)]
pub struct TwoMeasurementsManyNulls {}

impl TwoMeasurementsManyNulls {
    pub fn make(&self) -> (r: Vec<DbScenario>)
        ensures
            r@.len() == 4,
            forall|i: int| 0 <= i < r@.len() ==> (#[trigger] r@[i]).db.wf(),
    {
        let first: Vec<Line> = vec![
            line("h2o", Row::at(100).tag("state", "CA").tag("city", "LA").tag("county", "LA").dec("temp", 704, 1)),
            line("h2o", Row::at(250).tag("state", "MA").tag("city", "Boston").tag("county", "Suffolk").dec("temp", 724, 1)),
            line("o2", Row::at(200).tag("state", "MA").tag("city", "Boston").dec("temp", 504, 1)),
            line("o2", Row::at(300).tag("state", "CA").dec("temp", 790, 1)),
        ];
        let second: Vec<Line> = vec![
            line("o2", Row::at(400).tag("state", "NY").dec("temp", 608, 1)),
            line("o2", Row::at(500).tag("state", "NY").tag("city", "NYC").dec("temp", 610, 1)),
            line("o2", Row::at(600).tag("state", "NY").tag("city", "NYC").tag("borough", "Brooklyn").dec("temp", 610, 1)),
        ];
        make_two_chunk_scenarios(&first, &second, "1970-01-01T00")
    }
}

/// Two measurements with many fields, over two chunks.
#[derive(Debug)]
pub struct TwoMeasurementsManyFields {}

impl TwoMeasurementsManyFields {
    pub fn make(&self) -> (r: Vec<DbScenario>)
        ensures
            r@.len() == 4,
            forall|i: int| 0 <= i < r@.len() ==> (#[trigger] r@[i]).db.wf(),
    {
        let first: Vec<Line> = vec![
            line("h2o", Row::at(50).tag("state", "MA").tag("city", "Boston").dec("temp", 704, 1)),
            line("h2o", Row::at(250).tag("state", "MA").tag("city", "Boston").dec("other_temp", 704, 1)),
            line("h2o", Row::at(350).tag("state", "CA").tag("city", "Boston").dec("other_temp", 724, 1)),
            line("o2", Row::at(50).tag("state", "MA").tag("city", "Boston").dec("temp", 534, 1).dec("reading", 51, 0)),
            line("o2", Row::at(300).tag("state", "CA").dec("temp", 790, 1)),
        ];
        let second: Vec<Line> = vec![
            line("h2o", Row::at(100000).tag("state", "MA").tag("city", "Boston").dec("temp", 704, 1).dec("moisture", 430, 1)),
        ];
        make_two_chunk_scenarios(&first, &second, "1970-01-01T00")
    }
}

/// Two measurements with many fields in one chunk.
#[derive(Debug)]
pub struct TwoMeasurementsManyFieldsOneChunk {}

impl TwoMeasurementsManyFieldsOneChunk {
    pub fn make(&self) -> (r: Vec<DbScenario>)
        ensures
            r@.len() == 4,
            forall|i: int| 0 <= i < r@.len() ==> (#[trigger] r@[i]).db.wf(),
    {
        let lines: Vec<Line> = vec![
            line("h2o", Row::at(50).tag("state", "MA").tag("city", "Boston").dec("temp", 704, 1)),
            line("h2o", Row::at(250).tag("state", "MA").tag("city", "Boston").dec("other_temp", 704, 1)),
            line("h2o", Row::at(350).tag("state", "CA").tag("city", "Boston").dec("other_temp", 724, 1)),
            line("o2", Row::at(50).tag("state", "MA").tag("city", "Boston").dec("temp", 534, 1).dec("reading", 51, 0)),
            line("o2", Row::at(300).tag("state", "CA").dec("temp", 790, 1)),
        ];
        let before: Vec<DeletePredicate> = Vec::new();
        let after: Vec<DeletePredicate> = Vec::new();
        all_scenarios_for_one_chunk(&before, &after, &lines, "h2o", "1970-01-01T00")
    }
}

/// One measurement with many fields and duplicate keys.
#[derive(Debug)]
pub struct OneMeasurementManyFields {}

impl OneMeasurementManyFields {
    pub fn make(&self) -> (r: Vec<DbScenario>)
        ensures
            r@.len() == 4,
            forall|i: int| 0 <= i < r@.len() ==> (#[trigger] r@[i]).db.wf(),
    {
        let lines: Vec<Line> = vec![
            line("h2o", Row::at(100).tag("tag1", "foo").tag("tag2", "bar").dec("field1", 706, 1).dec("field3", 2, 0)),
            line("h2o", Row::at(100).tag("tag1", "foo").tag("tag2", "bar").dec("field1", 704, 1).string("field2", "ss")),
            line("h2o", Row::at(100).tag("tag1", "foo").tag("tag2", "bar").dec("field1", 705, 1).string("field2", "ss")),
            line("h2o", Row::at(1000).tag("tag1", "foo").tag("tag2", "bar").dec("field1", 706, 1).boolean("field4", true)),
            line("h2o", Row::at(3000).tag("tag1", "foo").tag("tag2", "bar").dec("field1", 703, 1).boolean("field5", false)),
        ];
        let before: Vec<DeletePredicate> = Vec::new();
        let after: Vec<DeletePredicate> = Vec::new();
        all_scenarios_for_one_chunk(&before, &after, &lines, "h2o", "1970-01-01T00")
    }
}

/// As `OneMeasurementManyFields`, with 1000..=1100 deleted.
#[derive(Debug)]
pub struct OneMeasurementManyFieldsWithDelete {}

impl OneMeasurementManyFieldsWithDelete {
    pub fn make(&self) -> (r: Vec<DbScenario>)
        ensures
            r@.len() == 4,
            forall|i: int| 0 <= i < r@.len() ==> (#[trigger] r@[i]).db.wf(),
    {
        let lines: Vec<Line> = vec![
            line("h2o", Row::at(100).tag("tag1", "foo").tag("tag2", "bar").dec("field1", 706, 1).dec("field3", 2, 0)),
            line("h2o", Row::at(100).tag("tag1", "foo").tag("tag2", "bar").dec("field1", 704, 1).string("field2", "ss")),
            line("h2o", Row::at(100).tag("tag1", "foo").tag("tag2", "bar").dec("field1", 705, 1).string("field2", "ss")),
            line("h2o", Row::at(1000).tag("tag1", "foo").tag("tag2", "bar").dec("field1", 706, 1).boolean("field4", true)),
            line("h2o", Row::at(3000).tag("tag1", "foo").tag("tag2", "bar").dec("field1", 703, 1).boolean("field5", false)),
        ];
        let before: Vec<DeletePredicate> = vec![
            DeletePredicate::new(1, TimestampRange::new(1000, 1100), Vec::new()),
        ];
        let after: Vec<DeletePredicate> = Vec::new();
        all_scenarios_for_one_chunk(&before, &after, &lines, "h2o", "1970-01-01T00")
    }
}

/// The data of the end-to-end tests.
#[derive(Debug)]
pub struct EndToEndTest {}

impl EndToEndTest {
    pub fn make(&self) -> (r: Vec<DbScenario>)
        ensures
            r@.len() == 4,
            forall|i: int| 0 <= i < r@.len() ==> (#[trigger] r@[i]).db.wf(),
    {
        let lines: Vec<Line> = vec![
            line("cpu_load_short", Row::at(0).tag("host", "server01").tag("region", "us-west").dec("value", 64, 2)),
            line("cpu_load_short", Row::at(1000).tag("host", "server01").dec("value", 2799, 2)),
            line("cpu_load_short", Row::at(2000).tag("host", "server02").tag("region", "us-west").dec("value", 389, 2)),
            line("cpu_load_short", Row::at(3000).tag("host", "server01").tag("region", "us-east").dec("value", 1234567891011, 6)),
            line("cpu_load_short", Row::at(4000).tag("host", "server01").tag("region", "us-west").dec("value", 3, 6)),
            line("system", Row::at(5000).tag("host", "server03").dec("uptime", 1303385, 0)),
            line("swap", Row::at(6000).tag("host", "server01").tag("name", "disk0").dec("in", 3, 0).dec("out", 4, 0)),
            line("status", Row::at(7000).boolean("active", true)),
            line("attributes", Row::at(8000).string("color", "blue")),
        ];
        let before: Vec<DeletePredicate> = Vec::new();
        let after: Vec<DeletePredicate> = Vec::new();
        all_scenarios_for_one_chunk(&before, &after, &lines, "cpu_load_short", "1970-01-01T00")
    }
}

/// As `EndToEndTest`, with disk0 deleted at 6000.
#[derive(Debug)]
pub struct EndToEndTestWithDelete {}

impl EndToEndTestWithDelete {
    pub fn make(&self) -> (r: Vec<DbScenario>)
        ensures
            r@.len() == 4,
            forall|i: int| 0 <= i < r@.len() ==> (#[trigger] r@[i]).db.wf(),
    {
        let lines: Vec<Line> = vec![
            line("cpu_load_short", Row::at(0).tag("host", "server01").tag("region", "us-west").dec("value", 64, 2)),
            line("cpu_load_short", Row::at(1000).tag("host", "server01").dec("value", 2799, 2)),
            line("cpu_load_short", Row::at(2000).tag("host", "server02").tag("region", "us-west").dec("value", 389, 2)),
            line("cpu_load_short", Row::at(3000).tag("host", "server01").tag("region", "us-east").dec("value", 1234567891011, 6)),
            line("cpu_load_short", Row::at(4000).tag("host", "server01").tag("region", "us-west").dec("value", 3, 6)),
            line("system", Row::at(5000).tag("host", "server03").dec("uptime", 1303385, 0)),
            line("swap", Row::at(6000).tag("host", "server01").tag("name", "disk0").dec("in", 3, 0).dec("out", 4, 0)),
            line("status", Row::at(7000).boolean("active", true)),
            line("attributes", Row::at(8000).string("color", "blue")),
        ];
        let before: Vec<DeletePredicate> = vec![
            DeletePredicate::new(1, TimestampRange::new(6000, 6000), vec![DeleteExpr::new("name".to_owned(), Op::Eq, Scalar::String("disk0".to_owned()))]),
        ];
        let after: Vec<DeletePredicate> = Vec::new();
        all_scenarios_for_one_chunk(&before, &after, &lines, "swap", "1970-01-01T00")
    }
}

/// Two measurements with several series, written out of order.
#[derive(Debug)]
pub struct TwoMeasurementsMultiSeries {}

impl TwoMeasurementsMultiSeries {
    pub fn make(&self) -> (r: Vec<DbScenario>)
        ensures
            r@.len() == 4,
            forall|i: int| 0 <= i < r@.len() ==> (#[trigger] r@[i]).db.wf(),
    {
        let lines: Vec<Line> = vec![
            line("h2o", Row::at(200).tag("state", "CA").tag("city", "LA").dec("temp", 900, 1)),
            line("h2o", Row::at(250).tag("state", "MA").tag("city", "Boston").dec("temp", 724, 1)),
            line("h2o", Row::at(100).tag("state", "MA").tag("city", "Boston").dec("temp", 704, 1)),
            line("h2o", Row::at(350).tag("state", "CA").tag("city", "LA").dec("temp", 900, 1)),
            line("o2", Row::at(250).tag("state", "MA").tag("city", "Boston").dec("temp", 534, 1).dec("reading", 51, 0)),
            line("o2", Row::at(100).tag("state", "MA").tag("city", "Boston").dec("temp", 504, 1).dec("reading", 50, 0)),
        ];
        let before: Vec<DeletePredicate> = Vec::new();
        let after: Vec<DeletePredicate> = Vec::new();
        all_scenarios_for_one_chunk(&before, &after, &lines, "h2o", "1970-01-01T00")
    }
}

/// As `TwoMeasurementsMultiSeries`, with h2o deleted in 120..=250.
#[derive(Debug)]
pub struct TwoMeasurementsMultiSeriesWithDelete {}

impl TwoMeasurementsMultiSeriesWithDelete {
    pub fn make(&self) -> (r: Vec<DbScenario>)
        ensures
            r@.len() == 4,
            forall|i: int| 0 <= i < r@.len() ==> (#[trigger] r@[i]).db.wf(),
    {
        let lines: Vec<Line> = vec![
            line("h2o", Row::at(200).tag("state", "CA").tag("city", "LA").dec("temp", 900, 1)),
            line("h2o", Row::at(250).tag("state", "MA").tag("city", "Boston").dec("temp", 724, 1)),
            line("h2o", Row::at(100).tag("state", "MA").tag("city", "Boston").dec("temp", 704, 1)),
            line("h2o", Row::at(350).tag("state", "CA").tag("city", "LA").dec("temp", 900, 1)),
            line("o2", Row::at(250).tag("state", "MA").tag("city", "Boston").dec("temp", 534, 1).dec("reading", 51, 0)),
            line("o2", Row::at(100).tag("state", "MA").tag("city", "Boston").dec("temp", 504, 1).dec("reading", 50, 0)),
        ];
        let before: Vec<DeletePredicate> = vec![
            DeletePredicate::new(1, TimestampRange::new(120, 250), Vec::new()),
        ];
        let after: Vec<DeletePredicate> = Vec::new();
        all_scenarios_for_one_chunk(&before, &after, &lines, "h2o", "1970-01-01T00")
    }
}

/// As `TwoMeasurementsMultiSeries`, with all of h2o deleted.
#[derive(Debug)]
pub struct TwoMeasurementsMultiSeriesWithDeleteAll {}

impl TwoMeasurementsMultiSeriesWithDeleteAll {
    pub fn make(&self) -> (r: Vec<DbScenario>)
        ensures
            r@.len() == 4,
            forall|i: int| 0 <= i < r@.len() ==> (#[trigger] r@[i]).db.wf(),
    {
        let lines: Vec<Line> = vec![
            line("h2o", Row::at(200).tag("state", "CA").tag("city", "LA").dec("temp", 900, 1)),
            line("h2o", Row::at(250).tag("state", "MA").tag("city", "Boston").dec("temp", 724, 1)),
            line("h2o", Row::at(100).tag("state", "MA").tag("city", "Boston").dec("temp", 704, 1)),
            line("h2o", Row::at(350).tag("state", "CA").tag("city", "LA").dec("temp", 900, 1)),
            line("o2", Row::at(250).tag("state", "MA").tag("city", "Boston").dec("temp", 534, 1).dec("reading", 51, 0)),
            line("o2", Row::at(100).tag("state", "MA").tag("city", "Boston").dec("temp", 504, 1).dec("reading", 50, 0)),
        ];
        let before: Vec<DeletePredicate> = vec![
            DeletePredicate::new(1, TimestampRange::new(100, 360), Vec::new()),
        ];
        let after: Vec<DeletePredicate> = Vec::new();
        all_scenarios_for_one_chunk(&before, &after, &lines, "h2o", "1970-01-01T00")
    }
}

/// Status codes by url.
#[derive(Debug)]
pub struct MeasurementStatusCode {}

impl MeasurementStatusCode {
    pub fn make(&self) -> (r: Vec<DbScenario>)
        ensures
            r@.len() == 4,
            forall|i: int| 0 <= i < r@.len() ==> (#[trigger] r@[i]).db.wf(),
    {
        let lines: Vec<Line> = vec![
            line("status_code", Row::at(1527018806000000000).tag("url", "http://www.example.com").dec("value", 404, 0)),
            line("status_code", Row::at(1527018816000000000).tag("url", "https://influxdb.com").dec("value", 418, 0)),
        ];
        let before: Vec<DeletePredicate> = Vec::new();
        let after: Vec<DeletePredicate> = Vec::new();
        all_scenarios_for_one_chunk(&before, &after, &lines, "status_code", "2018-05-22T19")
    }
}

/// Rows whose tag sets sort in different orders.
#[derive(Debug)]
pub struct MeasurementsSortableTags {}

impl MeasurementsSortableTags {
    pub fn make(&self) -> (r: Vec<DbScenario>)
        ensures
            r@.len() == 4,
            forall|i: int| 0 <= i < r@.len() ==> (#[trigger] r@[i]).db.wf(),
    {
        let lines: Vec<Line> = vec![
            line("h2o", Row::at(800).tag("zz_tag", "A").tag("state", "MA").tag("city", "Kingston").dec("temp", 701, 1)),
            line("h2o", Row::at(100).tag("state", "MA").tag("city", "Kingston").tag("zz_tag", "B").dec("temp", 702, 1)),
            line("h2o", Row::at(250).tag("state", "CA").tag("city", "Boston").dec("temp", 703, 1)),
            line("h2o", Row::at(1000).tag("state", "MA").tag("city", "Boston").tag("zz_tag", "A").dec("temp", 704, 1)),
            line("h2o", Row::at(250).tag("state", "MA").tag("city", "Boston").dec("temp", 705, 1).dec("other", 50, 1)),
        ];
        let before: Vec<DeletePredicate> = Vec::new();
        let after: Vec<DeletePredicate> = Vec::new();
        all_scenarios_for_one_chunk(&before, &after, &lines, "h2o", "1970-01-01T00")
    }
}

/// As `MeasurementsSortableTags`, with state CA deleted in 120..=350.
#[derive(Debug)]
pub struct MeasurementsSortableTagsWithDelete {}

impl MeasurementsSortableTagsWithDelete {
    pub fn make(&self) -> (r: Vec<DbScenario>)
        ensures
            r@.len() == 4,
            forall|i: int| 0 <= i < r@.len() ==> (#[trigger] r@[i]).db.wf(),
    {
        let lines: Vec<Line> = vec![
            line("h2o", Row::at(800).tag("zz_tag", "A").tag("state", "MA").tag("city", "Kingston").dec("temp", 701, 1)),
            line("h2o", Row::at(100).tag("state", "MA").tag("city", "Kingston").tag("zz_tag", "B").dec("temp", 702, 1)),
            line("h2o", Row::at(250).tag("state", "CA").tag("city", "Boston").dec("temp", 703, 1)),
            line("h2o", Row::at(1000).tag("state", "MA").tag("city", "Boston").tag("zz_tag", "A").dec("temp", 704, 1)),
            line("h2o", Row::at(250).tag("state", "MA").tag("city", "Boston").dec("temp", 705, 1).dec("other", 50, 1)),
        ];
        let before: Vec<DeletePredicate> = vec![
            DeletePredicate::new(1, TimestampRange::new(120, 350), vec![DeleteExpr::new("state".to_owned(), Op::Eq, Scalar::String("CA".to_owned()))]),
        ];
        let after: Vec<DeletePredicate> = Vec::new();
        all_scenarios_for_one_chunk(&before, &after, &lines, "h2o", "1970-01-01T00")
    }
}

/// Fields that appear in some rows of a series only.
#[derive(Debug)]
pub struct MeasurementsForDefect2845 {}

impl MeasurementsForDefect2845 {
    pub fn make(&self) -> (r: Vec<DbScenario>)
        ensures
            r@.len() == 4,
            forall|i: int| 0 <= i < r@.len() ==> (#[trigger] r@[i]).db.wf(),
    {
        let lines: Vec<Line> = vec![
            line("system", Row::at(1527018806000000000).tag("host", "host.local").dec("load1", 183, 2)),
            line("system", Row::at(1527018816000000000).tag("host", "host.local").dec("load1", 163, 2)),
            line("system", Row::at(1527018806000000000).tag("host", "host.local").dec("load3", 172, 2)),
            line("system", Row::at(1527018806000000000).tag("host", "host.local").dec("load4", 177, 2)),
            line("system", Row::at(1527018816000000000).tag("host", "host.local").dec("load4", 178, 2)),
            line("system", Row::at(1527018826000000000).tag("host", "host.local").dec("load4", 177, 2)),
        ];
        let before: Vec<DeletePredicate> = Vec::new();
        let after: Vec<DeletePredicate> = Vec::new();
        all_scenarios_for_one_chunk(&before, &after, &lines, "system", "2018-05-22T19")
    }
}

/// Two measurements with many fields in one compacted chunk each.
#[derive(Debug)]
pub struct OldTwoMeasurementsManyFieldsOneRubChunk {}

impl OldTwoMeasurementsManyFieldsOneRubChunk {
    pub fn make(&self) -> (r: Vec<DbScenario>)
        ensures
            r@.len() == 1,
            forall|i: int| 0 <= i < r@.len() ==> (#[trigger] r@[i]).db.wf(),
    {
        let batches: Vec<Vec<Line>> = vec![
            vec![
                line("h2o", Row::at(50).tag("state", "MA").tag("city", "Boston").dec("temp", 704, 1)),
                line("h2o", Row::at(250).tag("state", "MA").tag("city", "Boston").dec("other_temp", 704, 1)),
                line("h2o", Row::at(350).tag("state", "CA").tag("city", "Boston").dec("other_temp", 724, 1)),
                line("o2", Row::at(50).tag("state", "MA").tag("city", "Boston").dec("temp", 534, 1).dec("reading", 51, 0)),
                line("o2", Row::at(300).tag("state", "CA").dec("temp", 790, 1)),
            ],
        ];
        let stages: Vec<ChunkStage> = vec![ChunkStage::Compacted];
        make_staged_scenario(&batches, &stages, "1970-01-01T00", "Data in single chunk of read buffer")
    }
}

/// A compacted chunk and an open chunk per table.
#[derive(Debug)]
pub struct TwoMeasurementsManyFieldsTwoChunks {}

impl TwoMeasurementsManyFieldsTwoChunks {
    pub fn make(&self) -> (r: Vec<DbScenario>)
        ensures
            r@.len() == 1,
            forall|i: int| 0 <= i < r@.len() ==> (#[trigger] r@[i]).db.wf(),
    {
        let batches: Vec<Vec<Line>> = vec![
            vec![
                line("h2o", Row::at(50).tag("state", "MA").tag("city", "Boston").dec("temp", 704, 1)),
                line("h2o", Row::at(250).tag("state", "MA").tag("city", "Boston").dec("other_temp", 704, 1)),
            ],
            vec![
                line("h2o", Row::at(350).tag("state", "CA").tag("city", "Boston").dec("other_temp", 724, 1)),
                line("o2", Row::at(50).tag("state", "MA").tag("city", "Boston").dec("temp", 534, 1).dec("reading", 51, 0)),
                line("o2", Row::at(300).tag("state", "CA").dec("temp", 790, 1)),
            ],
        ];
        let stages: Vec<ChunkStage> = vec![ChunkStage::Compacted];
        make_staged_scenario(&batches, &stages, "1970-01-01T00", "Data in two open mutable buffer chunks per table and read buffer")
    }
}

/// Two compacted chunks whose rows have different tag sets.
#[derive(Debug)]
pub struct OneMeasurementTwoChunksDifferentTagSet {}

impl OneMeasurementTwoChunksDifferentTagSet {
    pub fn make(&self) -> (r: Vec<DbScenario>)
        ensures
            r@.len() == 1,
            forall|i: int| 0 <= i < r@.len() ==> (#[trigger] r@[i]).db.wf(),
    {
        let batches: Vec<Vec<Line>> = vec![
            vec![
                line("h2o", Row::at(50).tag("state", "MA").dec("temp", 704, 1)),
                line("h2o", Row::at(250).tag("state", "MA").dec("other_temp", 704, 1)),
            ],
            vec![
                line("h2o", Row::at(350).tag("city", "Boston").dec("other_temp", 724, 1)),
                line("h2o", Row::at(50).tag("city", "Boston").dec("temp", 534, 1).dec("reading", 51, 0)),
            ],
        ];
        let stages: Vec<ChunkStage> = vec![ChunkStage::Compacted, ChunkStage::Compacted];
        make_staged_scenario(&batches, &stages, "1970-01-01T00", "2 chunks in read buffer")
    }
}

/// Four compacted chunks that repeat primary keys within and across chunks.
#[derive(Debug)]
pub struct OneMeasurementFourChunksWithDuplicates {}

impl OneMeasurementFourChunksWithDuplicates {
    pub fn make(&self) -> (r: Vec<DbScenario>)
        ensures
            r@.len() == 1,
            forall|i: int| 0 <= i < r@.len() ==> (#[trigger] r@[i]).db.wf(),
    {
        let batches: Vec<Vec<Line>> = vec![
            vec![
                line("h2o", Row::at(50).tag("state", "MA").tag("city", "Boston").dec("min_temp", 704, 1)),
                line("h2o", Row::at(150).tag("state", "MA").tag("city", "Bedford").dec("min_temp", 7159, 2)),
                line("h2o", Row::at(250).tag("state", "MA").tag("city", "Boston").dec("max_temp", 754, 1)),
                line("h2o", Row::at(250).tag("state", "MA").tag("city", "Andover").dec("max_temp", 692, 1)),
            ],
            vec![
                line("h2o", Row::at(150).tag("state", "MA").tag("city", "Bedford").dec("max_temp", 7875, 2).unsigned("area", 742)),
                line("h2o", Row::at(250).tag("state", "MA").tag("city", "Boston").dec("min_temp", 654, 1)),
                line("h2o", Row::at(250).tag("state", "MA").tag("city", "Reading").dec("min_temp", 534, 1)),
                line("h2o", Row::at(300).tag("state", "CA").tag("city", "SF").dec("min_temp", 790, 1).dec("max_temp", 872, 1).unsigned("area", 500)),
                line("h2o", Row::at(300).tag("state", "CA").tag("city", "SJ").dec("min_temp", 785, 1).dec("max_temp", 880, 1)),
                line("h2o", Row::at(350).tag("state", "CA").tag("city", "SJ").dec("min_temp", 755, 1).dec("max_temp", 8408, 2)),
            ],
            vec![
                line("h2o", Row::at(400).tag("state", "MA").tag("city", "Bedford").dec("max_temp", 8075, 2).unsigned("area", 742)),
                line("h2o", Row::at(400).tag("state", "MA").tag("city", "Boston").dec("min_temp", 684, 1)),
                line("h2o", Row::at(400).tag("state", "MA").tag("city", "Bedford").dec("min_temp", 6522, 2).unsigned("area", 750)),
                line("h2o", Row::at(400).tag("state", "MA").tag("city", "Boston").dec("min_temp", 6540, 2).dec("max_temp", 8267, 2)),
                line("h2o", Row::at(450).tag("state", "CA").tag("city", "SJ").dec("min_temp", 770, 1).dec("max_temp", 907, 1)),
                line("h2o", Row::at(500).tag("state", "CA").tag("city", "SJ").dec("min_temp", 695, 1).dec("max_temp", 882, 1)),
            ],
            vec![
                line("h2o", Row::at(600).tag("state", "MA").tag("city", "Bedford").dec("max_temp", 8875, 2).unsigned("area", 742)),
                line("h2o", Row::at(600).tag("state", "MA").tag("city", "Boston").dec("min_temp", 674, 1)),
                line("h2o", Row::at(600).tag("state", "MA").tag("city", "Reading").dec("min_temp", 604, 1)),
                line("h2o", Row::at(650).tag("state", "CA").tag("city", "SF").dec("min_temp", 684, 1).dec("max_temp", 857, 1).unsigned("area", 500)),
                line("h2o", Row::at(650).tag("state", "CA").tag("city", "SJ").dec("min_temp", 695, 1).dec("max_temp", 892, 1)),
                line("h2o", Row::at(700).tag("state", "CA").tag("city", "SJ").dec("min_temp", 755, 1).dec("max_temp", 8408, 2)),
            ],
        ];
        let stages: Vec<ChunkStage> = vec![ChunkStage::Compacted, ChunkStage::Compacted, ChunkStage::Compacted, ChunkStage::Compacted];
        make_staged_scenario(&batches, &stages, "1970-01-01T00", "Data in four chunks with duplicates")
    }
}

/// A persisted chunk and an open chunk of one table.
#[derive(Debug)]
pub struct TwoMeasurementsManyFieldsLifecycle {}

impl TwoMeasurementsManyFieldsLifecycle {
    pub fn make(&self) -> (r: Vec<DbScenario>)
        ensures
            r@.len() == 1,
            forall|i: int| 0 <= i < r@.len() ==> (#[trigger] r@[i]).db.wf(),
    {
        let batches: Vec<Vec<Line>> = vec![
            vec![
                line("h2o", Row::at(50).tag("state", "MA").tag("city", "Boston").dec("temp", 704, 1)),
                line("h2o", Row::at(250).tag("state", "MA").tag("city", "Boston").dec("other_temp", 704, 1)),
            ],
            vec![
                line("h2o", Row::at(350).tag("state", "CA").tag("city", "Boston").dec("other_temp", 724, 1)),
            ],
        ];
        let stages: Vec<ChunkStage> = vec![ChunkStage::Persisted];
        make_staged_scenario(&batches, &stages, "1970-01-01T00", "Data in parquet, RUB, and MUB")
    }
}

/// A measurement without tags, two rows.
#[derive(Debug)]
pub struct OneMeasurementNoTags2 {}

impl OneMeasurementNoTags2 {
    pub fn make(&self) -> (r: Vec<DbScenario>)
        ensures
            r@.len() == 4,
            forall|i: int| 0 <= i < r@.len() ==> (#[trigger] r@[i]).db.wf(),
    {
        let lines: Vec<Line> = vec![
            line("m0", Row::at(1).dec("foo", 10, 1)),
            line("m0", Row::at(2).dec("foo", 20, 1)),
        ];
        let before: Vec<DeletePredicate> = Vec::new();
        let after: Vec<DeletePredicate> = Vec::new();
        all_scenarios_for_one_chunk(&before, &after, &lines, "m0", "1970-01-01T00")
    }
}

/// As `OneMeasurementNoTags2`, with every row deleted.
#[derive(Debug)]
pub struct OneMeasurementNoTagsWithDeleteAllWithAndWithoutChunk {}

impl OneMeasurementNoTagsWithDeleteAllWithAndWithoutChunk {
    pub fn make(&self) -> (r: Vec<DbScenario>)
        ensures
            r@.len() == 4,
            forall|i: int| 0 <= i < r@.len() ==> (#[trigger] r@[i]).db.wf(),
    {
        let lines: Vec<Line> = vec![
            line("m0", Row::at(1).dec("foo", 10, 1)),
            line("m0", Row::at(2).dec("foo", 20, 1)),
        ];
        let before: Vec<DeletePredicate> = vec![
            DeletePredicate::new(1, TimestampRange::new(1, 2), Vec::new()),
        ];
        let after: Vec<DeletePredicate> = Vec::new();
        all_scenarios_for_one_chunk(&before, &after, &lines, "m0", "1970-01-01T00")
    }
}

/// Two series of one measurement, over two chunks.
#[derive(Debug)]
pub struct OneMeasurementForAggs {}

impl OneMeasurementForAggs {
    pub fn make(&self) -> (r: Vec<DbScenario>)
        ensures
            r@.len() == 4,
            forall|i: int| 0 <= i < r@.len() ==> (#[trigger] r@[i]).db.wf(),
    {
        let first: Vec<Line> = vec![
            line("h2o", Row::at(100).tag("state", "MA").tag("city", "Boston").dec("temp", 704, 1)),
            line("h2o", Row::at(250).tag("state", "MA").tag("city", "Boston").dec("temp", 724, 1)),
        ];
        let second: Vec<Line> = vec![
            line("h2o", Row::at(200).tag("state", "CA").tag("city", "LA").dec("temp", 900, 1)),
            line("h2o", Row::at(350).tag("state", "CA").tag("city", "LA").dec("temp", 900, 1)),
        ];
        make_two_chunk_scenarios(&first, &second, "1970-01-01T00")
    }
}

/// Three series of one measurement, over two chunks.
#[derive(Debug)]
pub struct AnotherMeasurementForAggs {}

impl AnotherMeasurementForAggs {
    pub fn make(&self) -> (r: Vec<DbScenario>)
        ensures
            r@.len() == 4,
            forall|i: int| 0 <= i < r@.len() ==> (#[trigger] r@[i]).db.wf(),
    {
        let first: Vec<Line> = vec![
            line("h2o", Row::at(50).tag("state", "MA").tag("city", "Cambridge").dec("temp", 80, 0)),
            line("h2o", Row::at(100).tag("state", "MA").tag("city", "Cambridge").dec("temp", 81, 0)),
            line("h2o", Row::at(200).tag("state", "MA").tag("city", "Cambridge").dec("temp", 82, 0)),
            line("h2o", Row::at(300).tag("state", "MA").tag("city", "Boston").dec("temp", 70, 0)),
        ];
        let second: Vec<Line> = vec![
            line("h2o", Row::at(400).tag("state", "MA").tag("city", "Boston").dec("temp", 71, 0)),
            line("h2o", Row::at(500).tag("state", "CA").tag("city", "LA").dec("temp", 90, 0).dec("humidity", 10, 0)),
            line("h2o", Row::at(600).tag("state", "CA").tag("city", "LA").dec("temp", 91, 0).dec("humidity", 11, 0)),
        ];
        make_two_chunk_scenarios(&first, &second, "1970-01-01T00")
    }
}

/// Two measurements, one per chunk.
#[derive(Debug)]
pub struct TwoMeasurementForAggs {}

impl TwoMeasurementForAggs {
    pub fn make(&self) -> (r: Vec<DbScenario>)
        ensures
            r@.len() == 4,
            forall|i: int| 0 <= i < r@.len() ==> (#[trigger] r@[i]).db.wf(),
    {
        let first: Vec<Line> = vec![
            line("h2o", Row::at(100).tag("state", "MA").tag("city", "Boston").dec("temp", 704, 1)),
            line("h2o", Row::at(250).tag("state", "MA").tag("city", "Boston").dec("temp", 724, 1)),
        ];
        let second: Vec<Line> = vec![
            line("o2", Row::at(200).tag("state", "CA").tag("city", "LA").dec("temp", 900, 1)),
            line("o2", Row::at(350).tag("state", "CA").tag("city", "LA").dec("temp", 900, 1)),
        ];
        make_two_chunk_scenarios(&first, &second, "1970-01-01T00")
    }
}

/// Fields of every type, over two chunks.
#[derive(Debug)]
pub struct MeasurementForSelectors {}

impl MeasurementForSelectors {
    pub fn make(&self) -> (r: Vec<DbScenario>)
        ensures
            r@.len() == 4,
            forall|i: int| 0 <= i < r@.len() ==> (#[trigger] r@[i]).db.wf(),
    {
        let first: Vec<Line> = vec![
            line("h2o", Row::at(1000).tag("state", "MA").tag("city", "Cambridge").dec("f", 80, 1).integer("i", 8).boolean("b", true).string("s", "d")),
        ];
        let second: Vec<Line> = vec![
            line("h2o", Row::at(2000).tag("state", "MA").tag("city", "Cambridge").dec("f", 70, 1).integer("i", 7).boolean("b", true).string("s", "c")),
            line("h2o", Row::at(3000).tag("state", "MA").tag("city", "Cambridge").dec("f", 60, 1).integer("i", 6).boolean("b", false).string("s", "b")),
            line("h2o", Row::at(4000).tag("state", "MA").tag("city", "Cambridge").dec("f", 50, 1).integer("i", 5).boolean("b", false).string("s", "a")),
        ];
        make_two_chunk_scenarios(&first, &second, "1970-01-01T00")
    }
}

/// Fields of every type whose smallest values lie in different chunks.
#[derive(Debug)]
pub struct MeasurementForMin {}

impl MeasurementForMin {
    pub fn make(&self) -> (r: Vec<DbScenario>)
        ensures
            r@.len() == 4,
            forall|i: int| 0 <= i < r@.len() ==> (#[trigger] r@[i]).db.wf(),
    {
        let first: Vec<Line> = vec![
            line("h2o", Row::at(1000).tag("state", "MA").tag("city", "Cambridge").dec("f", 80, 1).integer("i", 8).boolean("b", false).string("s", "c")),
            line("h2o", Row::at(2000).tag("state", "MA").tag("city", "Cambridge").dec("f", 70, 1).integer("i", 7).boolean("b", true).string("s", "a")),
        ];
        let second: Vec<Line> = vec![
            line("h2o", Row::at(3000).tag("state", "MA").tag("city", "Cambridge").dec("f", 60, 1).integer("i", 6).boolean("b", true).string("s", "z")),
            line("h2o", Row::at(4000).tag("state", "MA").tag("city", "Cambridge").dec("f", 50, 1).integer("i", 5).boolean("b", false).string("s", "c")),
        ];
        make_two_chunk_scenarios(&first, &second, "1970-01-01T00")
    }
}

/// Fields of every type whose largest values lie in different chunks.
#[derive(Debug)]
pub struct MeasurementForMax {}

impl MeasurementForMax {
    pub fn make(&self) -> (r: Vec<DbScenario>)
        ensures
            r@.len() == 4,
            forall|i: int| 0 <= i < r@.len() ==> (#[trigger] r@[i]).db.wf(),
    {
        let first: Vec<Line> = vec![
            line("h2o", Row::at(1000).tag("state", "MA").tag("city", "Cambridge").dec("f", 80, 1).integer("i", 8).boolean("b", true).string("s", "c")),
            line("h2o", Row::at(2000).tag("state", "MA").tag("city", "Cambridge").dec("f", 70, 1).integer("i", 7).boolean("b", false).string("s", "d")),
            line("h2o", Row::at(3000).tag("state", "MA").tag("city", "Cambridge").dec("f", 60, 1).integer("i", 6).boolean("b", true).string("s", "a")),
        ];
        let second: Vec<Line> = vec![
            line("h2o", Row::at(4000).tag("state", "MA").tag("city", "Cambridge").dec("f", 50, 1).integer("i", 5).boolean("b", false).string("s", "z")),
        ];
        make_two_chunk_scenarios(&first, &second, "1970-01-01T00")
    }
}

/// Series to group by tag, over two chunks.
#[derive(Debug)]
pub struct MeasurementForGroupKeys {}

impl MeasurementForGroupKeys {
    pub fn make(&self) -> (r: Vec<DbScenario>)
        ensures
            r@.len() == 4,
            forall|i: int| 0 <= i < r@.len() ==> (#[trigger] r@[i]).db.wf(),
    {
        let first: Vec<Line> = vec![
            line("h2o", Row::at(50).tag("state", "MA").tag("city", "Cambridge").dec("temp", 80, 0)),
            line("h2o", Row::at(100).tag("state", "MA").tag("city", "Cambridge").dec("temp", 81, 0)),
            line("h2o", Row::at(200).tag("state", "MA").tag("city", "Cambridge").dec("temp", 82, 0)),
        ];
        let second: Vec<Line> = vec![
            line("h2o", Row::at(300).tag("state", "MA").tag("city", "Boston").dec("temp", 70, 0)),
            line("h2o", Row::at(400).tag("state", "MA").tag("city", "Boston").dec("temp", 71, 0)),
            line("h2o", Row::at(500).tag("state", "CA").tag("city", "LA").dec("temp", 90, 0).dec("humidity", 10, 0)),
            line("h2o", Row::at(600).tag("state", "CA").tag("city", "LA").dec("temp", 91, 0).dec("humidity", 11, 0)),
        ];
        make_two_chunk_scenarios(&first, &second, "1970-01-01T00")
    }
}

/// Series to group by field, over two chunks and two measurements.
#[derive(Debug)]
pub struct MeasurementForGroupByField {}

impl MeasurementForGroupByField {
    pub fn make(&self) -> (r: Vec<DbScenario>)
        ensures
            r@.len() == 4,
            forall|i: int| 0 <= i < r@.len() ==> (#[trigger] r@[i]).db.wf(),
    {
        let first: Vec<Line> = vec![
            line("system", Row::at(100).tag("host", "local").tag("region", "A").dec("load1", 11, 1).dec("load2", 21, 1)),
            line("system", Row::at(200).tag("host", "local").tag("region", "A").dec("load1", 12, 1).dec("load2", 22, 1)),
            line("system", Row::at(100).tag("host", "remote").tag("region", "B").dec("load1", 101, 1).dec("load2", 21, 1)),
        ];
        let second: Vec<Line> = vec![
            line("system", Row::at(200).tag("host", "remote").tag("region", "B").dec("load1", 102, 1).dec("load2", 202, 1)),
            line("system", Row::at(100).tag("host", "local").tag("region", "C").dec("load1", 1001, 1).dec("load2", 2001, 1)),
            line("aa_system", Row::at(100).tag("host", "local").tag("region", "C").dec("load1", 1001, 1).dec("load2", 2001, 1)),
        ];
        make_two_chunk_scenarios(&first, &second, "1970-01-01T00")
    }
}

/// Rows of one series that each set a different field.
#[derive(Debug)]
pub struct MeasurementForDefect2691 {}

impl MeasurementForDefect2691 {
    pub fn make(&self) -> (r: Vec<DbScenario>)
        ensures
            r@.len() == 4,
            forall|i: int| 0 <= i < r@.len() ==> (#[trigger] r@[i]).db.wf(),
    {
        let lines: Vec<Line> = vec![
            line("system", Row::at(1527018806000000000).tag("host", "host.local").dec("load1", 183, 2)),
            line("system", Row::at(1527018816000000000).tag("host", "host.local").dec("load1", 163, 2)),
            line("system", Row::at(1527018806000000000).tag("host", "host.local").dec("load3", 172, 2)),
            line("system", Row::at(1527018806000000000).tag("host", "host.local").dec("load4", 177, 2)),
            line("system", Row::at(1527018816000000000).tag("host", "host.local").dec("load4", 178, 2)),
            line("system", Row::at(1527018826000000000).tag("host", "host.local").dec("load4", 177, 2)),
        ];
        let before: Vec<DeletePredicate> = Vec::new();
        let after: Vec<DeletePredicate> = Vec::new();
        all_scenarios_for_one_chunk(&before, &after, &lines, "system", "2018-05-22T19")
    }
}

/// Three series to aggregate over time windows, over two chunks.
#[derive(Debug)]
pub struct MeasurementForWindowAggregate {}

impl MeasurementForWindowAggregate {
    pub fn make(&self) -> (r: Vec<DbScenario>)
        ensures
            r@.len() == 4,
            forall|i: int| 0 <= i < r@.len() ==> (#[trigger] r@[i]).db.wf(),
    {
        let first: Vec<Line> = vec![
            line("h2o", Row::at(100).tag("state", "MA").tag("city", "Boston").dec("temp", 700, 1)),
            line("h2o", Row::at(200).tag("state", "MA").tag("city", "Boston").dec("temp", 710, 1)),
            line("h2o", Row::at(300).tag("state", "MA").tag("city", "Boston").dec("temp", 720, 1)),
            line("h2o", Row::at(400).tag("state", "MA").tag("city", "Boston").dec("temp", 730, 1)),
            line("h2o", Row::at(500).tag("state", "MA").tag("city", "Boston").dec("temp", 740, 1)),
            line("h2o", Row::at(100).tag("state", "MA").tag("city", "Cambridge").dec("temp", 800, 1)),
            line("h2o", Row::at(200).tag("state", "MA").tag("city", "Cambridge").dec("temp", 810, 1)),
        ];
        let second: Vec<Line> = vec![
            line("h2o", Row::at(300).tag("state", "MA").tag("city", "Cambridge").dec("temp", 820, 1)),
            line("h2o", Row::at(400).tag("state", "MA").tag("city", "Cambridge").dec("temp", 830, 1)),
            line("h2o", Row::at(500).tag("state", "MA").tag("city", "Cambridge").dec("temp", 840, 1)),
            line("h2o", Row::at(100).tag("state", "CA").tag("city", "LA").dec("temp", 900, 1)),
            line("h2o", Row::at(200).tag("state", "CA").tag("city", "LA").dec("temp", 910, 1)),
            line("h2o", Row::at(300).tag("state", "CA").tag("city", "LA").dec("temp", 920, 1)),
            line("h2o", Row::at(400).tag("state", "CA").tag("city", "LA").dec("temp", 930, 1)),
            line("h2o", Row::at(500).tag("state", "CA").tag("city", "LA").dec("temp", 940, 1)),
        ];
        make_two_chunk_scenarios(&first, &second, "1970-01-01T00")
    }
}

/// Two sections whose rows set one of two fields.
#[derive(Debug)]
pub struct MeasurementForDefect2697 {}

impl MeasurementForDefect2697 {
    pub fn make(&self) -> (r: Vec<DbScenario>)
        ensures
            r@.len() == 4,
            forall|i: int| 0 <= i < r@.len() ==> (#[trigger] r@[i]).db.wf(),
    {
        let lines: Vec<Line> = vec![
            line("mm", Row::at(1609459201000000011).tag("section", "1a").dec("bar", 50, 1)),
            line("mm", Row::at(1609459201000000031).tag("section", "1a").dec("bar", 28, 2)),
            line("mm", Row::at(1609459201000000009).tag("section", "2b").dec("bar", 40, 1)),
            line("mm", Row::at(1609459201000000015).tag("section", "2b").dec("bar", 60, 1)),
            line("mm", Row::at(1609459201000000022).tag("section", "2b").dec("bar", 12, 1)),
            line("mm", Row::at(1609459201000000001).tag("section", "1a").dec("foo", 10, 1)),
            line("mm", Row::at(1609459201000000005).tag("section", "1a").dec("foo", 30, 1)),
            line("mm", Row::at(1609459201000000024).tag("section", "1a").dec("foo", 1124, 2)),
            line("mm", Row::at(1609459201000000002).tag("section", "2b").dec("foo", 20, 1)),
        ];
        let before: Vec<DeletePredicate> = Vec::new();
        let after: Vec<DeletePredicate> = Vec::new();
        all_scenarios_for_one_chunk(&before, &after, &lines, "mm", "2021-01-01T00")
    }
}

/// As `MeasurementForDefect2697`, with one timestamp deleted.
#[derive(Debug)]
pub struct MeasurementForDefect2697WithDelete {}

impl MeasurementForDefect2697WithDelete {
    pub fn make(&self) -> (r: Vec<DbScenario>)
        ensures
            r@.len() == 4,
            forall|i: int| 0 <= i < r@.len() ==> (#[trigger] r@[i]).db.wf(),
    {
        let lines: Vec<Line> = vec![
            line("mm", Row::at(1609459201000000011).tag("section", "1a").dec("bar", 50, 1)),
            line("mm", Row::at(1609459201000000031).tag("section", "1a").dec("bar", 28, 2)),
            line("mm", Row::at(1609459201000000009).tag("section", "2b").dec("bar", 40, 1)),
            line("mm", Row::at(1609459201000000015).tag("section", "2b").dec("bar", 60, 1)),
            line("mm", Row::at(1609459201000000022).tag("section", "2b").dec("bar", 12, 1)),
            line("mm", Row::at(1609459201000000001).tag("section", "1a").dec("foo", 10, 1)),
            line("mm", Row::at(1609459201000000005).tag("section", "1a").dec("foo", 30, 1)),
            line("mm", Row::at(1609459201000000024).tag("section", "1a").dec("foo", 1124, 2)),
            line("mm", Row::at(1609459201000000002).tag("section", "2b").dec("foo", 20, 1)),
        ];
        let before: Vec<DeletePredicate> = vec![
            DeletePredicate::new(1, TimestampRange::new(1609459201000000022, 1609459201000000022), Vec::new()),
        ];
        let after: Vec<DeletePredicate> = Vec::new();
        all_scenarios_for_one_chunk(&before, &after, &lines, "mm", "2021-01-01T00")
    }
}

/// As `MeasurementForDefect2697`, with every row deleted.
#[derive(Debug)]
pub struct MeasurementForDefect2697WithDeleteAll {}

impl MeasurementForDefect2697WithDeleteAll {
    pub fn make(&self) -> (r: Vec<DbScenario>)
        ensures
            r@.len() == 4,
            forall|i: int| 0 <= i < r@.len() ==> (#[trigger] r@[i]).db.wf(),
    {
        let lines: Vec<Line> = vec![
            line("mm", Row::at(1609459201000000011).tag("section", "1a").dec("bar", 50, 1)),
            line("mm", Row::at(1609459201000000031).tag("section", "1a").dec("bar", 28, 2)),
            line("mm", Row::at(1609459201000000009).tag("section", "2b").dec("bar", 40, 1)),
            line("mm", Row::at(1609459201000000015).tag("section", "2b").dec("bar", 60, 1)),
            line("mm", Row::at(1609459201000000022).tag("section", "2b").dec("bar", 12, 1)),
            line("mm", Row::at(1609459201000000001).tag("section", "1a").dec("foo", 10, 1)),
            line("mm", Row::at(1609459201000000005).tag("section", "1a").dec("foo", 30, 1)),
            line("mm", Row::at(1609459201000000024).tag("section", "1a").dec("foo", 1124, 2)),
            line("mm", Row::at(1609459201000000002).tag("section", "2b").dec("foo", 20, 1)),
        ];
        let before: Vec<DeletePredicate> = vec![
            DeletePredicate::new(1, TimestampRange::new(1, 1609459201000000031), Vec::new()),
        ];
        let after: Vec<DeletePredicate> = Vec::new();
        all_scenarios_for_one_chunk(&before, &after, &lines, "mm", "2021-01-01T00")
    }
}

/// A measurement without tags whose rows set one of two fields.
#[derive(Debug)]
pub struct MeasurementForDefect2890 {}

impl MeasurementForDefect2890 {
    pub fn make(&self) -> (r: Vec<DbScenario>)
        ensures
            r@.len() == 4,
            forall|i: int| 0 <= i < r@.len() ==> (#[trigger] r@[i]).db.wf(),
    {
        let lines: Vec<Line> = vec![
            line("mm", Row::at(1609459201000000001).dec("foo", 20, 1)),
            line("mm", Row::at(1609459201000000002).dec("foo", 20, 1)),
            line("mm", Row::at(1609459201000000005).dec("foo", 30, 1)),
            line("mm", Row::at(1609459201000000024).dec("foo", 1124, 2)),
            line("mm", Row::at(1609459201000000009).dec("bar", 40, 1)),
            line("mm", Row::at(1609459201000000011).dec("bar", 50, 1)),
            line("mm", Row::at(1609459201000000015).dec("bar", 60, 1)),
            line("mm", Row::at(1609459201000000022).dec("bar", 12, 1)),
            line("mm", Row::at(1609459201000000031).dec("bar", 28, 1)),
        ];
        let before: Vec<DeletePredicate> = Vec::new();
        let after: Vec<DeletePredicate> = Vec::new();
        all_scenarios_for_one_chunk(&before, &after, &lines, "mm", "2021-01-01T00")
    }
}

/// As `OneMeasurementNoTags2`, with the row of `foo = 1.0` at 1 deleted.
#[derive(Debug)]
pub struct OneMeasurementNoTagsWithDelete {}

impl OneMeasurementNoTagsWithDelete {
    pub fn make(&self) -> (r: Vec<DbScenario>)
        ensures
            r@.len() == 4,
            forall|i: int| 0 <= i < r@.len() ==> (#[trigger] r@[i]).db.wf(),
    {
        let lines: Vec<Line> = vec![
            line("m0", Row::at(1).dec("foo", 10, 1)),
            line("m0", Row::at(2).dec("foo", 20, 1)),
        ];
        let before: Vec<DeletePredicate> = vec![
            DeletePredicate::new(1, TimestampRange::new(1, 1), vec![DeleteExpr::new("foo".to_owned(), Op::Eq, Scalar::Decimal(10, 1))]),
        ];
        let after: Vec<DeletePredicate> = Vec::new();
        all_scenarios_for_one_chunk(&before, &after, &lines, "m0", "1970-01-01T00")
    }
}

} // verus!
