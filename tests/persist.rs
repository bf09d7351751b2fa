use iox_db::chunk::{CatalogUpdate, ChunkStage};
use iox_db::partition::{LifecycleError, Partition};
use iox_db::row::Row;
use iox_db::tombstone::{DeleteExpr, DeletePredicate, Op, Scalar, TimestampRange};

const SECOND: i64 = 1_000_000_000;

fn write(p: &mut Partition, row: Row, seq: u64, now: i64) -> u64 {
    let schema = row.schema();
    p.write(&schema, vec![row], seq, now).unwrap()
}

fn delete_all(id: u64) -> DeletePredicate {
    DeletePredicate::new(id, TimestampRange::new(0, 1_000), vec![])
}

fn foo_equals(id: u64, v: i64) -> DeletePredicate {
    DeletePredicate::new(
        id,
        TimestampRange::new(0, 1_000),
        vec![DeleteExpr::new("foo".to_string(), Op::Eq, Scalar::I64(v))],
    )
}

#[test]
fn test_flush_overlapping() {
    let mut p = Partition::new("cpu".into(), "1970-01-01T00".into(), SECOND);
    let t0 = 3409 * SECOND;
    write(&mut p, Row::at(10).tag("tag1", "cupcakes").dec("bar", 1, 0), 0, t0);
    // close the window
    write(&mut p, Row::at(10).tag("tag1", "lagged").dec("bar", 1, 0), 1, t0 + 2 * SECOND);
    let handle = p.prepare_persist(t0 + 2 * SECOND, false).unwrap();
    assert_eq!(handle.timestamp(), 10);
    let ids: Vec<u64> = p.chunks().iter().map(|c| c.id).collect();
    let job = p.persist_chunks(ids, handle).unwrap();
    let out = job.execute().unwrap();
    p.commit_persist(job, out).unwrap().unwrap();
    assert!(p.persistence_windows().minimum_unpersisted_timestamp().is_none());
}

#[test]
fn test_persist_delete_all() {
    let mut p = Partition::new("cpu".into(), "1970-01-01T00".into(), SECOND);
    let mut now = 32 * SECOND;
    write(&mut p, Row::at(10).tag("tag1", "cupcakes").dec("bar", 1, 0), 0, now);
    now += SECOND;
    write(&mut p, Row::at(23).tag("tag1", "cupcakes").dec("bar", 3, 0), 1, now);

    // delete the first row
    p.delete(&DeletePredicate::new(1, TimestampRange::new(0, 20), vec![]));

    // the first write is deleted: nothing to persist
    assert!(p.persist_partition(now, false).unwrap().is_none());
    assert_eq!(p.chunks().len(), 1);
    assert_eq!(p.chunks()[0].stage, ChunkStage::Compacted);
    assert_eq!(p.chunks()[0].row_count(), 1);
    assert_eq!(p.persistence_windows().minimum_unpersisted_timestamp(), Some(23));

    // a second set of writes, one of which overlaps the chunk above
    now += 10 * SECOND;
    write(&mut p, Row::at(23).tag("tag1", "foo").dec("bar", 2, 0), 2, now);
    write(&mut p, Row::at(26).tag("tag1", "cupcakes").dec("bar", 2, 0), 3, now);

    // persist the second write but not the third
    assert!(p.persist_partition(now, false).unwrap().is_some());
    // the windows only know that all rows <= 23 are persisted
    assert_eq!(p.persistence_windows().minimum_unpersisted_timestamp(), Some(24));
    let mut stages: Vec<(ChunkStage, usize)> =
        p.chunks().iter().map(|c| (c.stage, c.row_count())).collect();
    stages.sort_by_key(|(s, _)| *s == ChunkStage::Persisted);
    assert_eq!(stages, vec![(ChunkStage::Compacted, 1), (ChunkStage::Persisted, 2)]);

    // delete everything
    p.delete(&delete_all(2));

    // try to persist the third set of writes
    now += SECOND;
    assert!(p.persist_partition(now, false).unwrap().is_none());

    // the persisted chunk stays
    assert_eq!(p.chunks().len(), 1);
    assert_eq!(p.chunks()[0].stage, ChunkStage::Persisted);
    assert_eq!(p.chunks()[0].row_count(), 2);
    assert!(p.persistence_windows().is_empty());
}

#[test]
fn persist_compacted_deletes() {
    let mut p = Partition::new("cpu".into(), "1970-01-01T00".into(), SECOND);
    let now = 3409 * SECOND;
    write(&mut p, Row::at(10).tag("tag1", "cupcakes").dec("bar", 1, 0), 0, now);

    // delete everything, then compact the deletes away
    p.delete(&delete_all(1));
    let id = p.rollover().unwrap();
    assert!(p.compact_chunks(vec![id]).unwrap().is_none());
    assert!(p.chunks().is_empty());

    // the windows do not know that the rows are gone
    assert!(!p.persistence_windows().is_empty());

    assert!(p.persist_partition(now + SECOND, false).unwrap().is_none());
    assert!(p.persistence_windows().is_empty());
}

#[test]
fn test_delete_predicate_propagation() {
    let mut p = Partition::new("cpu".into(), "1970-01-01T00".into(), SECOND);
    // | foo | delete before persist | delete during persist |
    // |   1 |                   yes |                    no |
    // |   2 |                   yes |                   yes |
    // |   3 |                    no |                   yes |
    // |   4 |                    no |                    no |
    write(&mut p, Row::at(10).integer("foo", 1), 0, 0);
    write(&mut p, Row::at(20).integer("foo", 2), 1, 0);
    write(&mut p, Row::at(20).integer("foo", 3), 2, 0);
    write(&mut p, Row::at(20).integer("foo", 4), 3, 0);
    let pred1 = foo_equals(1, 1);
    let pred2 = foo_equals(2, 2);
    let pred3 = foo_equals(3, 3);
    p.delete(&pred1);
    p.delete(&pred2);

    let handle = p.prepare_persist(0, true).unwrap();
    assert_eq!(handle.timestamp(), 20);
    let ids: Vec<u64> = p.chunks().iter().map(|c| c.id).collect();
    let job = p.persist_chunks(ids, handle).unwrap();

    // more deletes while the persist runs
    p.delete(&pred2);
    p.delete(&pred3);

    let out = job.execute().unwrap();
    p.commit_persist(job, out).unwrap();

    assert_eq!(p.chunks().len(), 1);
    let ids: Vec<u64> = p.chunks()[0].delete_predicates().iter().map(|t| t.id).collect();
    assert_eq!(ids, vec![3]);
}

#[test]
fn two_deletes_during_persist_survive() {
    let mut p = Partition::new("cpu".into(), "1970-01-01T00".into(), SECOND);
    write(&mut p, Row::at(10).tag("t", "a").integer("v", 1), 0, 0);
    write(&mut p, Row::at(30).tag("t", "b").integer("v", 2), 1, 0);
    let before = DeletePredicate::new(
        1,
        TimestampRange::new(0, 100),
        vec![DeleteExpr::new("t".into(), Op::Eq, Scalar::String("zz".into()))],
    );
    p.delete(&before);
    let handle = p.prepare_persist(0, true).unwrap();
    let ids: Vec<u64> = p.chunks().iter().map(|c| c.id).collect();
    let job = p.persist_chunks(ids, handle).unwrap();
    p.delete(&DeletePredicate::new(7, TimestampRange::new(0, 15), vec![]));
    p.delete(&DeletePredicate::new(8, TimestampRange::new(25, 26), vec![]));
    let out = job.execute().unwrap();
    let persisted = p.commit_persist(job, out).unwrap().unwrap();
    let chunk = p.chunks().iter().find(|c| c.id == persisted).unwrap();
    let ids: Vec<u64> = chunk.delete_predicates().iter().map(|t| t.id).collect();
    assert_eq!(ids, vec![7, 8]);
}

#[test]
fn delete_all_then_compact_creates_no_chunk() {
    let mut p = Partition::new("cpu".into(), "1970-01-01T00".into(), 0);
    for (i, t) in [10, 20, 30].iter().enumerate() {
        write(&mut p, Row::at(*t).tag("t", "a").integer("v", i as i64), i as u64, 0);
    }
    p.delete(&delete_all(1));
    let id = p.rollover().unwrap();
    assert_eq!(p.compact_chunks(vec![id]).unwrap(), None);
    assert!(p.chunks().is_empty());
}

#[test]
fn persist_of_held_chunk_is_refused() {
    let mut p = Partition::new("cpu".into(), "1970-01-01T00".into(), 0);
    let id = write(&mut p, Row::at(10).integer("v", 1), 0, 0);
    let h1 = p.prepare_persist(0, true).unwrap();
    let _job = p.persist_chunks(vec![id], h1).unwrap();
    write(&mut p, Row::at(11).integer("v", 2), 1, 0);
    let h2 = p.prepare_persist(0, true).unwrap();
    match p.persist_chunks(vec![id], h2) {
        Err(LifecycleError::ChunkInTransition { chunk_id }) => assert_eq!(chunk_id, id),
        other => panic!("expected the chunk to be held, got {:?}", other.map(|j| j.chunk_ids)),
    }
}

#[test]
fn persist_of_unknown_chunk_is_refused() {
    let mut p = Partition::new("cpu".into(), "1970-01-01T00".into(), 0);
    write(&mut p, Row::at(10).integer("v", 1), 0, 0);
    let h = p.prepare_persist(0, true).unwrap();
    match p.persist_chunks(vec![42], h) {
        Err(LifecycleError::ChunkNotFound { chunk_id }) => assert_eq!(chunk_id, 42),
        other => panic!("expected an unknown chunk, got {:?}", other.map(|j| j.chunk_ids)),
    }
}

#[test]
fn abort_releases_chunks_and_keeps_watermark() {
    let mut p = Partition::new("cpu".into(), "1970-01-01T00".into(), 0);
    let id = write(&mut p, Row::at(10).integer("v", 1), 0, 0);
    let h = p.prepare_persist(0, true).unwrap();
    let job = p.persist_chunks(vec![id], h).unwrap();
    assert!(p.chunks()[0].in_transition);
    p.abort_persist(job);
    assert!(!p.chunks()[0].in_transition);
    assert_eq!(p.persistence_windows().minimum_unpersisted_timestamp(), Some(10));
    // a retry goes through
    let h = p.prepare_persist(0, true).unwrap();
    let job = p.persist_chunks(vec![id], h).unwrap();
    let out = job.execute().unwrap();
    assert!(p.commit_persist(job, out).unwrap().is_some());
    assert_eq!(p.persistence_windows().minimum_unpersisted_timestamp(), None);
}

#[test]
fn commit_after_chunk_vanished_is_refused() {
    let mut p = Partition::new("cpu".into(), "1970-01-01T00".into(), 0);
    let id = write(&mut p, Row::at(10).integer("v", 1), 0, 0);
    let h = p.prepare_persist(0, true).unwrap();
    let job = p.persist_chunks(vec![id], h).unwrap();
    let out = job.execute().unwrap();
    let mut other = Partition::new("cpu".into(), "1970-01-01T00".into(), 0);
    match other.commit_persist(job, out) {
        Err(LifecycleError::ChunkVanished { chunk_id }) => assert_eq!(chunk_id, id),
        r => panic!("expected a vanished chunk, got {:?}", r),
    }
}

#[test]
fn held_chunk_cannot_be_dropped() {
    let mut p = Partition::new("cpu".into(), "1970-01-01T00".into(), 0);
    let id = write(&mut p, Row::at(10).integer("v", 1), 0, 0);
    let h = p.prepare_persist(0, true).unwrap();
    let _job = p.persist_chunks(vec![id], h).unwrap();
    assert!(matches!(p.drop_chunk(id), Err(LifecycleError::ChunkInTransition { .. })));
    assert!(matches!(p.drop_chunk(99), Err(LifecycleError::ChunkNotFound { .. })));
}

#[test]
fn persisted_chunk_keeps_highest_order() {
    let mut p = Partition::new("cpu".into(), "1970-01-01T00".into(), 0);
    write(&mut p, Row::at(10).tag("t", "a").integer("v", 1), 0, 0);
    p.rollover().unwrap();
    write(&mut p, Row::at(10).tag("t", "a").integer("v", 2), 1, 0);
    let orders: Vec<u64> = p.chunks().iter().map(|c| c.order).collect();
    assert_eq!(orders, vec![0, 1]);
    let id = p.persist_partition(0, true).unwrap().unwrap();
    let c = p.chunks().iter().find(|c| c.id == id).unwrap();
    assert_eq!(c.order, 1);
    assert_eq!(c.row_count(), 1);
    assert_eq!(c.stage, ChunkStage::Persisted);
}

#[test]
fn write_with_conflicting_type_is_refused() {
    let mut p = Partition::new("cpu".into(), "1970-01-01T00".into(), 0);
    write(&mut p, Row::at(10).integer("v", 1), 0, 0);
    let row = Row::at(11).boolean("v", true);
    let schema = row.schema();
    assert!(matches!(
        p.write(&schema, vec![row], 1, 0),
        Err(LifecycleError::SchemaConflict { .. })
    ));
    assert_eq!(p.chunks()[0].row_count(), 1);
}

#[test]
fn delete_attaches_only_to_overlapping_chunks() {
    let mut p = Partition::new("cpu".into(), "1970-01-01T00".into(), 0);
    write(&mut p, Row::at(10).integer("v", 1), 0, 0);
    p.rollover().unwrap();
    write(&mut p, Row::at(500).integer("v", 2), 1, 0);
    assert_eq!(p.delete(&DeletePredicate::new(1, TimestampRange::new(0, 100), vec![])), 1);
    assert_eq!(p.chunks()[0].delete_predicates().len(), 1);
    assert_eq!(p.chunks()[1].delete_predicates().len(), 0);
}

#[test]
fn catalog_update_of_persisted_chunk() {
    let mut p = Partition::new("cpu".into(), "1970-01-01T00".into(), 0);
    write(&mut p, Row::at(30).tag("host", "a").integer("v", 1), 4, 0);
    write(&mut p, Row::at(10).tag("host", "b").integer("v", 2), 7, 0);
    let handle = p.prepare_persist(0, true).unwrap();
    let ids: Vec<u64> = p.chunks().iter().map(|c| c.id).collect();
    let job = p.persist_chunks(ids, handle).unwrap();
    p.delete(&DeletePredicate::new(9, TimestampRange::new(0, 100), vec![]));
    let out = job.execute().unwrap();
    let id = p.commit_persist(job, out).unwrap().unwrap();
    let chunk = p.chunks().iter().find(|c| c.id == id).unwrap();
    let u = CatalogUpdate::new(chunk).unwrap();
    assert_eq!(u.chunk_id, id);
    assert_eq!(u.row_count, 2);
    assert_eq!((u.min_time, u.max_time), (10, 30));
    assert_eq!((u.min_seq, u.max_seq), (4, 7));
    assert_eq!(u.sort_key, vec!["host".to_string()]);
    assert_eq!(u.tombstone_ids, vec![9]);
}
