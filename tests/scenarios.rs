use iox_db::chunk::ChunkStage;
use iox_db::compaction::compact;
use iox_db::library::{
    ChunkOrder, NoData, OneMeasurementAllChunksDropped, OneMeasurementFourChunksWithDuplicates, OneMeasurementNoTagsWithDelete, OneMeasurementManyNullTagsWithDelete,
    OneMeasurementManyNullTagsWithDeleteAll, TwoMeasurements, TwoMeasurementsManyNulls,
    TwoMeasurementsMubScenario, TwoMeasurementsPredicatePushDown,
};
use iox_db::row::Value;

#[test]
fn chunk_order_scenario_dedups_by_order() {
    let scenarios = ChunkOrder {}.make();
    assert_eq!(scenarios.len(), 1);
    let db = &scenarios[0].db;
    assert_eq!(db.count_chunks(ChunkStage::Open), 1);
    assert_eq!(db.count_chunks(ChunkStage::Persisted), 1);
    let p = &db.partitions[0];
    let open = p.chunks().iter().find(|c| c.stage == ChunkStage::Open).unwrap();
    let persisted = p.chunks().iter().find(|c| c.stage == ChunkStage::Persisted).unwrap();
    // the persisted chunk has the newer id but the older order
    assert!(persisted.id > open.id);
    assert!(persisted.order < open.order);
    let snaps = p.chunks().iter().map(|c| c.snapshot()).collect();
    let out = compact(&snaps).unwrap();
    assert_eq!(out.rows.len(), 1);
    let user = out.rows[0].cells.iter().find(|c| c.name == "user").unwrap();
    assert!(matches!(user.value, Value::Decimal(2, 0)));
}

#[test]
fn no_data_scenarios_are_empty() {
    let scenarios = NoData {}.make();
    assert_eq!(scenarios.len(), 4);
    for s in &scenarios {
        assert_eq!(s.db.count_chunks(ChunkStage::Open), 0);
        assert_eq!(s.db.count_chunks(ChunkStage::Compacted), 0);
        assert_eq!(s.db.count_chunks(ChunkStage::Persisted), 0);
    }
}

#[test]
fn one_chunk_scenarios_cover_each_stage() {
    let scenarios = TwoMeasurements {}.make();
    let stages = [ChunkStage::Open, ChunkStage::Closed, ChunkStage::Compacted, ChunkStage::Persisted];
    assert_eq!(scenarios.len(), 4);
    for (s, stage) in scenarios.iter().zip(stages.iter()) {
        // two tables, one chunk each
        assert_eq!(s.db.partitions.len(), 2);
        assert_eq!(s.db.count_chunks(*stage), 2);
    }
}

#[test]
fn deletes_are_applied_by_compaction() {
    let scenarios = OneMeasurementManyNullTagsWithDelete {}.make();
    // in the compacted stage, the three rows of NY in range are gone
    let p = &scenarios[2].db.partitions[0];
    assert_eq!(p.chunks().len(), 1);
    assert_eq!(p.chunks()[0].row_count(), 4);
    assert!(p.chunks()[0].delete_predicates().is_empty());
    // in the open stage they are still there, with the tombstone pending
    let p = &scenarios[0].db.partitions[0];
    assert_eq!(p.chunks()[0].row_count(), 7);
    assert_eq!(p.chunks()[0].delete_predicates().len(), 1);
}

#[test]
fn delete_all_scenario_leaves_no_compacted_chunk() {
    let scenarios = OneMeasurementManyNullTagsWithDeleteAll {}.make();
    assert_eq!(scenarios[2].db.count_chunks(ChunkStage::Compacted), 0);
    assert_eq!(scenarios[3].db.count_chunks(ChunkStage::Persisted), 0);
}

#[test]
fn other_scenarios_build() {
    assert_eq!(TwoMeasurementsMubScenario {}.make().len(), 1);
    assert_eq!(TwoMeasurementsPredicatePushDown {}.make().len(), 2);
    let two = TwoMeasurementsManyNulls {}.make();
    assert_eq!(two.len(), 4);
    assert_eq!(two[2].db.count_chunks(ChunkStage::Compacted), 3);
    assert_eq!(OneMeasurementAllChunksDropped {}.make()[0].db.count_chunks(ChunkStage::Compacted), 0);
}

#[test]
fn four_chunks_with_duplicates_merge_to_distinct_keys() {
    let scenarios = OneMeasurementFourChunksWithDuplicates {}.make();
    let p = &scenarios[0].db.partitions[0];
    assert_eq!(p.chunks().len(), 4);
    let snaps = p.chunks().iter().map(|c| c.snapshot()).collect();
    let out = compact(&snaps).unwrap();
    assert_eq!(out.rows.len(), 18);
    let find = |city: &str, t: i64| {
        out.rows
            .iter()
            .find(|r| {
                r.time == t
                    && r.cells.iter().any(|c| c.name == "city" && matches!(&c.value, Value::Tag(s) if s == city))
            })
            .unwrap()
    };
    let value = |r: &iox_db::row::Row, name: &str| {
        r.cells.iter().find(|c| c.name == name).map(|c| match &c.value {
            Value::Decimal(m, s) => (*m, *s),
            Value::U64(v) => (*v as i64, 0),
            _ => panic!("unexpected value"),
        })
    };
    // the later chunk wins whole: no min_temp from the earlier row
    let bedford = find("Bedford", 150);
    assert_eq!(value(bedford, "max_temp"), Some((7875, 2)));
    assert_eq!(value(bedford, "min_temp"), None);
    assert_eq!(value(bedford, "area"), Some((742, 0)));
    // within one chunk the later row wins
    let bedford = find("Bedford", 400);
    assert_eq!(value(bedford, "min_temp"), Some((6522, 2)));
    assert_eq!(value(bedford, "area"), Some((750, 0)));
    assert_eq!(value(bedford, "max_temp"), None);
}

#[test]
fn decimal_delete_scenario_removes_one_row() {

    let scenarios = OneMeasurementNoTagsWithDelete {}.make();
    assert_eq!(scenarios.len(), 4);
    let p = &scenarios[2].db.partitions[0];
    assert_eq!(p.chunks().len(), 1);
    assert_eq!(p.chunks()[0].row_count(), 1);
    assert_eq!(p.chunks()[0].rows[0].time, 2);
    let open = &scenarios[0].db.partitions[0];
    assert_eq!(open.chunks()[0].tombstone_ids(), vec![1]);
    assert!(!open.chunks()[0].no_tombstones());
    assert!(p.chunks()[0].no_tombstones());
}
