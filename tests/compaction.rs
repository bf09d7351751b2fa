use iox_db::compaction::{compact, compact_split, merge_schemas, ChunkSnapshot, CompactError};
use iox_db::row::{Column, DataType, Row, Value};
use iox_db::tombstone::{DeleteExpr, DeletePredicate, Op, Scalar, TimestampRange};

fn snapshot(order: u64, rows: Vec<Row>, tombstones: Vec<DeletePredicate>) -> ChunkSnapshot {
    let mut schema: Vec<Column> = Vec::new();
    for r in &rows {
        for c in r.schema() {
            if !schema.iter().any(|s| s.name == c.name) {
                schema.push(c);
            }
        }
    }
    ChunkSnapshot { order, schema, rows, tombstones }
}

fn tag<'a>(row: &'a Row, name: &str) -> Option<&'a str> {
    row.cells.iter().find(|c| c.name == name).and_then(|c| match &c.value {
        Value::Tag(s) => Some(s.as_str()),
        _ => None,
    })
}

fn field(row: &Row, name: &str) -> Option<i64> {
    row.cells.iter().find(|c| c.name == name).and_then(|c| match &c.value {
        Value::I64(v) => Some(*v),
        Value::Decimal(m, 0) => Some(*m),
        _ => None,
    })
}

fn eq_pred(id: u64, start: i64, end: i64, column: &str, op: Op, value: &str) -> DeletePredicate {
    DeletePredicate::new(
        id,
        TimestampRange::new(start, end),
        vec![DeleteExpr::new(column.to_string(), op, Scalar::String(value.to_string()))],
    )
}

#[test]
fn higher_order_chunk_wins_whole_row() {
    let a = snapshot(0, vec![Row::at(100).tag("region", "west").dec("user", 1, 0)], vec![]);
    let b = snapshot(1, vec![Row::at(100).tag("region", "west").dec("user", 2, 0)], vec![]);
    let out = compact(&vec![a, b]).unwrap();
    assert_eq!(out.rows.len(), 1);
    assert_eq!(tag(&out.rows[0], "region"), Some("west"));
    assert_eq!(field(&out.rows[0], "user"), Some(2));
    assert_eq!(out.rows[0].time, 100);
}

#[test]
fn order_not_position_decides() {
    // the chunk of higher order comes first in the input
    let a = snapshot(5, vec![Row::at(100).tag("region", "west").dec("user", 1, 0)], vec![]);
    let b = snapshot(2, vec![Row::at(100).tag("region", "west").dec("user", 2, 0)], vec![]);
    let out = compact(&vec![a, b]).unwrap();
    assert_eq!(out.rows.len(), 1);
    assert_eq!(field(&out.rows[0], "user"), Some(1));
}

#[test]
fn winner_is_not_a_blend_of_fields() {
    let a = snapshot(
        0,
        vec![Row::at(100).tag("region", "west").integer("a", 1).integer("b", 1)],
        vec![],
    );
    let b = snapshot(1, vec![Row::at(100).tag("region", "west").integer("a", 2)], vec![]);
    let out = compact(&vec![a, b]).unwrap();
    assert_eq!(out.rows.len(), 1);
    assert_eq!(field(&out.rows[0], "a"), Some(2));
    assert_eq!(field(&out.rows[0], "b"), None);
}

#[test]
fn later_row_of_one_chunk_wins() {
    let a = snapshot(
        0,
        vec![
            Row::at(50).tag("tag1", "AL").integer("field_int", 10),
            Row::at(50).tag("tag1", "AL").integer("field_int", 100),
        ],
        vec![],
    );
    let out = compact(&vec![a]).unwrap();
    assert_eq!(out.rows.len(), 1);
    assert_eq!(field(&out.rows[0], "field_int"), Some(100));
}

#[test]
fn output_sorted_by_tags_then_time() {
    let a = snapshot(
        0,
        vec![
            Row::at(7).tag("tag1", "MT").integer("f", 1),
            Row::at(50).tag("tag1", "AL").integer("f", 2),
            Row::at(5).tag("tag1", "MT").integer("f", 3),
            Row::at(100).tag("tag1", "CT").integer("f", 4),
            Row::at(9).integer("f", 5),
        ],
        vec![],
    );
    let out = compact(&vec![a]).unwrap();
    let keys: Vec<(Option<&str>, i64)> = out.rows.iter().map(|r| (tag(r, "tag1"), r.time)).collect();
    assert_eq!(
        keys,
        vec![(None, 9), (Some("AL"), 50), (Some("CT"), 100), (Some("MT"), 5), (Some("MT"), 7)]
    );
}

#[test]
fn split_at_timestamp() {
    let a = snapshot(
        0,
        vec![Row::at(10).tag("tag1", "cupcakes").dec("bar", 1, 0), Row::at(23).tag("tag1", "cupcakes").dec("bar", 3, 0)],
        vec![],
    );
    let out = compact_split(&vec![a], 20).unwrap();
    assert_eq!(out.persist.len(), 1);
    assert_eq!(out.persist[0].time, 10);
    assert_eq!(out.remainder.len(), 1);
    assert_eq!(out.remainder[0].time, 23);
}

#[test]
fn split_parts_add_up_to_merge() {
    let rows = || {
        vec![
            Row::at(10).tag("t", "a").integer("v", 1),
            Row::at(20).tag("t", "a").integer("v", 2),
            Row::at(20).tag("t", "b").integer("v", 3),
            Row::at(30).tag("t", "a").integer("v", 4),
        ]
    };
    let dup = || vec![Row::at(20).tag("t", "a").integer("v", 9)];
    let merged = compact(&vec![snapshot(0, rows(), vec![]), snapshot(1, dup(), vec![])]).unwrap();
    let split = compact_split(&vec![snapshot(0, rows(), vec![]), snapshot(1, dup(), vec![])], 20).unwrap();
    assert_eq!(merged.rows.len(), 4);
    assert_eq!(split.persist.len() + split.remainder.len(), merged.rows.len());
    assert!(split.persist.iter().all(|r| r.time <= 20));
    assert!(split.remainder.iter().all(|r| r.time > 20));
    assert_eq!(split.persist.len(), 3);
}

#[test]
fn split_either_side_may_be_empty() {
    let a = snapshot(0, vec![Row::at(10).integer("v", 1)], vec![]);
    let out = compact_split(&vec![a], 100).unwrap();
    assert_eq!(out.persist.len(), 1);
    assert!(out.remainder.is_empty());
    let b = snapshot(0, vec![Row::at(10).integer("v", 1)], vec![]);
    let out = compact_split(&vec![b], 5).unwrap();
    assert!(out.persist.is_empty());
    assert_eq!(out.remainder.len(), 1);
}

#[test]
fn tombstone_deletes_matching_rows() {
    let rows = vec![
        Row::at(100).tag("state", "CA").dec("temp", 704, 1),
        Row::at(400).tag("state", "NY").dec("temp", 608, 1),
        Row::at(500).tag("state", "NY").tag("city", "NYC").dec("temp", 610, 1),
        Row::at(700).tag("state", "NY").dec("temp", 611, 1),
    ];
    let pred = eq_pred(1, 400, 602, "state", Op::Eq, "NY");
    let out = compact(&vec![snapshot(0, rows, vec![pred])]).unwrap();
    let times: Vec<i64> = out.rows.iter().map(|r| r.time).collect();
    assert_eq!(times, vec![100, 700]);
}

#[test]
fn tombstone_applied_twice_same_as_once() {
    let rows = || {
        vec![Row::at(10).tag("t", "a").integer("v", 1), Row::at(20).tag("t", "b").integer("v", 2)]
    };
    let once = compact(&vec![snapshot(0, rows(), vec![eq_pred(1, 0, 100, "t", Op::Eq, "a")])]).unwrap();
    let twice = compact(&vec![snapshot(
        0,
        rows(),
        vec![eq_pred(1, 0, 100, "t", Op::Eq, "a"), eq_pred(1, 0, 100, "t", Op::Eq, "a")],
    )])
    .unwrap();
    assert_eq!(once.rows.len(), 1);
    assert_eq!(twice.rows.len(), once.rows.len());
    assert_eq!(twice.rows[0].time, once.rows[0].time);
}

#[test]
fn tombstone_judges_the_winning_row() {
    // the losing row has field b = 1; the winner has no b, so it survives
    let a = snapshot(0, vec![Row::at(10).tag("t", "x").integer("b", 1)], vec![]);
    let pred = DeletePredicate::new(
        1,
        TimestampRange::new(0, 100),
        vec![DeleteExpr::new("b".to_string(), Op::Eq, Scalar::I64(1))],
    );
    let b = snapshot(1, vec![Row::at(10).tag("t", "x").integer("c", 2)], vec![pred]);
    let out = compact(&vec![a, b]).unwrap();
    assert_eq!(out.rows.len(), 1);
    assert_eq!(field(&out.rows[0], "c"), Some(2));
}

#[test]
fn delete_all_leaves_nothing() {
    let rows = vec![Row::at(10).dec("bar", 1, 0), Row::at(23).dec("bar", 3, 0)];
    let pred = DeletePredicate::new(1, TimestampRange::new(0, 1000), vec![]);
    let out = compact(&vec![snapshot(0, rows, vec![pred])]).unwrap();
    assert!(out.rows.is_empty());
}

#[test]
fn tombstone_on_absent_column_matches_nothing() {
    let rows = vec![Row::at(10).tag("t", "a").integer("v", 1)];
    let pred = eq_pred(1, 0, 100, "nowhere", Op::Ne, "z");
    let out = compact(&vec![snapshot(0, rows, vec![pred])]).unwrap();
    assert_eq!(out.rows.len(), 1);
}

#[test]
fn not_equal_tombstone_deletes_null_tags() {
    // the null tag is taken for "different from MT" and its row goes too
    let rows = vec![
        Row::at(5).tag("tag1", "MT").tag("tag2", "AL").integer("field_int", 30),
        Row::at(50).tag("tag2", "MA").integer("field_int", 100),
        Row::at(100).tag("tag1", "CT").tag("tag2", "CT").integer("field_int", 70),
    ];
    let pred = eq_pred(1, 0, 200000, "tag1", Op::Ne, "MT");
    let out = compact(&vec![snapshot(0, rows, vec![pred])]).unwrap();
    assert_eq!(out.rows.len(), 1);
    assert_eq!(tag(&out.rows[0], "tag1"), Some("MT"));
}

#[test]
fn schema_conflict_is_an_error() {
    let a = snapshot(0, vec![Row::at(1).integer("v", 1)], vec![]);
    let b = snapshot(1, vec![Row::at(2).dec("v", 1, 0)], vec![]);
    match compact(&vec![a, b]) {
        Err(CompactError::SchemaConflict { column }) => assert_eq!(column, "v"),
        other => panic!("expected a schema conflict, got {:?}", other),
    }
}

#[test]
fn schemas_merge_as_union() {
    let a = ChunkSnapshot {
        order: 0,
        schema: vec![Column::new("region".into(), DataType::Tag), Column::new("user".into(), DataType::Decimal)],
        rows: vec![],
        tombstones: vec![],
    };
    let b = ChunkSnapshot {
        order: 1,
        schema: vec![Column::new("host".into(), DataType::Tag), Column::new("region".into(), DataType::Tag)],
        rows: vec![],
        tombstones: vec![],
    };
    let s = merge_schemas(&vec![a, b]).unwrap();
    let names: Vec<&str> = s.iter().map(|c| c.name.as_str()).collect();
    assert_eq!(names, vec!["region", "user", "host"]);
}

#[test]
fn sort_key_is_sorted_tag_names() {
    let a = snapshot(0, vec![Row::at(1).tag("b", "x").integer("f", 1).tag("a", "y")], vec![]);
    let b = snapshot(1, vec![Row::at(2).tag("c", "z").tag("a", "w")], vec![]);
    let out = compact(&vec![a, b]).unwrap();
    assert_eq!(out.sort_key, vec!["a".to_string(), "b".to_string(), "c".to_string()]);
}

#[test]
fn equal_tombstone_deletes_null_tags() {
    // a null tag is taken for "the comparison does not restrict the row"
    let rows = vec![
        Row::at(5).tag("tag1", "MT").tag("tag2", "AL").integer("field_int", 30),
        Row::at(50).tag("tag2", "MA").integer("field_int", 100),
        Row::at(100).tag("tag1", "CT").tag("tag2", "CT").integer("field_int", 70),
    ];
    let pred = eq_pred(1, 0, 200000, "tag1", Op::Eq, "MT");
    let out = compact(&vec![snapshot(0, rows, vec![pred])]).unwrap();
    assert_eq!(out.rows.len(), 1);
    assert_eq!(tag(&out.rows[0], "tag1"), Some("CT"));
}

#[test]
fn null_field_does_not_match() {
    let rows = vec![Row::at(5).tag("t", "a").integer("f", 1), Row::at(6).tag("t", "a")];
    let pred = DeletePredicate::new(
        1,
        TimestampRange::new(0, 100),
        vec![DeleteExpr::new("f".to_string(), Op::Ne, Scalar::I64(7))],
    );
    let out = compact(&vec![snapshot(0, rows, vec![pred])]).unwrap();
    let times: Vec<i64> = out.rows.iter().map(|r| r.time).collect();
    assert_eq!(times, vec![6]);
}

#[test]
fn test_compact_many_batches_different_columns_different_order_with_duplicates_with_many_deletes_2() {
    let rows = |v: &[(i64, Option<&str>, Option<&str>, i64)]| -> Vec<Row> {
        v.iter()
            .map(|(f, t1, t2, t)| {
                let mut r = Row::at(*t);
                if let Some(x) = t1 {
                    r = r.tag("tag1", x);
                }
                if let Some(x) = t2 {
                    r = r.tag("tag2", x);
                }
                r.integer("field_int", *f)
            })
            .collect()
    };
    let first = rows(&[
        (1000, Some("MT"), Some("CT"), 1000),
        (10, Some("AL"), Some("MA"), 50),
        (70, Some("CT"), Some("CT"), 100),
        (70, Some("CT"), Some("CT"), 500),
        (30, Some("MT"), Some("AL"), 5),
        (20, Some("MT"), Some("AL"), 7000),
    ]);
    let second = rows(&[
        (5, None, Some("AL"), 5000),
        (10, None, Some("AL"), 7000),
        (70, None, Some("CT"), 100),
        (100, None, Some("MA"), 50),
    ]);
    let tombstones = vec![
        DeletePredicate::new(
            100,
            TimestampRange::new(0, 200000),
            vec![
                DeleteExpr::new("tag2".to_string(), Op::Eq, Scalar::String("CT".to_string())),
                DeleteExpr::new("field_int".to_string(), Op::Eq, Scalar::I64(1000)),
            ],
        ),
        eq_pred(101, 0, 200000, "tag1", Op::Eq, "MT"),
    ];
    let out = compact(&vec![snapshot(0, first, tombstones), snapshot(1, second, vec![])]).unwrap();
    let got: Vec<(Option<i64>, Option<&str>, Option<&str>, i64)> = out
        .rows
        .iter()
        .map(|r| (field(r, "field_int"), tag(r, "tag1"), tag(r, "tag2"), r.time))
        .collect();
    assert_eq!(
        got,
        vec![
            (Some(10), Some("AL"), Some("MA"), 50),
            (Some(70), Some("CT"), Some("CT"), 100),
            (Some(70), Some("CT"), Some("CT"), 500),
        ]
    );
}
