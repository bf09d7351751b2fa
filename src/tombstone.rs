//! Delete predicates (tombstones): a time range and a conjunction of column
//! comparisons. A row that a tombstone matches is deleted.
use crate::row::{find_cell, lookup, names_view, Cell, Row, RowV, Value};
use vstd::prelude::*;

verus! {

/// An inclusive range of timestamps.
#[derive(Debug, Clone, Copy, PartialEq, Eq, Structural)]
pub struct TimestampRange {
    pub start: i64,
    pub end: i64,
}

impl TimestampRange {
    pub fn new(start: i64, end: i64) -> (r: TimestampRange)
        ensures
            r.start == start,
            r.end == end,
    {
        TimestampRange { start, end }
    }

    pub fn contains(&self, t: i64) -> (r: bool)
        ensures
            r == (self.start <= t <= self.end),
    {
        self.start <= t && t <= self.end
    }
}

#[derive(Debug, Clone, Copy, PartialEq, Eq, Structural)]
pub enum Op {
    Eq,
    Ne,
}

/// The constant a delete expression compares with.
#[derive(Debug)]
pub enum Scalar {
    Bool(bool),
    I64(i64),
    String(String),
    /// `mantissa * 10^-scale`, equal to a decimal value written the same way.
    Decimal(i64, u32),
}

impl Scalar {
    pub fn copy(&self) -> (r: Scalar)
        ensures
            r == *self,
    {
        match self {
            Scalar::Bool(b) => Scalar::Bool(*b),
            Scalar::I64(v) => Scalar::I64(*v),
            Scalar::String(s) => Scalar::String(s.clone()),
            Scalar::Decimal(m, e) => Scalar::Decimal(*m, *e),
        }
    }
}

/// `column op scalar`
#[derive(Debug)]
pub struct DeleteExpr {
    pub column: String,
    pub op: Op,
    pub scalar: Scalar,
}

impl DeleteExpr {
    pub fn new(column: String, op: Op, scalar: Scalar) -> (r: DeleteExpr)
        ensures
            r.column == column,
            r.op == op,
            r.scalar == scalar,
    {
        DeleteExpr { column, op, scalar }
    }

    pub fn copy(&self) -> (r: DeleteExpr)
        ensures
            r == *self,
    {
        DeleteExpr { column: self.column.clone(), op: self.op, scalar: self.scalar.copy() }
    }
}

/// A tombstone. `id` is its identity: two tombstones with the same id are
/// the same delete, whatever their content.
#[derive(Debug)]
pub struct DeletePredicate {
    pub id: u64,
    pub range: TimestampRange,
    pub exprs: Vec<DeleteExpr>,
}

/// A value equals a scalar when both have the same kind and content.
pub open spec fn scalar_matches(v: Value, s: Scalar) -> bool {
    match (v, s) {
        (Value::Tag(a), Scalar::String(b)) => a@ == b@,
        (Value::Str(a), Scalar::String(b)) => a@ == b@,
        (Value::I64(a), Scalar::I64(b)) => a == b,
        (Value::Bool(a), Scalar::Bool(b)) => a == b,
        (Value::Decimal(m, e), Scalar::Decimal(n, f)) => m == n && e == f,
        _ => false,
    }
}

/// A comparison on a value compares it with the constant. On a null tag
/// (a column of `tags` that the row leaves unset) it holds whatever the
/// operator, `=` as well as `!=`: a null tag is taken for "this comparison
/// does not restrict the row", so a tombstone on a tag also deletes the rows
/// where that tag is null. On a null field it fails.
pub open spec fn expr_matches(e: DeleteExpr, cells: Seq<Cell>, tags: Seq<Seq<char>>) -> bool {
    match lookup(cells, e.column@) {
        Some(v) => scalar_matches(v, e.scalar) == (e.op == Op::Eq),
        None => tags.contains(e.column@),
    }
}

/// A tombstone deletes a row when the row's time is in its range, every
/// column it names is among `names` (the columns that some current row
/// sets), and every comparison holds. One that names a column no current
/// row sets matches nothing.
pub open spec fn pred_matches(
    p: DeletePredicate,
    names: Seq<Seq<char>>,
    tags: Seq<Seq<char>>,
    r: RowV,
) -> bool {
    &&& p.range.start <= r.0 <= p.range.end
    &&& forall|i: int|
        0 <= i < p.exprs@.len() ==> names.contains(#[trigger] p.exprs@[i].column@)
            && expr_matches(p.exprs@[i], r.1, tags)
}

pub open spec fn is_deleted(
    preds: Seq<DeletePredicate>,
    names: Seq<Seq<char>>,
    tags: Seq<Seq<char>>,
    r: RowV,
) -> bool {
    exists|i: int| 0 <= i < preds.len() && pred_matches(#[trigger] preds[i], names, tags, r)
}

pub open spec fn pred_ids(preds: Seq<DeletePredicate>) -> Seq<u64> {
    preds.map_values(|p: DeletePredicate| p.id)
}

fn value_matches(v: &Value, s: &Scalar) -> (r: bool)
    ensures
        r == scalar_matches(*v, *s),
{
    match (v, s) {
        (Value::Tag(a), Scalar::String(b)) => *a == *b,
        (Value::Str(a), Scalar::String(b)) => *a == *b,
        (Value::I64(a), Scalar::I64(b)) => *a == *b,
        (Value::Bool(a), Scalar::Bool(b)) => *a == *b,
        (Value::Decimal(m, e), Scalar::Decimal(n, f)) => *m == *n && *e == *f,
        _ => false,
    }
}

fn has_name(names: &Vec<String>, name: &String) -> (r: bool)
    ensures
        r == names_view(names@).contains(name@),
{
    let mut i: usize = 0;
    while i < names.len()
        invariant
            i <= names.len(),
            forall|j: int| 0 <= j < i ==> names@[j]@ != name@,
        decreases names.len() - i,
    {
        if names[i] == *name {
            assert(names_view(names@)[i as int] == name@);
            return true;
        }
        i += 1;
    }
    proof {
        if names_view(names@).contains(name@) {
            let j = choose|j: int|
                0 <= j < names_view(names@).len() && names_view(names@)[j] == name@;
            assert(names@[j]@ == name@);
        }
    }
    false
}

impl DeletePredicate {
    pub fn new(id: u64, range: TimestampRange, exprs: Vec<DeleteExpr>) -> (r: DeletePredicate)
        ensures
            r.id == id,
            r.range == range,
            r.exprs == exprs,
    {
        DeletePredicate { id, range, exprs }
    }

    pub fn copy(&self) -> (r: DeletePredicate)
        ensures
            r.id == self.id,
            r.range == self.range,
            r.exprs@ == self.exprs@,
    {
        let mut exprs: Vec<DeleteExpr> = Vec::new();
        let mut i: usize = 0;
        while i < self.exprs.len()
            invariant
                i <= self.exprs.len(),
                exprs@ == self.exprs@.take(i as int),
            decreases self.exprs.len() - i,
        {
            exprs.push(self.exprs[i].copy());
            i += 1;
            assert(exprs@ =~= self.exprs@.take(i as int));
        }
        assert(exprs@ =~= self.exprs@);
        DeletePredicate { id: self.id, range: self.range, exprs }
    }

    /// Whether this tombstone deletes `row`, where `names` are the columns
    /// that current rows set and `tags` the tag columns.
    pub fn matches(&self, names: &Vec<String>, tags: &Vec<String>, row: &Row) -> (r: bool)
        ensures
            r == pred_matches(*self, names_view(names@), names_view(tags@), row@),
    {
        if !self.range.contains(row.time) {
            return false;
        }
        let mut i: usize = 0;
        while i < self.exprs.len()
            invariant
                i <= self.exprs.len(),
                self.range.start <= row.time <= self.range.end,
                forall|j: int|
                    0 <= j < i ==> names_view(names@).contains(#[trigger] self.exprs@[j].column@)
                        && expr_matches(self.exprs@[j], row.cells@, names_view(tags@)),
            decreases self.exprs.len() - i,
        {
            let e = &self.exprs[i];
            if !has_name(names, &e.column) {
                return false;
            }
            let holds = match find_cell(&row.cells, &e.column) {
                Some(k) => value_matches(&row.cells[k].value, &e.scalar) == (e.op == Op::Eq),
                None => has_name(tags, &e.column),
            };
            if !holds {
                return false;
            }
            i += 1;
        }
        true
    }
}

/// Whether any of `preds` deletes `row`.
pub fn row_deleted(
    preds: &Vec<DeletePredicate>,
    names: &Vec<String>,
    tags: &Vec<String>,
    row: &Row,
) -> (r: bool)
    ensures
        r == is_deleted(preds@, names_view(names@), names_view(tags@), row@),
{
    let mut i: usize = 0;
    while i < preds.len()
        invariant
            i <= preds.len(),
            forall|j: int|
                0 <= j < i ==> !pred_matches(
                    #[trigger] preds@[j],
                    names_view(names@),
                    names_view(tags@),
                    row@,
                ),
        decreases preds.len() - i,
    {
        if preds[i].matches(names, tags, row) {
            return true;
        }
        i += 1;
    }
    false
}

/// Whether a tombstone with identity `id` is among `preds`.
pub fn contains_id(preds: &Vec<DeletePredicate>, id: u64) -> (r: bool)
    ensures
        r == pred_ids(preds@).contains(id),
{
    let mut i: usize = 0;
    while i < preds.len()
        invariant
            i <= preds.len(),
            forall|j: int| 0 <= j < i ==> preds@[j].id != id,
        decreases preds.len() - i,
    {
        if preds[i].id == id {
            assert(pred_ids(preds@)[i as int] == id);
            return true;
        }
        i += 1;
    }
    proof {
        if pred_ids(preds@).contains(id) {
            let j = choose|j: int| 0 <= j < pred_ids(preds@).len() && pred_ids(preds@)[j] == id;
            assert(preds@[j].id == id);
        }
    }
    false
}

} // verus!
