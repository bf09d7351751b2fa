//! Rows, columns and the primary key that deduplication and sorting use.
use vstd::prelude::*;

verus! {

/// The type of a column.
#[derive(Debug, Clone, Copy, PartialEq, Eq, Structural)]
pub enum DataType {
    /// A dimension column: string valued, part of the primary key.
    Tag,
    I64,
    U64,
    Bool,
    Str,
    /// A decimal number, kept exactly as it was written.
    Decimal,
}

/// One value of a row.
#[derive(Debug)]
pub enum Value {
    Tag(String),
    I64(i64),
    U64(u64),
    Bool(bool),
    Str(String),
    /// `mantissa * 10^-scale`
    Decimal(i64, u32),
}

impl Value {
    pub open spec fn data_type(&self) -> DataType {
        match self {
            Value::Tag(_) => DataType::Tag,
            Value::I64(_) => DataType::I64,
            Value::U64(_) => DataType::U64,
            Value::Bool(_) => DataType::Bool,
            Value::Str(_) => DataType::Str,
            Value::Decimal(_, _) => DataType::Decimal,
        }
    }

    pub fn data_type_of(&self) -> (r: DataType)
        ensures
            r == self.data_type(),
    {
        match self {
            Value::Tag(_) => DataType::Tag,
            Value::I64(_) => DataType::I64,
            Value::U64(_) => DataType::U64,
            Value::Bool(_) => DataType::Bool,
            Value::Str(_) => DataType::Str,
            Value::Decimal(_, _) => DataType::Decimal,
        }
    }

    pub fn copy(&self) -> (r: Value)
        ensures
            r == *self,
    {
        match self {
            Value::Tag(s) => Value::Tag(s.clone()),
            Value::I64(v) => Value::I64(*v),
            Value::U64(v) => Value::U64(*v),
            Value::Bool(v) => Value::Bool(*v),
            Value::Str(s) => Value::Str(s.clone()),
            Value::Decimal(m, s) => Value::Decimal(*m, *s),
        }
    }
}

/// A named value.
#[derive(Debug)]
pub struct Cell {
    pub name: String,
    pub value: Value,
}

impl Cell {
    pub fn copy(&self) -> (r: Cell)
        ensures
            r == *self,
    {
        Cell { name: self.name.clone(), value: self.value.copy() }
    }
}

/// A column of a schema.
#[derive(Debug)]
pub struct Column {
    pub name: String,
    pub data_type: DataType,
}

impl Column {
    pub fn new(name: String, data_type: DataType) -> (r: Column)
        ensures
            r.name == name,
            r.data_type == data_type,
    {
        Column { name, data_type }
    }

    pub fn copy(&self) -> (r: Column)
        ensures
            r == *self,
    {
        Column { name: self.name.clone(), data_type: self.data_type }
    }
}

/// A row: its timestamp (nanoseconds) and its other values. A column that
/// the row does not name is null in it.
#[derive(Debug)]
pub struct Row {
    pub time: i64,
    pub cells: Vec<Cell>,
}

/// What a row is: its time and its cells.
pub type RowV = (i64, Seq<Cell>);

/// What a primary key is: the tag values in sort-key order, then the time.
pub type KeyV = (Seq<Option<Seq<char>>>, i64);

impl View for Row {
    type V = RowV;

    open spec fn view(&self) -> RowV {
        (self.time, self.cells@)
    }
}

/// The value of the first cell named `name`, if any.
pub open spec fn lookup(cells: Seq<Cell>, name: Seq<char>) -> Option<Value>
    decreases cells.len(),
{
    if cells.len() == 0 {
        None
    } else if cells[0].name@ == name {
        Some(cells[0].value)
    } else {
        lookup(cells.drop_first(), name)
    }
}

/// The tag value of column `name`; null where the row has none.
pub open spec fn tag_of(cells: Seq<Cell>, name: Seq<char>) -> Option<Seq<char>> {
    match lookup(cells, name) {
        Some(Value::Tag(s)) => Some(s@),
        _ => None,
    }
}

pub open spec fn names_view(names: Seq<String>) -> Seq<Seq<char>> {
    names.map_values(|n: String| n@)
}

/// The primary key of a row under a sort key (a list of tag names).
pub open spec fn row_key(r: RowV, sort_key: Seq<Seq<char>>) -> KeyV {
    (sort_key.map_values(|n: Seq<char>| tag_of(r.1, n)), r.0)
}

pub open spec fn rows_view(rows: Seq<Row>) -> Seq<RowV> {
    rows.map_values(|r: Row| r@)
}

/// Strings compare lexicographically, by code point.
pub open spec fn chars_lt(a: Seq<char>, b: Seq<char>) -> bool
    decreases a.len(),
{
    if a.len() == 0 {
        b.len() > 0
    } else if b.len() == 0 {
        false
    } else if a[0] != b[0] {
        (a[0] as int) < (b[0] as int)
    } else {
        chars_lt(a.drop_first(), b.drop_first())
    }
}

/// Nulls sort first.
pub open spec fn opt_lt(a: Option<Seq<char>>, b: Option<Seq<char>>) -> bool {
    match (a, b) {
        (None, Some(_)) => true,
        (Some(x), Some(y)) => chars_lt(x, y),
        _ => false,
    }
}

/// Lexicographic order of tag-value lists: `a` is below `b` at the first place
/// where they differ.
pub open spec fn tags_lt(a: Seq<Option<Seq<char>>>, b: Seq<Option<Seq<char>>>) -> bool {
    exists|j: int|
        0 <= j < a.len() && j < b.len() && opt_lt(a[j], b[j]) && (forall|i: int|
            0 <= i < j ==> a[i] == b[i])
}

/// The order of primary keys: tags first, then time.
pub open spec fn key_lt(a: KeyV, b: KeyV) -> bool {
    tags_lt(a.0, b.0) || (a.0 == b.0 && a.1 < b.1)
}

pub proof fn lemma_chars_lt_irreflexive(a: Seq<char>)
    ensures
        !chars_lt(a, a),
    decreases a.len(),
{
    if a.len() > 0 {
        lemma_chars_lt_irreflexive(a.drop_first());
    }
}

pub proof fn lemma_chars_lt_asymmetric(a: Seq<char>, b: Seq<char>)
    ensures
        !(chars_lt(a, b) && chars_lt(b, a)),
    decreases a.len(),
{
    if a.len() > 0 && b.len() > 0 && a[0] == b[0] {
        lemma_chars_lt_asymmetric(a.drop_first(), b.drop_first());
    }
}

pub proof fn lemma_chars_lt_transitive(a: Seq<char>, b: Seq<char>, c: Seq<char>)
    requires
        chars_lt(a, b),
        chars_lt(b, c),
    ensures
        chars_lt(a, c),
    decreases a.len(),
{
    if a.len() > 0 && b.len() > 0 && c.len() > 0 {
        if a[0] == b[0] && b[0] == c[0] {
            lemma_chars_lt_transitive(a.drop_first(), b.drop_first(), c.drop_first());
        }
    }
}

pub proof fn lemma_chars_lt_total(a: Seq<char>, b: Seq<char>)
    requires
        a != b,
    ensures
        chars_lt(a, b) || chars_lt(b, a),
    decreases a.len(),
{
    if a.len() > 0 && b.len() > 0 {
        if a[0] == b[0] {
            if a.drop_first() == b.drop_first() {
                assert(a =~= seq![a[0]] + a.drop_first());
                assert(b =~= seq![b[0]] + b.drop_first());
            }
            lemma_chars_lt_total(a.drop_first(), b.drop_first());
        } else {
            assert((a[0] as int) != (b[0] as int));
        }
    } else if a.len() == 0 && b.len() == 0 {
        assert(a =~= b);
    }
}

pub proof fn lemma_opt_lt_irreflexive(a: Option<Seq<char>>)
    ensures
        !opt_lt(a, a),
{
    if let Some(x) = a {
        lemma_chars_lt_irreflexive(x);
    }
}

pub proof fn lemma_opt_lt_asymmetric(a: Option<Seq<char>>, b: Option<Seq<char>>)
    ensures
        !(opt_lt(a, b) && opt_lt(b, a)),
{
    if let (Some(x), Some(y)) = (a, b) {
        lemma_chars_lt_asymmetric(x, y);
    }
}

pub proof fn lemma_opt_lt_transitive(a: Option<Seq<char>>, b: Option<Seq<char>>, c: Option<Seq<char>>)
    requires
        opt_lt(a, b),
        opt_lt(b, c),
    ensures
        opt_lt(a, c),
{
    if let (Some(x), Some(y), Some(z)) = (a, b, c) {
        lemma_chars_lt_transitive(x, y, z);
    }
}

pub proof fn lemma_tags_lt_irreflexive(a: Seq<Option<Seq<char>>>)
    ensures
        !tags_lt(a, a),
{
    assert forall|j: int| 0 <= j < a.len() implies !opt_lt(a[j], a[j]) by {
        lemma_opt_lt_irreflexive(a[j]);
    }
}

pub proof fn lemma_tags_lt_asymmetric(a: Seq<Option<Seq<char>>>, b: Seq<Option<Seq<char>>>)
    ensures
        !(tags_lt(a, b) && tags_lt(b, a)),
{
    if tags_lt(a, b) && tags_lt(b, a) {
        let j1 = choose|j: int|
            0 <= j < a.len() && j < b.len() && opt_lt(a[j], b[j]) && (forall|i: int|
                0 <= i < j ==> a[i] == b[i]);
        let j2 = choose|j: int|
            0 <= j < b.len() && j < a.len() && opt_lt(b[j], a[j]) && (forall|i: int|
                0 <= i < j ==> b[i] == a[i]);
        if j1 < j2 {
            lemma_opt_lt_irreflexive(a[j1]);
        } else if j2 < j1 {
            lemma_opt_lt_irreflexive(a[j2]);
        } else {
            lemma_opt_lt_asymmetric(a[j1], b[j1]);
        }
    }
}

pub proof fn lemma_tags_lt_transitive(
    a: Seq<Option<Seq<char>>>,
    b: Seq<Option<Seq<char>>>,
    c: Seq<Option<Seq<char>>>,
)
    requires
        tags_lt(a, b),
        tags_lt(b, c),
    ensures
        tags_lt(a, c),
{
    let j1 = choose|j: int|
        0 <= j < a.len() && j < b.len() && opt_lt(a[j], b[j]) && (forall|i: int|
            0 <= i < j ==> a[i] == b[i]);
    let j2 = choose|j: int|
        0 <= j < b.len() && j < c.len() && opt_lt(b[j], c[j]) && (forall|i: int|
            0 <= i < j ==> b[i] == c[i]);
    if j1 < j2 {
        assert(0 <= j1 < a.len() && j1 < c.len() && opt_lt(a[j1], c[j1]) && (forall|i: int|
            0 <= i < j1 ==> a[i] == c[i]));
    } else if j2 < j1 {
        assert(0 <= j2 < a.len() && j2 < c.len() && opt_lt(a[j2], c[j2]) && (forall|i: int|
            0 <= i < j2 ==> a[i] == c[i]));
    } else {
        lemma_opt_lt_transitive(a[j1], b[j1], c[j1]);
        assert(0 <= j1 < a.len() && j1 < c.len() && opt_lt(a[j1], c[j1]) && (forall|i: int|
            0 <= i < j1 ==> a[i] == c[i]));
    }
}

pub proof fn lemma_key_lt_asymmetric(a: KeyV, b: KeyV)
    ensures
        !(key_lt(a, b) && key_lt(b, a)),
{
    lemma_tags_lt_asymmetric(a.0, b.0);
    lemma_tags_lt_irreflexive(a.0);
}

pub proof fn lemma_key_lt_transitive(a: KeyV, b: KeyV, c: KeyV)
    requires
        key_lt(a, b),
        key_lt(b, c),
    ensures
        key_lt(a, c),
{
    if tags_lt(a.0, b.0) && tags_lt(b.0, c.0) {
        lemma_tags_lt_transitive(a.0, b.0, c.0);
    }
}

pub open spec fn opt_view(o: Option<String>) -> Option<Seq<char>> {
    match o {
        Some(s) => Some(s@),
        None => None,
    }
}

/// The primary key of one row, as values.
#[derive(Debug)]
pub struct Key {
    pub tags: Vec<Option<String>>,
    pub time: i64,
}

impl View for Key {
    type V = KeyV;

    open spec fn view(&self) -> KeyV {
        (self.tags@.map_values(|o: Option<String>| opt_view(o)), self.time)
    }
}

impl Row {
    /// A row at `time` without values.
    pub fn at(time: i64) -> (r: Row)
        ensures
            r.time == time,
            r.cells@.len() == 0,
    {
        Row { time, cells: Vec::new() }
    }

    /// This row with one more value.
    pub fn with(self, name: &str, value: Value) -> (r: Row)
        ensures
            r.time == self.time,
            r.cells@.len() == self.cells@.len() + 1,
            r.cells@.drop_last() == self.cells@,
            r.cells@.last().name@ == name@,
            r.cells@.last().value == value,
    {
        let mut cells = self.cells;
        cells.push(Cell { name: name.to_owned(), value });
        assert(cells@.drop_last() =~= self.cells@);
        Row { time: self.time, cells }
    }

    /// This row with tag `name` set to `value`.
    pub fn tag(self, name: &str, value: &str) -> (r: Row)
        ensures
            r.time == self.time,
            r.cells@.len() == self.cells@.len() + 1,
            r.cells@.drop_last() == self.cells@,
            r.cells@.last().name@ == name@,
            r.cells@.last().value matches Value::Tag(v) && v@ == value@,
    {
        self.with(name, Value::Tag(value.to_owned()))
    }

    /// This row with decimal field `name` set to `mantissa * 10^-scale`.
    pub fn dec(self, name: &str, mantissa: i64, scale: u32) -> (r: Row)
        ensures
            r.time == self.time,
            r.cells@.len() == self.cells@.len() + 1,
            r.cells@.drop_last() == self.cells@,
            r.cells@.last().name@ == name@,
            r.cells@.last().value == Value::Decimal(mantissa, scale),
    {
        self.with(name, Value::Decimal(mantissa, scale))
    }

    pub fn integer(self, name: &str, v: i64) -> (r: Row)
        ensures
            r.time == self.time,
            r.cells@.drop_last() == self.cells@,
            r.cells@.last().name@ == name@,
            r.cells@.last().value == Value::I64(v),
    {
        self.with(name, Value::I64(v))
    }

    pub fn unsigned(self, name: &str, v: u64) -> (r: Row)
        ensures
            r.time == self.time,
            r.cells@.drop_last() == self.cells@,
            r.cells@.last().name@ == name@,
            r.cells@.last().value == Value::U64(v),
    {
        self.with(name, Value::U64(v))
    }

    pub fn boolean(self, name: &str, v: bool) -> (r: Row)
        ensures
            r.time == self.time,
            r.cells@.drop_last() == self.cells@,
            r.cells@.last().name@ == name@,
            r.cells@.last().value == Value::Bool(v),
    {
        self.with(name, Value::Bool(v))
    }

    pub fn string(self, name: &str, v: &str) -> (r: Row)
        ensures
            r.time == self.time,
            r.cells@.drop_last() == self.cells@,
            r.cells@.last().name@ == name@,
            r.cells@.last().value matches Value::Str(s) && s@ == v@,
    {
        self.with(name, Value::Str(v.to_owned()))
    }

    /// The columns that this row's values declare.
    pub fn schema(&self) -> (r: Vec<Column>)
        ensures
            r@.len() == self.cells@.len(),
            forall|i: int|
                0 <= i < r@.len() ==> (#[trigger] r@[i]).name == self.cells@[i].name
                    && r@[i].data_type == self.cells@[i].value.data_type(),
    {
        let mut r: Vec<Column> = Vec::new();
        let mut i: usize = 0;
        while i < self.cells.len()
            invariant
                i <= self.cells.len(),
                r@.len() == i,
                forall|j: int|
                    0 <= j < i ==> (#[trigger] r@[j]).name == self.cells@[j].name
                        && r@[j].data_type == self.cells@[j].value.data_type(),
            decreases self.cells.len() - i,
        {
            r.push(Column::new(self.cells[i].name.clone(), self.cells[i].value.data_type_of()));
            i += 1;
        }
        r
    }

    pub fn copy(&self) -> (r: Row)
        ensures
            r@ == self@,
    {
        let mut cells: Vec<Cell> = Vec::new();
        let mut i: usize = 0;
        while i < self.cells.len()
            invariant
                i <= self.cells.len(),
                cells@ == self.cells@.take(i as int),
            decreases self.cells.len() - i,
        {
            cells.push(self.cells[i].copy());
            i += 1;
            assert(cells@ =~= self.cells@.take(i as int));
        }
        assert(cells@ =~= self.cells@);
        Row { time: self.time, cells }
    }

    /// The primary key of this row under `sort_key`.
    pub fn key(&self, sort_key: &Vec<String>) -> (k: Key)
        ensures
            k@ == row_key(self@, names_view(sort_key@)),
            k.tags.len() == sort_key.len(),
    {
        let mut tags: Vec<Option<String>> = Vec::new();
        let mut i: usize = 0;
        while i < sort_key.len()
            invariant
                i <= sort_key.len(),
                tags.len() == i,
                forall|j: int|
                    0 <= j < i ==> opt_view(#[trigger] tags@[j]) == tag_of(self.cells@, sort_key@[j]@),
            decreases sort_key.len() - i,
        {
            tags.push(tag_value(&self.cells, &sort_key[i]));
            i += 1;
        }
        let k = Key { tags, time: self.time };
        assert(k@.0 =~= row_key(self@, names_view(sort_key@)).0);
        k
    }
}

/// Where the first cell named `name` stands.
pub fn find_cell(cells: &Vec<Cell>, name: &String) -> (r: Option<usize>)
    ensures
        match r {
            Some(i) => i < cells.len() && lookup(cells@, name@) == Some(cells@[i as int].value),
            None => lookup(cells@, name@) == None::<Value>,
        },
{
    let mut i: usize = 0;
    assert(cells@.subrange(0, cells.len() as int) =~= cells@);
    while i < cells.len()
        invariant
            i <= cells.len(),
            lookup(cells@, name@) == lookup(cells@.subrange(i as int, cells.len() as int), name@),
        decreases cells.len() - i,
    {
        let ghost rest = cells@.subrange(i as int, cells.len() as int);
        assert(rest.drop_first() =~= cells@.subrange(i + 1, cells.len() as int));
        if cells[i].name == *name {
            return Some(i);
        }
        i += 1;
    }
    None
}

/// The tag value of column `name` in `cells`.
pub fn tag_value(cells: &Vec<Cell>, name: &String) -> (r: Option<String>)
    ensures
        opt_view(r) == tag_of(cells@, name@),
{
    match find_cell(cells, name) {
        Some(i) => match &cells[i].value {
            Value::Tag(s) => Some(s.clone()),
            _ => None,
        },
        None => None,
    }
}

fn opt_eq(a: &Option<String>, b: &Option<String>) -> (r: bool)
    ensures
        r == (opt_view(*a) == opt_view(*b)),
{
    match (a, b) {
        (Some(x), Some(y)) => *x == *y,
        (None, None) => true,
        _ => false,
    }
}

fn opt_less(a: &Option<String>, b: &Option<String>) -> (r: bool)
    ensures
        r == opt_lt(opt_view(*a), opt_view(*b)),
{
    match (a, b) {
        (Some(x), Some(y)) => match compare_strings(x, y) {
            std::cmp::Ordering::Less => true,
            _ => false,
        },
        (None, Some(_)) => true,
        _ => false,
    }
}

impl Key {
    pub fn equals(&self, other: &Key) -> (r: bool)
        ensures
            r == (self@ == other@),
    {
        if self.tags.len() != other.tags.len() || self.time != other.time {
            assert(self@.0.len() != other@.0.len() || self@.1 != other@.1);
            return false;
        }
        let mut i: usize = 0;
        while i < self.tags.len()
            invariant
                i <= self.tags.len(),
                self.tags.len() == other.tags.len(),
                forall|j: int| 0 <= j < i ==> self@.0[j] == other@.0[j],
            decreases self.tags.len() - i,
        {
            if !opt_eq(&self.tags[i], &other.tags[i]) {
                assert(self@.0[i as int] != other@.0[i as int]);
                return false;
            }
            i += 1;
        }
        assert(self@.0 =~= other@.0);
        true
    }

    /// Whether this key sorts before `other`.
    pub fn less(&self, other: &Key) -> (r: bool)
        requires
            self.tags.len() == other.tags.len(),
        ensures
            r == key_lt(self@, other@),
    {
        let ghost a = self@.0;
        let ghost b = other@.0;
        let mut i: usize = 0;
        while i < self.tags.len()
            invariant
                i <= self.tags.len(),
                self.tags.len() == other.tags.len(),
                a == self@.0,
                b == other@.0,
                forall|j: int| 0 <= j < i ==> a[j] == b[j],
            decreases self.tags.len() - i,
        {
            if !opt_eq(&self.tags[i], &other.tags[i]) {
                let lt = opt_less(&self.tags[i], &other.tags[i]);
                proof {
                    let ii = i as int;
                    assert(a[ii] == opt_view(self.tags@[ii]));
                    assert(b[ii] == opt_view(other.tags@[ii]));
                    assert(a[ii] != b[ii]);
                    if lt {
                        assert(0 <= ii < a.len() && ii < b.len() && opt_lt(a[ii], b[ii]) && (
                        forall|k: int| 0 <= k < ii ==> a[k] == b[k]));
                    } else {
                        if tags_lt(a, b) {
                            let j = choose|j: int|
                                0 <= j < a.len() && j < b.len() && opt_lt(a[j], b[j]) && (forall|
                                    k: int,
                                | 0 <= k < j ==> a[k] == b[k]);
                            if j < ii {
                                lemma_opt_lt_irreflexive(a[j]);
                            } else if j > ii {
                                assert(a[ii] == b[ii]);
                            }
                        }
                    }
                }
                return lt;
            }
            i += 1;
        }
        proof {
            assert(a =~= b);
            lemma_tags_lt_irreflexive(a);
        }
        self.time < other.time
    }
}

/// How two names compare, by code point.
pub fn compare_names(a: &String, b: &String) -> (r: std::cmp::Ordering)
    ensures
        (r == std::cmp::Ordering::Less) == chars_lt(a@, b@),
        (r == std::cmp::Ordering::Equal) == (a@ == b@),
        (r == std::cmp::Ordering::Greater) == chars_lt(b@, a@),
{
    compare_strings(a, b)
}

/// Relies on `Ord for String`: strings are ordered lexicographically by their
/// UTF-8 bytes, which orders them char by char in code-point order.
#[verifier::external_body]
fn compare_strings(a: &String, b: &String) -> (r: std::cmp::Ordering)
    ensures
        (r == std::cmp::Ordering::Less) == chars_lt(a@, b@),
        (r == std::cmp::Ordering::Equal) == (a@ == b@),
        (r == std::cmp::Ordering::Greater) == chars_lt(b@, a@),
{
    a.cmp(b)
}

} // verus!
