//! The deduplicating merge of chunks: one row per primary key (the row of the
//! chunk with the highest order wins whole), tombstones applied to the
//! winning rows, output sorted by key, optionally split at a timestamp.
use crate::row::{
    chars_lt, compare_names, lemma_chars_lt_total, lemma_chars_lt_transitive, key_lt, lemma_key_lt_asymmetric, lemma_key_lt_transitive, names_view, row_key, rows_view,
    Column, DataType, Key, KeyV, Row, RowV,
};
use crate::tombstone::{is_deleted, row_deleted, DeletePredicate};
use vstd::prelude::*;

verus! {

/// What a chunk hands to a compaction: its order, schema, rows and pending
/// tombstones.
#[derive(Debug)]
pub struct ChunkSnapshot {
    pub order: u64,
    pub schema: Vec<Column>,
    pub rows: Vec<Row>,
    pub tombstones: Vec<DeletePredicate>,
}

/// One input row with the order of its chunk.
pub struct Entry {
    pub order: u64,
    pub row: Row,
}

pub open spec fn entries_view(es: Seq<Entry>) -> Seq<(u64, RowV)> {
    es.map_values(|x: Entry| (x.order, x.row@))
}

/// All input rows, chunk after chunk, each with the order of its chunk.
pub open spec fn entries_of(chunks: Seq<ChunkSnapshot>) -> Seq<(u64, RowV)>
    decreases chunks.len(),
{
    if chunks.len() == 0 {
        Seq::empty()
    } else {
        entries_of(chunks.drop_last()) + chunks.last().rows@.map_values(
            |r: Row| (chunks.last().order, r@),
        )
    }
}

/// Entry `w` wins its key: no entry with the same key has a higher order, and
/// no later one has the same order (within a chunk, the later row wins).
pub open spec fn is_winner(e: Seq<(u64, RowV)>, sk: Seq<Seq<char>>, w: int) -> bool {
    &&& 0 <= w < e.len()
    &&& forall|x: int|
        0 <= x < e.len() && #[trigger] row_key(e[x].1, sk) == row_key(e[w].1, sk) ==> (x < w
            ==> e[x].0 <= e[w].0) && (x > w ==> e[x].0 < e[w].0)
}

pub open spec fn distinct_keys(out: Seq<RowV>, sk: Seq<Seq<char>>) -> bool {
    forall|i: int, j: int|
        0 <= i < out.len() && 0 <= j < out.len() && i != j ==> row_key(out[i], sk) != row_key(
            out[j],
            sk,
        )
}

pub open spec fn sorted_by_key(out: Seq<RowV>, sk: Seq<Seq<char>>) -> bool {
    forall|i: int, j: int|
        0 <= i < j < out.len() ==> !key_lt(row_key(out[j], sk), row_key(out[i], sk))
}

/// `r` is the winning row of some key of `e`.
pub open spec fn is_winning_row(e: Seq<(u64, RowV)>, sk: Seq<Seq<char>>, r: RowV) -> bool {
    exists|w: int| #[trigger] is_winner(e, sk, w) && r == e[w].1
}

/// `out` holds exactly the winning rows of `e`, one per key.
pub open spec fn dedup_of(e: Seq<(u64, RowV)>, sk: Seq<Seq<char>>, out: Seq<RowV>) -> bool {
    &&& forall|i: int| 0 <= i < out.len() ==> #[trigger] is_winning_row(e, sk, out[i])
    &&& forall|w: int|
        #[trigger] is_winner(e, sk, w) ==> exists|i: int| 0 <= i < out.len() && out[i] == e[w].1
    &&& distinct_keys(out, sk)
}

pub proof fn lemma_winner_unique(e: Seq<(u64, RowV)>, sk: Seq<Seq<char>>, w1: int, w2: int)
    requires
        is_winner(e, sk, w1),
        is_winner(e, sk, w2),
        row_key(e[w1].1, sk) == row_key(e[w2].1, sk),
    ensures
        w1 == w2,
{
    if w1 < w2 {
        assert(row_key(e[w1].1, sk) == row_key(e[w2].1, sk));
    } else if w2 < w1 {
        assert(row_key(e[w2].1, sk) == row_key(e[w1].1, sk));
    }
}

/// Appending an entry leaves the winners of other keys as they were.
proof fn lemma_winner_other_key(e: Seq<(u64, RowV)>, sk: Seq<Seq<char>>, x: (u64, RowV), w: int)
    requires
        0 <= w < e.len(),
        row_key(e[w].1, sk) != row_key(x.1, sk),
    ensures
        is_winner(e.push(x), sk, w) == is_winner(e, sk, w),
{
    let f = e.push(x);
    assert(f[w] == e[w]);
    if is_winner(e, sk, w) {
        assert forall|y: int|
            0 <= y < f.len() && #[trigger] row_key(f[y].1, sk) == row_key(f[w].1, sk) implies (y < w
            ==> f[y].0 <= f[w].0) && (y > w ==> f[y].0 < f[w].0) by {
            if y < e.len() {
                assert(f[y] == e[y]);
                assert(row_key(e[y].1, sk) == row_key(e[w].1, sk));
            }
        }
    }
    if is_winner(f, sk, w) {
        assert forall|y: int|
            0 <= y < e.len() && #[trigger] row_key(e[y].1, sk) == row_key(e[w].1, sk) implies (y < w
            ==> e[y].0 <= e[w].0) && (y > w ==> e[y].0 < e[w].0) by {
            assert(f[y] == e[y]);
            assert(row_key(f[y].1, sk) == row_key(f[w].1, sk));
        }
    }
}

/// An entry whose key is new wins it.
proof fn lemma_winner_fresh(e: Seq<(u64, RowV)>, sk: Seq<Seq<char>>, x: (u64, RowV))
    requires
        forall|y: int| 0 <= y < e.len() ==> row_key(#[trigger] e[y].1, sk) != row_key(x.1, sk),
    ensures
        is_winner(e.push(x), sk, e.len() as int),
{
    let f = e.push(x);
    assert forall|y: int|
        0 <= y < f.len() && #[trigger] row_key(f[y].1, sk) == row_key(f[e.len() as int].1, sk) implies (y
        < e.len() ==> f[y].0 <= f[e.len() as int].0) && (y > e.len() ==> f[y].0 < f[
        e.len() as int].0) by {
        if y < e.len() {
            assert(f[y] == e[y]);
        }
    }
}

/// An entry whose key already has winner `w`: the one with the higher order
/// wins, and the new one on a tie.
proof fn lemma_winner_same_key(e: Seq<(u64, RowV)>, sk: Seq<Seq<char>>, x: (u64, RowV), w: int)
    requires
        is_winner(e, sk, w),
        row_key(e[w].1, sk) == row_key(x.1, sk),
    ensures
        x.0 >= e[w].0 ==> is_winner(e.push(x), sk, e.len() as int),
        x.0 < e[w].0 ==> is_winner(e.push(x), sk, w),
{
    let f = e.push(x);
    let n = e.len() as int;
    assert(f[w] == e[w]);
    assert(f[n] == x);
    if x.0 >= e[w].0 {
        assert forall|y: int|
            0 <= y < f.len() && #[trigger] row_key(f[y].1, sk) == row_key(f[n].1, sk) implies (y
            < n ==> f[y].0 <= f[n].0) && (y > n ==> f[y].0 < f[n].0) by {
            if y < n {
                assert(f[y] == e[y]);
                assert(row_key(e[y].1, sk) == row_key(e[w].1, sk));
            }
        }
    } else {
        assert forall|y: int|
            0 <= y < f.len() && #[trigger] row_key(f[y].1, sk) == row_key(f[w].1, sk) implies (y
            < w ==> f[y].0 <= f[w].0) && (y > w ==> f[y].0 < f[w].0) by {
            if y < n {
                assert(f[y] == e[y]);
                assert(row_key(e[y].1, sk) == row_key(e[w].1, sk));
            }
        }
    }
}

spec fn holds_key(out: Seq<Row>, sk: Seq<Seq<char>>, k: KeyV) -> bool {
    exists|i: int| 0 <= i < out.len() && #[trigger] row_key(out[i]@, sk) == k
}

fn find_key(keys: &Vec<Key>, k: &Key) -> (r: Option<usize>)
    ensures
        match r {
            Some(q) => q < keys.len() && keys@[q as int]@ == k@,
            None => forall|t: int| 0 <= t < keys.len() ==> keys@[t]@ != k@,
        },
{
    let mut q: usize = 0;
    while q < keys.len()
        invariant
            q <= keys.len(),
            forall|t: int| 0 <= t < q ==> keys@[t]@ != k@,
        decreases keys.len() - q,
    {
        if keys[q].equals(k) {
            return Some(q);
        }
        q += 1;
    }
    None
}

/// Keeps one row per primary key: the winner.
fn dedup(es: &Vec<Entry>, sort_key: &Vec<String>) -> (out: Vec<Row>)
    ensures
        dedup_of(entries_view(es@), names_view(sort_key@), rows_view(out@)),
{
    let ghost e = entries_view(es@);
    let ghost sk = names_view(sort_key@);
    let mut out: Vec<Row> = Vec::new();
    let mut keys: Vec<Key> = Vec::new();
    let mut ords: Vec<u64> = Vec::new();
    let ghost mut src: Seq<int> = Seq::empty();
    let mut p: usize = 0;
    while p < es.len()
        invariant
            p <= es.len(),
            e == entries_view(es@),
            sk == names_view(sort_key@),
            out.len() == keys.len(),
            out.len() == ords.len(),
            out.len() == src.len(),
            forall|i: int|
                0 <= i < out.len() ==> #[trigger] keys@[i]@ == row_key(out@[i]@, sk)
                    && keys@[i].tags.len() == sort_key.len(),
            forall|i: int|
                0 <= i < out.len() ==> 0 <= #[trigger] src[i] < p && e[src[i]] == (
                    ords@[i],
                    out@[i]@,
                ) && is_winner(e.take(p as int), sk, src[i]),
            forall|x: int| 0 <= x < p ==> #[trigger] holds_key(out@, sk, row_key(e[x].1, sk)),
            forall|i: int, j: int|
                0 <= i < out.len() && 0 <= j < out.len() && i != j ==> row_key(out@[i]@, sk)
                    != row_key(out@[j]@, sk),
        decreases es.len() - p,
    {
        let ghost d = e.take(p as int);
        let ghost x = e[p as int];
        assert(e.take(p + 1) =~= d.push(x));
        assert(x == (es@[p as int].order, es@[p as int].row@));
        let k = es[p].row.key(sort_key);
        let ghost out0 = out@;
        let ghost src0 = src;
        match find_key(&keys, &k) {
            Some(q) => {
                let ghost w = src[q as int];
                proof {
                    lemma_winner_same_key(d, sk, x, w);
                    assert forall|i: int| 0 <= i < out.len() && i != q implies is_winner(
                        d.push(x),
                        sk,
                        #[trigger] src[i],
                    ) by {
                        assert(row_key(out@[i]@, sk) != row_key(out@[q as int]@, sk));
                        lemma_winner_other_key(d, sk, x, src[i]);
                    }
                }
                if es[p].order >= ords[q] {
                    let row = es[p].row.copy();
                    assert(row_key(row@, sk) == k@);
                    out.set(q, row);
                    ords.set(q, es[p].order);
                    proof {
                        src = src.update(q as int, p as int);
                        assert(keys@[q as int]@ == row_key(out@[q as int]@, sk));
                    }
                }
                proof {
                    assert forall|i: int| 0 <= i < out.len() implies #[trigger] row_key(
                        out@[i]@,
                        sk,
                    ) == row_key(out0[i]@, sk) by {
                        if i == q {
                            assert(keys@[i]@ == k@);
                        }
                    }
                    assert forall|y: int| 0 <= y < p + 1 implies #[trigger] holds_key(
                        out@,
                        sk,
                        row_key(e[y].1, sk),
                    ) by {
                        if y < p {
                            assert(holds_key(out0, sk, row_key(e[y].1, sk)));
                            let i = choose|i: int|
                                0 <= i < out0.len() && #[trigger] row_key(out0[i]@, sk)
                                    == row_key(e[y].1, sk);
                            assert(row_key(out@[i]@, sk) == row_key(out0[i]@, sk));
                        } else {
                            assert(row_key(out@[q as int]@, sk) == row_key(out0[q as int]@, sk));
                            assert(row_key(out@[q as int]@, sk) == row_key(e[y].1, sk));
                        }
                    }
                }
            },
            None => {
                proof {
                    assert forall|y: int| 0 <= y < d.len() implies row_key(#[trigger] d[y].1, sk)
                        != row_key(x.1, sk) by {
                        assert(holds_key(out@, sk, row_key(e[y].1, sk)));
                        let i = choose|i: int|
                            0 <= i < out.len() && #[trigger] row_key(out@[i]@, sk) == row_key(
                                e[y].1,
                                sk,
                            );
                        assert(keys@[i]@ != k@);
                    }
                    lemma_winner_fresh(d, sk, x);
                    assert forall|i: int| 0 <= i < out.len() implies is_winner(
                        d.push(x),
                        sk,
                        #[trigger] src[i],
                    ) by {
                        assert(keys@[i]@ != k@);
                        lemma_winner_other_key(d, sk, x, src[i]);
                    }
                }
                out.push(es[p].row.copy());
                keys.push(k);
                ords.push(es[p].order);
                proof {
                    src = src.push(p as int);
                    assert forall|i: int| 0 <= i < out.len() - 1 implies #[trigger] row_key(
                        out@[i]@,
                        sk,
                    ) != row_key(out@[out.len() - 1]@, sk) by {
                        assert(keys@[i]@ != k@);
                    }
                    assert forall|y: int| 0 <= y < p + 1 implies #[trigger] holds_key(
                        out@,
                        sk,
                        row_key(e[y].1, sk),
                    ) by {
                        if y < p {
                            assert(holds_key(out0, sk, row_key(e[y].1, sk)));
                            let i = choose|i: int|
                                0 <= i < out0.len() && #[trigger] row_key(out0[i]@, sk)
                                    == row_key(e[y].1, sk);
                            assert(row_key(out@[i]@, sk) == row_key(out0[i]@, sk));
                        } else {
                            assert(row_key(out@[out.len() - 1]@, sk) == row_key(e[y].1, sk));
                        }
                    }
                }
            },
        }
        p += 1;
    }
    proof {
        assert(e.take(p as int) =~= e);
        let ov = rows_view(out@);
        assert forall|i: int| 0 <= i < ov.len() implies #[trigger] is_winning_row(e, sk, ov[i]) by {
            assert(is_winner(e, sk, src[i]));
            assert(ov[i] == out@[i]@);
            assert(ov[i] == e[src[i]].1);
        }
        assert forall|w: int| #[trigger] is_winner(e, sk, w) implies exists|i: int|
            0 <= i < ov.len() && ov[i] == e[w].1 by {
            assert(holds_key(out@, sk, row_key(e[w].1, sk)));
            let i = choose|i: int|
                0 <= i < out.len() && #[trigger] row_key(out@[i]@, sk) == row_key(e[w].1, sk);
            lemma_winner_unique(e, sk, w, src[i]);
            assert(ov[i] == out@[i]@);
        }
        assert forall|i: int, j: int|
            0 <= i < ov.len() && 0 <= j < ov.len() && i != j implies row_key(ov[i], sk) != row_key(
            ov[j],
            sk,
        ) by {
            assert(ov[i] == out@[i]@);
            assert(ov[j] == out@[j]@);
        }
        assert(dedup_of(e, sk, ov));
    }
    out
}

/// Which rows a pass keeps by time.
#[derive(Debug, Clone, Copy, PartialEq, Eq, Structural)]
pub enum TimeBound {
    All,
    /// Rows with `time <= t`.
    AtMost(i64),
    /// Rows with `time > t`.
    After(i64),
}

pub open spec fn in_bound(b: TimeBound, t: i64) -> bool {
    match b {
        TimeBound::All => true,
        TimeBound::AtMost(s) => t <= s,
        TimeBound::After(s) => t > s,
    }
}

/// The names of all values of the rows, entry after entry.
pub open spec fn all_names(e: Seq<(u64, RowV)>) -> Seq<Seq<char>>
    decreases e.len(),
{
    if e.len() == 0 {
        Seq::empty()
    } else {
        all_names(e.drop_last()) + e.last().1.1.map_values(|c: crate::row::Cell| c.name@)
    }
}

/// A tombstone of any of the chunks deletes the row.
pub open spec fn deleted_in(
    chunks: Seq<ChunkSnapshot>,
    names: Seq<Seq<char>>,
    tags: Seq<Seq<char>>,
    r: RowV,
) -> bool {
    exists|c: int|
        0 <= c < chunks.len() && is_deleted(#[trigger] chunks[c].tombstones@, names, tags, r)
}

pub open spec fn selected(
    chunks: Seq<ChunkSnapshot>,
    names: Seq<Seq<char>>,
    tags: Seq<Seq<char>>,
    b: TimeBound,
    r: RowV,
) -> bool {
    !deleted_in(chunks, names, tags, r) && in_bound(b, r.0)
}

/// The rows that compacting `chunks` yields within `b`: one per primary key
/// (the winner), none that a tombstone deletes (judged on the winner, with
/// the columns that some input row sets, and the tags of `sk`), sorted by key.
pub open spec fn compaction_of(
    chunks: Seq<ChunkSnapshot>,
    sk: Seq<Seq<char>>,
    b: TimeBound,
    out: Seq<RowV>,
) -> bool {
    let e = entries_of(chunks);
    let names = all_names(e);
    &&& forall|i: int|
        0 <= i < out.len() ==> #[trigger] is_winning_row(e, sk, out[i]) && selected(
            chunks,
            names,
            sk,
            b,
            out[i],
        )
    &&& forall|w: int|
        #[trigger] is_winner(e, sk, w) && selected(chunks, names, sk, b, e[w].1) ==> exists|i: int|
            0 <= i < out.len() && out[i] == e[w].1
    &&& distinct_keys(out, sk)
    &&& sorted_by_key(out, sk)
}

fn deleted_by_chunks(
    chunks: &Vec<ChunkSnapshot>,
    names: &Vec<String>,
    tags: &Vec<String>,
    row: &Row,
) -> (r: bool)
    ensures
        r == deleted_in(chunks@, names_view(names@), names_view(tags@), row@),
{
    let mut c: usize = 0;
    while c < chunks.len()
        invariant
            c <= chunks.len(),
            forall|j: int|
                0 <= j < c ==> !is_deleted(
                    #[trigger] chunks@[j].tombstones@,
                    names_view(names@),
                    names_view(tags@),
                    row@,
                ),
        decreases chunks.len() - c,
    {
        if row_deleted(&chunks[c].tombstones, names, tags, row) {
            return true;
        }
        c += 1;
    }
    false
}

fn bound_holds(b: TimeBound, t: i64) -> (r: bool)
    ensures
        r == in_bound(b, t),
{
    match b {
        TimeBound::All => true,
        TimeBound::AtMost(s) => t <= s,
        TimeBound::After(s) => t > s,
    }
}

/// Keeps the winners that no tombstone deletes and that lie within `b`.
fn select_rows(
    rows: &Vec<Row>,
    chunks: &Vec<ChunkSnapshot>,
    names: &Vec<String>,
    sort_key: &Vec<String>,
    b: TimeBound,
) -> (out: Vec<Row>)
    requires
        dedup_of(entries_of(chunks@), names_view(sort_key@), rows_view(rows@)),
        names_view(names@) == all_names(entries_of(chunks@)),
    ensures
        ({
            let e = entries_of(chunks@);
            let sk = names_view(sort_key@);
            let names = names_view(names@);
            let ov = rows_view(out@);
            &&& forall|i: int|
                0 <= i < ov.len() ==> #[trigger] is_winning_row(e, sk, ov[i]) && selected(
                    chunks@,
                    names,
                    sk,
                    b,
                    ov[i],
                )
            &&& forall|w: int|
                #[trigger] is_winner(e, sk, w) && selected(chunks@, names, sk, b, e[w].1)
                    ==> exists|i: int| 0 <= i < ov.len() && ov[i] == e[w].1
            &&& distinct_keys(ov, sk)
        }),
{
    let ghost e = entries_of(chunks@);
    let ghost sk = names_view(sort_key@);
    let ghost nm = names_view(names@);
    let ghost rv = rows_view(rows@);
    let mut out: Vec<Row> = Vec::new();
    let ghost mut m: Seq<int> = Seq::empty();
    let mut i: usize = 0;
    while i < rows.len()
        invariant
            i <= rows.len(),
            e == entries_of(chunks@),
            sk == names_view(sort_key@),
            nm == names_view(names@),
            rv == rows_view(rows@),
            dedup_of(e, sk, rv),
            out.len() == m.len(),
            forall|a: int|
                0 <= a < out.len() ==> 0 <= #[trigger] m[a] < i && out@[a]@ == rv[m[a]]
                    && selected(chunks@, nm, sk, b, rv[m[a]]),
            forall|a: int, c: int| 0 <= a < c < out.len() ==> m[a] < m[c],
            forall|j: int|
                0 <= j < i && selected(chunks@, nm, sk, b, #[trigger] rv[j]) ==> exists|a: int|
                    0 <= a < out.len() && out@[a]@ == rv[j],
        decreases rows.len() - i,
    {
        let keep = !deleted_by_chunks(chunks, names, sort_key, &rows[i]) && bound_holds(b, rows[i].time);
        let ghost out0 = out@;
        if keep {
            out.push(rows[i].copy());
            proof {
                m = m.push(i as int);
                assert(out@[out.len() - 1]@ == rv[i as int]);
            }
        }
        proof {
            assert forall|j: int|
                0 <= j < i + 1 && selected(chunks@, nm, sk, b, #[trigger] rv[j]) implies exists|a: int|
                0 <= a < out.len() && out@[a]@ == rv[j] by {
                if j < i {
                    let a = choose|a: int| 0 <= a < out0.len() && out0[a]@ == rv[j];
                    assert(out@[a] == out0[a]);
                } else {
                    assert(out@[out.len() - 1]@ == rv[j]);
                }
            }
        }
        i += 1;
    }
    proof {
        let ov = rows_view(out@);
        assert forall|a: int| 0 <= a < ov.len() implies #[trigger] is_winning_row(e, sk, ov[a])
            && selected(chunks@, nm, sk, b, ov[a]) by {
            assert(ov[a] == out@[a]@);
            assert(is_winning_row(e, sk, rv[m[a]]));
        }
        assert forall|w: int| #[trigger] is_winner(e, sk, w) && selected(chunks@, nm, sk, b, e[w].1)
            implies exists|a: int| 0 <= a < ov.len() && ov[a] == e[w].1 by {
            let j = choose|j: int| 0 <= j < rv.len() && rv[j] == e[w].1;
            let a = choose|a: int| 0 <= a < out.len() && out@[a]@ == rv[j];
            assert(ov[a] == out@[a]@);
        }
        assert forall|a: int, c: int|
            0 <= a < ov.len() && 0 <= c < ov.len() && a != c implies row_key(ov[a], sk) != row_key(
            ov[c],
            sk,
        ) by {
            assert(ov[a] == rv[m[a]]);
            assert(ov[c] == rv[m[c]]);
            assert(m[a] != m[c]);
        }
    }
    out
}

proof fn lemma_insert_sorted(rs: Seq<RowV>, sk: Seq<Seq<char>>, p: int, r: RowV)
    requires
        0 <= p <= rs.len(),
        sorted_by_key(rs, sk),
        forall|a: int| 0 <= a < p ==> !key_lt(row_key(r, sk), #[trigger] row_key(rs[a], sk)),
        p < rs.len() ==> key_lt(row_key(r, sk), row_key(rs[p], sk)),
    ensures
        sorted_by_key(rs.insert(p, r), sk),
{
    let t = rs.insert(p, r);
    rs.insert_ensures(p, r);
    assert forall|a: int, b: int| 0 <= a < b < t.len() implies !key_lt(
        row_key(t[b], sk),
        row_key(t[a], sk),
    ) by {
        if b < p {
        } else if b == p {
        } else if a > p {
            assert(t[a] == rs[a - 1]);
            assert(t[b] == rs[b - 1]);
        } else if a == p {
            assert(t[b] == rs[b - 1]);
            lemma_key_lt_asymmetric(row_key(r, sk), row_key(rs[p], sk));
            if b - 1 > p && key_lt(row_key(rs[b - 1], sk), row_key(r, sk)) {
                lemma_key_lt_transitive(
                    row_key(rs[b - 1], sk),
                    row_key(r, sk),
                    row_key(rs[p], sk),
                );
            }
        } else {
            assert(t[b] == rs[b - 1]);
        }
    }
}

spec fn among(rv: Seq<RowV>, t: int, x: RowV) -> bool {
    exists|j: int| 0 <= j < t && rv[j] == x
}

spec fn holds_row(out: Seq<Row>, x: RowV) -> bool {
    exists|a: int| 0 <= a < out.len() && out[a]@ == x
}

/// Sorts rows of distinct keys by key.
fn sort_rows(rows: &Vec<Row>, sort_key: &Vec<String>) -> (out: Vec<Row>)
    requires
        distinct_keys(rows_view(rows@), names_view(sort_key@)),
    ensures
        ({
            let sk = names_view(sort_key@);
            let rv = rows_view(rows@);
            let ov = rows_view(out@);
            &&& forall|a: int| 0 <= a < ov.len() ==> #[trigger] rv.contains(ov[a])
            &&& forall|j: int| 0 <= j < rv.len() ==> #[trigger] ov.contains(rv[j])
            &&& distinct_keys(ov, sk)
            &&& sorted_by_key(ov, sk)
        }),
{
    let ghost sk = names_view(sort_key@);
    let ghost rv = rows_view(rows@);
    let mut out: Vec<Row> = Vec::new();
    let mut keys: Vec<Key> = Vec::new();
    let mut t: usize = 0;
    while t < rows.len()
        invariant
            t <= rows.len(),
            sk == names_view(sort_key@),
            rv == rows_view(rows@),
            distinct_keys(rv, sk),
            out.len() == keys.len(),
            forall|a: int|
                0 <= a < out.len() ==> #[trigger] keys@[a]@ == row_key(out@[a]@, sk)
                    && keys@[a].tags.len() == sort_key.len(),
            forall|a: int| 0 <= a < out.len() ==> #[trigger] among(rv, t as int, out@[a]@),
            forall|j: int| 0 <= j < t ==> #[trigger] holds_row(out@, rv[j]),
            distinct_keys(rows_view(out@), sk),
            sorted_by_key(rows_view(out@), sk),
        decreases rows.len() - t,
    {
        let k = rows[t].key(sort_key);
        assert forall|a: int| 0 <= a < out.len() implies keys@[a].tags.len() == sort_key.len() by {
            assert(keys@[a]@ == row_key(out@[a]@, sk));
        }
        let mut p: usize = 0;
        while p < keys.len()
            invariant
                p <= keys.len(),
                out.len() == keys.len(),
                k.tags.len() == sort_key.len(),
                forall|a: int|
                    0 <= a < out.len() ==> keys@[a].tags.len() == sort_key.len(),
                forall|a: int| 0 <= a < p ==> !key_lt(k@, #[trigger] keys@[a]@),
            ensures
                p <= keys.len(),
                forall|a: int| 0 <= a < p ==> !key_lt(k@, #[trigger] keys@[a]@),
                p < keys.len() ==> key_lt(k@, keys@[p as int]@),
            decreases keys.len() - p,
        {
            if k.less(&keys[p]) {
                break;
            }
            p += 1;
        }
        let ghost ov0 = rows_view(out@);
        let ghost out0 = out@;
        let ghost r = rows@[t as int]@;
        proof {
            assert(r == rv[t as int]);
            assert forall|a: int| 0 <= a < p implies !key_lt(
                row_key(r, sk),
                #[trigger] row_key(ov0[a], sk),
            ) by {
                assert(ov0[a] == out@[a]@);
                assert(keys@[a]@ == row_key(out@[a]@, sk));
                assert(!key_lt(k@, keys@[a]@));
            }
            if p < out.len() {
                assert(ov0[p as int] == out@[p as int]@);
                assert(keys@[p as int]@ == row_key(out@[p as int]@, sk));
            }
            lemma_insert_sorted(ov0, sk, p as int, r);
            // the new key differs from every key already placed
            assert forall|a: int| 0 <= a < out.len() implies row_key(#[trigger] out@[a]@, sk)
                != row_key(r, sk) by {
                assert(among(rv, t as int, out@[a]@));
                let j = choose|j: int| 0 <= j < t && rv[j] == out@[a]@;
                assert(j != t);
            }
        }
        out.insert(p, rows[t].copy());
        keys.insert(p, k);
        proof {
            out0.insert_ensures(p as int, out@[p as int]);
            assert(out@ == out0.insert(p as int, out@[p as int]));
            assert(rows_view(out@) =~= ov0.insert(p as int, r));
            assert forall|a: int| 0 <= a < out.len() implies #[trigger] among(
                rv,
                t + 1,
                out@[a]@,
            ) by {
                if a < p {
                    assert(out@[a] == out0[a]);
                    assert(among(rv, t as int, out0[a]@));
                    let j = choose|j: int| 0 <= j < t && rv[j] == out0[a]@;
                } else if a == p {
                    assert(rv[t as int] == out@[a]@);
                } else {
                    assert(out@[a] == out0[a - 1]);
                    assert(among(rv, t as int, out0[a - 1]@));
                    let j = choose|j: int| 0 <= j < t && rv[j] == out0[a - 1]@;
                }
            }
            assert forall|j: int| 0 <= j < t + 1 implies #[trigger] holds_row(out@, rv[j]) by {
                if j < t {
                    assert(holds_row(out0, rv[j]));
                    let a = choose|a: int| 0 <= a < out0.len() && out0[a]@ == rv[j];
                    if a < p {
                        assert(out@[a] == out0[a]);
                    } else {
                        assert(out@[a + 1] == out0[a]);
                    }
                } else {
                    assert(rv[j] == out@[p as int]@);
                }
            }
            assert forall|a: int, c: int|
                0 <= a < out.len() && 0 <= c < out.len() && a != c implies row_key(
                rows_view(out@)[a],
                sk,
            ) != row_key(rows_view(out@)[c], sk) by {
                let ov = rows_view(out@);
                if a != p && c != p {
                    let a0 = if a < p { a } else { a - 1 };
                    let c0 = if c < p { c } else { c - 1 };
                    assert(ov[a] == ov0[a0]);
                    assert(ov[c] == ov0[c0]);
                } else if a == p {
                    let c0 = if c < p { c } else { c - 1 };
                    assert(ov[c] == out0[c0]@);
                } else {
                    let a0 = if a < p { a } else { a - 1 };
                    assert(ov[a] == out0[a0]@);
                }
            }
        }
        t += 1;
    }
    proof {
        let ov = rows_view(out@);
        assert forall|a: int| 0 <= a < ov.len() implies #[trigger] rv.contains(ov[a]) by {
            assert(among(rv, t as int, out@[a]@));
            let j = choose|j: int| 0 <= j < t && rv[j] == out@[a]@;
            assert(ov[a] == out@[a]@);
        }
        assert forall|j: int| 0 <= j < rv.len() implies #[trigger] ov.contains(rv[j]) by {
            assert(holds_row(out@, rv[j]));
            let a = choose|a: int| 0 <= a < out.len() && out@[a]@ == rv[j];
            assert(ov[a] == out@[a]@);
        }
    }
    out
}

/// All columns that the chunks declare, chunk after chunk.
pub open spec fn all_columns(chunks: Seq<ChunkSnapshot>) -> Seq<Column>
    decreases chunks.len(),
{
    if chunks.len() == 0 {
        Seq::empty()
    } else {
        all_columns(chunks.drop_last()) + chunks.last().schema@
    }
}

/// Two declarations of one column name with different types.
pub open spec fn schema_conflict(cols: Seq<Column>) -> bool {
    exists|i: int, j: int|
        0 <= i < cols.len() && 0 <= j < cols.len() && cols[i].name@ == cols[j].name@
            && cols[i].data_type != cols[j].data_type
}

/// `cols` declares column `name` with type `t`.
pub open spec fn declares(cols: Seq<Column>, name: Seq<char>, t: DataType) -> bool {
    exists|i: int| 0 <= i < cols.len() && cols[i].name@ == name && cols[i].data_type == t
}

/// `out` is the union of the declarations `cols`: each name once, with its type.
pub open spec fn union_schema(cols: Seq<Column>, out: Seq<Column>) -> bool {
    &&& forall|a: int, b: int|
        0 <= a < out.len() && 0 <= b < out.len() && a != b ==> out[a].name@ != out[b].name@
    &&& forall|a: int|
        0 <= a < out.len() ==> #[trigger] declares(cols, out[a].name@, out[a].data_type)
    &&& forall|i: int|
        0 <= i < cols.len() ==> #[trigger] declares(out, cols[i].name@, cols[i].data_type)
}

/// The tag columns of a schema, in schema order: the primary key before time.
pub open spec fn tag_names(schema: Seq<Column>) -> Seq<Seq<char>>
    decreases schema.len(),
{
    if schema.len() == 0 {
        Seq::empty()
    } else if schema.last().data_type == DataType::Tag {
        tag_names(schema.drop_last()).push(schema.last().name@)
    } else {
        tag_names(schema.drop_last())
    }
}

#[derive(Debug)]
pub enum CompactError {
    /// Two chunks declare `column` with different types.
    SchemaConflict { column: String },
}

fn flatten_columns(chunks: &Vec<ChunkSnapshot>) -> (v: Vec<Column>)
    ensures
        v@ == all_columns(chunks@),
{
    let mut v: Vec<Column> = Vec::new();
    let mut i: usize = 0;
    while i < chunks.len()
        invariant
            i <= chunks.len(),
            v@ == all_columns(chunks@.take(i as int)),
        decreases chunks.len() - i,
    {
        let ghost base = v@;
        let mut j: usize = 0;
        while j < chunks[i].schema.len()
            invariant
                i < chunks.len(),
                j <= chunks@[i as int].schema.len(),
                v@ == base + chunks@[i as int].schema@.take(j as int),
            decreases chunks@[i as int].schema.len() - j,
        {
            v.push(chunks[i].schema[j].copy());
            j += 1;
            assert(v@ =~= base + chunks@[i as int].schema@.take(j as int));
        }
        assert(chunks@.take(i + 1).drop_last() =~= chunks@.take(i as int));
        assert(chunks@[i as int].schema@.take(j as int) =~= chunks@[i as int].schema@);
        i += 1;
    }
    assert(chunks@.take(i as int) =~= chunks@);
    v
}

/// The union of the chunks' schemas, or the first column declared twice with
/// different types.
pub fn merge_schemas(chunks: &Vec<ChunkSnapshot>) -> (r: Result<Vec<Column>, CompactError>)
    ensures
        r is Ok <==> !schema_conflict(all_columns(chunks@)),
        r matches Ok(s) ==> union_schema(all_columns(chunks@), s@),
{
    let cols = flatten_columns(chunks);
    union_columns(&cols)
}

/// The union of column declarations, or the first column declared twice with
/// different types.
pub fn union_columns(cols: &Vec<Column>) -> (r: Result<Vec<Column>, CompactError>)
    ensures
        r is Ok <==> !schema_conflict(cols@),
        r matches Ok(s) ==> union_schema(cols@, s@),
{
    let ghost cv = cols@;
    let mut out: Vec<Column> = Vec::new();
    let mut i: usize = 0;
    while i < cols.len()
        invariant
            i <= cols.len(),
            cv == cols@,
            !schema_conflict(cv.take(i as int)),
            union_schema(cv.take(i as int), out@),
        decreases cols.len() - i,
    {
        let ghost seen = cv.take(i as int);
        assert(cv.take(i + 1) =~= seen.push(cv[i as int]));
        let mut a: usize = 0;
        while a < out.len()
            invariant
                i < cols.len(),
                a <= out.len(),
                forall|b: int| 0 <= b < a ==> out@[b].name@ != cols@[i as int].name@,
            ensures
                a <= out.len(),
                forall|b: int| 0 <= b < a ==> out@[b].name@ != cols@[i as int].name@,
                a < out.len() ==> out@[a as int].name@ == cols@[i as int].name@,
            decreases out.len() - a,
        {
            if out[a].name == cols[i].name {
                break;
            }
            a += 1;
        }
        if a < out.len() {
            assert(out@[a as int].name@ == cv[i as int].name@);
            if out[a].data_type != cols[i].data_type {
                proof {
                    assert(declares(seen, out@[a as int].name@, out@[a as int].data_type));
                    let x = choose|x: int|
                        0 <= x < seen.len() && seen[x].name@ == out@[a as int].name@
                            && seen[x].data_type == out@[a as int].data_type;
                    assert(cv[x] == seen[x]);
                    assert(out@[a as int].data_type != cv[i as int].data_type);
                    assert(cv[x].name@ == cv[i as int].name@ && cv[x].data_type
                        != cv[i as int].data_type);
                    assert(schema_conflict(cv));
                }
                return Err(CompactError::SchemaConflict { column: cols[i].name.clone() });
            }
            proof {
                let s2 = cv.take(i + 1);
                assert forall|x: int, y: int|
                    0 <= x < s2.len() && 0 <= y < s2.len() && s2[x].name@ == s2[y].name@ implies
                    s2[x].data_type == s2[y].data_type by {
                    if x < i as int {
                        assert(declares(out@, seen[x].name@, seen[x].data_type));
                        let b = choose|b: int|
                            0 <= b < out.len() && out@[b].name@ == seen[x].name@
                                && out@[b].data_type == seen[x].data_type;
                        if s2[x].name@ == cv[i as int].name@ {
                            assert(b == a);
                        }
                    }
                    if y < i as int {
                        assert(declares(out@, seen[y].name@, seen[y].data_type));
                        let b = choose|b: int|
                            0 <= b < out.len() && out@[b].name@ == seen[y].name@
                                && out@[b].data_type == seen[y].data_type;
                        if s2[y].name@ == cv[i as int].name@ {
                            assert(b == a);
                        }
                    }
                }
                assert forall|b: int| 0 <= b < out.len() implies #[trigger] declares(
                    s2,
                    out@[b].name@,
                    out@[b].data_type,
                ) by {
                    assert(declares(seen, out@[b].name@, out@[b].data_type));
                    let x = choose|x: int|
                        0 <= x < seen.len() && seen[x].name@ == out@[b].name@
                            && seen[x].data_type == out@[b].data_type;
                    assert(s2[x] == seen[x]);
                }
                assert forall|x: int| 0 <= x < s2.len() implies #[trigger] declares(
                    out@,
                    s2[x].name@,
                    s2[x].data_type,
                ) by {
                    if x < i as int {
                        assert(s2[x] == seen[x]);
                    } else {
                        assert(out@[a as int].name@ == s2[x].name@);
                    }
                }
            }
        } else {
            let ghost out0 = out@;
            out.push(cols[i].copy());
            proof {
                let s2 = cv.take(i + 1);
                assert forall|x: int, y: int|
                    0 <= x < s2.len() && 0 <= y < s2.len() && s2[x].name@ == s2[y].name@ implies
                    s2[x].data_type == s2[y].data_type by {
                    if x < i as int && y == i as int {
                        assert(declares(out0, seen[x].name@, seen[x].data_type));
                        let b = choose|b: int|
                            0 <= b < out0.len() && out0[b].name@ == seen[x].name@
                                && out0[b].data_type == seen[x].data_type;
                    }
                    if y < i as int && x == i as int {
                        assert(declares(out0, seen[y].name@, seen[y].data_type));
                        let b = choose|b: int|
                            0 <= b < out0.len() && out0[b].name@ == seen[y].name@
                                && out0[b].data_type == seen[y].data_type;
                    }
                }
                assert forall|b: int| 0 <= b < out.len() implies #[trigger] declares(
                    s2,
                    out@[b].name@,
                    out@[b].data_type,
                ) by {
                    if b < out0.len() {
                        assert(declares(seen, out0[b].name@, out0[b].data_type));
                        let x = choose|x: int|
                            0 <= x < seen.len() && seen[x].name@ == out0[b].name@
                                && seen[x].data_type == out0[b].data_type;
                        assert(s2[x] == seen[x]);
                    } else {
                        assert(s2[i as int] == cv[i as int]);
                    }
                }
                assert forall|x: int| 0 <= x < s2.len() implies #[trigger] declares(
                    out@,
                    s2[x].name@,
                    s2[x].data_type,
                ) by {
                    if x < i as int {
                        assert(s2[x] == seen[x]);
                        assert(declares(out0, seen[x].name@, seen[x].data_type));
                        let b = choose|b: int|
                            0 <= b < out0.len() && out0[b].name@ == seen[x].name@
                                && out0[b].data_type == seen[x].data_type;
                        assert(out@[b] == out0[b]);
                    } else {
                        assert(out@[out0.len() as int].name@ == s2[x].name@);
                    }
                }
            }
        }
        i += 1;
    }
    assert(cv.take(i as int) =~= cv);
    Ok(out)
}

/// `sk` orders the tag names `tags` canonically: each once, ascending.
pub open spec fn canonical_key(tags: Seq<Seq<char>>, sk: Seq<Seq<char>>) -> bool {
    &&& forall|n: Seq<char>| tags.contains(n) <==> sk.contains(n)
    &&& forall|i: int, j: int| 0 <= i < j < sk.len() ==> chars_lt(sk[i], sk[j])
}

/// Puts `n` into the ascending list `out`, unless it is there already.
fn sorted_insert(out: &mut Vec<String>, n: String)
    requires
        forall|i: int, j: int| 0 <= i < j < old(out)@.len() ==> chars_lt(old(out)@[i]@, old(out)@[j]@),
    ensures
        forall|i: int, j: int| 0 <= i < j < final(out)@.len() ==> chars_lt(final(out)@[i]@, final(out)@[j]@),
        forall|x: Seq<char>| names_view(final(out)@).contains(x) <==> (names_view(old(out)@).contains(x) || x == n@),
{
    let ghost o = names_view(out@);
    let ghost nv = n@;
    let mut p: usize = 0;
    while p < out.len()
        invariant
            p <= out.len(),
            o == names_view(out@),
            forall|i: int| 0 <= i < p ==> chars_lt(#[trigger] out@[i]@, n@),
        ensures
            p <= out.len(),
            forall|i: int| 0 <= i < p ==> chars_lt(#[trigger] out@[i]@, n@),
            p < out.len() ==> !chars_lt(out@[p as int]@, n@),
        decreases out.len() - p,
    {
        match compare_names(&out[p], &n) {
            std::cmp::Ordering::Less => {},
            _ => break,
        }
        p += 1;
    }
    if p < out.len() && out[p] == n {
        assert(o[p as int] == n@);
        return;
    }
    let ghost o0 = out@;
    proof {
        if p < out.len() {
            lemma_chars_lt_total(out@[p as int]@, n@);
        }
    }
    out.insert(p, n);
    proof {
        o0.insert_ensures(p as int, out@[p as int]);
        assert(out@ == o0.insert(p as int, out@[p as int]));
        assert(out@[p as int]@ == nv);
        assert forall|i: int, j: int| 0 <= i < j < out@.len() implies chars_lt(out@[i]@, out@[j]@) by {
            if j < p {
            } else if i < p && j == p {
            } else if i < p && j > p {
                assert(out@[j] == o0[j - 1]);
                assert(chars_lt(o0[i]@, nv));
                if j - 1 == p as int {
                    lemma_chars_lt_transitive(o0[i]@, nv, o0[j - 1]@);
                } else {
                    lemma_chars_lt_transitive(nv, o0[p as int]@, o0[j - 1]@);
                    lemma_chars_lt_transitive(o0[i]@, nv, o0[j - 1]@);
                }
            } else if i == p {
                assert(out@[j] == o0[j - 1]);
                if j - 1 > p as int {
                    lemma_chars_lt_transitive(nv, o0[p as int]@, o0[j - 1]@);
                }
            } else {
                assert(out@[i] == o0[i - 1]);
                assert(out@[j] == o0[j - 1]);
            }
        }
        assert forall|x: Seq<char>| names_view(out@).contains(x) <==> (o.contains(x) || x == nv) by {
            if names_view(out@).contains(x) {
                let k = choose|k: int| 0 <= k < out@.len() && names_view(out@)[k] == x;
                if k < p {
                    assert(o[k] == x);
                } else if k > p {
                    assert(o[k - 1] == x);
                }
            }
            if o.contains(x) {
                let k = choose|k: int| 0 <= k < o.len() && o[k] == x;
                if k < p {
                    assert(names_view(out@)[k] == x);
                } else {
                    assert(names_view(out@)[k + 1] == x);
                }
            }
            if x == nv {
                assert(names_view(out@)[p as int] == x);
            }
        }
    }
}

/// The tag names of `schema`, each once, in ascending order.
pub fn sort_key_of(schema: &Vec<Column>) -> (r: Vec<String>)
    ensures
        canonical_key(tag_names(schema@), names_view(r@)),
{
    let tags = tag_columns(schema);
    let mut r: Vec<String> = Vec::new();
    let mut i: usize = 0;
    while i < tags.len()
        invariant
            i <= tags.len(),
            names_view(tags@) == tag_names(schema@),
            forall|a: int, b: int| 0 <= a < b < r@.len() ==> chars_lt(r@[a]@, r@[b]@),
            forall|x: Seq<char>| names_view(r@).contains(x) <==> names_view(tags@).take(i as int).contains(x),
        decreases tags.len() - i,
    {
        let ghost t = names_view(tags@);
        sorted_insert(&mut r, tags[i].clone());
        proof {
            let t1 = t.take(i + 1);
            let t0 = t.take(i as int);
            assert forall|x: Seq<char>| t1.contains(x) <==> (t0.contains(x) || x == t[i as int]) by {
                if t1.contains(x) {
                    let k = choose|k: int| 0 <= k < t1.len() && t1[k] == x;
                    if k < i {
                        assert(t0[k] == x);
                    }
                }
                if t0.contains(x) {
                    let k = choose|k: int| 0 <= k < t0.len() && t0[k] == x;
                    assert(t1[k] == x);
                }
                if x == t[i as int] {
                    assert(t1[i as int] == x);
                }
            }
        }
        i += 1;
    }
    assert(names_view(tags@).take(i as int) =~= names_view(tags@));
    r
}

/// The tag column names of `schema`, in schema order.
fn tag_columns(schema: &Vec<Column>) -> (r: Vec<String>)
    ensures
        names_view(r@) == tag_names(schema@),
{
    let mut r: Vec<String> = Vec::new();
    let mut i: usize = 0;
    while i < schema.len()
        invariant
            i <= schema.len(),
            names_view(r@) == tag_names(schema@.take(i as int)),
        decreases schema.len() - i,
    {
        assert(schema@.take(i + 1).drop_last() =~= schema@.take(i as int));
        if schema[i].data_type == DataType::Tag {
            r.push(schema[i].name.clone());
            assert(names_view(r@) =~= tag_names(schema@.take(i as int)).push(schema@[i as int].name@));
        }
        i += 1;
    }
    assert(schema@.take(i as int) =~= schema@);
    r
}

fn flatten_entries(chunks: &Vec<ChunkSnapshot>) -> (v: Vec<Entry>)
    ensures
        entries_view(v@) == entries_of(chunks@),
{
    let mut v: Vec<Entry> = Vec::new();
    let mut i: usize = 0;
    while i < chunks.len()
        invariant
            i <= chunks.len(),
            entries_view(v@) == entries_of(chunks@.take(i as int)),
        decreases chunks.len() - i,
    {
        let ghost base = entries_view(v@);
        let ghost part = chunks@[i as int].rows@.map_values(
            |r: Row| (chunks@[i as int].order, r@),
        );
        let mut j: usize = 0;
        while j < chunks[i].rows.len()
            invariant
                i < chunks.len(),
                j <= chunks@[i as int].rows.len(),
                part == chunks@[i as int].rows@.map_values(|r: Row| (chunks@[i as int].order, r@)),
                entries_view(v@) == base + part.take(j as int),
            decreases chunks@[i as int].rows.len() - j,
        {
            let ghost v0 = v@;
            let row = chunks[i].rows[j].copy();
            v.push(Entry { order: chunks[i].order, row });
            assert(entries_view(v@) =~= entries_view(v0).push(part[j as int]));
            j += 1;
            assert(entries_view(v@) =~= base + part.take(j as int));
        }
        assert(chunks@.take(i + 1).drop_last() =~= chunks@.take(i as int));
        assert(part.take(j as int) =~= part);
        i += 1;
    }
    assert(chunks@.take(i as int) =~= chunks@);
    v
}

/// The names of all values of the entries' rows.
fn used_names(es: &Vec<Entry>) -> (r: Vec<String>)
    ensures
        names_view(r@) == all_names(entries_view(es@)),
{
    let ghost e = entries_view(es@);
    let mut r: Vec<String> = Vec::new();
    let mut p: usize = 0;
    while p < es.len()
        invariant
            p <= es.len(),
            e == entries_view(es@),
            names_view(r@) == all_names(e.take(p as int)),
        decreases es.len() - p,
    {
        let ghost base = names_view(r@);
        let cells = &es[p].row.cells;
        let ghost part = cells@.map_values(|c: crate::row::Cell| c.name@);
        let mut c: usize = 0;
        while c < cells.len()
            invariant
                c <= cells.len(),
                part == cells@.map_values(|c: crate::row::Cell| c.name@),
                names_view(r@) == base + part.take(c as int),
            decreases cells.len() - c,
        {
            let ghost r0 = names_view(r@);
            r.push(cells[c].name.clone());
            assert(names_view(r@) =~= r0.push(part[c as int]));
            c += 1;
            assert(names_view(r@) =~= base + part.take(c as int));
        }
        assert(part.take(c as int) =~= part);
        assert(e.take(p + 1).drop_last() =~= e.take(p as int));
        assert(e.take(p + 1).last() == e[p as int]);
        assert(e[p as int].1.1 == cells@);
        p += 1;
    }
    assert(e.take(p as int) =~= e);
    r
}

/// The compacted rows within `b`, for the sort key derived from the chunks.
fn compact_rows(chunks: &Vec<ChunkSnapshot>, sort_key: &Vec<String>, b: TimeBound) -> (out: Vec<
    Row,
>)
    ensures
        compaction_of(chunks@, names_view(sort_key@), b, rows_view(out@)),
{
    let es = flatten_entries(chunks);
    let names = used_names(&es);
    let d = dedup(&es, sort_key);
    let f = select_rows(&d, chunks, &names, sort_key, b);
    let out = sort_rows(&f, sort_key);
    proof {
        let e = entries_of(chunks@);
        let sk = names_view(sort_key@);
        let names = all_names(e);
        let fv = rows_view(f@);
        let ov = rows_view(out@);
        assert forall|i: int| 0 <= i < ov.len() implies #[trigger] is_winning_row(e, sk, ov[i])
            && selected(chunks@, names, sk, b, ov[i]) by {
            assert(fv.contains(ov[i]));
            let j = choose|j: int| 0 <= j < fv.len() && fv[j] == ov[i];
            assert(is_winning_row(e, sk, fv[j]));
        }
        assert forall|w: int| #[trigger] is_winner(e, sk, w) && selected(chunks@, names, sk, b, e[w].1)
            implies exists|i: int| 0 <= i < ov.len() && ov[i] == e[w].1 by {
            let j = choose|j: int| 0 <= j < fv.len() && fv[j] == e[w].1;
            assert(ov.contains(fv[j]));
        }
    }
    out
}

/// The result of compacting chunks in merge mode.
#[derive(Debug)]
pub struct Compacted {
    pub schema: Vec<Column>,
    pub sort_key: Vec<String>,
    pub rows: Vec<Row>,
}

/// The result of compacting chunks in split mode.
#[derive(Debug)]
pub struct SplitCompacted {
    pub schema: Vec<Column>,
    pub sort_key: Vec<String>,
    /// Rows with `time <= split_timestamp`.
    pub persist: Vec<Row>,
    /// Rows with `time > split_timestamp`.
    pub remainder: Vec<Row>,
}

/// Schema and sort key of a compaction of `chunks`.
pub open spec fn layout_of(chunks: Seq<ChunkSnapshot>, schema: Seq<Column>, sort_key: Seq<String>) -> bool {
    union_schema(all_columns(chunks), schema) && canonical_key(tag_names(schema), names_view(sort_key))
}

/// Merges `chunks`: one row per primary key, the whole row of the chunk with
/// the highest order; rows that a tombstone of any chunk deletes dropped;
/// sorted by key. Fails when two chunks disagree on a column's type.
pub fn compact(chunks: &Vec<ChunkSnapshot>) -> (r: Result<Compacted, CompactError>)
    requires
        chunks@.len() > 0,
    ensures
        r is Ok <==> !schema_conflict(all_columns(chunks@)),
        r matches Ok(c) ==> layout_of(chunks@, c.schema@, c.sort_key@) && compaction_of(
            chunks@,
            names_view(c.sort_key@),
            TimeBound::All,
            rows_view(c.rows@),
        ),
{
    let schema = match merge_schemas(chunks) {
        Ok(s) => s,
        Err(e) => return Err(e),
    };
    let sort_key = sort_key_of(&schema);
    let rows = compact_rows(chunks, &sort_key, TimeBound::All);
    Ok(Compacted { schema, sort_key, rows })
}

/// Merges `chunks` as `compact` does, then splits the rows at
/// `split_timestamp`: `time <= split_timestamp` to `persist`, the others to
/// `remainder`.
pub fn compact_split(chunks: &Vec<ChunkSnapshot>, split_timestamp: i64) -> (r: Result<
    SplitCompacted,
    CompactError,
>)
    requires
        chunks@.len() > 0,
    ensures
        r is Ok <==> !schema_conflict(all_columns(chunks@)),
        r matches Ok(c) ==> layout_of(chunks@, c.schema@, c.sort_key@) && compaction_of(
            chunks@,
            names_view(c.sort_key@),
            TimeBound::AtMost(split_timestamp),
            rows_view(c.persist@),
        ) && compaction_of(
            chunks@,
            names_view(c.sort_key@),
            TimeBound::After(split_timestamp),
            rows_view(c.remainder@),
        ),
{
    let schema = match merge_schemas(chunks) {
        Ok(s) => s,
        Err(e) => return Err(e),
    };
    let sort_key = sort_key_of(&schema);
    let persist = compact_rows(chunks, &sort_key, TimeBound::AtMost(split_timestamp));
    let remainder = compact_rows(chunks, &sort_key, TimeBound::After(split_timestamp));
    Ok(SplitCompacted { schema, sort_key, persist, remainder })
}

/// Two chunks hold a row with the same primary key, the second in the chunk of
/// higher order, and no other input row has that key. Then the merge holds
/// exactly one row with that key, and it is the whole row of the higher-order
/// chunk (unless a tombstone deletes that row).
pub proof fn lemma_merge_keeps_higher_order_row(
    chunks: Seq<ChunkSnapshot>,
    sk: Seq<Seq<char>>,
    out: Seq<RowV>,
    x: int,
    y: int,
)
    requires
        compaction_of(chunks, sk, TimeBound::All, out),
        0 <= x < entries_of(chunks).len(),
        0 <= y < entries_of(chunks).len(),
        row_key(entries_of(chunks)[x].1, sk) == row_key(entries_of(chunks)[y].1, sk),
        entries_of(chunks)[x].0 < entries_of(chunks)[y].0,
        forall|z: int|
            0 <= z < entries_of(chunks).len() && z != x && z != y ==> row_key(
                #[trigger] entries_of(chunks)[z].1,
                sk,
            ) != row_key(entries_of(chunks)[y].1, sk),
        !deleted_in(chunks, all_names(entries_of(chunks)), sk, entries_of(chunks)[y].1),
    ensures
        exists|i: int|
            0 <= i < out.len() && out[i] == entries_of(chunks)[y].1 && (forall|j: int|
                0 <= j < out.len() && #[trigger] row_key(out[j], sk) == row_key(
                    entries_of(chunks)[y].1,
                    sk,
                ) ==> j == i),
{
    let e = entries_of(chunks);
    assert forall|z: int|
        0 <= z < e.len() && #[trigger] row_key(e[z].1, sk) == row_key(e[y].1, sk) implies (z < y
        ==> e[z].0 <= e[y].0) && (z > y ==> e[z].0 < e[y].0) by {
        if z != y {
            assert(z == x);
        }
    }
    assert(is_winner(e, sk, y));
    assert(selected(chunks, all_names(e), sk, TimeBound::All, e[y].1));
    let i = choose|i: int| 0 <= i < out.len() && out[i] == e[y].1;
    assert forall|j: int|
        0 <= j < out.len() && #[trigger] row_key(out[j], sk) == row_key(e[y].1, sk) implies j
        == i by {
        if j != i {
            assert(row_key(out[j], sk) != row_key(out[i], sk));
        }
    }
}

proof fn lemma_entries_same(a: Seq<ChunkSnapshot>, b: Seq<ChunkSnapshot>)
    requires
        a.len() == b.len(),
        forall|k: int| 0 <= k < a.len() ==> a[k].order == b[k].order && a[k].rows@ == b[k].rows@,
    ensures
        entries_of(a) == entries_of(b),
    decreases a.len(),
{
    if a.len() > 0 {
        lemma_entries_same(a.drop_last(), b.drop_last());
        assert(a.last().rows@ == b.last().rows@);
    }
}

/// A tombstone that a chunk holds twice deletes what it deletes once.
pub proof fn lemma_tombstone_twice_same_as_once(
    preds: Seq<DeletePredicate>,
    t: DeletePredicate,
    names: Seq<Seq<char>>,
    tags: Seq<Seq<char>>,
    r: RowV,
)
    ensures
        is_deleted(preds.push(t).push(t), names, tags, r) == is_deleted(preds.push(t), names, tags, r),
{
    let once = preds.push(t);
    let twice = once.push(t);
    if is_deleted(twice, names, tags, r) {
        let i = choose|i: int| 0 <= i < twice.len() && crate::tombstone::pred_matches(#[trigger] twice[i], names, tags, r);
        if i == once.len() {
            assert(crate::tombstone::pred_matches(once[i - 1], names, tags, r));
        } else {
            assert(crate::tombstone::pred_matches(once[i], names, tags, r));
        }
    }
    if is_deleted(once, names, tags, r) {
        let i = choose|i: int| 0 <= i < once.len() && crate::tombstone::pred_matches(#[trigger] once[i], names, tags, r);
        assert(twice[i] == once[i]);
    }
}

/// Compacting chunks where one chunk holds a tombstone twice gives what
/// compacting them with the tombstone held once gives.
pub proof fn lemma_compaction_tombstone_idempotent(
    once: Seq<ChunkSnapshot>,
    twice: Seq<ChunkSnapshot>,
    c: int,
    base: Seq<DeletePredicate>,
    t: DeletePredicate,
    sk: Seq<Seq<char>>,
    b: TimeBound,
    out: Seq<RowV>,
)
    requires
        once.len() == twice.len(),
        0 <= c < once.len(),
        forall|k: int|
            0 <= k < once.len() ==> (#[trigger] once[k]).order == twice[k].order && once[k].rows@
                == twice[k].rows@,
        forall|k: int|
            0 <= k < once.len() && k != c ==> (#[trigger] once[k]).tombstones@
                == twice[k].tombstones@,
        once[c].tombstones@ == base.push(t),
        twice[c].tombstones@ == base.push(t).push(t),
    ensures
        compaction_of(once, sk, b, out) == compaction_of(twice, sk, b, out),
{
    lemma_entries_same(once, twice);
    let names = all_names(entries_of(once));
    assert forall|r: RowV| deleted_in(once, names, sk, r) == deleted_in(twice, names, sk, r) by {
        lemma_tombstone_twice_same_as_once(base, t, names, sk, r);
        if deleted_in(once, names, sk, r) {
            let k = choose|k: int| 0 <= k < once.len() && is_deleted(#[trigger] once[k].tombstones@, names, sk, r);
            if k != c {
                assert(once[k].tombstones@ == twice[k].tombstones@);
            }
            assert(is_deleted(twice[k].tombstones@, names, sk, r));
        }
        if deleted_in(twice, names, sk, r) {
            let k = choose|k: int| 0 <= k < twice.len() && is_deleted(#[trigger] twice[k].tombstones@, names, sk, r);
            if k != c {
                assert(once[k].tombstones@ == twice[k].tombstones@);
            }
            assert(is_deleted(once[k].tombstones@, names, sk, r));
        }
    }
    assert forall|r: RowV| selected(once, names, sk, b, r) == selected(twice, names, sk, b, r) by {}
}

/// Splitting loses and duplicates nothing: the persist and remainder parts
/// of a split together hold as many rows as the merge without a split, every
/// persisted row has `time <= t` and every remaining row `time > t`.
pub proof fn lemma_split_complete(
    chunks: Seq<ChunkSnapshot>,
    sk: Seq<Seq<char>>,
    t: i64,
    merged: Seq<RowV>,
    persist: Seq<RowV>,
    remainder: Seq<RowV>,
)
    requires
        compaction_of(chunks, sk, TimeBound::All, merged),
        compaction_of(chunks, sk, TimeBound::AtMost(t), persist),
        compaction_of(chunks, sk, TimeBound::After(t), remainder),
    ensures
        persist.len() + remainder.len() == merged.len(),
        forall|i: int| 0 <= i < persist.len() ==> (#[trigger] persist[i]).0 <= t,
        forall|i: int| 0 <= i < remainder.len() ==> (#[trigger] remainder[i]).0 > t,
{
    let e = entries_of(chunks);
    let names = all_names(e);
    assert forall|i: int| 0 <= i < persist.len() implies (#[trigger] persist[i]).0 <= t by {
        assert(is_winning_row(e, sk, persist[i]));
    }
    assert forall|i: int| 0 <= i < remainder.len() implies (#[trigger] remainder[i]).0 > t by {
        assert(is_winning_row(e, sk, remainder[i]));
    }
    lemma_distinct_keys_no_duplicates(merged, sk);
    lemma_distinct_keys_no_duplicates(persist, sk);
    lemma_distinct_keys_no_duplicates(remainder, sk);
    let ms = merged.to_set();
    let ps = persist.to_set();
    let rs = remainder.to_set();
    assert forall|r: RowV| ms.contains(r) <==> (ps + rs).contains(r) by {
        if ms.contains(r) {
            let i = choose|i: int| 0 <= i < merged.len() && merged[i] == r;
            assert(is_winning_row(e, sk, merged[i]));
            let w = choose|w: int| #[trigger] is_winner(e, sk, w) && merged[i] == e[w].1;
            if r.0 <= t {
                assert(selected(chunks, names, sk, TimeBound::AtMost(t), e[w].1));
                let a = choose|a: int| 0 <= a < persist.len() && persist[a] == e[w].1;
                assert(ps.contains(r));
            } else {
                assert(selected(chunks, names, sk, TimeBound::After(t), e[w].1));
                let a = choose|a: int| 0 <= a < remainder.len() && remainder[a] == e[w].1;
                assert(rs.contains(r));
            }
        }
        if ps.contains(r) {
            let i = choose|i: int| 0 <= i < persist.len() && persist[i] == r;
            assert(is_winning_row(e, sk, persist[i]));
            let w = choose|w: int| #[trigger] is_winner(e, sk, w) && persist[i] == e[w].1;
            assert(selected(chunks, names, sk, TimeBound::All, e[w].1));
            let a = choose|a: int| 0 <= a < merged.len() && merged[a] == e[w].1;
        }
        if rs.contains(r) {
            let i = choose|i: int| 0 <= i < remainder.len() && remainder[i] == r;
            assert(is_winning_row(e, sk, remainder[i]));
            let w = choose|w: int| #[trigger] is_winner(e, sk, w) && remainder[i] == e[w].1;
            assert(selected(chunks, names, sk, TimeBound::All, e[w].1));
            let a = choose|a: int| 0 <= a < merged.len() && merged[a] == e[w].1;
        }
    }
    assert(ms =~= ps + rs);
    assert(ps.disjoint(rs)) by {
        assert forall|r: RowV| !(ps.contains(r) && rs.contains(r)) by {
            if ps.contains(r) && rs.contains(r) {
                let i = choose|i: int| 0 <= i < persist.len() && persist[i] == r;
                let j = choose|j: int| 0 <= j < remainder.len() && remainder[j] == r;
            }
        }
    }
    merged.unique_seq_to_set();
    persist.unique_seq_to_set();
    remainder.unique_seq_to_set();
    vstd::seq_lib::seq_to_set_is_finite(persist);
    vstd::seq_lib::seq_to_set_is_finite(remainder);
    vstd::set_lib::lemma_set_disjoint_lens(ps, rs);
}

proof fn lemma_distinct_keys_no_duplicates(s: Seq<RowV>, sk: Seq<Seq<char>>)
    requires
        distinct_keys(s, sk),
    ensures
        s.no_duplicates(),
{
    assert forall|i: int, j: int| 0 <= i < s.len() && 0 <= j < s.len() && i != j implies s[i]
        != s[j] by {
        assert(row_key(s[i], sk) != row_key(s[j], sk));
    }
}

/// One chunk of one row and no tombstone compacts to that row, within the
/// bound, and to nothing outside it.
pub proof fn lemma_single_row_compaction(
    chunks: Seq<ChunkSnapshot>,
    sk: Seq<Seq<char>>,
    b: TimeBound,
    out: Seq<RowV>,
    r: RowV,
)
    requires
        chunks.len() == 1,
        rows_view(chunks[0].rows@) == seq![r],
        chunks[0].tombstones@.len() == 0,
        compaction_of(chunks, sk, b, out),
    ensures
        in_bound(b, r.0) ==> out == seq![r],
        !in_bound(b, r.0) ==> out.len() == 0,
{
    let e = entries_of(chunks);
    assert(chunks.drop_last() =~= Seq::<ChunkSnapshot>::empty());
    assert(chunks.last() == chunks[0]);
    let rs = chunks[0].rows@;
    assert(rows_view(rs).len() == rs.len());
    assert(rs.len() == 1);
    assert(rows_view(rs)[0] == rs[0]@);
    assert(rs[0]@ == r);
    assert(entries_of(chunks.drop_last()) =~= Seq::<(u64, RowV)>::empty());
    let part = chunks.last().rows@.map_values(|x: Row| (chunks.last().order, x@));
    assert(e == entries_of(chunks.drop_last()) + part);
    assert(part.len() == 1);
    assert(part[0] == (chunks[0].order, r));
    assert(e =~= seq![(chunks[0].order, r)]);
    let names = all_names(e);
    assert forall|w: int| #[trigger] is_winner(e, sk, w) implies w == 0 by {}
    assert(is_winner(e, sk, 0));
    assert(!deleted_in(chunks, names, sk, r)) by {
        if deleted_in(chunks, names, sk, r) {
            let c = choose|c: int| 0 <= c < chunks.len() && is_deleted(#[trigger] chunks[c].tombstones@, names, sk, r);
            assert(c == 0);
        }
    }
    assert forall|j: int| 0 <= j < out.len() implies out[j] == r && in_bound(b, r.0) by {
        assert(is_winning_row(e, sk, out[j]));
        let w = choose|w: int| #[trigger] is_winner(e, sk, w) && out[j] == e[w].1;
    }
    if in_bound(b, r.0) {
        assert(selected(chunks, names, sk, b, e[0].1));
        let i = choose|i: int| 0 <= i < out.len() && out[i] == e[0].1;
        if out.len() > 1 {
            let o = if i == 0 { 1int } else { 0int };
            assert(out[o] == r);
            assert(row_key(out[i], sk) != row_key(out[o], sk));
        }
        assert(out =~= seq![r]);
    } else {
        if out.len() > 0 {
            assert(out[0] == r);
        }
    }
}

/// A union schema declares each name once, so it has no conflict.
pub proof fn lemma_union_no_conflict(cols: Seq<Column>, s: Seq<Column>)
    requires
        union_schema(cols, s),
    ensures
        !schema_conflict(s),
{
    if schema_conflict(s) {
        let (i, j) = choose|i: int, j: int|
            0 <= i < s.len() && 0 <= j < s.len() && s[i].name@ == s[j].name@ && s[i].data_type != s[j].data_type;
        assert(i != j);
    }
}

} // verus!
