//! Persistence windows: which write timestamps are not yet durable, and the
//! single-use flush handle that advances that watermark after a persist.
use vstd::prelude::*;

verus! {

/// The writes received while one window was open.
#[derive(Debug, Clone, Copy, PartialEq, Eq, Structural)]
pub struct Window {
    pub min_time: i64,
    pub max_time: i64,
    pub row_count: u64,
    pub min_seq: u64,
    pub max_seq: u64,
    /// Wall-clock time the window was opened.
    pub created_at: i64,
}

/// A window is closed once it has been open for the late-arrival period.
pub open spec fn aged(w: Window, now: i64, late: i64) -> bool {
    now - w.created_at >= late
}

pub open spec fn min_opt(a: Option<i64>, b: i64) -> Option<i64> {
    match a {
        None => Some(b),
        Some(x) => Some(if x <= b { x } else { b }),
    }
}

pub open spec fn max_opt(a: Option<i64>, b: i64) -> Option<i64> {
    match a {
        None => Some(b),
        Some(x) => Some(if x >= b { x } else { b }),
    }
}

/// The smallest `min_time` of the windows.
pub open spec fn min_start(ws: Seq<Window>) -> Option<i64>
    decreases ws.len(),
{
    if ws.len() == 0 {
        None
    } else {
        min_opt(min_start(ws.drop_last()), ws.last().min_time)
    }
}

/// The largest `max_time` of the windows.
pub open spec fn max_end(ws: Seq<Window>) -> Option<i64>
    decreases ws.len(),
{
    if ws.len() == 0 {
        None
    } else {
        max_opt(max_end(ws.drop_last()), ws.last().max_time)
    }
}

/// What is left of windows once every row up to `t` is durable: windows that
/// end at or before `t` are gone, the others start after `t`.
pub open spec fn truncated(ws: Seq<Window>, t: i64) -> Seq<Window>
    decreases ws.len(),
{
    if ws.len() == 0 {
        Seq::empty()
    } else {
        let w = ws.last();
        let rest = truncated(ws.drop_last(), t);
        if w.max_time <= t {
            rest
        } else {
            rest.push(Window { min_time: if w.min_time > t { w.min_time } else { (t + 1) as i64 }, ..w })
        }
    }
}

pub proof fn lemma_min_start(ws: Seq<Window>)
    ensures
        min_start(ws) is None <==> ws.len() == 0,
        min_start(ws) matches Some(m) ==> (forall|i: int|
            0 <= i < ws.len() ==> m <= #[trigger] ws[i].min_time) && exists|i: int|
            0 <= i < ws.len() && ws[i].min_time == m,
    decreases ws.len(),
{
    if ws.len() > 0 {
        let d = ws.drop_last();
        lemma_min_start(d);
        assert forall|i: int| 0 <= i < d.len() implies d[i] == ws[i] by {}
        if let Some(m) = min_start(d) {
            let i = choose|i: int| 0 <= i < d.len() && d[i].min_time == m;
            assert(ws[i] == d[i]);
        }
    }
}

pub proof fn lemma_max_end(ws: Seq<Window>)
    ensures
        max_end(ws) is None <==> ws.len() == 0,
        max_end(ws) matches Some(m) ==> (forall|i: int|
            0 <= i < ws.len() ==> #[trigger] ws[i].max_time <= m) && exists|i: int|
            0 <= i < ws.len() && ws[i].max_time == m,
    decreases ws.len(),
{
    if ws.len() > 0 {
        let d = ws.drop_last();
        lemma_max_end(d);
        assert forall|i: int| 0 <= i < d.len() implies d[i] == ws[i] by {}
        if let Some(m) = max_end(d) {
            let i = choose|i: int| 0 <= i < d.len() && d[i].max_time == m;
            assert(ws[i] == d[i]);
        }
    }
}

/// Each truncated window is a window of the input that ends after `t`, now
/// starting after `t`.
pub proof fn lemma_truncated(ws: Seq<Window>, t: i64)
    ensures
        forall|i: int|
            0 <= i < truncated(ws, t).len() ==> #[trigger] truncated(ws, t)[i].min_time > t
                && exists|j: int|
                0 <= j < ws.len() && ws[j].max_time > t && truncated(ws, t)[i].min_time
                    >= ws[j].min_time,
    decreases ws.len(),
{
    if ws.len() > 0 {
        let d = ws.drop_last();
        lemma_truncated(d, t);
        let rest = truncated(d, t);
        let out = truncated(ws, t);
        assert forall|i: int| 0 <= i < out.len() implies #[trigger] out[i].min_time > t
            && exists|j: int|
            0 <= j < ws.len() && ws[j].max_time > t && out[i].min_time >= ws[j].min_time by {
            if i < rest.len() {
                assert(out[i] == rest[i]);
                let j = choose|j: int|
                    0 <= j < d.len() && d[j].max_time > t && rest[i].min_time >= d[j].min_time;
                assert(ws[j] == d[j]);
            } else {
                assert(ws[ws.len() - 1] == ws.last());
            }
        }
    }
}

/// `after` is `before` with a write of `row_count` rows (sequence number
/// `seq`, times `min_time..=max_time`, received at `now`) recorded.
pub open spec fn range_added(
    before: PersistenceWindows,
    after: PersistenceWindows,
    seq: u64,
    row_count: u64,
    min_time: i64,
    max_time: i64,
    now: i64,
) -> bool {
    &&& after.late() == before.late()
    &&& after.spec_generation() == before.spec_generation()
    &&& match before.open_window() {
        Some(o) => if !aged(o, now, before.late()) {
            &&& after.closed_windows() == before.closed_windows()
            &&& after.open_window() == Some(
                Window {
                    min_time: if o.min_time <= min_time { o.min_time } else { min_time },
                    max_time: if o.max_time >= max_time { o.max_time } else { max_time },
                    row_count: if o.row_count + row_count <= u64::MAX {
                        (o.row_count + row_count) as u64
                    } else {
                        u64::MAX
                    },
                    min_seq: if o.min_seq <= seq { o.min_seq } else { seq },
                    max_seq: if o.max_seq >= seq { o.max_seq } else { seq },
                    created_at: o.created_at,
                },
            )
        } else {
            &&& after.closed_windows() == before.closed_windows().push(o)
            &&& after.open_window() == Some(
                Window {
                    min_time,
                    max_time,
                    row_count,
                    min_seq: seq,
                    max_seq: seq,
                    created_at: now,
                },
            )
        },
        None => {
            &&& after.closed_windows() == before.closed_windows()
            &&& after.open_window() == Some(
                Window {
                    min_time,
                    max_time,
                    row_count,
                    min_seq: seq,
                    max_seq: seq,
                    created_at: now,
                },
            )
        },
    }
}

/// Authorises one advance of the watermark of the windows it came from.
#[derive(Debug)]
pub struct FlushHandle {
    timestamp: i64,
    persist_count: usize,
    sealed_count: usize,
    generation: u64,
}

impl FlushHandle {
    /// Every row with a time up to this one is to be persisted.
    pub fn timestamp(&self) -> (r: i64)
        ensures
            r == self.spec_timestamp(),
    {
        self.timestamp
    }

    pub closed spec fn spec_timestamp(&self) -> i64 {
        self.timestamp
    }

    /// How many of the oldest windows the persist covers whole.
    pub closed spec fn persist_count(&self) -> nat {
        self.persist_count as nat
    }

    /// How many of the oldest windows existed when the handle was made.
    pub closed spec fn sealed_count(&self) -> nat {
        self.sealed_count as nat
    }

    pub closed spec fn generation(&self) -> u64 {
        self.generation
    }
}

/// Tracks the writes that are not yet persisted, window by window.
#[derive(Debug)]
pub struct PersistenceWindows {
    closed: Vec<Window>,
    open: Option<Window>,
    late_arrival: i64,
    generation: u64,
}

impl PersistenceWindows {
    /// Closed windows, oldest first.
    pub closed spec fn closed_windows(&self) -> Seq<Window> {
        self.closed@
    }

    /// The window that still takes writes.
    pub closed spec fn open_window(&self) -> Option<Window> {
        self.open
    }

    pub closed spec fn late(&self) -> i64 {
        self.late_arrival
    }

    /// Bumped by each flush; a handle made before it is stale.
    pub closed spec fn spec_generation(&self) -> u64 {
        self.generation
    }

    /// All windows, oldest first.
    pub open spec fn windows(&self) -> Seq<Window> {
        match self.open_window() {
            Some(o) => self.closed_windows().push(o),
            None => self.closed_windows(),
        }
    }

    /// The earliest timestamp that may still be unpersisted.
    pub open spec fn min_unpersisted(&self) -> Option<i64> {
        min_start(self.windows())
    }

    pub fn new(late_arrival: i64) -> (r: PersistenceWindows)
        requires
            late_arrival >= 0,
        ensures
            r.windows().len() == 0,
            r.open_window() is None,
            r.late() == late_arrival,
    {
        PersistenceWindows { closed: Vec::new(), open: None, late_arrival, generation: 0 }
    }

    pub fn is_empty(&self) -> (r: bool)
        ensures
            r == (self.windows().len() == 0),
    {
        self.closed.len() == 0 && self.open.is_none()
    }

    /// Records `row_count` rows with sequence number `seq` and times in
    /// `min_time..=max_time`, received at `now`. The open window takes them,
    /// unless it has aged: then it closes and a new window opens.
    pub fn add_range(
        &mut self,
        seq: u64,
        row_count: u64,
        min_time: i64,
        max_time: i64,
        now: i64,
    )
        requires
            min_time <= max_time,
        ensures
            range_added(*old(self), *final(self), seq, row_count, min_time, max_time, now),
    {
        let fresh = Window {
            min_time,
            max_time,
            row_count,
            min_seq: seq,
            max_seq: seq,
            created_at: now,
        };
        match self.open {
            Some(o) => {
                if (now as i128) - (o.created_at as i128) >= self.late_arrival as i128 {
                    self.closed.push(o);
                    self.open = Some(fresh);
                } else {
                    self.open = Some(
                        Window {
                            min_time: if o.min_time <= min_time {
                                o.min_time
                            } else {
                                min_time
                            },
                            max_time: if o.max_time >= max_time {
                                o.max_time
                            } else {
                                max_time
                            },
                            row_count: o.row_count.saturating_add(row_count),
                            min_seq: if o.min_seq <= seq {
                                o.min_seq
                            } else {
                                seq
                            },
                            max_seq: if o.max_seq >= seq {
                                o.max_seq
                            } else {
                                seq
                            },
                            created_at: o.created_at,
                        },
                    );
                }
            },
            None => {
                self.open = Some(fresh);
            },
        }
    }

    /// The earliest timestamp that may still be unpersisted, if any.
    pub fn minimum_unpersisted_timestamp(&self) -> (r: Option<i64>)
        ensures
            r == self.min_unpersisted(),
    {
        let mut m: Option<i64> = None;
        let mut i: usize = 0;
        while i < self.closed.len()
            invariant
                i <= self.closed.len(),
                m == min_start(self.closed@.take(i as int)),
            decreases self.closed.len() - i,
        {
            assert(self.closed@.take(i + 1).drop_last() =~= self.closed@.take(i as int));
            let w = self.closed[i];
            m = match m {
                None => Some(w.min_time),
                Some(x) => Some(if x <= w.min_time { x } else { w.min_time }),
            };
            i += 1;
        }
        assert(self.closed@.take(i as int) =~= self.closed@);
        match self.open {
            Some(o) => {
                assert(self.windows().drop_last() =~= self.closed@);
                match m {
                    None => Some(o.min_time),
                    Some(x) => Some(if x <= o.min_time { x } else { o.min_time }),
                }
            },
            None => m,
        }
    }

    /// A handle for persisting the closed windows (all windows when `force`),
    /// or `None` when nothing can be persisted yet. The open window is sealed,
    /// so that later writes start a window of their own.
    pub fn flush_handle(&mut self, now: i64, force: bool) -> (r: Option<FlushHandle>)
        ensures
            handle_made(*old(self), *final(self), now, force, r),
    {
        let ghost ws = self.windows();
        let mut n: usize = 0;
        let mut open_aged = false;
        if !force {
            while n < self.closed.len()
                invariant
                    n <= self.closed.len(),
                    ws == self.windows(),
                    forall|i: int| 0 <= i < n ==> aged(#[trigger] ws[i], now, self.late()),
                ensures
                    n <= self.closed.len(),
                    forall|i: int| 0 <= i < n ==> aged(#[trigger] ws[i], now, self.late()),
                    n < self.closed.len() ==> !aged(ws[n as int], now, self.late()),
                decreases self.closed.len() - n,
            {
                let w = self.closed[n];
                assert(ws[n as int] == w);
                if !((now as i128) - (w.created_at as i128) >= self.late_arrival as i128) {
                    break;
                }
                n += 1;
            }
            if n == self.closed.len() {
                match self.open {
                    Some(o) => {
                        assert(ws[n as int] == o);
                        open_aged = (now as i128) - (o.created_at as i128)
                            >= self.late_arrival as i128;
                    },
                    None => {},
                }
            }
            if n == 0 && !open_aged {
                return None;
            }
        } else if self.closed.len() == 0 && self.open.is_none() {
            return None;
        }
        let old_len = self.closed.len();
        match self.open {
            Some(o) => {
                self.closed.push(o);
                self.open = None;
            },
            None => {},
        }
        assert(self.closed@ =~= ws);
        let total = self.closed.len();
        if force {
            n = total;
        } else if open_aged {
            n = old_len + 1;
        }
        let mut t: i64 = self.closed[0].max_time;
        let mut i: usize = 1;
        assert(ws.take(1).drop_last() =~= ws.take(0));
        assert(ws.take(1).last() == ws[0]);
        assert(ws.take(0).len() == 0);
        assert(max_end(ws.take(0)) == None::<i64>);
        assert(self.closed@[0] == ws[0]);
        assert(max_end(ws.take(1)) == Some(t));
        while i < n
            invariant
                1 <= i <= n,
                n <= self.closed.len(),
                self.closed@ == ws,
                max_end(ws.take(i as int)) == Some(t),
            decreases n - i,
        {
            assert(ws.take(i + 1).drop_last() =~= ws.take(i as int));
            assert(ws.take(i + 1).last() == ws[i as int]);
            let w = self.closed[i];
            if w.max_time > t {
                t = w.max_time;
            }
            i += 1;
        }
        Some(FlushHandle { timestamp: t, persist_count: n, sealed_count: total, generation: self.generation })
    }

    /// Advances the watermark to the handle's timestamp: of the windows that
    /// existed when the handle was made, those that end at or before it are
    /// gone and the others start after it; later windows are untouched.
    /// Returns `false`, changing nothing, for a stale handle.
    pub fn flush(&mut self, handle: FlushHandle) -> (r: bool)
        ensures
            r == (handle.generation() == old(self).spec_generation() && handle.sealed_count()
                <= old(self).closed_windows().len()),
            r ==> flushed(*old(self), *final(self), handle),
            !r ==> final(self).closed_windows() == old(self).closed_windows()
                && final(self).open_window() == old(self).open_window()
                && final(self).spec_generation() == old(self).spec_generation(),
            final(self).late() == old(self).late(),
    {
        if handle.generation != self.generation || handle.sealed_count > self.closed.len() {
            return false;
        }
        let t = handle.timestamp;
        let sc = handle.sealed_count;
        let ghost cw = self.closed@;
        let mut kept: Vec<Window> = Vec::new();
        let mut i: usize = 0;
        while i < sc
            invariant
                i <= sc,
                sc <= self.closed.len(),
                cw == self.closed@,
                kept@ == truncated(cw.take(i as int), t),
            decreases sc - i,
        {
            assert(cw.take(i + 1).drop_last() =~= cw.take(i as int));
            let w = self.closed[i];
            if w.max_time > t {
                kept.push(
                    Window { min_time: if w.min_time > t {
                        w.min_time
                    } else {
                        t + 1
                    }, ..w },
                );
            }
            i += 1;
        }
        let ghost head = kept@;
        while i < self.closed.len()
            invariant
                sc <= i <= self.closed.len(),
                cw == self.closed@,
                kept@ == head + cw.subrange(sc as int, i as int),
            decreases self.closed.len() - i,
        {
            kept.push(self.closed[i]);
            i += 1;
            assert(kept@ =~= head + cw.subrange(sc as int, i as int));
        }
        self.closed = kept;
        self.generation = if self.generation == u64::MAX {
            0
        } else {
            self.generation + 1
        };
        proof {
            assert(cw.skip(sc as int) =~= cw.subrange(sc as int, cw.len() as int));
        }
        true
    }
}

/// `after` is `before` once `flush_handle(now, force)` returned `r`.
pub open spec fn handle_made(
    before: PersistenceWindows,
    after: PersistenceWindows,
    now: i64,
    force: bool,
    r: Option<FlushHandle>,
) -> bool {
    let ws = before.windows();
    &&& after.late() == before.late()
    &&& after.spec_generation() == before.spec_generation()
    &&& r is None <==> (ws.len() == 0 || (!force && !aged(ws[0], now, before.late())))
    &&& r is None ==> after.closed_windows() == before.closed_windows() && after.open_window()
        == before.open_window()
    &&& r matches Some(h) ==> {
        &&& after.closed_windows() == ws
        &&& after.open_window() is None
        &&& h.generation() == before.spec_generation()
        &&& h.sealed_count() == ws.len()
        &&& 0 < h.persist_count() <= ws.len()
        &&& force ==> h.persist_count() == ws.len()
        &&& !force ==> (forall|i: int|
            0 <= i < h.persist_count() ==> aged(#[trigger] ws[i], now, before.late())) && (
        h.persist_count() < ws.len() ==> !aged(ws[h.persist_count() as int], now, before.late()))
        &&& max_end(ws.take(h.persist_count() as int)) == Some(h.spec_timestamp())
    }
}

/// `after` is what a successful flush with `h` made of `before`.
pub open spec fn flushed(before: PersistenceWindows, after: PersistenceWindows, h: FlushHandle) -> bool {
    let cw = before.closed_windows();
    let sc = h.sealed_count() as int;
    &&& sc <= cw.len()
    &&& after.closed_windows() == truncated(cw.take(sc), h.spec_timestamp()) + cw.skip(sc)
    &&& after.open_window() == before.open_window()
}

/// A flush never lowers the earliest unpersisted timestamp.
pub proof fn lemma_flush_never_lowers_watermark(
    before: PersistenceWindows,
    after: PersistenceWindows,
    h: FlushHandle,
)
    requires
        flushed(before, after, h),
    ensures
        after.min_unpersisted() matches Some(a) ==> before.min_unpersisted() matches Some(b)
            && b <= a,
{
    let cw = before.closed_windows();
    let sc = h.sealed_count() as int;
    let t = h.spec_timestamp();
    let bw = before.windows();
    let aw = after.windows();
    let tr = truncated(cw.take(sc), t);
    lemma_min_start(bw);
    lemma_min_start(aw);
    lemma_truncated(cw.take(sc), t);
    if let Some(a) = after.min_unpersisted() {
        let i = choose|i: int| 0 <= i < aw.len() && aw[i].min_time == a;
        // every window after the flush starts no earlier than one before it
        let j: int = if i < tr.len() {
            assert(aw[i] == tr[i]);
            let j0 = choose|j: int|
                0 <= j < cw.take(sc).len() && cw.take(sc)[j].max_time > t && tr[i].min_time
                    >= cw.take(sc)[j].min_time;
            assert(bw[j0] == cw[j0]);
            j0
        } else if i < after.closed_windows().len() {
            assert(aw[i] == cw[sc + i - tr.len()]);
            assert(bw[sc + i - tr.len()] == cw[sc + i - tr.len()]);
            sc + i - tr.len()
        } else {
            assert(bw[bw.len() - 1] == aw[i]);
            bw.len() - 1
        };
        assert(0 <= j < bw.len() && bw[j].min_time <= a);
    }
}

/// After a flush with timestamp `t`, when no window made after the handle
/// starts at or before `t`, nothing unpersisted is left at or before `t`.
pub proof fn lemma_flush_clears_below_timestamp(
    before: PersistenceWindows,
    after: PersistenceWindows,
    h: FlushHandle,
)
    requires
        flushed(before, after, h),
        forall|i: int|
            h.sealed_count() <= i < before.closed_windows().len() ==> #[trigger] before.closed_windows()[i].min_time
                > h.spec_timestamp(),
        before.open_window() matches Some(o) ==> o.min_time > h.spec_timestamp(),
    ensures
        after.min_unpersisted() matches Some(a) ==> a > h.spec_timestamp(),
{
    let cw = before.closed_windows();
    let sc = h.sealed_count() as int;
    let t = h.spec_timestamp();
    let aw = after.windows();
    let tr = truncated(cw.take(sc), t);
    lemma_min_start(aw);
    lemma_truncated(cw.take(sc), t);
    if let Some(a) = after.min_unpersisted() {
        let i = choose|i: int| 0 <= i < aw.len() && aw[i].min_time == a;
        if i < tr.len() {
            assert(aw[i] == tr[i]);
        } else if i < after.closed_windows().len() {
            assert(aw[i] == cw[sc + i - tr.len()]);
        }
    }
}

} // verus!
