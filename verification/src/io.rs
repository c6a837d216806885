//! The I/O detection window: per-candidate counter deltas, hit
//! bookkeeping, last-qualifying-delta bookkeeping, and the final
//! choice among candidates that sustained the threshold.
//!
//! The sampling loop reads each candidate's cumulative byte counters
//! at a tick's start and end and hands the engine one `IoReading` per
//! candidate it could read on both ends; the engine decides
//! everything else.

use vstd::prelude::*;

use crate::samples::IoSample;

verus! {

/// One candidate's cumulative byte counters over one tick: the values
/// read at the tick's start and at its end.
pub struct IoReading {
    pub pid: u32,
    pub name: String,
    pub start_read: u64,
    pub start_write: u64,
    pub end_read: u64,
    pub end_write: u64,
}

/// What one tick contributes for a counter pair: the growth over the
/// tick, and zero when the counter moved backwards (a counter reset or
/// a reused pid), never a negative value.
pub open spec fn spec_delta(start: u64, end: u64) -> u64 {
    if end >= start {
        (end - start) as u64
    } else {
        0
    }
}

/// Computes a per-tick counter delta; saturating, so a pair with
/// `end < start` yields zero, never a negative value.
pub fn io_delta(start: u64, end: u64) -> (r: u64)
    ensures
        r == spec_delta(start, end),
{
    end.saturating_sub(start)
}

/// The bookkeeping an I/O window accumulates: per pid, how many ticks
/// hit the thresholds, and the deltas and name of the pid's last tick
/// with any activity.
pub ghost struct IoState {
    pub hits: Map<u32, usize>,
    pub seen: Map<u32, IoSample>,
}

/// The bookkeeping before any reading has been processed.
pub open spec fn io_initial_state() -> IoState {
    IoState { hits: Map::empty(), seen: Map::empty() }
}

/// A hit count incremented by one, held at the top of its range.
pub open spec fn spec_bump(c: usize) -> usize {
    if c == usize::MAX {
        c
    } else {
        (c + 1) as usize
    }
}

/// How one reading advances the bookkeeping: a tick with any activity
/// (a non-zero read or write delta) overwrites the pid's last-seen
/// deltas and name; if moreover the read delta meets the read
/// threshold or the write delta meets the write threshold, the pid's
/// hit count grows by one.
pub open spec fn io_step(st: IoState, r: IoReading, rt: u64, wt: u64) -> IoState {
    let rd = spec_delta(r.start_read, r.end_read);
    let wd = spec_delta(r.start_write, r.end_write);
    if rd > 0 || wd > 0 {
        let seen2 = st.seen.insert(
            r.pid,
            IoSample { pid: r.pid, name: r.name, read_bps: rd, write_bps: wd },
        );
        if rd >= rt || wd >= wt {
            let old_c: usize = if st.hits.contains_key(r.pid) {
                st.hits[r.pid]
            } else {
                0
            };
            IoState { hits: st.hits.insert(r.pid, spec_bump(old_c)), seen: seen2 }
        } else {
            IoState { hits: st.hits, seen: seen2 }
        }
    } else {
        st
    }
}

/// The bookkeeping after one tick's readings, in order.
pub open spec fn io_fold_tick(st: IoState, readings: Seq<IoReading>, rt: u64, wt: u64) -> IoState
    decreases readings.len(),
{
    if readings.len() == 0 {
        st
    } else {
        io_step(io_fold_tick(st, readings.drop_last(), rt, wt), readings.last(), rt, wt)
    }
}

/// The bookkeeping after a whole window of ticks, in order.
pub open spec fn io_fold_run(st: IoState, ticks: Seq<Vec<IoReading>>, rt: u64, wt: u64) -> IoState
    decreases ticks.len(),
{
    if ticks.len() == 0 {
        st
    } else {
        io_fold_tick(io_fold_run(st, ticks.drop_last(), rt, wt), ticks.last()@, rt, wt)
    }
}

/// Whether a pid is eligible for the final choice: its hit count
/// reached the floor and it has a recorded last-activity tick.
pub open spec fn io_qualifies(st: IoState, p: u32, min_hits: usize) -> bool {
    st.hits.contains_key(p) && st.hits[p] >= min_hits && st.seen.contains_key(p)
}

/// A sum held at the top of its range.
pub open spec fn spec_sat_add(a: u64, b: u64) -> u64 {
    if a + b > u64::MAX {
        u64::MAX
    } else {
        (a + b) as u64
    }
}

/// A qualifying pid's combined last read and write delta, the measure
/// the final choice maximises.
pub open spec fn io_combined(st: IoState, p: u32) -> u64 {
    spec_sat_add(st.seen[p].read_bps, st.seen[p].write_bps)
}

/// Whether `p` beats or equals `q` in the final choice's order:
/// larger combined delta first, then smaller pid.
pub open spec fn io_rank_ge(st: IoState, p: u32, q: u32) -> bool {
    io_combined(st, p) > io_combined(st, q) || (io_combined(st, p) == io_combined(st, q) && p
        <= q)
}


/// Bookkeeping only grows within a window: a pid that entered the hit
/// or last-seen tables stays there for the rest of the tick, and its
/// hit count never shrinks. No candidate is excluded from a tick's
/// hit evaluation once it has entered the window's bookkeeping.
pub proof fn lemma_io_tick_monotonic(st: IoState, readings: Seq<IoReading>, rt: u64, wt: u64)
    ensures
        forall|p: u32|
            #![trigger st.hits.contains_key(p)]
            st.hits.contains_key(p) ==> io_fold_tick(st, readings, rt, wt).hits.contains_key(p)
                && io_fold_tick(st, readings, rt, wt).hits[p] >= st.hits[p],
        forall|p: u32|
            #![trigger st.seen.contains_key(p)]
            st.seen.contains_key(p) ==> io_fold_tick(st, readings, rt, wt).seen.contains_key(p),
    decreases readings.len(),
{
    if readings.len() > 0 {
        lemma_io_tick_monotonic(st, readings.drop_last(), rt, wt);
        let mid = io_fold_tick(st, readings.drop_last(), rt, wt);
        let fin = io_fold_tick(st, readings, rt, wt);
        assert(fin == io_step(mid, readings.last(), rt, wt));
        assert forall|p: u32| #![trigger st.hits.contains_key(p)] st.hits.contains_key(p)
            implies fin.hits.contains_key(p) && fin.hits[p] >= st.hits[p] by {
            assert(io_fold_tick(st, readings.drop_last(), rt, wt).hits.contains_key(p)
                && io_fold_tick(st, readings.drop_last(), rt, wt).hits[p] >= st.hits[p]);
        }
        assert forall|p: u32| #![trigger st.seen.contains_key(p)] st.seen.contains_key(p)
            implies fin.seen.contains_key(p) by {
            assert(io_fold_tick(st, readings.drop_last(), rt, wt).seen.contains_key(p));
        }
    }
}

/// The same across a whole window: later ticks only add to a pid's
/// bookkeeping, never remove it.
pub proof fn lemma_io_run_monotonic(st: IoState, ticks: Seq<Vec<IoReading>>, rt: u64, wt: u64)
    ensures
        forall|p: u32|
            #![trigger st.hits.contains_key(p)]
            st.hits.contains_key(p) ==> io_fold_run(st, ticks, rt, wt).hits.contains_key(p)
                && io_fold_run(st, ticks, rt, wt).hits[p] >= st.hits[p],
        forall|p: u32|
            #![trigger st.seen.contains_key(p)]
            st.seen.contains_key(p) ==> io_fold_run(st, ticks, rt, wt).seen.contains_key(p),
    decreases ticks.len(),
{
    if ticks.len() > 0 {
        lemma_io_run_monotonic(st, ticks.drop_last(), rt, wt);
        let mid = io_fold_run(st, ticks.drop_last(), rt, wt);
        lemma_io_tick_monotonic(mid, ticks.last()@, rt, wt);
        let fin = io_fold_run(st, ticks, rt, wt);
        assert(fin == io_fold_tick(mid, ticks.last()@, rt, wt));
        assert forall|p: u32| #![trigger st.hits.contains_key(p)] st.hits.contains_key(p)
            implies fin.hits.contains_key(p) && fin.hits[p] >= st.hits[p] by {
            assert(io_fold_run(st, ticks.drop_last(), rt, wt).hits.contains_key(p)
                && io_fold_run(st, ticks.drop_last(), rt, wt).hits[p] >= st.hits[p]);
            assert(io_fold_tick(mid, ticks.last()@, rt, wt).hits.contains_key(p)
                && io_fold_tick(mid, ticks.last()@, rt, wt).hits[p] >= mid.hits[p]);
        }
        assert forall|p: u32| #![trigger st.seen.contains_key(p)] st.seen.contains_key(p)
            implies fin.seen.contains_key(p) by {
            assert(io_fold_run(st, ticks.drop_last(), rt, wt).seen.contains_key(p));
            assert(io_fold_tick(mid, ticks.last()@, rt, wt).seen.contains_key(p));
        }
    }
}

/// The hit table's abstract content: an association sequence read as a
/// map from pid to hit count, later entries winning.
pub open spec fn hits_view(s: Seq<(u32, usize)>) -> Map<u32, usize>
    decreases s.len(),
{
    if s.len() == 0 {
        Map::empty()
    } else {
        hits_view(s.drop_last()).insert(s.last().0, s.last().1)
    }
}

/// The last-seen table's abstract content: an association sequence
/// read as a map from pid to last-activity sample.
pub open spec fn seen_view(s: Seq<IoSample>) -> Map<u32, IoSample>
    decreases s.len(),
{
    if s.len() == 0 {
        Map::empty()
    } else {
        seen_view(s.drop_last()).insert(s.last().pid, s.last())
    }
}

/// No pid occurs twice in the hit table.
pub open spec fn hits_distinct(s: Seq<(u32, usize)>) -> bool {
    forall|i: int, j: int| 0 <= i < j < s.len() ==> (#[trigger] s[i]).0 != (#[trigger] s[j]).0
}

/// No pid occurs twice in the last-seen table.
pub open spec fn seen_distinct(s: Seq<IoSample>) -> bool {
    forall|i: int, j: int| 0 <= i < j < s.len() ==> (#[trigger] s[i]).pid != (#[trigger] s[j]).pid
}

proof fn lemma_hits_view_contains(s: Seq<(u32, usize)>, p: u32)
    ensures
        hits_view(s).contains_key(p) <==> exists|i: int| 0 <= i < s.len() && (#[trigger] s[i]).0
            == p,
    decreases s.len(),
{
    if s.len() > 0 {
        lemma_hits_view_contains(s.drop_last(), p);
        if s.last().0 == p {
            assert(s[s.len() - 1].0 == p);
        } else if hits_view(s).contains_key(p) {
            let i = choose|i: int| 0 <= i < s.drop_last().len() && (#[trigger] s.drop_last()[i]).0
                == p;
            assert(s[i].0 == p);
        } else {
            assert forall|i: int| 0 <= i < s.len() implies (#[trigger] s[i]).0 != p by {
                if i < s.len() - 1 {
                    assert(s.drop_last()[i] == s[i]);
                }
            }
        }
    }
}

proof fn lemma_seen_view_contains(s: Seq<IoSample>, p: u32)
    ensures
        seen_view(s).contains_key(p) <==> exists|i: int| 0 <= i < s.len() && (#[trigger] s[i]).pid
            == p,
    decreases s.len(),
{
    if s.len() > 0 {
        lemma_seen_view_contains(s.drop_last(), p);
        if s.last().pid == p {
            assert(s[s.len() - 1].pid == p);
        } else if seen_view(s).contains_key(p) {
            let i = choose|i: int| 0 <= i < s.drop_last().len() && (#[trigger] s.drop_last()[
                i
            ]).pid == p;
            assert(s[i].pid == p);
        } else {
            assert forall|i: int| 0 <= i < s.len() implies (#[trigger] s[i]).pid != p by {
                if i < s.len() - 1 {
                    assert(s.drop_last()[i] == s[i]);
                }
            }
        }
    }
}

proof fn lemma_hits_view_get(s: Seq<(u32, usize)>, i: int)
    requires
        hits_distinct(s),
        0 <= i < s.len(),
    ensures
        hits_view(s).contains_key(s[i].0),
        hits_view(s)[s[i].0] == s[i].1,
    decreases s.len(),
{
    if i == s.len() - 1 {
    } else {
        lemma_hits_view_get(s.drop_last(), i);
        assert(s.drop_last()[i] == s[i]);
    }
}

proof fn lemma_seen_view_get(s: Seq<IoSample>, i: int)
    requires
        seen_distinct(s),
        0 <= i < s.len(),
    ensures
        seen_view(s).contains_key(s[i].pid),
        seen_view(s)[s[i].pid] == s[i],
    decreases s.len(),
{
    if i == s.len() - 1 {
    } else {
        lemma_seen_view_get(s.drop_last(), i);
        assert(s.drop_last()[i] == s[i]);
    }
}

proof fn lemma_hits_view_update(s: Seq<(u32, usize)>, i: int, c: usize)
    requires
        hits_distinct(s),
        0 <= i < s.len(),
    ensures
        hits_view(s.update(i, (s[i].0, c))) =~= hits_view(s).insert(s[i].0, c),
        hits_distinct(s.update(i, (s[i].0, c))),
    decreases s.len(),
{
    let t = s.update(i, (s[i].0, c));
    assert forall|a: int, b: int| 0 <= a < b < t.len() implies (#[trigger] t[a]).0 != (
    #[trigger] t[b]).0 by {
        assert(t[a].0 == s[a].0 && t[b].0 == s[b].0);
    }
    if i == s.len() - 1 {
        assert(t.drop_last() =~= s.drop_last());
    } else {
        lemma_hits_view_update(s.drop_last(), i, c);
        assert(t.drop_last() =~= s.drop_last().update(i, (s[i].0, c)));
        assert(s.drop_last()[i] == s[i]);
        assert(t.last() == s.last());
        assert(s[i].0 != s.last().0);
    }
}

proof fn lemma_seen_view_update(s: Seq<IoSample>, i: int, v: IoSample)
    requires
        seen_distinct(s),
        0 <= i < s.len(),
        v.pid == s[i].pid,
    ensures
        seen_view(s.update(i, v)) =~= seen_view(s).insert(v.pid, v),
        seen_distinct(s.update(i, v)),
    decreases s.len(),
{
    let t = s.update(i, v);
    assert forall|a: int, b: int| 0 <= a < b < t.len() implies (#[trigger] t[a]).pid != (
    #[trigger] t[b]).pid by {
        assert(t[a].pid == s[a].pid && t[b].pid == s[b].pid);
    }
    if i == s.len() - 1 {
        assert(t.drop_last() =~= s.drop_last());
    } else {
        lemma_seen_view_update(s.drop_last(), i, v);
        assert(t.drop_last() =~= s.drop_last().update(i, v));
        assert(s.drop_last()[i] == s[i]);
        assert(t.last() == s.last());
        assert(v.pid != s.last().pid);
    }
}

/// Finds a pid's entry in the hit table.
fn hits_find(v: &Vec<(u32, usize)>, pid: u32) -> (r: Option<usize>)
    ensures
        r matches Some(i) ==> i < v@.len() && v@[i as int].0 == pid,
        r is None ==> forall|i: int| 0 <= i < v@.len() ==> (#[trigger] v@[i]).0 != pid,
{
    let mut i: usize = 0;
    while i < v.len()
        invariant
            i <= v@.len(),
            forall|j: int| 0 <= j < i ==> (#[trigger] v@[j]).0 != pid,
        decreases v@.len() - i,
    {
        if v[i].0 == pid {
            return Some(i);
        }
        i = i + 1;
    }
    None
}

/// Finds a pid's entry in the last-seen table.
fn seen_find(v: &Vec<IoSample>, pid: u32) -> (r: Option<usize>)
    ensures
        r matches Some(i) ==> i < v@.len() && v@[i as int].pid == pid,
        r is None ==> forall|i: int| 0 <= i < v@.len() ==> (#[trigger] v@[i]).pid != pid,
{
    let mut i: usize = 0;
    while i < v.len()
        invariant
            i <= v@.len(),
            forall|j: int| 0 <= j < i ==> (#[trigger] v@[j]).pid != pid,
        decreases v@.len() - i,
    {
        if v[i].pid == pid {
            return Some(i);
        }
        i = i + 1;
    }
    None
}

/// Applies one reading to the two tables, as `io_step` says.
fn io_apply_reading(
    hits: &mut Vec<(u32, usize)>,
    seen: &mut Vec<IoSample>,
    r: &IoReading,
    rt: u64,
    wt: u64,
)
    requires
        hits_distinct(old(hits)@),
        seen_distinct(old(seen)@),
    ensures
        hits_distinct(final(hits)@),
        seen_distinct(final(seen)@),
        ({
            let st2 = io_step(
                IoState { hits: hits_view(old(hits)@), seen: seen_view(old(seen)@) },
                *r,
                rt,
                wt,
            );
            hits_view(final(hits)@) == st2.hits && seen_view(final(seen)@) == st2.seen
        }),
{
    let rd = io_delta(r.start_read, r.end_read);
    let wd = io_delta(r.start_write, r.end_write);
    if rd > 0 || wd > 0 {
        let sample = IoSample { pid: r.pid, name: r.name.clone(), read_bps: rd, write_bps: wd };
        match seen_find(seen, r.pid) {
            Some(i) => {
                proof {
                    lemma_seen_view_update(seen@, i as int, sample);
                }
                seen.set(i, sample);
            },
            None => {
                proof {
                    assert(seen@.push(sample).drop_last() =~= seen@);
                }
                seen.push(sample);
            },
        }
        if rd >= rt || wd >= wt {
            match hits_find(hits, r.pid) {
                Some(i) => {
                    let c = hits[i].1;
                    proof {
                        lemma_hits_view_get(hits@, i as int);
                        lemma_hits_view_update(hits@, i as int, spec_bump(c));
                    }
                    hits.set(i, (r.pid, c.saturating_add(1)));
                },
                None => {
                    proof {
                        lemma_hits_view_contains(hits@, r.pid);
                        assert(hits@.push((r.pid, 1usize)).drop_last() =~= hits@);
                    }
                    hits.push((r.pid, 1));
                },
            }
        }
    }
}

/// The final choice over the two tables: among the pids whose hit
/// count reached `min_hits` and that have a last-activity record,
/// the one with the largest combined last read and write delta,
/// smallest pid on a tie; absent when no pid qualifies.
fn io_select_best(hits: &Vec<(u32, usize)>, seen: &Vec<IoSample>, min_hits: usize) -> (r: Option<
    IoSample,
>)
    requires
        hits_distinct(hits@),
        seen_distinct(seen@),
    ensures
        ({
            let st = IoState { hits: hits_view(hits@), seen: seen_view(seen@) };
            &&& (r is None ==> forall|p: u32| !io_qualifies(st, p, min_hits))
            &&& (r matches Some(s) ==> io_qualifies(st, s.pid, min_hits) && s == st.seen[s.pid]
                && (forall|q: u32|
                (#[trigger] io_qualifies(st, q, min_hits)) ==> io_rank_ge(st, s.pid, q)))
        }),
{
    let ghost st = IoState { hits: hits_view(hits@), seen: seen_view(seen@) };
    let mut best: Option<IoSample> = None;
    let mut k: usize = 0;
    while k < hits.len()
        invariant
            k <= hits@.len(),
            hits_distinct(hits@),
            seen_distinct(seen@),
            st == (IoState { hits: hits_view(hits@), seen: seen_view(seen@) }),
            best is None ==> forall|m: int|
                0 <= m < k ==> !io_qualifies(st, (#[trigger] hits@[m]).0, min_hits),
            best matches Some(s) ==> io_qualifies(st, s.pid, min_hits) && s == st.seen[s.pid] && (
            forall|m: int|
                0 <= m < k && io_qualifies(st, (#[trigger] hits@[m]).0, min_hits)
                    ==> io_rank_ge(st, s.pid, hits@[m].0)),
        decreases hits@.len() - k,
    {
        let (pid, count) = hits[k];
        proof {
            lemma_hits_view_get(hits@, k as int);
        }
        if count >= min_hits {
            match seen_find(seen, pid) {
                Some(i) => {
                    proof {
                        lemma_seen_view_get(seen@, i as int);
                    }
                    let combined = seen[i].read_bps.saturating_add(seen[i].write_bps);
                    let replace = match &best {
                        None => true,
                        Some(b) => {
                            let bc = b.read_bps.saturating_add(b.write_bps);
                            combined > bc || (combined == bc && pid < b.pid)
                        },
                    };
                    if replace {
                        best = Some(seen[i].clone());
                    }
                },
                None => {
                    proof {
                        lemma_seen_view_contains(seen@, pid);
                    }
                },
            }
        }
        k = k + 1;
    }
    proof {
        match &best {
            None => {
                assert forall|p: u32| !io_qualifies(st, p, min_hits) by {
                    if io_qualifies(st, p, min_hits) {
                        lemma_hits_view_contains(hits@, p);
                        let m = choose|m: int|
                            0 <= m < hits@.len() && (#[trigger] hits@[m]).0 == p;
                        assert(!io_qualifies(st, hits@[m].0, min_hits));
                    }
                }
            },
            Some(s) => {
                assert forall|q: u32|
                    (#[trigger] io_qualifies(st, q, min_hits)) implies io_rank_ge(
                    st,
                    s.pid,
                    q,
                ) by {
                    lemma_hits_view_contains(hits@, q);
                    let m = choose|m: int| 0 <= m < hits@.len() && (#[trigger] hits@[m]).0 == q;
                    assert(io_qualifies(st, hits@[m].0, min_hits));
                }
            },
        }
    }
    best
}

/// Decides a whole I/O window. `ticks` holds, for each tick in order,
/// one reading per candidate whose counters could be read at both the
/// tick's start and end. Per tick and candidate, the deltas are
/// computed saturating; any activity overwrites the candidate's
/// last-seen record; a delta meeting its threshold counts a hit. The
/// result is the last-seen record of the qualifying candidate
/// (`min_hits` hits or more) with the largest combined last delta,
/// smallest pid on a tie, or absent when no candidate qualifies.
pub fn detect_sustained_high_io(
    ticks: &Vec<Vec<IoReading>>,
    read_threshold: u64,
    write_threshold: u64,
    min_hits: usize,
) -> (r: Option<IoSample>)
    ensures
        ({
            let st = io_fold_run(io_initial_state(), ticks@, read_threshold, write_threshold);
            &&& (r is None ==> forall|p: u32| !io_qualifies(st, p, min_hits))
            &&& (r matches Some(s) ==> io_qualifies(st, s.pid, min_hits) && s == st.seen[s.pid]
                && (forall|q: u32|
                (#[trigger] io_qualifies(st, q, min_hits)) ==> io_rank_ge(st, s.pid, q)))
        }),
{
    let mut hits: Vec<(u32, usize)> = Vec::new();
    let mut seen: Vec<IoSample> = Vec::new();
    let mut t: usize = 0;
    while t < ticks.len()
        invariant
            t <= ticks@.len(),
            hits_distinct(hits@),
            seen_distinct(seen@),
            hits_view(hits@) == io_fold_run(
                io_initial_state(),
                ticks@.take(t as int),
                read_threshold,
                write_threshold,
            ).hits,
            seen_view(seen@) == io_fold_run(
                io_initial_state(),
                ticks@.take(t as int),
                read_threshold,
                write_threshold,
            ).seen,
        decreases ticks@.len() - t,
    {
        let ghost st0 = io_fold_run(
            io_initial_state(),
            ticks@.take(t as int),
            read_threshold,
            write_threshold,
        );
        let readings = &ticks[t];
        let mut j: usize = 0;
        while j < readings.len()
            invariant
                j <= readings@.len(),
                readings@ == ticks@[t as int]@,
                t < ticks@.len(),
                hits_distinct(hits@),
                seen_distinct(seen@),
                hits_view(hits@) == io_fold_tick(
                    st0,
                    readings@.take(j as int),
                    read_threshold,
                    write_threshold,
                ).hits,
                seen_view(seen@) == io_fold_tick(
                    st0,
                    readings@.take(j as int),
                    read_threshold,
                    write_threshold,
                ).seen,
            decreases readings@.len() - j,
        {
            proof {
                assert(readings@.take(j + 1).drop_last() =~= readings@.take(j as int));
                assert(readings@.take(j + 1).last() == readings@[j as int]);
            }
            io_apply_reading(&mut hits, &mut seen, &readings[j], read_threshold, write_threshold);
            j = j + 1;
        }
        proof {
            assert(readings@.take(readings@.len() as int) =~= readings@);
            assert(ticks@.take(t + 1).drop_last() =~= ticks@.take(t as int));
            assert(ticks@.take(t + 1).last() == ticks@[t as int]);
        }
        t = t + 1;
    }
    proof {
        assert(ticks@.take(ticks@.len() as int) =~= ticks@);
    }
    io_select_best(&hits, &seen, min_hits)
}

} // verus!
