//! Per-process offender aggregation: across the run, each tick's top
//! consumer contributes its value to that process's running sum, max
//! and sample count; a top-N query ranks the aggregates by cumulative
//! sum. The aggregator answers "who used the most cumulatively",
//! where the sustained detector answers "did the system stay over
//! threshold long enough".

use vstd::prelude::*;

verus! {

/// One process's running aggregate. `name` is the last observed name
/// for the pid: processes may be renamed across ticks, last write
/// wins. Values are in the unit the feeding samples use (hundredths
/// of a percent).
pub struct OffenderStats {
    pub pid: u32,
    pub name: String,
    pub sum: u64,
    pub max: u64,
    pub samples: u32,
}

/// One line of the top-N answer: the aggregate plus its mean value,
/// rounded down, zero when nothing was recorded.
pub struct OffenderRow {
    pub name: String,
    pub pid: u32,
    pub sum: u64,
    pub avg: u64,
    pub max: u64,
}

/// The abstract content of one aggregate, with the name as the
/// sequence of its characters.
pub ghost struct OffenderRecord {
    pub pid: u32,
    pub name: Seq<char>,
    pub sum: u64,
    pub max: u64,
    pub samples: u32,
}

/// The abstract content of one answer line.
pub ghost struct RowRecord {
    pub pid: u32,
    pub name: Seq<char>,
    pub sum: u64,
    pub avg: u64,
    pub max: u64,
}

/// What one aggregate abstracts to.
pub open spec fn record_of(e: OffenderStats) -> OffenderRecord {
    OffenderRecord { pid: e.pid, name: e.name@, sum: e.sum, max: e.max, samples: e.samples }
}

/// What one answer line abstracts to.
pub open spec fn row_record(r: OffenderRow) -> RowRecord {
    RowRecord { pid: r.pid, name: r.name@, sum: r.sum, avg: r.avg, max: r.max }
}

/// The answer line an aggregate yields: sum, max and name carried
/// over, the mean its sum divided by its sample count, zero when the
/// count is zero.
pub open spec fn row_of(e: OffenderRecord) -> RowRecord {
    RowRecord {
        pid: e.pid,
        name: e.name,
        sum: e.sum,
        avg: if e.samples == 0 {
            0
        } else {
            (e.sum / e.samples as u64) as u64
        },
        max: e.max,
    }
}

/// A sum held at the top of its range.
pub open spec fn sat_add_u64(a: u64, b: u64) -> u64 {
    if a + b > u64::MAX {
        u64::MAX
    } else {
        (a + b) as u64
    }
}

/// A count held at the top of its range.
pub open spec fn sat_inc_u32(c: u32) -> u32 {
    if c == u32::MAX {
        c
    } else {
        (c + 1) as u32
    }
}

/// The sum a running saturating accumulation reaches over a value
/// sequence.
pub open spec fn sat_sum_u64(s: Seq<u64>) -> u64
    decreases s.len(),
{
    if s.len() == 0 {
        0
    } else {
        sat_add_u64(sat_sum_u64(s.drop_last()), s.last())
    }
}

/// The exact mathematical sum of a value sequence.
pub open spec fn int_sum_u64(s: Seq<u64>) -> int
    decreases s.len(),
{
    if s.len() == 0 {
        0
    } else {
        int_sum_u64(s.drop_last()) + s.last()
    }
}

/// The largest value of a sequence, zero when it is empty.
pub open spec fn seq_max_u64(s: Seq<u64>) -> u64
    decreases s.len(),
{
    if s.len() == 0 {
        0
    } else if s.last() > seq_max_u64(s.drop_last()) {
        s.last()
    } else {
        seq_max_u64(s.drop_last())
    }
}

/// A length held at the top of a 32-bit count's range.
pub open spec fn sat_len_u32(s: Seq<u64>) -> u32 {
    if s.len() <= u32::MAX {
        s.len() as u32
    } else {
        u32::MAX
    }
}

/// As long as the exact sum of the recorded values still fits the
/// accumulator, the running saturating sum is that exact sum.
pub proof fn lemma_sat_sum_exact(s: Seq<u64>)
    requires
        int_sum_u64(s) <= u64::MAX,
    ensures
        sat_sum_u64(s) == int_sum_u64(s),
    decreases s.len(),
{
    if s.len() > 0 {
        lemma_int_sum_nonneg(s.drop_last());
        lemma_sat_sum_exact(s.drop_last());
    }
}

/// An exact sum of unsigned values is never negative.
pub proof fn lemma_int_sum_nonneg(s: Seq<u64>)
    ensures
        int_sum_u64(s) >= 0,
    decreases s.len(),
{
    if s.len() > 0 {
        lemma_int_sum_nonneg(s.drop_last());
    }
}

/// The aggregates' abstract content: an association sequence read as
/// a map from pid to record, later entries winning.
pub open spec fn entries_view(s: Seq<OffenderStats>) -> Map<u32, OffenderRecord>
    decreases s.len(),
{
    if s.len() == 0 {
        Map::empty()
    } else {
        entries_view(s.drop_last()).insert(s.last().pid, record_of(s.last()))
    }
}

/// No pid occurs twice among the aggregates.
pub open spec fn entries_distinct(s: Seq<OffenderStats>) -> bool {
    forall|i: int, j: int| 0 <= i < j < s.len() ==> (#[trigger] s[i]).pid != (#[trigger] s[j]).pid
}

proof fn lemma_entries_view_contains(s: Seq<OffenderStats>, p: u32)
    ensures
        entries_view(s).contains_key(p) <==> exists|i: int| 0 <= i < s.len() && (
        #[trigger] s[i]).pid == p,
    decreases s.len(),
{
    if s.len() > 0 {
        lemma_entries_view_contains(s.drop_last(), p);
        if s.last().pid == p {
            assert(s[s.len() - 1].pid == p);
        } else if entries_view(s).contains_key(p) {
            let i = choose|i: int| 0 <= i < s.drop_last().len() && (#[trigger] s.drop_last()[
                i
            ]).pid == p;
            assert(s[i].pid == p);
        } else {
            assert forall|i: int| 0 <= i < s.len() implies (#[trigger] s[i]).pid != p by {
                if i < s.len() - 1 {
                    assert(s.drop_last()[i] == s[i]);
                }
            }
        }
    }
}

proof fn lemma_entries_view_get(s: Seq<OffenderStats>, i: int)
    requires
        entries_distinct(s),
        0 <= i < s.len(),
    ensures
        entries_view(s).contains_key(s[i].pid),
        entries_view(s)[s[i].pid] == record_of(s[i]),
    decreases s.len(),
{
    if i == s.len() - 1 {
    } else {
        lemma_entries_view_get(s.drop_last(), i);
        assert(s.drop_last()[i] == s[i]);
    }
}

proof fn lemma_entries_view_update(s: Seq<OffenderStats>, i: int, v: OffenderStats)
    requires
        entries_distinct(s),
        0 <= i < s.len(),
        v.pid == s[i].pid,
    ensures
        entries_view(s.update(i, v)) =~= entries_view(s).insert(v.pid, record_of(v)),
        entries_distinct(s.update(i, v)),
    decreases s.len(),
{
    let t = s.update(i, v);
    assert forall|a: int, b: int| 0 <= a < b < t.len() implies (#[trigger] t[a]).pid != (
    #[trigger] t[b]).pid by {
        assert(t[a].pid == s[a].pid && t[b].pid == s[b].pid);
    }
    if i == s.len() - 1 {
        assert(t.drop_last() =~= s.drop_last());
    } else {
        lemma_entries_view_update(s.drop_last(), i, v);
        assert(t.drop_last() =~= s.drop_last().update(i, v));
        assert(s.drop_last()[i] == s[i]);
        assert(t.last() == s.last());
        assert(v.pid != s.last().pid);
    }
}


/// The top-N order: larger cumulative sum first, smaller pid on a
/// tie, so that the answer is reproducible.
pub open spec fn row_rank_above(a: RowRecord, b: RowRecord) -> bool {
    a.sum > b.sum || (a.sum == b.sum && a.pid < b.pid)
}


/// How one fed value changes the aggregates' abstract content.
pub open spec fn updated_view(
    v: Map<u32, OffenderRecord>,
    h: Map<u32, Seq<u64>>,
    pid: u32,
    name: Seq<char>,
    value: u64,
) -> Map<u32, OffenderRecord> {
    let prior = if v.contains_key(pid) {
        h[pid]
    } else {
        Seq::<u64>::empty()
    };
    v.insert(
        pid,
        OffenderRecord {
            pid,
            name,
            sum: sat_add_u64(sat_sum_u64(prior), value),
            max: if value > seq_max_u64(prior) {
                value
            } else {
                seq_max_u64(prior)
            },
            samples: sat_inc_u32(sat_len_u32(prior)),
        },
    )
}

/// How one fed value extends the recorded history.
pub open spec fn updated_history(
    v: Map<u32, OffenderRecord>,
    h: Map<u32, Seq<u64>>,
    pid: u32,
    value: u64,
) -> Map<u32, Seq<u64>> {
    let prior = if v.contains_key(pid) {
        h[pid]
    } else {
        Seq::<u64>::empty()
    };
    h.insert(pid, prior.push(value))
}

/// What a correct top-N answer over aggregates `v` looks like: one
/// line per answered pid, each line the exact answer line of an
/// observed pid, ranked strictly by the top-N order, cut to `limit`
/// lines, and dominating every observed pid it leaves out.
pub open spec fn is_top_answer(
    v: Map<u32, OffenderRecord>,
    n: nat,
    limit: nat,
    rows: Seq<OffenderRow>,
) -> bool {
    &&& rows.len() == if limit <= n {
        limit as int
    } else {
        n as int
    }
    &&& forall|i: int, j: int|
        0 <= i < j < rows.len() ==> row_rank_above(
            row_record(#[trigger] rows[i]),
            row_record(#[trigger] rows[j]),
        )
    &&& forall|i: int|
        0 <= i < rows.len() ==> v.contains_key((#[trigger] rows[i]).pid) && row_record(rows[i])
            == row_of(v[rows[i].pid])
    &&& forall|p: u32|
        v.contains_key(p) && (forall|i: int| 0 <= i < rows.len() ==> (#[trigger] rows[i]).pid != p)
            ==> forall|i: int|
            0 <= i < rows.len() ==> row_rank_above(row_record(#[trigger] rows[i]), row_of(v[p]))
}

/// Whether `a` comes before `b` in the top-N order.
fn row_before(a: &OffenderRow, b: &OffenderRow) -> (r: bool)
    ensures
        r == row_rank_above(row_record(*a), row_record(*b)),
{
    a.sum > b.sum || (a.sum == b.sum && a.pid < b.pid)
}

proof fn lemma_row_insert_keeps_order(s: Seq<OffenderRow>, pos: int, x: OffenderRow)
    requires
        0 <= pos <= s.len(),
        forall|a: int, b: int|
            0 <= a < b < s.len() ==> row_rank_above(
                row_record(#[trigger] s[a]),
                row_record(#[trigger] s[b]),
            ),
        forall|a: int| 0 <= a < pos ==> row_rank_above(row_record(#[trigger] s[a]), row_record(x)),
        pos < s.len() ==> row_rank_above(row_record(x), row_record(s[pos])),
    ensures
        forall|a: int, b: int|
            0 <= a < b < s.insert(pos, x).len() ==> row_rank_above(
                row_record(#[trigger] s.insert(pos, x)[a]),
                row_record(#[trigger] s.insert(pos, x)[b]),
            ),
{
    let ns = s.insert(pos, x);
    s.insert_ensures(pos, x);
    assert forall|a: int, b: int| 0 <= a < b < ns.len() implies row_rank_above(
        row_record(#[trigger] ns[a]),
        row_record(#[trigger] ns[b]),
    ) by {
        let pa = if a < pos {
            a
        } else {
            a - 1
        };
        let pb = if b < pos {
            b
        } else {
            b - 1
        };
        if a == pos {
            assert(ns[a] == x && ns[b] == s[pb]);
            if pb > pos {
                assert(row_rank_above(row_record(s[pos]), row_record(s[pb])));
            }
        } else if b == pos {
            assert(ns[b] == x && ns[a] == s[pa]);
        } else {
            assert(ns[a] == s[pa] && ns[b] == s[pb]);
        }
    }
}

/// Sorts answer lines by the top-N order. The result holds exactly
/// the given lines, reordered.
fn sort_rows_desc(rows: Vec<OffenderRow>) -> (s: Vec<OffenderRow>)
    requires
        forall|i: int, j: int|
            0 <= i < j < rows@.len() ==> (#[trigger] rows@[i]).pid != (#[trigger] rows@[j]).pid,
    ensures
        s@.len() == rows@.len(),
        forall|i: int, j: int|
            0 <= i < j < s@.len() ==> row_rank_above(
                row_record(#[trigger] s@[i]),
                row_record(#[trigger] s@[j]),
            ),
        s@.to_multiset() == rows@.to_multiset(),
{
    let ghost rows0 = rows@;
    let mut sorted: Vec<OffenderRow> = Vec::new();
    let mut i: usize = 0;
    proof {
        assert(rows0.take(0) =~= Seq::<OffenderRow>::empty());
    }
    while i < rows.len()
        invariant
            rows@ == rows0,
            forall|a: int, b: int|
                0 <= a < b < rows0.len() ==> (#[trigger] rows0[a]).pid != (
                #[trigger] rows0[b]).pid,
            i <= rows0.len(),
            sorted@.len() == i,
            forall|a: int, b: int|
                0 <= a < b < sorted@.len() ==> row_rank_above(
                    row_record(#[trigger] sorted@[a]),
                    row_record(#[trigger] sorted@[b]),
                ),
            sorted@.to_multiset() == rows0.take(i as int).to_multiset(),
        decreases rows0.len() - i,
    {
        let x = rows[i].clone();
        proof {
            assert(x == rows0[i as int]);
            assert forall|a: int| 0 <= a < sorted@.len() implies (#[trigger] sorted@[a]).pid
                != x.pid by {
                assert(sorted@.contains(sorted@[a]));
                vstd::seq_lib::to_multiset_contains(sorted@, sorted@[a]);
                vstd::seq_lib::to_multiset_contains(rows0.take(i as int), sorted@[a]);
                let tk = rows0.take(i as int);
                let j = choose|j: int| 0 <= j < tk.len() && tk[j] == sorted@[a];
                assert(rows0[j] == sorted@[a]);
                assert(rows0[j].pid != rows0[i as int].pid);
            }
        }
        let mut pos: usize = 0;
        while pos < sorted.len() && row_before(&sorted[pos], &x)
            invariant
                pos <= sorted@.len(),
                forall|a: int|
                    0 <= a < pos ==> row_rank_above(
                        row_record(#[trigger] sorted@[a]),
                        row_record(x),
                    ),
            decreases sorted@.len() - pos,
        {
            pos = pos + 1;
        }
        proof {
            if pos < sorted@.len() {
                assert(!row_rank_above(row_record(sorted@[pos as int]), row_record(x)));
                assert(sorted@[pos as int].pid != x.pid);
                assert(row_rank_above(row_record(x), row_record(sorted@[pos as int])));
            }
            lemma_row_insert_keeps_order(sorted@, pos as int, x);
            vstd::seq_lib::to_multiset_insert(sorted@, pos as int, x);
            assert(rows0.take(i + 1) =~= rows0.take(i as int).push(x));
            vstd::seq_lib::to_multiset_build(rows0.take(i as int), x);
        }
        sorted.insert(pos, x);
        i = i + 1;
    }
    proof {
        assert(rows0.take(rows0.len() as int) =~= rows0);
    }
    sorted
}

impl Clone for OffenderRow {
    fn clone(&self) -> (res: Self)
        ensures
            res == *self,
    {
        OffenderRow {
            name: self.name.clone(),
            pid: self.pid,
            sum: self.sum,
            avg: self.avg,
            max: self.max,
        }
    }
}

/// The running per-process aggregates of one resource kind, with the
/// full record of the values fed for each pid.
pub struct OffenderBoard {
    entries: Vec<OffenderStats>,
    history: Ghost<Map<u32, Seq<u64>>>,
}

impl OffenderBoard {
    /// What each aggregate abstracts to, by pid.
    pub closed spec fn view(self) -> Map<u32, OffenderRecord> {
        entries_view(self.entries@)
    }

    /// The values fed for each pid so far, in order.
    pub closed spec fn history(self) -> Map<u32, Seq<u64>> {
        self.history@
    }

    /// How many distinct pids have been observed.
    pub closed spec fn spec_len(self) -> nat {
        self.entries@.len()
    }

    /// Each pid has one aggregate, and each aggregate is exactly what
    /// the pid's recorded values dictate: the saturating sum, the
    /// maximum, and the saturating count of the values.
    pub closed spec fn wf(self) -> bool {
        &&& entries_distinct(self.entries@)
        &&& forall|i: int|
            0 <= i < self.entries@.len() ==> {
                let e = #[trigger] self.entries@[i];
                &&& self.history@.contains_key(e.pid)
                &&& e.sum == sat_sum_u64(self.history@[e.pid])
                &&& e.max == seq_max_u64(self.history@[e.pid])
                &&& e.samples == sat_len_u32(self.history@[e.pid])
            }
    }

    /// A pid's aggregate exists exactly when the pid was observed.
    pub proof fn lemma_view_history(self, p: u32)
        requires
            self.wf(),
            self@.contains_key(p),
        ensures
            self.history().contains_key(p),
            self@[p].sum == sat_sum_u64(self.history()[p]),
            self@[p].max == seq_max_u64(self.history()[p]),
            self@[p].samples == sat_len_u32(self.history()[p]),
    {
        lemma_entries_view_contains(self.entries@, p);
        let i = choose|i: int| 0 <= i < self.entries@.len() && (#[trigger] self.entries@[i]).pid
            == p;
        lemma_entries_view_get(self.entries@, i);
    }

    /// An observed pid's aggregate sum is the exact sum of every value
    /// recorded for it, as long as that exact sum fits the
    /// accumulator.
    pub proof fn lemma_sum_exact(self, p: u32)
        requires
            self.wf(),
            self@.contains_key(p),
            int_sum_u64(self.history()[p]) <= u64::MAX,
        ensures
            self@[p].sum == int_sum_u64(self.history()[p]),
    {
        self.lemma_view_history(p);
        lemma_sat_sum_exact(self.history()[p]);
    }

    /// A board with nothing observed.
    pub fn new() -> (r: OffenderBoard)
        ensures
            r.wf(),
            r@ == Map::<u32, OffenderRecord>::empty(),
            r.history() == Map::<u32, Seq<u64>>::empty(),
            r.spec_len() == 0,
    {
        OffenderBoard { entries: Vec::new(), history: Ghost(Map::empty()) }
    }

    /// How many distinct pids have been observed.
    pub fn len(&self) -> (r: usize)
        ensures
            r == self.spec_len(),
    {
        self.entries.len()
    }

    /// Feeds one tick's top consumer into the aggregates: the pid's
    /// sum grows by `value` (held at the top of its range), its max is
    /// raised to `value` if larger, its count grows by one, and its
    /// name is overwritten; a pid not seen before starts from zero.
    pub fn update_offender(&mut self, pid: u32, name: &str, value: u64)
        requires
            old(self).wf(),
        ensures
            final(self).wf(),
            final(self).spec_len() == old(self).spec_len() + if old(self)@.contains_key(pid) {
                0int
            } else {
                1int
            },
            final(self).history() == updated_history(
                old(self)@,
                old(self).history(),
                pid,
                value,
            ),
            final(self)@ == updated_view(old(self)@, old(self).history(), pid, name@, value),
    {
        let ghost prior = if old(self)@.contains_key(pid) {
            old(self).history()[pid]
        } else {
            Seq::<u64>::empty()
        };
        let idx = find_entry(&self.entries, pid);
        match idx {
            Some(i) => {
                proof {
                    lemma_entries_view_get(self.entries@, i as int);
                    lemma_entries_view_contains(self.entries@, pid);
                }
                let e = &self.entries[i];
                let updated = OffenderStats {
                    pid,
                    name: name.to_owned(),
                    sum: e.sum.saturating_add(value),
                    max: if value > e.max {
                        value
                    } else {
                        e.max
                    },
                    samples: e.samples.saturating_add(1),
                };
                let ghost gu = updated;
                proof {
                    lemma_entries_view_update(self.entries@, i as int, updated);
                    assert(prior.push(value).drop_last() =~= prior);
                }
                self.entries.set(i, updated);
                self.history = Ghost(self.history@.insert(pid, prior.push(value)));
                proof {
                    let es = self.entries@;
                    let h2 = self.history@;
                    assert forall|j: int| 0 <= j < es.len() implies {
                        let e2 = #[trigger] es[j];
                        &&& h2.contains_key(e2.pid)
                        &&& e2.sum == sat_sum_u64(h2[e2.pid])
                        &&& e2.max == seq_max_u64(h2[e2.pid])
                        &&& e2.samples == sat_len_u32(h2[e2.pid])
                    } by {
                        if j == i as int {
                            let oe = old(self).entries@[j];
                            assert(oe.sum == sat_sum_u64(old(self).history@[oe.pid]));
                            assert(es[j] == gu);
                            assert(h2[gu.pid] == prior.push(value));
                            assert(prior.push(value).drop_last() == prior);
                            assert(sat_sum_u64(prior.push(value)) == sat_add_u64(
                                sat_sum_u64(prior),
                                value,
                            ));
                            assert(gu.sum == sat_add_u64(sat_sum_u64(prior), value));
                            assert(gu.max == seq_max_u64(prior.push(value)));
                        } else {
                            assert(es[j] == old(self).entries@[j]);
                            assert(old(self).entries@[j].pid != old(self).entries@[i as int].pid);
                        }
                    }
                }
            },
            None => {
                proof {
                    lemma_entries_view_contains(self.entries@, pid);
                }
                let fresh = OffenderStats {
                    pid,
                    name: name.to_owned(),
                    sum: value,
                    max: value,
                    samples: 1,
                };
                proof {
                    assert(self.entries@.push(fresh).drop_last() =~= self.entries@);
                    assert(prior.push(value).drop_last() =~= prior);
                }
                let ghost gf = fresh;
                self.entries.push(fresh);
                self.history = Ghost(self.history@.insert(pid, prior.push(value)));
                proof {
                    let es = self.entries@;
                    let h2 = self.history@;
                    assert forall|a: int, b: int| 0 <= a < b < es.len() implies (
                    #[trigger] es[a]).pid != (#[trigger] es[b]).pid by {
                        if b == es.len() - 1 {
                            assert(es[a] == old(self).entries@[a]);
                            assert(old(self).entries@[a].pid != pid);
                        } else {
                            assert(es[a] == old(self).entries@[a]);
                            assert(es[b] == old(self).entries@[b]);
                        }
                    }
                    assert forall|j: int| 0 <= j < es.len() implies {
                        let e2 = #[trigger] es[j];
                        &&& h2.contains_key(e2.pid)
                        &&& e2.sum == sat_sum_u64(h2[e2.pid])
                        &&& e2.max == seq_max_u64(h2[e2.pid])
                        &&& e2.samples == sat_len_u32(h2[e2.pid])
                    } by {
                        if j == es.len() - 1 {
                            assert(es[j] == gf);
                            assert(h2[gf.pid] == prior.push(value));
                            assert(prior.push(value).drop_last() == prior);
                            assert(sat_sum_u64(prior.push(value)) == sat_add_u64(
                                sat_sum_u64(prior),
                                value,
                            ));
                            assert(seq_max_u64(prior) == 0);
                            assert(gf.max == seq_max_u64(prior.push(value)));
                        } else {
                            assert(es[j] == old(self).entries@[j]);
                            assert(old(self).entries@[j].pid != pid);
                        }
                    }
                }
            },
        }
    }

    /// The top-N answer: one line per observed pid, the mean computed
    /// from sum and count (zero when the count is zero), ranked by
    /// cumulative sum descending with ties broken by ascending pid,
    /// and cut to at most `limit` lines. Every observed pid missing
    /// from the answer is outranked by every line of it.
    pub fn top_offenders(&self, limit: usize) -> (r: Vec<OffenderRow>)
        requires
            self.wf(),
        ensures
            is_top_answer(self@, self.spec_len(), limit as nat, r@),
    {
        let ghost v = self@;
        let n = self.entries.len();
        let mut rows: Vec<OffenderRow> = Vec::new();
        let mut i: usize = 0;
        while i < n
            invariant
                self.wf(),
                n == self.entries@.len(),
                i <= n,
                rows@.len() == i,
                forall|a: int|
                    0 <= a < i ==> (#[trigger] rows@[a]).pid == self.entries@[a].pid
                        && row_record(rows@[a]) == row_of(record_of(self.entries@[a])),
            decreases n - i,
        {
            let e = &self.entries[i];
            let avg = if e.samples == 0 {
                0
            } else {
                e.sum / (e.samples as u64)
            };
            rows.push(
                OffenderRow { name: e.name.clone(), pid: e.pid, sum: e.sum, avg, max: e.max },
            );
            i = i + 1;
        }
        let ghost rows0 = rows@;
        proof {
            assert forall|a: int, b: int| 0 <= a < b < rows0.len() implies (
            #[trigger] rows0[a]).pid != (#[trigger] rows0[b]).pid by {
                assert(rows0[a].pid == self.entries@[a].pid);
                assert(rows0[b].pid == self.entries@[b].pid);
            }
        }
        let mut sorted = sort_rows_desc(rows);
        let ghost full = sorted@;
        sorted.truncate(limit);
        proof {
            if limit <= full.len() {
                assert(sorted@ == full.subrange(0, limit as int));
            }
            assert forall|i: int| 0 <= i < sorted@.len() implies v.contains_key(
                (#[trigger] sorted@[i]).pid,
            ) && row_record(sorted@[i]) == row_of(v[sorted@[i].pid]) by {
                assert(sorted@[i] == full[i]);
                assert(full.contains(full[i]));
                vstd::seq_lib::to_multiset_contains(full, full[i]);
                vstd::seq_lib::to_multiset_contains(rows0, full[i]);
                let j = choose|j: int| 0 <= j < rows0.len() && rows0[j] == full[i];
                assert(rows0[j].pid == self.entries@[j].pid);
                lemma_entries_view_get(self.entries@, j);
            }
            assert forall|p: u32|
                v.contains_key(p) && (forall|i: int|
                    0 <= i < sorted@.len() ==> (#[trigger] sorted@[i]).pid != p) implies forall|
                i: int,
            |
                0 <= i < sorted@.len() ==> row_rank_above(
                    row_record(#[trigger] sorted@[i]),
                    row_of(v[p]),
                ) by {
                lemma_entries_view_contains(self.entries@, p);
                let j = choose|j: int|
                    0 <= j < self.entries@.len() && (#[trigger] self.entries@[j]).pid == p;
                lemma_entries_view_get(self.entries@, j);
                assert(rows0[j].pid == p);
                assert(row_record(rows0[j]) == row_of(v[p]));
                assert(rows0.contains(rows0[j]));
                vstd::seq_lib::to_multiset_contains(rows0, rows0[j]);
                vstd::seq_lib::to_multiset_contains(full, rows0[j]);
                let a = choose|a: int| 0 <= a < full.len() && full[a] == rows0[j];
                assert(a >= sorted@.len()) by {
                    if a < sorted@.len() {
                        assert(sorted@[a] == full[a]);
                        assert(sorted@[a].pid == p);
                    }
                }
                assert forall|i: int| 0 <= i < sorted@.len() implies row_rank_above(
                    row_record(#[trigger] sorted@[i]),
                    row_of(v[p]),
                ) by {
                    assert(sorted@[i] == full[i]);
                    assert(row_rank_above(row_record(full[i]), row_record(full[a])));
                }
            }
        }
        sorted
    }
}

/// Finds a pid's aggregate.
fn find_entry(v: &Vec<OffenderStats>, pid: u32) -> (r: Option<usize>)
    ensures
        r matches Some(i) ==> i < v@.len() && v@[i as int].pid == pid,
        r is None ==> forall|i: int| 0 <= i < v@.len() ==> (#[trigger] v@[i]).pid != pid,
{
    let mut i: usize = 0;
    while i < v.len()
        invariant
            i <= v@.len(),
            forall|j: int| 0 <= j < i ==> (#[trigger] v@[j]).pid != pid,
        decreases v@.len() - i,
    {
        if v[i].pid == pid {
            return Some(i);
        }
        i = i + 1;
    }
    None
}

} // verus!
