//! The windowed hit-counting algorithm shared by all four resource
//! kinds: over a window of ticks, count the ticks whose observation
//! satisfies the kind's threshold predicate, remember the last
//! qualifying observation, and report it only when the count reaches
//! the configured minimum.

use vstd::prelude::*;

use crate::samples::CpuSample;
use crate::samples::DiskSample;
use crate::samples::MemSample;

verus! {

/// How many ticks of the window satisfy the hit predicate.
pub open spec fn hits_in<T>(ticks: Seq<T>, is_hit: spec_fn(T) -> bool) -> nat
    decreases ticks.len(),
{
    if ticks.len() == 0 {
        0
    } else {
        hits_in(ticks.drop_last(), is_hit) + if is_hit(ticks.last()) {
            1nat
        } else {
            0nat
        }
    }
}

/// The latest tick of the window that satisfies the hit predicate, if
/// any tick does.
pub open spec fn last_hit_in<T>(ticks: Seq<T>, is_hit: spec_fn(T) -> bool) -> Option<T>
    decreases ticks.len(),
{
    if ticks.len() == 0 {
        None
    } else if is_hit(ticks.last()) {
        Some(ticks.last())
    } else {
        last_hit_in(ticks.drop_last(), is_hit)
    }
}

/// What a sustained detection of any resource kind returns: the last
/// qualifying observation when at least `min_hits` ticks qualified,
/// absence otherwise.
pub open spec fn sustained_result<T>(
    ticks: Seq<T>,
    is_hit: spec_fn(T) -> bool,
    min_hits: nat,
) -> Option<T> {
    if hits_in(ticks, is_hit) >= min_hits {
        last_hit_in(ticks, is_hit)
    } else {
        None
    }
}

/// The hit count never exceeds the window length.
pub proof fn lemma_hits_le_len<T>(ticks: Seq<T>, is_hit: spec_fn(T) -> bool)
    ensures
        hits_in(ticks, is_hit) <= ticks.len(),
    decreases ticks.len(),
{
    if ticks.len() > 0 {
        lemma_hits_le_len(ticks.drop_last(), is_hit);
    }
}

/// A window has a last qualifying observation exactly when it has at
/// least one hit.
pub proof fn lemma_last_hit_some_iff_hits<T>(ticks: Seq<T>, is_hit: spec_fn(T) -> bool)
    ensures
        last_hit_in(ticks, is_hit) is Some <==> hits_in(ticks, is_hit) >= 1,
    decreases ticks.len(),
{
    if ticks.len() > 0 {
        lemma_last_hit_some_iff_hits(ticks.drop_last(), is_hit);
    }
}

/// The last qualifying observation qualifies, and no later tick of the
/// window does. Returns the index it came from.
pub proof fn lemma_last_hit_is_latest<T>(ticks: Seq<T>, is_hit: spec_fn(T) -> bool) -> (i: int)
    requires
        last_hit_in(ticks, is_hit) is Some,
    ensures
        0 <= i < ticks.len(),
        is_hit(ticks[i]),
        last_hit_in(ticks, is_hit) == Some(ticks[i]),
        forall|j: int| i < j < ticks.len() ==> !is_hit(ticks[j]),
    decreases ticks.len(),
{
    if is_hit(ticks.last()) {
        ticks.len() - 1
    } else {
        let i = lemma_last_hit_is_latest(ticks.drop_last(), is_hit);
        assert forall|j: int| i < j < ticks.len() implies !is_hit(ticks[j]) by {
            if j < ticks.len() - 1 {
                assert(ticks[j] == ticks.drop_last()[j]);
            }
        }
        assert(ticks[i] == ticks.drop_last()[i]);
        i
    }
}

/// A sustained detection with a positive hit floor returns a value
/// exactly when the window's hit count reaches that floor.
pub proof fn lemma_sustained_fires_iff<T>(
    ticks: Seq<T>,
    is_hit: spec_fn(T) -> bool,
    min_hits: nat,
)
    requires
        min_hits >= 1,
    ensures
        sustained_result(ticks, is_hit, min_hits) is Some <==> hits_in(ticks, is_hit) >= min_hits,
{
    lemma_last_hit_some_iff_hits(ticks, is_hit);
}

/// When a sustained detection returns a value, that value is the last
/// tick's qualifying observation, never an earlier one: it qualifies,
/// and every later tick of the window fails the predicate. Returns the
/// index it came from.
pub proof fn lemma_sustained_returns_last_hit<T>(
    ticks: Seq<T>,
    is_hit: spec_fn(T) -> bool,
    min_hits: nat,
) -> (i: int)
    requires
        sustained_result(ticks, is_hit, min_hits) is Some,
    ensures
        0 <= i < ticks.len(),
        is_hit(ticks[i]),
        sustained_result(ticks, is_hit, min_hits) == Some(ticks[i]),
        forall|j: int| i < j < ticks.len() ==> !is_hit(ticks[j]),
{
    lemma_last_hit_is_latest(ticks, is_hit)
}

/// Collapses "no qualifying tick" and "the qualifying tick carried no
/// sample" into plain absence. For the kinds whose tick observation is
/// itself optional, a hit always carries a sample, so nothing is lost.
pub open spec fn flatten_opt<T>(o: Option<Option<T>>) -> Option<T> {
    match o {
        Some(t) => t,
        None => None,
    }
}

/// Whether one CPU observation counts as a hit: a sample was obtained
/// and its CPU share is strictly above the threshold.
pub open spec fn cpu_is_hit(threshold: u64) -> spec_fn(Option<CpuSample>) -> bool {
    |t: Option<CpuSample>| t matches Some(s) && s.cpu > threshold
}

/// What a sustained CPU detection over a window returns.
pub open spec fn cpu_sustained_result(
    ticks: Seq<Option<CpuSample>>,
    threshold: u64,
    min_hits: nat,
) -> Option<CpuSample> {
    flatten_opt(sustained_result(ticks, cpu_is_hit(threshold), min_hits))
}

/// What a sustained disk detection over a window returns.
pub open spec fn disk_sustained_result(
    ticks: Seq<Option<DiskSample>>,
    threshold: u64,
    min_hits: nat,
) -> Option<DiskSample> {
    flatten_opt(sustained_result(ticks, disk_is_hit(threshold), min_hits))
}

/// Whether one disk observation counts as a hit: a mount was seen and
/// its usage is strictly above the threshold.
pub open spec fn disk_is_hit(threshold: u64) -> spec_fn(Option<DiskSample>) -> bool {
    |t: Option<DiskSample>| t matches Some(s) && s.used_percent > threshold
}

/// One tick of the memory window: the system-wide used share, if it
/// could be read, and the top consumer fetched for attribution, if the
/// system condition warranted fetching one and one was found.
pub struct MemTick {
    pub sys_used: Option<u64>,
    pub top: Option<MemSample>,
}

/// Whether one memory tick counts as a hit: the system-wide used share
/// was read and is strictly above the threshold, and a top consumer
/// was available to attribute it to.
pub open spec fn mem_is_hit(threshold: u64) -> spec_fn(MemTick) -> bool {
    |t: MemTick| t.sys_used matches Some(u) && u > threshold && t.top is Some
}

/// The attribution payload of a memory tick.
pub open spec fn mem_payload(t: MemTick) -> Option<MemSample> {
    t.top
}

/// Whether the system-wide memory condition holds on one tick: used by
/// the sampling loop to decide whether a top consumer is worth
/// fetching for attribution.
pub fn mem_system_high(sys_used: &Option<u64>, threshold: u64) -> (r: bool)
    ensures
        r == (*sys_used matches Some(u) && u > threshold),
{
    match sys_used {
        Some(u) => *u > threshold,
        None => false,
    }
}

/// Decides a CPU window: returns the last tick's sample whose CPU
/// share was strictly above `threshold`, provided at least `min_hits`
/// ticks were, and nothing otherwise.
pub fn detect_sustained_high_cpu(
    ticks: &Vec<Option<CpuSample>>,
    threshold: u64,
    min_hits: usize,
) -> (r: Option<CpuSample>)
    ensures
        r == cpu_sustained_result(ticks@, threshold, min_hits as nat),
{
    let mut hits: usize = 0;
    let mut last: Option<CpuSample> = None;
    let mut i: usize = 0;
    while i < ticks.len()
        invariant
            i <= ticks@.len(),
            hits as nat == hits_in(ticks@.take(i as int), cpu_is_hit(threshold)),
            last == flatten_opt(last_hit_in(ticks@.take(i as int), cpu_is_hit(threshold))),
        decreases ticks@.len() - i,
    {
        proof {
            lemma_hits_le_len(ticks@.take(i as int), cpu_is_hit(threshold));
            assert(ticks@.take(i + 1).drop_last() =~= ticks@.take(i as int));
            assert(ticks@.take(i + 1).last() == ticks@[i as int]);
        }
        match &ticks[i] {
            Some(s) => {
                if s.cpu > threshold {
                    hits = hits + 1;
                    last = Some(s.clone());
                }
            },
            None => {},
        }
        i = i + 1;
    }
    proof {
        assert(ticks@.take(ticks@.len() as int) =~= ticks@);
    }
    if hits >= min_hits {
        last
    } else {
        None
    }
}

/// Decides a disk window: returns the last tick's mount whose usage
/// was strictly above `threshold`, provided at least `min_hits` ticks
/// were, and nothing otherwise.
pub fn detect_sustained_high_disk(
    ticks: &Vec<Option<DiskSample>>,
    threshold: u64,
    min_hits: usize,
) -> (r: Option<DiskSample>)
    ensures
        r == disk_sustained_result(ticks@, threshold, min_hits as nat),
{
    let mut hits: usize = 0;
    let mut last: Option<DiskSample> = None;
    let mut i: usize = 0;
    while i < ticks.len()
        invariant
            i <= ticks@.len(),
            hits as nat == hits_in(ticks@.take(i as int), disk_is_hit(threshold)),
            last == flatten_opt(last_hit_in(ticks@.take(i as int), disk_is_hit(threshold))),
        decreases ticks@.len() - i,
    {
        proof {
            lemma_hits_le_len(ticks@.take(i as int), disk_is_hit(threshold));
            assert(ticks@.take(i + 1).drop_last() =~= ticks@.take(i as int));
            assert(ticks@.take(i + 1).last() == ticks@[i as int]);
        }
        match &ticks[i] {
            Some(s) => {
                if s.used_percent > threshold {
                    hits = hits + 1;
                    last = Some(s.clone());
                }
            },
            None => {},
        }
        i = i + 1;
    }
    proof {
        assert(ticks@.take(ticks@.len() as int) =~= ticks@);
    }
    if hits >= min_hits {
        last
    } else {
        None
    }
}

/// The attribution the memory detector settles on for a window: the
/// payload of the last qualifying tick, when enough ticks qualified.
pub open spec fn mem_sustained_result(
    ticks: Seq<MemTick>,
    threshold: u64,
    min_hits: nat,
) -> Option<MemSample> {
    match sustained_result(ticks, mem_is_hit(threshold), min_hits) {
        Some(t) => mem_payload(t),
        None => None,
    }
}

/// Decides a memory window: a tick qualifies when the system-wide used
/// share was read, was strictly above `threshold`, and a top consumer
/// was available; returns the last qualifying tick's top consumer,
/// provided at least `min_hits` ticks qualified, and nothing
/// otherwise.
pub fn detect_sustained_high_mem(
    ticks: &Vec<MemTick>,
    threshold: u64,
    min_hits: usize,
) -> (r: Option<MemSample>)
    ensures
        r == mem_sustained_result(ticks@, threshold, min_hits as nat),
{
    let mut hits: usize = 0;
    let mut last: Option<MemSample> = None;
    let ghost mut last_tick: Option<MemTick> = None;
    let mut i: usize = 0;
    while i < ticks.len()
        invariant
            i <= ticks@.len(),
            hits as nat == hits_in(ticks@.take(i as int), mem_is_hit(threshold)),
            last_tick == last_hit_in(ticks@.take(i as int), mem_is_hit(threshold)),
            last == match last_tick {
                Some(t) => mem_payload(t),
                None => None::<MemSample>,
            },
        decreases ticks@.len() - i,
    {
        proof {
            lemma_hits_le_len(ticks@.take(i as int), mem_is_hit(threshold));
            assert(ticks@.take(i + 1).drop_last() =~= ticks@.take(i as int));
            assert(ticks@.take(i + 1).last() == ticks@[i as int]);
        }
        let tick = &ticks[i];
        let sys_high = mem_system_high(&tick.sys_used, threshold);
        if sys_high {
            match &tick.top {
                Some(s) => {
                    hits = hits + 1;
                    last = Some(s.clone());
                    proof {
                        last_tick = Some(ticks@[i as int]);
                    }
                },
                None => {},
            }
        }
        i = i + 1;
    }
    proof {
        assert(ticks@.take(ticks@.len() as int) =~= ticks@);
    }
    if hits >= min_hits {
        last
    } else {
        None
    }
}

} // verus!
