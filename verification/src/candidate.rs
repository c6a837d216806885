//! Cost-bounded candidate selection for the I/O window: one full scan
//! of every process's cumulative read+write byte total is ranked
//! descending and the top `k` pids are frozen as the candidate set for
//! the whole detection window; a scan that yields nothing falls back
//! to the full process set.

use vstd::prelude::*;

verus! {

/// The bound the selection recommends: how many candidates to freeze.
pub const DEFAULT_IO_CANDIDATES: usize = 64;

/// The scan's abstract content: a map from pid to its cumulative byte
/// total, later entries winning.
pub open spec fn totals_view(s: Seq<(u32, u64)>) -> Map<u32, u64>
    decreases s.len(),
{
    if s.len() == 0 {
        Map::empty()
    } else {
        totals_view(s.drop_last()).insert(s.last().0, s.last().1)
    }
}

/// No pid occurs twice in the scan.
pub open spec fn totals_distinct(s: Seq<(u32, u64)>) -> bool {
    forall|i: int, j: int| 0 <= i < j < s.len() ==> (#[trigger] s[i]).0 != (#[trigger] s[j]).0
}

/// The selection's order: larger byte total first, smaller pid on a
/// tie.
pub open spec fn cand_rank_above(a: (u32, u64), b: (u32, u64)) -> bool {
    a.1 > b.1 || (a.1 == b.1 && a.0 < b.0)
}

proof fn lemma_totals_view_contains(s: Seq<(u32, u64)>, p: u32)
    ensures
        totals_view(s).contains_key(p) <==> exists|i: int| 0 <= i < s.len() && (#[trigger] s[i]).0
            == p,
    decreases s.len(),
{
    if s.len() > 0 {
        lemma_totals_view_contains(s.drop_last(), p);
        if s.last().0 == p {
            assert(s[s.len() - 1].0 == p);
        } else if totals_view(s).contains_key(p) {
            let i = choose|i: int| 0 <= i < s.drop_last().len() && (#[trigger] s.drop_last()[i]).0
                == p;
            assert(s[i].0 == p);
        } else {
            assert forall|i: int| 0 <= i < s.len() implies (#[trigger] s[i]).0 != p by {
                if i < s.len() - 1 {
                    assert(s.drop_last()[i] == s[i]);
                }
            }
        }
    }
}

proof fn lemma_totals_view_get(s: Seq<(u32, u64)>, i: int)
    requires
        totals_distinct(s),
        0 <= i < s.len(),
    ensures
        totals_view(s).contains_key(s[i].0),
        totals_view(s)[s[i].0] == s[i].1,
    decreases s.len(),
{
    if i == s.len() - 1 {
    } else {
        lemma_totals_view_get(s.drop_last(), i);
        assert(s.drop_last()[i] == s[i]);
    }
}

/// Whether `a` comes before `b` in the selection's descending order.
fn cand_before(a: (u32, u64), b: (u32, u64)) -> (r: bool)
    ensures
        r == cand_rank_above(a, b),
{
    a.1 > b.1 || (a.1 == b.1 && a.0 < b.0)
}

proof fn lemma_insert_keeps_order(s: Seq<(u32, u64)>, pos: int, x: (u32, u64))
    requires
        0 <= pos <= s.len(),
        forall|a: int, b: int|
            0 <= a < b < s.len() ==> cand_rank_above(#[trigger] s[a], #[trigger] s[b]),
        forall|a: int| 0 <= a < pos ==> cand_rank_above(#[trigger] s[a], x),
        pos < s.len() ==> cand_rank_above(x, s[pos]),
    ensures
        forall|a: int, b: int|
            0 <= a < b < s.insert(pos, x).len() ==> cand_rank_above(
                #[trigger] s.insert(pos, x)[a],
                #[trigger] s.insert(pos, x)[b],
            ),
{
    let ns = s.insert(pos, x);
    s.insert_ensures(pos, x);
    assert forall|a: int, b: int| 0 <= a < b < ns.len() implies cand_rank_above(
        #[trigger] ns[a],
        #[trigger] ns[b],
    ) by {
        let pa = if a < pos {
            a
        } else {
            a - 1
        };
        let pb = if b < pos {
            b
        } else {
            b - 1
        };
        if a == pos {
            assert(ns[a] == x && ns[b] == s[pb]);
            if pb > pos {
                assert(cand_rank_above(s[pos], s[pb]));
            }
        } else if b == pos {
            assert(ns[b] == x && ns[a] == s[pa]);
        } else {
            assert(ns[a] == s[pa] && ns[b] == s[pb]);
        }
    }
}

/// Sorts the scan descending by byte total, ties broken by ascending
/// pid. The result holds exactly the scan's entries, in that order.
fn sort_totals_desc(totals: &Vec<(u32, u64)>) -> (s: Vec<(u32, u64)>)
    requires
        totals_distinct(totals@),
    ensures
        s@.len() == totals@.len(),
        forall|i: int, j: int|
            0 <= i < j < s@.len() ==> cand_rank_above(#[trigger] s@[i], #[trigger] s@[j]),
        s@.to_multiset() == totals@.to_multiset(),
{
    let mut sorted: Vec<(u32, u64)> = Vec::new();
    let mut i: usize = 0;
    proof {
        assert(totals@.take(0) =~= Seq::<(u32, u64)>::empty());
    }
    while i < totals.len()
        invariant
            totals_distinct(totals@),
            i <= totals@.len(),
            sorted@.len() == i,
            forall|a: int, b: int|
                0 <= a < b < sorted@.len() ==> cand_rank_above(
                    #[trigger] sorted@[a],
                    #[trigger] sorted@[b],
                ),
            sorted@.to_multiset() == totals@.take(i as int).to_multiset(),
        decreases totals@.len() - i,
    {
        let x = totals[i];
        proof {
            assert forall|a: int| 0 <= a < sorted@.len() implies (#[trigger] sorted@[a]).0
                != x.0 by {
                assert(sorted@.contains(sorted@[a]));
                vstd::seq_lib::to_multiset_contains(sorted@, sorted@[a]);
                vstd::seq_lib::to_multiset_contains(totals@.take(i as int), sorted@[a]);
                let tk = totals@.take(i as int);
                let j = choose|j: int| 0 <= j < tk.len() && tk[j] == sorted@[a];
                assert(totals@[j] == sorted@[a]);
                assert(totals@[j].0 != totals@[i as int].0);
            }
        }
        let mut pos: usize = 0;
        while pos < sorted.len() && cand_before(sorted[pos], x)
            invariant
                pos <= sorted@.len(),
                forall|a: int| 0 <= a < pos ==> cand_rank_above(#[trigger] sorted@[a], x),
            decreases sorted@.len() - pos,
        {
            pos = pos + 1;
        }
        proof {
            if pos < sorted@.len() {
                assert(!cand_rank_above(sorted@[pos as int], x));
                assert(sorted@[pos as int].0 != x.0);
                assert(cand_rank_above(x, sorted@[pos as int]));
            }
            lemma_insert_keeps_order(sorted@, pos as int, x);
            vstd::seq_lib::to_multiset_insert(sorted@, pos as int, x);
            assert(totals@.take(i + 1) =~= totals@.take(i as int).push(x));
            vstd::seq_lib::to_multiset_build(totals@.take(i as int), x);
        }
        sorted.insert(pos, x);
        i = i + 1;
    }
    proof {
        assert(totals@.take(totals@.len() as int) =~= totals@);
    }
    sorted
}

/// Freezes the candidate set for an I/O detection window. When the
/// scan found anything, the set is the `k` top-ranked pids (all of
/// them, when fewer than `k` were found): every selected pid comes
/// from the scan, the selection is in strictly descending rank order,
/// and no unselected pid outranks a selected one. A scan that found
/// nothing falls back to the full process set.
pub fn select_io_candidates(totals: &Vec<(u32, u64)>, all_pids: &Vec<u32>, k: usize) -> (r: Vec<
    u32,
>)
    requires
        totals_distinct(totals@),
    ensures
        totals@.len() == 0 ==> r@ == all_pids@,
        totals@.len() > 0 ==> {
            let m = totals_view(totals@);
            &&& r@.len() == if k <= totals@.len() {
                k as int
            } else {
                totals@.len() as int
            }
            &&& forall|i: int| 0 <= i < r@.len() ==> m.contains_key(#[trigger] r@[i])
            &&& forall|i: int, j: int|
                0 <= i < j < r@.len() ==> cand_rank_above(
                    (#[trigger] r@[i], m[r@[i]]),
                    (#[trigger] r@[j], m[r@[j]]),
                )
            &&& forall|p: u32|
                m.contains_key(p) && !r@.contains(p) ==> forall|i: int|
                    0 <= i < r@.len() ==> cand_rank_above((#[trigger] r@[i], m[r@[i]]), (p, m[p]))
        },
{
    if totals.len() == 0 {
        let mut out: Vec<u32> = Vec::new();
        let mut i: usize = 0;
        while i < all_pids.len()
            invariant
                i <= all_pids@.len(),
                out@ == all_pids@.take(i as int),
            decreases all_pids@.len() - i,
        {
            out.push(all_pids[i]);
            proof {
                assert(all_pids@.take(i + 1) =~= all_pids@.take(i as int).push(
                    all_pids@[i as int],
                ));
            }
            i = i + 1;
        }
        proof {
            assert(all_pids@.take(all_pids@.len() as int) =~= all_pids@);
        }
        out
    } else {
        let ghost m = totals_view(totals@);
        let sorted = sort_totals_desc(totals);
        proof {
            assert forall|a: int| 0 <= a < sorted@.len() implies m.contains_key(
                (#[trigger] sorted@[a]).0,
            ) && m[sorted@[a].0] == sorted@[a].1 by {
                assert(sorted@.contains(sorted@[a]));
                vstd::seq_lib::to_multiset_contains(sorted@, sorted@[a]);
                vstd::seq_lib::to_multiset_contains(totals@, sorted@[a]);
                let j = choose|j: int| 0 <= j < totals@.len() && totals@[j] == sorted@[a];
                lemma_totals_view_get(totals@, j);
            }
        }
        let cut = if k <= sorted.len() {
            k
        } else {
            sorted.len()
        };
        let mut out: Vec<u32> = Vec::new();
        let mut i: usize = 0;
        while i < cut
            invariant
                i <= cut,
                cut <= sorted@.len(),
                out@.len() == i,
                forall|a: int| 0 <= a < i ==> #[trigger] out@[a] == sorted@[a].0,
            decreases cut - i,
        {
            out.push(sorted[i].0);
            i = i + 1;
        }
        proof {
            assert forall|a: int| 0 <= a < out@.len() implies m.contains_key(
                #[trigger] out@[a],
            ) by {
                assert(out@[a] == sorted@[a].0);
            }
            assert forall|a: int, b: int| 0 <= a < b < out@.len() implies cand_rank_above(
                (#[trigger] out@[a], m[out@[a]]),
                (#[trigger] out@[b], m[out@[b]]),
            ) by {
                assert(out@[a] == sorted@[a].0 && out@[b] == sorted@[b].0);
                assert(cand_rank_above(sorted@[a], sorted@[b]));
            }
            assert forall|p: u32| m.contains_key(p) && !out@.contains(p) implies forall|a: int|
                0 <= a < out@.len() ==> cand_rank_above(
                    (#[trigger] out@[a], m[out@[a]]),
                    (p, m[p]),
                ) by {
                lemma_totals_view_contains(totals@, p);
                let j = choose|j: int| 0 <= j < totals@.len() && (#[trigger] totals@[j]).0 == p;
                lemma_totals_view_get(totals@, j);
                assert(totals@.contains(totals@[j]));
                vstd::seq_lib::to_multiset_contains(totals@, totals@[j]);
                vstd::seq_lib::to_multiset_contains(sorted@, totals@[j]);
                let jp = choose|jp: int|
                    0 <= jp < sorted@.len() && sorted@[jp] == totals@[j];
                assert(jp >= cut) by {
                    if jp < cut {
                        assert(out@[jp] == sorted@[jp].0);
                        assert(out@.contains(p));
                    }
                }
                assert forall|a: int| 0 <= a < out@.len() implies cand_rank_above(
                    (#[trigger] out@[a], m[out@[a]]),
                    (p, m[p]),
                ) by {
                    assert(out@[a] == sorted@[a].0);
                    assert(cand_rank_above(sorted@[a], sorted@[jp]));
                    assert(sorted@[jp] == (p, m[p]));
                }
            }
        }
        out
    }
}

} // verus!
