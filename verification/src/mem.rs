//! The memory side of a snapshot: the system-wide used share computed
//! from the total and available figures, and the choice of the top
//! consumer with the monitoring process itself excluded.

use vstd::prelude::*;

verus! {

/// One row of a per-process memory listing, highest consumer first:
/// pid, name, and the process's own share in hundredths of a percent.
pub struct PsMemRow {
    pub pid: u32,
    pub name: String,
    pub mem: u64,
}

/// Whether a pid is the one the caller asked to leave out.
pub open spec fn is_excluded(pid: u32, exclude: Option<u32>) -> bool {
    exclude matches Some(x) && x == pid
}

/// The system-wide used share in hundredths of a percent: used memory
/// is what is not available (never negative), scaled against the
/// total.
pub open spec fn mem_used_spec(total_kb: u64, available_kb: u64) -> u64 {
    let used: u64 = if available_kb <= total_kb {
        (total_kb - available_kb) as u64
    } else {
        0
    };
    ((used as int * 10000) / total_kb as int) as u64
}

/// Computes the system-wide used share from a total and an available
/// figure (both in the same unit), in hundredths of a percent.
/// Nothing can be said of a zero total, so it yields absence, as an
/// unreadable figure would.
pub fn mem_used_percent(total_kb: u64, available_kb: u64) -> (r: Option<u64>)
    ensures
        r is Some <==> total_kb > 0,
        total_kb > 0 ==> r == Some(mem_used_spec(total_kb, available_kb)),
{
    if total_kb == 0 {
        return None;
    }
    let used = total_kb.saturating_sub(available_kb);
    let scaled: u128 = (used as u128) * 10000 / (total_kb as u128);
    proof {
        assert((used as int * 10000) / (total_kb as int) <= 10000) by (nonlinear_arith)
            requires
                0 < total_kb,
                used <= total_kb,
        ;
        assert(scaled == (used as int * 10000) / (total_kb as int));
    }
    Some(scaled as u64)
}

/// Picks the top consumer from a memory listing, skipping the
/// excluded pid: the first row whose pid is not excluded, absence
/// when every row is.
pub fn pick_top_mem(rows: &Vec<PsMemRow>, exclude: Option<u32>) -> (r: Option<usize>)
    ensures
        r matches Some(i) ==> i < rows@.len() && !is_excluded(rows@[i as int].pid, exclude) && (
        forall|j: int| 0 <= j < i ==> is_excluded((#[trigger] rows@[j]).pid, exclude)),
        r is None ==> forall|j: int|
            0 <= j < rows@.len() ==> is_excluded((#[trigger] rows@[j]).pid, exclude),
{
    let mut i: usize = 0;
    while i < rows.len()
        invariant
            i <= rows@.len(),
            forall|j: int| 0 <= j < i ==> is_excluded((#[trigger] rows@[j]).pid, exclude),
        decreases rows@.len() - i,
    {
        let skip = match exclude {
            Some(x) => x == rows[i].pid,
            None => false,
        };
        if !skip {
            return Some(i);
        }
        i = i + 1;
    }
    None
}

} // verus!
