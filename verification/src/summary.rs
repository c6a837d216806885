//! Run-wide summary statistics: the mean and maximum of each
//! resource's per-tick value series, in the same hundredths-of-a-
//! percent fixed point the series use.

use vstd::prelude::*;

use crate::offenders::sat_sum_u64;
use crate::offenders::seq_max_u64;

verus! {

/// The mean of a value series: its running saturating sum divided by
/// its length, rounded down, zero for an empty series.
pub open spec fn avg_of_spec(s: Seq<u64>) -> u64 {
    if s.len() == 0 {
        0
    } else {
        (sat_sum_u64(s) as int / s.len() as int) as u64
    }
}

/// Computes the mean of a value series, zero for an empty one.
pub fn avg_of(values: &Vec<u64>) -> (r: u64)
    ensures
        r == avg_of_spec(values@),
{
    if values.len() == 0 {
        return 0;
    }
    let mut acc: u64 = 0;
    let mut i: usize = 0;
    while i < values.len()
        invariant
            i <= values@.len(),
            acc == sat_sum_u64(values@.take(i as int)),
        decreases values@.len() - i,
    {
        proof {
            assert(values@.take(i + 1).drop_last() =~= values@.take(i as int));
            assert(values@.take(i + 1).last() == values@[i as int]);
        }
        acc = acc.saturating_add(values[i]);
        i = i + 1;
    }
    proof {
        assert(values@.take(values@.len() as int) =~= values@);
    }
    acc / (values.len() as u64)
}

/// Computes the largest value of a series, zero for an empty one.
pub fn max_of(values: &Vec<u64>) -> (r: u64)
    ensures
        r == seq_max_u64(values@),
{
    let mut best: u64 = 0;
    let mut i: usize = 0;
    while i < values.len()
        invariant
            i <= values@.len(),
            best == seq_max_u64(values@.take(i as int)),
        decreases values@.len() - i,
    {
        proof {
            assert(values@.take(i + 1).drop_last() =~= values@.take(i as int));
            assert(values@.take(i + 1).last() == values@[i as int]);
        }
        let v = values[i];
        if v > best {
            best = v;
        }
        i = i + 1;
    }
    proof {
        assert(values@.take(values@.len() as int) =~= values@);
    }
    best
}

/// The run-wide summary handed to the report: mean and maximum per
/// resource, plus the system-wide memory pair, in hundredths of a
/// percent.
pub struct Summary {
    pub cpu_avg: u64,
    pub cpu_max: u64,
    pub mem_avg: u64,
    pub mem_max: u64,
    pub mem_system_avg: u64,
    pub mem_system_max: u64,
    pub disk_avg: u64,
    pub disk_max: u64,
}

/// Builds the run-wide summary from the four per-tick value series.
pub fn build_summary(
    cpu_values: &Vec<u64>,
    mem_values: &Vec<u64>,
    mem_used_values: &Vec<u64>,
    disk_values: &Vec<u64>,
) -> (s: Summary)
    ensures
        s.cpu_avg == avg_of_spec(cpu_values@),
        s.cpu_max == seq_max_u64(cpu_values@),
        s.mem_avg == avg_of_spec(mem_values@),
        s.mem_max == seq_max_u64(mem_values@),
        s.mem_system_avg == avg_of_spec(mem_used_values@),
        s.mem_system_max == seq_max_u64(mem_used_values@),
        s.disk_avg == avg_of_spec(disk_values@),
        s.disk_max == seq_max_u64(disk_values@),
{
    Summary {
        cpu_avg: avg_of(cpu_values),
        cpu_max: max_of(cpu_values),
        mem_avg: avg_of(mem_values),
        mem_max: max_of(mem_values),
        mem_system_avg: avg_of(mem_used_values),
        mem_system_max: max_of(mem_used_values),
        disk_avg: avg_of(disk_values),
        disk_max: max_of(disk_values),
    }
}

} // verus!
