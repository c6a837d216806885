//! The CPU side of a top-consumer snapshot: a known umbrella helper
//! process (a browser's renderer or GPU helper) is resolved to its
//! parent, so load is attributed to the recognizable application
//! rather than an opaque helper.

use vstd::prelude::*;

use crate::samples::CpuSample;

verus! {

/// Whether a process name is a known umbrella helper whose load
/// should be attributed to its parent.
pub open spec fn is_helper(name: Seq<char>) -> bool {
    name == "Web"@ || name == "GPU"@
}

/// Whether the two character sequences are equal.
fn str_eq(a: &str, b: &str) -> (r: bool)
    ensures
        r == (a@ == b@),
{
    let sa: String = a.to_owned();
    let sb: String = b.to_owned();
    sa == sb
}

/// Decides whether a snapshot's top process is a known umbrella
/// helper, so the snapshot provider knows to look its parent up.
pub fn is_helper_name(name: &str) -> (r: bool)
    ensures
        r == is_helper(name@),
{
    str_eq(name, "Web") || str_eq(name, "GPU")
}

/// Settles a top-CPU snapshot's attribution: a known umbrella helper
/// with a resolvable parent is replaced by that parent; anything else
/// stands as observed.
pub fn resolve_top_cpu(sample: CpuSample, parent: Option<CpuSample>) -> (r: CpuSample)
    ensures
        r == if is_helper(sample.name@) && parent is Some {
            parent->0
        } else {
            sample
        },
{
    if is_helper_name(sample.name.as_str()) {
        match parent {
            Some(p) => p,
            None => sample,
        }
    } else {
        sample
    }
}

} // verus!
