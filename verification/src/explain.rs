//! The static explanation lookup: a fixed mapping from a process or
//! resource name to advice text, with a default for anything unknown.

use vstd::prelude::*;

verus! {

/// The advice text a name maps to.
pub open spec fn explanation_for(name: Seq<char>) -> Seq<char> {
    if name == "firefox"@ {
        "Firefox CPU usage is often caused by:
\u{2022} heavy or broken tabs
\u{2022} video playback or WebGL
\u{2022} misbehaving extensions
\u{2022} background service workers"@
    } else if name == "chromium"@ || name == "chrome"@ {
        "Chromium-based browsers may use high CPU or memory due to:
\u{2022} many open tabs (especially tabs with video/ads)
\u{2022} background extensions or helper processes
\u{2022} GPU acceleration issues
When memory is the problem, closing unused tabs or restarting the browser helps."@
    } else if name == "kworker"@ {
        "kworker is a kernel thread.
Sustained CPU usage here often indicates:
\u{2022} driver bugs
\u{2022} power management problems
\u{2022} hardware issues"@
    } else if name == "disk"@ {
        "High filesystem usage can cause system slowness and prevent writes.
Common causes:
\u{2022} logs or caches filling the root or application partitions
\u{2022} large backups or VM images stored on the same filesystem
\u{2022} leftover build artifacts or package caches

Mitigation:
\u{2022} free space by cleaning caches (e.g. package cache) or rotating logs
\u{2022} move large files to another disk or expand the filesystem
\u{2022} consider adding separate partitions for var/tmp or adding more disk space"@
    } else if name == "io"@ {
        "High disk I/O (read/write) can make systems feel very slow, even with free space.
Common causes:
\u{2022} running backups, rsync, or large file copies
\u{2022} database or indexing workloads
\u{2022} log-heavy applications or runaway processes writing continuously

Mitigation:
\u{2022} identify the process with high I/O and throttle or reschedule it
\u{2022} move heavy activity to off-peak times or faster storage
\u{2022} add io-weighting via cgroups/ionice to deprioritize background jobs"@
    } else {
        "Sustained high resource usage usually means a process is busy, leaking memory, or stuck.
If this happens while idle, consider:
\u{2022} checking which resources the process is using (`ps`, `top`, `smem`)
\u{2022} restarting the process
\u{2022} checking for known bugs or extensions
\u{2022} if memory is full, consider adding swap or investigating memory leaks."@
    }
}

/// Whether the two character sequences are equal.
fn str_eq(a: &str, b: &str) -> (r: bool)
    ensures
        r == (a@ == b@),
{
    let sa: String = a.to_owned();
    let sb: String = b.to_owned();
    sa == sb
}

/// Looks a process or resource name up in the fixed explanation
/// mapping, falling back to the default advice.
pub fn explain_process(name: &str) -> (r: &'static str)
    ensures
        r@ == explanation_for(name@),
{
    if str_eq(name, "firefox") {
        "Firefox CPU usage is often caused by:
\u{2022} heavy or broken tabs
\u{2022} video playback or WebGL
\u{2022} misbehaving extensions
\u{2022} background service workers"
    } else if str_eq(name, "chromium") || str_eq(name, "chrome") {
        "Chromium-based browsers may use high CPU or memory due to:
\u{2022} many open tabs (especially tabs with video/ads)
\u{2022} background extensions or helper processes
\u{2022} GPU acceleration issues
When memory is the problem, closing unused tabs or restarting the browser helps."
    } else if str_eq(name, "kworker") {
        "kworker is a kernel thread.
Sustained CPU usage here often indicates:
\u{2022} driver bugs
\u{2022} power management problems
\u{2022} hardware issues"
    } else if str_eq(name, "disk") {
        "High filesystem usage can cause system slowness and prevent writes.
Common causes:
\u{2022} logs or caches filling the root or application partitions
\u{2022} large backups or VM images stored on the same filesystem
\u{2022} leftover build artifacts or package caches

Mitigation:
\u{2022} free space by cleaning caches (e.g. package cache) or rotating logs
\u{2022} move large files to another disk or expand the filesystem
\u{2022} consider adding separate partitions for var/tmp or adding more disk space"
    } else if str_eq(name, "io") {
        "High disk I/O (read/write) can make systems feel very slow, even with free space.
Common causes:
\u{2022} running backups, rsync, or large file copies
\u{2022} database or indexing workloads
\u{2022} log-heavy applications or runaway processes writing continuously

Mitigation:
\u{2022} identify the process with high I/O and throttle or reschedule it
\u{2022} move heavy activity to off-peak times or faster storage
\u{2022} add io-weighting via cgroups/ionice to deprioritize background jobs"
    } else {
        "Sustained high resource usage usually means a process is busy, leaking memory, or stuck.
If this happens while idle, consider:
\u{2022} checking which resources the process is using (`ps`, `top`, `smem`)
\u{2022} restarting the process
\u{2022} checking for known bugs or extensions
\u{2022} if memory is full, consider adding swap or investigating memory leaks."
    }
}

} // verus!
