//! The data model of one observation.
//!
//! Percentages are carried as integers in hundredths of a percent
//! (`1250` means `12.50 %`), so that every computation over them is
//! exact. Byte rates are plain bytes per second.

use vstd::prelude::*;

verus! {

/// The top CPU consumer seen at one tick: process name, pid, and its
/// CPU share in hundredths of a percent.
pub struct CpuSample {
    pub name: String,
    pub pid: u32,
    pub cpu: u64,
}

/// The top memory consumer seen at one tick. `mem` is the process's own
/// share, `used_percent` the system-wide used share, both in hundredths
/// of a percent.
pub struct MemSample {
    pub name: String,
    pub pid: u32,
    pub mem: u64,
    pub used_percent: u64,
}

/// The fullest mount seen at one tick, with its usage in hundredths of
/// a percent.
pub struct DiskSample {
    pub fs: String,
    pub mount: String,
    pub used_percent: u64,
}

/// The process a sustained I/O detection settles on, with the read and
/// write rates (bytes per second) of its last qualifying tick.
pub struct IoSample {
    pub pid: u32,
    pub name: String,
    pub read_bps: u64,
    pub write_bps: u64,
}

/// One tick of the run-wide timeline: a timestamp and whatever top
/// samples were available at that instant.
pub struct TimelineSample {
    pub ts: u64,
    pub cpu: Option<CpuSample>,
    pub mem: Option<MemSample>,
    pub disk: Option<DiskSample>,
}

impl Clone for CpuSample {
    fn clone(&self) -> (res: Self)
        ensures
            res == *self,
    {
        CpuSample { name: self.name.clone(), pid: self.pid, cpu: self.cpu }
    }
}

impl Clone for MemSample {
    fn clone(&self) -> (res: Self)
        ensures
            res == *self,
    {
        MemSample {
            name: self.name.clone(),
            pid: self.pid,
            mem: self.mem,
            used_percent: self.used_percent,
        }
    }
}

impl Clone for DiskSample {
    fn clone(&self) -> (res: Self)
        ensures
            res == *self,
    {
        DiskSample {
            fs: self.fs.clone(),
            mount: self.mount.clone(),
            used_percent: self.used_percent,
        }
    }
}

impl Clone for IoSample {
    fn clone(&self) -> (res: Self)
        ensures
            res == *self,
    {
        IoSample {
            pid: self.pid,
            name: self.name.clone(),
            read_bps: self.read_bps,
            write_bps: self.write_bps,
        }
    }
}

} // verus!
