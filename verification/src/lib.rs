//! Sustained-anomaly detection engine for a point-in-time host
//! diagnostic: windowed hit counting over CPU, memory, disk and
//! per-process I/O observations, cost-bounded candidate selection for
//! I/O, per-process offender aggregation, and assembly of the final
//! report document. Acquiring the raw OS metrics, the sampling loops
//! themselves, and rendering the report are the caller's business: the
//! engine works on plain observed values.

pub mod candidate;
pub mod cpu;
pub mod detect;
pub mod disk;
pub mod explain;
pub mod io;
pub mod mem;
pub mod offenders;
pub mod run;
pub mod samples;
pub mod summary;

pub use detect::detect_sustained_high_cpu;
pub use detect::detect_sustained_high_disk;
pub use detect::detect_sustained_high_mem;
pub use explain::explain_process;
pub use io::detect_sustained_high_io;
pub use samples::CpuSample;
pub use samples::DiskSample;
pub use samples::IoSample;
pub use samples::MemSample;
pub use samples::TimelineSample;
