//! The orchestrator's bookkeeping for one run: the timeline loop's
//! per-tick recording (timeline entry, per-resource value series, and
//! the two offender aggregators), and the assembly of the final
//! report document from the joined detector results.
//!
//! The aggregates and the timeline are owned and mutated by the one
//! recording loop alone; the four detectors share nothing with it.

use vstd::prelude::*;

use crate::offenders::is_top_answer;
use crate::offenders::updated_history;
use crate::offenders::updated_view;
use crate::offenders::OffenderBoard;
use crate::offenders::OffenderRow;
use crate::samples::CpuSample;
use crate::samples::DiskSample;
use crate::samples::IoSample;
use crate::samples::MemSample;
use crate::samples::TimelineSample;
use crate::summary::avg_of_spec;
use crate::summary::build_summary;
use crate::summary::Summary;
use crate::offenders::seq_max_u64;

verus! {

/// Everything the timeline loop accumulates across a run.
pub struct RunRecorder {
    pub timeline: Vec<TimelineSample>,
    pub cpu_values: Vec<u64>,
    pub mem_values: Vec<u64>,
    pub mem_used_values: Vec<u64>,
    pub disk_values: Vec<u64>,
    pub cpu_offenders: OffenderBoard,
    pub mem_offenders: OffenderBoard,
}

/// The structured document handed to the external renderer: the four
/// detection results, the run-wide summary, the two offender tables,
/// and the full timeline.
pub struct ReportDoc {
    pub cpu: Option<CpuSample>,
    pub mem: Option<MemSample>,
    pub disk: Option<DiskSample>,
    pub io: Option<IoSample>,
    pub summary: Summary,
    pub cpu_offenders: Vec<OffenderRow>,
    pub mem_offenders: Vec<OffenderRow>,
    pub timeline: Vec<TimelineSample>,
}

impl RunRecorder {
    /// The aggregators are sound and every series has one value per
    /// recorded tick.
    pub open spec fn wf(self) -> bool {
        &&& self.cpu_offenders.wf()
        &&& self.mem_offenders.wf()
        &&& self.cpu_values@.len() == self.timeline@.len()
        &&& self.mem_values@.len() == self.timeline@.len()
        &&& self.mem_used_values@.len() == self.timeline@.len()
        &&& self.disk_values@.len() == self.timeline@.len()
    }

    /// A recorder with nothing recorded.
    pub fn new() -> (r: RunRecorder)
        ensures
            r.wf(),
            r.timeline@ == Seq::<TimelineSample>::empty(),
            r.cpu_values@ == Seq::<u64>::empty(),
            r.mem_values@ == Seq::<u64>::empty(),
            r.mem_used_values@ == Seq::<u64>::empty(),
            r.disk_values@ == Seq::<u64>::empty(),
            r.cpu_offenders@ == Map::<u32, crate::offenders::OffenderRecord>::empty(),
            r.mem_offenders@ == Map::<u32, crate::offenders::OffenderRecord>::empty(),
    {
        RunRecorder {
            timeline: Vec::new(),
            cpu_values: Vec::new(),
            mem_values: Vec::new(),
            mem_used_values: Vec::new(),
            disk_values: Vec::new(),
            cpu_offenders: OffenderBoard::new(),
            mem_offenders: OffenderBoard::new(),
        }
    }

    /// Records one tick: appends the timeline entry, appends each
    /// resource's value (zero where no sample was available), and
    /// feeds the CPU and memory top consumers into their aggregators.
    pub fn record_tick(
        &mut self,
        ts: u64,
        cpu: Option<CpuSample>,
        mem: Option<MemSample>,
        disk: Option<DiskSample>,
    )
        requires
            old(self).wf(),
        ensures
            final(self).wf(),
            final(self).timeline@ == old(self).timeline@.push(
                TimelineSample { ts, cpu, mem, disk },
            ),
            final(self).cpu_values@ == old(self).cpu_values@.push(
                match cpu {
                    Some(s) => s.cpu,
                    None => 0u64,
                },
            ),
            final(self).mem_values@ == old(self).mem_values@.push(
                match mem {
                    Some(m) => m.mem,
                    None => 0u64,
                },
            ),
            final(self).mem_used_values@ == old(self).mem_used_values@.push(
                match mem {
                    Some(m) => m.used_percent,
                    None => 0u64,
                },
            ),
            final(self).disk_values@ == old(self).disk_values@.push(
                match disk {
                    Some(d) => d.used_percent,
                    None => 0u64,
                },
            ),
            cpu matches Some(s) ==> final(self).cpu_offenders@ == updated_view(
                old(self).cpu_offenders@,
                old(self).cpu_offenders.history(),
                s.pid,
                s.name@,
                s.cpu,
            ) && final(self).cpu_offenders.history() == updated_history(
                old(self).cpu_offenders@,
                old(self).cpu_offenders.history(),
                s.pid,
                s.cpu,
            ),
            cpu is None ==> final(self).cpu_offenders == old(self).cpu_offenders,
            mem matches Some(m) ==> final(self).mem_offenders@ == updated_view(
                old(self).mem_offenders@,
                old(self).mem_offenders.history(),
                m.pid,
                m.name@,
                m.mem,
            ) && final(self).mem_offenders.history() == updated_history(
                old(self).mem_offenders@,
                old(self).mem_offenders.history(),
                m.pid,
                m.mem,
            ),
            mem is None ==> final(self).mem_offenders == old(self).mem_offenders,
    {
        match &cpu {
            Some(s) => {
                self.cpu_values.push(s.cpu);
                self.cpu_offenders.update_offender(s.pid, s.name.as_str(), s.cpu);
            },
            None => {
                self.cpu_values.push(0);
            },
        }
        match &mem {
            Some(m) => {
                self.mem_values.push(m.mem);
                self.mem_used_values.push(m.used_percent);
                self.mem_offenders.update_offender(m.pid, m.name.as_str(), m.mem);
            },
            None => {
                self.mem_values.push(0);
                self.mem_used_values.push(0);
            },
        }
        match &disk {
            Some(d) => {
                self.disk_values.push(d.used_percent);
            },
            None => {
                self.disk_values.push(0);
            },
        }
        self.timeline.push(TimelineSample { ts, cpu, mem, disk });
    }

    /// Assembles the final report document: the four joined detector
    /// results as they are (a failed worker's absence included), the
    /// run-wide summary computed from the recorded series, and the
    /// two offender tables cut to `offender_limit` lines.
    pub fn assemble_report(
        self,
        cpu_result: Option<CpuSample>,
        mem_result: Option<MemSample>,
        disk_result: Option<DiskSample>,
        io_result: Option<IoSample>,
        offender_limit: usize,
    ) -> (d: ReportDoc)
        requires
            self.wf(),
        ensures
            d.cpu == cpu_result,
            d.mem == mem_result,
            d.disk == disk_result,
            d.io == io_result,
            d.timeline == self.timeline,
            d.summary.cpu_avg == avg_of_spec(self.cpu_values@),
            d.summary.cpu_max == seq_max_u64(self.cpu_values@),
            d.summary.mem_avg == avg_of_spec(self.mem_values@),
            d.summary.mem_max == seq_max_u64(self.mem_values@),
            d.summary.mem_system_avg == avg_of_spec(self.mem_used_values@),
            d.summary.mem_system_max == seq_max_u64(self.mem_used_values@),
            d.summary.disk_avg == avg_of_spec(self.disk_values@),
            d.summary.disk_max == seq_max_u64(self.disk_values@),
            is_top_answer(
                self.cpu_offenders@,
                self.cpu_offenders.spec_len(),
                offender_limit as nat,
                d.cpu_offenders@,
            ),
            is_top_answer(
                self.mem_offenders@,
                self.mem_offenders.spec_len(),
                offender_limit as nat,
                d.mem_offenders@,
            ),
    {
        let summary = build_summary(
            &self.cpu_values,
            &self.mem_values,
            &self.mem_used_values,
            &self.disk_values,
        );
        let cpu_offenders = self.cpu_offenders.top_offenders(offender_limit);
        let mem_offenders = self.mem_offenders.top_offenders(offender_limit);
        ReportDoc {
            cpu: cpu_result,
            mem: mem_result,
            disk: disk_result,
            io: io_result,
            summary,
            cpu_offenders,
            mem_offenders,
            timeline: self.timeline,
        }
    }
}

} // verus!
