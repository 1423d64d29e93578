//! The record of one process.

use vstd::prelude::*;
use crate::percent::Percent;

verus! {

/// What is known of one process.
#[derive(Debug, Clone)]
pub struct Process {
    pub pid: i32,
    pub process_name: String,
    pub state: String,
    pub utime: u64,
    pub stime: u64,
    pub total_time: u64,
    pub mem_percent: Percent,
    pub cpu_percent: Percent,
    pub rss: u64,
}

/// A record of a process as plain values.
pub struct ProcessView {
    pub pid: i32,
    pub process_name: Seq<char>,
    pub state: Seq<char>,
    pub utime: u64,
    pub stime: u64,
    pub total_time: u64,
    pub mem_percent: Percent,
    pub cpu_percent: Percent,
    pub rss: u64,
}

impl View for Process {
    type V = ProcessView;

    open spec fn view(&self) -> ProcessView {
        ProcessView {
            pid: self.pid,
            process_name: self.process_name@,
            state: self.state@,
            utime: self.utime,
            stime: self.stime,
            total_time: self.total_time,
            mem_percent: self.mem_percent,
            cpu_percent: self.cpu_percent,
            rss: self.rss,
        }
    }
}

/// Zero percent, written as 0 / 1.
pub open spec fn zero_percent() -> Percent {
    Percent { numer: 0, denom: 1 }
}

impl Process {
    /// A record with the given values, the sum of the two times as its total, and both
    /// percentages at zero.
    pub fn new(
        pid: i32,
        state: String,
        process_name: String,
        utime: u64,
        stime: u64,
        rss: u64,
    ) -> (p: Process)
        requires
            utime + stime <= u64::MAX,
        ensures
            p@ == (ProcessView {
                pid,
                process_name: process_name@,
                state: state@,
                utime,
                stime,
                total_time: (utime + stime) as u64,
                mem_percent: zero_percent(),
                cpu_percent: zero_percent(),
                rss,
            }),
    {
        Process {
            pid,
            process_name,
            state,
            utime,
            stime,
            total_time: utime + stime,
            mem_percent: Percent::zero(),
            cpu_percent: Percent::zero(),
            rss,
        }
    }

    /// Sets the share of processor time.
    pub fn set_cpu_percent(&mut self, percent: Percent)
        ensures
            final(self)@ == (ProcessView { cpu_percent: percent, ..old(self)@ }),
    {
        self.cpu_percent = percent;
    }

    /// Sets the time in user mode.
    pub fn set_utime(&mut self, utime: u64)
        ensures
            final(self)@ == (ProcessView { utime, ..old(self)@ }),
    {
        self.utime = utime;
    }

    /// Sets the time in system mode.
    pub fn set_stime(&mut self, stime: u64)
        ensures
            final(self)@ == (ProcessView { stime, ..old(self)@ }),
    {
        self.stime = stime;
    }

    /// Sets the total of the two times.
    pub fn set_total_time(&mut self, total_time: u64)
        ensures
            final(self)@ == (ProcessView { total_time, ..old(self)@ }),
    {
        self.total_time = total_time;
    }

    /// Sets the share of memory.
    pub fn set_mem_percent(&mut self, mem_percent: Percent)
        ensures
            final(self)@ == (ProcessView { mem_percent, ..old(self)@ }),
    {
        self.mem_percent = mem_percent;
    }

    /// Sets the resident memory, in kilobytes.
    pub fn set_rss(&mut self, rss: u64)
        ensures
            final(self)@ == (ProcessView { rss, ..old(self)@ }),
    {
        self.rss = rss;
    }
}

/// The records of a list of processes.
pub open spec fn views_of(list: Seq<Process>) -> Seq<ProcessView> {
    Seq::new(list.len(), |i: int| list[i]@)
}

} // verus!
