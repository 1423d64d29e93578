//! The table of processes.

use vstd::prelude::*;
use crate::accounting::{files_of, parse_stat, parse_status, AccountingFile, FileKind};
use crate::cpu::{create_cpu_vector, grand_total, total_of_counters};
use crate::error::Error;
use crate::mem::{get_total_mem_info, kb_of};
use crate::merge::{after_files, cpu_merge, mem_merge, with_cpu, with_mem};
use crate::order::{is_sorted_form_of, sort_desc};
use crate::percent::Percent;
use crate::process::{views_of, Process, ProcessView};
use crate::records::{
    distinct_pids,
    lemma_place_is,
    lemma_place_of,
    lemma_replace_keeps_distinct,
    place_of,
};

verus! {

/// The table of processes, one record for each process id, with the grand total of
/// processor time at the last scan and its growth since the scan before.
#[derive(Debug)]
pub struct ProcessInfo {
    processes: Vec<Process>,
    cpu_time_diff: i128,
    current_cpu_time: u64,
    total_mem: u64,
}

impl ProcessInfo {
    /// The records of the table, in the order of the list.
    pub closed spec fn records(&self) -> Seq<ProcessView> {
        views_of(self.processes@)
    }

    /// The growth of the grand total of processor time between the last two scans.
    pub closed spec fn time_diff(&self) -> int {
        self.cpu_time_diff as int
    }

    /// The grand total of processor time at the last scan.
    pub closed spec fn cpu_time(&self) -> int {
        self.current_cpu_time as int
    }

    /// The memory of the machine, in kilobytes.
    pub closed spec fn memory(&self) -> u64 {
        self.total_mem
    }

    /// The invariant of the type: one record for each process id, and a growth that is
    /// the difference of two grand totals.
    pub open spec fn wf(&self) -> bool {
        &&& distinct_pids(self.records())
        &&& -(u64::MAX as int) <= self.time_diff() <= u64::MAX as int
    }

    /// Where the record of the process `pid` stands in the list, if there is one.
    fn find(&self, pid: i32) -> (at: Option<usize>)
        ensures
            match at {
                Some(i) => i < self.records().len() && i == place_of(self.records(), pid),
                None => place_of(self.records(), pid) == self.records().len(),
            },
    {
        let mut i: usize = 0;
        while i < self.processes.len()
            invariant
                i <= self.processes.len(),
                forall|k: int| 0 <= k < i ==> (#[trigger] self.records()[k]).pid != pid,
            decreases self.processes.len() - i,
        {
            if self.processes[i].pid == pid {
                proof {
                    assert(self.records()[i as int].pid == pid);
                    lemma_place_is(self.records(), pid, i as int);
                }
                return Some(i);
            }
            proof {
                assert(self.records()[i as int].pid != pid);
            }
            i += 1;
        }
        proof {
            lemma_place_is(self.records(), pid, i as int);
        }
        None
    }

    /// A table without records on a machine whose memory `mem_file` gives.
    pub fn new(mem_file: &str) -> (r: Result<ProcessInfo, Error>)
        ensures
            match r {
                Ok(table) => {
                    &&& kb_of(mem_file@, "MemTotal"@) == Ok::<u64, Error>(table.memory())
                    &&& table.wf()
                    &&& table.records() == Seq::<ProcessView>::empty()
                    &&& table.time_diff() == 0
                    &&& table.cpu_time() == 0
                },
                Err(e) => kb_of(mem_file@, "MemTotal"@) == Err::<u64, Error>(e),
            },
    {
        let total_mem = get_total_mem_info(mem_file)?;
        Ok(ProcessInfo::with_memory(total_mem))
    }

    /// A table without records on a machine with `total_mem` kilobytes of memory.
    pub fn with_memory(total_mem: u64) -> (table: ProcessInfo)
        ensures
            table.wf(),
            table.memory() == total_mem,
            table.records() == Seq::<ProcessView>::empty(),
            table.time_diff() == 0,
            table.cpu_time() == 0,
    {
        let table = ProcessInfo {
            processes: Vec::new(),
            cpu_time_diff: 0,
            current_cpu_time: 0,
            total_mem,
        };
        proof {
            assert(table.records() =~= Seq::<ProcessView>::empty());
        }
        table
    }

    /// Starts a scan at the grand total `total`: takes it, and its growth since the scan
    /// before.
    pub fn start_scan(&mut self, total: u64)
        requires
            old(self).wf(),
        ensures
            final(self).wf(),
            final(self).records() == old(self).records(),
            final(self).memory() == old(self).memory(),
            final(self).cpu_time() == total,
            final(self).time_diff() == total - old(self).cpu_time(),
    {
        self.cpu_time_diff = total as i128 - self.current_cpu_time as i128;
        self.current_cpu_time = total;
    }

    /// The processes of the table, in the order of the list.
    pub fn get_processes(&self) -> (list: &Vec<Process>)
        ensures
            views_of(list@) == self.records(),
    {
        &self.processes
    }

    /// The grand total of processor time that `cpu_file` gives.
    pub fn get_cpu_info(&mut self, cpu_file: &str) -> (r: Result<u64, Error>)
        ensures
            *final(self) == *old(self),
            r == grand_total(cpu_file@),
    {
        let counters = create_cpu_vector(cpu_file)?;
        match total_of_counters(&counters) {
            Some(total) => Ok(total),
            None => Err(Error::MalformedContent),
        }
    }

    /// Starts a scan: takes the grand total that `cpu_file` gives, and its growth since
    /// the scan before. Where the file gives none, nothing changes.
    pub fn update_cpu_diff(&mut self, cpu_file: &str) -> (r: Result<(), Error>)
        requires
            old(self).wf(),
        ensures
            final(self).wf(),
            final(self).records() == old(self).records(),
            final(self).memory() == old(self).memory(),
            match grand_total(cpu_file@) {
                Ok(total) => {
                    &&& r is Ok
                    &&& final(self).cpu_time() == total
                    &&& final(self).time_diff() == total - old(self).cpu_time()
                },
                Err(e) => {
                    &&& r == Err::<(), Error>(e)
                    &&& final(self).cpu_time() == old(self).cpu_time()
                    &&& final(self).time_diff() == old(self).time_diff()
                },
            },
    {
        let total = self.get_cpu_info(cpu_file)?;
        self.start_scan(total);
        Ok(())
    }

    /// Merges the text of a stat file into the table. Where the text gives no record, or
    /// the record no share, nothing changes.
    pub fn get_cpu_data(&mut self, contents: &str) -> (r: Result<(), Error>)
        requires
            old(self).wf(),
        ensures
            final(self).wf(),
            final(self).time_diff() == old(self).time_diff(),
            final(self).cpu_time() == old(self).cpu_time(),
            final(self).memory() == old(self).memory(),
            match cpu_merge(old(self).records(), old(self).time_diff(), contents@) {
                Ok(merged) => r is Ok && final(self).records() == merged,
                Err(e) => r == Err::<(), Error>(e) && final(self).records() == old(self).records(),
            },
    {
        let process = parse_stat(contents)?;
        self.add_cpu_info_to_processes(process)
    }

    /// Merges the text of a status file into the table. Where the text gives no record,
    /// nothing changes.
    pub fn get_proccess_mem(&mut self, contents: &str) -> (r: Result<(), Error>)
        requires
            old(self).wf(),
        ensures
            final(self).wf(),
            final(self).time_diff() == old(self).time_diff(),
            final(self).cpu_time() == old(self).cpu_time(),
            final(self).memory() == old(self).memory(),
            match mem_merge(old(self).records(), old(self).memory(), contents@) {
                Ok(merged) => r is Ok && final(self).records() == merged,
                Err(e) => r == Err::<(), Error>(e) && final(self).records() == old(self).records(),
            },
    {
        let process = parse_status(contents, self.total_mem)?;
        self.add_mem_info_to_processes(process)
    }

    /// Merges the accounting files of a walk into the table, each in its turn. A file
    /// that gives no merge is passed over.
    pub fn read_dirs(&mut self, files: &Vec<AccountingFile>)
        requires
            old(self).wf(),
        ensures
            final(self).wf(),
            final(self).time_diff() == old(self).time_diff(),
            final(self).cpu_time() == old(self).cpu_time(),
            final(self).memory() == old(self).memory(),
            final(self).records() == after_files(
                old(self).records(),
                old(self).time_diff(),
                old(self).memory(),
                files_of(files@),
            ),
    {
        let ghost all = files_of(files@);
        let mut i: usize = 0;
        proof {
            assert(all.take(0) =~= Seq::<(FileKind, Seq<char>)>::empty());
        }
        while i < files.len()
            invariant
                i <= files.len(),
                all == files_of(files@),
                self.wf(),
                self.time_diff() == old(self).time_diff(),
                self.cpu_time() == old(self).cpu_time(),
                self.memory() == old(self).memory(),
                self.records() == after_files(
                    old(self).records(),
                    old(self).time_diff(),
                    old(self).memory(),
                    all.take(i as int),
                ),
            decreases files.len() - i,
        {
            proof {
                let next = all.take(i + 1);
                assert(next.drop_last() =~= all.take(i as int));
                assert(next.last() == files@[i as int]@);
            }
            let file = &files[i];
            let _ = match file.kind {
                FileKind::CpuStat => self.get_cpu_data(file.contents.as_str()),
                FileKind::MemStatus => self.get_proccess_mem(file.contents.as_str()),
            };
            i += 1;
        }
        proof {
            assert(all.take(files.len() as int) =~= all);
        }
    }

    /// Orders the records by their share of processor time, the largest first.
    pub fn sort_by_cpu(&mut self)
        requires
            old(self).wf(),
        ensures
            final(self).wf(),
            final(self).time_diff() == old(self).time_diff(),
            final(self).cpu_time() == old(self).cpu_time(),
            final(self).memory() == old(self).memory(),
            is_sorted_form_of(final(self).records(), old(self).records()),
    {
        sort_desc(&mut self.processes);
    }

    /// One scan: the grand total that `cpu_file` gives is taken, the accounting files
    /// of the walk are merged, and the records are ordered. Where `cpu_file` gives no
    /// grand total, nothing changes.
    pub fn update(&mut self, cpu_file: &str, files: &Vec<AccountingFile>) -> (r: Result<(), Error>)
        requires
            old(self).wf(),
        ensures
            final(self).wf(),
            final(self).memory() == old(self).memory(),
            match grand_total(cpu_file@) {
                Ok(total) => {
                    &&& r is Ok
                    &&& final(self).cpu_time() == total
                    &&& final(self).time_diff() == total - old(self).cpu_time()
                    &&& is_sorted_form_of(
                        final(self).records(),
                        after_files(
                            old(self).records(),
                            total - old(self).cpu_time(),
                            old(self).memory(),
                            files_of(files@),
                        ),
                    )
                },
                Err(e) => {
                    &&& r == Err::<(), Error>(e)
                    &&& final(self).cpu_time() == old(self).cpu_time()
                    &&& final(self).time_diff() == old(self).time_diff()
                    &&& final(self).records() == old(self).records()
                },
            },
    {
        self.update_cpu_diff(cpu_file)?;
        self.read_dirs(files);
        self.sort_by_cpu();
        Ok(())
    }

    /// Merges the processor times of `process` into the table.
    pub fn add_cpu_info_to_processes(&mut self, process: Process) -> (r: Result<(), Error>)
        requires
            old(self).wf(),
        ensures
            final(self).wf(),
            final(self).time_diff() == old(self).time_diff(),
            final(self).cpu_time() == old(self).cpu_time(),
            final(self).memory() == old(self).memory(),
            match with_cpu(old(self).records(), old(self).time_diff(), process@) {
                Ok(merged) => r is Ok && final(self).records() == merged,
                Err(e) => r == Err::<(), Error>(e) && final(self).records() == old(self).records(),
            },
    {
        let ghost before = self.records();
        let mut process = process;
        match self.find(process.pid) {
            Some(at) => {
                if self.cpu_time_diff == 0 {
                    return Err(Error::DegenerateComputation);
                }
                let known = self.processes.remove(at);
                let percent = Percent::new(
                    100 * (process.total_time as i128 - known.total_time as i128),
                    self.cpu_time_diff,
                );
                process.set_cpu_percent(percent);
                process.set_rss(known.rss);
                process.set_mem_percent(known.mem_percent);
                self.processes.push(process);
                proof {
                    lemma_place_of(before, process.pid);
                    assert(known@ == before[at as int]);
                    assert(self.records() =~= before.remove(at as int).push(process@));
                    lemma_replace_keeps_distinct(before, at as int, process@);
                }
            },
            None => {
                self.processes.push(process);
                proof {
                    assert(self.records() =~= before.push(process@));
                    lemma_place_of(before, process.pid);
                }
            },
        }
        Ok(())
    }

    /// Merges the memory of `process` into the table.
    pub fn add_mem_info_to_processes(&mut self, process: Process) -> (r: Result<(), Error>)
        requires
            old(self).wf(),
        ensures
            final(self).wf(),
            r is Ok,
            final(self).time_diff() == old(self).time_diff(),
            final(self).cpu_time() == old(self).cpu_time(),
            final(self).memory() == old(self).memory(),
            final(self).records() == with_mem(old(self).records(), process@),
    {
        let ghost before = self.records();
        let mut process = process;
        match self.find(process.pid) {
            Some(at) => {
                let known = self.processes.remove(at);
                process.set_stime(known.stime);
                process.set_utime(known.utime);
                process.set_total_time(known.total_time);
                process.set_cpu_percent(known.cpu_percent);
                self.processes.push(process);
                proof {
                    lemma_place_of(before, process.pid);
                    assert(known@ == before[at as int]);
                    assert(self.records() =~= before.remove(at as int).push(process@));
                    lemma_replace_keeps_distinct(before, at as int, process@);
                }
            },
            None => {
                self.processes.push(process);
                proof {
                    assert(self.records() =~= before.push(process@));
                    lemma_place_of(before, process.pid);
                }
            },
        }
        Ok(())
    }
}

} // verus!
