//! The merging of what is observed of a process into the list of records.
//!
//! The two accounting files of a process are read at different moments of a walk. What
//! one of them gives is merged into the record that the other left: a record is never
//! replaced by one half of what is known.

use vstd::prelude::*;
use crate::accounting::{
    mem_share,
    pid_of,
    resident_of,
    stat_record,
    status_record,
    value_of,
    without_parens,
    FileKind,
};
use crate::number::{parsed_i32, parsed_u64};
use crate::error::Error;
use crate::percent::Percent;
use crate::process::{zero_percent, ProcessView};
use crate::records::{
    distinct_pids,
    lemma_place_of,
    lemma_record_at_end,
    lemma_record_of_after_push,
    lemma_record_of_after_replace,
    lemma_replace_keeps_distinct,
    place_of,
    record_of,
};
use crate::text::words_of;

verus! {

/// The share of processor time of a process whose total went from `known` to `total`
/// while the grand total of the machine grew by `diff`: a hundred times the one
/// difference, over the other.
pub open spec fn cpu_share(known: u64, total: u64, diff: int) -> Percent {
    Percent { numer: (100 * (total - known)) as i128, denom: diff as i128 }
}

/// The list after the processor times of `incoming` are merged into it. A process that
/// has no record gets `incoming` as it is. One that has a record gets, in its place and
/// at the end of the list, `incoming` with its share of processor time, and with the
/// memory that the record held. Where the grand total did not move there is no share,
/// and no merge.
pub open spec fn with_cpu(records: Seq<ProcessView>, diff: int, incoming: ProcessView) -> Result<
    Seq<ProcessView>,
    Error,
> {
    let at = place_of(records, incoming.pid);
    if !(0 <= at < records.len()) {
        Ok(records.push(incoming))
    } else if diff == 0 {
        Err(Error::DegenerateComputation)
    } else {
        let known = records[at];
        Ok(
            records.remove(at).push(
                ProcessView {
                    cpu_percent: cpu_share(known.total_time, incoming.total_time, diff),
                    rss: known.rss,
                    mem_percent: known.mem_percent,
                    ..incoming
                },
            ),
        )
    }
}

/// The list after the memory of `incoming` is merged into it. A process that has no
/// record gets `incoming` as it is. One that has a record gets, in its place and at the
/// end of the list, `incoming` with the processor times and the share of them that the
/// record held.
pub open spec fn with_mem(records: Seq<ProcessView>, incoming: ProcessView) -> Seq<ProcessView> {
    let at = place_of(records, incoming.pid);
    if !(0 <= at < records.len()) {
        records.push(incoming)
    } else {
        let known = records[at];
        records.remove(at).push(
            ProcessView {
                utime: known.utime,
                stime: known.stime,
                total_time: known.total_time,
                cpu_percent: known.cpu_percent,
                ..incoming
            },
        )
    }
}

/// The list after the text of a stat file is merged into it; none where the text gives
/// no record or the record no share.
pub open spec fn cpu_merge(records: Seq<ProcessView>, diff: int, text: Seq<char>) -> Result<
    Seq<ProcessView>,
    Error,
> {
    match stat_record(text) {
        Ok(incoming) => with_cpu(records, diff, incoming),
        Err(e) => Err(e),
    }
}

/// The list after the text of a status file is merged into it; none where the text
/// gives no record.
pub open spec fn mem_merge(records: Seq<ProcessView>, total_mem: u64, text: Seq<char>) -> Result<
    Seq<ProcessView>,
    Error,
> {
    match status_record(text, total_mem) {
        Ok(incoming) => Ok(with_mem(records, incoming)),
        Err(e) => Err(e),
    }
}

/// The list after one accounting file of a walk: the merge of the file, and the list as
/// it was where the file gives none.
pub open spec fn after_file(
    records: Seq<ProcessView>,
    diff: int,
    total_mem: u64,
    file: (FileKind, Seq<char>),
) -> Seq<ProcessView> {
    let merged = match file.0 {
        FileKind::CpuStat => cpu_merge(records, diff, file.1),
        FileKind::MemStatus => mem_merge(records, total_mem, file.1),
    };
    match merged {
        Ok(list) => list,
        Err(_) => records,
    }
}

/// The list after the accounting files of a walk, each merged in its turn.
pub open spec fn after_files(
    records: Seq<ProcessView>,
    diff: int,
    total_mem: u64,
    files: Seq<(FileKind, Seq<char>)>,
) -> Seq<ProcessView>
    decreases files.len(),
{
    if files.len() == 0 {
        records
    } else {
        after_file(after_files(records, diff, total_mem, files.drop_last()), diff, total_mem, files.last())
    }
}

/// A merge of processor times leaves a list of distinct process ids one, with the
/// merged record of the process at its end.
pub proof fn lemma_with_cpu(records: Seq<ProcessView>, diff: int, incoming: ProcessView)
    requires
        distinct_pids(records),
        with_cpu(records, diff, incoming) is Ok,
    ensures
        ({
            let merged = with_cpu(records, diff, incoming)->Ok_0;
            &&& distinct_pids(merged)
            &&& merged.len() > 0
            &&& merged.last().pid == incoming.pid
            &&& record_of(merged, incoming.pid) == Some(merged.last())
            &&& merged.len() == if record_of(records, incoming.pid) is Some {
                records.len()
            } else {
                records.len() + 1
            }
        }),
{
    let merged = with_cpu(records, diff, incoming)->Ok_0;
    let at = place_of(records, incoming.pid);
    lemma_place_of(records, incoming.pid);
    if 0 <= at < records.len() {
        lemma_replace_keeps_distinct(records, at, merged.last());
    } else {
        assert forall|i: int, j: int| 0 <= i < merged.len() && 0 <= j < merged.len() && i
            != j implies (#[trigger] merged[i]).pid != (#[trigger] merged[j]).pid by {
            if i < records.len() {
                assert(merged[i] == records[i]);
            }
            if j < records.len() {
                assert(merged[j] == records[j]);
            }
        }
    }
    lemma_record_at_end(merged, incoming.pid);
}

/// A merge of memory leaves a list of distinct process ids one, with the merged record
/// of the process at its end.
pub proof fn lemma_with_mem(records: Seq<ProcessView>, incoming: ProcessView)
    requires
        distinct_pids(records),
    ensures
        ({
            let merged = with_mem(records, incoming);
            &&& distinct_pids(merged)
            &&& merged.len() > 0
            &&& merged.last().pid == incoming.pid
            &&& record_of(merged, incoming.pid) == Some(merged.last())
            &&& merged.len() == if record_of(records, incoming.pid) is Some {
                records.len()
            } else {
                records.len() + 1
            }
        }),
{
    let merged = with_mem(records, incoming);
    let at = place_of(records, incoming.pid);
    lemma_place_of(records, incoming.pid);
    if 0 <= at < records.len() {
        lemma_replace_keeps_distinct(records, at, merged.last());
    } else {
        assert forall|i: int, j: int| 0 <= i < merged.len() && 0 <= j < merged.len() && i
            != j implies (#[trigger] merged[i]).pid != (#[trigger] merged[j]).pid by {
            if i < records.len() {
                assert(merged[i] == records[i]);
            }
            if j < records.len() {
                assert(merged[j] == records[j]);
            }
        }
    }
    lemma_record_at_end(merged, incoming.pid);
}

/// The text of a stat file that is merged for a process without a record gives the
/// process a record with a share of zero. A second text for the same process, merged
/// after it, gives a share that the two totals of the texts and the growth of the grand
/// total determine: a hundred times the growth of the process's total, over the growth
/// of the grand total. Where the grand total did not move, the second merge fails.
pub proof fn lemma_cpu_merge_twice(
    records: Seq<ProcessView>,
    first_diff: int,
    first: Seq<char>,
    second_diff: int,
    second: Seq<char>,
)
    requires
        distinct_pids(records),
        stat_record(first) is Ok,
        stat_record(second) is Ok,
        stat_record(first)->Ok_0.pid == stat_record(second)->Ok_0.pid,
        record_of(records, stat_record(first)->Ok_0.pid) is None,
    ensures
        ({
            let one = stat_record(first)->Ok_0;
            let two = stat_record(second)->Ok_0;
            &&& cpu_merge(records, first_diff, first) matches Ok(once)
            &&& record_of(once, one.pid) matches Some(seen)
            &&& seen.cpu_percent == zero_percent()
            &&& seen.total_time == one.total_time
            &&& if second_diff == 0 {
                cpu_merge(once, second_diff, second) == Err::<Seq<ProcessView>, Error>(
                    Error::DegenerateComputation,
                )
            } else {
                &&& cpu_merge(once, second_diff, second) matches Ok(twice)
                &&& record_of(twice, one.pid) matches Some(again)
                &&& again.cpu_percent == cpu_share(one.total_time, two.total_time, second_diff)
                &&& twice.len() == once.len()
            }
        }),
{
    let one = stat_record(first)->Ok_0;
    let two = stat_record(second)->Ok_0;
    lemma_with_cpu(records, first_diff, one);
    let once = with_cpu(records, first_diff, one)->Ok_0;
    if second_diff != 0 {
        lemma_with_cpu(once, second_diff, two);
    }
}

/// A merge of memory keeps what a process's record holds of processor time: the two
/// times, their total, and the share.
pub proof fn lemma_mem_merge_keeps_cpu(records: Seq<ProcessView>, incoming: ProcessView)
    requires
        distinct_pids(records),
        record_of(records, incoming.pid) is Some,
    ensures
        ({
            let known = record_of(records, incoming.pid)->0;
            &&& record_of(with_mem(records, incoming), incoming.pid) matches Some(merged)
            &&& merged.cpu_percent == known.cpu_percent
            &&& merged.utime == known.utime
            &&& merged.stime == known.stime
            &&& merged.total_time == known.total_time
            &&& merged.rss == incoming.rss
            &&& merged.mem_percent == incoming.mem_percent
        }),
{
    lemma_with_mem(records, incoming);
}

/// A merge of processor times keeps what a process's record holds of memory: the
/// resident memory and its share.
pub proof fn lemma_cpu_merge_keeps_mem(records: Seq<ProcessView>, diff: int, incoming: ProcessView)
    requires
        distinct_pids(records),
        record_of(records, incoming.pid) is Some,
        diff != 0,
    ensures
        ({
            let known = record_of(records, incoming.pid)->0;
            &&& with_cpu(records, diff, incoming) matches Ok(list)
            &&& record_of(list, incoming.pid) matches Some(merged)
            &&& merged.mem_percent == known.mem_percent
            &&& merged.rss == known.rss
            &&& merged.utime == incoming.utime
            &&& merged.stime == incoming.stime
            &&& merged.total_time == incoming.total_time
        }),
{
    lemma_with_cpu(records, diff, incoming);
}

/// A merge leaves the records of every other process as they were.
pub proof fn lemma_merge_keeps_others(
    records: Seq<ProcessView>,
    diff: int,
    incoming: ProcessView,
    pid: i32,
)
    requires
        distinct_pids(records),
        incoming.pid != pid,
    ensures
        record_of(with_mem(records, incoming), pid) == record_of(records, pid),
        with_cpu(records, diff, incoming) matches Ok(merged) ==> record_of(merged, pid)
            == record_of(records, pid),
{
    let at = place_of(records, incoming.pid);
    lemma_place_of(records, incoming.pid);
    if 0 <= at < records.len() {
        lemma_record_of_after_replace(records, at, with_mem(records, incoming).last(), pid);
        if diff != 0 {
            let merged = with_cpu(records, diff, incoming)->Ok_0;
            lemma_record_of_after_replace(records, at, merged.last(), pid);
        }
    } else {
        lemma_record_of_after_push(records, incoming, pid);
    }
}

/// The text of a stat file whose first word is a process id without a record, and whose
/// fourteenth and fifteenth words are counters with a sum that is a counter, gives the
/// list one record more: that of the process, with the two times, their sum as the
/// total, no memory and both shares at zero. No other record is of the process.
pub proof fn lemma_first_stat_merge(records: Seq<ProcessView>, diff: int, text: Seq<char>)
    requires
        distinct_pids(records),
        words_of(text).len() >= 15,
        parsed_i32(words_of(text)[0]) is Some,
        parsed_u64(words_of(text)[13]) is Some,
        parsed_u64(words_of(text)[14]) is Some,
        parsed_u64(words_of(text)[13])->0 + parsed_u64(words_of(text)[14])->0 <= u64::MAX,
        record_of(records, parsed_i32(words_of(text)[0])->0) is None,
    ensures
        ({
            let words = words_of(text);
            let pid = parsed_i32(words[0])->0;
            let utime = parsed_u64(words[13])->0;
            let stime = parsed_u64(words[14])->0;
            &&& cpu_merge(records, diff, text) matches Ok(merged)
            &&& merged.len() == records.len() + 1
            &&& distinct_pids(merged)
            &&& merged == records.push(merged.last())
            &&& record_of(merged, pid) == Some(merged.last())
            &&& merged.last() == (ProcessView {
                pid,
                process_name: without_parens(words[2]),
                state: without_parens(words[1]),
                utime,
                stime,
                total_time: (utime + stime) as u64,
                mem_percent: zero_percent(),
                cpu_percent: zero_percent(),
                rss: 0,
            })
        }),
{
    let incoming = stat_record(text)->Ok_0;
    lemma_with_cpu(records, diff, incoming);
}

/// Whatever the text of a status file holds, its merge leaves to each process that has a
/// record what the record holds of processor time: the two times, their total, and the
/// share. Where the text is of the process itself, with its lines in order, on a machine
/// that has memory, the record takes the resident memory of the text and its share of
/// the machine's memory, and the name and the state of the text.
pub proof fn lemma_status_merge_keeps_cpu(
    records: Seq<ProcessView>,
    diff: int,
    total_mem: u64,
    text: Seq<char>,
    pid: i32,
)
    requires
        distinct_pids(records),
        record_of(records, pid) is Some,
    ensures
        ({
            let known = record_of(records, pid)->0;
            let after = after_file(records, diff, total_mem, (FileKind::MemStatus, text));
            &&& record_of(after, pid) matches Some(merged)
            &&& merged.cpu_percent == known.cpu_percent
            &&& merged.utime == known.utime
            &&& merged.stime == known.stime
            &&& merged.total_time == known.total_time
            &&& (pid_of(text) == Ok::<i32, Error>(pid) && resident_of(text) is Ok && value_of(
                text,
                "State"@,
            ) is Ok && value_of(text, "Name"@) is Ok && total_mem != 0) ==> {
                &&& mem_merge(records, total_mem, text) is Ok
                &&& merged.rss == resident_of(text)->Ok_0
                &&& merged.mem_percent == mem_share(resident_of(text)->Ok_0, total_mem)
                &&& merged.state == value_of(text, "State"@)->Ok_0
                &&& merged.process_name == value_of(text, "Name"@)->Ok_0
            }
        }),
{
    match status_record(text, total_mem) {
        Ok(incoming) => {
            if incoming.pid == pid {
                lemma_with_mem(records, incoming);
            } else {
                lemma_merge_keeps_others(records, diff, incoming, pid);
            }
        },
        Err(_) => {},
    }
}

/// Whatever the text of a stat file holds, its merge leaves to each process that has a
/// record what the record holds of memory: the resident memory and its share.
pub proof fn lemma_stat_merge_keeps_mem(
    records: Seq<ProcessView>,
    diff: int,
    total_mem: u64,
    text: Seq<char>,
    pid: i32,
)
    requires
        distinct_pids(records),
        record_of(records, pid) is Some,
    ensures
        ({
            let known = record_of(records, pid)->0;
            let after = after_file(records, diff, total_mem, (FileKind::CpuStat, text));
            &&& record_of(after, pid) matches Some(merged)
            &&& merged.mem_percent == known.mem_percent
            &&& merged.rss == known.rss
        }),
{
    match stat_record(text) {
        Ok(incoming) => {
            if incoming.pid == pid {
                if diff != 0 {
                    lemma_with_cpu(records, diff, incoming);
                }
            } else {
                lemma_merge_keeps_others(records, diff, incoming, pid);
            }
        },
        Err(_) => {},
    }
}

} // verus!
