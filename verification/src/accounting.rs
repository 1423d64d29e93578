//! The two accounting files of a process, read into records.
//!
//! The stat file is one line of words; the status file has one line for each key.

use vstd::prelude::*;
use crate::error::Error;
use crate::number::{parse_i32, parse_u64, parsed_i32, parsed_u64};
use crate::percent::Percent;
use crate::process::{zero_percent, Process, ProcessView};
use crate::text::{
    chars_of,
    get_line_from_file,
    split_whitespace,
    views,
    words_of,
    words_of_line_with,
};

verus! {

/// Which of the two accounting files of a process a text is.
#[derive(Clone, Copy, Debug, PartialEq, Eq, Structural)]
pub enum FileKind {
    /// The stat file, with the processor times.
    CpuStat,
    /// The status file, with the resident memory.
    MemStatus,
}

/// The text of an accounting file that a walk found, with its kind.
#[derive(Debug)]
pub struct AccountingFile {
    pub kind: FileKind,
    pub contents: String,
}

impl View for AccountingFile {
    type V = (FileKind, Seq<char>);

    open spec fn view(&self) -> (FileKind, Seq<char>) {
        (self.kind, self.contents@)
    }
}

/// The kinds and texts of a list of accounting files.
pub open spec fn files_of(list: Seq<AccountingFile>) -> Seq<(FileKind, Seq<char>)> {
    Seq::new(list.len(), |i: int| list[i]@)
}

/// `s` without its round brackets.
pub open spec fn without_parens(s: Seq<char>) -> Seq<char> {
    s.filter(|c: char| c != '(' && c != ')')
}

/// `token` without its round brackets.
pub fn strip_parens(token: &str) -> (out: String)
    ensures
        out@ == without_parens(token@),
{
    let cs = chars_of(token);
    let mut out = String::new();
    let ghost keep = |c: char| c != '(' && c != ')';
    let mut i: usize = 0;
    proof {
        reveal(Seq::filter);
        assert(token@.take(0).filter(keep) =~= Seq::<char>::empty());
    }
    while i < cs.len()
        invariant
            cs@ == token@,
            i <= cs.len(),
            keep == |c: char| c != '(' && c != ')',
            out@ == token@.take(i as int).filter(keep),
        decreases cs.len() - i,
    {
        let c = cs[i];
        proof {
            reveal(Seq::filter);
            let next = token@.take(i + 1);
            assert(next.drop_last() =~= token@.take(i as int));
            assert(next.last() == c);
        }
        if c != '(' && c != ')' {
            let one = token.substring_char(i, i + 1);
            proof {
                assert(one@ =~= seq![c]);
                assert(out@ + one@ =~= out@.push(c));
            }
            out.append(one);
        }
        i += 1;
    }
    proof {
        assert(token@.take(cs.len() as int) =~= token@);
    }
    out
}

/// The record that the text of a stat file gives. Of its words, the first is the process
/// id, the second the state and the third the name, both without round brackets, the
/// fourteenth the time in user mode and the fifteenth the time in system mode. The total
/// is the sum of the two times. There is no record where a word is missing, where one of
/// the three numbers is none, or where the sum is no counter.
pub open spec fn stat_record(text: Seq<char>) -> Result<ProcessView, Error> {
    let words = words_of(text);
    if words.len() < 15 {
        Err(Error::MalformedContent)
    } else {
        match (parsed_i32(words[0]), parsed_u64(words[13]), parsed_u64(words[14])) {
            (Some(pid), Some(utime), Some(stime)) => if utime + stime > u64::MAX {
                Err(Error::MalformedContent)
            } else {
                Ok(
                    ProcessView {
                        pid,
                        process_name: without_parens(words[2]),
                        state: without_parens(words[1]),
                        utime,
                        stime,
                        total_time: (utime + stime) as u64,
                        mem_percent: zero_percent(),
                        cpu_percent: zero_percent(),
                        rss: 0,
                    },
                )
            },
            _ => Err(Error::MalformedContent),
        }
    }
}

/// The record of a stat file has the sum of its two times as its total, and nothing of
/// memory and no share yet.
pub proof fn lemma_stat_record(text: Seq<char>)
    requires
        stat_record(text) is Ok,
    ensures
        ({
            let record = stat_record(text)->Ok_0;
            &&& record.total_time == record.utime + record.stime
            &&& record.cpu_percent == zero_percent()
            &&& record.mem_percent == zero_percent()
            &&& record.rss == 0
        }),
{
}

/// Reads the text of a stat file into a record.
pub fn parse_stat(contents: &str) -> (r: Result<Process, Error>)
    ensures
        match r {
            Ok(p) => stat_record(contents@) == Ok::<ProcessView, Error>(p@),
            Err(e) => stat_record(contents@) == Err::<ProcessView, Error>(e),
        },
{
    let words = split_whitespace(contents);
    if words.len() < 15 {
        return Err(Error::MalformedContent);
    }
    proof {
        assert(views(words@)[0] == words@[0]@);
        assert(views(words@)[1] == words@[1]@);
        assert(views(words@)[2] == words@[2]@);
        assert(views(words@)[13] == words@[13]@);
        assert(views(words@)[14] == words@[14]@);
    }
    let pid = match parse_i32(words[0]) {
        Some(pid) => pid,
        None => {
            return Err(Error::MalformedContent);
        },
    };
    let utime = match parse_u64(words[13]) {
        Some(utime) => utime,
        None => {
            return Err(Error::MalformedContent);
        },
    };
    let stime = match parse_u64(words[14]) {
        Some(stime) => stime,
        None => {
            return Err(Error::MalformedContent);
        },
    };
    if stime > u64::MAX - utime {
        return Err(Error::MalformedContent);
    }
    let state = strip_parens(words[1]);
    let process_name = strip_parens(words[2]);
    Ok(Process::new(pid, state, process_name, utime, stime, 0))
}

/// The resident memory that the text of a status file gives, in kilobytes: the second
/// word of the first line with `VmRSS`, and zero where no line has it.
pub open spec fn resident_of(text: Seq<char>) -> Result<u64, Error> {
    match words_of_line_with(text, "VmRSS"@) {
        None => Ok(0),
        Some(words) => if words.len() < 2 {
            Err(Error::MalformedContent)
        } else {
            match parsed_u64(words[1]) {
                Some(rss) => Ok(rss),
                None => Err(Error::MalformedContent),
            }
        },
    }
}

/// The process id that the text of a status file gives: the second word of the first
/// line with `Pid`.
pub open spec fn pid_of(text: Seq<char>) -> Result<i32, Error> {
    match words_of_line_with(text, "Pid"@) {
        None => Err(Error::MalformedContent),
        Some(words) => if words.len() < 2 {
            Err(Error::MalformedContent)
        } else {
            match parsed_i32(words[1]) {
                Some(pid) => Ok(pid),
                None => Err(Error::MalformedContent),
            }
        },
    }
}

/// The value that `text` gives under `key`: the second word of the first line in which
/// `key` stands, the word after the label. There is none where no line has the key, nor
/// where the line has no second word.
pub open spec fn value_of(text: Seq<char>, key: Seq<char>) -> Result<Seq<char>, Error> {
    match words_of_line_with(text, key) {
        None => Err(Error::MalformedContent),
        Some(words) => if words.len() < 2 {
            Err(Error::MalformedContent)
        } else {
            Ok(words[1])
        },
    }
}

/// The share of the machine's memory that is resident for a process, in percent: a
/// hundred times the resident memory, over the memory of the machine.
pub open spec fn mem_share(rss: u64, total_mem: u64) -> Percent {
    Percent { numer: (100 * rss) as i128, denom: total_mem as i128 }
}

/// The record that the text of a status file gives on a machine with `total_mem`
/// kilobytes of memory. The resident memory is that under `VmRSS`, the process id that
/// under `Pid`, the state the value under `State` and the name the value under `Name`:
/// of `State:\tS (sleeping)` the state is `S`. The processor times are zero. There is
/// no record where one of the three lines is missing or lacks its value, or a number
/// is none, nor, after that, where the machine has no memory.
pub open spec fn status_record(text: Seq<char>, total_mem: u64) -> Result<ProcessView, Error> {
    match (resident_of(text), pid_of(text), value_of(text, "State"@), value_of(text, "Name"@)) {
        (Ok(rss), Ok(pid), Ok(state), Ok(name)) => if total_mem == 0 {
            Err(Error::DegenerateComputation)
        } else {
            Ok(
                ProcessView {
                    pid,
                    process_name: name,
                    state,
                    utime: 0,
                    stime: 0,
                    total_time: 0,
                    mem_percent: mem_share(rss, total_mem),
                    cpu_percent: zero_percent(),
                    rss,
                },
            )
        },
        _ => Err(Error::MalformedContent),
    }
}

/// Reads the resident memory in the text of a status file.
fn read_resident(contents: &str) -> (r: Result<u64, Error>)
    ensures
        r == resident_of(contents@),
{
    match get_line_from_file(contents, "VmRSS") {
        None => Ok(0),
        Some(words) => {
            if words.len() < 2 {
                return Err(Error::MalformedContent);
            }
            proof {
                assert(views(words@)[1] == words@[1]@);
            }
            match parse_u64(words[1]) {
                Some(rss) => Ok(rss),
                None => Err(Error::MalformedContent),
            }
        },
    }
}

/// Reads the process id in the text of a status file.
fn read_pid(contents: &str) -> (r: Result<i32, Error>)
    ensures
        r == pid_of(contents@),
{
    match get_line_from_file(contents, "Pid") {
        None => Err(Error::MalformedContent),
        Some(words) => {
            if words.len() < 2 {
                return Err(Error::MalformedContent);
            }
            proof {
                assert(views(words@)[1] == words@[1]@);
            }
            match parse_i32(words[1]) {
                Some(pid) => Ok(pid),
                None => Err(Error::MalformedContent),
            }
        },
    }
}

/// Reads the value that `contents` gives under `key`.
fn read_value(contents: &str, key: &str) -> (r: Result<String, Error>)
    ensures
        match r {
            Ok(value) => value_of(contents@, key@) == Ok::<Seq<char>, Error>(value@),
            Err(e) => value_of(contents@, key@) == Err::<Seq<char>, Error>(e),
        },
{
    match get_line_from_file(contents, key) {
        None => Err(Error::MalformedContent),
        Some(words) => {
            if words.len() < 2 {
                return Err(Error::MalformedContent);
            }
            proof {
                assert(views(words@)[1] == words@[1]@);
            }
            Ok(words[1].to_owned())
        },
    }
}

/// Reads the text of a status file into a record, on a machine with `total_mem`
/// kilobytes of memory.
pub fn parse_status(contents: &str, total_mem: u64) -> (r: Result<Process, Error>)
    ensures
        match r {
            Ok(p) => status_record(contents@, total_mem) == Ok::<ProcessView, Error>(p@),
            Err(e) => status_record(contents@, total_mem) == Err::<ProcessView, Error>(e),
        },
{
    let rss = read_resident(contents)?;
    let pid = read_pid(contents)?;
    let state = read_value(contents, "State")?;
    let process_name = read_value(contents, "Name")?;
    if total_mem == 0 {
        return Err(Error::DegenerateComputation);
    }
    let mut process = Process::new(pid, state, process_name, 0, 0, rss);
    process.set_mem_percent(Percent::new(100 * (rss as i128), total_mem as i128));
    Ok(process)
}

} // verus!
