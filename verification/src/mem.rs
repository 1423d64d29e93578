//! The share of memory that is free.

use vstd::prelude::*;
use crate::error::Error;
use crate::number::{parse_u64, parsed_u64};
use crate::percent::Percent;
use crate::series::{extended, is_series, reset, TimeSeries, CAPACITY};
use crate::text::{lines_of, lines_with, matching_lines, split_whitespace, views, words_of};

verus! {

/// The number of kilobytes that the first of `lines` gives: its second word, which must
/// write a counter.
pub open spec fn kb_in(lines: Seq<Seq<char>>) -> Result<u64, Error> {
    if lines.len() == 0 {
        Err(Error::MalformedContent)
    } else {
        let words = words_of(lines[0]);
        if words.len() < 2 {
            Err(Error::MalformedContent)
        } else {
            match parsed_u64(words[1]) {
                Some(kb) => Ok(kb),
                None => Err(Error::MalformedContent),
            }
        }
    }
}

/// The number of kilobytes that `text` gives under `key`: that of the first line in
/// which `key` stands.
pub open spec fn kb_of(text: Seq<char>, key: Seq<char>) -> Result<u64, Error> {
    kb_in(lines_with(lines_of(text), key))
}

/// The share that `free` kilobytes are of `total` kilobytes, in percent: a hundred times
/// the one, over the other. There is none of a total of zero.
pub open spec fn share_of(total: u64, free: u64) -> Result<Percent, Error> {
    if total == 0 {
        Err(Error::DegenerateComputation)
    } else {
        Ok(Percent { numer: (100 * free) as i128, denom: total as i128 })
    }
}

/// The free share of memory that `text` gives, in percent: the share that the number
/// under `MemFree` is of the number under `MemTotal`. There is none where one of the two
/// lines is missing or gives no number, nor where the total is zero.
pub open spec fn free_share(text: Seq<char>) -> Result<Percent, Error> {
    match kb_of(text, "MemTotal"@) {
        Err(e) => Err(e),
        Ok(total) => match kb_of(text, "MemFree"@) {
            Err(e) => Err(e),
            Ok(free) => share_of(total, free),
        },
    }
}

/// The share that `free` kilobytes are of `total` kilobytes, in percent.
pub fn free_percent(total: u64, free: u64) -> (r: Result<Percent, Error>)
    ensures
        r == share_of(total, free),
{
    if total == 0 {
        return Err(Error::DegenerateComputation);
    }
    Ok(Percent::new(100 * (free as i128), total as i128))
}

/// The number of kilobytes that the first of the lines in `line` gives.
pub fn extract_kb_info(line: Vec<&str>) -> (r: Result<u64, Error>)
    ensures
        r == kb_in(views(line@)),
{
    if line.len() == 0 {
        return Err(Error::MalformedContent);
    }
    proof {
        assert(views(line@)[0] == line@[0]@);
    }
    let words = split_whitespace(line[0]);
    if words.len() < 2 {
        return Err(Error::MalformedContent);
    }
    proof {
        assert(views(words@)[1] == words@[1]@);
    }
    match parse_u64(words[1]) {
        Some(kb) => Ok(kb),
        None => Err(Error::MalformedContent),
    }
}

/// The total of memory that `mem_file` gives, in kilobytes.
pub fn get_total_mem_info(mem_file: &str) -> (r: Result<u64, Error>)
    ensures
        r == kb_of(mem_file@, "MemTotal"@),
{
    extract_kb_info(matching_lines(mem_file, "MemTotal"))
}

/// The tracker of the free share of memory: the last share and the series of the shares
/// so far.
#[derive(Debug)]
pub struct MemInfo {
    usage: TimeSeries,
    current_mem: Percent,
}

impl MemInfo {
    /// The series of the shares so far.
    pub closed spec fn series(&self) -> Seq<(u64, Percent)> {
        self.usage@
    }

    /// The share that the last sample gave; zero before the first.
    pub closed spec fn current(&self) -> Percent {
        self.current_mem
    }

    /// The invariant of the type: the series is one.
    pub open spec fn wf(&self) -> bool {
        is_series(self.series())
    }

    /// A tracker that has seen no sample.
    pub fn new() -> (tracker: MemInfo)
        ensures
            tracker.wf(),
            tracker.series() == Seq::<(u64, Percent)>::empty(),
            tracker.current() == (Percent { numer: 0, denom: 1 }),
    {
        MemInfo { usage: TimeSeries::new(), current_mem: Percent::zero() }
    }

    /// Empties the series where it is full.
    pub fn clear_usage(&mut self)
        requires
            old(self).wf(),
        ensures
            final(self).wf(),
            final(self).series() == reset(old(self).series()),
            final(self).current() == old(self).current(),
    {
        self.usage.clear_full();
    }

    /// The series of the shares so far, oldest first.
    pub fn get_usage(&self) -> (samples: &Vec<(u64, Percent)>)
        ensures
            samples@ == self.series(),
    {
        self.usage.samples()
    }

    /// The share that the last sample gave.
    pub fn get_current_mem(&self) -> (p: Percent)
        ensures
            p == self.current(),
    {
        self.current_mem
    }

    /// Takes the free share that `mem_file` gives as the current one. Where it gives
    /// none, nothing changes.
    pub fn get_mem_info(&mut self, mem_file: &str) -> (r: Result<Percent, Error>)
        requires
            old(self).wf(),
        ensures
            final(self).wf(),
            r == free_share(mem_file@),
            final(self).series() == old(self).series(),
            final(self).current() == match r {
                Ok(p) => p,
                Err(_) => old(self).current(),
            },
    {
        let total = extract_kb_info(matching_lines(mem_file, "MemTotal"))?;
        let free = extract_kb_info(matching_lines(mem_file, "MemFree"))?;
        let percent = free_percent(total, free)?;
        self.current_mem = percent;
        Ok(percent)
    }

    /// Takes the free share that `mem_file` gives and appends it to the series. A full
    /// series is emptied first, whether or not the file gives a share.
    pub fn add_mem_data(&mut self, mem_file: &str) -> (r: Result<(), Error>)
        requires
            old(self).wf(),
        ensures
            final(self).wf(),
            final(self).series().len() <= CAPACITY,
            match free_share(mem_file@) {
                Ok(p) => {
                    &&& r is Ok
                    &&& final(self).series() == extended(reset(old(self).series()), p)
                    &&& final(self).current() == p
                },
                Err(e) => {
                    &&& r == Err::<(), Error>(e)
                    &&& final(self).series() == reset(old(self).series())
                    &&& final(self).current() == old(self).current()
                },
            },
    {
        self.clear_usage();
        match self.get_mem_info(mem_file) {
            Ok(p) => {
                self.usage.push(p);
                Ok(())
            },
            Err(e) => Err(e),
        }
    }
}

} // verus!
