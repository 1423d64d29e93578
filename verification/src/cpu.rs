//! The processor's share of busy time, from one reading of the counters to the next.

use vstd::prelude::*;
use crate::error::Error;
use crate::number::{parse_u64, parsed_u64};
use crate::percent::Percent;
use crate::series::{extended, is_series, reset, TimeSeries, CAPACITY};
use crate::text::{fields_of, lines, lines_of, split, views};

verus! {

/// The counters that the tokens write, where each of them writes one.
pub open spec fn counters_in(tokens: Seq<Seq<char>>) -> Option<Seq<u64>> {
    if forall|i: int| 0 <= i < tokens.len() ==> parsed_u64(#[trigger] tokens[i]) is Some {
        Some(Seq::new(tokens.len(), |i: int| parsed_u64(tokens[i])->0))
    } else {
        None
    }
}

/// The counters of the first line of `text`. The line is cut at each single space; its
/// first two fields, the label and the empty field that the second space after the label
/// leaves, are passed over, and every field after them must write a counter. A text
/// without lines has no counters.
pub open spec fn counters_of(text: Seq<char>) -> Result<Seq<u64>, Error> {
    if lines_of(text).len() == 0 {
        Ok(Seq::empty())
    } else {
        let fields = fields_of(lines_of(text)[0], ' ');
        if fields.len() < 2 {
            Err(Error::MalformedContent)
        } else {
            match counters_in(fields.skip(2)) {
                Some(counters) => Ok(counters),
                None => Err(Error::MalformedContent),
            }
        }
    }
}

/// Reads the counters of the first line of `text`.
pub fn create_cpu_vector(text: &str) -> (r: Result<Vec<u64>, Error>)
    ensures
        match r {
            Ok(counters) => counters_of(text@) == Ok::<Seq<u64>, Error>(counters@),
            Err(e) => counters_of(text@) == Err::<Seq<u64>, Error>(e),
        },
{
    let all = lines(text);
    let mut counters: Vec<u64> = Vec::new();
    if all.len() == 0 {
        return Ok(counters);
    }
    proof {
        assert(views(all@)[0] == all@[0]@);
    }
    let fields = split(all[0], ' ');
    if fields.len() < 2 {
        return Err(Error::MalformedContent);
    }
    let ghost tokens = fields_of(lines_of(text@)[0], ' ').skip(2);
    let mut i: usize = 2;
    while i < fields.len()
        invariant
            2 <= i <= fields.len(),
            lines_of(text@).len() > 0,
            views(fields@) == fields_of(lines_of(text@)[0], ' '),
            tokens == fields_of(lines_of(text@)[0], ' ').skip(2),
            counters@.len() == i - 2,
            forall|k: int| 0 <= k < i - 2 ==> parsed_u64(#[trigger] tokens[k]) == Some(counters@[k]),
        decreases fields.len() - i,
    {
        proof {
            assert(views(fields@)[i as int] == fields@[i as int]@);
            assert(tokens[i - 2] == fields@[i as int]@);
        }
        match parse_u64(fields[i]) {
            Some(value) => {
                counters.push(value);
            },
            None => {
                proof {
                    assert(parsed_u64(tokens[i - 2]) is None);
                }
                return Err(Error::MalformedContent);
            },
        }
        i += 1;
    }
    proof {
        assert(counters_in(tokens)->0 =~= counters@);
    }
    Ok(counters)
}

/// The sum of the counters.
pub open spec fn sum_of(counters: Seq<u64>) -> int
    decreases counters.len(),
{
    if counters.len() == 0 {
        0
    } else {
        sum_of(counters.drop_last()) + counters.last()
    }
}

/// A sum of counters is not negative.
pub proof fn lemma_sum_of_nonnegative(counters: Seq<u64>)
    ensures
        0 <= sum_of(counters),
    decreases counters.len(),
{
    if counters.len() > 0 {
        lemma_sum_of_nonnegative(counters.drop_last());
    }
}

/// The sum of the first counters of a reading is at most the sum of them all.
pub proof fn lemma_sum_of_grows(counters: Seq<u64>, k: int)
    requires
        0 <= k <= counters.len(),
    ensures
        0 <= sum_of(counters.take(k)) <= sum_of(counters),
    decreases counters.len() - k,
{
    if k == counters.len() {
        assert(counters.take(k) =~= counters);
        lemma_sum_of_nonnegative(counters);
    } else {
        assert(counters.drop_last().take(k) =~= counters.take(k));
        lemma_sum_of_grows(counters.drop_last(), k);
    }
}

/// The grand total of processor time that `text` gives: the sum of all the counters of
/// its first line. There is none where a counter is none, nor where the sum is no
/// counter.
pub open spec fn grand_total(text: Seq<char>) -> Result<u64, Error> {
    match counters_of(text) {
        Err(e) => Err(e),
        Ok(counters) => if sum_of(counters) > u64::MAX {
            Err(Error::MalformedContent)
        } else {
            Ok(sum_of(counters) as u64)
        },
    }
}

/// The sum of the counters, where it is a counter.
pub fn total_of_counters(counters: &Vec<u64>) -> (r: Option<u64>)
    ensures
        r == if sum_of(counters@) > u64::MAX {
            None
        } else {
            Some(sum_of(counters@) as u64)
        },
{
    let mut total: u64 = 0;
    let mut i: usize = 0;
    proof {
        assert(counters@.take(0) =~= Seq::<u64>::empty());
    }
    while i < counters.len()
        invariant
            i <= counters.len(),
            total == sum_of(counters@.take(i as int)),
        decreases counters.len() - i,
    {
        proof {
            let next = counters@.take(i + 1);
            assert(next.drop_last() =~= counters@.take(i as int));
            assert(next.last() == counters@[i as int]);
            lemma_sum_of_grows(counters@, i + 1);
        }
        if counters[i] > u64::MAX - total {
            return None;
        }
        total += counters[i];
        i += 1;
    }
    proof {
        assert(counters@.take(counters.len() as int) =~= counters@);
    }
    Some(total)
}

/// The busy time of a reading: its first counter, the time in user mode, and its third,
/// the time in system mode.
pub open spec fn busy_of(counters: Seq<u64>) -> int {
    counters[0] + counters[2]
}

/// The reference time of a reading: its busy time and its fourth counter, the idle time.
pub open spec fn total_of(counters: Seq<u64>) -> int {
    counters[0] + counters[2] + counters[3]
}

/// The busy time and the reference time of a reading.
#[derive(Clone, Copy, Debug)]
struct Baseline {
    busy: u128,
    total: u128,
}

/// The share of busy time between two readings, in percent: a hundred times the growth
/// of the busy time, from `prev_busy` to `busy`, over the growth of the reference time,
/// from `prev_total` to `total`.
pub open spec fn share(prev_busy: int, prev_total: int, busy: int, total: int) -> Percent {
    Percent { numer: ((busy - prev_busy) * 100) as i128, denom: (total - prev_total) as i128 }
}

/// What a reading yields after the one that `prev` holds. The first reading is held
/// against itself. A later one that shows no reference time elapsed has no rate.
pub open spec fn rate(prev: Option<(int, int)>, counters: Seq<u64>) -> Result<Percent, Error> {
    if counters.len() < 4 {
        Err(Error::MalformedContent)
    } else {
        match prev {
            None => Ok(Percent { numer: 0, denom: 0 }),
            Some((prev_busy, prev_total)) => if total_of(counters) == prev_total {
                Err(Error::DegenerateComputation)
            } else {
                Ok(share(prev_busy, prev_total, busy_of(counters), total_of(counters)))
            },
        }
    }
}

/// The tracker of the processor's busy share: the last reading, the share it gave, and
/// the series of the shares so far.
#[derive(Debug)]
pub struct CPUUsage {
    usage: TimeSeries,
    baseline: Option<Baseline>,
    current_cpu: Percent,
}

impl CPUUsage {
    /// The series of the shares so far.
    pub closed spec fn series(&self) -> Seq<(u64, Percent)> {
        self.usage@
    }

    /// The busy time and the reference time of the last reading, if there was one.
    pub closed spec fn baseline(&self) -> Option<(int, int)> {
        match self.baseline {
            Some(b) => Some((b.busy as int, b.total as int)),
            None => None,
        }
    }

    /// The share that the last reading gave; zero before the first.
    pub closed spec fn current(&self) -> Percent {
        self.current_cpu
    }

    /// The invariant of the type: the series is one, and the last reading is one that
    /// counters of 64 bits can give.
    pub open spec fn wf(&self) -> bool {
        &&& is_series(self.series())
        &&& self.baseline() matches Some((busy, total)) ==> 0 <= busy <= 2 * u64::MAX && 0
            <= total <= 3 * u64::MAX
    }

    /// A tracker that has seen no reading.
    pub fn new() -> (tracker: CPUUsage)
        ensures
            tracker.wf(),
            tracker.series() == Seq::<(u64, Percent)>::empty(),
            tracker.baseline() is None,
            tracker.current() == (Percent { numer: 0, denom: 1 }),
    {
        CPUUsage { usage: TimeSeries::new(), baseline: None, current_cpu: Percent::zero() }
    }

    /// The share that the last reading gave.
    pub fn get_current_cpu(&self) -> (p: Percent)
        ensures
            p == self.current(),
    {
        self.current_cpu
    }

    /// The series of the shares so far, oldest first.
    pub fn get_usage(&self) -> (samples: &Vec<(u64, Percent)>)
        ensures
            samples@ == self.series(),
    {
        self.usage.samples()
    }

    /// Empties the series where it is full.
    pub fn clear_usage(&mut self)
        requires
            old(self).wf(),
        ensures
            final(self).wf(),
            final(self).series() == reset(old(self).series()),
            final(self).baseline() == old(self).baseline(),
            final(self).current() == old(self).current(),
    {
        self.usage.clear_full();
    }

    /// Takes the reading `cpu_vec`. Where it gives a share, the reading becomes the
    /// baseline and the share the current one; otherwise nothing changes.
    pub fn calculate_current_cpu_usage(&mut self, cpu_vec: &Vec<u64>) -> (r: Result<Percent, Error>)
        requires
            old(self).wf(),
        ensures
            final(self).wf(),
            r == rate(old(self).baseline(), cpu_vec@),
            final(self).series() == old(self).series(),
            match r {
                Ok(p) => {
                    &&& final(self).baseline() == Some((busy_of(cpu_vec@), total_of(cpu_vec@)))
                    &&& final(self).current() == p
                },
                Err(_) => {
                    &&& final(self).baseline() == old(self).baseline()
                    &&& final(self).current() == old(self).current()
                },
            },
    {
        if cpu_vec.len() < 4 {
            return Err(Error::MalformedContent);
        }
        let busy: u128 = cpu_vec[0] as u128 + cpu_vec[2] as u128;
        let total: u128 = busy + cpu_vec[3] as u128;
        let percent = match &self.baseline {
            None => Percent::new(0, 0),
            Some(b) => {
                if total == b.total {
                    return Err(Error::DegenerateComputation);
                }
                Percent::new((busy as i128 - b.busy as i128) * 100, total as i128 - b.total as i128)
            },
        };
        self.baseline = Some(Baseline { busy, total });
        self.current_cpu = percent;
        Ok(percent)
    }

    /// Takes the reading that the first line of `cpu_file` holds.
    pub fn get_cpu_info(&mut self, cpu_file: &str) -> (r: Result<Percent, Error>)
        requires
            old(self).wf(),
        ensures
            final(self).wf(),
            r == sample(old(self).baseline(), cpu_file@),
            final(self).series() == old(self).series(),
            match r {
                Ok(p) => {
                    &&& counters_of(cpu_file@) matches Ok(counters)
                    &&& final(self).baseline() == Some((busy_of(counters), total_of(counters)))
                    &&& final(self).current() == p
                },
                Err(_) => {
                    &&& final(self).baseline() == old(self).baseline()
                    &&& final(self).current() == old(self).current()
                },
            },
    {
        match create_cpu_vector(cpu_file) {
            Ok(counters) => self.calculate_current_cpu_usage(&counters),
            Err(e) => Err(e),
        }
    }

    /// Takes the reading that the first line of `cpu_file` holds and appends its share to
    /// the series. A full series is emptied first, whether or not the reading gives a
    /// share.
    pub fn add_cpu_data(&mut self, cpu_file: &str) -> (r: Result<(), Error>)
        requires
            old(self).wf(),
        ensures
            final(self).wf(),
            final(self).series().len() <= CAPACITY,
            match sample(old(self).baseline(), cpu_file@) {
                Ok(p) => {
                    &&& r is Ok
                    &&& final(self).series() == extended(reset(old(self).series()), p)
                    &&& counters_of(cpu_file@) matches Ok(counters)
                    &&& final(self).baseline() == Some((busy_of(counters), total_of(counters)))
                    &&& final(self).current() == p
                },
                Err(e) => {
                    &&& r == Err::<(), Error>(e)
                    &&& final(self).series() == reset(old(self).series())
                    &&& final(self).baseline() == old(self).baseline()
                    &&& final(self).current() == old(self).current()
                },
            },
    {
        self.clear_usage();
        match self.get_cpu_info(cpu_file) {
            Ok(p) => {
                self.usage.push(p);
                Ok(())
            },
            Err(e) => Err(e),
        }
    }
}

/// What the text of the counter file yields after the reading that `prev` holds.
pub open spec fn sample(prev: Option<(int, int)>, text: Seq<char>) -> Result<Percent, Error> {
    match counters_of(text) {
        Ok(counters) => rate(prev, counters),
        Err(e) => Err(e),
    }
}

/// Between two readings over which reference time elapsed, the share is a number: a
/// hundred times the growth of the busy time, over the growth of the reference time. It
/// is below zero where the busy time fell, so it lies between 0 and 100 only where the
/// busy time did not fall; and it does lie there where neither the busy time nor the
/// idle time fell.
pub proof fn lemma_share_bounds(prev: Seq<u64>, now: Seq<u64>)
    requires
        prev.len() >= 4,
        now.len() >= 4,
        total_of(now) > total_of(prev),
    ensures
        rate(Some((busy_of(prev), total_of(prev))), now) matches Ok(p) && {
            &&& p.is_defined()
            &&& p.numer == 100 * (busy_of(now) - busy_of(prev))
            &&& p.denom == total_of(now) - total_of(prev)
            &&& busy_of(now) < busy_of(prev) ==> p.is_negative()
            &&& p.in_range() ==> busy_of(now) >= busy_of(prev)
            &&& busy_of(now) >= busy_of(prev) && now[3] >= prev[3] ==> p.in_range()
        },
{
}

/// After a reading that gave a share, the next reading is held against it: the tracker
/// has left its first state for good.
pub proof fn lemma_first_reading_is_baseline(counters: Seq<u64>)
    requires
        counters.len() >= 4,
    ensures
        rate(None, counters) == Ok::<Percent, Error>(Percent { numer: 0, denom: 0 }),
        rate(Some((busy_of(counters), total_of(counters))), counters) == Err::<Percent, Error>(
            Error::DegenerateComputation,
        ),
{
}

} // verus!
