//! A bounded series of samples with a hard reset.

use vstd::prelude::*;
use crate::percent::Percent;

verus! {

/// The number of samples at which a series is emptied before the next one is appended.
pub const CAPACITY: usize = 300;

/// Whether `s` is a series: at most `CAPACITY` samples, numbered from 1 on.
pub open spec fn is_series(s: Seq<(u64, Percent)>) -> bool {
    &&& s.len() <= CAPACITY
    &&& forall|i: int| 0 <= i < s.len() ==> (#[trigger] s[i]).0 == i + 1
}

/// `s` after the reset: empty where `s` is full, and `s` itself otherwise.
pub open spec fn reset(s: Seq<(u64, Percent)>) -> Seq<(u64, Percent)> {
    if s.len() >= CAPACITY {
        Seq::empty()
    } else {
        s
    }
}

/// `s` with `value` appended under the number that follows the last one.
pub open spec fn extended(s: Seq<(u64, Percent)>, value: Percent) -> Seq<(u64, Percent)> {
    s.push(((s.len() + 1) as u64, value))
}

/// A series stays one under each append, and never grows beyond `CAPACITY`: the
/// sample that is appended to a full series is alone in it afterwards.
pub proof fn lemma_append_is_bounded(s: Seq<(u64, Percent)>, value: Percent)
    requires
        is_series(s),
    ensures
        is_series(extended(reset(s), value)),
        extended(reset(s), value).len() <= CAPACITY,
        s.len() < CAPACITY ==> extended(reset(s), value).len() == s.len() + 1,
        s.len() == CAPACITY ==> extended(reset(s), value) == seq![(1u64, value)],
{
    if s.len() == CAPACITY {
        assert(extended(reset(s), value) =~= seq![(1u64, value)]);
    }
}

/// Samples numbered from 1 on, never more than `CAPACITY` of them.
#[derive(Debug)]
pub struct TimeSeries {
    samples: Vec<(u64, Percent)>,
}

impl TimeSeries {
    /// The samples, oldest first.
    pub closed spec fn view(&self) -> Seq<(u64, Percent)> {
        self.samples@
    }

    /// The invariant of the type: the samples are a series.
    pub open spec fn wf(&self) -> bool {
        is_series(self@)
    }

    /// A series without samples.
    pub fn new() -> (series: TimeSeries)
        ensures
            series@ == Seq::<(u64, Percent)>::empty(),
            series.wf(),
    {
        TimeSeries { samples: Vec::new() }
    }

    /// The samples, oldest first.
    pub fn samples(&self) -> (samples: &Vec<(u64, Percent)>)
        ensures
            samples@ == self@,
    {
        &self.samples
    }

    /// Empties the series where it is full.
    pub fn clear_full(&mut self)
        requires
            old(self).wf(),
        ensures
            final(self).wf(),
            final(self)@ == reset(old(self)@),
            final(self)@.len() < CAPACITY,
    {
        if self.samples.len() >= CAPACITY {
            self.samples.clear();
        }
    }

    /// Appends `value`, after the reset where the series is full. A full series thus
    /// starts again with `value` as its only sample.
    pub fn append(&mut self, value: Percent)
        requires
            old(self).wf(),
        ensures
            final(self).wf(),
            final(self)@ == extended(reset(old(self)@), value),
            final(self)@.len() <= CAPACITY,
            old(self)@.len() == CAPACITY ==> final(self)@.len() == 1,
    {
        self.clear_full();
        self.push(value);
    }

    /// Appends `value` to a series that is not full.
    pub(crate) fn push(&mut self, value: Percent)
        requires
            old(self).wf(),
            old(self)@.len() < CAPACITY,
        ensures
            final(self).wf(),
            final(self)@ == extended(old(self)@, value),
    {
        let number: u64 = match self.samples.last() {
            Some(sample) => sample.0 + 1,
            None => 1,
        };
        self.samples.push((number, value));
    }
}

} // verus!
