//! Lists of records, one for each process.

use vstd::prelude::*;
use crate::process::ProcessView;

verus! {

/// Whether no two records of the list are of the same process.
pub open spec fn distinct_pids(records: Seq<ProcessView>) -> bool {
    forall|i: int, j: int|
        0 <= i < records.len() && 0 <= j < records.len() && i != j ==> (#[trigger] records[i]).pid
            != (#[trigger] records[j]).pid
}

/// The place of the first record of the process `pid` in the list; the length of the
/// list where there is none.
pub open spec fn place_of(records: Seq<ProcessView>, pid: i32) -> int
    decreases records.len(),
{
    if records.len() == 0 || records[0].pid == pid {
        0
    } else {
        1 + place_of(records.drop_first(), pid)
    }
}

/// The place of a process is within the list, or its end; the record there is of the
/// process, and none before it is.
pub proof fn lemma_place_of(records: Seq<ProcessView>, pid: i32)
    ensures
        0 <= place_of(records, pid) <= records.len(),
        place_of(records, pid) < records.len() ==> records[place_of(records, pid)].pid == pid,
        forall|i: int| 0 <= i < place_of(records, pid) ==> (#[trigger] records[i]).pid != pid,
    decreases records.len(),
{
    if records.len() == 0 || records[0].pid == pid {
    } else {
        let rest = records.drop_first();
        lemma_place_of(rest, pid);
        assert forall|i: int| 0 <= i < place_of(records, pid) implies (#[trigger] records[i]).pid
            != pid by {
            if i > 0 {
                assert(records[i] == rest[i - 1]);
            }
        }
    }
}

/// A place before which no record is of the process, and which is the end of the list or
/// holds a record of the process, is the place of the process.
pub proof fn lemma_place_is(records: Seq<ProcessView>, pid: i32, n: int)
    requires
        0 <= n <= records.len(),
        forall|i: int| 0 <= i < n ==> (#[trigger] records[i]).pid != pid,
        n < records.len() ==> records[n].pid == pid,
    ensures
        place_of(records, pid) == n,
    decreases n,
{
    if n > 0 {
        let rest = records.drop_first();
        assert(records[0].pid != pid);
        assert forall|i: int| 0 <= i < n - 1 implies (#[trigger] rest[i]).pid != pid by {
            assert(rest[i] == records[i + 1]);
        }
        if n - 1 < rest.len() {
            assert(rest[n - 1] == records[n]);
        }
        lemma_place_is(rest, pid, n - 1);
    }
}

/// The record of the process `pid` in the list, if it has one.
pub open spec fn record_of(records: Seq<ProcessView>, pid: i32) -> Option<ProcessView> {
    let at = place_of(records, pid);
    if 0 <= at < records.len() {
        Some(records[at])
    } else {
        None
    }
}

/// In a list of distinct process ids, each record stands at the place of its process.
pub proof fn lemma_place_in_distinct(records: Seq<ProcessView>, i: int)
    requires
        distinct_pids(records),
        0 <= i < records.len(),
    ensures
        place_of(records, records[i].pid) == i,
{
    assert forall|k: int| 0 <= k < i implies (#[trigger] records[k]).pid != records[i].pid by {
        assert(records[k].pid != records[i].pid);
    }
    lemma_place_is(records, records[i].pid, i);
}

/// In a list of distinct process ids whose last record is of the process `pid`, that
/// record is the record of the process.
pub proof fn lemma_record_at_end(records: Seq<ProcessView>, pid: i32)
    requires
        distinct_pids(records),
        records.len() > 0,
        records.last().pid == pid,
    ensures
        record_of(records, pid) == Some(records.last()),
{
    assert forall|i: int| 0 <= i < records.len() - 1 implies (#[trigger] records[i]).pid != pid by {
        assert(records[i].pid != records[records.len() - 1].pid);
    }
    lemma_place_is(records, pid, records.len() - 1);
}

/// A list of distinct process ids stays one where a record is taken out and one of the
/// same process is appended.
pub proof fn lemma_replace_keeps_distinct(records: Seq<ProcessView>, at: int, incoming: ProcessView)
    requires
        distinct_pids(records),
        0 <= at < records.len(),
        records[at].pid == incoming.pid,
    ensures
        distinct_pids(records.remove(at).push(incoming)),
{
    let out = records.remove(at).push(incoming);
    assert forall|i: int, j: int| 0 <= i < out.len() && 0 <= j < out.len() && i != j implies (
    #[trigger] out[i]).pid != (#[trigger] out[j]).pid by {
        let src = |k: int| if k == out.len() - 1 { at } else if k < at { k } else { k + 1 };
        assert(out[i].pid == records[src(i)].pid);
        assert(out[j].pid == records[src(j)].pid);
        assert(src(i) != src(j));
    }
}

/// A list of distinct process ids stays one where a record is moved to another place.
pub proof fn lemma_move_keeps_distinct(records: Seq<ProcessView>, from: int, to: int)
    requires
        distinct_pids(records),
        0 <= to <= from < records.len(),
    ensures
        distinct_pids(records.remove(from).insert(to, records[from])),
{
    let out = records.remove(from).insert(to, records[from]);
    assert forall|i: int, j: int| 0 <= i < out.len() && 0 <= j < out.len() && i != j implies (
    #[trigger] out[i]).pid != (#[trigger] out[j]).pid by {
        let src = |k: int|
            if k < to {
                k
            } else if k == to {
                from
            } else if k <= from {
                k - 1
            } else {
                k
            };
        assert(out[i] == records[src(i)]);
        assert(out[j] == records[src(j)]);
        assert(src(i) != src(j));
    }
}

/// The record of a process is the same after a record of another process is appended.
pub proof fn lemma_record_of_after_push(records: Seq<ProcessView>, incoming: ProcessView, pid: i32)
    requires
        incoming.pid != pid,
    ensures
        record_of(records.push(incoming), pid) == record_of(records, pid),
{
    let out = records.push(incoming);
    let at = place_of(records, pid);
    lemma_place_of(records, pid);
    assert forall|i: int| 0 <= i < at implies (#[trigger] out[i]).pid != pid by {
        assert(out[i] == records[i]);
    }
    if at < records.len() {
        assert(out[at] == records[at]);
        lemma_place_is(out, pid, at);
    } else {
        assert(out[at] == incoming);
        lemma_place_is(out, pid, at + 1);
    }
}

/// In a list of distinct process ids, the record of a process is the same after the
/// record of another process is taken out and one of that other process is appended.
pub proof fn lemma_record_of_after_replace(
    records: Seq<ProcessView>,
    at: int,
    incoming: ProcessView,
    pid: i32,
)
    requires
        distinct_pids(records),
        0 <= at < records.len(),
        records[at].pid == incoming.pid,
        incoming.pid != pid,
    ensures
        record_of(records.remove(at).push(incoming), pid) == record_of(records, pid),
{
    let out = records.remove(at).push(incoming);
    let known = place_of(records, pid);
    lemma_place_of(records, pid);
    let src = |k: int|
        if k < at {
            k
        } else {
            k + 1
        };
    if known < records.len() {
        let moved = if known < at {
            known
        } else {
            known - 1
        };
        assert forall|i: int| 0 <= i < moved implies (#[trigger] out[i]).pid != pid by {
            assert(out[i] == records[src(i)]);
            assert(records[src(i)].pid != records[known].pid);
        }
        assert(out[moved] == records[known]);
        lemma_place_is(out, pid, moved);
    } else {
        assert forall|i: int| 0 <= i < out.len() implies (#[trigger] out[i]).pid != pid by {
            if i < out.len() - 1 {
                assert(out[i] == records[src(i)]);
            }
        }
        lemma_place_is(out, pid, out.len() as int);
    }
}

} // verus!
