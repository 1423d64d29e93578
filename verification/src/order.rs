//! The order of the records by their share of processor time.

use vstd::prelude::*;
use crate::percent::{lemma_ge_total, lemma_ge_transitive, Percent};
use crate::process::{views_of, Process, ProcessView};
use crate::records::{distinct_pids, lemma_move_keeps_distinct, lemma_place_in_distinct, place_of};

verus! {

/// Whether the shares of processor time do not rise along the list.
pub open spec fn sorted_by_cpu(records: Seq<ProcessView>) -> bool {
    forall|i: int, j: int|
        0 <= i < j < records.len() ==> (#[trigger] records[i]).cpu_percent.ge(
            (#[trigger] records[j]).cpu_percent,
        )
}

/// Whether neither of the two shares is below the other.
pub open spec fn same_share(a: Percent, b: Percent) -> bool {
    a.ge(b) && b.ge(a)
}

/// Whether records with the same share stand in `sorted` in the order in which their
/// processes stand in `records`.
pub open spec fn keeps_order(sorted: Seq<ProcessView>, records: Seq<ProcessView>) -> bool {
    forall|a: int, b: int|
        0 <= a < b < sorted.len() && same_share(
            (#[trigger] sorted[a]).cpu_percent,
            (#[trigger] sorted[b]).cpu_percent,
        ) ==> place_of(records, sorted[a].pid) < place_of(records, sorted[b].pid)
}

/// Whether `sorted` holds the records of `records`, each as often, with shares of
/// processor time that do not rise and, where no two records are of one process, with
/// records of the same share in the order that they had.
pub open spec fn is_sorted_form_of(sorted: Seq<ProcessView>, records: Seq<ProcessView>) -> bool {
    &&& sorted.len() == records.len()
    &&& sorted.to_multiset() == records.to_multiset()
    &&& sorted_by_cpu(sorted)
    &&& distinct_pids(records) ==> keeps_order(sorted, records)
}

/// In a list that is ordered by the share of processor time, each record has a share at
/// least that of the record after it.
pub proof fn lemma_sorted_neighbours(records: Seq<ProcessView>)
    requires
        sorted_by_cpu(records),
    ensures
        forall|i: int|
            0 <= i < records.len() - 1 ==> (#[trigger] records[i]).cpu_percent.ge(
                records[i + 1].cpu_percent,
            ),
{
    assert forall|i: int| 0 <= i < records.len() - 1 implies (#[trigger] records[i]).cpu_percent.ge(
        records[i + 1].cpu_percent,
    ) by {
        let next = records[i + 1];
        assert(records[i].cpu_percent.ge(next.cpu_percent));
    }
}

/// Orders the processes by their share of processor time, the largest first. Processes
/// with equal shares keep their order.
pub fn sort_desc(list: &mut Vec<Process>)
    ensures
        is_sorted_form_of(views_of(final(list)@), views_of(old(list)@)),
        distinct_pids(views_of(old(list)@)) ==> distinct_pids(views_of(final(list)@)),
{
    let n = list.len();
    let mut i: usize = 0;
    proof {
        let given = views_of(list@);
        if distinct_pids(given) {
            assert forall|a: int, b: int|
                0 <= a < b < given.len() && same_share(
                    (#[trigger] given[a]).cpu_percent,
                    (#[trigger] given[b]).cpu_percent,
                ) implies place_of(given, given[a].pid) < place_of(given, given[b].pid) by {
                lemma_place_in_distinct(given, a);
                lemma_place_in_distinct(given, b);
            }
        }
    }
    while i < n
        invariant
            i <= n,
            list.len() == n,
            views_of(list@).to_multiset() == views_of(old(list)@).to_multiset(),
            distinct_pids(views_of(old(list)@)) ==> distinct_pids(views_of(list@)),
            distinct_pids(views_of(old(list)@)) ==> keeps_order(
                views_of(list@),
                views_of(old(list)@),
            ),
            forall|a: int, b: int|
                0 <= a < b < i ==> (#[trigger] views_of(list@)[a]).cpu_percent.ge(
                    (#[trigger] views_of(list@)[b]).cpu_percent,
                ),
        decreases n - i,
    {
        let ghost before = views_of(list@);
        let key = list[i].cpu_percent;
        let mut j: usize = i;
        while j > 0 && !list[j - 1].cpu_percent.at_least(&key)
            invariant
                j <= i < n,
                list.len() == n,
                before == views_of(list@),
                key == before[i as int].cpu_percent,
                forall|k: int| j <= k < i ==> !(#[trigger] before[k]).cpu_percent.ge(key),
            decreases j,
        {
            j -= 1;
        }
        let moved = list.remove(i);
        list.insert(j, moved);
        proof {
            let after = views_of(list@);
            assert(after =~= before.remove(i as int).insert(j as int, before[i as int]));
            vstd::seq_lib::to_multiset_remove(before, i as int);
            vstd::seq_lib::to_multiset_insert(before.remove(i as int), j as int, before[i as int]);
            before.to_multiset_ensures();
            assert(before.to_multiset().contains(before[i as int]));
            assert(before.to_multiset().remove(before[i as int]).insert(before[i as int])
                =~= before.to_multiset());
            if distinct_pids(before) {
                lemma_move_keeps_distinct(before, i as int, j as int);
            }
            if distinct_pids(views_of(old(list)@)) {
                let given = views_of(old(list)@);
                assert forall|a: int, b: int|
                    0 <= a < b < after.len() && same_share(
                        (#[trigger] after[a]).cpu_percent,
                        (#[trigger] after[b]).cpu_percent,
                    ) implies place_of(given, after[a].pid) < place_of(given, after[b].pid) by {
                    let src = |k: int|
                        if k < j {
                            k
                        } else if k == j {
                            i as int
                        } else if k <= i {
                            k - 1
                        } else {
                            k
                        };
                    assert(after[a] == before[src(a)]);
                    assert(after[b] == before[src(b)]);
                    if a == j && b <= i {
                        // the record went past this one, whose share is smaller
                        assert(!before[b - 1].cpu_percent.ge(key));
                    } else {
                        assert(src(a) < src(b));
                    }
                }
            }
            assert forall|a: int, b: int| 0 <= a < b < i + 1 implies (#[trigger] after[a]).cpu_percent.ge(
                (#[trigger] after[b]).cpu_percent,
            ) by {
                let src = |k: int|
                    if k < j {
                        k
                    } else if k == j {
                        i as int
                    } else {
                        k - 1
                    };
                assert(after[a] == before[src(a)]);
                assert(after[b] == before[src(b)]);
                if b == j {
                    // a record before the place is at least the one just before the place,
                    // and that one is at least the key
                    assert(before[j - 1].cpu_percent.ge(key));
                    if a < j - 1 {
                        assert(before[a].cpu_percent.ge(before[j - 1].cpu_percent));
                        lemma_ge_transitive(before[a].cpu_percent, before[j - 1].cpu_percent, key);
                    }
                } else if a == j {
                    assert(!before[b - 1].cpu_percent.ge(key));
                    lemma_ge_total(before[b - 1].cpu_percent, key);
                } else {
                    assert(before[src(a)].cpu_percent.ge(before[src(b)].cpu_percent));
                }
            }
        }
        i += 1;
    }
}

} // verus!
