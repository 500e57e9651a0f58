//! Splitting a stretch of time at chosen points.

use vstd::prelude::*;
use vstd::relations::{sorted_by, total_ordering};
use vstd::seq_lib::{
    group_to_multiset_ensures, lemma_sorted_unique, to_multiset_build, to_multiset_insert,
    to_multiset_len,
};
use crate::models::task::TaskTimeSlot;

verus! {

/// The order of times.
pub open spec fn earlier_or_same() -> spec_fn(u64, u64) -> bool {
    |a: u64, b: u64| a <= b
}

/// The times in rising order.
pub open spec fn sorted_times(times: Seq<u64>) -> Seq<u64> {
    times.sort_by(earlier_or_same())
}

/// The slots between the neighbours of a list of times: one from each
/// time to the next.
pub open spec fn slots_between(times: Seq<u64>) -> Seq<TaskTimeSlot> {
    Seq::new(
        if times.len() > 0 {
            (times.len() - 1) as nat
        } else {
            0
        },
        |i: int| TaskTimeSlot { start_time: times[i], end_time: times[i + 1] },
    )
}

/// The order of times is a total order.
pub proof fn lemma_times_ordered()
    ensures
        total_ordering(earlier_or_same()),
{
    let leq = earlier_or_same();
    assert(vstd::relations::reflexive(leq));
    assert(vstd::relations::antisymmetric(leq));
    assert(vstd::relations::transitive(leq));
    assert(vstd::relations::strongly_connected(leq));
}

/// `sorted_times` keeps every time as often as it was given and puts the
/// times in rising order.
pub proof fn lemma_sorted_times(times: Seq<u64>)
    ensures
        sorted_times(times).to_multiset() == times.to_multiset(),
        sorted_times(times).len() == times.len(),
        forall|i: int, j: int|
            0 <= i < j < times.len() ==> sorted_times(times)[i] <= sorted_times(times)[j],
{
    broadcast use group_to_multiset_ensures;

    lemma_times_ordered();
    times.lemma_sort_by_ensures(earlier_or_same());
    let sorted = sorted_times(times);
    to_multiset_len(sorted);
    to_multiset_len(times);
    assert(sorted.to_multiset() == times.to_multiset());
    assert(sorted.len() == times.len());
    assert forall|i: int, j: int| 0 <= i < j < times.len() implies sorted[i] <= sorted[j] by {
        assert(earlier_or_same()(sorted[i], sorted[j]));
    }
}

/// The times in rising order.
pub fn sort_times(times: &Vec<u64>) -> (sorted: Vec<u64>)
    ensures
        sorted@ == sorted_times(times@),
{
    broadcast use group_to_multiset_ensures;

    let ghost leq = earlier_or_same();
    let mut sorted: Vec<u64> = Vec::new();
    let mut i: usize = 0;
    assert(times@.take(0) =~= Seq::<u64>::empty());
    while i < times.len()
        invariant
            i <= times.len(),
            leq == earlier_or_same(),
            sorted_by(sorted@, leq),
            sorted@.to_multiset() == times@.take(i as int).to_multiset(),
        decreases times.len() - i,
    {
        let time = times[i];
        let mut place: usize = 0;
        while place < sorted.len() && sorted[place] <= time
            invariant
                place <= sorted.len(),
                forall|k: int| 0 <= k < place ==> sorted@[k] <= time,
            decreases sorted.len() - place,
        {
            place += 1;
        }
        let ghost before = sorted@;
        sorted.insert(place, time);
        proof {
            assert(times@.take(i + 1) =~= times@.take(i as int).push(time));
            to_multiset_build(times@.take(i as int), time);
            to_multiset_insert(before, place as int, time);
            assert(sorted@ == before.insert(place as int, time));
            assert forall|a: int, b: int| 0 <= a < b < sorted@.len() implies #[trigger] leq(
                sorted@[a],
                sorted@[b],
            ) by {
                let a0 = if a < place { a } else { a - 1 };
                let b0 = if b < place { b } else { b - 1 };
                if a != place && b != place {
                    assert(leq(before[a0], before[b0]));
                } else if a == place {
                    assert(before[b0] == sorted@[b]);
                    assert(leq(before[place as int], before[b0]) || b0 == place);
                }
            }
        }
        i += 1;
    }
    proof {
        assert(times@.take(i as int) =~= times@);
        lemma_times_ordered();
        times@.lemma_sort_by_ensures(leq);
        lemma_sorted_unique(sorted@, sorted_times(times@), leq);
    }
    sorted
}

/// The slots between the neighbours of a list of times.
pub fn make_slots(times: &Vec<u64>) -> (slots: Vec<TaskTimeSlot>)
    ensures
        slots@ == slots_between(times@),
{
    let mut slots: Vec<TaskTimeSlot> = Vec::new();
    if times.len() == 0 {
        assert(slots@ =~= slots_between(times@));
        return slots;
    }
    let mut i: usize = 0;
    while i < times.len() - 1
        invariant
            times.len() > 0,
            i <= times.len() - 1,
            slots@.len() == i,
            forall|k: int|
                0 <= k < i ==> slots@[k] == (TaskTimeSlot {
                    start_time: times@[k],
                    end_time: times@[k + 1],
                }),
        decreases times.len() - 1 - i,
    {
        slots.push(TaskTimeSlot { start_time: times[i], end_time: times[i + 1] });
        i += 1;
    }
    assert(slots@ =~= slots_between(times@));
    slots
}

} // verus!
