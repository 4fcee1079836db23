//! The priority queue that ranks an evaluated population.
//!
//! The memetic searches intensify the best slice of the population. The
//! ranking reuses the priority-queue crate that also served the original
//! design: indices are queued under the priority `u64::MAX - key`, so the
//! queue's highest priority is the population's lowest (best) fitness key.

use vstd::prelude::*;
use vstd::multiset::Multiset;
use std::collections::hash_map::RandomState;

verus! {

#[verifier::external_type_specification]
#[verifier::external_body]
#[verifier::reject_recursive_types(I)]
#[verifier::reject_recursive_types(P)]
#[verifier::reject_recursive_types(H)]
pub struct ExPriorityQueue<I, P, H>(priority_queue::PriorityQueue<I, P, H>);

/// What the queue holds: the multiset of its item-priority pairs.
pub uninterp spec fn pq_contents(
    q: priority_queue::PriorityQueue<usize, u64, RandomState>,
) -> Multiset<(usize, u64)>;

/// Relies on priority_queue's PriorityQueue::new: an empty queue.
#[verifier::external_body]
pub(crate) fn pq_new() -> (q: priority_queue::PriorityQueue<usize, u64, RandomState>)
    ensures
        pq_contents(q) == Multiset::<(usize, u64)>::empty(),
{
    return priority_queue::PriorityQueue::new();
}

/// Relies on priority_queue's PriorityQueue::push: an item not yet in the
/// queue is inserted with the given priority (the precondition keeps the
/// priority-update branch out of reach).
#[verifier::external_body]
pub(crate) fn pq_push(
    q: &mut priority_queue::PriorityQueue<usize, u64, RandomState>,
    item: usize,
    priority: u64,
)
    requires
        forall|p: u64| !pq_contents(*old(q)).contains((item, p)),
    ensures
        pq_contents(*final(q)) == pq_contents(*old(q)).insert((item, priority)),
{
    q.push(item, priority);
}

/// Relies on priority_queue's IntoSortedIter: draining the queue yields its
/// pairs from the highest priority to the lowest; equal priorities come in
/// no promised order.
#[verifier::external_body]
pub(crate) fn pq_into_sorted_vec(
    q: priority_queue::PriorityQueue<usize, u64, RandomState>,
) -> (r: Vec<(usize, u64)>)
    ensures
        r@.to_multiset() == pq_contents(q),
        forall|a: int, b: int| 0 <= a < b < r@.len() ==> (#[trigger] r@[a]).1 >= (#[trigger] r@[b]).1,
{
    return q.into_sorted_iter().collect();
}

} // verus!
