//! The lock-free admission queue, as the kernel sees it.
//!
//! New tasks are announced to the kernel task through a
//! `crossbeam_queue::SegQueue` of process identifiers. The queue itself is not
//! verified here: the items below state what the kernel relies on.

use vstd::prelude::*;
use crossbeam_queue::SegQueue;

verus! {

/// `crossbeam_queue::SegQueue`, taken as it is: nothing is known of its
/// inside.
#[verifier::external_type_specification]
#[verifier::external_body]
#[verifier::reject_recursive_types(T)]
pub struct ExSegQueue<T>(SegQueue<T>);

/// The identifiers waiting in the queue, oldest first.
pub uninterp spec fn queued(q: SegQueue<usize>) -> Seq<usize>;

/// `SegQueue::new`: a queue with nothing in it.
#[verifier::external_body]
pub(crate) fn queue_new() -> (q: SegQueue<usize>)
    ensures
        queued(q) == Seq::<usize>::empty(),
{
    SegQueue::new()
}

/// `SegQueue::push`: the identifier is appended behind everything that is
/// already waiting.
#[verifier::external_body]
pub(crate) fn queue_push(q: &mut SegQueue<usize>, pid: usize)
    ensures
        queued(*final(q)) == queued(*old(q)).push(pid),
{
    q.push(pid)
}

/// `SegQueue::pop`: hands out the oldest identifier and removes it; on an
/// empty queue it reports failure and leaves the queue empty.
#[verifier::external_body]
pub(crate) fn queue_pop(q: &mut SegQueue<usize>) -> (popped: Option<usize>)
    ensures
        queued(*old(q)).len() == 0 ==> popped.is_none() && queued(*final(q)) == queued(*old(q)),
        queued(*old(q)).len() > 0 ==> popped == Some(queued(*old(q))[0]) && queued(*final(q))
            == queued(*old(q)).subrange(1, queued(*old(q)).len() as int),
{
    q.pop().ok()
}

/// `SegQueue::is_empty`: whether nothing is waiting.
#[verifier::external_body]
pub(crate) fn queue_is_empty(q: &SegQueue<usize>) -> (empty: bool)
    ensures
        empty == (queued(*q).len() == 0),
{
    q.is_empty()
}

} // verus!
