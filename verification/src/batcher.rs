//! The batch queue: ready-to-run generation tasks awaiting the next drain.
//!
//! `enq` is non-blocking; `deq` atomically removes and returns every task
//! currently queued (a full drain, not a fixed-size slice), which yields the
//! greedy maximal-batching policy: whatever is ready now runs in the next
//! batch, with no artificial delay and no size cap.  Blocking until work is
//! available is the surrounding runtime's concern; the queue itself only
//! promises what a drain returns.

use vstd::prelude::*;
use crate::session::Task;

verus! {

/// Work queue of tasks ready for the next decode step, in arrival order.
pub struct Batcher {
    pub tasks: Vec<Task>,
}

impl View for Batcher {
    type V = Seq<Task>;

    open spec fn view(&self) -> Seq<Task> {
        self.tasks@
    }
}

/// The queue contents after enqueuing each task of `ts` in order onto `q`.
pub open spec fn enq_all(q: Seq<Task>, ts: Seq<Task>) -> Seq<Task>
    decreases ts.len(),
{
    if ts.len() == 0 {
        q
    } else {
        enq_all(q.push(ts[0]), ts.drop_first())
    }
}

impl Batcher {
    /// An empty queue.
    pub fn new() -> (b: Batcher)
        ensures
            b@ == Seq::<Task>::empty(),
    {
        Batcher { tasks: Vec::new() }
    }

    /// Append one task; every earlier task keeps its place.
    pub fn enq(&mut self, task: Task)
        ensures
            final(self)@ == old(self)@.push(task),
    {
        self.tasks.push(task);
    }

    /// Drain: remove and return every queued task, in arrival order.
    pub fn deq(&mut self) -> (batch: Vec<Task>)
        ensures
            batch@ == old(self)@,
            final(self)@ == Seq::<Task>::empty(),
    {
        let mut batch: Vec<Task> = Vec::new();
        std::mem::swap(&mut batch, &mut self.tasks);
        batch
    }
}

/// Batch drain atomicity: if the tasks of `ts` are enqueued in order onto an
/// empty queue before any dequeue occurs, the queue then holds exactly `ts`,
/// so a single drain (whose contract returns the whole queue and empties it)
/// returns all of them, none left behind and none duplicated across drains.
pub proof fn lemma_batch_drain_atomicity(ts: Seq<Task>)
    ensures
        enq_all(Seq::<Task>::empty(), ts) == ts,
{
    lemma_enq_all(Seq::<Task>::empty(), ts);
    assert(Seq::<Task>::empty() + ts =~= ts);
}

/// Enqueuing `ts` one by one onto `q` yields `q` followed by `ts`.
proof fn lemma_enq_all(q: Seq<Task>, ts: Seq<Task>)
    ensures
        enq_all(q, ts) == q + ts,
    decreases ts.len(),
{
    if ts.len() == 0 {
        assert(q + ts =~= q);
    } else {
        lemma_enq_all(q.push(ts[0]), ts.drop_first());
        assert(q.push(ts[0]) + ts.drop_first() =~= q + ts);
    }
}

} // verus!
