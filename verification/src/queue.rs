//! The bounded task queue decoupling substrate callbacks from protocol
//! work. Enqueueing never blocks: when the queue is full the task is
//! refused and the caller drops it, relying on the periodic timers to
//! retry naturally.

use vstd::prelude::*;

use crate::types::Block;
use crate::types::GetDataMessage;
use crate::types::GetHeadersMessage;
use crate::types::HeadersMessage;
use crate::types::PeerId;
use crate::types::TASK_QUEUE_CAPACITY;

verus! {

/// One unit of protocol work, posted by a substrate callback or a timer
/// and executed by a worker.
pub enum Task {
    SendGetHeadersToAll,
    FetchBlock,
    SendGetHeadersToPeer(PeerId),
    HandleGetHeaders(PeerId, GetHeadersMessage),
    HandleHeaders(PeerId, HeadersMessage),
    HandleGetData(PeerId, GetDataMessage),
    HandleBlock(PeerId, Block),
}

/// A bounded multi-producer queue of tasks. Its length never exceeds its
/// capacity; an enqueue onto a full queue fails without blocking.
pub struct TaskQueue {
    pub tasks: Vec<Task>,
    pub capacity: usize,
}

impl TaskQueue {
    /// The queue never holds more tasks than its capacity allows.
    pub open spec fn wf(self) -> bool {
        self.tasks@.len() <= self.capacity
    }

    /// Create an empty queue with the standard capacity.
    pub fn new() -> (r: TaskQueue)
        ensures
            r.wf(),
            r.tasks@.len() == 0,
            r.capacity == TASK_QUEUE_CAPACITY,
    {
        TaskQueue { tasks: Vec::new(), capacity: TASK_QUEUE_CAPACITY }
    }

    /// Create an empty queue with the given capacity.
    pub fn with_capacity(capacity: usize) -> (r: TaskQueue)
        ensures
            r.wf(),
            r.tasks@.len() == 0,
            r.capacity == capacity,
    {
        TaskQueue { tasks: Vec::new(), capacity }
    }

    /// The number of tasks waiting.
    pub fn len(&self) -> (r: usize)
        ensures
            r == self.tasks@.len(),
    {
        self.tasks.len()
    }

    /// Post a task. Succeeds exactly when the queue has room; on a full
    /// queue it fails, leaving the queue unchanged, and hands the task
    /// back so the caller can drop or log it.
    pub fn try_send(&mut self, task: Task) -> (r: Result<(), Task>)
        requires
            old(self).wf(),
        ensures
            final(self).wf(),
            final(self).capacity == old(self).capacity,
            r is Ok <==> old(self).tasks@.len() < old(self).capacity,
            r is Ok ==> final(self).tasks@ == old(self).tasks@.push(task),
            r is Err ==> final(self).tasks@ == old(self).tasks@,
    {
        if self.tasks.len() < self.capacity {
            self.tasks.push(task);
            Ok(())
        } else {
            Err(task)
        }
    }

    /// Take the oldest task, or nothing from an empty queue.
    pub fn pop_front(&mut self) -> (r: Option<Task>)
        requires
            old(self).wf(),
        ensures
            final(self).wf(),
            final(self).capacity == old(self).capacity,
            r is Some <==> old(self).tasks@.len() > 0,
            r is Some ==> final(self).tasks@ == old(self).tasks@.drop_first()
                && r->0 == old(self).tasks@[0],
            r is None ==> final(self).tasks@ == old(self).tasks@,
    {
        if self.tasks.len() > 0 {
            let t = self.tasks.remove(0);
            assert(self.tasks@ =~= old(self).tasks@.drop_first());
            Some(t)
        } else {
            None
        }
    }
}

} // verus!
