//! A cooperative round-robin scheduler over shared task handles.

use std::collections::VecDeque;
use std::sync::atomic::AtomicU8;
use std::sync::Arc;
use vstd::prelude::*;

verus! {

/// The number of ticks in a time slice.
pub const TIME_SLICE: u8 = 5;

/// A task as the scheduler sees it: a payload that it never looks into, and
/// the ticks left of the task's time slice.
///
/// The scheduler and whoever else refers to a task share it through
/// `Arc<SimpleTask<T>>` handles. The ticks are counted down through such a
/// shared handle, in an atomic counter, and no contract speaks of their
/// number.
pub struct SimpleTask<T> {
    inner: T,
    remain_time_slice: AtomicU8,
}

impl<T> SimpleTask<T> {
    /// The payload of the task.
    pub closed spec fn payload(&self) -> T {
        self.inner
    }

    /// Creates a task around `inner`, with a full time slice of
    /// `TIME_SLICE` ticks.
    pub fn new(inner: T) -> (task: Self)
        ensures
            task.payload() == inner,
    {
        Self { inner, remain_time_slice: AtomicU8::new(TIME_SLICE) }
    }

    /// Returns a reference to the payload.
    pub fn inner(&self) -> (inner: &T)
        ensures
            *inner == self.payload(),
    {
        &self.inner
    }
}

impl<T> core::ops::Deref for SimpleTask<T> {
    type Target = T;

    fn deref(&self) -> (inner: &T)
        ensures
            *inner == self.payload(),
    {
        &self.inner
    }
}

/// Whether a tick that found `remain` ticks left of a time slice used up
/// the slice.
pub fn slice_expired(remain: u8) -> (expired: bool)
    ensures
        expired == (remain == 1),
{
    remain == 1
}

/// Calls `Arc::ptr_eq`, which tells whether two handles point to the same
/// allocation, that is, to the same task.
///
/// Taken on trust: two handles for which it returns `true` are equal as
/// values. Nothing is said of the handles for which it returns `false`.
#[verifier::external_body]
fn same_task<T>(a: &Arc<SimpleTask<T>>, b: &Arc<SimpleTask<T>>) -> (same: bool)
    ensures
        same ==> *a == *b,
{
    Arc::ptr_eq(a, b)
}

/// The handle at the head of `queue`, if there is one.
pub open spec fn head<H>(queue: Seq<H>) -> Option<H> {
    if queue.len() > 0 {
        Some(queue.first())
    } else {
        None
    }
}

/// `queue` without its head.
pub open spec fn behind_head<H>(queue: Seq<H>) -> Seq<H> {
    if queue.len() > 0 {
        queue.drop_first()
    } else {
        queue
    }
}

/// A round-robin scheduler without preemption.
///
/// It keeps the tasks that are ready to run in a queue. A task that becomes
/// ready goes to the tail, the next task to run is taken from the head.
pub struct SimpleScheduler<T> {
    ready_queue: VecDeque<Arc<SimpleTask<T>>>,
}

impl<T> View for SimpleScheduler<T> {
    type V = Seq<Arc<SimpleTask<T>>>;

    /// The ready queue, head first.
    closed spec fn view(&self) -> Self::V {
        self.ready_queue@
    }
}

impl<T> SimpleScheduler<T> {
    /// Creates a scheduler with an empty ready queue.
    pub fn new() -> (scheduler: Self)
        ensures
            scheduler@ == Seq::<Arc<SimpleTask<T>>>::empty(),
    {
        Self { ready_queue: VecDeque::new() }
    }

    /// The name of the scheduler.
    pub fn scheduler_name() -> (name: &'static str)
        ensures
            name@ == "Simple"@,
    {
        "Simple"
    }

    /// Does nothing: a new scheduler is ready for use.
    pub fn init(&mut self)
        ensures
            final(self)@ == old(self)@,
    {
    }

    /// Puts `task` at the tail of the ready queue.
    pub fn add_task(&mut self, task: Arc<SimpleTask<T>>)
        ensures
            final(self)@ == old(self)@.push(task),
    {
        self.ready_queue.push_back(task);
    }

    /// Takes the handle at `index` out of the ready queue and returns it;
    /// with `index` beyond the queue, takes nothing out.
    pub fn remove_at(&mut self, index: usize) -> (removed: Option<Arc<SimpleTask<T>>>)
        ensures
            index < old(self)@.len() ==> removed == Some(old(self)@[index as int]) && final(self)@
                == old(self)@.remove(index as int),
            index >= old(self)@.len() ==> removed is None && final(self)@ == old(self)@,
    {
        self.ready_queue.remove(index)
    }

    /// Looks through the ready queue, head first, for a handle of the same
    /// task as `task`.
    fn position(&self, task: &Arc<SimpleTask<T>>) -> (found: Option<usize>)
        ensures
            found matches Some(index) ==> index < self@.len() && self@[index as int] == *task,
    {
        let mut index: usize = 0;
        while index < self.ready_queue.len()
            invariant
                index <= self.ready_queue@.len(),
            decreases self.ready_queue@.len() - index,
        {
            if same_task(&self.ready_queue[index], task) {
                return Some(index);
            }
            index += 1;
        }
        None
    }

    /// Takes the first handle of the same task as `task` out of the ready
    /// queue and returns it. Handles are told apart by the task they refer
    /// to, not by what the task holds.
    ///
    /// Whatever is removed is a handle equal to `task`, so nothing is
    /// removed from a queue that holds no such handle.
    pub fn remove_task(&mut self, task: &Arc<SimpleTask<T>>) -> (removed: Option<
        Arc<SimpleTask<T>>,
    >)
        ensures
            match removed {
                Some(handle) => exists|index: int|
                    0 <= index < old(self)@.len() && #[trigger] old(self)@[index] == handle
                        && handle == *task && final(self)@ == old(self)@.remove(index),
                None => final(self)@ == old(self)@,
            },
            !old(self)@.contains(*task) ==> removed is None,
    {
        match self.position(task) {
            Some(index) => self.remove_at(index),
            None => None,
        }
    }

    /// Takes the handle at the head of the ready queue and returns it.
    pub fn pick_next_task(&mut self) -> (next: Option<Arc<SimpleTask<T>>>)
        ensures
            next == head(old(self)@),
            final(self)@ == behind_head(old(self)@),
    {
        self.ready_queue.pop_front()
    }

    /// Puts `prev`, which has had its turn, at the tail of the ready queue,
    /// whether it gave up the processor or was preempted.
    pub fn put_prev_task(&mut self, prev: Arc<SimpleTask<T>>, _preempt: bool)
        ensures
            final(self)@ == old(self)@.push(prev),
    {
        self.ready_queue.push_back(prev);
    }

    /// Counts one tick against the time slice of `current` and tells
    /// whether that tick used the slice up, that is, whether it found one
    /// tick left.
    ///
    /// The slice is not refilled. Once it is used up the count goes on
    /// downwards, from 0 round to 255, so the next tick to return `true` is
    /// the 256th after this one.
    pub fn task_tick(&mut self, current: &Arc<SimpleTask<T>>) -> (expired: bool)
        ensures
            final(self)@ == old(self)@,
    {
        let old_remain = current.remain_time_slice.fetch_sub(
            1,
            core::sync::atomic::Ordering::Relaxed,
        );
        slice_expired(old_remain)
    }

    /// Priorities are not supported: changes nothing and returns `false`.
    pub fn set_priority(&mut self, _task: &Arc<SimpleTask<T>>, _prio: isize) -> (supported: bool)
        ensures
            !supported,
            final(self)@ == old(self)@,
    {
        false
    }
}

/// Tasks leave an empty queue in the order in which they were put into it,
/// and when they have left the queue is empty.
pub proof fn lemma_first_in_first_out<H>(a: H, b: H, c: H)
    ensures
        ({
            let queue = Seq::<H>::empty().push(a).push(b).push(c);
            &&& head(queue) == Some(a)
            &&& head(behind_head(queue)) == Some(b)
            &&& head(behind_head(behind_head(queue))) == Some(c)
            &&& head(behind_head(behind_head(behind_head(queue)))) is None
        }),
{
}

/// A task taken from the head of the queue and put back runs again only
/// after every task that was waiting behind it.
pub proof fn lemma_requeue_goes_last<H>(queue: Seq<H>)
    requires
        queue.len() > 0,
    ensures
        behind_head(queue).push(queue.first()) == queue.drop_first() + seq![queue.first()],
        forall|k: int|
            0 <= k < queue.len() - 1 ==> #[trigger] behind_head(queue).push(queue.first())[k]
                == queue[k + 1],
        behind_head(queue).push(queue.first()).last() == queue.first(),
{
}

/// Taking the only handle of a task out of the queue leaves a queue in
/// which that task is not found.
pub proof fn lemma_removed_task_is_gone<H>(queue: Seq<H>, index: int)
    requires
        0 <= index < queue.len(),
        queue.no_duplicates(),
    ensures
        !queue.remove(index).contains(queue[index]),
{
    let rest = queue.remove(index);
    if rest.contains(queue[index]) {
        let k = choose|k: int| 0 <= k < rest.len() && rest[k] == queue[index];
        if k < index {
            assert(queue[k] == queue[index]);
        } else {
            assert(queue[k + 1] == queue[index]);
        }
    }
}

} // verus!
