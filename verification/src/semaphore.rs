//! Counting semaphores with a queue of blocked tasks.
use vstd::prelude::*;
use std::collections::VecDeque;

verus! {

/// The count and the blocked tasks of a semaphore.
pub struct SemaphoreInner<T> {
    pub count: isize,
    pub wait_queue: VecDeque<T>,
}

/// A semaphore whose blocked tasks are of type `T`.
pub struct Semaphore<T> {
    pub inner: SemaphoreInner<T>,
}

/// The number of tasks a semaphore with count `count` holds blocked: none
/// while resources are left, one per missing resource otherwise.
pub open spec fn waiting_for(count: int) -> int {
    if count < 0 { -count } else { 0 }
}

impl<T> Semaphore<T> {
    /// The queue holds exactly one blocked task per missing resource.
    pub open spec fn wf(&self) -> bool {
        self.inner.wait_queue@.len() == waiting_for(self.inner.count as int)
    }

    /// A semaphore with `res_count` resources and no blocked task.
    pub fn new(res_count: usize) -> (r: Self)
        ensures
            r.inner.count == res_count as isize,
            r.inner.wait_queue@ == Seq::<T>::empty(),
            res_count <= isize::MAX ==> r.wf(),
    {
        Semaphore { inner: SemaphoreInner { count: res_count as isize, wait_queue: VecDeque::new() } }
    }

    /// Gives back a resource. When a task was blocked waiting for one, the
    /// task blocked first is taken from the queue and returned, to be woken.
    pub fn up(&mut self) -> (woken: Option<T>)
        requires
            old(self).wf(),
            old(self).inner.count < isize::MAX,
        ensures
            final(self).wf(),
            final(self).inner.count == old(self).inner.count + 1,
            old(self).inner.count < 0 ==> {
                &&& woken == Some(old(self).inner.wait_queue@[0])
                &&& final(self).inner.wait_queue@ == old(self).inner.wait_queue@.drop_first()
            },
            old(self).inner.count >= 0 ==> {
                &&& woken is None
                &&& final(self).inner.wait_queue@ == old(self).inner.wait_queue@
            },
    {
        self.inner.count = self.inner.count + 1;
        if self.inner.count <= 0 {
            let t = self.inner.wait_queue.pop_front();
            proof {
                assert(self.inner.wait_queue@ =~= old(self).inner.wait_queue@.drop_first());
            }
            t
        } else {
            None
        }
    }

    /// Takes a resource for the task `current`. When none is left, `current`
    /// joins the end of the queue and `true` tells that it must block.
    pub fn down(&mut self, current: T) -> (must_block: bool)
        requires
            old(self).wf(),
            old(self).inner.count > isize::MIN,
        ensures
            final(self).wf(),
            final(self).inner.count == old(self).inner.count - 1,
            must_block == (old(self).inner.count <= 0),
            must_block ==> final(self).inner.wait_queue@ == old(self).inner.wait_queue@.push(current),
            !must_block ==> final(self).inner.wait_queue@ == old(self).inner.wait_queue@,
    {
        self.inner.count = self.inner.count - 1;
        if self.inner.count < 0 {
            self.inner.wait_queue.push_back(current);
            true
        } else {
            false
        }
    }
}

} // verus!
