//! A mutex for cooperative tasks: the owner is recorded by task id, and the
//! tasks that found it locked wait in its queue.
use vstd::prelude::*;
use crate::task::WaitQueue;

verus! {

/// A mutual exclusion lock around a value of type `T`: a task that finds it
/// locked waits in its queue, and unlocking wakes every waiting task. Task id
/// 0 stands for no owner.
pub struct Mutex<T> {
    wq: WaitQueue,
    owner_task: u64,
    data: T,
}

impl<T> Mutex<T> {
    /// The task holding the lock, or 0.
    pub closed spec fn owner(&self) -> u64 {
        self.owner_task
    }

    /// The tasks waiting for the lock, in the order they began to wait.
    pub closed spec fn waiters(&self) -> Seq<u64> {
        self.wq@
    }

    /// The protected value.
    pub closed spec fn data(&self) -> T {
        self.data
    }

    /// No task waits twice.
    pub closed spec fn wf(&self) -> bool {
        self.wq.wf()
    }

    /// An unlocked mutex around `data`, with nobody waiting.
    pub fn new(data: T) -> (m: Self)
        ensures
            m.wf(),
            m.owner() == 0,
            m.waiters() == Seq::<u64>::empty(),
            m.data() == data,
    {
        Mutex { wq: WaitQueue::new(), owner_task: 0, data }
    }

    /// The protected value, taking the mutex apart.
    pub fn into_inner(self) -> (d: T)
        ensures
            d == self.data(),
    {
        self.data
    }

    /// Whether some task holds the lock.
    pub fn is_locked(&self) -> (b: bool)
        ensures
            b == (self.owner() != 0),
    {
        self.owner_task != 0
    }

    /// Task `task` takes the lock if it is free; returns whether it did.
    pub fn try_lock(&mut self, task: u64) -> (b: bool)
        requires
            task != 0,
        ensures
            final(self).wf() == old(self).wf(),
            b == (old(self).owner() == 0),
            final(self).owner() == if b { task } else { old(self).owner() },
            final(self).waiters() == old(self).waiters(),
            final(self).data() == old(self).data(),
    {
        if self.owner_task == 0 {
            self.owner_task = task;
            true
        } else {
            false
        }
    }

    /// One attempt of task `task`, which does not hold the lock, to take it
    /// while blocking: when the lock is free the task takes it and stops
    /// waiting, and `true` is returned; otherwise the task waits in the
    /// queue (the caller blocks it until woken, then tries again).
    pub fn lock(&mut self, task: u64) -> (b: bool)
        requires
            old(self).wf(),
            task != 0,
            old(self).owner() != task,
        ensures
            final(self).wf(),
            b == (old(self).owner() == 0),
            final(self).owner() == if b { task } else { old(self).owner() },
            b ==> final(self).waiters() == old(self).waiters().filter(|x: u64| x != task),
            !b ==> final(self).waiters() == if old(self).waiters().contains(task) {
                old(self).waiters()
            } else {
                old(self).waiters().push(task)
            },
            final(self).data() == old(self).data(),
    {
        if self.owner_task == 0 {
            self.owner_task = task;
            self.wq.remove(task);
            true
        } else {
            self.wq.prepare_to_wait(task);
            false
        }
    }

    /// Task `task`, which holds the lock, releases it; every waiting task is
    /// woken, and they are returned in the order they began to wait.
    pub fn force_unlock(&mut self, task: u64) -> (woken: Vec<u64>)
        requires
            old(self).wf(),
            old(self).owner() == task,
        ensures
            final(self).wf(),
            final(self).owner() == 0,
            woken@ == old(self).waiters(),
            final(self).waiters() == Seq::<u64>::empty(),
            final(self).data() == old(self).data(),
    {
        self.owner_task = 0;
        self.wq.notify_all()
    }

    /// The protected value, for a caller that holds the mutex exclusively.
    pub fn get_mut(&mut self) -> (d: &mut T)
        ensures
            *d == old(self).data(),
            final(self).data() == *final(d),
            final(self).owner() == old(self).owner(),
            final(self).waiters() == old(self).waiters(),
            final(self).wf() == old(self).wf(),
    {
        &mut self.data
    }
}

} // verus!
