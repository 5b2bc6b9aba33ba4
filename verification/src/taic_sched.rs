//! A scheduler over a local queue of the task-aware interrupt controller.
//!
//! The queue lives in the controller; the scheduler decides which request
//! each operation makes of it, as an `LqCmd` that the kernel issues.
use vstd::prelude::*;
use std::marker::PhantomData;

verus! {

/// A request to the controller's local queue.
#[derive(Debug, Clone, Copy, PartialEq, Eq, Structural)]
pub enum LqCmd {
    /// Allocate the local queue of system `os`, process `proc`.
    Alloc { os: usize, proc_id: usize },
    /// Allow sending interrupts to process `recv_proc` of system `recv_os`.
    RegisterSender { recv_os: usize, recv_proc: usize },
    /// Withdraw that permission.
    CancelSender { recv_os: usize, recv_proc: usize },
    /// Accept interrupts from process `send_proc` of system `send_os`,
    /// handled by task `handler`.
    RegisterReceiver { send_os: usize, send_proc: usize, handler: usize },
    /// Send an interrupt to process `recv_proc` of system `recv_os`.
    SendIntr { recv_os: usize, recv_proc: usize },
    /// Bind the queue to hart `hartid`.
    Whart { hartid: usize },
    /// Handle external interrupt `irq` by task `handler`.
    RegisterExtIntr { irq: usize, handler: usize },
    /// Put task `tid` at the back of the queue.
    Enqueue { tid: usize },
    /// Take the task at the front of the queue, if any.
    Dequeue,
}

/// A task wrapper for the scheduler.
pub struct TAICTask<T> {
    inner: T,
}

impl<T> TAICTask<T> {
    /// The wrapped task.
    pub closed spec fn task(&self) -> T {
        self.inner
    }

    /// Wraps `inner`.
    pub fn new(inner: T) -> (t: Self)
        ensures
            t.task() == inner,
    {
        TAICTask { inner }
    }

    /// The wrapped task.
    pub fn inner(&self) -> (r: &T)
        ensures
            *r == self.task(),
    {
        &self.inner
    }
}

/// System that the scheduler's local queue belongs to.
pub const LQ_OS: usize = 1;
/// Process that the scheduler's local queue belongs to.
pub const LQ_PROC: usize = 0;

/// A scheduler over the local queue of system `LQ_OS`, process `LQ_PROC`.
pub struct TAICScheduler<T> {
    os: usize,
    proc_id: usize,
    _phantom: PhantomData<T>,
}

impl<T> TAICScheduler<T> {
    /// The system and process whose local queue the scheduler uses.
    pub closed spec fn queue(&self) -> (usize, usize) {
        (self.os, self.proc_id)
    }

    /// A scheduler, with the request that allocates its local queue.
    pub fn new() -> (r: (Self, LqCmd))
        ensures
            r.0.queue() == (LQ_OS, LQ_PROC),
            r.1 == (LqCmd::Alloc { os: LQ_OS, proc_id: LQ_PROC }),
    {
        (TAICScheduler { os: LQ_OS, proc_id: LQ_PROC, _phantom: PhantomData }, LqCmd::Alloc { os: LQ_OS, proc_id: LQ_PROC })
    }

    /// The scheduler's name.
    pub fn scheduler_name() -> (s: &'static str)
        ensures
            s@ == "Taic"@,
    {
        "Taic"
    }

    /// Allows sending interrupts to process `recv_proc` of system `recv_os`.
    pub fn register_sender(&self, recv_os: usize, recv_proc: usize) -> (c: LqCmd)
        ensures
            c == (LqCmd::RegisterSender { recv_os, recv_proc }),
    {
        LqCmd::RegisterSender { recv_os, recv_proc }
    }

    /// Withdraws the permission to send to process `recv_proc` of system
    /// `recv_os`.
    pub fn cancel_sender(&self, recv_os: usize, recv_proc: usize) -> (c: LqCmd)
        ensures
            c == (LqCmd::CancelSender { recv_os, recv_proc }),
    {
        LqCmd::CancelSender { recv_os, recv_proc }
    }

    /// Accepts interrupts from process `send_proc` of system `send_os`,
    /// handled by task `handler`.
    pub fn register_receiver(&self, send_os: usize, send_proc: usize, handler: usize) -> (c: LqCmd)
        ensures
            c == (LqCmd::RegisterReceiver { send_os, send_proc, handler }),
    {
        LqCmd::RegisterReceiver { send_os, send_proc, handler }
    }

    /// Sends an interrupt to process `recv_proc` of system `recv_os`.
    pub fn send_intr(&self, recv_os: usize, recv_proc: usize) -> (c: LqCmd)
        ensures
            c == (LqCmd::SendIntr { recv_os, recv_proc }),
    {
        LqCmd::SendIntr { recv_os, recv_proc }
    }

    /// Binds the queue to hart `hartid`.
    pub fn whart(&self, hartid: usize) -> (c: LqCmd)
        ensures
            c == (LqCmd::Whart { hartid }),
    {
        LqCmd::Whart { hartid }
    }

    /// Handles external interrupt `irq` by task `handler`.
    pub fn register_extintr(&self, irq: usize, handler: usize) -> (c: LqCmd)
        ensures
            c == (LqCmd::RegisterExtIntr { irq, handler }),
    {
        LqCmd::RegisterExtIntr { irq, handler }
    }

    /// Prepares the scheduler; the local queue needs nothing more.
    pub fn init(&mut self)
        ensures
            final(self).queue() == old(self).queue(),
    {
    }

    /// Queues task `tid`.
    pub fn add_task(&mut self, tid: usize) -> (c: LqCmd)
        ensures
            c == (LqCmd::Enqueue { tid }),
            final(self).queue() == old(self).queue(),
    {
        LqCmd::Enqueue { tid }
    }

    /// Queues the task that ran last, whether or not it was preempted.
    pub fn put_prev_task(&mut self, prev: usize, preempt: bool) -> (c: LqCmd)
        ensures
            c == (LqCmd::Enqueue { tid: prev }),
            final(self).queue() == old(self).queue(),
    {
        self.add_task(prev)
    }

    /// Takes the next task to run: the controller answers the request with
    /// the task at the front of the queue, if any.
    pub fn pick_next_task(&mut self) -> (c: LqCmd)
        ensures
            c == LqCmd::Dequeue,
            final(self).queue() == old(self).queue(),
    {
        LqCmd::Dequeue
    }

    /// A tick never asks for rescheduling.
    pub fn task_tick(&mut self, current: usize) -> (b: bool)
        ensures
            !b,
            final(self).queue() == old(self).queue(),
    {
        false
    }

    /// Priorities are not supported.
    pub fn set_priority(&mut self, task: usize, prio: isize) -> (b: bool)
        ensures
            !b,
            final(self).queue() == old(self).queue(),
    {
        false
    }
}

} // verus!
