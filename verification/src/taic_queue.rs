//! The capability table and queues that the task-aware interrupt controller
//! keeps for each local queue.
use vstd::prelude::*;

verus! {

/// Number of external interrupt lines.
pub const MAX_EXT_IRQ: usize = 16;

/// The identifier of a task as the controller sees it; `EMPTY` marks an
/// unused slot.
#[derive(Debug, Clone, Copy, PartialEq, Eq, Structural)]
pub struct TaskId(pub usize);

/// The identifier of no task.
pub open spec fn no_task() -> TaskId {
    TaskId(0)
}

impl TaskId {
    /// The identifier of no task.
    pub fn empty() -> (t: TaskId)
        ensures
            t == no_task(),
    {
        TaskId(0)
    }
}

/// A capability: which task it names and where it may send to.
#[derive(Debug, Clone, Copy, PartialEq, Eq, Structural)]
pub struct Capability {
    pub task_id: TaskId,
    pub target_os_id: TaskId,
    pub target_proc_id: TaskId,
    pub target_task_id: TaskId,
}

/// Whether `c` names a task but no target system or process: a device's
/// capability.
pub open spec fn device_cap(c: Capability) -> bool {
    c.task_id != no_task() && c.target_os_id == no_task() && c.target_proc_id == no_task()
}

/// The tasks named by the device capabilities among `s`, in order.
pub open spec fn device_tasks(s: Seq<Capability>) -> Seq<TaskId>
    decreases s.len(),
{
    if s.len() == 0 {
        Seq::empty()
    } else {
        device_tasks(s.drop_last()) + if device_cap(s.last()) { seq![s.last().task_id] } else { Seq::empty() }
    }
}

impl Capability {
    /// The capability of nothing.
    pub fn empty() -> (c: Capability)
        ensures
            c == (Capability { task_id: no_task(), target_os_id: no_task(), target_proc_id: no_task(), target_task_id: no_task() }),
    {
        Capability { task_id: TaskId(0), target_os_id: TaskId(0), target_proc_id: TaskId(0), target_task_id: TaskId(0) }
    }

    /// Whether this is a device's capability: it names a task but no target
    /// system or process.
    pub fn is_device_cap(&self) -> (b: bool)
        ensures
            b == device_cap(*self),
    {
        self.task_id.0 != 0 && self.target_os_id.0 == 0 && self.target_proc_id.0 == 0
    }
}

/// The capabilities of the external interrupt lines.
#[derive(Debug)]
pub struct DeviceCapTable(pub [Capability; MAX_EXT_IRQ]);

impl DeviceCapTable {
    /// A table without capabilities.
    pub fn empty() -> (t: DeviceCapTable)
        ensures
            forall|i: int| 0 <= i < MAX_EXT_IRQ ==> #[trigger] t.0@[i] == (Capability {
                task_id: no_task(), target_os_id: no_task(), target_proc_id: no_task(), target_task_id: no_task() }),
    {
        let e = Capability::empty();
        DeviceCapTable([e, e, e, e, e, e, e, e, e, e, e, e, e, e, e, e])
    }

    /// The tasks of the device capabilities in the table, in line order.
    pub fn iter(&self) -> (v: Vec<TaskId>)
        ensures
            v@ == device_tasks(self.0@),
    {
        let mut v: Vec<TaskId> = Vec::new();
        let mut i: usize = 0;
        proof {
            assert(self.0@.take(0) =~= Seq::<Capability>::empty());
        }
        while i < MAX_EXT_IRQ
            invariant
                i <= MAX_EXT_IRQ,
                self.0@.len() == MAX_EXT_IRQ,
                v@ == device_tasks(self.0@.take(i as int)),
            decreases MAX_EXT_IRQ - i,
        {
            let c = self.0[i];
            proof {
                assert(self.0@.take(i + 1).drop_last() =~= self.0@.take(i as int));
                assert(self.0@.take(i + 1).last() == c);
            }
            if c.is_device_cap() {
                v.push(c.task_id);
            }
            i = i + 1;
        }
        proof {
            assert(self.0@.take(MAX_EXT_IRQ as int) =~= self.0@);
        }
        v
    }
}

/// A queue of capabilities.
#[derive(Debug)]
pub struct CapQueue {
    pub inner: Vec<Capability>,
    pub online: bool,
    pub count: usize,
}

impl CapQueue {
    /// An empty queue, offline.
    pub fn empty() -> (q: Self)
        ensures
            q.inner@ == Seq::<Capability>::empty(),
            !q.online,
            q.count == 0,
    {
        CapQueue { inner: Vec::new(), online: false, count: 0 }
    }
}

/// A queue of ready tasks.
#[derive(Debug)]
pub struct ReadyQueue {
    pub inner: Vec<TaskId>,
    pub online: bool,
    pub count: usize,
}

impl ReadyQueue {
    /// An empty queue, offline.
    pub fn empty() -> (q: Self)
        ensures
            q.inner@ == Seq::<TaskId>::empty(),
            !q.online,
            q.count == 0,
    {
        ReadyQueue { inner: Vec::new(), online: false, count: 0 }
    }
}

} // verus!
