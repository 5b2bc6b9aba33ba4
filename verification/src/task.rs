//! Task handles and wait queues.
use vstd::prelude::*;

verus! {

/// A queue of tasks waiting for an event, by task id, in the order they
/// began to wait; a task waits at most once.
pub struct WaitQueue {
    waiters: Vec<u64>,
}

/// Whether no task occurs twice in `s`.
pub open spec fn distinct(s: Seq<u64>) -> bool {
    forall|i: int, j: int| 0 <= i < j < s.len() ==> s[i] != s[j]
}

impl WaitQueue {
    /// The waiting tasks, in the order they began to wait.
    pub closed spec fn view(&self) -> Seq<u64> {
        self.waiters@
    }

    /// Whether no task waits twice.
    pub open spec fn wf(&self) -> bool {
        distinct(self@)
    }

    /// An empty wait queue.
    pub fn new() -> (q: Self)
        ensures
            q.wf(),
            q@ == Seq::<u64>::empty(),
    {
        let q = WaitQueue { waiters: Vec::new() };
        assert(q@ =~= Seq::<u64>::empty());
        q
    }

    /// Whether task `id` waits.
    pub fn contains(&self, id: u64) -> (b: bool)
        ensures
            b == self@.contains(id),
    {
        let mut i: usize = 0;
        while i < self.waiters.len()
            invariant
                i <= self@.len(),
                forall|k: int| 0 <= k < i ==> self@[k] != id,
            decreases self@.len() - i,
        {
            if self.waiters[i] == id {
                return true;
            }
            i = i + 1;
        }
        false
    }

    /// Task `id` begins to wait, unless it already does.
    pub fn prepare_to_wait(&mut self, id: u64)
        requires
            old(self).wf(),
        ensures
            final(self).wf(),
            final(self)@ == if old(self)@.contains(id) { old(self)@ } else { old(self)@.push(id) },
    {
        if !self.contains(id) {
            self.waiters.push(id);
        }
    }

    /// Task `id` stops waiting; returns whether it waited.
    pub fn remove(&mut self, id: u64) -> (b: bool)
        requires
            old(self).wf(),
        ensures
            final(self).wf(),
            b == old(self)@.contains(id),
            final(self)@ == old(self)@.filter(|x: u64| x != id),
    {
        let mut i: usize = 0;
        while i < self.waiters.len()
            invariant
                i <= self@.len(),
                self@ == old(self)@,
                distinct(self@),
                forall|k: int| 0 <= k < i ==> self@[k] != id,
            decreases self@.len() - i,
        {
            if self.waiters[i] == id {
                let ghost s = self@;
                self.waiters.remove(i);
                proof {
                    assert forall|k: int| 0 <= k < s.len() && s[k] == id implies k == i by {}
                    assert(self@ =~= s.filter(|x: u64| x != id)) by {
                        s.filter_lemma(|x: u64| x != id);
                        assert(s =~= s.take(i as int) + s.skip(i as int));
                        assert forall|k: int| 0 <= k < i implies s.take(i as int)[k] != id by {}
                        assert(s.take(i as int).filter(|x: u64| x != id) =~= s.take(i as int)) by {
                            lemma_filter_keeps_all(s.take(i as int), id);
                        }
                        assert(s.skip(i as int) =~= seq![id] + s.skip(i + 1));
                        lemma_filter_keeps_all(s.skip(i + 1), id);
                        assert(s.skip(i + 1).filter(|x: u64| x != id) =~= s.skip(i + 1));
                        Seq::filter_distributes_over_add(s.take(i as int), s.skip(i as int), |x: u64| x != id);
                        Seq::filter_distributes_over_add(seq![id], s.skip(i + 1), |x: u64| x != id);
                        assert(seq![id].filter(|x: u64| x != id) =~= Seq::<u64>::empty()) by {
                            reveal_with_fuel(Seq::filter, 2);
                        }
                    }
                    assert(s.contains(id)) by {
                        assert(s[i as int] == id);
                    }
                }
                return true;
            }
            i = i + 1;
        }
        proof {
            lemma_filter_keeps_all(self@, id);
        }
        false
    }

    /// Wakes task `id` if it waits; returns whether it did.
    pub fn notify_task(&mut self, id: u64) -> (b: bool)
        requires
            old(self).wf(),
        ensures
            final(self).wf(),
            b == old(self)@.contains(id),
            final(self)@ == old(self)@.filter(|x: u64| x != id),
    {
        self.remove(id)
    }

    /// One round of task `id` waiting until a condition holds, given whether
    /// it holds now: when it does, the task stops waiting and `true` is
    /// returned; otherwise the task begins to wait (the caller blocks it
    /// until woken, then calls again).
    pub fn wait_until_step(&mut self, id: u64, condition: bool) -> (done: bool)
        requires
            old(self).wf(),
        ensures
            final(self).wf(),
            done == condition,
            condition ==> final(self)@ == old(self)@.filter(|x: u64| x != id),
            !condition ==> final(self)@ == if old(self)@.contains(id) {
                old(self)@
            } else {
                old(self)@.push(id)
            },
    {
        if condition {
            self.remove(id);
            true
        } else {
            self.prepare_to_wait(id);
            false
        }
    }

    /// Task `id` woke from a wait with a deadline: when the deadline has
    /// passed it stops waiting and `true` (timed out) is returned; otherwise
    /// nothing changes and it goes on waiting for its condition.
    pub fn wake_check(&mut self, id: u64, deadline_passed: bool) -> (timed_out: bool)
        requires
            old(self).wf(),
        ensures
            final(self).wf(),
            timed_out == deadline_passed,
            deadline_passed ==> final(self)@ == old(self)@.filter(|x: u64| x != id),
            !deadline_passed ==> final(self)@ == old(self)@,
    {
        if deadline_passed {
            self.remove(id);
            true
        } else {
            false
        }
    }

    /// Wakes the task that has waited longest, if any.
    pub fn notify_one(&mut self) -> (r: Option<u64>)
        requires
            old(self).wf(),
        ensures
            final(self).wf(),
            old(self)@.len() == 0 ==> r is None && final(self)@ == old(self)@,
            old(self)@.len() > 0 ==> r == Some(old(self)@[0]) && final(self)@ == old(self)@.drop_first(),
    {
        if self.waiters.len() == 0 {
            None
        } else {
            let id = self.waiters.remove(0);
            assert(self@ =~= old(self)@.drop_first());
            Some(id)
        }
    }

    /// Wakes every waiting task; returns them in the order they waited.
    pub fn notify_all(&mut self) -> (r: Vec<u64>)
        requires
            old(self).wf(),
        ensures
            final(self).wf(),
            r@ == old(self)@,
            final(self)@ == Seq::<u64>::empty(),
    {
        let mut r: Vec<u64> = Vec::new();
        std::mem::swap(&mut r, &mut self.waiters);
        assert(self@ =~= Seq::<u64>::empty());
        r
    }
}

/// Filtering out a value that does not occur keeps the sequence.
pub proof fn lemma_filter_keeps_all(s: Seq<u64>, id: u64)
    requires
        forall|k: int| 0 <= k < s.len() ==> s[k] != id,
    ensures
        s.filter(|x: u64| x != id) == s,
    decreases s.len(),
{
    reveal(Seq::filter);
    if s.len() > 0 {
        lemma_filter_keeps_all(s.drop_last(), id);
        assert(s.drop_last().push(s.last()) =~= s);
    }
    assert(s.filter(|x: u64| x != id) =~= s);
}

/// A task that begins to wait and then stops waiting leaves the queue as it
/// was, when it was not waiting before.
pub proof fn lemma_wait_then_remove(s: Seq<u64>, id: u64)
    requires
        !s.contains(id),
    ensures
        s.push(id).filter(|x: u64| x != id) == s,
{
    assert forall|k: int| 0 <= k < s.len() implies s[k] != id by {
        if s[k] == id {
            assert(s.contains(id));
        }
    }
    lemma_filter_keeps_all(s, id);
    assert(s.push(id) =~= s + seq![id]);
    Seq::filter_distributes_over_add(s, seq![id], |x: u64| x != id);
    assert(seq![id].filter(|x: u64| x != id) =~= Seq::<u64>::empty()) by {
        reveal_with_fuel(Seq::filter, 2);
    }
    assert(s.push(id).filter(|x: u64| x != id) =~= s);
}

/// A handle to a wait queue.
pub struct WaitQueueHandle(WaitQueue);

impl WaitQueueHandle {
    /// The waiting tasks, in the order they began to wait.
    pub closed spec fn view(&self) -> Seq<u64> {
        self.0@
    }

    /// Whether no task waits twice.
    pub closed spec fn wf(&self) -> bool {
        self.0.wf()
    }

    /// A handle to a new empty wait queue.
    pub fn new() -> (h: Self)
        ensures
            h.wf(),
            h@ == Seq::<u64>::empty(),
    {
        WaitQueueHandle(WaitQueue::new())
    }

    /// Task `id` begins to wait, unless it already does.
    pub fn prepare_to_wait(&mut self, id: u64)
        requires
            old(self).wf(),
        ensures
            final(self).wf(),
            final(self)@ == if old(self)@.contains(id) { old(self)@ } else { old(self)@.push(id) },
    {
        self.0.prepare_to_wait(id)
    }
}

/// Wakes the `count` tasks of `wq` that have waited longest, or every task
/// when `count` is `u32::MAX`. Returns the woken tasks in the order they
/// waited.
pub fn wait_queue_wake(wq: &mut WaitQueueHandle, count: u32) -> (woken: Vec<u64>)
    requires
        old(wq).wf(),
    ensures
        final(wq).wf(),
        count == u32::MAX ==> woken@ == old(wq)@ && final(wq)@ == Seq::<u64>::empty(),
        count != u32::MAX ==> {
            let n = if count < old(wq)@.len() { count as int } else { old(wq)@.len() as int };
            &&& woken@ == old(wq)@.take(n)
            &&& final(wq)@ == old(wq)@.skip(n)
        },
{
    if count == u32::MAX {
        return wq.0.notify_all();
    }
    let mut woken: Vec<u64> = Vec::new();
    let mut i: u32 = 0;
    let ghost s = wq@;
    while i < count
        invariant
            wq.wf(),
            i <= count,
            count != u32::MAX,
            woken@ == s.take(if i < s.len() { i as int } else { s.len() as int }),
            wq@ == s.skip(if i < s.len() { i as int } else { s.len() as int }),
        decreases count - i,
    {
        let r = wq.0.notify_one();
        match r {
            Some(id) => {
                woken.push(id);
            },
            None => {},
        }
        proof {
            if i < s.len() {
                assert(s.skip(i as int)[0] == s[i as int]);
                assert(s.skip(i as int).drop_first() =~= s.skip(i + 1));
                assert(woken@ =~= s.take(i + 1));
            }
        }
        i = i + 1;
    }
    woken
}

/// A unique identifier of a running task; never zero.
#[derive(Debug, Clone, Copy, PartialEq, Eq, Structural)]
pub struct Tid(u64);

impl Tid {
    /// The number.
    pub closed spec fn value(&self) -> u64 {
        self.0
    }

    /// Whether the identifier is not zero.
    pub closed spec fn wf(&self) -> bool {
        self.0 != 0
    }

    /// The numeric identifier of the task.
    pub fn as_u64(&self) -> (v: u64)
        requires
            self.wf(),
        ensures
            v == self.value(),
            v != 0,
    {
        self.0
    }
}

/// Two task identifiers are equal exactly when their numbers are.
pub proof fn lemma_tid_eq(t1: Tid, t2: Tid)
    ensures
        (t1 == t2) == (t1.value() == t2.value()),
{
}

/// A handle to a task.
pub struct Task {
    id: Tid,
}

impl Task {
    /// The handle of the task with id `id`, which is not zero.
    pub fn from_id(id: u64) -> (t: Self)
        requires
            id != 0,
        ensures
            t.tid().wf(),
            t.tid().value() == id,
    {
        Task { id: Tid(id) }
    }

    /// The task's identifier.
    pub closed spec fn tid(&self) -> Tid {
        self.id
    }

    /// The task's unique identifier.
    pub fn id(&self) -> (t: Tid)
        ensures
            t == self.tid(),
    {
        self.id
    }
}

/// The handle of the running task, whose id the task layer reports as
/// `current_id`.
pub fn current(current_id: u64) -> (t: Task)
    requires
        current_id != 0,
    ensures
        t.tid().wf(),
        t.tid().value() == current_id,
{
    Task::from_id(current_id)
}

/// Configuration of a task to spawn.
#[derive(Debug)]
pub struct Builder {
    name: Option<String>,
}

impl Builder {
    /// The name given to the task, if any.
    pub closed spec fn task_name(&self) -> Option<Seq<char>> {
        match self.name {
            Some(n) => Some(n@),
            None => None,
        }
    }

    /// The base configuration: no name.
    pub fn new() -> (b: Builder)
        ensures
            b.task_name() is None,
    {
        Builder { name: None }
    }

    /// Names the task.
    pub fn name(self, name: String) -> (b: Builder)
        ensures
            b.task_name() == Some(name@),
    {
        let mut b = self;
        b.name = Some(name);
        b
    }

    /// The name the spawned task gets: the given one, or the empty name.
    pub fn take_name(self) -> (n: String)
        ensures
            n@ == match self.task_name() {
                Some(s) => s,
                None => Seq::<char>::empty(),
            },
    {
        match self.name {
            Some(n) => n,
            None => String::new(),
        }
    }
}

/// I/O poll results.
#[derive(Debug, Clone, Copy, PartialEq, Eq, Structural)]
pub struct PollState {
    /// The object can be read now.
    pub readable: bool,
    /// The object can be written now.
    pub writable: bool,
}

impl Default for PollState {
    fn default() -> (p: Self)
        ensures
            !p.readable && !p.writable,
    {
        PollState { readable: false, writable: false }
    }
}


/// Why joining a task gave no result.
#[derive(Debug, Clone, Copy, PartialEq, Eq, Structural)]
pub enum JoinError {
    /// The task ended without a result, or the result was taken already.
    BadState,
}

/// The outcome of joining a task, ready to be taken once.
pub struct JoinFutureHandle<T> {
    res: Option<Result<T, JoinError>>,
}

impl<T> JoinFutureHandle<T> {
    /// The outcome not taken yet, if any.
    pub closed spec fn outcome(&self) -> Option<Result<T, JoinError>> {
        self.res
    }

    /// The outcome of a join: `BadState` when the task could not be joined
    /// (`joined` false) or left no result, the result otherwise.
    pub fn new(joined: bool, result: Option<T>) -> (h: Self)
        ensures
            h.outcome() == Some(if !joined {
                Err::<T, JoinError>(JoinError::BadState)
            } else {
                match result {
                    Some(v) => Ok(v),
                    None => Err(JoinError::BadState),
                }
            }),
    {
        let res = if !joined {
            Err(JoinError::BadState)
        } else {
            match result {
                Some(v) => Ok(v),
                None => Err(JoinError::BadState),
            }
        };
        JoinFutureHandle { res: Some(res) }
    }

    /// Takes the outcome, which is there.
    pub fn take(&mut self) -> (r: Result<T, JoinError>)
        requires
            old(self).outcome() is Some,
        ensures
            Some(r) == old(self).outcome(),
            final(self).outcome() is None,
    {
        let mut res: Option<Result<T, JoinError>> = None;
        std::mem::swap(&mut res, &mut self.res);
        match res {
            Some(r) => r,
            None => Err(JoinError::BadState),
        }
    }
}

} // verus!
