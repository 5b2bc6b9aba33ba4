//! Process bookkeeping decisions: file-descriptor allocation, waiting for
//! children, and what a task's exit asks of its parent and children.
use vstd::prelude::*;

verus! {

/// The process that adopts orphans and never reports an exit.
pub const KERNEL_PROCESS_ID: u64 = 1;

/// Signal sent to the parent when a process exits, unless the task asked for
/// another one.
pub const SIGCHLD: u32 = 17;

/// How many descriptors a process may hold at first.
pub const FD_LIMIT_ORIGIN: usize = 1025;

/// Errors of process bookkeeping.
#[derive(Debug, Clone, Copy, PartialEq, Eq, Structural)]
pub enum ProcError {
    /// The descriptor table is full.
    StorageFull,
}

/// Why waiting for a child found none to reap.
#[derive(Debug, Clone, Copy, PartialEq, Eq, Structural)]
pub enum WaitStatus {
    /// A child that was waited for has exited.
    Exited,
    /// The children waited for are still running.
    Running,
    /// No child matches.
    NotExist,
}

/// What a process's parent sees of it: its id, whether it has exited, and
/// its exit code.
#[derive(Debug, Clone, Copy, PartialEq, Eq, Structural)]
pub struct ChildState {
    pub pid: u64,
    pub zombie: bool,
    pub exit_code: isize,
}

impl ChildState {
    /// The exit code of the process if it has exited.
    pub fn get_code_if_exit(&self) -> (r: Option<isize>)
        ensures
            r == if self.zombie { Some(self.exit_code) } else { None },
    {
        if self.zombie {
            Some(self.exit_code)
        } else {
            None
        }
    }
}

/// The first free slot of `fd_table`, if any.
pub open spec fn first_free(fd_table: Seq<bool>) -> Option<int> {
    if exists|i: int| 0 <= i < fd_table.len() && !fd_table[i] {
        Some(choose|i: int| 0 <= i < fd_table.len() && !fd_table[i]
            && forall|j: int| 0 <= j < i ==> fd_table[j])
    } else {
        None
    }
}

/// Which slots of a descriptor table hold a file.
pub open spec fn used_slots<T>(fd_table: Seq<Option<T>>) -> Seq<bool> {
    fd_table.map_values(|f: Option<T>| f is Some)
}

/// What allocating a descriptor in table `t` with `limit` does: the lowest
/// free slot is taken; without one, a new slot is added at the end while the
/// table holds fewer than `limit` slots, and otherwise `StorageFull`.
pub open spec fn alloc_fd_outcome<T>(t: Seq<Option<T>>, limit: usize, r: Result<usize, ProcError>, t2: Seq<
    Option<T>,
>) -> bool {
    match first_free(used_slots(t)) {
        Some(i) => r == Ok::<usize, ProcError>(i as usize) && t2 == t,
        None => if t.len() >= limit {
            r == Err::<usize, ProcError>(ProcError::StorageFull) && t2 == t
        } else {
            r == Ok::<usize, ProcError>(t.len() as usize) && t2 == t.push(None)
        },
    }
}

/// Allocates a descriptor in `fd_table`: the lowest free slot, or a new slot
/// at the end while the table holds fewer than `limit` slots.
pub fn alloc_fd<T>(fd_table: &mut Vec<Option<T>>, limit: usize) -> (r: Result<usize, ProcError>)
    ensures
        alloc_fd_outcome(old(fd_table)@, limit, r, final(fd_table)@),
{
    let ghost used = used_slots(fd_table@);
    let mut i: usize = 0;
    while i < fd_table.len()
        invariant
            used == used_slots(fd_table@),
            fd_table@ == old(fd_table)@,
            i <= fd_table@.len(),
            forall|j: int| 0 <= j < i ==> used[j],
        decreases fd_table@.len() - i,
    {
        if fd_table[i].is_none() {
            proof {
                assert(!used[i as int]);
                let w = first_free(used);
                assert(w is Some);
                let c = w->0;
                if c != i {
                    if c < i {
                        assert(used[c]);
                    } else {
                        assert(used[i as int]);
                    }
                }
            }
            return Ok(i);
        }
        i = i + 1;
    }
    if fd_table.len() >= limit {
        return Err(ProcError::StorageFull);
    }
    fd_table.push(None);
    Ok(fd_table.len() - 1)
}

/// The status word a waiter reads for exit code `code`: the low byte of the
/// code shifted into the second byte.
pub open spec fn wait_word(code: isize) -> i32 {
    ((code as i32) << 8u32) as i32
}

/// The outcome of waiting for `pid` among `children` (`pid` at most 0 waits
/// for any child): the position of the child to reap, or why there is none.
pub open spec fn wait_outcome(children: Seq<ChildState>, pid: i32) -> Result<int, WaitStatus> {
    if pid <= 0 {
        if exists|i: int| 0 <= i < children.len() && children[i].zombie {
            Ok(choose|i: int| 0 <= i < children.len() && children[i].zombie
                && forall|j: int| 0 <= j < i ==> !children[j].zombie)
        } else if children.len() > 0 {
            Err(WaitStatus::Running)
        } else {
            Err(WaitStatus::NotExist)
        }
    } else {
        if exists|i: int| 0 <= i < children.len() && children[i].pid == pid as u64 {
            let i = choose|i: int| 0 <= i < children.len() && children[i].pid == pid as u64
                && forall|j: int| 0 <= j < i ==> children[j].pid != pid as u64;
            if children[i].zombie { Ok(i) } else { Err(WaitStatus::Running) }
        } else {
            Err(WaitStatus::NotExist)
        }
    }
}

/// Waits for child `pid` (any child when `pid` is at most 0): reaps the
/// first matching child that has exited, removing it from `children`, and
/// returns its id with the status word for its exit code.
pub fn wait_pid(children: &mut Vec<ChildState>, pid: i32) -> (r: Result<(u64, i32), WaitStatus>)
    ensures
        match wait_outcome(old(children)@, pid) {
            Ok(i) => r == Ok::<(u64, i32), WaitStatus>((old(children)@[i].pid, wait_word(old(children)@[i].exit_code)))
                && final(children)@ == old(children)@.remove(i),
            Err(s) => r == Err::<(u64, i32), WaitStatus>(s) && final(children)@ == old(children)@,
        },
{
    let ghost s = children@;
    let mut i: usize = 0;
    while i < children.len()
        invariant
            children@ == s,
            s == old(children)@,
            i <= s.len(),
            pid <= 0 ==> forall|j: int| 0 <= j < i ==> !s[j].zombie,
            pid > 0 ==> forall|j: int| 0 <= j < i ==> s[j].pid != pid as u64,
        decreases s.len() - i,
    {
        let c = children[i];
        if pid <= 0 {
            if let Some(code) = c.get_code_if_exit() {
                let word: i32 = (code as i32) << 8u32;
                children.remove(i);
                proof {
                    let w = choose|k: int| 0 <= k < s.len() && s[k].zombie && forall|j: int| 0 <= j < k ==> !s[j].zombie;
                    assert(s[i as int].zombie);
                    if w != i {
                        if w < i {
                            assert(!s[w].zombie);
                        } else {
                            assert(!s[i as int].zombie);
                        }
                    }
                    assert(wait_outcome(s, pid) == Ok::<int, WaitStatus>(i as int));
                    assert(children@ =~= s.remove(i as int));
                    assert(word == wait_word(s[i as int].exit_code));
                }
                return Ok((c.pid, word));
            }
        } else if c.pid == pid as u64 {
            proof {
                let w = choose|k: int| 0 <= k < s.len() && s[k].pid == pid as u64 && forall|j: int| 0 <= j < k ==> s[j].pid != pid as u64;
                assert(s[i as int].pid == pid as u64);
                if w != i {
                    if w < i {
                        assert(s[w].pid != pid as u64);
                    } else {
                        assert(s[i as int].pid != pid as u64);
                    }
                }
                assert(w == i);
            }
            match c.get_code_if_exit() {
                Some(code) => {
                    let word: i32 = (code as i32) << 8u32;
                    children.remove(i);
                    proof {
                        assert(wait_outcome(s, pid) == Ok::<int, WaitStatus>(i as int));
                        assert(children@ =~= s.remove(i as int));
                        assert(word == wait_word(s[i as int].exit_code));
                    }
                    return Ok((c.pid, word));
                },
                None => {
                    assert(wait_outcome(s, pid) == Err::<int, WaitStatus>(WaitStatus::Running));
                    return Err(WaitStatus::Running);
                },
            }
        }
        i = i + 1;
    }
    if pid <= 0 && children.len() > 0 {
        Err(WaitStatus::Running)
    } else {
        Err(WaitStatus::NotExist)
    }
}

/// Where the exit of a task sends a signal, and which.
pub open spec fn exit_signal_of(exit_signal: Option<u32>, is_leader: bool, parent: u64) -> Option<(u64, u32)> {
    if (exit_signal is Some || is_leader) && parent != KERNEL_PROCESS_ID {
        Some((parent, match exit_signal { Some(s) => s, None => SIGCHLD }))
    } else {
        None
    }
}

/// Where the exit of a task sends a signal: to the parent, when the task
/// asked for an exit signal or leads its process and the parent is not the
/// kernel; the signal is the one asked for, else `SIGCHLD`.
pub fn exit_signal_target(exit_signal: Option<u32>, is_leader: bool, parent: u64) -> (r: Option<(u64, u32)>)
    ensures
        r == exit_signal_of(exit_signal, is_leader, parent),
{
    if (exit_signal.is_some() || is_leader) && parent != KERNEL_PROCESS_ID {
        let sig = match exit_signal {
            Some(s) => s,
            None => SIGCHLD,
        };
        Some((parent, sig))
    } else {
        None
    }
}

/// Hands the children of an exiting process to the kernel process: each
/// gets the kernel process as parent and joins its children, in order.
pub fn reparent_to_kernel(children: &mut Vec<u64>, kernel_children: &mut Vec<u64>, parents: &mut Vec<(u64, u64)>)
    ensures
        final(kernel_children)@ == old(kernel_children)@ + old(children)@,
        final(children)@ == Seq::<u64>::empty(),
        final(parents)@ == old(parents)@ + old(children)@.map_values(|c: u64| (c, KERNEL_PROCESS_ID)),
{
    let ghost cs = children@;
    let mut i: usize = 0;
    while i < children.len()
        invariant
            children@ == cs,
            i <= cs.len(),
            kernel_children@ == old(kernel_children)@ + cs.take(i as int),
            parents@ == old(parents)@ + cs.take(i as int).map_values(|c: u64| (c, KERNEL_PROCESS_ID)),
        decreases cs.len() - i,
    {
        let c = children[i];
        kernel_children.push(c);
        parents.push((c, KERNEL_PROCESS_ID));
        proof {
            assert(cs.take(i + 1) =~= cs.take(i as int).push(c));
            assert(kernel_children@ =~= old(kernel_children)@ + cs.take(i + 1));
            assert(parents@ =~= old(parents)@ + cs.take(i + 1).map_values(|c: u64| (c, KERNEL_PROCESS_ID)));
        }
        i = i + 1;
    }
    proof {
        assert(cs.take(cs.len() as int) =~= cs);
    }
    children.clear();
}

/// Removes task `id` from a process's task list; only its first entry goes.
pub fn remove_task(tasks: &mut Vec<u64>, id: u64) -> (removed: bool)
    ensures
        removed == old(tasks)@.contains(id),
        !removed ==> final(tasks)@ == old(tasks)@,
        removed ==> exists|i: int| 0 <= i < old(tasks)@.len() && old(tasks)@[i] == id
            && (forall|j: int| 0 <= j < i ==> old(tasks)@[j] != id)
            && final(tasks)@ == old(tasks)@.remove(i),
{
    let mut i: usize = 0;
    while i < tasks.len()
        invariant
            tasks@ == old(tasks)@,
            i <= tasks@.len(),
            forall|j: int| 0 <= j < i ==> tasks@[j] != id,
        decreases tasks@.len() - i,
    {
        if tasks[i] == id {
            tasks.remove(i);
            return true;
        }
        i = i + 1;
    }
    false
}

/// Flag of `clone`: the new task shares the address space.
pub const CLONE_VM: usize = 0x100;
/// Flag of `clone`: the new task has the caller's parent.
pub const CLONE_PARENT: usize = 0x8000;
/// Flag of `clone`: the new task is a thread of the caller's process.
pub const CLONE_THREAD: usize = 0x10000;

/// Flag of `clone`: the child's thread id is written at `ctid` in its
/// address space.
pub const CLONE_CHILD_SETTID: usize = 0x0100_0000;
/// Flag of `clone`: the word at `ctid` is cleared when the child exits.
pub const CLONE_CHILD_CLEARTID: usize = 0x0020_0000;
/// Flag of `clone`: the child's thread id is written at `ptid` in the
/// parent's address space.
pub const CLONE_PARENT_SETTID: usize = 0x0010_0000;

/// The word that `clone` with `flags` writes at `ctid` for a child with
/// thread id `tid`: its id (truncated to 32 bits) when the flags ask to set
/// it, 0 when they only ask to clear it at exit, and nothing otherwise.
pub fn clone_child_tid_word(flags: usize, tid: u64) -> (w: Option<i32>)
    ensures
        w == if flags & CLONE_CHILD_SETTID != 0 {
            Some(tid as i32)
        } else if flags & CLONE_CHILD_CLEARTID != 0 {
            Some(0i32)
        } else {
            None
        },
{
    if flags & CLONE_CHILD_SETTID != 0 {
        Some(tid as i32)
    } else if flags & CLONE_CHILD_CLEARTID != 0 {
        Some(0)
    } else {
        None
    }
}

/// The id that `clone` with `flags` returns: the new thread's for a thread,
/// the new process's otherwise.
pub fn clone_return_id(flags: usize, tid: u64, process_id: u64) -> (r: u64)
    ensures
        r == if flags & CLONE_THREAD != 0 { tid } else { process_id },
{
    if flags & CLONE_THREAD != 0 {
        tid
    } else {
        process_id
    }
}

/// The arguments a program is started with by `exec`: the given ones, or
/// its name alone when none are given.
pub fn exec_args(name: String, args: Vec<String>) -> (r: Vec<String>)
    ensures
        args@.len() == 0 ==> r@.len() == 1 && r@[0]@ == name@,
        args@.len() != 0 ==> r@ == args@,
{
    if args.len() == 0 {
        let mut v: Vec<String> = Vec::new();
        v.push(name);
        v
    } else {
        args
    }
}

/// The process and parent a task made by `clone` with `flags` belongs to,
/// given the caller's process `pid`, its parent, and a fresh id `new_id`.
pub fn clone_ids(flags: usize, pid: u64, parent: u64, new_id: u64) -> (r: (u64, u64))
    ensures
        r.0 == if flags & CLONE_THREAD != 0 { pid } else { new_id },
        r.1 == if flags & CLONE_PARENT != 0 { parent } else { pid },
{
    let process_id = if flags & CLONE_THREAD != 0 { pid } else { new_id };
    let parent_id = if flags & CLONE_PARENT != 0 { parent } else { pid };
    (process_id, parent_id)
}

/// The model of a process record.
pub struct ExecutorView {
    pub pid: u64,
    pub parent: u64,
    pub zombie: bool,
    pub exit_code: isize,
    pub heap_bottom: u64,
    pub heap_top: u64,
    pub stack_size: u64,
    pub vfork_blocked: bool,
    pub file_path: Seq<char>,
    pub main_task: Option<u64>,
    pub cwd: Seq<char>,
    pub fd_limit: usize,
}

/// The record of a process: its ids, exit status, heap bounds, stack size,
/// executable path, main task and working directory.
pub struct Executor {
    pid: u64,
    parent: u64,
    is_zombie: bool,
    exit_code: isize,
    heap_bottom: u64,
    heap_top: u64,
    stack_size: u64,
    blocked_by_vfork: bool,
    file_path: String,
    main_task: Option<u64>,
    cwd: String,
    fd_limit: usize,
}

impl Executor {
    /// The model of the record.
    pub closed spec fn view(&self) -> ExecutorView {
        ExecutorView {
            pid: self.pid,
            parent: self.parent,
            zombie: self.is_zombie,
            exit_code: self.exit_code,
            heap_bottom: self.heap_bottom,
            heap_top: self.heap_top,
            stack_size: self.stack_size,
            vfork_blocked: self.blocked_by_vfork,
            file_path: self.file_path@,
            main_task: self.main_task,
            cwd: self.cwd@,
            fd_limit: self.fd_limit,
        }
    }

    /// A running process `pid` with parent `parent`, whose heap starts (empty)
    /// at `heap_bottom`, working in `cwd`, with stacks of `stack_size`
    /// bytes; no executable path or main task yet.
    pub fn new(pid: u64, parent: u64, heap_bottom: u64, cwd: String, stack_size: u64) -> (e: Self)
        ensures
            e@ == (ExecutorView {
                pid,
                parent,
                zombie: false,
                exit_code: 0,
                heap_bottom,
                heap_top: heap_bottom,
                stack_size,
                vfork_blocked: false,
                file_path: Seq::<char>::empty(),
                main_task: None,
                cwd: cwd@,
                fd_limit: FD_LIMIT_ORIGIN,
            }),
    {
        Executor {
            pid,
            parent,
            is_zombie: false,
            exit_code: 0,
            heap_bottom,
            heap_top: heap_bottom,
            stack_size,
            blocked_by_vfork: false,
            file_path: String::new(),
            main_task: None,
            cwd,
            fd_limit: FD_LIMIT_ORIGIN,
        }
    }

    /// The kernel's own process: its own parent, heap at 0, working in `/`.
    pub fn new_init(stack_size: u64) -> (e: Self)
        ensures
            e@.pid == KERNEL_PROCESS_ID,
            e@.parent == KERNEL_PROCESS_ID,
            !e@.zombie,
            e@.exit_code == 0,
            e@.heap_bottom == 0,
            e@.heap_top == 0,
            e@.stack_size == stack_size,
            !e@.vfork_blocked,
            e@.file_path == Seq::<char>::empty(),
            e@.main_task is None,
            e@.cwd == seq!['/'],
            e@.fd_limit == FD_LIMIT_ORIGIN,
    {
        let root = "/".to_owned();
        proof {
            reveal_strlit("/");
        }
        Executor::new(KERNEL_PROCESS_ID, KERNEL_PROCESS_ID, 0, root, stack_size)
    }

    /// The process id.
    pub fn pid(&self) -> (p: u64)
        ensures
            p == self@.pid,
    {
        self.pid
    }

    /// The parent's id.
    pub fn get_parent(&self) -> (p: u64)
        ensures
            p == self@.parent,
    {
        self.parent
    }

    /// Sets the parent's id.
    pub fn set_parent(&mut self, parent: u64)
        ensures
            final(self)@ == (ExecutorView { parent, ..old(self)@ }),
    {
        self.parent = parent;
    }

    /// The exit code.
    pub fn get_exit_code(&self) -> (c: isize)
        ensures
            c == self@.exit_code,
    {
        self.exit_code
    }

    /// Sets the exit code.
    pub fn set_exit_code(&mut self, exit_code: isize)
        ensures
            final(self)@ == (ExecutorView { exit_code, ..old(self)@ }),
    {
        self.exit_code = exit_code;
    }

    /// Whether the process has exited and waits to be reaped.
    pub fn get_zombie(&self) -> (z: bool)
        ensures
            z == self@.zombie,
    {
        self.is_zombie
    }

    /// Sets whether the process has exited.
    pub fn set_zombie(&mut self, status: bool)
        ensures
            final(self)@ == (ExecutorView { zombie: status, ..old(self)@ }),
    {
        self.is_zombie = status;
    }

    /// The top of the heap.
    pub fn get_heap_top(&self) -> (t: u64)
        ensures
            t == self@.heap_top,
    {
        self.heap_top
    }

    /// Sets the top of the heap.
    pub fn set_heap_top(&mut self, top: u64)
        ensures
            final(self)@ == (ExecutorView { heap_top: top, ..old(self)@ }),
    {
        self.heap_top = top;
    }

    /// The base of the heap.
    pub fn get_heap_bottom(&self) -> (b: u64)
        ensures
            b == self@.heap_bottom,
    {
        self.heap_bottom
    }

    /// Sets the base of the heap.
    pub fn set_heap_bottom(&mut self, bottom: u64)
        ensures
            final(self)@ == (ExecutorView { heap_bottom: bottom, ..old(self)@ }),
    {
        self.heap_bottom = bottom;
    }

    /// Sets the stack size.
    pub fn set_stack_limit(&mut self, limit: u64)
        ensures
            final(self)@ == (ExecutorView { stack_size: limit, ..old(self)@ }),
    {
        self.stack_size = limit;
    }

    /// The stack size.
    pub fn get_stack_limit(&self) -> (l: u64)
        ensures
            l == self@.stack_size,
    {
        self.stack_size
    }

    /// Sets whether the process waits for a child made by `vfork`.
    pub fn set_vfork_block(&mut self, value: bool)
        ensures
            final(self)@ == (ExecutorView { vfork_blocked: value, ..old(self)@ }),
    {
        self.blocked_by_vfork = value;
    }

    /// Whether the process waits for a child made by `vfork`.
    pub fn get_vfork_block(&self) -> (b: bool)
        ensures
            b == self@.vfork_blocked,
    {
        self.blocked_by_vfork
    }

    /// Sets the path of the executable.
    pub fn set_file_path(&mut self, path: String)
        ensures
            final(self)@ == (ExecutorView { file_path: path@, ..old(self)@ }),
    {
        self.file_path = path;
    }

    /// The path of the executable.
    pub fn get_file_path(&self) -> (p: String)
        ensures
            p@ == self@.file_path,
    {
        self.file_path.clone()
    }

    /// The exit code if the process has exited.
    pub fn get_code_if_exit(&self) -> (r: Option<isize>)
        ensures
            r == if self@.zombie { Some(self@.exit_code) } else { None },
    {
        if self.is_zombie {
            Some(self.exit_code)
        } else {
            None
        }
    }

    /// Records task `task` as the main task.
    pub fn set_main_task(&mut self, task: u64)
        ensures
            final(self)@ == (ExecutorView { main_task: Some(task), ..old(self)@ }),
    {
        self.main_task = Some(task);
    }

    /// The main task, if any.
    pub fn get_main_task(&self) -> (t: Option<u64>)
        ensures
            t == self@.main_task,
    {
        self.main_task
    }

    /// Takes the main task out of the record, which then has none.
    pub fn exit_main_task(&mut self) -> (t: Option<u64>)
        ensures
            t == old(self)@.main_task,
            final(self)@ == (ExecutorView { main_task: None, ..old(self)@ }),
    {
        self.main_task.take()
    }

    /// The working directory.
    pub fn get_cwd(&self) -> (c: String)
        ensures
            c@ == self@.cwd,
    {
        self.cwd.clone()
    }

    /// Sets the working directory.
    pub fn set_cwd(&mut self, cwd: String)
        ensures
            final(self)@ == (ExecutorView { cwd: cwd@, ..old(self)@ }),
    {
        self.cwd = cwd;
    }

    /// Starts an empty heap at `bottom`, as loading a new program does.
    pub fn reset_heap(&mut self, bottom: u64)
        ensures
            final(self)@ == (ExecutorView { heap_bottom: bottom, heap_top: bottom, ..old(self)@ }),
    {
        self.set_heap_bottom(bottom);
        self.set_heap_top(bottom);
    }

    /// Records the exit of the process through its leader: its exit code,
    /// that it is a zombie, and no main task any more; returns the main
    /// task it had.
    pub fn exit_leader(&mut self, exit_code: isize) -> (t: Option<u64>)
        ensures
            t == old(self)@.main_task,
            final(self)@ == (ExecutorView { exit_code, zombie: true, main_task: None, ..old(self)@ }),
    {
        self.set_exit_code(exit_code);
        self.set_zombie(true);
        self.exit_main_task()
    }

    /// Allocates a descriptor in `fd_table` within the process's limit, as
    /// `alloc_fd` does.
    pub fn alloc_fd<T>(&self, fd_table: &mut Vec<Option<T>>) -> (r: Result<usize, ProcError>)
        ensures
            alloc_fd_outcome(old(fd_table)@, self@.fd_limit, r, final(fd_table)@),
    {
        alloc_fd(fd_table, self.fd_limit)
    }
}

/// A task of an exiting process, as the exit of its leader sees it.
#[derive(Debug, Clone, Copy, PartialEq, Eq, Structural)]
pub struct ThreadState {
    pub id: u64,
    /// The task leads its process.
    pub leader: bool,
    /// The task has exited.
    pub exited: bool,
}

/// The tasks of `s` that the leader's exit kills, in order: those that
/// neither lead nor have exited.
pub open spec fn to_kill(s: Seq<ThreadState>) -> Seq<u64>
    decreases s.len(),
{
    if s.len() == 0 {
        Seq::empty()
    } else {
        let r = to_kill(s.drop_last());
        let t = s.last();
        if !t.leader && !t.exited {
            r.push(t.id)
        } else {
            r
        }
    }
}

/// The tasks that the exit of the leader sends a kill signal to, in the
/// order they are found; it waits and looks again until this is empty.
pub fn threads_to_kill(tasks: &[ThreadState]) -> (r: Vec<u64>)
    ensures
        r@ == to_kill(tasks@),
{
    let mut r: Vec<u64> = Vec::new();
    let mut i: usize = 0;
    while i < tasks.len()
        invariant
            i <= tasks@.len(),
            r@ == to_kill(tasks@.take(i as int)),
        decreases tasks@.len() - i,
    {
        let t = tasks[i];
        proof {
            assert(tasks@.take(i + 1).drop_last() =~= tasks@.take(i as int));
            assert(tasks@.take(i + 1).last() == t);
        }
        if !t.leader && !t.exited {
            r.push(t.id);
        }
        i = i + 1;
    }
    proof {
        assert(tasks@.take(tasks@.len() as int) =~= tasks@);
    }
    r
}

} // verus!
