//! The kernel's tables of processes and tasks, and what the exit of a task
//! does to them as one change.
use vstd::prelude::*;
use std::collections::{BTreeMap, BTreeSet};
use crate::process::{KERNEL_PROCESS_ID, exit_signal_target, exit_signal_of, remove_task};

verus! {

broadcast use vstd::std_specs::btree::group_btree_axioms;

/// What the tables keep of a task.
#[derive(Debug, Clone, Copy, PartialEq, Eq, Structural)]
pub struct TaskEntry {
    /// The task leads its process.
    pub leader: bool,
    /// The task has exited.
    pub exited: bool,
    pub exit_code: isize,
    /// The user word to clear when the task exits; 0 for none.
    pub clear_child_tid: usize,
    /// The signal the task's exit sends its parent, when it asked for one.
    pub exit_signal: Option<u32>,
}

/// What the tables keep of a process.
pub struct ProcEntry {
    pub parent: u64,
    pub zombie: bool,
    pub exit_code: isize,
    pub main_task: Option<u64>,
    /// Its tasks.
    pub tasks: Vec<u64>,
    /// The tasks that have a signal module in the process.
    pub signal_tasks: BTreeSet<u64>,
    /// How many slots its descriptor table holds.
    pub fd_slots: usize,
    /// Its children, in the order they were made.
    pub children: Vec<u64>,
    /// It waits for a child made by `vfork`.
    pub vfork_blocked: bool,
}

/// The model of a process entry.
pub struct ProcView {
    pub parent: u64,
    pub zombie: bool,
    pub exit_code: isize,
    pub main_task: Option<u64>,
    pub tasks: Seq<u64>,
    pub signal_tasks: Set<u64>,
    pub fd_slots: usize,
    pub children: Seq<u64>,
    pub vfork_blocked: bool,
}

/// The model of a process entry.
pub open spec fn pview(e: ProcEntry) -> ProcView {
    ProcView {
        parent: e.parent,
        zombie: e.zombie,
        exit_code: e.exit_code,
        main_task: e.main_task,
        tasks: e.tasks@,
        signal_tasks: e.signal_tasks@,
        fd_slots: e.fd_slots,
        children: e.children@,
        vfork_blocked: e.vfork_blocked,
    }
}

/// What a task's exit asks of the caller: a signal to send its parent, the
/// user word to zero (and wake waiters on), and the main task the process
/// gave up.
#[derive(Debug, Clone, Copy, PartialEq, Eq)]
pub struct ExitEffects {
    pub signal: Option<(u64, u32)>,
    pub clear_child_tid: Option<usize>,
    pub main_task: Option<u64>,
}

/// The records of processes and tasks (kept while anything refers to them),
/// the processes registered by id, and the tasks registered by id.
pub struct ProcTables {
    pub procs: BTreeMap<u64, ProcEntry>,
    pub pid2pc: BTreeSet<u64>,
    pub tasks: BTreeMap<u64, TaskEntry>,
    pub tid2task: BTreeSet<u64>,
}

/// `s` without the first `x` in it, if any.
pub open spec fn remove_first(s: Seq<u64>, x: u64) -> Seq<u64>
    decreases s.len(),
{
    if s.len() == 0 {
        s
    } else if s[0] == x {
        s.drop_first()
    } else {
        seq![s[0]] + remove_first(s.drop_first(), x)
    }
}

/// Removing the first `x`, found at `i`, is `remove_first`.
proof fn lemma_remove_first_at(s: Seq<u64>, x: u64, i: int)
    requires
        0 <= i < s.len(),
        s[i] == x,
        forall|j: int| 0 <= j < i ==> s[j] != x,
    ensures
        s.remove(i) == remove_first(s, x),
    decreases s.len(),
{
    if i == 0 {
        assert(s.remove(0) =~= s.drop_first());
    } else {
        let t = s.drop_first();
        assert forall|j: int| 0 <= j < i - 1 implies t[j] != x by {
            assert(t[j] == s[j + 1]);
        }
        lemma_remove_first_at(t, x, i - 1);
        assert(s.remove(i) =~= seq![s[0]] + t.remove(i - 1));
    }
}

/// Without `x` in `s`, removing its first `x` leaves `s`.
proof fn lemma_remove_first_absent(s: Seq<u64>, x: u64)
    requires
        !s.contains(x),
    ensures
        remove_first(s, x) == s,
    decreases s.len(),
{
    if s.len() > 0 {
        assert(s[0] != x) by {
            if s[0] == x {
                assert(s.contains(x));
            }
        }
        let t = s.drop_first();
        assert(!t.contains(x)) by {
            if t.contains(x) {
                let k = choose|k: int| 0 <= k < t.len() && t[k] == x;
                assert(s[k + 1] == x);
            }
        }
        lemma_remove_first_absent(t, x);
        assert(seq![s[0]] + t =~= s);
    }
}

/// The processes as models.
pub open spec fn procs_view(m: Map<u64, ProcEntry>) -> Map<u64, ProcView> {
    Map::new(|k: u64| m.contains_key(k), |k: u64| pview(m[k]))
}

/// A process other than `pid` after the exit of the leader of `pid`, whose
/// entry was `p`, with the process ids registered before `reg`: the exiting
/// process's children get the kernel as parent, the kernel adopts them
/// after its own, and the parent stops waiting for a `vfork` child.
pub open spec fn after_leader_exit(c: u64, v: ProcView, p: ProcView, reg: Set<u64>) -> ProcView {
    ProcView {
        parent: if p.children.contains(c) { KERNEL_PROCESS_ID } else { v.parent },
        children: if c == KERNEL_PROCESS_ID { v.children + p.children } else { v.children },
        vfork_blocked: if c == p.parent && reg.contains(c) { false } else { v.vfork_blocked },
        ..v
    }
}

/// A value is in a sequence with one more at its end exactly when it is
/// that one or in the sequence.
proof fn lemma_push_contains(s: Seq<u64>, v: u64, x: u64)
    ensures
        s.push(v).contains(x) == (s.contains(x) || x == v),
{
    if s.contains(x) {
        let k = choose|k: int| 0 <= k < s.len() && s[k] == x;
        assert(s.push(v)[k] == x);
    }
    if x == v {
        assert(s.push(v)[s.len() as int] == x);
    }
    if s.push(v).contains(x) {
        let k = choose|k: int| 0 <= k < s.push(v).len() && s.push(v)[k] == x;
        if k < s.len() {
            assert(s[k] == x);
        }
    }
}

impl ProcTables {
    /// Empty tables.
    pub fn new() -> (t: Self)
        ensures
            t.procs@ == Map::<u64, ProcEntry>::empty(),
            t.pid2pc@ == Set::<u64>::empty(),
            t.tasks@ == Map::<u64, TaskEntry>::empty(),
            t.tid2task@ == Set::<u64>::empty(),
    {
        ProcTables { procs: BTreeMap::new(), pid2pc: BTreeSet::new(), tasks: BTreeMap::new(), tid2task: BTreeSet::new() }
    }

    /// What the exit of task `tid` of process `pid` asks of the caller, as
    /// `exit` returns it: known before the tables change, so that the
    /// signal and the user word are seen to first.
    pub fn exit_effects(&self, pid: u64, tid: u64) -> (e: ExitEffects)
        requires
            self.procs@.contains_key(pid),
            self.tasks@.contains_key(tid),
        ensures
            ({
                let t = self.tasks@[tid];
                let p = pview(self.procs@[pid]);
                &&& e.signal == exit_signal_of(t.exit_signal, t.leader, p.parent)
                &&& e.clear_child_tid == if t.clear_child_tid != 0 { Some(t.clear_child_tid) } else { None }
                &&& e.main_task == if t.leader { p.main_task } else { None }
            }),
    {
        let t = match self.tasks.get(&tid) {
            Some(t) => *t,
            None => {
                return ExitEffects { signal: None, clear_child_tid: None, main_task: None };
            },
        };
        let (parent, main) = match self.procs.get(&pid) {
            Some(p) => (p.parent, p.main_task),
            None => {
                return ExitEffects { signal: None, clear_child_tid: None, main_task: None };
            },
        };
        let signal = exit_signal_target(t.exit_signal, t.leader, parent);
        let clear_child_tid = if t.clear_child_tid != 0 { Some(t.clear_child_tid) } else { None };
        ExitEffects { signal, clear_child_tid, main_task: if t.leader { main } else { None } }
    }

    /// Task `tid` of process `pid` exits with `exit_code`, after the other
    /// tasks of a leader's process have exited. The task is marked exited
    /// with the code and leaves the task registry. A task that does not lead
    /// only leaves the process's signal modules. The leader's exit ends its
    /// process: the process becomes a zombie with the code, gives up its
    /// main task, its signal modules and descriptors, leaves the process
    /// registry, its children go to the kernel, and its parent stops waiting
    /// for it. Returns the signal to send the parent, the user word to zero,
    /// and the main task given up.
    pub fn exit(&mut self, pid: u64, tid: u64, exit_code: isize) -> (e: ExitEffects)
        requires
            old(self).procs@.contains_key(pid),
            old(self).tasks@.contains_key(tid),
            old(self).tasks@[tid].leader ==> pid != KERNEL_PROCESS_ID
                && old(self).procs@.contains_key(KERNEL_PROCESS_ID)
                && !old(self).procs@[pid].children@.contains(pid),
        ensures
            ({
                let t = old(self).tasks@[tid];
                let p = pview(old(self).procs@[pid]);
                &&& e.signal == exit_signal_of(t.exit_signal, t.leader, p.parent)
                &&& e.clear_child_tid == if t.clear_child_tid != 0 { Some(t.clear_child_tid) } else { None }
                &&& final(self).tasks@ == old(self).tasks@.insert(tid, TaskEntry { exited: true, exit_code, ..t })
                &&& final(self).tid2task@ == old(self).tid2task@.remove(tid)
                &&& final(self).procs@.dom() == old(self).procs@.dom()
                &&& !t.leader ==> {
                    &&& e.main_task is None
                    &&& final(self).pid2pc@ == old(self).pid2pc@
                    &&& procs_view(final(self).procs@) == procs_view(old(self).procs@).insert(
                        pid,
                        ProcView { tasks: remove_first(p.tasks, tid), signal_tasks: p.signal_tasks.remove(tid), ..p },
                    )
                }
                &&& t.leader ==> {
                    &&& e.main_task == p.main_task
                    &&& final(self).pid2pc@ == old(self).pid2pc@.remove(pid)
                    &&& pview(final(self).procs@[pid]) == (ProcView {
                        zombie: true,
                        exit_code,
                        main_task: None,
                        tasks: Seq::<u64>::empty(),
                        signal_tasks: Set::<u64>::empty(),
                        fd_slots: 0,
                        vfork_blocked: if p.parent == pid && old(self).pid2pc@.contains(pid) {
                            false
                        } else {
                            p.vfork_blocked
                        },
                        ..p
                    })
                    &&& forall|c: u64| #![trigger final(self).procs@[c]]
                        c != pid && old(self).procs@.contains_key(c) ==> pview(final(self).procs@[c])
                            == after_leader_exit(c, pview(old(self).procs@[c]), p, old(self).pid2pc@)
                }
            }),
    {
        let t = match self.tasks.get(&tid) {
            Some(t) => *t,
            None => {
                return ExitEffects { signal: None, clear_child_tid: None, main_task: None };
            },
        };
        let parent = match self.procs.get(&pid) {
            Some(p) => p.parent,
            None => {
                return ExitEffects { signal: None, clear_child_tid: None, main_task: None };
            },
        };
        let signal = exit_signal_target(t.exit_signal, t.leader, parent);
        let clear_child_tid = if t.clear_child_tid != 0 { Some(t.clear_child_tid) } else { None };
        self.tid2task.remove(&tid);
        self.tasks.insert(tid, TaskEntry { exited: true, exit_code, ..t });
        let main_task = if t.leader {
            self.exit_leader(pid, exit_code)
        } else {
            self.exit_thread(pid, tid);
            None
        };
        ExitEffects { signal, clear_child_tid, main_task }
    }

    /// The process part of a non-leader's exit: task `tid` leaves the signal
    /// modules of process `pid`.
    fn exit_thread(&mut self, pid: u64, tid: u64)
        requires
            old(self).procs@.contains_key(pid),
        ensures
            final(self).tasks@ == old(self).tasks@,
            final(self).tid2task@ == old(self).tid2task@,
            final(self).pid2pc@ == old(self).pid2pc@,
            final(self).procs@.dom() == old(self).procs@.dom(),
            procs_view(final(self).procs@) == procs_view(old(self).procs@).insert(
                pid,
                ProcView {
                    tasks: remove_first(pview(old(self).procs@[pid]).tasks, tid),
                    signal_tasks: pview(old(self).procs@[pid]).signal_tasks.remove(tid),
                    ..pview(old(self).procs@[pid])
                },
            ),
    {
        let ghost old_procs = self.procs@;
        let mut p = match self.procs.remove(&pid) {
            Some(p) => p,
            None => {
                return;
            },
        };
        let ghost p0 = pview(p);
        p.signal_tasks.remove(&tid);
        let removed = remove_task(&mut p.tasks, tid);
        proof {
            if removed {
                let i = choose|i: int| 0 <= i < p0.tasks.len() && p0.tasks[i] == tid
                    && (forall|j: int| 0 <= j < i ==> p0.tasks[j] != tid) && p.tasks@ == p0.tasks.remove(i);
                lemma_remove_first_at(p0.tasks, tid, i);
            } else {
                lemma_remove_first_absent(p0.tasks, tid);
            }
        }
        self.procs.insert(pid, p);
        proof {
            assert(self.procs@.dom() =~= old_procs.dom());
            assert(procs_view(self.procs@) =~= procs_view(old_procs).insert(
                pid,
                ProcView { tasks: remove_first(p0.tasks, tid), signal_tasks: p0.signal_tasks.remove(tid), ..p0 },
            ));
        }
    }

    /// The process part of a leader's exit from process `pid` with
    /// `exit_code`; returns the main task it gave up.
    fn exit_leader(&mut self, pid: u64, exit_code: isize) -> (main: Option<u64>)
        requires
            old(self).procs@.contains_key(pid),
            old(self).procs@.contains_key(KERNEL_PROCESS_ID),
            pid != KERNEL_PROCESS_ID,
            !old(self).procs@[pid].children@.contains(pid),
        ensures
            ({
                let p = pview(old(self).procs@[pid]);
                &&& main == p.main_task
                &&& final(self).tasks@ == old(self).tasks@
                &&& final(self).tid2task@ == old(self).tid2task@
                &&& final(self).pid2pc@ == old(self).pid2pc@.remove(pid)
                &&& final(self).procs@.dom() == old(self).procs@.dom()
                &&& pview(final(self).procs@[pid]) == (ProcView {
                    zombie: true,
                    exit_code,
                    main_task: None,
                    tasks: Seq::<u64>::empty(),
                    signal_tasks: Set::<u64>::empty(),
                    fd_slots: 0,
                    vfork_blocked: if p.parent == pid && old(self).pid2pc@.contains(pid) {
                        false
                    } else {
                        p.vfork_blocked
                    },
                    ..p
                })
                &&& forall|c: u64| #![trigger final(self).procs@[c]]
                    c != pid && old(self).procs@.contains_key(c) ==> pview(final(self).procs@[c])
                        == after_leader_exit(c, pview(old(self).procs@[c]), p, old(self).pid2pc@)
            }),
    {
        let ghost old_procs = self.procs@;
        let ghost reg = self.pid2pc@;
        let mut p = match self.procs.remove(&pid) {
            Some(p) => p,
            None => {
                return None;
            },
        };
        let ghost pv0 = pview(p);
        // the children go to the kernel
        let mut i: usize = 0;
        while i < p.children.len()
            invariant
                pv0 == pview(p),
                i <= p.children@.len(),
                self.procs@.dom() == old_procs.dom().remove(pid),
                self.pid2pc@ == reg,
                self.tasks@ == old(self).tasks@,
                self.tid2task@ == old(self).tid2task@,
                forall|c: u64| #![trigger self.procs@[c]] self.procs@.contains_key(c) ==> pview(self.procs@[c])
                    == (ProcView {
                    parent: if p.children@.take(i as int).contains(c) {
                        KERNEL_PROCESS_ID
                    } else {
                        pview(old_procs[c]).parent
                    },
                    ..pview(old_procs[c])
                }),
            decreases p.children@.len() - i,
        {
            let c = p.children[i];
            let ghost before = self.procs@;
            proof {
                assert(p.children@.take(i + 1) =~= p.children@.take(i as int).push(c));
            }
            match self.procs.remove(&c) {
                Some(mut e) => {
                    e.parent = KERNEL_PROCESS_ID;
                    self.procs.insert(c, e);
                    proof {
                        assert(self.procs@.dom() =~= before.dom());
                    }
                },
                None => {},
            }
            proof {
                assert forall|x: u64| #![trigger self.procs@[x]] self.procs@.contains_key(x) implies pview(
                    self.procs@[x],
                ) == (ProcView {
                    parent: if p.children@.take(i + 1).contains(x) {
                        KERNEL_PROCESS_ID
                    } else {
                        pview(old_procs[x]).parent
                    },
                    ..pview(old_procs[x])
                }) by {
                    lemma_push_contains(p.children@.take(i as int), c, x);
                    assert(before.contains_key(x));
                    if x != c {
                        assert(self.procs@[x] == before[x]);
                    }
                    assert(pview(before[x]) == (ProcView {
                        parent: if p.children@.take(i as int).contains(x) {
                            KERNEL_PROCESS_ID
                        } else {
                            pview(old_procs[x]).parent
                        },
                        ..pview(old_procs[x])
                    }));
                }
            }
            i = i + 1;
        }
        // the kernel adopts them
        let ghost mid = self.procs@;
        proof {
            assert(p.children@.take(p.children@.len() as int) =~= p.children@);
        }
        let mut k = match self.procs.remove(&KERNEL_PROCESS_ID) {
            Some(k) => k,
            None => {
                self.procs.insert(pid, p);
                return None;
            },
        };
        let ghost k0 = pview(k);
        let mut j: usize = 0;
        while j < p.children.len()
            invariant
                j <= p.children@.len(),
                pview(k) == (ProcView { children: k0.children + p.children@.take(j as int), ..k0 }),
            decreases p.children@.len() - j,
        {
            k.children.push(p.children[j]);
            proof {
                assert(p.children@.take(j + 1) =~= p.children@.take(j as int).push(p.children@[j as int]));
                assert(pview(k).children =~= k0.children + p.children@.take(j + 1));
            }
            j = j + 1;
        }
        proof {
            assert(pview(k).children =~= k0.children + pv0.children);
        }
        self.procs.insert(KERNEL_PROCESS_ID, k);
        let ghost after_k = self.procs@;
        // the process's own record
        let main = p.main_task;
        p.zombie = true;
        p.exit_code = exit_code;
        p.main_task = None;
        p.tasks.clear();
        p.signal_tasks.clear();
        p.fd_slots = 0;
        let parent = p.parent;
        self.procs.insert(pid, p);
        let ghost after_p = self.procs@;
        // the parent stops waiting for it
        if self.pid2pc.contains(&parent) {
            match self.procs.remove(&parent) {
                Some(mut q) => {
                    q.vfork_blocked = false;
                    self.procs.insert(parent, q);
                },
                None => {},
            }
        }
        let ghost after_v = self.procs@;
        self.pid2pc.remove(&pid);
        proof {
            assert(self.procs@.dom() =~= old_procs.dom());
            assert forall|c: u64| #![trigger self.procs@[c]]
                c != pid && old_procs.contains_key(c) implies pview(self.procs@[c])
                    == after_leader_exit(c, pview(old_procs[c]), pv0, reg) by {
                assert(mid.contains_key(c));
                assert(pview(mid[c]) == (ProcView {
                    parent: if pv0.children.take(pv0.children.len() as int).contains(c) {
                        KERNEL_PROCESS_ID
                    } else {
                        pview(old_procs[c]).parent
                    },
                    ..pview(old_procs[c])
                }));
                if c == KERNEL_PROCESS_ID {
                    assert(k0 == pview(mid[c]));
                    assert(pview(after_k[c]) == (ProcView { children: k0.children + pv0.children, ..k0 }));
                } else {
                    assert(after_k[c] == mid[c]);
                }
                assert(after_p[c] == after_k[c]);
                if c == parent && reg.contains(c) {
                    assert(pview(after_v[c]) == (ProcView { vfork_blocked: false, ..pview(after_p[c]) }));
                } else {
                    assert(after_v[c] == after_p[c]);
                }
                assert(pview(self.procs@[c]) =~= after_leader_exit(c, pview(old_procs[c]), pv0, reg));
            }
            if parent == pid && reg.contains(pid) {
                assert(pview(after_v[pid]) == (ProcView { vfork_blocked: false, ..pview(after_p[pid]) }));
            } else {
                assert(after_v[pid] == after_p[pid]);
            }
            assert(pview(self.procs@[pid]) =~= (ProcView {
                zombie: true,
                exit_code,
                main_task: None,
                tasks: Seq::<u64>::empty(),
                signal_tasks: Set::<u64>::empty(),
                fd_slots: 0,
                vfork_blocked: if pv0.parent == pid && reg.contains(pid) {
                    false
                } else {
                    pv0.vfork_blocked
                },
                ..pv0
            }));
        }
        main
    }
}

} // verus!
