use async_os::apps::{align_up_64, get_args, reverse};
use async_os::console::{KeyEcho, LineEditor, BS, CR, DL};
use async_os::dev::{NullDev, RandomDev, ZeroDev};
use async_os::listen::{Incoming, IpAddr, ListenTable, NetError, PORT_END, PORT_START};
use async_os::mounts::{create_file_check, remove_dir_check, trim_slashes_exec, MountTable};
use async_os::process::{
    alloc_fd, clone_ids, exit_signal_target, remove_task, reparent_to_kernel, wait_pid, ChildState,
    ProcError, WaitStatus, CLONE_PARENT, CLONE_THREAD, KERNEL_PROCESS_ID, SIGCHLD,
};
use async_os::stream::MinByFuture;
use async_os::taic_pac::{Fetch, Hart, RegisterBlock, Reg, Status, HART_COUNT};
use async_os::taic_queue::{Capability, CapQueue, DeviceCapTable, ReadyQueue, TaskId};
use async_os::taic_sched::{LqCmd, TAICScheduler, TAICTask};
use async_os::task::{
    current, wait_queue_wake, Builder, JoinError, JoinFutureHandle, PollState, Task, WaitQueue, WaitQueueHandle,
};
use async_os::vfs::{VfsError, VfsNodeType};
use core::cmp::Ordering;

#[test]
fn reverse_reverses_each_line() {
    assert_eq!(reverse(b"abc\nde\n\nf"), b"cba\ned\n\nf".to_vec());
    assert_eq!(reverse(b""), Vec::<u8>::new());
    assert_eq!(reverse(b"\n"), b"\n".to_vec());
    assert_eq!(reverse(&[0u8, 1, 2, 3, 4, 5, 6, 7]), vec![7u8, 6, 5, 4, 3, 2, 1, 0]);
}

#[test]
fn get_args_splits_outside_quotes() {
    assert_eq!(
        get_args(b"busybox echo \"hello world\"  x"),
        vec![b"busybox".to_vec(), b"echo".to_vec(), b"hello world".to_vec(), b"x".to_vec()]
    );
    assert_eq!(get_args(b"echo \"a b\""), vec![b"echo".to_vec(), b"a b".to_vec()]);
    assert_eq!(get_args(b"a\"b c\"d e"), vec![b"ab cd".to_vec(), b"e".to_vec()]);
    assert_eq!(get_args(b"  "), Vec::<Vec<u8>>::new());
    assert_eq!(get_args(b"libctest_testcode.sh"), vec![b"libctest_testcode.sh".to_vec()]);
}

#[test]
fn align_up_64_rounds_up() {
    assert_eq!(align_up_64(0), 0);
    assert_eq!(align_up_64(1), 64);
    assert_eq!(align_up_64(64), 64);
    assert_eq!(align_up_64(65), 128);
}

#[test]
fn taic_registers_read_back_writes() {
    let h = Hart::new();
    assert_eq!(h.fetch().read().raw(), 0);
    assert_eq!(h.status().read().raw(), 0);
    let mut fetch: Fetch = Reg::new();
    fetch.write(0x1c5);
    assert_eq!(fetch.read().raw(), 0x1c5);
    assert_eq!(fetch.read().tcb(), 7);
    let mut status: Status = Reg::new();
    status.write(0x123);
    assert_eq!(status.read().cause(), 3);
    assert_eq!(status.read().ocnt(), 0x12);
    status.reset();
    assert_eq!(status.read().raw(), 0);
    let block = RegisterBlock::new();
    assert_eq!(block.harts(HART_COUNT - 1).dump().read().raw(), 0);
}

#[test]
fn device_caps_are_listed_in_line_order() {
    let mut table = DeviceCapTable::empty();
    assert!(table.iter().is_empty());
    table.0[2] = Capability { task_id: TaskId(9), target_os_id: TaskId(0), target_proc_id: TaskId(0), target_task_id: TaskId(4) };
    table.0[5] = Capability { task_id: TaskId(3), target_os_id: TaskId(1), target_proc_id: TaskId(0), target_task_id: TaskId(0) };
    table.0[7] = Capability { task_id: TaskId(8), target_os_id: TaskId(0), target_proc_id: TaskId(0), target_task_id: TaskId(0) };
    assert_eq!(table.iter(), vec![TaskId(9), TaskId(8)]);
    assert!(!Capability::empty().is_device_cap());
    assert_eq!(TaskId::empty(), TaskId(0));
    let q = CapQueue::empty();
    assert!(q.inner.is_empty() && !q.online && q.count == 0);
    let r = ReadyQueue::empty();
    assert!(r.inner.is_empty() && !r.online && r.count == 0);
}

#[test]
fn taic_scheduler_issues_queue_requests() {
    let task = TAICTask::new(41u32);
    assert_eq!(*task.inner(), 41);
    let (mut s, alloc) = TAICScheduler::<u32>::new();
    assert_eq!(alloc, LqCmd::Alloc { os: 1, proc_id: 0 });
    assert_eq!(TAICScheduler::<u32>::scheduler_name(), "Taic");
    assert_eq!(s.register_sender(2, 3), LqCmd::RegisterSender { recv_os: 2, recv_proc: 3 });
    assert_eq!(s.cancel_sender(2, 3), LqCmd::CancelSender { recv_os: 2, recv_proc: 3 });
    assert_eq!(s.register_receiver(4, 5, 6), LqCmd::RegisterReceiver { send_os: 4, send_proc: 5, handler: 6 });
    assert_eq!(s.send_intr(7, 8), LqCmd::SendIntr { recv_os: 7, recv_proc: 8 });
    assert_eq!(s.whart(1), LqCmd::Whart { hartid: 1 });
    assert_eq!(s.register_extintr(10, 11), LqCmd::RegisterExtIntr { irq: 10, handler: 11 });
    assert_eq!(s.add_task(0x80), LqCmd::Enqueue { tid: 0x80 });
    assert_eq!(s.put_prev_task(0x90, true), LqCmd::Enqueue { tid: 0x90 });
    assert_eq!(s.pick_next_task(), LqCmd::Dequeue);
    s.init();
    assert!(!s.task_tick(0x90));
    assert!(!s.set_priority(0x90, 3));
}

#[test]
fn wait_queue_wakes_in_arrival_order() {
    let mut q = WaitQueue::new();
    q.prepare_to_wait(1);
    q.prepare_to_wait(2);
    q.prepare_to_wait(1);
    q.prepare_to_wait(3);
    assert!(q.contains(2));
    assert!(q.remove(2));
    assert!(!q.remove(2));
    assert_eq!(q.notify_one(), Some(1));
    assert_eq!(q.notify_all(), vec![3]);
    assert_eq!(q.notify_one(), None);

    let mut h = WaitQueueHandle::new();
    for id in [5u64, 6, 7, 8] {
        h.prepare_to_wait(id);
    }
    assert_eq!(wait_queue_wake(&mut h, 2), vec![5, 6]);
    assert_eq!(wait_queue_wake(&mut h, 0), Vec::<u64>::new());
    assert_eq!(wait_queue_wake(&mut h, 9), vec![7, 8]);
    h.prepare_to_wait(1);
    h.prepare_to_wait(2);
    assert_eq!(wait_queue_wake(&mut h, u32::MAX), vec![1, 2]);
}

#[test]
fn task_handles_carry_their_ids() {
    let t = Task::from_id(12);
    assert_eq!(t.id().as_u64(), 12);
    assert_eq!(current(3).id().as_u64(), 3);
    assert_eq!(Task::from_id(12).id(), t.id());
    assert_ne!(Task::from_id(13).id(), t.id());
    assert_eq!(Builder::new().take_name(), String::new());
    assert_eq!(Builder::new().name("worker".to_string()).take_name(), "worker".to_string());
    let p = PollState::default();
    assert!(!p.readable && !p.writable);
}

#[test]
fn alloc_fd_takes_lowest_free_slot() {
    let mut table: Vec<Option<u8>> = vec![Some(0), None, Some(2), None];
    assert_eq!(alloc_fd(&mut table, 8), Ok(1));
    assert_eq!(table.len(), 4);
    let mut full: Vec<Option<u8>> = vec![Some(0), Some(1)];
    assert_eq!(alloc_fd(&mut full, 3), Ok(2));
    assert_eq!(full, vec![Some(0), Some(1), None]);
    let mut capped: Vec<Option<u8>> = vec![Some(0), Some(1)];
    assert_eq!(alloc_fd(&mut capped, 2), Err(ProcError::StorageFull));
    assert_eq!(capped.len(), 2);
}

#[test]
fn wait_pid_reaps_exited_children() {
    let c = |pid: u64, zombie: bool, exit_code: isize| ChildState { pid, zombie, exit_code };
    let mut none: Vec<ChildState> = vec![];
    assert_eq!(wait_pid(&mut none, -1), Err(WaitStatus::NotExist));
    let mut kids = vec![c(10, false, 0), c(11, true, 3), c(12, true, 4)];
    assert_eq!(kids[1].get_code_if_exit(), Some(3));
    assert_eq!(kids[0].get_code_if_exit(), None);
    assert_eq!(wait_pid(&mut kids, -1), Ok((11, 3 << 8)));
    assert_eq!(kids.len(), 2);
    assert_eq!(wait_pid(&mut kids, 10), Err(WaitStatus::Running));
    assert_eq!(wait_pid(&mut kids, 99), Err(WaitStatus::NotExist));
    assert_eq!(wait_pid(&mut kids, 12), Ok((12, 4 << 8)));
    assert_eq!(wait_pid(&mut kids, 0), Err(WaitStatus::Running));
    assert_eq!(kids, vec![c(10, false, 0)]);
    assert!(WaitStatus::Exited != WaitStatus::Running);
}

#[test]
fn exit_signals_and_reparenting() {
    assert_eq!(exit_signal_target(None, true, 5), Some((5, SIGCHLD)));
    assert_eq!(exit_signal_target(Some(10), false, 5), Some((5, 10)));
    assert_eq!(exit_signal_target(None, false, 5), None);
    assert_eq!(exit_signal_target(Some(10), true, KERNEL_PROCESS_ID), None);
    let mut children = vec![7u64, 8];
    let mut kernel_children = vec![2u64];
    let mut parents = vec![];
    reparent_to_kernel(&mut children, &mut kernel_children, &mut parents);
    assert!(children.is_empty());
    assert_eq!(kernel_children, vec![2, 7, 8]);
    assert_eq!(parents, vec![(7, KERNEL_PROCESS_ID), (8, KERNEL_PROCESS_ID)]);
    let mut tasks = vec![4u64, 5, 4];
    assert!(remove_task(&mut tasks, 4));
    assert_eq!(tasks, vec![5, 4]);
    assert!(!remove_task(&mut tasks, 9));
    assert_eq!(clone_ids(CLONE_THREAD, 3, 1, 20), (3, 3));
    assert_eq!(clone_ids(CLONE_PARENT, 3, 1, 20), (20, 1));
    assert_eq!(clone_ids(0, 3, 1, 20), (20, 3));
}

#[test]
fn line_editor_handles_backspace_and_newline() {
    let mut e = LineEditor::new();
    assert_eq!(e.feed(BS), (KeyEcho::Nothing, false));
    assert_eq!(e.feed(b'a'), (KeyEcho::Echo(b'a'), false));
    assert_eq!(e.feed(b'x'), (KeyEcho::Echo(b'x'), false));
    assert_eq!(e.feed(DL), (KeyEcho::Erase, false));
    assert_eq!(e.feed(0xe9), (KeyEcho::Echo(0xe9), false));
    assert_eq!(e.feed(CR), (KeyEcho::Echo(b'\n'), true));
    assert_eq!(e.byte_len(), 4);
    let mut buf = [0u8; 6];
    assert_eq!(e.take_line(&mut buf), 4);
    assert_eq!(buf, [b'a', 0xc3, 0xa9, b'\n', 0, 0]);
    assert_eq!(e.byte_len(), 0);
}

#[test]
fn listen_table_accepts_connected_sockets() {
    let mut t = ListenTable::new();
    assert!(t.can_listen(80));
    assert_eq!(t.listen(None, 80), Ok(()));
    assert_eq!(t.listen(None, 80), Err(NetError::AddrInUse));
    assert!(!t.can_listen(80));
    assert_eq!(t.can_accept(81, &[]), Err(NetError::InvalidInput));
    assert_eq!(t.incoming_tcp_packet(IpAddr::V4(0x0a00_0001), 80), Incoming::Accept { addr: None, port: 80 });
    t.push_syn(80, 100);
    t.push_syn(80, 101);
    t.push_syn(80, 102);
    assert_eq!(t.can_accept(80, &[false, false, false]), Ok(false));
    assert_eq!(t.accept(80, &[false, false, false]), Err(NetError::WouldBlock));
    assert_eq!(t.can_accept(80, &[false, false, true]), Ok(true));
    assert_eq!(t.accept(80, &[false, false, true]), Ok(102));
    assert_eq!(t.accept(80, &[false, true]), Ok(100));
    assert_eq!(t.accept(80, &[true]), Ok(101));
    assert_eq!(t.accept(80, &[]), Err(NetError::WouldBlock));
    t.unlisten(80);
    assert_eq!(t.accept(80, &[]), Err(NetError::InvalidInput));
    assert_eq!(t.incoming_tcp_packet(IpAddr::V4(1), 80), Incoming::Ignore);
    assert_eq!(t.listen(Some(IpAddr::V4(7)), 90), Ok(()));
    assert_eq!(t.incoming_tcp_packet(IpAddr::V4(8), 90), Incoming::Ignore);
    assert_eq!(t.incoming_tcp_packet(IpAddr::V6(7), 90), Incoming::Ignore);
    assert_eq!(t.incoming_tcp_packet(IpAddr::V4(7), 90), Incoming::Accept { addr: Some(IpAddr::V4(7)), port: 90 });
}

#[test]
fn accept_moves_oldest_socket_into_the_gap() {
    let mut t = ListenTable::new();
    t.listen(None, 5).unwrap();
    for h in [1usize, 2, 3, 4] {
        t.push_syn(5, h);
    }
    assert_eq!(t.accept(5, &[false, true, false, false]), Ok(2));
    assert_eq!(t.accept(5, &[false, false, true]), Ok(4));
    assert_eq!(t.accept(5, &[true, true]), Ok(3));
    assert_eq!(t.accept(5, &[true]), Ok(1));
}

#[test]
fn ephemeral_ports_cycle_through_free_ports() {
    let mut t = ListenTable::new();
    let mut curr = PORT_START;
    assert_eq!(t.get_ephemeral_port(&mut curr), Ok(PORT_START));
    assert_eq!(curr, PORT_START + 1);
    t.listen(None, PORT_START + 1).unwrap();
    assert_eq!(t.get_ephemeral_port(&mut curr), Ok(PORT_START + 2));
    assert_eq!(curr, PORT_START + 3);
    let mut last = PORT_END;
    assert_eq!(t.get_ephemeral_port(&mut last), Ok(PORT_END));
    assert_eq!(last, PORT_START);
    let mut full = ListenTable::new();
    let mut p = PORT_START;
    loop {
        full.listen(None, p).unwrap();
        if p == PORT_END {
            break;
        }
        p += 1;
    }
    let mut c = PORT_START + 5;
    assert_eq!(full.get_ephemeral_port(&mut c), Err(NetError::AddrInUse));
    assert_eq!(c, PORT_START + 5);
}

#[test]
fn mount_table_finds_longest_mount() {
    let mut m = MountTable::new();
    assert_eq!(m.check_mount(b"/"), Err(VfsError::InvalidInput));
    assert_eq!(m.check_mount(b"dev"), Err(VfsError::InvalidInput));
    assert_eq!(m.check_mount(b"/dev"), Ok(()));
    m.push_mount(b"/dev");
    m.push_mount(b"/dev/shm");
    m.push_mount(b"/tmp");
    assert_eq!(m.check_mount(b"/dev"), Err(VfsError::InvalidInput));
    assert!(m.contains(b"/tmp"));
    let (i, rest) = m.lookup_mounted_fs(b"/dev/shm/x");
    assert_eq!((i, rest), (Some(1), b"/x".to_vec()));
    let (i, rest) = m.lookup_mounted_fs(b"dev/null");
    assert_eq!((i, rest), (Some(0), b"/null".to_vec()));
    let (i, rest) = m.lookup_mounted_fs(b"./dev/");
    assert_eq!((i, rest), (Some(0), b"".to_vec()));
    let (i, rest) = m.lookup_mounted_fs(b"/devices/a");
    assert_eq!((i, rest), (None, b"devices/a".to_vec()));
    let (i, rest) = m.lookup_mounted_fs(b"//etc/passwd/");
    assert_eq!((i, rest), (None, b"etc/passwd".to_vec()));
    m.umount(b"/dev");
    assert!(!m.contains(b"/dev"));
    let (i, _) = m.lookup_mounted_fs(b"/tmp/a");
    assert_eq!(i, Some(1));
}

#[test]
fn path_checks_at_the_root() {
    assert_eq!(trim_slashes_exec(b"//a/b//"), b"a/b".to_vec());
    assert_eq!(trim_slashes_exec(b"///"), Vec::<u8>::new());
    assert_eq!(create_file_check(b""), Err(VfsError::NotFound));
    assert_eq!(create_file_check(b"a/"), Err(VfsError::NotADirectory));
    assert_eq!(create_file_check(b"a"), Ok(()));
    assert_eq!(remove_dir_check(b""), Err(VfsError::NotFound));
    assert_eq!(remove_dir_check(b"//"), Err(VfsError::DirectoryNotEmpty));
    assert_eq!(remove_dir_check(b"."), Err(VfsError::InvalidInput));
    assert_eq!(remove_dir_check(b"a/.."), Err(VfsError::InvalidInput));
    assert_eq!(remove_dir_check(b"a/./"), Err(VfsError::InvalidInput));
    assert_eq!(remove_dir_check(b"a/b"), Ok(()));
}

#[test]
fn min_by_keeps_earliest_least_item() {
    let mut f: MinByFuture<(), (), i32> = MinByFuture::new((), ());
    assert_eq!(f.pending_old(), None);
    f.absorb(5, Ordering::Equal);
    f.absorb(3, Ordering::Less);
    f.absorb(3, Ordering::Equal);
    f.absorb(9, Ordering::Greater);
    assert_eq!(f.finish(), Some(3));
}

#[test]
fn min_by_uses_its_own_comparison() {
    let by_abs = |a: &(i32, u8), b: &(i32, u8)| a.0.abs().cmp(&b.0.abs());
    let mut f = MinByFuture::new((), by_abs);
    for item in [(5, 0u8), (-3, 1), (3, 2), (9, 3)] {
        f.take_item(item);
    }
    assert_eq!(f.finish(), Some((-3, 1)));
}

#[test]
fn devices_read_and_write() {
    let mut buf = [5u8; 8];
    assert_eq!(NullDev.read_at(0, &mut buf), Ok(0));
    assert_eq!(buf, [5u8; 8]);
    assert_eq!(NullDev.write_at(0, &buf), Ok(8));
    assert_eq!(NullDev.truncate(0), Ok(()));
    assert_eq!(ZeroDev.read_at(3, &mut buf), Ok(8));
    assert_eq!(buf, [0u8; 8]);
    assert_eq!(ZeroDev.get_attr().file_type(), VfsNodeType::CharDevice);
    let mut r = RandomDev::default();
    let mut rb = [0u8; 16];
    assert_eq!(r.read_at(0, &mut rb), Ok(16));
    assert_ne!(rb, [0u8; 16]);
    assert_eq!(r.write_at(0, &rb), Ok(16));
    assert_eq!(r.get_attr().size(), 0);
}

#[test]
fn join_outcome_is_taken_once() {
    let mut h = JoinFutureHandle::new(true, Some(5u32));
    assert_eq!(h.take(), Ok(5));
    let mut gone = JoinFutureHandle::<u32>::new(true, None);
    assert_eq!(gone.take(), Err(JoinError::BadState));
    let mut refused = JoinFutureHandle::new(false, Some(1u32));
    assert_eq!(refused.take(), Err(JoinError::BadState));
}
