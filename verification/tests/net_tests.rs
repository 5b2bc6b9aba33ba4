use async_os::listen::{IpAddr, ListenTable, NetError, PORT_START};
use async_os::process::{
    clone_child_tid_word, clone_return_id, exec_args, threads_to_kill, Executor, ProcError, ThreadState,
    CLONE_CHILD_CLEARTID, CLONE_CHILD_SETTID, CLONE_THREAD, FD_LIMIT_ORIGIN, KERNEL_PROCESS_ID, SIGCHLD,
};
use async_os::proc_table::{ExitEffects, ProcEntry, ProcTables, TaskEntry};
use async_os::shm::{ShmKeys, ShmTable};
use std::collections::BTreeSet;
use async_os::sync::Mutex;
use async_os::task::{PollState, WaitQueue};
use async_os::tcp::{
    accepted, block_next, connect_error, is_closed_state, is_connected_state, is_unspecified, recv_step, send_step, unspecified_endpoint, ConnectFailure,
    Endpoint, IoStep, ListenEndpoint, SocketState, StreamFlags, TcpSocket, TcpState,
};
use async_os::udp::{
    bind_error, recv_filter, send_error, udp_ephemeral_port, udp_recv_step, udp_send_step, BindFailure,
    SendFailure, UdpSocket,
};

fn ep(a: u32, port: u16) -> Endpoint {
    Endpoint { addr: IpAddr::V4(a), port }
}

const LOCALHOST: u32 = 0x7f00_0001;

fn idle_flags() -> StreamFlags {
    StreamFlags { may_recv: true, can_recv: false, may_send: true, can_send: true }
}

#[test]
fn new_tcp_socket_is_closed_and_unbound() {
    let s = TcpSocket::new();
    assert!(s.is_closed());
    assert!(!s.is_connected());
    assert_eq!(s.state(), SocketState::Closed);
    assert_eq!(s.local_addr(), Err(NetError::NotConnected));
    assert_eq!(s.peer_addr(), Err(NetError::NotConnected));
    assert!(!s.is_nonblocking());
    assert!(!s.is_reuse_addr());
    assert!(s.nagle_enabled(false));
    assert_eq!(s.nagle_target(), Err(NetError::NotConnected));
    assert_eq!(s.io_check(), Err(NetError::NotConnected));
}

#[test]
fn tcp_socket_options_are_kept() {
    let mut s = TcpSocket::new();
    s.set_nonblocking(true);
    s.set_reuse_addr(true);
    assert!(s.is_nonblocking());
    assert!(s.is_reuse_addr());
    s.set_nonblocking(false);
    assert!(!s.is_nonblocking());
    assert!(s.is_reuse_addr());
}

#[test]
fn tcp_connect_then_established() {
    let mut s = TcpSocket::new();
    assert_eq!(s.connect_start(), Ok(None));
    assert_eq!(s.state(), SocketState::Busy);
    assert_eq!(s.local_addr(), Err(NetError::NotConnected));
    let local = ep(LOCALHOST, 49152);
    let peer = ep(LOCALHOST, 80);
    assert_eq!(s.connect_finish(Ok((7, local, peer))), Ok(()));
    assert!(s.is_connecting());
    assert_eq!(s.io_check(), Err(NetError::WouldBlock));
    // a second connect is refused while the first goes on
    assert_eq!(s.connect_start(), Err(NetError::AlreadyExists));
    let p = s.poll_connect(TcpState::SynSent);
    assert_eq!(p, PollState { readable: false, writable: false });
    assert_eq!(s.connect_settled(p), Err(NetError::WouldBlock));
    let p = s.poll_connect(TcpState::Established);
    assert_eq!(p, PollState { readable: false, writable: true });
    assert_eq!(s.connect_settled(p), Ok(()));
    assert!(s.is_connected());
    assert_eq!(s.local_addr(), Ok(local));
    assert_eq!(s.peer_addr(), Ok(peer));
    assert_eq!(s.io_check(), Ok(7));
    assert_eq!(s.handle(), Some(7));
}

#[test]
fn tcp_nonblocking_connect_would_block() {
    let mut s = TcpSocket::new();
    s.set_nonblocking(true);
    assert_eq!(s.connect_start(), Ok(None));
    assert_eq!(s.connect_finish(Ok((3, ep(LOCALHOST, 50000), ep(LOCALHOST, 22)))), Err(NetError::WouldBlock));
    assert!(s.is_connecting());
}

#[test]
fn tcp_failed_connect_closes_and_clears() {
    let mut s = TcpSocket::new();
    assert_eq!(s.connect_start(), Ok(None));
    assert_eq!(s.connect_finish(Ok((3, ep(LOCALHOST, 50000), ep(LOCALHOST, 22)))), Ok(()));
    let p = s.poll_connect(TcpState::Closed);
    assert!(p.writable);
    assert_eq!(s.connect_settled(p), Err(NetError::ConnectionRefused));
    assert!(s.is_closed());
    assert_eq!(s.local_addr(), Err(NetError::NotConnected));
}

#[test]
fn tcp_refused_connect_start_goes_back_to_closed() {
    let mut s = TcpSocket::new();
    assert_eq!(s.connect_start(), Ok(None));
    let e = connect_error(ConnectFailure::Unaddressable);
    assert_eq!(e, NetError::ConnectionRefused);
    assert_eq!(s.connect_finish(Err(e)), Err(NetError::ConnectionRefused));
    assert!(s.is_closed());
    assert_eq!(connect_error(ConnectFailure::InvalidState), NetError::BadState);
}

#[test]
fn tcp_bind_takes_the_address_once() {
    let t = ListenTable::new();
    let mut curr = PORT_START;
    let mut s = TcpSocket::new();
    let b = s.bind_start(ep(0, 8080), &t, &mut curr);
    assert_eq!(b, Ok(ListenEndpoint { addr: None, port: 8080 }));
    assert_eq!(s.state(), SocketState::Busy);
    assert_eq!(s.bind_finish(Ok(())), Ok(()));
    assert!(s.is_closed());
    assert_eq!(s.local_addr(), Err(NetError::NotConnected));
    assert_eq!(curr, PORT_START);
    // bound already
    assert_eq!(s.bind_start(ep(LOCALHOST, 9090), &t, &mut curr), Err(NetError::InvalidInput));
    assert!(s.is_closed());
    assert_eq!(s.local_addr(), Err(NetError::NotConnected));
}

#[test]
fn tcp_bind_port_zero_takes_an_ephemeral_port() {
    let t = ListenTable::new();
    let mut curr = PORT_START;
    let mut s = TcpSocket::new();
    let b = s.bind_start(ep(LOCALHOST, 0), &t, &mut curr);
    assert_eq!(b, Ok(ListenEndpoint { addr: Some(IpAddr::V4(LOCALHOST)), port: PORT_START }));
    assert_eq!(curr, PORT_START + 1);
    // the engine's check that the address is free failed: back to closed,
    // the address kept
    assert_eq!(s.bind_finish(Err(NetError::AddrInUse)), Err(NetError::AddrInUse));
    assert!(s.is_closed());
    assert_eq!(s.local_addr(), Err(NetError::NotConnected));
}

#[test]
fn tcp_listen_accept_shutdown() {
    let mut t = ListenTable::new();
    let mut curr = PORT_START;
    let mut s = TcpSocket::new();
    assert_eq!(s.bind_start(ep(0, 80), &t, &mut curr), Ok(ListenEndpoint { addr: None, port: 80 }));
    assert_eq!(s.bind_finish(Ok(())), Ok(()));
    assert_eq!(s.listen(&mut t, &mut curr), Ok(()));
    assert_eq!(s.state(), SocketState::Listening);
    assert!(!t.can_listen(80));
    // listening again is ignored
    assert_eq!(s.listen(&mut t, &mut curr), Ok(()));
    // nothing queued yet
    assert_eq!(s.accept(&mut t, &[]), Err(NetError::WouldBlock));
    assert_eq!(
        s.poll(TcpState::Listen, idle_flags(), &t, &[]),
        Ok(PollState { readable: false, writable: false })
    );
    t.push_syn(80, 11);
    t.push_syn(80, 12);
    assert_eq!(
        s.poll(TcpState::Listen, idle_flags(), &t, &[false, true]),
        Ok(PollState { readable: true, writable: false })
    );
    assert_eq!(s.accept(&mut t, &[false, true]), Ok(12));
    let c = TcpSocket::new_connected(12, ep(LOCALHOST, 80), ep(LOCALHOST, 50001));
    assert!(c.is_connected());
    assert_eq!(c.peer_addr(), Ok(ep(LOCALHOST, 50001)));
    assert_eq!(s.shutdown(&mut t), None);
    assert!(s.is_closed());
    assert!(t.can_listen(80));
    assert_eq!(s.local_addr(), Err(NetError::NotConnected));
    // accepting on a closed socket
    assert_eq!(s.accept(&mut t, &[]), Err(NetError::InvalidInput));
}

#[test]
fn tcp_listen_on_taken_port_fails_and_stays_closed() {
    let mut t = ListenTable::new();
    let mut curr = PORT_START;
    assert_eq!(t.listen(None, 443), Ok(()));
    let mut s = TcpSocket::new();
    assert_eq!(s.bind_start(ep(0, 443), &t, &mut curr), Ok(ListenEndpoint { addr: None, port: 443 }));
    assert_eq!(s.bind_finish(Ok(())), Ok(()));
    assert_eq!(s.listen(&mut t, &mut curr), Err(NetError::AddrInUse));
    assert!(s.is_closed());
}

#[test]
fn tcp_listen_unbound_takes_ephemeral_port() {
    let mut t = ListenTable::new();
    let mut curr = PORT_START;
    let mut s = TcpSocket::new();
    assert_eq!(s.listen(&mut t, &mut curr), Ok(()));
    assert_eq!(s.local_addr(), Ok(ep(0, PORT_START)));
    assert!(!t.can_listen(PORT_START));
}

#[test]
fn tcp_shutdown_of_connected_socket_returns_handle() {
    let mut t = ListenTable::new();
    let mut s = TcpSocket::new_connected(5, ep(LOCALHOST, 1234), ep(LOCALHOST, 80));
    assert_eq!(s.close(), Some(5));
    assert_eq!(
        s.poll(TcpState::Established, StreamFlags { may_recv: true, can_recv: true, may_send: true, can_send: false }, &t, &[]),
        Ok(PollState { readable: true, writable: false })
    );
    assert_eq!(s.shutdown(&mut t), Some(5));
    assert!(s.is_closed());
    assert_eq!(s.local_addr(), Err(NetError::NotConnected));
    assert_eq!(s.peer_addr(), Err(NetError::NotConnected));
    // a closed socket shuts down to nothing
    assert_eq!(s.shutdown(&mut t), None);
}

#[test]
fn tcp_update_state_begin_and_finish() {
    let mut s = TcpSocket::new();
    assert_eq!(s.begin_update(SocketState::Connected), Err(SocketState::Closed));
    assert_eq!(s.begin_update(SocketState::Closed), Ok(()));
    assert_eq!(s.begin_update(SocketState::Closed), Err(SocketState::Busy));
    s.finish_update(SocketState::Closed, SocketState::Listening, false);
    assert!(s.is_closed());
    assert_eq!(s.begin_update(SocketState::Closed), Ok(()));
    s.finish_update(SocketState::Closed, SocketState::Listening, true);
    assert!(s.is_listening());
}

#[test]
fn tcp_recv_and_send_steps() {
    assert_eq!(recv_step(true, false, false, true), IoStep::Transfer);
    assert_eq!(recv_step(false, false, true, false), IoStep::Done(Err(NetError::ConnectionRefused)));
    assert_eq!(recv_step(false, true, false, false), IoStep::Done(Ok(0)));
    assert_eq!(recv_step(false, true, true, false), IoStep::Done(Err(NetError::WouldBlock)));
    assert_eq!(recv_step(false, true, true, true), IoStep::Done(Err(NetError::Timeout)));
    assert_eq!(send_step(false, true, true), IoStep::Done(Err(NetError::ConnectionReset)));
    assert_eq!(send_step(true, false, true), IoStep::Done(Err(NetError::ConnectionReset)));
    assert_eq!(send_step(true, true, true), IoStep::Transfer);
    assert_eq!(send_step(true, true, false), IoStep::Done(Err(NetError::WouldBlock)));
}

#[test]
fn blocking_retries_only_would_block() {
    assert_eq!(block_next::<usize>(false, Err(NetError::WouldBlock)), None);
    assert_eq!(block_next::<usize>(true, Err(NetError::WouldBlock)), Some(Err(NetError::WouldBlock)));
    assert_eq!(block_next::<usize>(false, Ok(4)), Some(Ok(4)));
    assert_eq!(block_next::<usize>(false, Err(NetError::ConnectionReset)), Some(Err(NetError::ConnectionReset)));
}

#[test]
fn unspecified_addresses() {
    assert!(is_unspecified(IpAddr::V4(0)));
    assert!(is_unspecified(IpAddr::V6(0)));
    assert!(!is_unspecified(IpAddr::V4(LOCALHOST)));
    assert!(!is_unspecified(IpAddr::V6(1)));
}

#[test]
fn udp_bind_connect_send_recv() {
    let mut curr = PORT_START;
    let mut u = UdpSocket::new(9);
    assert_eq!(u.handle(), 9);
    assert_eq!(u.local_addr(), Err(NetError::NotConnected));
    assert_eq!(u.recv_check(), Err(NetError::NotConnected));
    assert_eq!(u.poll(true, true), PollState { readable: false, writable: false });
    assert_eq!(u.send_to_check(ep(LOCALHOST, 53)), Err(NetError::NotConnected));
    let (local, bound) = u.bind_start(ep(0, 0), &mut curr).unwrap();
    assert_eq!(local, ep(0, PORT_START));
    assert_eq!(bound, ListenEndpoint { addr: None, port: PORT_START });
    assert_eq!(curr, PORT_START + 1);
    u.bind_finish(local);
    assert_eq!(u.local_addr(), Ok(local));
    assert_eq!(u.bind_start(ep(0, 0), &mut curr), Err(NetError::InvalidInput));
    // the cursor moved on although the bind failed
    assert_eq!(curr, PORT_START + 2);
    assert_eq!(u.send_to_check(ep(LOCALHOST, 53)), Ok(()));
    assert_eq!(u.send_to_check(ep(LOCALHOST, 0)), Err(NetError::InvalidInput));
    assert_eq!(u.send_to_check(ep(0, 53)), Err(NetError::InvalidInput));
    assert_eq!(u.connected_check(), Err(NetError::NotConnected));
    u.connect_finish(ep(LOCALHOST, 53));
    assert_eq!(u.peer_addr(), Ok(ep(LOCALHOST, 53)));
    assert_eq!(u.connected_check(), Ok(ep(LOCALHOST, 53)));
    assert_eq!(u.poll(true, false), PollState { readable: true, writable: false });
}

#[test]
fn udp_options_and_steps() {
    let mut u = UdpSocket::new(1);
    u.set_nonblocking(true);
    u.set_reuse_addr(true);
    assert!(u.is_nonblocking());
    assert!(u.is_reuse_addr());
    assert_eq!(udp_send_step(false, true), IoStep::Done(Err(NetError::NotConnected)));
    assert_eq!(udp_send_step(true, true), IoStep::Transfer);
    assert_eq!(udp_send_step(true, false), IoStep::Done(Err(NetError::WouldBlock)));
    assert_eq!(udp_recv_step(false, true), IoStep::Done(Err(NetError::NotConnected)));
    assert_eq!(udp_recv_step(true, true), IoStep::Transfer);
    assert_eq!(udp_recv_step(true, false), IoStep::Done(Err(NetError::WouldBlock)));
    assert_eq!(bind_error(BindFailure::InvalidState), NetError::AlreadyExists);
    assert_eq!(bind_error(BindFailure::Unaddressable), NetError::InvalidInput);
    assert_eq!(send_error(SendFailure::BufferFull), NetError::WouldBlock);
    assert_eq!(send_error(SendFailure::Unaddressable), NetError::ConnectionRefused);
}

#[test]
fn udp_ephemeral_port_wraps() {
    let mut c: u16 = 0xffff;
    assert_eq!(udp_ephemeral_port(&mut c), 0xffff);
    assert_eq!(c, PORT_START);
    assert_eq!(udp_ephemeral_port(&mut c), PORT_START);
    assert_eq!(c, PORT_START + 1);
}

#[test]
fn udp_recv_filter_by_peer() {
    let from = ep(LOCALHOST, 53);
    assert_eq!(recv_filter(ep(LOCALHOST, 53), from, 10), Ok(10));
    assert_eq!(recv_filter(ep(0, 0), from, 10), Ok(10));
    assert_eq!(recv_filter(ep(LOCALHOST, 0), from, 3), Ok(3));
    assert_eq!(recv_filter(ep(0x0a00_0001, 53), from, 10), Err(NetError::WouldBlock));
    assert_eq!(recv_filter(ep(LOCALHOST, 54), from, 10), Err(NetError::WouldBlock));
}

#[test]
fn mutex_lock_excludes_others_until_unlocked() {
    let mut m = Mutex::new(5u32);
    assert!(!m.is_locked());
    assert!(m.try_lock(1));
    assert!(m.is_locked());
    assert!(!m.try_lock(2));
    assert!(!m.lock(2));
    assert!(!m.lock(3));
    *m.get_mut() += 1;
    assert_eq!(m.force_unlock(1), vec![2, 3]);
    assert!(!m.is_locked());
    assert!(m.lock(2));
    assert!(!m.lock(3));
    assert_eq!(m.force_unlock(2), vec![3]);
    assert_eq!(m.force_unlock(0), Vec::<u64>::new());
    assert_eq!(m.into_inner(), 6);
}

#[test]
fn wait_queue_steps() {
    let mut q = WaitQueue::new();
    assert!(!q.wait_until_step(4, false));
    assert!(q.contains(4));
    assert!(!q.wait_until_step(4, false));
    assert!(!q.wake_check(4, false));
    assert!(q.contains(4));
    assert!(q.wake_check(4, true));
    assert!(!q.contains(4));
    assert!(!q.wait_until_step(5, false));
    assert!(q.wait_until_step(5, true));
    assert!(!q.contains(5));
    q.prepare_to_wait(6);
    assert!(q.notify_task(6));
    assert!(!q.notify_task(6));
}

#[test]
fn shm_ids_and_tables() {
    let mut keys = ShmKeys::new();
    assert_eq!(keys.create_shmid(100), 1);
    assert_eq!(keys.create_shmid(200), 2);
    assert_eq!(keys.create_shmid(300), 3);
    assert_eq!(keys.shmid_of(100), Some(1));
    assert_eq!(keys.shmid_of(300), Some(3));
    assert_eq!(keys.shmid_of(200), Some(2));
    assert_eq!(keys.shmid_of(400), None);
    let mut t: ShmTable<&str> = ShmTable::new();
    assert_eq!(t.get_shared_mem(1), None);
    t.add_shared_mem(1, "seg1");
    t.add_shared_mem(3, "seg3");
    assert_eq!(t.get_shared_mem(1), Some(&"seg1"));
    assert_eq!(t.get_shared_mem(3), Some(&"seg3"));
    assert_eq!(t.get_shared_mem(2), None);
}

#[test]
fn executor_record_fields() {
    let mut e = Executor::new(7, KERNEL_PROCESS_ID, 0x1000, "/home".to_string(), 0x4000);
    assert_eq!(e.pid(), 7);
    assert_eq!(e.get_parent(), KERNEL_PROCESS_ID);
    assert_eq!(e.get_heap_bottom(), 0x1000);
    assert_eq!(e.get_heap_top(), 0x1000);
    assert_eq!(e.get_stack_limit(), 0x4000);
    assert_eq!(e.get_cwd(), "/home");
    assert_eq!(e.get_file_path(), "");
    assert_eq!(e.get_code_if_exit(), None);
    e.set_exit_code(3);
    e.set_zombie(true);
    assert_eq!(e.get_code_if_exit(), Some(3));
    e.set_parent(2);
    e.set_heap_top(0x3000);
    e.set_heap_bottom(0x800);
    e.set_stack_limit(0x8000);
    e.set_vfork_block(true);
    e.set_file_path("/bin/sh".to_string());
    e.set_cwd("/tmp".to_string());
    assert_eq!(e.get_parent(), 2);
    assert_eq!(e.get_heap_top(), 0x3000);
    assert_eq!(e.get_heap_bottom(), 0x800);
    assert_eq!(e.get_stack_limit(), 0x8000);
    assert!(e.get_vfork_block());
    assert_eq!(e.get_file_path(), "/bin/sh");
    assert_eq!(e.get_cwd(), "/tmp");
    assert_eq!(e.get_main_task(), None);
    e.set_main_task(9);
    assert_eq!(e.get_main_task(), Some(9));
    assert_eq!(e.exit_main_task(), Some(9));
    assert_eq!(e.get_main_task(), None);
    let mut table: Vec<Option<u32>> = vec![Some(0), None];
    assert_eq!(e.alloc_fd(&mut table), Ok(1));
}

#[test]
fn kernel_executor_record() {
    let k = Executor::new_init(0x10000);
    assert_eq!(k.pid(), KERNEL_PROCESS_ID);
    assert_eq!(k.get_parent(), KERNEL_PROCESS_ID);
    assert_eq!(k.get_cwd(), "/");
    assert_eq!(k.get_heap_top(), 0);
    let mut full: Vec<Option<u32>> = (0..FD_LIMIT_ORIGIN).map(|i| Some(i as u32)).collect();
    assert_eq!(k.alloc_fd(&mut full), Err(ProcError::StorageFull));
}

#[test]
fn leader_exit_kills_live_threads_and_records_exit() {
    let tasks = [
        ThreadState { id: 1, leader: true, exited: false },
        ThreadState { id: 2, leader: false, exited: false },
        ThreadState { id: 3, leader: false, exited: true },
        ThreadState { id: 4, leader: false, exited: false },
    ];
    assert_eq!(threads_to_kill(&tasks), vec![2, 4]);
    assert_eq!(threads_to_kill(&tasks[..1]), Vec::<u64>::new());
    let mut e = Executor::new(5, 1, 0, "/".to_string(), 0x1000);
    e.set_main_task(1);
    assert_eq!(e.exit_leader(-2), Some(1));
    assert_eq!(e.get_code_if_exit(), Some(-2));
    assert_eq!(e.get_main_task(), None);
}

#[test]
fn clone_and_exec_decisions() {
    assert_eq!(clone_child_tid_word(CLONE_CHILD_SETTID, 42), Some(42));
    assert_eq!(clone_child_tid_word(CLONE_CHILD_SETTID | CLONE_CHILD_CLEARTID, 0x1_0000_0005), Some(5));
    assert_eq!(clone_child_tid_word(CLONE_CHILD_CLEARTID, 42), Some(0));
    assert_eq!(clone_child_tid_word(0, 42), None);
    assert_eq!(clone_return_id(CLONE_THREAD, 9, 3), 9);
    assert_eq!(clone_return_id(0, 9, 3), 3);
    assert_eq!(exec_args("/bin/ls".to_string(), vec![]), vec!["/bin/ls".to_string()]);
    assert_eq!(
        exec_args("/bin/ls".to_string(), vec!["ls".to_string(), "-l".to_string()]),
        vec!["ls".to_string(), "-l".to_string()]
    );
    let mut e = Executor::new(5, 1, 0x1000, "/".to_string(), 0x1000);
    e.set_heap_top(0x5000);
    e.reset_heap(0x8000);
    assert_eq!(e.get_heap_bottom(), 0x8000);
    assert_eq!(e.get_heap_top(), 0x8000);
}

#[test]
fn waiting_then_leaving_keeps_the_queue() {
    let mut q = WaitQueue::new();
    q.prepare_to_wait(1);
    q.prepare_to_wait(2);
    q.prepare_to_wait(3);
    assert!(q.remove(3));
    assert_eq!(q.notify_all(), vec![1, 2]);
}

#[test]
fn queued_socket_states() {
    assert!(!is_connected_state(TcpState::Listen));
    assert!(!is_connected_state(TcpState::SynReceived));
    assert!(is_connected_state(TcpState::Established));
    assert!(is_connected_state(TcpState::Closed));
    assert!(is_closed_state(TcpState::Closed));
    assert!(!is_closed_state(TcpState::TimeWait));
    assert_eq!(accepted(4, TcpState::Established), Ok(4));
    assert_eq!(accepted(4, TcpState::Closed), Err(NetError::ConnectionReset));
}

fn proc_entry(parent: u64, children: Vec<u64>, signal_tasks: &[u64]) -> ProcEntry {
    ProcEntry {
        parent,
        zombie: false,
        exit_code: 0,
        main_task: None,
        tasks: signal_tasks.to_vec(),
        signal_tasks: signal_tasks.iter().copied().collect::<BTreeSet<u64>>(),
        fd_slots: 3,
        children,
        vfork_blocked: false,
    }
}

fn task_entry(leader: bool) -> TaskEntry {
    TaskEntry { leader, exited: false, exit_code: 0, clear_child_tid: 0, exit_signal: None }
}

fn tables() -> ProcTables {
    let mut t = ProcTables::new();
    t.procs.insert(KERNEL_PROCESS_ID, proc_entry(KERNEL_PROCESS_ID, vec![2], &[]));
    let mut parent = proc_entry(KERNEL_PROCESS_ID, vec![5], &[20]);
    parent.vfork_blocked = true;
    t.procs.insert(2, parent);
    let mut p = proc_entry(2, vec![7, 8], &[50, 51]);
    p.main_task = Some(50);
    t.procs.insert(5, p);
    t.procs.insert(7, proc_entry(5, vec![], &[70]));
    t.procs.insert(8, proc_entry(5, vec![], &[80]));
    for pid in [KERNEL_PROCESS_ID, 2, 5, 7, 8] {
        t.pid2pc.insert(pid);
    }
    t.tasks.insert(50, task_entry(true));
    let mut thread = task_entry(false);
    thread.clear_child_tid = 0x4000;
    t.tasks.insert(51, thread);
    t.tid2task.insert(50);
    t.tid2task.insert(51);
    t
}

#[test]
fn thread_exit_leaves_its_process_running() {
    let mut t = tables();
    let e = t.exit(5, 51, 3);
    assert_eq!(e, ExitEffects { signal: None, clear_child_tid: Some(0x4000), main_task: None });
    assert!(!t.tid2task.contains(&51));
    assert!(t.tasks[&51].exited);
    assert_eq!(t.tasks[&51].exit_code, 3);
    let p = &t.procs[&5];
    assert!(!p.zombie);
    assert_eq!(p.signal_tasks.iter().copied().collect::<Vec<u64>>(), vec![50]);
    assert_eq!(p.tasks, vec![50]);
    assert!(t.pid2pc.contains(&5));
}

#[test]
fn leader_exit_ends_the_process() {
    let mut t = tables();
    assert_eq!(t.exit_effects(5, 50), ExitEffects { signal: Some((2, SIGCHLD)), clear_child_tid: None, main_task: Some(50) });
    let e = t.exit(5, 50, -1);
    assert_eq!(e, ExitEffects { signal: Some((2, SIGCHLD)), clear_child_tid: None, main_task: Some(50) });
    assert!(!t.tid2task.contains(&50));
    assert!(t.tasks[&50].exited);
    let p = &t.procs[&5];
    assert!(p.zombie);
    assert_eq!(p.exit_code, -1);
    assert_eq!(p.main_task, None);
    assert!(p.signal_tasks.is_empty());
    assert!(p.tasks.is_empty());
    assert_eq!(p.fd_slots, 0);
    assert!(!t.pid2pc.contains(&5));
    assert_eq!(t.procs[&7].parent, KERNEL_PROCESS_ID);
    assert_eq!(t.procs[&8].parent, KERNEL_PROCESS_ID);
    assert_eq!(t.procs[&KERNEL_PROCESS_ID].children, vec![2, 7, 8]);
    assert!(!t.procs[&2].vfork_blocked);
}
