//! The state machine of a TCP socket with POSIX-like calls: which calls its
//! state allows, how each moves it, and what the answers of the socket engine
//! make of it. The engine itself (the sockets and their buffers) is driven by
//! the caller, which hands its answers in as plain values.
//!
//! State transitions:
//! closed -(connect)-> busy -> connecting -> connected -(shutdown)-> busy -> closed;
//! closed -(listen)-> busy -> listening -(shutdown)-> busy -> closed;
//! closed -(bind)-> busy -> closed.
use vstd::prelude::*;
use crate::listen::{
    IpAddr, NetError, ListenTable, ListenView, PORT_START, PORT_END, PORT_NUM, first_free_port, next_port,
    accept_outcome, lemma_first_free_port_is_free,
};
use crate::task::PollState;

verus! {

/// Where a socket stands.
#[derive(Debug, Clone, Copy, PartialEq, Eq, Structural)]
pub enum SocketState {
    Closed,
    /// A call is changing the socket.
    Busy,
    Connecting,
    Connected,
    Listening,
}

/// An address and a port.
#[derive(Debug, Clone, Copy, PartialEq, Eq, Structural)]
pub struct Endpoint {
    pub addr: IpAddr,
    pub port: u16,
}

/// An endpoint to listen on or bind to: any address when `addr` is `None`.
#[derive(Debug, Clone, Copy, PartialEq, Eq)]
pub struct ListenEndpoint {
    pub addr: Option<IpAddr>,
    pub port: u16,
}

/// The states of a TCP connection in the socket engine.
#[derive(Debug, Clone, Copy, PartialEq, Eq, Structural)]
pub enum TcpState {
    Closed,
    Listen,
    SynSent,
    SynReceived,
    Established,
    FinWait1,
    FinWait2,
    CloseWait,
    Closing,
    LastAck,
    TimeWait,
}

/// Why the socket engine refused to connect.
#[derive(Debug, Clone, Copy, PartialEq, Eq, Structural)]
pub enum ConnectFailure {
    /// The engine's socket is not closed.
    InvalidState,
    /// The address cannot be reached.
    Unaddressable,
}

/// What the socket engine says of a connected socket's buffers.
#[derive(Debug, Clone, Copy, PartialEq, Eq, Structural)]
pub struct StreamFlags {
    /// Data may still come.
    pub may_recv: bool,
    /// Data is waiting.
    pub can_recv: bool,
    /// Data may still be sent.
    pub may_send: bool,
    /// The send buffer has room.
    pub can_send: bool,
}

/// The next step of a receive or send.
#[derive(Debug, Clone, Copy, PartialEq, Eq)]
pub enum IoStep {
    /// Move the data through the engine's socket.
    Transfer,
    /// The call ends with this result.
    Done(Result<usize, NetError>),
}

/// Whether a socket queued on a listening port counts as connected: its
/// handshake is past the listening and half-open states.
pub fn is_connected_state(s: TcpState) -> (b: bool)
    ensures
        b == !(s is Listen || s is SynReceived),
{
    !matches!(s, TcpState::Listen | TcpState::SynReceived)
}

/// Whether a socket's connection is closed.
pub fn is_closed_state(s: TcpState) -> (b: bool)
    ensures
        b == s is Closed,
{
    matches!(s, TcpState::Closed)
}

/// What accepting the queued socket `handle` gives, once it left the
/// queue, given the engine's state of its connection: `ConnectionReset`
/// when the connection was closed meanwhile, and the socket otherwise.
pub fn accepted(handle: usize, engine: TcpState) -> (r: Result<usize, NetError>)
    ensures
        r == if engine is Closed {
            Err::<usize, NetError>(NetError::ConnectionReset)
        } else {
            Ok(handle)
        },
{
    if is_closed_state(engine) {
        Err(NetError::ConnectionReset)
    } else {
        Ok(handle)
    }
}

/// Whether an address is the unspecified one (all zero).
pub open spec fn unspecified_addr(a: IpAddr) -> bool {
    match a {
        IpAddr::V4(x) => x == 0,
        IpAddr::V6(x) => x == 0,
    }
}

/// Whether an address is the unspecified one (all zero).
pub fn is_unspecified(a: IpAddr) -> (b: bool)
    ensures
        b == unspecified_addr(a),
{
    match a {
        IpAddr::V4(x) => x == 0,
        IpAddr::V6(x) => x == 0,
    }
}

/// The unspecified endpoint, `0.0.0.0:0`.
pub open spec fn unspec() -> Endpoint {
    Endpoint { addr: IpAddr::V4(0), port: 0 }
}

/// The unspecified endpoint, `0.0.0.0:0`.
pub fn unspecified_endpoint() -> (e: Endpoint)
    ensures
        e == unspec(),
{
    Endpoint { addr: IpAddr::V4(0), port: 0 }
}

/// The endpoint that an endpoint with address `a` binds on port `port`:
/// any address when `a` is unspecified.
pub open spec fn bound_on(a: IpAddr, port: u16) -> ListenEndpoint {
    ListenEndpoint { addr: if unspecified_addr(a) { None } else { Some(a) }, port }
}

/// The port that binding with port `p` takes: `p` itself, or when it is 0
/// the first free ephemeral port from `c` in table `t`.
pub open spec fn chosen_port(p: u16, t: Seq<Option<ListenView>>, c: u16) -> Option<u16> {
    if p != 0 {
        Some(p)
    } else {
        match first_free_port(t, c as int) {
            Some(k) => Some(next_port(c as int, k) as u16),
            None => None,
        }
    }
}

/// The ephemeral cursor after binding with port `p` from cursor `c`.
pub open spec fn cursor_after(p: u16, t: Seq<Option<ListenView>>, c: u16) -> u16 {
    if p != 0 {
        c
    } else {
        match first_free_port(t, c as int) {
            Some(k) => next_port(c as int, k + 1) as u16,
            None => c,
        }
    }
}

/// Whether a socket may move from state `a` to state `b` in one call: it
/// stays, or follows closed, busy, connecting, connected, busy, closed
/// (a failed connection falls back to closed), or closed, busy, listening,
/// busy, closed, or closed, busy, closed. A call that does all its work at
/// once passes through busy without stopping.
pub open spec fn moves_along(a: SocketState, b: SocketState) -> bool {
    ||| a == b
    ||| a is Closed && (b is Busy || b is Connecting || b is Listening)
    ||| a is Busy && (b is Closed || b is Connecting || b is Listening)
    ||| a is Connecting && (b is Connected || b is Closed)
    ||| (a is Connected || a is Listening) && (b is Busy || b is Closed)
}

/// The model of a TCP socket.
pub struct TcpView {
    pub state: SocketState,
    /// The engine's socket, once there is one.
    pub handle: Option<usize>,
    pub local: Endpoint,
    pub peer: Endpoint,
    pub nonblock: bool,
    pub reuse_addr: bool,
}

/// A TCP socket: `connect` is for clients; `bind`, `listen` and `accept`
/// for servers.
pub struct TcpSocket {
    state: SocketState,
    handle: Option<usize>,
    local_addr: Endpoint,
    peer_addr: Endpoint,
    nonblock: bool,
    reuse_addr: bool,
}

/// The next step of a blocking call after an attempt: `None` to try again
/// (the attempt would block and the socket blocks), otherwise the call's
/// result.
pub fn block_next<T>(nonblock: bool, attempt: Result<T, NetError>) -> (r: Option<Result<T, NetError>>)
    ensures
        r == if !nonblock && attempt == Err::<T, NetError>(NetError::WouldBlock) {
            None::<Result<T, NetError>>
        } else {
            Some(attempt)
        },
{
    if nonblock {
        return Some(attempt);
    }
    match attempt {
        Err(NetError::WouldBlock) => None,
        other => Some(other),
    }
}

/// The error that a refusal of the engine to connect gives.
pub fn connect_error(e: ConnectFailure) -> (r: NetError)
    ensures
        e is InvalidState ==> r == NetError::BadState,
        e is Unaddressable ==> r == NetError::ConnectionRefused,
{
    match e {
        ConnectFailure::InvalidState => NetError::BadState,
        ConnectFailure::Unaddressable => NetError::ConnectionRefused,
    }
}

/// The step of a receive on a connected socket, given whether data waits,
/// whether the connection is open, whether data may still come, and whether
/// the deadline of a timed receive has passed (`false` for an untimed one).
pub fn recv_step(has_data: bool, active: bool, may_recv: bool, expired: bool) -> (s: IoStep)
    ensures
        s == if has_data {
            IoStep::Transfer
        } else if !active {
            IoStep::Done(Err(NetError::ConnectionRefused))
        } else if !may_recv {
            IoStep::Done(Ok(0))
        } else if expired {
            IoStep::Done(Err(NetError::Timeout))
        } else {
            IoStep::Done(Err(NetError::WouldBlock))
        },
{
    if has_data {
        IoStep::Transfer
    } else if !active {
        IoStep::Done(Err(NetError::ConnectionRefused))
    } else if !may_recv {
        IoStep::Done(Ok(0))
    } else if expired {
        IoStep::Done(Err(NetError::Timeout))
    } else {
        IoStep::Done(Err(NetError::WouldBlock))
    }
}

/// The step of a send on a connected socket, given whether the connection
/// is open, whether data may still be sent, and whether the buffer has room.
pub fn send_step(active: bool, may_send: bool, can_send: bool) -> (s: IoStep)
    ensures
        s == if !active || !may_send {
            IoStep::Done(Err(NetError::ConnectionReset))
        } else if can_send {
            IoStep::Transfer
        } else {
            IoStep::Done(Err(NetError::WouldBlock))
        },
{
    if !active || !may_send {
        IoStep::Done(Err(NetError::ConnectionReset))
    } else if can_send {
        IoStep::Transfer
    } else {
        IoStep::Done(Err(NetError::WouldBlock))
    }
}

impl TcpSocket {
    /// The model of the socket.
    pub closed spec fn view(&self) -> TcpView {
        TcpView {
            state: self.state,
            handle: self.handle,
            local: self.local_addr,
            peer: self.peer_addr,
            nonblock: self.nonblock,
            reuse_addr: self.reuse_addr,
        }
    }

    /// A connecting or connected socket has its engine socket.
    pub open spec fn wf(&self) -> bool {
        (self@.state is Connecting || self@.state is Connected) ==> self@.handle is Some
    }

    /// A new closed socket, blocking, unbound.
    pub fn new() -> (t: Self)
        ensures
            t.wf(),
            t@ == (TcpView {
                state: SocketState::Closed,
                handle: None,
                local: unspec(),
                peer: unspec(),
                nonblock: false,
                reuse_addr: false,
            }),
    {
        TcpSocket {
            state: SocketState::Closed,
            handle: None,
            local_addr: unspecified_endpoint(),
            peer_addr: unspecified_endpoint(),
            nonblock: false,
            reuse_addr: false,
        }
    }

    /// A socket connected through engine socket `handle` from `local` to
    /// `peer`.
    pub fn new_connected(handle: usize, local: Endpoint, peer: Endpoint) -> (t: Self)
        ensures
            t.wf(),
            t@ == (TcpView {
                state: SocketState::Connected,
                handle: Some(handle),
                local,
                peer,
                nonblock: false,
                reuse_addr: false,
            }),
    {
        TcpSocket {
            state: SocketState::Connected,
            handle: Some(handle),
            local_addr: local,
            peer_addr: peer,
            nonblock: false,
            reuse_addr: false,
        }
    }

    /// Where the socket stands.
    pub fn state(&self) -> (s: SocketState)
        ensures
            s == self@.state,
    {
        self.state
    }

    /// The engine socket, once there is one.
    pub fn handle(&self) -> (h: Option<usize>)
        ensures
            h == self@.handle,
    {
        self.handle
    }

    /// The local address: `NotConnected` unless the socket is connected or
    /// listening.
    pub fn local_addr(&self) -> (r: Result<Endpoint, NetError>)
        ensures
            r == if self@.state is Connected || self@.state is Listening {
                Ok::<Endpoint, NetError>(self@.local)
            } else {
                Err(NetError::NotConnected)
            },
    {
        match self.state {
            SocketState::Connected | SocketState::Listening => Ok(self.local_addr),
            _ => Err(NetError::NotConnected),
        }
    }

    /// The remote address: `NotConnected` unless the socket is connected or
    /// listening.
    pub fn peer_addr(&self) -> (r: Result<Endpoint, NetError>)
        ensures
            r == if self@.state is Connected || self@.state is Listening {
                Ok::<Endpoint, NetError>(self@.peer)
            } else {
                Err(NetError::NotConnected)
            },
    {
        match self.state {
            SocketState::Connected | SocketState::Listening => Ok(self.peer_addr),
            _ => Err(NetError::NotConnected),
        }
    }

    /// Whether calls return at once instead of waiting.
    pub fn is_nonblocking(&self) -> (b: bool)
        ensures
            b == self@.nonblock,
    {
        self.nonblock
    }

    /// Makes calls return at once (`WouldBlock` when they would wait), or wait.
    pub fn set_nonblocking(&mut self, nonblocking: bool)
        ensures
            final(self)@ == (TcpView { nonblock: nonblocking, ..old(self)@ }),
    {
        self.nonblock = nonblocking;
    }

    /// Whether binding skips the check that the address is free.
    pub fn is_reuse_addr(&self) -> (b: bool)
        ensures
            b == self@.reuse_addr,
    {
        self.reuse_addr
    }

    /// Sets whether binding skips the check that the address is free; it
    /// takes effect on the next `bind`.
    pub fn set_reuse_addr(&mut self, reuse_addr: bool)
        ensures
            final(self)@ == (TcpView { reuse_addr, ..old(self)@ }),
    {
        self.reuse_addr = reuse_addr;
    }

    /// Whether the socket is connecting.
    pub fn is_connecting(&self) -> (b: bool)
        ensures
            b == self@.state is Connecting,
    {
        matches!(self.state, SocketState::Connecting)
    }

    /// Whether the socket is connected.
    pub fn is_connected(&self) -> (b: bool)
        ensures
            b == self@.state is Connected,
    {
        matches!(self.state, SocketState::Connected)
    }

    /// Whether the socket is closed.
    pub fn is_closed(&self) -> (b: bool)
        ensures
            b == self@.state is Closed,
    {
        matches!(self.state, SocketState::Closed)
    }

    /// Whether the socket is listening.
    pub fn is_listening(&self) -> (b: bool)
        ensures
            b == self@.state is Listening,
    {
        matches!(self.state, SocketState::Listening)
    }

    /// Starts a change of state: when the socket is in state `expect`, it
    /// becomes busy; otherwise its state is returned and nothing changes.
    pub fn begin_update(&mut self, expect: SocketState) -> (r: Result<(), SocketState>)
        ensures
            old(self)@.state == expect ==> r is Ok && final(self)@ == (TcpView {
                state: SocketState::Busy,
                ..old(self)@
            }),
            old(self)@.state != expect ==> r == Err::<(), SocketState>(old(self)@.state) && final(self)@
                == old(self)@,
    {
        if self.state == expect {
            self.state = SocketState::Busy;
            Ok(())
        } else {
            Err(self.state)
        }
    }

    /// Ends a change of state begun from `expect`: the socket moves to `new`
    /// when the work succeeded, and back to `expect` otherwise.
    pub fn finish_update(&mut self, expect: SocketState, new: SocketState, ok: bool)
        requires
            old(self)@.state is Busy,
            (if ok { new } else { expect }) is Connecting || (if ok { new } else { expect }) is Connected
                ==> old(self)@.handle is Some,
        ensures
            final(self).wf(),
            final(self)@ == (TcpView { state: if ok { new } else { expect }, ..old(self)@ }),
    {
        if ok {
            self.state = new;
        } else {
            self.state = expect;
        }
    }

    /// Starts connecting: `AlreadyExists` unless the socket is closed;
    /// otherwise it becomes busy and its engine socket, if it has one, is
    /// returned (the caller makes one otherwise).
    pub fn connect_start(&mut self) -> (r: Result<Option<usize>, NetError>)
        ensures
            moves_along(old(self)@.state, final(self)@.state),
            old(self)@.state is Closed ==> r == Ok::<Option<usize>, NetError>(old(self)@.handle)
                && final(self)@ == (TcpView { state: SocketState::Busy, ..old(self)@ }),
            !(old(self)@.state is Closed) ==> r == Err::<Option<usize>, NetError>(NetError::AlreadyExists)
                && final(self)@ == old(self)@,
    {
        match self.begin_update(SocketState::Closed) {
            Ok(()) => Ok(self.handle),
            Err(_) => Err(NetError::AlreadyExists),
        }
    }

    /// Ends the start of a connection with what the engine made of it: the
    /// engine socket with the local and remote endpoints, or the error. On
    /// success the socket is connecting, and the call returns `WouldBlock`
    /// when the socket does not block and `Ok` when the caller is to wait
    /// for the connection; on failure the socket is closed again.
    pub fn connect_finish(&mut self, outcome: Result<(usize, Endpoint, Endpoint), NetError>) -> (r: Result<
        (),
        NetError,
    >)
        requires
            old(self)@.state is Busy,
        ensures
            moves_along(old(self)@.state, final(self)@.state),
            final(self).wf(),
            outcome matches Ok((h, l, p)) ==> final(self)@ == (TcpView {
                state: SocketState::Connecting,
                handle: Some(h),
                local: l,
                peer: p,
                ..old(self)@
            }) && r == if old(self)@.nonblock {
                Err::<(), NetError>(NetError::WouldBlock)
            } else {
                Ok(())
            },
            outcome matches Err(e) ==> final(self)@ == (TcpView { state: SocketState::Closed, ..old(self)@ })
                && r == Err::<(), NetError>(e),
    {
        match outcome {
            Ok((h, l, p)) => {
                self.local_addr = l;
                self.peer_addr = p;
                self.handle = Some(h);
                self.finish_update(SocketState::Closed, SocketState::Connecting, true);
                if self.nonblock {
                    Err(NetError::WouldBlock)
                } else {
                    Ok(())
                }
            },
            Err(e) => {
                self.finish_update(SocketState::Closed, SocketState::Connecting, false);
                Err(e)
            },
        }
    }

    /// Looks at a connection being made, given the engine's state of it:
    /// still waiting while the handshake is out, connected once established,
    /// and closed, with both endpoints cleared, on anything else. The socket
    /// is writable unless it is still waiting.
    pub fn poll_connect(&mut self, engine: TcpState) -> (p: PollState)
        requires
            old(self).wf(),
            old(self)@.state is Connecting,
        ensures
            moves_along(old(self)@.state, final(self)@.state),
            final(self).wf(),
            !p.readable,
            p.writable == !(engine is SynSent),
            engine is SynSent ==> final(self)@ == old(self)@,
            engine is Established ==> final(self)@ == (TcpView {
                state: SocketState::Connected,
                ..old(self)@
            }),
            !(engine is SynSent) && !(engine is Established) ==> final(self)@ == (TcpView {
                state: SocketState::Closed,
                local: unspec(),
                peer: unspec(),
                ..old(self)@
            }),
    {
        let writable = match engine {
            TcpState::SynSent => false,
            TcpState::Established => {
                self.state = SocketState::Connected;
                true
            },
            _ => {
                self.local_addr = unspecified_endpoint();
                self.peer_addr = unspecified_endpoint();
                self.state = SocketState::Closed;
                true
            },
        };
        PollState { readable: false, writable }
    }

    /// What waiting for a connection makes of a look at it: `WouldBlock`
    /// while it is not writable, `Ok` once connected, and `ConnectionRefused`
    /// when it failed.
    pub fn connect_settled(&self, p: PollState) -> (r: Result<(), NetError>)
        ensures
            r == if !p.writable {
                Err::<(), NetError>(NetError::WouldBlock)
            } else if self@.state is Connected {
                Ok(())
            } else {
                Err(NetError::ConnectionRefused)
            },
    {
        if !p.writable {
            Err(NetError::WouldBlock)
        } else if matches!(self.state, SocketState::Connected) {
            Ok(())
        } else {
            Err(NetError::ConnectionRefused)
        }
    }

    /// The endpoint the socket binds on: its local address when specified,
    /// and its local port, or a free ephemeral port of `table` from cursor
    /// `curr` when that is 0 (`AddrInUse` when none is free).
    pub fn bound_endpoint(&self, table: &ListenTable, curr: &mut u16) -> (r: Result<ListenEndpoint, NetError>)
        requires
            table.wf(),
            PORT_START <= *old(curr),
        ensures
            PORT_START <= *final(curr),
            *final(curr) == cursor_after(self@.local.port, table@, *old(curr)),
            r == match chosen_port(self@.local.port, table@, *old(curr)) {
                Some(p) => Ok::<ListenEndpoint, NetError>(bound_on(self@.local.addr, p)),
                None => Err(NetError::AddrInUse),
            },
            r matches Ok(e) ==> e.port != 0,
    {
        let port = if self.local_addr.port != 0 {
            self.local_addr.port
        } else {
            match table.get_ephemeral_port(curr) {
                Ok(p) => p,
                Err(e) => {
                    return Err(e);
                },
            }
        };
        let addr = if !is_unspecified(self.local_addr.addr) {
            Some(self.local_addr.addr)
        } else {
            None
        };
        Ok(ListenEndpoint { addr, port })
    }

    /// Starts binding to `local`: `InvalidInput` unless the socket is closed.
    /// A port of 0 takes a free ephemeral port (`AddrInUse` when none is
    /// free); `InvalidInput` when the socket is bound already. Otherwise the
    /// socket, busy, takes the address and the endpoint to bind the engine
    /// socket on is returned; `bind_finish` ends the call.
    pub fn bind_start(&mut self, local: Endpoint, table: &ListenTable, curr: &mut u16) -> (r: Result<
        ListenEndpoint,
        NetError,
    >)
        requires
            old(self).wf(),
            table.wf(),
            PORT_START <= *old(curr),
        ensures
            moves_along(old(self)@.state, final(self)@.state),
            final(self).wf(),
            PORT_START <= *final(curr),
            !(old(self)@.state is Closed) ==> r == Err::<ListenEndpoint, NetError>(NetError::InvalidInput)
                && final(self)@ == old(self)@ && *final(curr) == *old(curr),
            old(self)@.state is Closed ==> {
                &&& *final(curr) == cursor_after(local.port, table@, *old(curr))
                &&& match chosen_port(local.port, table@, *old(curr)) {
                    None => r == Err::<ListenEndpoint, NetError>(NetError::AddrInUse) && final(self)@
                        == old(self)@,
                    Some(p) => if old(self)@.local != unspec() {
                        r == Err::<ListenEndpoint, NetError>(NetError::InvalidInput) && final(self)@
                            == old(self)@
                    } else {
                        &&& r == Ok::<ListenEndpoint, NetError>(bound_on(local.addr, p))
                        &&& final(self)@ == (TcpView {
                            state: SocketState::Busy,
                            local: Endpoint { addr: local.addr, port: p },
                            ..old(self)@
                        })
                    },
                }
            },
    {
        if self.begin_update(SocketState::Closed).is_err() {
            return Err(NetError::InvalidInput);
        }
        let mut port = local.port;
        if port == 0 {
            match table.get_ephemeral_port(curr) {
                Ok(p) => {
                    port = p;
                },
                Err(e) => {
                    self.finish_update(SocketState::Closed, SocketState::Closed, false);
                    return Err(e);
                },
            }
        }
        if self.local_addr != unspecified_endpoint() {
            self.finish_update(SocketState::Closed, SocketState::Closed, false);
            return Err(NetError::InvalidInput);
        }
        self.local_addr = Endpoint { addr: local.addr, port };
        let ghost c = *curr;
        let bound = self.bound_endpoint(table, curr);
        assert(*curr == c);
        bound
    }

    /// Ends a bind with the result of the engine's check that the address is
    /// free (`Ok` when the socket reuses addresses and skips the check): the
    /// socket is closed again, keeping its address, and the check's result
    /// is the call's.
    pub fn bind_finish(&mut self, check: Result<(), NetError>) -> (r: Result<(), NetError>)
        requires
            old(self)@.state is Busy,
        ensures
            moves_along(old(self)@.state, final(self)@.state),
            final(self).wf(),
            final(self)@ == (TcpView { state: SocketState::Closed, ..old(self)@ }),
            r == check,
    {
        self.finish_update(SocketState::Closed, SocketState::Closed, check.is_ok());
        check
    }

    /// Listens on the bound address and port (a free ephemeral port when the
    /// port is 0), in `table`. A socket that is not closed is left as it is
    /// with `Ok`. A failure (no free port, or the port taken in the table)
    /// leaves the socket closed; the port it chose stays in its address.
    pub fn listen(&mut self, table: &mut ListenTable, curr: &mut u16) -> (r: Result<(), NetError>)
        requires
            old(self).wf(),
            old(table).wf(),
            PORT_START <= *old(curr),
        ensures
            moves_along(old(self)@.state, final(self)@.state),
            final(self).wf(),
            final(table).wf(),
            PORT_START <= *final(curr),
            !(old(self)@.state is Closed) ==> r is Ok && final(self)@ == old(self)@ && final(table)@
                == old(table)@ && *final(curr) == *old(curr),
            old(self)@.state is Closed ==> {
                let l = old(self)@.local;
                &&& *final(curr) == cursor_after(l.port, old(table)@, *old(curr))
                &&& match chosen_port(l.port, old(table)@, *old(curr)) {
                    None => r == Err::<(), NetError>(NetError::AddrInUse) && final(self)@ == old(self)@
                        && final(table)@ == old(table)@,
                    Some(p) => {
                        let e = bound_on(l.addr, p);
                        let local = Endpoint { addr: l.addr, port: p };
                        if old(table)@[p as int] is Some {
                            &&& r == Err::<(), NetError>(NetError::AddrInUse)
                            &&& final(self)@ == (TcpView { local, ..old(self)@ })
                            &&& final(table)@ == old(table)@
                        } else {
                            &&& r is Ok
                            &&& final(self)@ == (TcpView {
                                state: SocketState::Listening,
                                local,
                                ..old(self)@
                            })
                            &&& final(table)@ == old(table)@.update(
                                p as int,
                                Some(ListenView { addr: e.addr, syn_queue: Seq::empty() }),
                            )
                        }
                    },
                }
            },
    {
        if self.begin_update(SocketState::Closed).is_err() {
            return Ok(());
        }
        let bound = match self.bound_endpoint(table, curr) {
            Ok(b) => b,
            Err(e) => {
                self.finish_update(SocketState::Closed, SocketState::Listening, false);
                return Err(e);
            },
        };
        self.local_addr.port = bound.port;
        let res = table.listen(bound.addr, bound.port);
        self.finish_update(SocketState::Closed, SocketState::Listening, res.is_ok());
        res
    }

    /// Accepts a connection on the listening port, given for each socket
    /// queued there whether it is connected: `InvalidInput` unless the
    /// socket listens; otherwise as `ListenTable::accept` on its port. The
    /// caller makes the new socket from the engine socket returned, with
    /// `new_connected`.
    pub fn accept(&self, table: &mut ListenTable, connected: &[bool]) -> (r: Result<usize, NetError>)
        requires
            old(table).wf(),
            self@.state is Listening ==> (old(table)@[self@.local.port as int] matches Some(e)
                ==> connected@.len() == e.syn_queue.len()),
        ensures
            final(table).wf(),
            !(self@.state is Listening) ==> r == Err::<usize, NetError>(NetError::InvalidInput)
                && final(table)@ == old(table)@,
            self@.state is Listening ==> accept_outcome(
                old(table)@,
                self@.local.port as int,
                connected@,
                r,
                final(table)@,
            ),
    {
        if !self.is_listening() {
            return Err(NetError::InvalidInput);
        }
        table.accept(self.local_addr.port, connected)
    }

    /// Closes the socket: a connected one drops its local address and
    /// returns its engine socket, for the caller to close; a listening one
    /// drops its local address and stops listening in `table`. Either
    /// becomes closed; any other socket is left as it is.
    pub fn shutdown(&mut self, table: &mut ListenTable) -> (r: Option<usize>)
        requires
            old(self).wf(),
            old(table).wf(),
        ensures
            moves_along(old(self)@.state, final(self)@.state),
            final(self).wf(),
            final(table).wf(),
            old(self)@.state is Connected ==> r == old(self)@.handle && final(self)@ == (TcpView {
                state: SocketState::Closed,
                local: unspec(),
                ..old(self)@
            }) && final(table)@ == old(table)@,
            old(self)@.state is Listening ==> r is None && final(self)@ == (TcpView {
                state: SocketState::Closed,
                local: unspec(),
                ..old(self)@
            }) && final(table)@ == old(table)@.update(old(self)@.local.port as int, None),
            !(old(self)@.state is Connected) && !(old(self)@.state is Listening) ==> r is None
                && final(self)@ == old(self)@ && final(table)@ == old(table)@,
    {
        if self.begin_update(SocketState::Connected).is_ok() {
            let h = self.handle;
            self.local_addr = unspecified_endpoint();
            self.finish_update(SocketState::Connected, SocketState::Closed, true);
            return h;
        }
        if self.begin_update(SocketState::Listening).is_ok() {
            let port = self.local_addr.port;
            self.local_addr = unspecified_endpoint();
            table.unlisten(port);
            self.finish_update(SocketState::Listening, SocketState::Closed, true);
        }
        None
    }

    /// The engine socket to close the sending half of, if there is one.
    pub fn close(&self) -> (h: Option<usize>)
        ensures
            h == self@.handle,
    {
        self.handle
    }

    /// Checks that the socket can receive or send: `WouldBlock` while it is
    /// connecting, `NotConnected` unless it is connected; otherwise its
    /// engine socket.
    pub fn io_check(&self) -> (r: Result<usize, NetError>)
        requires
            self.wf(),
        ensures
            r == if self@.state is Connecting {
                Err::<usize, NetError>(NetError::WouldBlock)
            } else if !(self@.state is Connected) {
                Err(NetError::NotConnected)
            } else {
                Ok(self@.handle->0)
            },
    {
        if self.is_connecting() {
            return Err(NetError::WouldBlock);
        } else if !self.is_connected() {
            return Err(NetError::NotConnected);
        }
        match self.handle {
            Some(h) => Ok(h),
            None => Err(NetError::NotConnected),
        }
    }

    /// Whether the socket is readable or writable, given the engine's state
    /// of the connection and its buffers, `table`, and for each socket
    /// queued on the listening port whether it is connected: a connecting
    /// socket is looked at as `poll_connect` does; a connected one is
    /// readable when data waits or no more can come, and writable when the
    /// buffer has room or nothing more can be sent; a listening one is
    /// readable when a connection is ready (`InvalidInput` when its port is
    /// not in the table); any other is neither.
    pub fn poll(&mut self, engine: TcpState, flags: StreamFlags, table: &ListenTable, connected: &[bool]) -> (r:
        Result<PollState, NetError>)
        requires
            old(self).wf(),
            table.wf(),
            old(self)@.state is Listening ==> (table@[old(self)@.local.port as int] matches Some(e)
                ==> connected@.len() == e.syn_queue.len()),
        ensures
            moves_along(old(self)@.state, final(self)@.state),
            final(self).wf(),
            !(old(self)@.state is Connecting) ==> final(self)@ == old(self)@,
            old(self)@.state is Connecting ==> (r matches Ok(p) && !p.readable && p.writable == !(
            engine is SynSent)),
            old(self)@.state is Connecting && engine is SynSent ==> final(self)@ == old(self)@,
            old(self)@.state is Connecting && engine is Established ==> final(self)@ == (TcpView {
                state: SocketState::Connected,
                ..old(self)@
            }),
            old(self)@.state is Connecting && !(engine is SynSent) && !(engine is Established)
                ==> final(self)@ == (TcpView {
                state: SocketState::Closed,
                local: unspec(),
                peer: unspec(),
                ..old(self)@
            }),
            old(self)@.state is Connected ==> r == Ok::<PollState, NetError>(
                PollState {
                    readable: !flags.may_recv || flags.can_recv,
                    writable: !flags.may_send || flags.can_send,
                },
            ),
            old(self)@.state is Listening ==> r == match table@[old(self)@.local.port as int] {
                Some(_) => Ok::<PollState, NetError>(
                    PollState { readable: connected@.contains(true), writable: false },
                ),
                None => Err(NetError::InvalidInput),
            },
            (old(self)@.state is Closed || old(self)@.state is Busy) ==> r == Ok::<PollState, NetError>(
                PollState { readable: false, writable: false },
            ),
    {
        match self.state {
            SocketState::Connecting => Ok(self.poll_connect(engine)),
            SocketState::Connected => Ok(
                PollState {
                    readable: !flags.may_recv || flags.can_recv,
                    writable: !flags.may_send || flags.can_send,
                },
            ),
            SocketState::Listening => match table.can_accept(self.local_addr.port, connected) {
                Ok(b) => Ok(PollState { readable: b, writable: false }),
                Err(e) => Err(e),
            },
            _ => Ok(PollState { readable: false, writable: false }),
        }
    }

    /// The engine socket whose Nagle setting to change: `NotConnected` when
    /// there is none.
    pub fn nagle_target(&self) -> (r: Result<usize, NetError>)
        ensures
            r == match self@.handle {
                Some(h) => Ok::<usize, NetError>(h),
                None => Err(NetError::NotConnected),
            },
    {
        match self.handle {
            Some(h) => Ok(h),
            None => Err(NetError::NotConnected),
        }
    }

    /// Whether Nagle's algorithm is on, given the engine socket's setting:
    /// on for a socket without an engine socket yet, as one starts with it.
    pub fn nagle_enabled(&self, engine_setting: bool) -> (b: bool)
        ensures
            b == match self@.handle {
                Some(_) => engine_setting,
                None => true,
            },
    {
        match self.handle {
            Some(_) => engine_setting,
            None => true,
        }
    }
}

/// The port `p` of the ephemeral range is some number of steps from any
/// cursor `c` of the range.
proof fn lemma_port_reached(c: u16, p: int) -> (k: int)
    requires
        PORT_START <= c,
        PORT_START <= p <= PORT_END,
    ensures
        0 <= k <= PORT_END - PORT_START,
        next_port(c as int, k) == p,
{
    let span = (PORT_END - PORT_START + 1) as int;
    let x = p - PORT_START;
    assert(x % span == x && (x + span) % span == x) by (nonlinear_arith)
        requires
            0 <= x < span,
    ;
    if p >= c {
        p - c
    } else {
        p - c + span
    }
}

/// The ephemeral port that a socket without a port chooses is free in the
/// table; when none is chosen, every ephemeral port is taken.
pub proof fn lemma_chosen_ephemeral_port_free(t: Seq<Option<ListenView>>, c: u16)
    requires
        t.len() == PORT_NUM,
        PORT_START <= c,
    ensures
        chosen_port(0, t, c) matches Some(p) ==> PORT_START <= p && t[p as int] is None,
        chosen_port(0, t, c) is None ==> forall|p: int| PORT_START <= p <= PORT_END ==> (#[trigger] t[p]) is Some,
{
    match first_free_port(t, c as int) {
        Some(k) => {
            lemma_first_free_port_is_free(t, c as int);
        },
        None => {
            assert forall|p: int| PORT_START <= p <= PORT_END implies (#[trigger] t[p]) is Some by {
                let k = lemma_port_reached(c, p);
                if t[p] is None {
                    assert(t[next_port(c as int, k)] is None);
                }
            }
        },
    }
}

/// Starting to connect and then failing leaves a closed socket as it was.
pub proof fn lemma_failed_connect_restores(v: TcpView)
    requires
        v.state is Closed,
    ensures
        (TcpView { state: SocketState::Closed, ..(TcpView { state: SocketState::Busy, ..v }) }) == v,
{
}

/// Listening and then shutting down leaves the table of listening ports as
/// it was, when the port was free.
pub proof fn lemma_listen_then_shutdown(t: Seq<Option<ListenView>>, p: int, a: Option<IpAddr>)
    requires
        0 <= p < t.len(),
        t[p] is None,
    ensures
        t.update(p, Some(ListenView { addr: a, syn_queue: Seq::empty() })).update(p, None) == t,
{
    assert(t.update(p, Some(ListenView { addr: a, syn_queue: Seq::empty() })).update(p, None) =~= t);
}

} // verus!
