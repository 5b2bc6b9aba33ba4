//! The bookkeeping of a UDP socket with POSIX-like calls: binding,
//! connecting, and the checks and decisions around sending and receiving
//! datagrams. The engine socket itself is driven by the caller, which hands
//! its answers in as plain values.
use vstd::prelude::*;
use crate::listen::{NetError, PORT_START, PORT_END};
use crate::tcp::{Endpoint, ListenEndpoint, unspecified_addr, is_unspecified, bound_on, IoStep};
use crate::task::PollState;

verus! {

/// Why the socket engine refused to bind.
#[derive(Debug, Clone, Copy, PartialEq, Eq, Structural)]
pub enum BindFailure {
    /// The engine's socket is bound already.
    InvalidState,
    /// The endpoint cannot be bound.
    Unaddressable,
}

/// Why the socket engine refused to send.
#[derive(Debug, Clone, Copy, PartialEq, Eq, Structural)]
pub enum SendFailure {
    /// The send buffer is full.
    BufferFull,
    /// The destination cannot be reached.
    Unaddressable,
}

/// The error that a refusal of the engine to bind gives.
pub fn bind_error(e: BindFailure) -> (r: NetError)
    ensures
        e is InvalidState ==> r == NetError::AlreadyExists,
        e is Unaddressable ==> r == NetError::InvalidInput,
{
    match e {
        BindFailure::InvalidState => NetError::AlreadyExists,
        BindFailure::Unaddressable => NetError::InvalidInput,
    }
}

/// The error that a refusal of the engine to send gives.
pub fn send_error(e: SendFailure) -> (r: NetError)
    ensures
        e is BufferFull ==> r == NetError::WouldBlock,
        e is Unaddressable ==> r == NetError::ConnectionRefused,
{
    match e {
        SendFailure::BufferFull => NetError::WouldBlock,
        SendFailure::Unaddressable => NetError::ConnectionRefused,
    }
}

/// The next ephemeral port after `c`, wrapping from the last to the first.
pub open spec fn next_udp_port(c: u16) -> u16 {
    if c == PORT_END {
        PORT_START
    } else {
        (c + 1) as u16
    }
}

/// Takes the ephemeral port at cursor `curr` and moves the cursor on,
/// without looking whether the port is free.
pub fn udp_ephemeral_port(curr: &mut u16) -> (p: u16)
    ensures
        p == *old(curr),
        *final(curr) == next_udp_port(*old(curr)),
{
    let port = *curr;
    if *curr == PORT_END {
        *curr = PORT_START;
    } else {
        *curr = *curr + 1;
    }
    port
}

/// The step of sending a datagram, given whether the engine socket is open
/// and whether its buffer has room: `NotConnected` when it is not open.
pub fn udp_send_step(is_open: bool, can_send: bool) -> (s: IoStep)
    ensures
        s == if !is_open {
            IoStep::Done(Err(NetError::NotConnected))
        } else if can_send {
            IoStep::Transfer
        } else {
            IoStep::Done(Err(NetError::WouldBlock))
        },
{
    if !is_open {
        IoStep::Done(Err(NetError::NotConnected))
    } else if can_send {
        IoStep::Transfer
    } else {
        IoStep::Done(Err(NetError::WouldBlock))
    }
}

/// The step of receiving a datagram, given whether the engine socket is
/// open and whether a datagram waits: `NotConnected` when it is not open.
pub fn udp_recv_step(is_open: bool, can_recv: bool) -> (s: IoStep)
    ensures
        s == if !is_open {
            IoStep::Done(Err(NetError::NotConnected))
        } else if can_recv {
            IoStep::Transfer
        } else {
            IoStep::Done(Err(NetError::WouldBlock))
        },
{
    if !is_open {
        IoStep::Done(Err(NetError::NotConnected))
    } else if can_recv {
        IoStep::Transfer
    } else {
        IoStep::Done(Err(NetError::WouldBlock))
    }
}

/// The model of a UDP socket.
pub struct UdpView {
    /// The engine socket.
    pub handle: usize,
    pub local: Option<Endpoint>,
    pub peer: Option<Endpoint>,
    pub nonblock: bool,
    pub reuse_addr: bool,
}

/// A UDP socket.
pub struct UdpSocket {
    handle: usize,
    local_addr: Option<Endpoint>,
    peer_addr: Option<Endpoint>,
    nonblock: bool,
    reuse_addr: bool,
}

impl UdpSocket {
    /// The model of the socket.
    pub closed spec fn view(&self) -> UdpView {
        UdpView {
            handle: self.handle,
            local: self.local_addr,
            peer: self.peer_addr,
            nonblock: self.nonblock,
            reuse_addr: self.reuse_addr,
        }
    }

    /// A new socket on engine socket `handle`: unbound, unconnected, blocking.
    pub fn new(handle: usize) -> (s: Self)
        ensures
            s@ == (UdpView { handle, local: None, peer: None, nonblock: false, reuse_addr: false }),
    {
        UdpSocket { handle, local_addr: None, peer_addr: None, nonblock: false, reuse_addr: false }
    }

    /// The engine socket.
    pub fn handle(&self) -> (h: usize)
        ensures
            h == self@.handle,
    {
        self.handle
    }

    /// The local address: `NotConnected` while unbound.
    pub fn local_addr(&self) -> (r: Result<Endpoint, NetError>)
        ensures
            r == match self@.local {
                Some(e) => Ok::<Endpoint, NetError>(e),
                None => Err(NetError::NotConnected),
            },
    {
        match self.local_addr {
            Some(e) => Ok(e),
            None => Err(NetError::NotConnected),
        }
    }

    /// The remote address: `NotConnected` while unconnected.
    pub fn peer_addr(&self) -> (r: Result<Endpoint, NetError>)
        ensures
            r == match self@.peer {
                Some(e) => Ok::<Endpoint, NetError>(e),
                None => Err(NetError::NotConnected),
            },
    {
        match self.peer_addr {
            Some(e) => Ok(e),
            None => Err(NetError::NotConnected),
        }
    }

    /// Whether calls return at once instead of waiting.
    pub fn is_nonblocking(&self) -> (b: bool)
        ensures
            b == self@.nonblock,
    {
        self.nonblock
    }

    /// Makes calls return at once (`WouldBlock` when they would wait), or wait.
    pub fn set_nonblocking(&mut self, nonblocking: bool)
        ensures
            final(self)@ == (UdpView { nonblock: nonblocking, ..old(self)@ }),
    {
        self.nonblock = nonblocking;
    }

    /// Whether binding skips the check that the address is free.
    pub fn is_reuse_addr(&self) -> (b: bool)
        ensures
            b == self@.reuse_addr,
    {
        self.reuse_addr
    }

    /// Sets whether binding skips the check that the address is free; it
    /// takes effect on the next `bind`.
    pub fn set_reuse_addr(&mut self, reuse_addr: bool)
        ensures
            final(self)@ == (UdpView { reuse_addr, ..old(self)@ }),
    {
        self.reuse_addr = reuse_addr;
    }

    /// Starts binding to `local`: a port of 0 takes the ephemeral port at
    /// cursor `curr` (which moves on even when the bind then fails);
    /// `InvalidInput` when the socket is bound already. Otherwise the local
    /// endpoint to record and the endpoint to bind the engine socket on; the
    /// caller checks that the address is free unless the socket reuses
    /// addresses, binds the engine socket, and ends with `bind_finish`.
    pub fn bind_start(&self, local: Endpoint, curr: &mut u16) -> (r: Result<(Endpoint, ListenEndpoint), NetError>)
        ensures
            *final(curr) == if local.port == 0 { next_udp_port(*old(curr)) } else { *old(curr) },
            ({
                let port = if local.port == 0 { *old(curr) } else { local.port };
                r == if self@.local is Some {
                    Err::<(Endpoint, ListenEndpoint), NetError>(NetError::InvalidInput)
                } else {
                    Ok((Endpoint { addr: local.addr, port }, bound_on(local.addr, port)))
                }
            }),
    {
        let mut port = local.port;
        if port == 0 {
            port = udp_ephemeral_port(curr);
        }
        if self.local_addr.is_some() {
            return Err(NetError::InvalidInput);
        }
        let endpoint = Endpoint { addr: local.addr, port };
        let addr = if !is_unspecified(local.addr) {
            Some(local.addr)
        } else {
            None
        };
        Ok((endpoint, ListenEndpoint { addr, port }))
    }

    /// Ends a bind the engine accepted: the socket records its local endpoint.
    pub fn bind_finish(&mut self, local: Endpoint)
        ensures
            final(self)@ == (UdpView { local: Some(local), ..old(self)@ }),
    {
        self.local_addr = Some(local);
    }

    /// Connects to `peer`, once the socket is bound (the caller binds it to
    /// the unspecified endpoint first when it is not): later sends go there
    /// and receives take only what comes from there.
    pub fn connect_finish(&mut self, peer: Endpoint)
        ensures
            final(self)@ == (UdpView { peer: Some(peer), ..old(self)@ }),
    {
        self.peer_addr = Some(peer);
    }

    /// Checks a send to `remote`: `InvalidInput` for port 0 or the
    /// unspecified address, `NotConnected` while unbound.
    pub fn send_to_check(&self, remote: Endpoint) -> (r: Result<(), NetError>)
        ensures
            r == if remote.port == 0 || unspecified_addr(remote.addr) {
                Err::<(), NetError>(NetError::InvalidInput)
            } else if self@.local is None {
                Err(NetError::NotConnected)
            } else {
                Ok(())
            },
    {
        if remote.port == 0 || is_unspecified(remote.addr) {
            return Err(NetError::InvalidInput);
        }
        if self.local_addr.is_none() {
            return Err(NetError::NotConnected);
        }
        Ok(())
    }

    /// Checks a send or receive with the connected peer: `NotConnected`
    /// while unconnected or unbound; otherwise the peer.
    pub fn connected_check(&self) -> (r: Result<Endpoint, NetError>)
        ensures
            r == match self@.peer {
                Some(p) => if self@.local is Some {
                    Ok::<Endpoint, NetError>(p)
                } else {
                    Err(NetError::NotConnected)
                },
                None => Err(NetError::NotConnected),
            },
    {
        let p = match self.peer_addr {
            Some(p) => p,
            None => {
                return Err(NetError::NotConnected);
            },
        };
        if self.local_addr.is_none() {
            return Err(NetError::NotConnected);
        }
        Ok(p)
    }

    /// Checks a receive from anyone: `NotConnected` while unbound.
    pub fn recv_check(&self) -> (r: Result<(), NetError>)
        ensures
            r == if self@.local is None {
                Err::<(), NetError>(NetError::NotConnected)
            } else {
                Ok(())
            },
    {
        if self.local_addr.is_none() {
            return Err(NetError::NotConnected);
        }
        Ok(())
    }

    /// Whether the socket is readable or writable, given whether the engine
    /// socket has a datagram waiting and room to send: neither while unbound.
    pub fn poll(&self, can_recv: bool, can_send: bool) -> (p: PollState)
        ensures
            self@.local is None ==> !p.readable && !p.writable,
            self@.local is Some ==> p.readable == can_recv && p.writable == can_send,
    {
        if self.local_addr.is_none() {
            return PollState { readable: false, writable: false };
        }
        PollState { readable: can_recv, writable: can_send }
    }
}

/// Whether a datagram of `len` bytes from `from` is taken by a socket
/// connected to `peer`: `WouldBlock` when the peer's address is specified
/// and differs, or its port is not 0 and differs; otherwise its length.
pub fn recv_filter(peer: Endpoint, from: Endpoint, len: usize) -> (r: Result<usize, NetError>)
    ensures
        r == if !unspecified_addr(peer.addr) && peer.addr != from.addr {
            Err::<usize, NetError>(NetError::WouldBlock)
        } else if peer.port != 0 && peer.port != from.port {
            Err(NetError::WouldBlock)
        } else {
            Ok(len)
        },
{
    if !is_unspecified(peer.addr) && peer.addr != from.addr {
        return Err(NetError::WouldBlock);
    }
    if peer.port != 0 && peer.port != from.port {
        return Err(NetError::WouldBlock);
    }
    Ok(len)
}

} // verus!
