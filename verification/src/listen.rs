//! The table of TCP ports being listened on, with the queue of incoming
//! connections of each, and the choice of ephemeral ports.
use vstd::prelude::*;

verus! {

/// Most connections a listening port queues.
pub const LISTEN_QUEUE_SIZE: usize = 512;
/// First ephemeral port.
pub const PORT_START: u16 = 0xc000;
/// Last ephemeral port.
pub const PORT_END: u16 = 0xffff;

/// An IP address.
#[derive(Debug, Clone, Copy, PartialEq, Eq, Structural)]
pub enum IpAddr {
    V4(u32),
    V6(u128),
}

/// Errors of the network sockets.
#[derive(Debug, Clone, Copy, PartialEq, Eq, Structural)]
pub enum NetError {
    /// The port or address is taken.
    AddrInUse,
    /// The request does not fit the socket or the port (such as accepting
    /// on a port nobody listens on, or binding twice).
    InvalidInput,
    /// Nothing is ready yet; try again.
    WouldBlock,
    /// The socket has no peer.
    NotConnected,
    /// The socket engine refused the request in its present state.
    BadState,
    /// The peer cannot be reached or refused the connection.
    ConnectionRefused,
    /// The socket is connected already.
    AlreadyExists,
    /// The peer closed the connection.
    ConnectionReset,
    /// The deadline passed.
    Timeout,
}

/// A listening port: the address it accepts on (any when `None`) and the
/// sockets of its incoming connections, oldest first.
pub struct ListenEntry {
    pub addr: Option<IpAddr>,
    pub syn_queue: Vec<usize>,
}

/// The model of a listening port.
pub struct ListenView {
    pub addr: Option<IpAddr>,
    pub syn_queue: Seq<usize>,
}

/// What an incoming connection request to a port calls for.
#[derive(Debug, Clone, Copy, PartialEq, Eq, Structural)]
pub enum Incoming {
    /// Nobody listens there on that address; ignore the packet.
    Ignore,
    /// The queue is full; drop the packet.
    Drop,
    /// Make a socket listening on the port's address and port, and queue it.
    Accept { addr: Option<IpAddr>, port: u16 },
}

/// Number of ports.
pub const PORT_NUM: usize = 65536;

/// The table of listening ports, one slot per port.
pub struct ListenTable {
    tcp: Vec<Option<ListenEntry>>,
}

/// The model of a slot.
pub open spec fn slot_view(e: Option<ListenEntry>) -> Option<ListenView> {
    match e {
        Some(e) => Some(ListenView { addr: e.addr, syn_queue: e.syn_queue@ }),
        None => None,
    }
}

impl ListenTable {
    /// What listens on each port.
    pub closed spec fn view(&self) -> Seq<Option<ListenView>> {
        self.tcp@.map_values(|e: Option<ListenEntry>| slot_view(e))
    }

    /// Whether the table has a slot for every port.
    pub open spec fn wf(&self) -> bool {
        self@.len() == PORT_NUM
    }

    /// A table where nothing listens.
    pub fn new() -> (t: Self)
        ensures
            t.wf(),
            forall|p: int| 0 <= p < PORT_NUM ==> (#[trigger] t@[p]) is None,
    {
        let mut tcp: Vec<Option<ListenEntry>> = Vec::new();
        let mut i: usize = 0;
        while i < PORT_NUM
            invariant
                i <= PORT_NUM,
                tcp@.len() == i,
                forall|p: int| 0 <= p < i ==> (#[trigger] tcp@[p]) is None,
            decreases PORT_NUM - i,
        {
            tcp.push(None);
            i = i + 1;
        }
        ListenTable { tcp }
    }

    /// Whether nothing listens on `port`.
    pub fn can_listen(&self, port: u16) -> (b: bool)
        requires
            self.wf(),
        ensures
            b == self@[port as int] is None,
    {
        self.tcp[port as usize].is_none()
    }

    /// Listens on `port` for address `addr` (any when `None`), unless the
    /// port is taken.
    pub fn listen(&mut self, addr: Option<IpAddr>, port: u16) -> (r: Result<(), NetError>)
        requires
            old(self).wf(),
            port != 0,
        ensures
            final(self).wf(),
            old(self)@[port as int] is Some ==> r == Err::<(), NetError>(NetError::AddrInUse) && final(self)@ == old(self)@,
            old(self)@[port as int] is None ==> r is Ok
                && final(self)@ == old(self)@.update(port as int, Some(ListenView { addr, syn_queue: Seq::empty() })),
    {
        if self.tcp[port as usize].is_some() {
            return Err(NetError::AddrInUse);
        }
        let e = ListenEntry { addr, syn_queue: Vec::new() };
        self.tcp.set(port as usize, Some(e));
        assert(self@ =~= old(self)@.update(port as int, Some(ListenView { addr, syn_queue: Seq::empty() })));
        Ok(())
    }

    /// Stops listening on `port`.
    pub fn unlisten(&mut self, port: u16)
        requires
            old(self).wf(),
        ensures
            final(self).wf(),
            final(self)@ == old(self)@.update(port as int, None),
    {
        self.tcp.set(port as usize, None);
        assert(self@ =~= old(self)@.update(port as int, None));
    }

    /// A copy of the queue of the entry of `port`, which exists.
    fn copy_queue(&self, port: u16) -> (q: Vec<usize>)
        requires
            self.wf(),
            self@[port as int] is Some,
        ensures
            q@ == self@[port as int]->0.syn_queue,
    {
        let mut q: Vec<usize> = Vec::new();
        match &self.tcp[port as usize] {
            Some(e) => {
                let mut i: usize = 0;
                while i < e.syn_queue.len()
                    invariant
                        i <= e.syn_queue@.len(),
                        q@ == e.syn_queue@.take(i as int),
                    decreases e.syn_queue@.len() - i,
                {
                    q.push(e.syn_queue[i]);
                    assert(e.syn_queue@.take(i + 1) =~= e.syn_queue@.take(i as int).push(e.syn_queue@[i as int]));
                    i = i + 1;
                }
                assert(e.syn_queue@.take(e.syn_queue@.len() as int) =~= e.syn_queue@);
            },
            None => {},
        }
        q
    }

    /// The address the entry of `port` accepts on, which exists.
    fn addr_of(&self, port: u16) -> (a: Option<IpAddr>)
        requires
            self.wf(),
            self@[port as int] is Some,
        ensures
            a == self@[port as int]->0.addr,
    {
        match &self.tcp[port as usize] {
            Some(e) => e.addr,
            None => None,
        }
    }

    /// Whether a connection to `port` is ready, given for each queued socket
    /// whether it is connected; `InvalidInput` when nothing listens there.
    pub fn can_accept(&self, port: u16, connected: &[bool]) -> (r: Result<bool, NetError>)
        requires
            self.wf(),
            self@[port as int] matches Some(e) ==> connected@.len() == e.syn_queue.len(),
        ensures
            self@[port as int] is None ==> r == Err::<bool, NetError>(NetError::InvalidInput),
            self@[port as int] is Some ==> r == Ok::<bool, NetError>(connected@.contains(true)),
    {
        if self.tcp[port as usize].is_none() {
            return Err(NetError::InvalidInput);
        }
        let mut i: usize = 0;
        while i < connected.len()
            invariant
                self.wf(),
                self@[port as int] is Some,
                i <= connected@.len(),
                forall|k: int| 0 <= k < i ==> !connected@[k],
            decreases connected@.len() - i,
        {
            if connected[i] {
                assert(connected@.contains(true)) by {
                    assert(connected@[i as int] == true);
                }
                return Ok(true);
            }
            i = i + 1;
        }
        Ok(false)
    }

    /// Takes the oldest connected socket from the queue of `port`, given for
    /// each queued socket whether it is connected: the oldest socket of the
    /// queue takes its place. `WouldBlock` when none is connected,
    /// `InvalidInput` when nothing listens there.
    pub fn accept(&mut self, port: u16, connected: &[bool]) -> (r: Result<usize, NetError>)
        requires
            old(self).wf(),
            old(self)@[port as int] matches Some(e) ==> connected@.len() == e.syn_queue.len(),
        ensures
            final(self).wf(),
            accept_outcome(old(self)@, port as int, connected@, r, final(self)@),
    {
        if self.tcp[port as usize].is_none() {
            return Err(NetError::InvalidInput);
        }
        let ghost e = self@[port as int]->0;
        let mut i: usize = 0;
        while i < connected.len() && !connected[i]
            invariant
                i <= connected@.len(),
                forall|k: int| 0 <= k < i ==> !connected@[k],
            decreases connected@.len() - i,
        {
            i = i + 1;
        }
        if i == connected.len() {
            proof {
                if connected@.contains(true) {
                    let w = choose|k: int| 0 <= k < connected@.len() && connected@[k] == true;
                    assert(!connected@[w]);
                }
            }
            return Err(NetError::WouldBlock);
        }
        proof {
            assert(connected@.contains(true)) by {
                assert(connected@[i as int] == true);
            }
            let w = choose|k: int| 0 <= k < connected@.len() && connected@[k]
                && forall|j: int| 0 <= j < k ==> !connected@[j];
            if w != i {
                if w < i {
                    assert(!connected@[w]);
                } else {
                    assert(!connected@[i as int]);
                }
            }
        }
        let q = self.copy_queue(port);
        let addr = self.addr_of(port);
        let handle = q[i];
        let mut newq: Vec<usize> = Vec::new();
        let mut k: usize = 1;
        while k < q.len()
            invariant
                1 <= k <= q@.len(),
                i < q@.len(),
                newq@ == q@.update(i as int, q@[0]).drop_first().take(k - 1),
            decreases q@.len() - k,
        {
            if k == i {
                newq.push(q[0]);
            } else {
                newq.push(q[k]);
            }
            assert(q@.update(i as int, q@[0]).drop_first().take(k as int) =~= q@.update(i as int, q@[0]).drop_first().take(k - 1).push(
                q@.update(i as int, q@[0])[k as int]));
            k = k + 1;
        }
        assert(q@.update(i as int, q@[0]).drop_first().take(q@.len() - 1) =~= q@.update(i as int, q@[0]).drop_first());
        self.tcp.set(port as usize, Some(ListenEntry { addr, syn_queue: newq }));
        assert(self@ =~= old(self)@.update(port as int, Some(ListenView {
            addr: e.addr,
            syn_queue: e.syn_queue.update(i as int, e.syn_queue[0]).drop_first(),
        })));
        Ok(handle)
    }

    /// Decides an incoming connection request from address `dst` to port
    /// `port`: ignored when nothing listens there on that address, dropped
    /// when the queue is full, and otherwise a socket is to be made.
    pub fn incoming_tcp_packet(&self, dst: IpAddr, port: u16) -> (r: Incoming)
        requires
            self.wf(),
        ensures
            r == match self@[port as int] {
                None => Incoming::Ignore,
                Some(e) => if e.addr is Some && e.addr != Some(dst) {
                    Incoming::Ignore
                } else if e.syn_queue.len() >= LISTEN_QUEUE_SIZE {
                    Incoming::Drop
                } else {
                    Incoming::Accept { addr: e.addr, port }
                },
            },
    {
        match &self.tcp[port as usize] {
            None => Incoming::Ignore,
            Some(e) => {
                let accepts = match e.addr {
                    Some(a) => a == dst,
                    None => true,
                };
                if !accepts {
                    Incoming::Ignore
                } else if e.syn_queue.len() >= LISTEN_QUEUE_SIZE {
                    Incoming::Drop
                } else {
                    Incoming::Accept { addr: e.addr, port }
                }
            },
        }
    }

    /// Queues socket `handle` for `port`, which is listened on.
    pub fn push_syn(&mut self, port: u16, handle: usize)
        requires
            old(self).wf(),
            old(self)@[port as int] is Some,
        ensures
            final(self).wf(),
            final(self)@ == old(self)@.update(port as int, Some(ListenView {
                addr: old(self)@[port as int]->0.addr,
                syn_queue: old(self)@[port as int]->0.syn_queue.push(handle),
            })),
    {
        let mut q = self.copy_queue(port);
        let addr = self.addr_of(port);
        q.push(handle);
        self.tcp.set(port as usize, Some(ListenEntry { addr, syn_queue: q }));
        assert(self@ =~= old(self)@.update(port as int, Some(ListenView {
            addr: old(self)@[port as int]->0.addr,
            syn_queue: old(self)@[port as int]->0.syn_queue.push(handle),
        })));
    }

    /// Finds a free ephemeral port, scanning from `curr` through the
    /// ephemeral range and wrapping around once; `curr` moves past each port
    /// tried. `AddrInUse` when every ephemeral port is taken.
    pub fn get_ephemeral_port(&self, curr: &mut u16) -> (r: Result<u16, NetError>)
        requires
            self.wf(),
            PORT_START <= *old(curr),
        ensures
            PORT_START <= *final(curr),
            r matches Ok(p) ==> PORT_START <= p,
            match first_free_port(self@, *old(curr) as int) {
                Some(k) => r == Ok::<u16, NetError>(next_port(*old(curr) as int, k) as u16)
                    && *final(curr) == next_port(*old(curr) as int, k + 1) as u16,
                None => r == Err::<u16, NetError>(NetError::AddrInUse) && *final(curr) == *old(curr),
            },
    {
        let ghost c0 = *curr as int;
        let mut tries: u16 = 0;
        while tries <= PORT_END - PORT_START
            invariant
                self.wf(),
                PORT_START <= c0 <= PORT_END,
                c0 == *old(curr) as int,
                tries <= PORT_END - PORT_START + 1,
                *curr as int == next_port(c0, tries as int),
                PORT_START <= *curr,
                forall|k: int| 0 <= k < tries ==> (#[trigger] self@[next_port(c0, k)]) is Some,
            decreases PORT_END - PORT_START + 1 - tries,
        {
            let port = *curr;
            if *curr == PORT_END {
                *curr = PORT_START;
            } else {
                *curr = *curr + 1;
            }
            proof {
                lemma_next_port_step(c0, tries as int);
            }
            if self.tcp[port as usize].is_none() {
                proof {
                    lemma_first_free_port(self@, c0, tries as int);
                }
                return Ok(port);
            }
            tries = tries + 1;
        }
        proof {
            lemma_next_port_step(c0, (PORT_END - PORT_START) as int);
            lemma_no_free_port(self@, c0);
        }
        Err(NetError::AddrInUse)
    }
}

/// What accepting on `port` does to a table `t`, given for each queued
/// socket whether it is connected: `InvalidInput` when nothing listens there,
/// `WouldBlock` when no queued socket is connected, and otherwise the oldest
/// connected socket leaves the queue, the oldest socket of the queue taking
/// its place.
pub open spec fn accept_outcome(
    t: Seq<Option<ListenView>>,
    port: int,
    connected: Seq<bool>,
    r: Result<usize, NetError>,
    t2: Seq<Option<ListenView>>,
) -> bool {
    &&& t[port] is None ==> r == Err::<usize, NetError>(NetError::InvalidInput) && t2 == t
    &&& t[port] is Some && !connected.contains(true) ==> r == Err::<usize, NetError>(NetError::WouldBlock)
        && t2 == t
    &&& t[port] is Some && connected.contains(true) ==> {
        let e = t[port]->0;
        let idx = choose|i: int| 0 <= i < connected.len() && connected[i]
            && forall|j: int| 0 <= j < i ==> !connected[j];
        &&& r == Ok::<usize, NetError>(e.syn_queue[idx])
        &&& t2 == t.update(port, Some(ListenView {
            addr: e.addr,
            syn_queue: e.syn_queue.update(idx, e.syn_queue[0]).drop_first(),
        }))
    }
}

/// The port `k` steps after `c` in the ephemeral range, wrapping from its
/// last port to its first.
pub open spec fn next_port(c: int, k: int) -> int {
    let span = PORT_END - PORT_START + 1;
    PORT_START + ((c - PORT_START + k) % span)
}

/// The number of steps from `c` to the first free port of the ephemeral
/// range, looking at each port once.
pub open spec fn first_free_port(t: Seq<Option<ListenView>>, c: int) -> Option<int> {
    if exists|k: int| 0 <= k <= PORT_END - PORT_START && (#[trigger] t[next_port(c, k)]) is None {
        Some(choose|k: int| 0 <= k <= PORT_END - PORT_START && (#[trigger] t[next_port(c, k)]) is None
            && forall|j: int| 0 <= j < k ==> (#[trigger] t[next_port(c, j)]) is Some)
    } else {
        None
    }
}

/// One step from the port `k` steps after `c` gives the port `k + 1` steps
/// after it.
pub proof fn lemma_next_port_step(c: int, k: int)
    requires
        PORT_START <= c <= PORT_END,
        0 <= k <= PORT_END - PORT_START,
    ensures
        PORT_START <= next_port(c, k) <= PORT_END,
        next_port(c, k + 1) == if next_port(c, k) == PORT_END { PORT_START as int } else { next_port(c, k) + 1 },
        next_port(c, 0) == c,
        next_port(c, PORT_END - PORT_START + 1) == c,
{
    let span = (PORT_END - PORT_START + 1) as int;
    let a = c - PORT_START + k;
    assert(span == 0x4000);
    assert(0 <= a);
    assert(0 <= a % span < span) by (nonlinear_arith)
        requires
            span > 0,
    ;
    assert((a + 1) % span == if a % span == span - 1 { 0 } else { a % span + 1 }) by (nonlinear_arith)
        requires
            span > 0,
            a >= 0,
    ;
    assert((c - PORT_START) % span == c - PORT_START) by (nonlinear_arith)
        requires
            0 <= c - PORT_START < span,
    ;
    assert((c - PORT_START + span) % span == c - PORT_START) by (nonlinear_arith)
        requires
            0 <= c - PORT_START < span,
    ;
}

/// A free port found after `k` taken ones is the first free one.
proof fn lemma_first_free_port(t: Seq<Option<ListenView>>, c: int, k: int)
    requires
        0 <= k <= PORT_END - PORT_START,
        t[next_port(c, k)] is None,
        forall|j: int| 0 <= j < k ==> (#[trigger] t[next_port(c, j)]) is Some,
    ensures
        first_free_port(t, c) == Some(k),
{
    let w = choose|i: int| 0 <= i <= PORT_END - PORT_START && (#[trigger] t[next_port(c, i)]) is None
        && forall|j: int| 0 <= j < i ==> (#[trigger] t[next_port(c, j)]) is Some;
    assert(exists|i: int| 0 <= i <= PORT_END - PORT_START && (#[trigger] t[next_port(c, i)]) is None
        && forall|j: int| 0 <= j < i ==> (#[trigger] t[next_port(c, j)]) is Some) by {
        assert(t[next_port(c, k)] is None);
    }
    if w != k {
        if w < k {
            assert(t[next_port(c, w)] is Some);
        } else {
            assert(t[next_port(c, k)] is Some);
        }
    }
}

/// Searching from step `j`, past taken ports only, towards a free one,
/// finds a first free port.
proof fn lemma_min_free_from(t: Seq<Option<ListenView>>, c: int, j: int)
    requires
        0 <= j,
        forall|i: int| 0 <= i < j ==> (#[trigger] t[next_port(c, i)]) is Some,
        exists|w: int| j <= w <= PORT_END - PORT_START && (#[trigger] t[next_port(c, w)]) is None,
    ensures
        exists|k: int| 0 <= k <= PORT_END - PORT_START && (#[trigger] t[next_port(c, k)]) is None
            && forall|i: int| 0 <= i < k ==> (#[trigger] t[next_port(c, i)]) is Some,
    decreases PORT_END - PORT_START - j,
{
    let w = choose|w: int| j <= w <= PORT_END - PORT_START && (#[trigger] t[next_port(c, w)]) is None;
    if t[next_port(c, j)] is None {
        assert(0 <= j <= PORT_END - PORT_START && t[next_port(c, j)] is None
            && forall|i: int| 0 <= i < j ==> (#[trigger] t[next_port(c, i)]) is Some);
    } else {
        assert(w != j);
        assert(t[next_port(c, w)] is None);
        lemma_min_free_from(t, c, j + 1);
    }
}

/// When some port of the range is free, the first one found is free and
/// lies in the range.
pub proof fn lemma_first_free_port_is_free(t: Seq<Option<ListenView>>, c: int)
    requires
        PORT_START <= c <= PORT_END,
        exists|k: int| 0 <= k <= PORT_END - PORT_START && (#[trigger] t[next_port(c, k)]) is None,
    ensures
        first_free_port(t, c) matches Some(k) && 0 <= k <= PORT_END - PORT_START && t[next_port(c, k)] is None
            && PORT_START <= next_port(c, k) <= PORT_END,
{
    lemma_min_free_from(t, c, 0);
    let k = choose|k: int| 0 <= k <= PORT_END - PORT_START && (#[trigger] t[next_port(c, k)]) is None
        && forall|i: int| 0 <= i < k ==> (#[trigger] t[next_port(c, i)]) is Some;
    lemma_next_port_step(c, k);
}

/// When every port of the range is taken, none is found.
proof fn lemma_no_free_port(t: Seq<Option<ListenView>>, c: int)
    requires
        forall|j: int| 0 <= j < PORT_END - PORT_START + 1 ==> (#[trigger] t[next_port(c, j)]) is Some,
    ensures
        first_free_port(t, c) is None,
{
}

} // verus!
