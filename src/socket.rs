//! The local endpoint: one UDP socket shared by every connection. It routes
//! each inbound datagram to the connection of its source address and decides
//! in which order the socket and the channels are polled. The socket and the
//! channels themselves belong to the runtime around the library.
use vstd::prelude::*;
use crate::connection::{Connection, ConnectionView, Inbound, Timer, Transmission, connection_wf, cancelled, handled, sent, timed_out};
use crate::endpoint::PeerAddr;
use crate::error::Error;
use crate::message::{Message, Mtype};
use crate::wire::parse_message;

verus! {

/// Where an inbound datagram went.
#[derive(PartialEq, Eq, Structural, Clone, Copy, Debug)]
pub enum Routed {
    /// To the connection at this index, which answered this.
    Connection(usize, Inbound),
    /// Nowhere: no connection has its source address and no server accepts.
    Dropped,
    /// Nowhere: it did not decode.
    Malformed,
}

/// Connections are well formed and no two share a remote address.
pub open spec fn socket_wf(conns: Seq<ConnectionView>, params: Transmission) -> bool {
    &&& params.max_retransmit <= 31
    &&& forall|i: int| 0 <= i < conns.len() ==> connection_wf(#[trigger] conns[i])
    &&& forall|i: int, j: int|
        0 <= i < j < conns.len() ==> (#[trigger] conns[i]).remote != (#[trigger] conns[j]).remote
}

/// Whether some connection has remote address `a`.
pub open spec fn has_remote(conns: Seq<ConnectionView>, a: PeerAddr) -> bool {
    exists|i: int| 0 <= i < conns.len() && conns[i].remote == a
}

/// How the connections `old` turn into `new`, answering `r`, when a message
/// with id `mid` and type `mtype` arrives from `src`: the one connection whose
/// remote address is `src` handles it and no other connection changes; with
/// none, a fresh connection handles it when `accepts`, else it is dropped.
pub open spec fn routed(
    old: Seq<ConnectionView>,
    params: Transmission,
    accepts: bool,
    mid: u16,
    mtype: Mtype,
    token: Seq<u8>,
    src: PeerAddr,
    new: Seq<ConnectionView>,
    r: Routed,
) -> bool {
    if has_remote(old, src) {
        let i = choose|i: int| 0 <= i < old.len() && old[i].remote == src;
        &&& r is Connection
        &&& r->Connection_0 == i
        &&& new.len() == old.len()
        &&& forall|j: int| 0 <= j < old.len() && j != i ==> new[j] == old[j]
        &&& handled(old[i], mid, mtype, token, new[i], r->Connection_1)
    } else if accepts {
        let i = old.len() as int;
        let fresh = ConnectionView { remote: src, next_mid: 1, params, pending: seq![] };
        &&& r is Connection
        &&& r->Connection_0 == i
        &&& new.len() == i + 1
        &&& new.take(i) == old
        &&& handled(fresh, mid, mtype, token, new[i], r->Connection_1)
    } else {
        r == Routed::Dropped && new == old
    }
}

/// Owns the connection table of one local endpoint.
pub struct CoapSocket {
    connections: Vec<Connection>,
    params: Transmission,
    accepts: bool,
}

impl CoapSocket {
    /// The connections, in order of creation.
    pub closed spec fn conns(&self) -> Seq<ConnectionView> {
        self.connections@.map_values(|c: Connection| c@)
    }

    /// The retransmission parameters of new connections.
    pub closed spec fn params(&self) -> Transmission {
        self.params
    }

    /// Whether requests from unknown peers are accepted (a server is listening).
    pub closed spec fn accepts(&self) -> bool {
        self.accepts
    }

    pub open spec fn wf(&self) -> bool {
        socket_wf(self.conns(), self.params())
    }

    /// An endpoint with no connection.
    pub fn new(params: Transmission, accepts: bool) -> (r: CoapSocket)
        requires
            params.max_retransmit <= 31,
        ensures
            r.wf(),
            r.conns().len() == 0,
            r.params() == params,
            r.accepts() == accepts,
    {
        let r = CoapSocket { connections: Vec::new(), params, accepts };
        assert(r.conns() =~= Seq::<ConnectionView>::empty());
        r
    }

    pub fn len(&self) -> (r: usize)
        ensures
            r == self.conns().len(),
    {
        self.connections.len()
    }

    /// The connection at index `i`.
    pub fn connection(&self, i: usize) -> (r: &Connection)
        requires
            i < self.conns().len(),
        ensures
            r@ == self.conns()[i as int],
    {
        &self.connections[i]
    }

    /// The index of the connection to `addr`, if there is one.
    pub fn find_connection(&self, addr: PeerAddr) -> (r: Option<usize>)
        ensures
            r is Some ==> r->Some_0 < self.conns().len() && self.conns()[r->Some_0 as int].remote
                == addr,
            r is None ==> !has_remote(self.conns(), addr),
    {
        let mut i: usize = 0;
        while i < self.connections.len()
            invariant
                i <= self.connections@.len(),
                forall|j: int| 0 <= j < i ==> self.conns()[j].remote != addr,
            decreases self.connections@.len() - i,
        {
            if self.connections[i].remote_addr() == addr {
                return Some(i);
            }
            i = i + 1;
        }
        None
    }

    /// The index of the connection to `addr`, made first if there is none.
    pub fn get_or_new_connection(&mut self, addr: PeerAddr) -> (r: usize)
        requires
            old(self).wf(),
        ensures
            final(self).wf(),
            final(self).params() == old(self).params(),
            final(self).accepts() == old(self).accepts(),
            r < final(self).conns().len(),
            final(self).conns()[r as int].remote == addr,
            has_remote(old(self).conns(), addr) ==> final(self).conns() == old(self).conns(),
            !has_remote(old(self).conns(), addr) ==> {
                &&& r == old(self).conns().len()
                &&& final(self).conns() == old(self).conns().push(
                    ConnectionView { remote: addr, next_mid: 1, params: old(self).params(), pending: seq![] },
                )
            },
    {
        match self.find_connection(addr) {
            Some(i) => i,
            None => {
                let ghost before = self.conns();
                let c = Connection::new(addr, self.params);
                self.connections.push(c);
                assert(self.conns() =~= before.push(
                    ConnectionView { remote: addr, next_mid: 1, params: self.params, pending: seq![] },
                ));
                self.connections.len() - 1
            },
        }
    }

    /// Hands a decoded message from `src` to the connection whose remote address
    /// it is, and to no other; with none, a server that accepts gets a new
    /// connection for it, and otherwise the message is dropped.
    pub fn sort_msg_to_connection(&mut self, msg: &Message, src: PeerAddr) -> (r: Routed)
        requires
            old(self).wf(),
        ensures
            final(self).wf(),
            final(self).params() == old(self).params(),
            final(self).accepts() == old(self).accepts(),
            routed(old(self).conns(), old(self).params(), old(self).accepts(), msg.mid, msg.mtype, msg.token@, src, final(self).conns(), r),
    {
        let ghost before = self.conns();
        let found = self.find_connection(src);
        if found.is_none() && !self.accepts {
            return Routed::Dropped;
        }
        let i = self.get_or_new_connection(src);
        let ghost mid_state = self.conns();
        assert(forall|j: int| 0 <= j < before.len() && before[j].remote == src ==> j == i);
        let mut c = self.connections.remove(i);
        assert(connection_wf(c@)) by {
            assert(c@ == mid_state[i as int]);
        }
        let inbound = c.handle_msg(msg);
        self.connections.insert(i, c);
        assert(self.conns() =~= mid_state.update(i as int, c@));
        assert forall|a: int, b: int| 0 <= a < b < self.conns().len() implies (#[trigger] self.conns()[a]).remote != (#[trigger] self.conns()[b]).remote by {
            assert(mid_state[a].remote != mid_state[b].remote);
        }
        assert(mid_state.take(before.len() as int) =~= before) by {
            if found.is_none() {
                assert(mid_state.take(before.len() as int) =~= before);
            }
        }
        proof {
            if found.is_none() {
                assert(self.conns().take(before.len() as int) =~= mid_state.take(before.len() as int));
            }
        }
        Routed::Connection(i, inbound)
    }

    /// Decodes a datagram from `src` and routes it; one that does not decode is
    /// dropped as malformed and changes nothing.
    pub fn receive(&mut self, datagram: &[u8], src: PeerAddr) -> (r: Routed)
        requires
            old(self).wf(),
        ensures
            final(self).wf(),
            final(self).params() == old(self).params(),
            final(self).accepts() == old(self).accepts(),
            parse_message(datagram@) is None ==> r == Routed::Malformed && final(self).conns() == old(self).conns(),
            parse_message(datagram@) is Some ==> {
                let m = parse_message(datagram@)->Some_0;
                routed(old(self).conns(), old(self).params(), old(self).accepts(), m.mid, m.mtype, m.token, src, final(self).conns(), r)
            },
    {
        match Message::from_bytes(datagram) {
            Err(_) => Routed::Malformed,
            Ok(msg) => self.sort_msg_to_connection(&msg, src),
        }
    }

    /// Sends `msg` on the connection to `remote`, made first if need be. The
    /// index of that connection comes back with what sending gave: the id and
    /// bytes of the recorded request, or why nothing was recorded.
    pub fn submit(&mut self, remote: PeerAddr, msg: Message) -> (r: (usize, Result<(u16, Vec<u8>), Error>))
        requires
            old(self).wf(),
        ensures
            final(self).wf(),
            final(self).params() == old(self).params(),
            final(self).accepts() == old(self).accepts(),
            r.0 < final(self).conns().len(),
            final(self).conns()[r.0 as int].remote == remote,
            has_remote(old(self).conns(), remote) ==> {
                &&& final(self).conns().len() == old(self).conns().len()
                &&& forall|j: int| 0 <= j < old(self).conns().len() && j != r.0 ==> final(self).conns()[j] == old(self).conns()[j]
                &&& sent(old(self).conns()[r.0 as int], msg@, final(self).conns()[r.0 as int], r.1)
            },
            !has_remote(old(self).conns(), remote) ==> {
                let fresh = ConnectionView { remote, next_mid: 1, params: old(self).params(), pending: seq![] };
                &&& r.0 == old(self).conns().len()
                &&& final(self).conns().len() == old(self).conns().len() + 1
                &&& final(self).conns().take(r.0 as int) == old(self).conns()
                &&& sent(fresh, msg@, final(self).conns()[r.0 as int], r.1)
            },
    {
        let ghost before = self.conns();
        let i = self.get_or_new_connection(remote);
        let ghost mid_state = self.conns();
        let mut c = self.connections.remove(i);
        assert(c@ == mid_state[i as int]);
        let res = c.send(msg);
        self.connections.insert(i, c);
        assert(self.conns() =~= mid_state.update(i as int, c@));
        assert forall|a: int, b: int| 0 <= a < b < self.conns().len() implies (#[trigger] self.conns()[a]).remote != (#[trigger] self.conns()[b]).remote by {
            assert(mid_state[a].remote != mid_state[b].remote);
        }
        proof {
            if !has_remote(before, remote) {
                assert(self.conns().take(i as int) =~= mid_state.take(i as int));
                assert(mid_state.take(i as int) =~= before);
            }
        }
        (i, res)
    }
}

impl CoapSocket {
    /// Runs the timer of request `mid` on the connection at index `i`.
    pub fn on_timeout(&mut self, i: usize, mid: u16) -> (r: Timer)
        requires
            old(self).wf(),
            i < old(self).conns().len(),
        ensures
            final(self).wf(),
            final(self).conns().len() == old(self).conns().len(),
            forall|j: int| 0 <= j < old(self).conns().len() && j != i ==> final(self).conns()[j] == old(self).conns()[j],
            timed_out(old(self).conns()[i as int], mid, final(self).conns()[i as int], r),
    {
        let ghost before = self.conns();
        let mut c = self.connections.remove(i);
        assert(c@ == before[i as int]);
        let t = c.on_timeout(mid);
        self.connections.insert(i, c);
        assert(self.conns() =~= before.update(i as int, c@));
        assert forall|a: int, b: int| 0 <= a < b < self.conns().len() implies (#[trigger] self.conns()[a]).remote != (#[trigger] self.conns()[b]).remote by {
            assert(before[a].remote != before[b].remote);
        }
        t
    }

    /// Forgets request `mid` of the connection at index `i`, whose caller went away.
    pub fn cancel(&mut self, i: usize, mid: u16) -> (r: bool)
        requires
            old(self).wf(),
            i < old(self).conns().len(),
        ensures
            final(self).wf(),
            final(self).conns().len() == old(self).conns().len(),
            forall|j: int| 0 <= j < old(self).conns().len() && j != i ==> final(self).conns()[j] == old(self).conns()[j],
            cancelled(old(self).conns()[i as int], mid, final(self).conns()[i as int], r),
    {
        let ghost before = self.conns();
        let mut c = self.connections.remove(i);
        assert(c@ == before[i as int]);
        let r = c.cancel(mid);
        self.connections.insert(i, c);
        assert(self.conns() =~= before.update(i as int, c@));
        assert forall|a: int, b: int| 0 <= a < b < self.conns().len() implies (#[trigger] self.conns()[a]).remote != (#[trigger] self.conns()[b]).remote by {
            assert(before[a].remote != before[b].remote);
        }
        r
    }
}

/// A message whose source is the remote address of an existing connection is
/// observed by that connection, once, and by no other: it is routed to it,
/// it changes it as `handled` says, and every other connection stays as it was.
pub proof fn lemma_routed_to_owner(
    old: Seq<ConnectionView>,
    params: Transmission,
    accepts: bool,
    mid: u16,
    mtype: Mtype,
    token: Seq<u8>,
    src: PeerAddr,
    new: Seq<ConnectionView>,
    r: Routed,
    k: int,
)
    requires
        socket_wf(old, params),
        routed(old, params, accepts, mid, mtype, token, src, new, r),
        0 <= k < old.len(),
        old[k].remote == src,
    ensures
        r is Connection,
        r->Connection_0 == k,
        handled(old[k], mid, mtype, token, new[k], r->Connection_1),
        new.len() == old.len(),
        forall|j: int| 0 <= j < old.len() && j != k ==> new[j] == old[j],
{
    assert(has_remote(old, src));
    let i = choose|i: int| 0 <= i < old.len() && old[i].remote == src;
    if i < k {
        assert(old[i].remote != old[k].remote);
    } else if k < i {
        assert(old[k].remote != old[i].remote);
    }
}

/// Where the endpoint's poll loop stands.
#[derive(PartialEq, Eq, Structural, Clone, Copy, Debug)]
pub enum State {
    Idle,
    PollSocket,
    PollMessageChannel,
    PollConnectionChannel,
    SendSocket,
    Flush,
}

/// One step of the poll loop: the next state, how many sources in a row
/// reported not ready, and whether the loop suspends now.
#[derive(PartialEq, Eq, Structural, Clone, Copy, Debug)]
pub struct Step {
    pub state: State,
    pub idle_count: u8,
    pub suspend: bool,
}

/// The poll loop in state `s` whose current poll reported `ready`, after
/// `idle` sources in a row were not ready. The three sources (socket, outbound
/// channel, connection requests) are polled in turn whatever they report, so
/// none starves; the loop suspends after all three in a row were not ready,
/// and while the socket cannot take or flush a datagram.
pub open spec fn spec_poll_step(s: State, ready: bool, idle: u8) -> Step {
    let quiet = (idle + 1) as u8;
    match s {
        State::Idle => Step { state: State::PollSocket, idle_count: idle, suspend: false },
        State::PollSocket => if ready {
            Step { state: State::PollMessageChannel, idle_count: 0, suspend: false }
        } else {
            Step { state: State::PollMessageChannel, idle_count: quiet, suspend: quiet >= 3 }
        },
        State::PollMessageChannel => if ready {
            Step { state: State::SendSocket, idle_count: 0, suspend: false }
        } else {
            Step { state: State::PollConnectionChannel, idle_count: quiet, suspend: quiet >= 3 }
        },
        State::PollConnectionChannel => if ready {
            Step { state: State::PollSocket, idle_count: 0, suspend: false }
        } else {
            Step { state: State::PollSocket, idle_count: quiet, suspend: quiet >= 3 }
        },
        State::SendSocket => if ready {
            Step { state: State::Flush, idle_count: idle, suspend: false }
        } else {
            Step { state: State::SendSocket, idle_count: idle, suspend: true }
        },
        State::Flush => if ready {
            Step { state: State::PollConnectionChannel, idle_count: idle, suspend: false }
        } else {
            Step { state: State::Flush, idle_count: idle, suspend: true }
        },
    }
}

/// Decides the next step of the endpoint's poll loop.
pub fn poll_step(state: State, ready: bool, idle_count: u8) -> (r: Step)
    requires
        idle_count < 3,
    ensures
        r == spec_poll_step(state, ready, idle_count),
{
    let quiet = idle_count + 1;
    match state {
        State::Idle => Step { state: State::PollSocket, idle_count, suspend: false },
        State::PollSocket => if ready {
            Step { state: State::PollMessageChannel, idle_count: 0, suspend: false }
        } else {
            Step { state: State::PollMessageChannel, idle_count: quiet, suspend: quiet >= 3 }
        },
        State::PollMessageChannel => if ready {
            Step { state: State::SendSocket, idle_count: 0, suspend: false }
        } else {
            Step { state: State::PollConnectionChannel, idle_count: quiet, suspend: quiet >= 3 }
        },
        State::PollConnectionChannel => if ready {
            Step { state: State::PollSocket, idle_count: 0, suspend: false }
        } else {
            Step { state: State::PollSocket, idle_count: quiet, suspend: quiet >= 3 }
        },
        State::SendSocket => if ready {
            Step { state: State::Flush, idle_count, suspend: false }
        } else {
            Step { state: State::SendSocket, idle_count, suspend: true }
        },
        State::Flush => if ready {
            Step { state: State::PollConnectionChannel, idle_count, suspend: false }
        } else {
            Step { state: State::Flush, idle_count, suspend: true }
        },
    }
}

/// Whether the poll loop, starting in `s` with `idle` quiet sources behind
/// it, suspends within `fuel` steps when every poll reports not ready.
pub open spec fn suspends_within(s: State, idle: u8, fuel: nat) -> bool
    decreases fuel,
{
    if fuel == 0 {
        false
    } else {
        let st = spec_poll_step(s, false, idle);
        st.suspend || suspends_within(st.state, st.idle_count, (fuel - 1) as nat)
    }
}

/// When nothing is ready the poll loop never spins: from any state it
/// suspends within four steps.
pub proof fn lemma_quiet_poll_suspends(s: State)
    ensures
        suspends_within(s, 0, 4),
{
    reveal_with_fuel(suspends_within, 5);
}

} // verus!
