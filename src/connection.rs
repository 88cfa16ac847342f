//! One peer's side of the exchange: message-id allocation, the table of
//! outstanding requests, correlation of inbound messages, and the decisions
//! of the retransmission schedule. The channels and timers that drive it
//! belong to the runtime around the library.
use vstd::prelude::*;
use crate::endpoint::PeerAddr;
use crate::error::Error;
use crate::message::{Error as MessageError, Message, Mtype};
use crate::options::copy_bytes;
use crate::wire::{MessageView, encodable, encode_message};

verus! {

/// The retransmission parameters: the first acknowledgement timeout, and how
/// many times a confirmable request is sent again before it times out.
#[derive(PartialEq, Eq, Structural, Clone, Copy, Debug)]
pub struct Transmission {
    pub ack_timeout_ms: u32,
    pub max_retransmit: u8,
}

impl Default for Transmission {
    /// ACK_TIMEOUT of 2 s and MAX_RETRANSMIT of 4.
    fn default() -> (r: Transmission)
        ensures
            r.ack_timeout_ms == 2000,
            r.max_retransmit == 4,
    {
        Transmission { ack_timeout_ms: 2000, max_retransmit: 4 }
    }
}

/// An outstanding request as the connection sees it.
pub struct PendingView {
    pub mid: u16,
    pub retries: u8,
    pub awaiting_ack: bool,
    pub bytes: Seq<u8>,
    pub token: Seq<u8>,
}

/// A connection in mathematical form.
pub struct ConnectionView {
    pub remote: PeerAddr,
    pub next_mid: u16,
    pub params: Transmission,
    pub pending: Seq<PendingView>,
}

/// What became of an inbound message.
#[derive(PartialEq, Eq, Structural, Clone, Copy, Debug)]
pub enum Inbound {
    /// It answers the outstanding request with this id: hand it to that
    /// request's response channel.
    Deliver(u16),
    /// The peer reset the outstanding request with this id: it is removed and
    /// fails with a protocol error.
    Reset(u16),
    /// An acknowledgement or reset that matches nothing: drop it.
    Dropped,
    /// A request from the peer: surface it to a server, if there is one.
    Request,
}

/// What to do when the timer of an outstanding request fires.
#[derive(PartialEq, Eq, Debug)]
pub enum Timer {
    /// Nothing: the request is gone, or no longer waits for an acknowledgement.
    Idle,
    /// Send these bytes again and wait this many milliseconds.
    Resend(Vec<u8>, u64),
    /// The budget is spent: the request is removed and fails with a timeout.
    Expired,
}

/// The id that follows `n`; zero is skipped, as it asks for an id to be assigned.
pub open spec fn next_id(n: u16) -> u16 {
    if n == 65535 {
        1
    } else {
        (n + 1) as u16
    }
}

pub open spec fn pow2(k: nat) -> nat
    decreases k,
{
    if k == 0 {
        1
    } else {
        (2 * pow2((k - 1) as nat)) as nat
    }
}

/// The position of the outstanding request with id `mid`, if there is one.
pub open spec fn has_mid(p: Seq<PendingView>, mid: u16) -> bool {
    exists|i: int| 0 <= i < p.len() && p[i].mid == mid
}

/// The retransmission timeout after `retries` sends again: ACK_TIMEOUT doubled each time.
pub open spec fn backoff(params: Transmission, retries: nat) -> nat {
    (params.ack_timeout_ms * pow2(retries)) as nat
}

struct Request {
    mid: u16,
    msg: Message,
    bytes: Vec<u8>,
    retry_count: u8,
    awaiting_ack: bool,
}

/// The requests to one peer that await an answer, keyed by message id.
pub struct Connection {
    remote: PeerAddr,
    next_mid: u16,
    params: Transmission,
    requests: Vec<Request>,
}

spec fn pending_of(r: Request) -> PendingView {
    PendingView {
        mid: r.mid,
        retries: r.retry_count,
        awaiting_ack: r.awaiting_ack,
        bytes: r.bytes@,
        token: r.msg.token@,
    }
}

impl View for Connection {
    type V = ConnectionView;

    closed spec fn view(&self) -> ConnectionView {
        ConnectionView {
            remote: self.remote,
            next_mid: self.next_mid,
            params: self.params,
            pending: self.requests@.map_values(|r: Request| pending_of(r)),
        }
    }
}

/// Ids are unique among outstanding requests, and no request has been sent
/// again more often than allowed.
pub open spec fn connection_wf(c: ConnectionView) -> bool {
    &&& c.params.max_retransmit <= 31
    &&& c.next_mid != 0
    &&& forall|i: int, j: int|
        0 <= i < j < c.pending.len() ==> c.pending[i].mid != c.pending[j].mid
    &&& forall|i: int| 0 <= i < c.pending.len() ==> c.pending[i].retries <= c.params.max_retransmit
}

/// How a connection `c` turns into `d`, answering `r`, when the request `m`
/// is sent on it.
pub open spec fn sent(c: ConnectionView, m: MessageView, d: ConnectionView, r: Result<(u16, Vec<u8>), Error>) -> bool {
    let mid = if m.mid == 0 { c.next_mid } else { m.mid };
    let sent_msg = MessageView { mid, ..m };
    &&& r is Ok <==> encodable(sent_msg) && !has_mid(c.pending, mid)
    &&& !encodable(sent_msg) ==> r == Err::<(u16, Vec<u8>), Error>(
        Error::Message(MessageError::MessageFormat),
    )
    &&& encodable(sent_msg) && has_mid(c.pending, mid) ==> r == Err::<
        (u16, Vec<u8>),
        Error,
    >(Error::IdInUse)
    &&& r is Err ==> d == c
    &&& r is Ok ==> {
        &&& r->Ok_0.0 == mid
        &&& r->Ok_0.1@ == encode_message(sent_msg)
        &&& d == ConnectionView {
            next_mid: if m.mid == 0 {
                next_id(c.next_mid)
            } else {
                c.next_mid
            },
            pending: c.pending.push(
                PendingView {
                    mid,
                    retries: 0,
                    awaiting_ack: m.mtype == Mtype::Confirmable,
                    bytes: encode_message(sent_msg),
                    token: m.token,
                },
            ),
            ..c
        }
    }
}

/// How a connection `c` turns into `d`, answering `r`, when request `mid` is
/// cancelled.
pub open spec fn cancelled(c: ConnectionView, mid: u16, d: ConnectionView, r: bool) -> bool {
    let p = c.pending;
    &&& r == has_mid(p, mid)
    &&& r ==> d == ConnectionView {
        pending: p.remove(choose|i: int| 0 <= i < p.len() && p[i].mid == mid),
        ..c
    }
    &&& !r ==> d == c
}

/// How a connection `c` turns into `d`, answering `r`, when a message with id
/// `mid` and type `mtype` arrives from its peer.
pub open spec fn handled(
    c: ConnectionView,
    mid: u16,
    mtype: Mtype,
    token: Seq<u8>,
    d: ConnectionView,
    r: Inbound,
) -> bool {
    let p = c.pending;
    if has_mid(p, mid) {
        let i = choose|i: int| 0 <= i < p.len() && p[i].mid == mid;
        if mtype == Mtype::Reset {
            &&& r == Inbound::Reset(mid)
            &&& d == ConnectionView { pending: p.remove(i), ..c }
        } else {
            &&& r == Inbound::Deliver(mid)
            &&& d == ConnectionView {
                pending: p.update(i, PendingView { awaiting_ack: false, ..p[i] }),
                ..c
            }
        }
    } else if (mtype == Mtype::Confirmable || mtype == Mtype::NonConfirmable) && token.len() > 0
        && has_token(p, token) {
        exists|i: int|
            0 <= i < p.len() && p[i].token == token && (forall|j: int|
                0 <= j < i ==> p[j].token != token) && r == Inbound::Deliver(p[i].mid) && d
                == (ConnectionView {
                pending: p.update(i, PendingView { awaiting_ack: false, ..p[i] }),
                ..c
            })
    } else {
        &&& d == c
        &&& (mtype == Mtype::Acknowledgement || mtype == Mtype::Reset) ==> r == Inbound::Dropped
        &&& (mtype == Mtype::Confirmable || mtype == Mtype::NonConfirmable) ==> r == Inbound::Request
    }
}

/// Whether some outstanding request carries token `t`.
pub open spec fn has_token(p: Seq<PendingView>, t: Seq<u8>) -> bool {
    exists|i: int| 0 <= i < p.len() && p[i].token == t
}

/// Whether the bytes of `a` and `b` are the same.
fn same_bytes(a: &[u8], b: &[u8]) -> (r: bool)
    ensures
        r == (a@ == b@),
{
    if a.len() != b.len() {
        return false;
    }
    let mut i: usize = 0;
    while i < a.len()
        invariant
            a@.len() == b@.len(),
            i <= a@.len(),
            forall|j: int| 0 <= j < i ==> a@[j] == b@[j],
        decreases a@.len() - i,
    {
        if a[i] != b[i] {
            return false;
        }
        i = i + 1;
    }
    assert(a@ =~= b@);
    true
}

impl Connection {
    /// A connection to `remote` with no outstanding request; ids start at 1.
    pub fn new(remote: PeerAddr, params: Transmission) -> (r: Connection)
        requires
            params.max_retransmit <= 31,
        ensures
            r@ == (ConnectionView { remote, next_mid: 1, params, pending: seq![] }),
            connection_wf(r@),
    {
        let r = Connection { remote, next_mid: 1, params, requests: Vec::new() };
        assert(r@.pending =~= Seq::<PendingView>::empty());
        r
    }

    pub fn remote_addr(&self) -> (r: PeerAddr)
        ensures
            r == self@.remote,
    {
        self.remote
    }

    /// How many requests are outstanding.
    pub fn outstanding(&self) -> (r: usize)
        ensures
            r == self@.pending.len(),
    {
        self.requests.len()
    }

    /// The index of the outstanding request with id `mid`.
    fn find(&self, mid: u16) -> (r: Option<usize>)
        ensures
            r is Some ==> r->Some_0 < self@.pending.len() && self@.pending[r->Some_0 as int].mid
                == mid,
            r is None ==> !has_mid(self@.pending, mid),
    {
        let mut i: usize = 0;
        while i < self.requests.len()
            invariant
                i <= self.requests@.len(),
                forall|j: int| 0 <= j < i ==> self@.pending[j].mid != mid,
            decreases self.requests@.len() - i,
        {
            if self.requests[i].mid == mid {
                return Some(i);
            }
            i = i + 1;
        }
        None
    }

    /// Records a request and hands back its id and the bytes to send. A request
    /// with id 0 gets the next id of the connection; any other id is kept.
    /// It fails, changing nothing, when the message cannot be encoded or its id
    /// is already outstanding.
    pub fn send(&mut self, msg: Message) -> (r: Result<(u16, Vec<u8>), Error>)
        requires
            connection_wf(old(self)@),
        ensures
            connection_wf(final(self)@),
            sent(old(self)@, msg@, final(self)@, r),
    {
        let assigned = msg.mid == 0;
        let mid = if assigned { self.next_mid } else { msg.mid };
        let msg = msg.with_mid(mid);
        let bytes = match msg.to_bytes() {
            Ok(b) => b,
            Err(e) => {
                return Err(Error::Message(e));
            },
        };
        if self.find(mid).is_some() {
            return Err(Error::IdInUse);
        }
        let sent = copy_bytes(bytes.as_slice());
        let awaiting_ack = msg.mtype == Mtype::Confirmable;
        let ghost old_pending = self@.pending;
        let ghost token = msg.token@;
        self.requests.push(Request { mid, msg, bytes, retry_count: 0, awaiting_ack });
        if assigned {
            self.next_mid = if self.next_mid == 65535 { 1 } else { self.next_mid + 1 };
        }
        assert(self@.pending =~= old_pending.push(
            PendingView { mid, retries: 0, awaiting_ack, bytes: sent@, token },
        ));
        Ok((mid, sent))
    }

    /// Correlates an inbound message from this connection's peer by its id.
    pub fn handle_msg(&mut self, msg: &Message) -> (r: Inbound)
        requires
            connection_wf(old(self)@),
        ensures
            connection_wf(final(self)@),
            handled(old(self)@, msg.mid, msg.mtype, msg.token@, final(self)@, r),
    {
        let ghost p = self@.pending;
        match self.find(msg.mid) {
            Some(idx) => {
                assert(forall|i: int| 0 <= i < p.len() && p[i].mid == msg.mid ==> i == idx);
                if msg.mtype == Mtype::Reset {
                    self.requests.remove(idx);
                    assert(self@.pending =~= p.remove(idx as int));
                    Inbound::Reset(msg.mid)
                } else {
                    let mut req = self.requests.remove(idx);
                    req.awaiting_ack = false;
                    self.requests.insert(idx, req);
                    assert(self@.pending =~= p.update(
                        idx as int,
                        PendingView { awaiting_ack: false, ..p[idx as int] },
                    ));
                    Inbound::Deliver(msg.mid)
                }
            },
            None => {
                let token = msg.token.as_slice();
                let answers = msg.mtype == Mtype::Confirmable || msg.mtype == Mtype::NonConfirmable;
                if answers && token.len() > 0 {
                    if let Some(idx) = self.find_token(token) {
                        let mut req = self.requests.remove(idx);
                        req.awaiting_ack = false;
                        let m = req.mid;
                        self.requests.insert(idx, req);
                        assert(self@.pending =~= p.update(
                            idx as int,
                            PendingView { awaiting_ack: false, ..p[idx as int] },
                        ));
                        return Inbound::Deliver(m);
                    }
                }
                match msg.mtype {
                    Mtype::Acknowledgement => Inbound::Dropped,
                    Mtype::Reset => Inbound::Dropped,
                    Mtype::Confirmable => Inbound::Request,
                    Mtype::NonConfirmable => Inbound::Request,
                }
            },
        }
    }

    /// The index of the first outstanding request with token `token`.
    fn find_token(&self, token: &[u8]) -> (r: Option<usize>)
        ensures
            r is Some ==> r->Some_0 < self@.pending.len() && self@.pending[r->Some_0 as int].token
                == token@ && forall|j: int| 0 <= j < r->Some_0 ==> self@.pending[j].token != token@,
            r is None ==> !has_token(self@.pending, token@),
    {
        let mut i: usize = 0;
        while i < self.requests.len()
            invariant
                i <= self.requests@.len(),
                forall|j: int| 0 <= j < i ==> self@.pending[j].token != token@,
            decreases self.requests@.len() - i,
        {
            if same_bytes(self.requests[i].msg.token.as_slice(), token) {
                return Some(i);
            }
            i = i + 1;
        }
        None
    }

    /// The first timeout of a confirmable request, in milliseconds.
    pub fn first_timeout(&self) -> (r: u64)
        ensures
            r == backoff(self@.params, 0),
    {
        assert(pow2(0) == 1);
        self.params.ack_timeout_ms as u64
    }

    /// Decides what the firing of the timer of request `mid` leads to. While
    /// sends remain, the same bytes go out again and the next timeout doubles;
    /// after MAX_RETRANSMIT of them the request is removed and times out.
    pub fn on_timeout(&mut self, mid: u16) -> (r: Timer)
        requires
            connection_wf(old(self)@),
        ensures
            connection_wf(final(self)@),
            timed_out(old(self)@, mid, final(self)@, r),
    {
        let ghost p = self@.pending;
        match self.find(mid) {
            None => Timer::Idle,
            Some(idx) => {
                assert(forall|i: int| 0 <= i < p.len() && p[i].mid == mid ==> i == idx);
                if !self.requests[idx].awaiting_ack {
                    Timer::Idle
                } else if self.requests[idx].retry_count < self.params.max_retransmit {
                    let mut req = self.requests.remove(idx);
                    req.retry_count = req.retry_count + 1;
                    let bytes = copy_bytes(req.bytes.as_slice());
                    let delay = scaled_timeout(self.params.ack_timeout_ms, req.retry_count);
                    self.requests.insert(idx, req);
                    assert(self@.pending =~= p.update(
                        idx as int,
                        PendingView { retries: (p[idx as int].retries + 1) as u8, ..p[idx as int] },
                    ));
                    Timer::Resend(bytes, delay)
                } else {
                    self.requests.remove(idx);
                    assert(self@.pending =~= p.remove(idx as int));
                    Timer::Expired
                }
            },
        }
    }

    /// The caller dropped the response receiver of request `mid`: forget it.
    pub fn cancel(&mut self, mid: u16) -> (r: bool)
        requires
            connection_wf(old(self)@),
        ensures
            connection_wf(final(self)@),
            cancelled(old(self)@, mid, final(self)@, r),
    {
        let ghost p = self@.pending;
        match self.find(mid) {
            None => false,
            Some(idx) => {
                assert(forall|i: int| 0 <= i < p.len() && p[i].mid == mid ==> i == idx);
                self.requests.remove(idx);
                assert(self@.pending =~= p.remove(idx as int));
                true
            },
        }
    }

    /// A connection may be dropped once no handle refers to it and no request
    /// is outstanding.
    pub fn can_drop(&self, handles: usize) -> (r: bool)
        ensures
            r == (handles == 0 && self@.pending.len() == 0),
    {
        handles == 0 && self.requests.len() == 0
    }
}

/// Where a connection's poll loop stands.
#[derive(PartialEq, Eq, Structural, Clone, Copy, Debug)]
pub enum State {
    Idle,
    PollRequestReceiver,
    SendRequest,
    Flush,
    PollResponseReceiver,
}

/// One step of a connection's poll loop: the next state, how many sources in a
/// row reported not ready, and whether the loop suspends now.
#[derive(PartialEq, Eq, Structural, Clone, Copy, Debug)]
pub struct Step {
    pub state: State,
    pub idle_count: u8,
    pub suspend: bool,
}

/// The loop runs Idle, requests, send, flush, inbound, Idle. A request that
/// is ready is recorded and sent; the inbound channel is polled after every
/// send, so neither source starves. The loop suspends once both sources in a
/// row were not ready, and while the socket channel cannot take or flush.
pub open spec fn spec_poll_step(s: State, ready: bool, idle: u8) -> Step {
    let quiet = (idle + 1) as u8;
    match s {
        State::Idle => Step { state: State::PollRequestReceiver, idle_count: idle, suspend: false },
        State::PollRequestReceiver => if ready {
            Step { state: State::SendRequest, idle_count: 0, suspend: false }
        } else {
            Step { state: State::PollResponseReceiver, idle_count: quiet, suspend: quiet >= 2 }
        },
        State::SendRequest => if ready {
            Step { state: State::Flush, idle_count: idle, suspend: false }
        } else {
            Step { state: State::SendRequest, idle_count: idle, suspend: true }
        },
        State::Flush => if ready {
            Step { state: State::PollResponseReceiver, idle_count: idle, suspend: false }
        } else {
            Step { state: State::Flush, idle_count: idle, suspend: true }
        },
        State::PollResponseReceiver => if ready {
            Step { state: State::Idle, idle_count: 0, suspend: false }
        } else {
            Step { state: State::Idle, idle_count: quiet, suspend: quiet >= 2 }
        },
    }
}

/// Decides the next step of a connection's poll loop.
pub fn poll_step(state: State, ready: bool, idle_count: u8) -> (r: Step)
    requires
        idle_count < 2,
    ensures
        r == spec_poll_step(state, ready, idle_count),
{
    let quiet = idle_count + 1;
    match state {
        State::Idle => Step { state: State::PollRequestReceiver, idle_count, suspend: false },
        State::PollRequestReceiver => if ready {
            Step { state: State::SendRequest, idle_count: 0, suspend: false }
        } else {
            Step { state: State::PollResponseReceiver, idle_count: quiet, suspend: quiet >= 2 }
        },
        State::SendRequest => if ready {
            Step { state: State::Flush, idle_count, suspend: false }
        } else {
            Step { state: State::SendRequest, idle_count, suspend: true }
        },
        State::Flush => if ready {
            Step { state: State::PollResponseReceiver, idle_count, suspend: false }
        } else {
            Step { state: State::Flush, idle_count, suspend: true }
        },
        State::PollResponseReceiver => if ready {
            Step { state: State::Idle, idle_count: 0, suspend: false }
        } else {
            Step { state: State::Idle, idle_count: quiet, suspend: quiet >= 2 }
        },
    }
}

/// Whether the loop, from `s` with `idle` quiet sources behind it, suspends
/// within `fuel` steps when every poll reports not ready.
pub open spec fn suspends_within(s: State, idle: u8, fuel: nat) -> bool
    decreases fuel,
{
    if fuel == 0 {
        false
    } else {
        let st = spec_poll_step(s, false, idle);
        st.suspend || suspends_within(st.state, st.idle_count, (fuel - 1) as nat)
    }
}

/// When nothing is ready a connection's loop suspends within four steps.
pub proof fn lemma_quiet_poll_suspends(s: State)
    ensures
        suspends_within(s, 0, 4),
{
    reveal_with_fuel(suspends_within, 5);
}

/// How a connection `c` turns into `d`, answering `r`, when the timer of
/// request `mid` fires.
pub open spec fn timed_out(c: ConnectionView, mid: u16, d: ConnectionView, r: Timer) -> bool {
    let p = c.pending;
    let i = choose|i: int| 0 <= i < p.len() && p[i].mid == mid;
    if !has_mid(p, mid) || !p[i].awaiting_ack {
        r == Timer::Idle && d == c
    } else if p[i].retries < c.params.max_retransmit {
        &&& r is Resend
        &&& r->Resend_0@ == p[i].bytes
        &&& r->Resend_1 == backoff(c.params, (p[i].retries + 1) as nat)
        &&& d == ConnectionView {
            pending: p.update(i, PendingView { retries: (p[i].retries + 1) as u8, ..p[i] }),
            ..c
        }
    } else {
        r == Timer::Expired && d == ConnectionView { pending: p.remove(i), ..c }
    }
}

/// An unanswered confirmable request: while resends remain, its timer sends
/// the same bytes again, doubles the wait, and keeps it outstanding with one
/// more resend counted; once MAX_RETRANSMIT resends were made, its timer
/// expires it and its id is no longer outstanding. So it is sent 1 +
/// MAX_RETRANSMIT times in all before it times out.
pub proof fn lemma_unanswered_request(c: ConnectionView, mid: u16, d: ConnectionView, r: Timer, i: int)
    requires
        connection_wf(c),
        timed_out(c, mid, d, r),
        0 <= i < c.pending.len(),
        c.pending[i].mid == mid,
        c.pending[i].awaiting_ack,
    ensures
        c.pending[i].retries < c.params.max_retransmit ==> {
            &&& r is Resend
            &&& r->Resend_0@ == c.pending[i].bytes
            &&& r->Resend_1 == backoff(c.params, (c.pending[i].retries + 1) as nat)
            &&& d.pending[i].mid == mid
            &&& d.pending[i].awaiting_ack
            &&& d.pending[i].bytes == c.pending[i].bytes
            &&& d.pending[i].retries == c.pending[i].retries + 1
        },
        c.pending[i].retries >= c.params.max_retransmit ==> r == Timer::Expired && !has_mid(
            d.pending,
            mid,
        ),
{
    let p = c.pending;
    assert(has_mid(p, mid));
    let k = choose|k: int| 0 <= k < p.len() && p[k].mid == mid;
    assert(k == i) by {
        if k < i {
            assert(p[k].mid != p[i].mid);
        } else if i < k {
            assert(p[i].mid != p[k].mid);
        }
    }
    if p[i].retries >= c.params.max_retransmit {
        assert forall|j: int| 0 <= j < d.pending.len() implies d.pending[j].mid != mid by {
            if j < i {
                assert(d.pending[j] == p[j]);
                assert(p[j].mid != p[i].mid);
            } else {
                assert(d.pending[j] == p[j + 1]);
                assert(p[i].mid != p[j + 1].mid);
            }
        }
    }
}

/// `ack_timeout_ms` doubled `retries` times.
fn scaled_timeout(ack_timeout_ms: u32, retries: u8) -> (r: u64)
    requires
        retries <= 31,
    ensures
        r == ack_timeout_ms * pow2(retries as nat),
{
    let mut t: u64 = ack_timeout_ms as u64;
    let mut k: u8 = 0;
    proof {
        reveal_with_fuel(pow2, 32);
        assert(pow2(31) == 0x8000_0000);
        assert(pow2(0) == 1);
        assert(t == ack_timeout_ms * pow2(0));
    }
    while k < retries
        invariant
            k <= retries <= 31,
            t == ack_timeout_ms * pow2(k as nat),
            pow2(31) == 0x8000_0000,
        decreases retries - k,
    {
        proof {
            lemma_pow2_le((k + 1) as nat, 31);
        }
        let ghost p = pow2(k as nat);
        assert(pow2((k + 1) as nat) == 2 * p);
        assert(t * 2 == ack_timeout_ms * pow2((k + 1) as nat) && t * 2 <= 0xFFFF_FFFF * 0x8000_0000)
            by (nonlinear_arith)
            requires
                t == ack_timeout_ms * p,
                pow2((k + 1) as nat) == 2 * p,
                2 * p <= 0x8000_0000,
                ack_timeout_ms <= 0xFFFF_FFFF,
        ;
        t = t * 2;
        k = k + 1;
    }
    t
}

proof fn lemma_pow2_le(k: nat, n: nat)
    requires
        k <= n,
    ensures
        1 <= pow2(k) <= pow2(n),
    decreases n,
{
    if k < n {
        lemma_pow2_le(k, (n - 1) as nat);
    } else if k > 0 {
        lemma_pow2_le((k - 1) as nat, (k - 1) as nat);
    }
}

} // verus!
