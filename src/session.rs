use vstd::prelude::*;
use crate::envelope::{Request, Response, ReturnKind};
use crate::error::BridgeError;
use crate::pump::{respond, respond_spec, HostOutcome};

verus! {

/// Where one endpoint stands in its strictly alternating send / receive cycle.
#[derive(Debug)]
pub enum EndpointState<V> {
    /// No request outstanding.
    Idle,
    /// A request waits for the host pump; `arrival` orders it among the others.
    Pending { request: Request<V>, arrival: u64 },
    /// The host pump has taken the request and runs its closure.
    InService { expects: ReturnKind },
    /// The answer waits for the owning thread.
    Answered(Response<V>),
    /// The session was torn down.
    Closed,
}

/// The channel endpoint of one worker thread within a session.
#[derive(Debug)]
pub struct Endpoint<V> {
    /// The thread that registered the endpoint and alone may use it.
    pub thread: u64,
    pub state: EndpointState<V>,
}

/// The registry of one session (one query execution): the endpoints of the
/// worker threads that take part in it. Endpoints are addressed by their
/// index, which `register` hands out. The host thread serves the session and
/// cannot register in it: a callback that called back through the same
/// session would wait on the pump that runs it.
#[derive(Debug)]
pub struct Session<V> {
    pub host: u64,
    pub open: bool,
    pub endpoints: Vec<Endpoint<V>>,
    pub next_arrival: u64,
}

/// The mathematical state of a session.
pub struct SessionModel<V> {
    pub host: u64,
    pub open: bool,
    pub endpoints: Seq<Endpoint<V>>,
    pub next_arrival: u64,
}

impl<V> View for Session<V> {
    type V = SessionModel<V>;

    open spec fn view(&self) -> SessionModel<V> {
        SessionModel {
            host: self.host,
            open: self.open,
            endpoints: self.endpoints@,
            next_arrival: self.next_arrival,
        }
    }
}

impl<V> SessionModel<V> {
    /// No two endpoints belong to one thread, and the pending requests have
    /// distinct arrivals, all below the next one to be given.
    pub open spec fn wf(self) -> bool {
        &&& forall|i: int, j: int|
            0 <= i < self.endpoints.len() && 0 <= j < self.endpoints.len() && i != j
                ==> #[trigger] self.endpoints[i].thread != #[trigger] self.endpoints[j].thread
        &&& forall|i: int| #[trigger] self.is_pending(i) ==> self.arrival(i) < self.next_arrival
        &&& forall|i: int, j: int|
            #[trigger] self.is_pending(i) && #[trigger] self.is_pending(j) && i != j
                ==> self.arrival(i) != self.arrival(j)
    }

    pub open spec fn registered(self, thread: u64) -> bool {
        exists|i: int| 0 <= i < self.endpoints.len() && #[trigger] self.endpoints[i].thread == thread
    }

    pub open spec fn index_of(self, thread: u64) -> int {
        choose|i: int| 0 <= i < self.endpoints.len() && #[trigger] self.endpoints[i].thread == thread
    }

    pub open spec fn owns(self, ep: int, thread: u64) -> bool {
        0 <= ep < self.endpoints.len() && self.endpoints[ep].thread == thread
    }

    pub open spec fn is_pending(self, ep: int) -> bool {
        0 <= ep < self.endpoints.len() && self.endpoints[ep].state is Pending
    }

    pub open spec fn arrival(self, ep: int) -> u64 {
        self.endpoints[ep].state->Pending_arrival
    }

    /// The state with endpoint `ep` moved to `st`.
    pub open spec fn with_state(self, ep: int, st: EndpointState<V>) -> SessionModel<V> {
        SessionModel {
            endpoints: self.endpoints.update(
                ep,
                Endpoint { thread: self.endpoints[ep].thread, state: st },
            ),
            ..self
        }
    }

    pub open spec fn register(self, thread: u64) -> (SessionModel<V>, Result<usize, BridgeError>) {
        if !self.open {
            (self, Err(BridgeError::ChannelClosed))
        } else if thread == self.host {
            (self, Err(BridgeError::ProtocolViolation))
        } else if self.registered(thread) {
            (self, Ok(self.index_of(thread) as usize))
        } else {
            (
                SessionModel {
                    endpoints: self.endpoints.push(Endpoint { thread, state: EndpointState::Idle }),
                    ..self
                },
                Ok(self.endpoints.len() as usize),
            )
        }
    }

    pub open spec fn send(self, ep: int, thread: u64, request: Request<V>) -> (
        SessionModel<V>,
        Result<(), BridgeError>,
    ) {
        if !self.owns(ep, thread) {
            (self, Err(BridgeError::ProtocolViolation))
        } else {
            match self.endpoints[ep].state {
                EndpointState::Closed => (self, Err(BridgeError::ChannelClosed)),
                EndpointState::Idle => if self.next_arrival == u64::MAX {
                    (self, Err(BridgeError::QueueFull))
                } else {
                    (
                        SessionModel {
                            next_arrival: (self.next_arrival + 1) as u64,
                            ..self.with_state(
                                ep,
                                EndpointState::Pending { request, arrival: self.next_arrival },
                            )
                        },
                        Ok(()),
                    )
                },
                _ => (self, Err(BridgeError::ProtocolViolation)),
            }
        }
    }

    pub open spec fn take(self, ep: int) -> (SessionModel<V>, Option<Request<V>>) {
        if self.is_pending(ep) {
            let request = self.endpoints[ep].state->Pending_request;
            (
                self.with_state(ep, EndpointState::InService { expects: request.return_kind_spec() }),
                Some(request),
            )
        } else {
            (self, None)
        }
    }

    pub open spec fn serve(self, ep: int, outcome: HostOutcome<V>) -> (
        SessionModel<V>,
        Result<(), BridgeError>,
    ) {
        if !(0 <= ep < self.endpoints.len()) {
            (self, Err(BridgeError::ProtocolViolation))
        } else {
            match self.endpoints[ep].state {
                EndpointState::Closed => (self, Err(BridgeError::ChannelClosed)),
                EndpointState::InService { expects } => (
                    self.with_state(ep, EndpointState::Answered(respond_spec(expects, outcome))),
                    Ok(()),
                ),
                _ => (self, Err(BridgeError::ProtocolViolation)),
            }
        }
    }

    pub open spec fn recv(self, ep: int, thread: u64) -> (
        SessionModel<V>,
        Result<Option<Response<V>>, BridgeError>,
    ) {
        if !self.owns(ep, thread) {
            (self, Err(BridgeError::ProtocolViolation))
        } else {
            match self.endpoints[ep].state {
                EndpointState::Closed => (self, Err(BridgeError::ChannelClosed)),
                EndpointState::Answered(r) => (self.with_state(ep, EndpointState::Idle), Ok(Some(r))),
                EndpointState::Idle => (self, Err(BridgeError::ProtocolViolation)),
                _ => (self, Ok(None)),
            }
        }
    }

    pub open spec fn close(self) -> SessionModel<V> {
        SessionModel {
            open: false,
            endpoints: Seq::new(
                self.endpoints.len(),
                |i: int| Endpoint { thread: self.endpoints[i].thread, state: EndpointState::Closed },
            ),
            ..self
        }
    }
}

proof fn lemma_leave_pending_wf<V>(s: SessionModel<V>, ep: int, st: EndpointState<V>)
    requires
        s.wf(),
        0 <= ep < s.endpoints.len(),
        !(st is Pending),
    ensures
        s.with_state(ep, st).wf(),
{
    let t = s.with_state(ep, st);
    assert forall|a: int| #[trigger] t.is_pending(a) implies s.is_pending(a) && t.arrival(a) == s.arrival(a) by {
        assert(a != ep);
    }
    assert forall|a: int, b: int|
        0 <= a < t.endpoints.len() && 0 <= b < t.endpoints.len() && a != b
        implies #[trigger] t.endpoints[a].thread != #[trigger] t.endpoints[b].thread by {
        assert(s.endpoints[a].thread == t.endpoints[a].thread);
        assert(s.endpoints[b].thread == t.endpoints[b].thread);
    }
}

proof fn lemma_send_wf<V>(s: SessionModel<V>, ep: int, request: Request<V>)
    requires
        s.wf(),
        0 <= ep < s.endpoints.len(),
        s.next_arrival < u64::MAX,
    ensures
        (SessionModel {
            next_arrival: (s.next_arrival + 1) as u64,
            ..s.with_state(ep, EndpointState::Pending { request, arrival: s.next_arrival })
        }).wf(),
{
    let t = SessionModel {
        next_arrival: (s.next_arrival + 1) as u64,
        ..s.with_state(ep, EndpointState::Pending { request, arrival: s.next_arrival })
    };
    assert forall|a: int| #[trigger] t.is_pending(a) && a != ep implies s.is_pending(a) && t.arrival(a) == s.arrival(a) by {
    }
    assert(t.arrival(ep) == s.next_arrival);
    assert forall|a: int, b: int|
        0 <= a < t.endpoints.len() && 0 <= b < t.endpoints.len() && a != b
        implies #[trigger] t.endpoints[a].thread != #[trigger] t.endpoints[b].thread by {
        assert(s.endpoints[a].thread == t.endpoints[a].thread);
        assert(s.endpoints[b].thread == t.endpoints[b].thread);
    }
    assert forall|a: int| #[trigger] t.is_pending(a) implies t.arrival(a) < t.next_arrival by {
        if a != ep {
            assert(s.is_pending(a));
        }
    }
    assert forall|a: int, b: int| #[trigger] t.is_pending(a) && #[trigger] t.is_pending(b) && a != b
        implies t.arrival(a) != t.arrival(b) by {
        if a == ep {
            assert(s.is_pending(b));
        } else if b == ep {
            assert(s.is_pending(a));
        } else {
            assert(s.is_pending(a));
            assert(s.is_pending(b));
        }
    }
}

proof fn lemma_push_wf<V>(s: SessionModel<V>, thread: u64)
    requires
        s.wf(),
        !s.registered(thread),
    ensures
        (SessionModel {
            endpoints: s.endpoints.push(Endpoint { thread, state: EndpointState::Idle }),
            ..s
        }).wf(),
{
    let t = SessionModel {
        endpoints: s.endpoints.push(Endpoint { thread, state: EndpointState::Idle }),
        ..s
    };
    let n = s.endpoints.len() as int;
    assert forall|a: int| #[trigger] t.is_pending(a) implies s.is_pending(a) && t.arrival(a) == s.arrival(a) by {
        assert(a != n);
        assert(t.endpoints[a] == s.endpoints[a]);
    }
    assert forall|a: int, b: int|
        0 <= a < t.endpoints.len() && 0 <= b < t.endpoints.len() && a != b
        implies #[trigger] t.endpoints[a].thread != #[trigger] t.endpoints[b].thread by {
        if a == n {
            assert(s.endpoints[b].thread != thread);
        } else if b == n {
            assert(s.endpoints[a].thread != thread);
        } else {
            assert(s.endpoints[a] == t.endpoints[a]);
            assert(s.endpoints[b] == t.endpoints[b]);
        }
    }
}

proof fn lemma_close_wf<V>(s: SessionModel<V>)
    requires
        s.wf(),
    ensures
        s.close().wf(),
{
    let t = s.close();
    assert forall|a: int| !#[trigger] t.is_pending(a) by {
        if 0 <= a < t.endpoints.len() {
            assert(t.endpoints[a].state is Closed);
        }
    }
    assert forall|a: int, b: int|
        0 <= a < t.endpoints.len() && 0 <= b < t.endpoints.len() && a != b
        implies #[trigger] t.endpoints[a].thread != #[trigger] t.endpoints[b].thread by {
        assert(s.endpoints[a].thread == t.endpoints[a].thread);
        assert(s.endpoints[b].thread == t.endpoints[b].thread);
    }
}

/// Moves endpoint `i` to `st` and hands back the state it left.
fn replace_state<V>(eps: &mut Vec<Endpoint<V>>, i: usize, st: EndpointState<V>) -> (prev:
    EndpointState<V>)
    requires
        i < old(eps).len(),
    ensures
        prev == old(eps)@[i as int].state,
        final(eps)@ == old(eps)@.update(
            i as int,
            Endpoint { thread: old(eps)@[i as int].thread, state: st },
        ),
{
    let e = eps.remove(i);
    eps.insert(i, Endpoint { thread: e.thread, state: st });
    assert(eps@ =~= old(eps)@.update(i as int, Endpoint { thread: e.thread, state: st }));
    e.state
}

impl<V> Session<V> {
    /// A new, open session with no endpoints, served by thread `host`.
    pub fn new(host: u64) -> (s: Session<V>)
        ensures
            s@.host == host,
            s@.open,
            s@.endpoints.len() == 0,
            s@.next_arrival == 0,
            s@.wf(),
    {
        Session { host, open: true, endpoints: Vec::new(), next_arrival: 0 }
    }

    pub fn is_open(&self) -> (r: bool)
        ensures
            r == self@.open,
    {
        self.open
    }

    /// The endpoint of `thread`: the one it registered before, or a fresh
    /// idle one. A closed session takes no registration, and the host thread
    /// none at all.
    pub fn register(&mut self, thread: u64) -> (r: Result<usize, BridgeError>)
        requires
            old(self)@.wf(),
        ensures
            (final(self)@, r) == old(self)@.register(thread),
            r matches Ok(i) ==> i < final(self)@.endpoints.len() && final(self)@.endpoints[i as int].thread
                == thread,
            final(self)@.wf(),
    {
        if !self.open {
            return Err(BridgeError::ChannelClosed);
        }
        if thread == self.host {
            return Err(BridgeError::ProtocolViolation);
        }
        let mut i: usize = 0;
        while i < self.endpoints.len()
            invariant
                self@ == old(self)@,
                self@.wf(),
                self@.open,
                thread != self@.host,
                i <= self.endpoints.len(),
                forall|j: int| 0 <= j < i ==> #[trigger] self.endpoints@[j].thread != thread,
            decreases self.endpoints.len() - i,
        {
            if self.endpoints[i].thread == thread {
                proof {
                    let k = self@.index_of(thread);
                    assert(self@.registered(thread)) by {
                        assert(self.endpoints@[i as int].thread == thread);
                    }
                    assert(self@.endpoints[k].thread == thread);
                    assert(k == i as int);
                }
                return Ok(i);
            }
            i = i + 1;
        }
        let n = self.endpoints.len();
        self.endpoints.push(Endpoint { thread, state: EndpointState::Idle });
        proof {
            assert(!old(self)@.registered(thread));
            lemma_push_wf(old(self)@, thread);
        }
        Ok(n)
    }

    /// Sends `request` from `thread` on its endpoint `ep`. The request is
    /// queued for the host pump and the call returns at once. Only the owning
    /// thread may send, and only from an idle endpoint.
    pub fn send(&mut self, ep: usize, thread: u64, request: Request<V>) -> (r: Result<(), BridgeError>)
        requires
            old(self)@.wf(),
        ensures
            (final(self)@, r) == old(self)@.send(ep as int, thread, request),
            final(self)@.wf(),
    {
        if ep >= self.endpoints.len() || self.endpoints[ep].thread != thread {
            return Err(BridgeError::ProtocolViolation);
        }
        match self.endpoints[ep].state {
            EndpointState::Closed => { return Err(BridgeError::ChannelClosed); },
            EndpointState::Idle => {},
            _ => { return Err(BridgeError::ProtocolViolation); },
        }
        if self.next_arrival == u64::MAX {
            return Err(BridgeError::QueueFull);
        }
        let arrival = self.next_arrival;
        replace_state(&mut self.endpoints, ep, EndpointState::Pending { request, arrival });
        self.next_arrival = arrival + 1;
        proof {
            lemma_send_wf(old(self)@, ep as int, request);
        }
        Ok(())
    }

    /// The endpoint whose request the host pump serves next: among the
    /// pending requests, the one that arrived first.
    pub fn next_pending(&self) -> (r: Option<usize>)
        requires
            self@.wf(),
        ensures
            r is None <==> forall|j: int| !self@.is_pending(j),
            r matches Some(i) ==> {
                &&& self@.is_pending(i as int)
                &&& forall|j: int| #[trigger] self@.is_pending(j) && j != i
                    ==> self@.arrival(i as int) < self@.arrival(j)
            },
    {
        let mut best: Option<usize> = None;
        let mut i: usize = 0;
        while i < self.endpoints.len()
            invariant
                self@.wf(),
                i <= self.endpoints.len(),
                best is None <==> forall|j: int| 0 <= j < i ==> !#[trigger] self@.is_pending(j),
                best matches Some(b) ==> {
                    &&& b < i
                    &&& self@.is_pending(b as int)
                    &&& forall|j: int| 0 <= j < i && #[trigger] self@.is_pending(j) && j != b
                        ==> self@.arrival(b as int) < self@.arrival(j)
                },
            decreases self.endpoints.len() - i,
        {
            match &self.endpoints[i].state {
                EndpointState::Pending { arrival, .. } => {
                    match best {
                        None => { best = Some(i); },
                        Some(b) => {
                            let cur = match &self.endpoints[b].state {
                                EndpointState::Pending { arrival, .. } => *arrival,
                                _ => 0,
                            };
                            if *arrival < cur {
                                best = Some(i);
                            }
                        },
                    }
                },
                _ => {},
            }
            proof {
                if let Some(b) = best {
                    assert(self@.is_pending(b as int));
                }
            }
            i = i + 1;
        }
        best
    }

    /// The host pump takes the request of endpoint `ep`, which then waits in
    /// service. Nothing happens unless a request is pending there.
    pub fn take(&mut self, ep: usize) -> (r: Option<Request<V>>)
        requires
            old(self)@.wf(),
        ensures
            (final(self)@, r) == old(self)@.take(ep as int),
            final(self)@.wf(),
    {
        if ep >= self.endpoints.len() {
            return None;
        }
        let kind = match &self.endpoints[ep].state {
            EndpointState::Pending { request, .. } => request.return_kind(),
            _ => { return None; },
        };
        let prev = replace_state(&mut self.endpoints, ep, EndpointState::InService { expects: kind });
        proof {
            lemma_leave_pending_wf(old(self)@, ep as int, EndpointState::InService { expects: kind });
        }
        match prev {
            EndpointState::Pending { request, .. } => Some(request),
            _ => None,
        }
    }

    /// The host pump answers endpoint `ep` with what its closure gave back.
    /// The answer goes to that endpoint alone; a closed endpoint drops it.
    pub fn serve(&mut self, ep: usize, outcome: HostOutcome<V>) -> (r: Result<(), BridgeError>)
        requires
            old(self)@.wf(),
        ensures
            (final(self)@, r) == old(self)@.serve(ep as int, outcome),
            final(self)@.wf(),
    {
        if ep >= self.endpoints.len() {
            return Err(BridgeError::ProtocolViolation);
        }
        let expects = match &self.endpoints[ep].state {
            EndpointState::Closed => { return Err(BridgeError::ChannelClosed); },
            EndpointState::InService { expects } => *expects,
            _ => { return Err(BridgeError::ProtocolViolation); },
        };
        let response = respond(expects, outcome);
        replace_state(&mut self.endpoints, ep, EndpointState::Answered(response));
        proof {
            lemma_leave_pending_wf(old(self)@, ep as int, EndpointState::Answered(respond_spec(expects, outcome)));
        }
        Ok(())
    }

    /// Receives on endpoint `ep` for `thread`: `Ok(Some(response))` once the
    /// pump has answered, which makes the endpoint idle again; `Ok(None)` while
    /// the request waits; `ChannelClosed` once the session is torn down.
    pub fn try_recv(&mut self, ep: usize, thread: u64) -> (r: Result<Option<Response<V>>, BridgeError>)
        requires
            old(self)@.wf(),
        ensures
            (final(self)@, r) == old(self)@.recv(ep as int, thread),
            final(self)@.wf(),
    {
        if ep >= self.endpoints.len() || self.endpoints[ep].thread != thread {
            return Err(BridgeError::ProtocolViolation);
        }
        match &self.endpoints[ep].state {
            EndpointState::Closed => { return Err(BridgeError::ChannelClosed); },
            EndpointState::Idle => { return Err(BridgeError::ProtocolViolation); },
            EndpointState::Answered(_) => {},
            _ => { return Ok(None); },
        }
        let prev = replace_state(&mut self.endpoints, ep, EndpointState::Idle);
        proof {
            lemma_leave_pending_wf(old(self)@, ep as int, EndpointState::Idle);
        }
        match prev {
            EndpointState::Answered(response) => Ok(Some(response)),
            _ => Ok(None),
        }
    }

    /// Tears the session down: every endpoint is closed, and whatever was
    /// outstanding on it is dropped.
    pub fn close(&mut self)
        requires
            old(self)@.wf(),
        ensures
            final(self)@ == old(self)@.close(),
            final(self)@.wf(),
    {
        self.open = false;
        let mut i: usize = 0;
        while i < self.endpoints.len()
            invariant
                i <= self.endpoints.len(),
                self.endpoints.len() == old(self).endpoints.len(),
                !self.open,
                self.host == old(self).host,
                self.next_arrival == old(self).next_arrival,
                forall|j: int| 0 <= j < self.endpoints.len() ==> #[trigger] self.endpoints@[j].thread
                    == old(self).endpoints@[j].thread,
                forall|j: int| 0 <= j < i ==> #[trigger] self.endpoints@[j].state is Closed,
            decreases self.endpoints.len() - i,
        {
            replace_state(&mut self.endpoints, i, EndpointState::Closed);
            i = i + 1;
        }
        proof {
            let m = old(self)@.close();
            assert forall|j: int| 0 <= j < self.endpoints.len() implies #[trigger] self.endpoints@[j] == m.endpoints[j] by {
                assert(m.endpoints[j] == Endpoint::<V> { thread: old(self).endpoints@[j].thread, state: EndpointState::Closed });
                assert(self.endpoints@[j].state is Closed);
                assert(self.endpoints@[j].state == EndpointState::<V>::Closed);
                assert(self.endpoints@[j].thread == old(self).endpoints@[j].thread);
            }
            assert(self@.endpoints =~= m.endpoints);
            lemma_close_wf(old(self)@);
        }
    }
}

/// One step that a worker thread or the host pump takes on a session; the
/// teardown of the session is not among them.
pub enum SessionEvent<V> {
    Register(u64),
    Send(usize, u64, Request<V>),
    Take(usize),
    Serve(usize, HostOutcome<V>),
    Recv(usize, u64),
}

impl<V> SessionEvent<V> {
    /// The endpoint that the step names, if any.
    pub open spec fn endpoint(self) -> Option<usize> {
        match self {
            SessionEvent::Register(_) => None,
            SessionEvent::Send(ep, _, _) => Some(ep),
            SessionEvent::Take(ep) => Some(ep),
            SessionEvent::Serve(ep, _) => Some(ep),
            SessionEvent::Recv(ep, _) => Some(ep),
        }
    }
}

/// None of `events` names endpoint `ep`.
pub open spec fn avoids<V>(events: Seq<SessionEvent<V>>, ep: usize) -> bool {
    forall|i: int| 0 <= i < events.len() ==> #[trigger] events[i].endpoint() != Some(ep)
}

impl<V> SessionModel<V> {
    pub open spec fn step(self, event: SessionEvent<V>) -> SessionModel<V> {
        match event {
            SessionEvent::Register(thread) => self.register(thread).0,
            SessionEvent::Send(ep, thread, request) => self.send(ep as int, thread, request).0,
            SessionEvent::Take(ep) => self.take(ep as int).0,
            SessionEvent::Serve(ep, outcome) => self.serve(ep as int, outcome).0,
            SessionEvent::Recv(ep, thread) => self.recv(ep as int, thread).0,
        }
    }

    pub open spec fn run(self, events: Seq<SessionEvent<V>>) -> SessionModel<V>
        decreases events.len(),
    {
        if events.len() == 0 {
            self
        } else {
            self.step(events[0]).run(events.drop_first())
        }
    }
}

/// A step that names another endpoint leaves endpoint `ep` as it was.
pub proof fn lemma_step_isolated<V>(s: SessionModel<V>, event: SessionEvent<V>, ep: usize)
    requires
        ep < s.endpoints.len(),
        event.endpoint() != Some(ep),
    ensures
        s.step(event).endpoints.len() >= s.endpoints.len(),
        s.step(event).endpoints[ep as int] == s.endpoints[ep as int],
        s.step(event).open == s.open,
{
}

/// Endpoints are isolated: whatever the other threads and the pump do on
/// their own endpoints, in whatever interleaving, endpoint `ep` is untouched.
pub proof fn lemma_run_isolated<V>(s: SessionModel<V>, events: Seq<SessionEvent<V>>, ep: usize)
    requires
        ep < s.endpoints.len(),
        avoids(events, ep),
    ensures
        s.run(events).endpoints.len() >= s.endpoints.len(),
        s.run(events).endpoints[ep as int] == s.endpoints[ep as int],
        s.run(events).open == s.open,
    decreases events.len(),
{
    if events.len() > 0 {
        assert(events[0].endpoint() != Some(ep));
        lemma_step_isolated(s, events[0], ep);
        let rest = events.drop_first();
        assert forall|i: int| 0 <= i < rest.len() implies #[trigger] rest[i].endpoint() != Some(ep) by {
            assert(rest[i] == events[i + 1]);
        }
        lemma_run_isolated(s.step(events[0]), rest, ep);
    }
}

/// One exchange, among any number of concurrent ones: a thread sends
/// `request` on its idle endpoint; the pump takes it and serves it with what
/// the closure gave back; the thread then receives exactly the response that
/// a direct call would have produced, of the shape its request expects, and
/// its endpoint is idle again. Any steps of other threads and of the pump on
/// other endpoints may come in between.
pub proof fn lemma_exchange<V>(
    s: SessionModel<V>,
    ep: usize,
    thread: u64,
    request: Request<V>,
    outcome: HostOutcome<V>,
    before_take: Seq<SessionEvent<V>>,
    before_serve: Seq<SessionEvent<V>>,
    before_recv: Seq<SessionEvent<V>>,
)
    requires
        s.owns(ep as int, thread),
        s.endpoints[ep as int].state is Idle,
        s.next_arrival < u64::MAX,
        avoids(before_take, ep),
        avoids(before_serve, ep),
        avoids(before_recv, ep),
    ensures
        ({
            let (s1, sent) = s.send(ep as int, thread, request);
            let s2 = s1.run(before_take);
            let (s3, taken) = s2.take(ep as int);
            let s4 = s3.run(before_serve);
            let (s5, served) = s4.serve(ep as int, outcome);
            let s6 = s5.run(before_recv);
            let (s7, received) = s6.recv(ep as int, thread);
            &&& sent is Ok
            &&& taken == Some(request)
            &&& served is Ok
            &&& received == Ok::<Option<Response<V>>, BridgeError>(
                Some(respond_spec(request.return_kind_spec(), outcome)),
            )
            &&& respond_spec(request.return_kind_spec(), outcome).fits(request.return_kind_spec())
            &&& s7.endpoints[ep as int].state is Idle
        }),
{
    let (s1, sent) = s.send(ep as int, thread, request);
    lemma_run_isolated(s1, before_take, ep);
    let s2 = s1.run(before_take);
    let (s3, taken) = s2.take(ep as int);
    lemma_run_isolated(s3, before_serve, ep);
    let s4 = s3.run(before_serve);
    let (s5, served) = s4.serve(ep as int, outcome);
    lemma_run_isolated(s5, before_recv, ep);
    crate::pump::lemma_response_fits(request.return_kind_spec(), outcome);
}

/// Tearing a session down releases every endpoint: a thread blocked in a
/// receive, or about to send, gets `ChannelClosed`, and the pump's answers
/// to requests it was serving are refused the same way.
pub proof fn lemma_close_releases<V>(s: SessionModel<V>, ep: usize, thread: u64, request: Request<V>, outcome: HostOutcome<V>)
    requires
        s.owns(ep as int, thread),
    ensures
        s.close().recv(ep as int, thread).1 == Err::<Option<Response<V>>, BridgeError>(BridgeError::ChannelClosed),
        s.close().send(ep as int, thread, request).1 == Err::<(), BridgeError>(BridgeError::ChannelClosed),
        s.close().serve(ep as int, outcome).1 == Err::<(), BridgeError>(BridgeError::ChannelClosed),
        s.close().register(thread).1 == Err::<usize, BridgeError>(BridgeError::ChannelClosed),
{
}

/// A closure that raises fails its own request only: the endpoint served
/// gets the failure, and every other endpoint is left as it was.
pub proof fn lemma_raise_confined<V>(s: SessionModel<V>, ep: usize, message: String, other: usize)
    requires
        0 <= ep < s.endpoints.len(),
        s.endpoints[ep as int].state is InService,
        other < s.endpoints.len(),
        other != ep,
    ensures
        s.serve(ep as int, HostOutcome::Raised(message)).0.endpoints[ep as int].state
            == EndpointState::<V>::Answered(Response::Failed(crate::error::HostError::Raised(message))),
        s.serve(ep as int, HostOutcome::Raised(message)).0.endpoints[other as int] == s.endpoints[other as int],
{
    lemma_step_isolated(s, SessionEvent::Serve(ep, HostOutcome::Raised(message)), other);
}

} // verus!
