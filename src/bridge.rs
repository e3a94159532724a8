use vstd::prelude::*;

verus! {

/// Why a request failed.
#[derive(Clone, Debug, PartialEq, Eq)]
pub enum BridgeError {
    /// The connection could not be set up (a malformed endpoint, say).
    Setup(String),
    /// Sending the request failed once the connection was open.
    Transmit(String),
    /// The first reply was not a text frame.
    MalformedReply,
    /// The connection reported an error.
    Transport(String),
}

/// The payload of a message that arrived on the initiator's connection.
#[derive(Clone, Debug, PartialEq, Eq)]
pub enum Incoming {
    Text(String),
    /// Anything that is not text (binary data, say).
    Other,
}

/// An event on the initiator's connection, each with what it carries.
#[derive(Clone, Debug, PartialEq, Eq)]
pub enum ClientEvent {
    /// The connection is open.
    Opened,
    /// Sending the request failed, with the transport's description.
    SendFailed(String),
    /// A message arrived.
    Message(Incoming),
    /// The connection reported an error, with its description.
    Failed(String),
}

/// What the request asks of its connection after an event.
#[derive(Debug, PartialEq, Eq)]
pub enum ClientAction {
    /// Nothing to do; wait for the next event.
    Wait,
    /// Send this text frame.
    Send(String),
    /// Hand this outcome to the caller and close the connection.
    Settle(Result<String, BridgeError>),
}

/// Where a request stands.
#[derive(Clone, Copy, Debug, PartialEq, Eq)]
pub enum Phase {
    /// Waiting for the connection to open.
    Connecting,
    /// The request was handed over for sending; waiting for the reply.
    Open,
    /// The outcome was handed out; later events change nothing.
    Settled,
}

/// One in-flight request on the initiating side: the message to send and
/// how far the exchange has come.
#[derive(Debug)]
pub struct PendingRequest {
    pub message: String,
    pub phase: Phase,
}

/// A request for `message` on a connection that is not yet open.
pub open spec fn fresh(message: String) -> PendingRequest {
    PendingRequest { message, phase: Phase::Connecting }
}

/// The outcome an event settles a pending request with, if it is one that
/// settles: a send failure, a message, or a connection error.
pub open spec fn settles(e: ClientEvent) -> Option<Result<String, BridgeError>> {
    match e {
        ClientEvent::Opened => None,
        ClientEvent::SendFailed(d) => Some(Err(BridgeError::Transmit(d))),
        ClientEvent::Message(Incoming::Text(t)) => Some(Ok(t)),
        ClientEvent::Message(Incoming::Other) => Some(Err(BridgeError::MalformedReply)),
        ClientEvent::Failed(d) => Some(Err(BridgeError::Transport(d))),
    }
}

/// The request after event `e`.
pub open spec fn after(p: PendingRequest, e: ClientEvent) -> PendingRequest {
    if p.phase == Phase::Settled {
        p
    } else if settles(e) is Some {
        PendingRequest { message: p.message, phase: Phase::Settled }
    } else if p.phase == Phase::Connecting {
        PendingRequest { message: p.message, phase: Phase::Open }
    } else {
        p
    }
}

/// The action taken on event `e` by request `p`.
pub open spec fn reaction(p: PendingRequest, e: ClientEvent) -> ClientAction {
    if p.phase == Phase::Settled {
        ClientAction::Wait
    } else if settles(e) is Some {
        ClientAction::Settle(settles(e).unwrap())
    } else if p.phase == Phase::Connecting {
        ClientAction::Send(p.message)
    } else {
        ClientAction::Wait
    }
}

impl PendingRequest {
    /// A request for `message`, waiting for its connection to open.
    pub fn new(message: String) -> (r: PendingRequest)
        ensures
            r == fresh(message),
    {
        PendingRequest { message, phase: Phase::Connecting }
    }

    /// Whether the outcome has been handed out.
    pub fn is_settled(&self) -> (r: bool)
        ensures
            r == (self.phase == Phase::Settled),
    {
        match self.phase {
            Phase::Settled => true,
            _ => false,
        }
    }

    /// Handles one event on the connection: sends the message when the
    /// connection opens, settles on the first event that settles, and
    /// ignores everything once settled.
    pub fn step(&mut self, event: ClientEvent) -> (r: ClientAction)
        ensures
            *final(self) == after(*old(self), event),
            r == reaction(*old(self), event),
    {
        match self.phase {
            Phase::Settled => ClientAction::Wait,
            _ => match event {
                ClientEvent::Opened => match self.phase {
                    Phase::Connecting => {
                        self.phase = Phase::Open;
                        ClientAction::Send(self.message.clone())
                    },
                    _ => ClientAction::Wait,
                },
                ClientEvent::SendFailed(d) => {
                    self.phase = Phase::Settled;
                    ClientAction::Settle(Err(BridgeError::Transmit(d)))
                },
                ClientEvent::Message(Incoming::Text(t)) => {
                    self.phase = Phase::Settled;
                    ClientAction::Settle(Ok(t))
                },
                ClientEvent::Message(Incoming::Other) => {
                    self.phase = Phase::Settled;
                    ClientAction::Settle(Err(BridgeError::MalformedReply))
                },
                ClientEvent::Failed(d) => {
                    self.phase = Phase::Settled;
                    ClientAction::Settle(Err(BridgeError::Transport(d)))
                },
            },
        }
    }
}

/// The request after the first `n` events of `evs`, starting from `p`.
pub open spec fn request_after(p: PendingRequest, evs: Seq<ClientEvent>, n: nat) -> PendingRequest
    decreases n,
{
    if n == 0 {
        p
    } else {
        after(request_after(p, evs, (n - 1) as nat), evs[n - 1])
    }
}

/// The actions a request that started as `p` takes on `evs`, one per event.
pub open spec fn client_actions(p: PendingRequest, evs: Seq<ClientEvent>) -> Seq<ClientAction> {
    Seq::new(evs.len(), |i: int| reaction(request_after(p, evs, i as nat), evs[i]))
}

/// None of the first `n` events settles.
pub open spec fn none_settles_before(evs: Seq<ClientEvent>, n: int) -> bool {
    forall|j: int| 0 <= j < n ==> (#[trigger] settles(evs[j])) is None
}

/// None of the first `n` events is the connection opening.
pub open spec fn none_opens_before(evs: Seq<ClientEvent>, n: int) -> bool {
    forall|j: int| 0 <= j < n ==> !(#[trigger] evs[j] is Opened)
}

/// Event `i` is the first of `evs` that settles.
pub open spec fn first_settling(evs: Seq<ClientEvent>, i: int) -> bool {
    &&& 0 <= i < evs.len()
    &&& settles(evs[i]) is Some
    &&& none_settles_before(evs, i)
}

proof fn lemma_request_after(message: String, evs: Seq<ClientEvent>, n: nat)
    requires
        n <= evs.len(),
    ensures
        request_after(fresh(message), evs, n).message == message,
        (request_after(fresh(message), evs, n).phase == Phase::Settled) == !none_settles_before(
            evs,
            n as int,
        ),
        (request_after(fresh(message), evs, n).phase == Phase::Connecting) == (none_settles_before(
            evs,
            n as int,
        ) && none_opens_before(evs, n as int)),
    decreases n,
{
    if n > 0 {
        let m = (n - 1) as nat;
        lemma_request_after(message, evs, m);
        if none_settles_before(evs, n as int) {
            assert(none_settles_before(evs, m as int));
        }
        if none_opens_before(evs, n as int) {
            assert(none_opens_before(evs, m as int));
        }
        if !none_settles_before(evs, n as int) && none_settles_before(evs, m as int) {
            assert(settles(evs[m as int]) is Some);
        }
        if !none_opens_before(evs, n as int) && none_opens_before(evs, m as int) {
            assert(evs[m as int] is Opened);
        }
    }
}

proof fn lemma_first_exists(evs: Seq<ClientEvent>, n: nat)
    requires
        n <= evs.len(),
        !none_settles_before(evs, n as int),
    ensures
        exists|i: int| 0 <= i < n && first_settling(evs, i),
    decreases n,
{
    let m = (n - 1) as nat;
    if !none_settles_before(evs, m as int) {
        lemma_first_exists(evs, m);
    } else {
        assert(first_settling(evs, m as int));
    }
}

proof fn lemma_requests_along(message: String, evs: Seq<ClientEvent>)
    ensures
        forall|n: nat|
            n <= evs.len() ==> {
                let p = #[trigger] request_after(fresh(message), evs, n);
                &&& p.message == message
                &&& (p.phase == Phase::Settled) == !none_settles_before(evs, n as int)
                &&& (p.phase == Phase::Connecting) == (none_settles_before(evs, n as int)
                    && none_opens_before(evs, n as int))
            },
{
    assert forall|n: nat| n <= evs.len() implies {
        let p = #[trigger] request_after(fresh(message), evs, n);
        &&& p.message == message
        &&& (p.phase == Phase::Settled) == !none_settles_before(evs, n as int)
        &&& (p.phase == Phase::Connecting) == (none_settles_before(evs, n as int)
            && none_opens_before(evs, n as int))
    } by {
        lemma_request_after(message, evs, n);
    }
}

/// A request settles exactly once: on the first event that settles, with
/// the outcome that event carries, and on no other event; if any event
/// settles, the request does.
pub proof fn lemma_settles_exactly_once(message: String, evs: Seq<ClientEvent>)
    ensures
        client_actions(fresh(message), evs).len() == evs.len(),
        forall|i: int|
            #![trigger first_settling(evs, i)]
            first_settling(evs, i) ==> client_actions(fresh(message), evs)[i]
                == ClientAction::Settle(settles(evs[i]).unwrap()),
        forall|i: int|
            0 <= i < evs.len() && (#[trigger] client_actions(fresh(message), evs)[i]) is Settle
                ==> first_settling(evs, i),
        forall|i: int, j: int|
            0 <= i < evs.len() && 0 <= j < evs.len() && (#[trigger] client_actions(
                fresh(message),
                evs,
            )[i]) is Settle && (#[trigger] client_actions(fresh(message), evs)[j]) is Settle
                ==> i == j,
        (exists|i: int| 0 <= i < evs.len() && (#[trigger] settles(evs[i])) is Some) ==> exists|
            i: int,
        |
            0 <= i < evs.len() && (#[trigger] client_actions(fresh(message), evs)[i]) is Settle,
{
    lemma_requests_along(message, evs);
    let acts = client_actions(fresh(message), evs);
    assert forall|i: int|
        0 <= i < evs.len() && (#[trigger] acts[i]) is Settle implies first_settling(evs, i) by {
        assert(request_after(fresh(message), evs, i as nat).phase != Phase::Settled);
    }
    assert forall|i: int, j: int|
        0 <= i < evs.len() && 0 <= j < evs.len() && (#[trigger] acts[i]) is Settle && (
        #[trigger] acts[j]) is Settle implies i == j by {
        assert(first_settling(evs, i));
        assert(first_settling(evs, j));
        if i < j {
            assert(settles(evs[i]) is None);
        }
        if j < i {
            assert(settles(evs[j]) is None);
        }
    }
    if exists|i: int| 0 <= i < evs.len() && (#[trigger] settles(evs[i])) is Some {
        let k = choose|i: int| 0 <= i < evs.len() && (#[trigger] settles(evs[i])) is Some;
        assert(!none_settles_before(evs, evs.len() as int));
        lemma_first_exists(evs, evs.len());
        let f = choose|i: int| 0 <= i < evs.len() && first_settling(evs, i);
        assert(acts[f] is Settle);
    }
}

/// The message is handed over for sending only when the connection opens:
/// on the first open event, before anything has settled the request, and
/// at most once.
pub proof fn lemma_no_premature_send(message: String, evs: Seq<ClientEvent>)
    ensures
        forall|i: int|
            0 <= i < evs.len() && (#[trigger] client_actions(fresh(message), evs)[i]) is Send
                ==> {
                &&& evs[i] is Opened
                &&& client_actions(fresh(message), evs)[i] == ClientAction::Send(message)
                &&& none_opens_before(evs, i)
                &&& none_settles_before(evs, i)
            },
        forall|i: int, j: int|
            0 <= i < evs.len() && 0 <= j < evs.len() && (#[trigger] client_actions(
                fresh(message),
                evs,
            )[i]) is Send && (#[trigger] client_actions(fresh(message), evs)[j]) is Send
                ==> i == j,
{
    lemma_requests_along(message, evs);
    let acts = client_actions(fresh(message), evs);
    assert forall|i: int| 0 <= i < evs.len() && (#[trigger] acts[i]) is Send implies {
        &&& evs[i] is Opened
        &&& acts[i] == ClientAction::Send(message)
        &&& none_opens_before(evs, i)
        &&& none_settles_before(evs, i)
    } by {
        assert(request_after(fresh(message), evs, i as nat).phase == Phase::Connecting);
    }
    assert forall|i: int, j: int|
        0 <= i < evs.len() && 0 <= j < evs.len() && (#[trigger] acts[i]) is Send && (
        #[trigger] acts[j]) is Send implies i == j by {
        assert(request_after(fresh(message), evs, i as nat).phase == Phase::Connecting);
        assert(request_after(fresh(message), evs, j as nat).phase == Phase::Connecting);
        if i < j {
            assert(!(evs[i] is Opened));
        }
        if j < i {
            assert(!(evs[j] is Opened));
        }
    }
}

/// When the first event that settles is a reply that is not text, the
/// request fails with a malformed-reply error and never succeeds.
pub proof fn lemma_text_only_success(message: String, evs: Seq<ClientEvent>, i: int)
    requires
        first_settling(evs, i),
        evs[i] == ClientEvent::Message(Incoming::Other),
    ensures
        client_actions(fresh(message), evs)[i] == ClientAction::Settle(
            Err(BridgeError::MalformedReply),
        ),
        forall|j: int|
            0 <= j < evs.len() ==> !(#[trigger] client_actions(fresh(message), evs)[j] matches ClientAction::Settle(Ok(_))),
{
    lemma_settles_exactly_once(message, evs);
    let acts = client_actions(fresh(message), evs);
    assert forall|j: int| 0 <= j < evs.len() implies !(#[trigger] acts[j] matches ClientAction::Settle(Ok(_))) by {
        if acts[j] is Settle {
            assert(first_settling(evs, j));
            if j != i {
                assert(acts[i] is Settle);
            }
        }
    }
}

} // verus!
