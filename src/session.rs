use crate::clock::{format_hms, hms_text, read_local_clock, ClockReading};
use vstd::prelude::*;

verus! {

/// A frame read from a responder's connection, as far as the session cares.
#[derive(Clone, Debug, PartialEq, Eq)]
pub enum Frame {
    /// A text frame with its payload.
    Text(String),
    /// A close frame from the peer.
    Close,
    /// Any other frame kind (binary, ping, pong, raw).
    Other,
}

/// What happened on a session's connection.
#[derive(Clone, Debug, PartialEq, Eq)]
pub enum SessionEvent {
    /// A frame was read.
    Received(Frame),
    /// Reading the next frame failed.
    ReadFailed,
    /// Sending the reply the session asked for failed.
    SendFailed,
}

/// Why a session ended.
#[derive(Clone, Copy, Debug, PartialEq, Eq)]
pub enum EndReason {
    /// The peer sent a close frame: a graceful end.
    PeerClosed,
    /// Reading from the connection failed.
    ReadFailed,
    /// Sending a reply failed.
    SendFailed,
}

/// What the session asks of its connection after an event.
#[derive(Clone, Debug, PartialEq, Eq)]
pub enum SessionAction {
    /// Send this text frame, then read on.
    Reply(String),
    /// Nothing to send; read on.
    Skip,
    /// Stop reading and release the connection.
    End(EndReason),
}

/// The mathematical value of a [`SessionAction`].
pub enum ActionModel {
    Reply(Seq<char>),
    Skip,
    End(EndReason),
}

impl View for SessionAction {
    type V = ActionModel;

    open spec fn view(&self) -> ActionModel {
        match self {
            SessionAction::Reply(s) => ActionModel::Reply(s@),
            SessionAction::Skip => ActionModel::Skip,
            SessionAction::End(r) => ActionModel::End(*r),
        }
    }
}

/// The state of one accepted connection.
#[derive(Clone, Copy, Debug, PartialEq, Eq)]
pub enum SessionState {
    Active,
    Closed,
}

/// One responder session: it answers every text frame until the connection
/// closes or fails.
#[derive(Debug)]
pub struct Session {
    pub state: SessionState,
}

/// The reply a responder sends to a text frame received at time `t`.
pub open spec fn reply_text(t: ClockReading) -> Seq<char> {
    "Hello from Rust at "@ + hms_text(t)
}

/// Whether an event ends an active session.
pub open spec fn ends_session(e: SessionEvent) -> bool {
    match e {
        SessionEvent::Received(Frame::Close) => true,
        SessionEvent::Received(_) => false,
        _ => true,
    }
}

/// Whether an end reason is an error, as opposed to a graceful close.
pub open spec fn is_error_end(r: EndReason) -> bool {
    r != EndReason::PeerClosed
}

/// The state after `e` in state `s`.
pub open spec fn next_state(s: SessionState, e: SessionEvent) -> SessionState {
    if s == SessionState::Active && !ends_session(e) {
        SessionState::Active
    } else {
        SessionState::Closed
    }
}

/// The action taken on `e` in state `s`, when a reply would be stamped `t`.
pub open spec fn action_of(s: SessionState, e: SessionEvent, t: ClockReading) -> ActionModel {
    match s {
        SessionState::Closed => ActionModel::Skip,
        SessionState::Active => match e {
            SessionEvent::Received(Frame::Text(_)) => ActionModel::Reply(reply_text(t)),
            SessionEvent::Received(Frame::Close) => ActionModel::End(EndReason::PeerClosed),
            SessionEvent::Received(Frame::Other) => ActionModel::Skip,
            SessionEvent::ReadFailed => ActionModel::End(EndReason::ReadFailed),
            SessionEvent::SendFailed => ActionModel::End(EndReason::SendFailed),
        },
    }
}

/// Builds the reply for a text frame received at time `t`.
pub fn make_reply(t: &ClockReading) -> (r: String)
    requires
        t.wf(),
    ensures
        r@ == reply_text(*t),
{
    let stamp = format_hms(t);
    proof {
        reveal_strlit("Hello from Rust at ");
    }
    let out = String::from_str("Hello from Rust at ");
    out.concat(stamp.as_str())
}

impl Session {
    /// A freshly accepted session, ready to read.
    pub fn new() -> (r: Session)
        ensures
            r.state == SessionState::Active,
    {
        Session { state: SessionState::Active }
    }

    /// Whether the session still reads frames.
    pub fn is_active(&self) -> (r: bool)
        ensures
            r == (self.state == SessionState::Active),
    {
        match self.state {
            SessionState::Active => true,
            SessionState::Closed => false,
        }
    }

    /// Handles one event, stamping a reply, if one is due, with `now`.
    pub fn step_at(&mut self, event: SessionEvent, now: &ClockReading) -> (r: SessionAction)
        requires
            now.wf(),
        ensures
            final(self).state == next_state(old(self).state, event),
            r@ == action_of(old(self).state, event, *now),
    {
        match self.state {
            SessionState::Closed => SessionAction::Skip,
            SessionState::Active => match event {
                SessionEvent::Received(Frame::Text(_)) => SessionAction::Reply(make_reply(now)),
                SessionEvent::Received(Frame::Close) => {
                    self.state = SessionState::Closed;
                    SessionAction::End(EndReason::PeerClosed)
                },
                SessionEvent::Received(Frame::Other) => SessionAction::Skip,
                SessionEvent::ReadFailed => {
                    self.state = SessionState::Closed;
                    SessionAction::End(EndReason::ReadFailed)
                },
                SessionEvent::SendFailed => {
                    self.state = SessionState::Closed;
                    SessionAction::End(EndReason::SendFailed)
                },
            },
        }
    }

    /// Handles one event, stamping a reply, if one is due, with the local
    /// time read at that moment.
    pub fn step(&mut self, event: SessionEvent) -> (r: SessionAction)
        ensures
            final(self).state == next_state(old(self).state, event),
            exists|t: ClockReading| t.wf() && r@ == action_of(old(self).state, event, t),
    {
        let now = read_local_clock();
        self.step_at(event, &now)
    }
}

/// The state of a session that started in `s` after the first `n` events.
pub open spec fn state_after(s: SessionState, evs: Seq<SessionEvent>, n: nat) -> SessionState
    decreases n,
{
    if n == 0 {
        s
    } else {
        next_state(state_after(s, evs, (n - 1) as nat), evs[n - 1])
    }
}

/// The actions a session that started in `s` takes on `evs`, the `i`-th
/// reply, if any, stamped `ts[i]`.
pub open spec fn actions(s: SessionState, evs: Seq<SessionEvent>, ts: Seq<ClockReading>) -> Seq<
    ActionModel,
> {
    Seq::new(evs.len(), |i: int| action_of(state_after(s, evs, i as nat), evs[i], ts[i]))
}

/// No event among the first `n` ends the session.
pub open spec fn open_through(evs: Seq<SessionEvent>, n: int) -> bool {
    forall|j: int| 0 <= j < n ==> !ends_session(#[trigger] evs[j])
}

proof fn lemma_active_iff_open(evs: Seq<SessionEvent>, n: nat)
    requires
        n <= evs.len(),
    ensures
        (state_after(SessionState::Active, evs, n) == SessionState::Active) == open_through(
            evs,
            n as int,
        ),
    decreases n,
{
    if n > 0 {
        lemma_active_iff_open(evs, (n - 1) as nat);
        if !open_through(evs, n as int) && open_through(evs, n - 1) {
            assert(ends_session(evs[n - 1]));
        }
        if open_through(evs, n as int) {
            assert forall|j: int| 0 <= j < n - 1 implies !ends_session(#[trigger] evs[j]) by {
                assert(!ends_session(evs[j]));
            }
        }
    }
}

/// While a session is open, every text frame gets exactly one reply, at its
/// own position and so in the order the frames came, stamped with the time
/// of that frame; no other frame gets a reply; once an event has ended the
/// session, nothing more is sent.
pub proof fn lemma_reply_correspondence(evs: Seq<SessionEvent>, ts: Seq<ClockReading>)
    requires
        ts.len() == evs.len(),
    ensures
        actions(SessionState::Active, evs, ts).len() == evs.len(),
        forall|i: int|
            0 <= i < evs.len() && open_through(evs, i) ==> {
                let a = #[trigger] actions(SessionState::Active, evs, ts)[i];
                &&& (a is Reply <==> evs[i] matches SessionEvent::Received(Frame::Text(_)))
                &&& (a is Reply ==> a == ActionModel::Reply(reply_text(ts[i])))
            },
        forall|i: int|
            0 <= i < evs.len() && !open_through(evs, i) ==> #[trigger] actions(
                SessionState::Active,
                evs,
                ts,
            )[i] == ActionModel::Skip,
{
    assert forall|i: int| 0 <= i < evs.len() implies (state_after(
        SessionState::Active,
        evs,
        i as nat,
    ) == SessionState::Active) == open_through(evs, i) by {
        lemma_active_iff_open(evs, i as nat);
    }
}

/// A close frame from the peer ends an open session with a graceful end,
/// which is no error; no error end came before it and nothing is sent or
/// ended after it.
pub proof fn lemma_graceful_close(evs: Seq<SessionEvent>, ts: Seq<ClockReading>, i: int)
    requires
        ts.len() == evs.len(),
        0 <= i < evs.len(),
        open_through(evs, i),
        evs[i] == SessionEvent::Received(Frame::Close),
    ensures
        actions(SessionState::Active, evs, ts)[i] == ActionModel::End(EndReason::PeerClosed),
        !is_error_end(EndReason::PeerClosed),
        forall|j: int|
            0 <= j < i ==> !(#[trigger] actions(SessionState::Active, evs, ts)[j] is End),
        forall|j: int|
            i < j < evs.len() ==> #[trigger] actions(SessionState::Active, evs, ts)[j]
                == ActionModel::Skip,
{
    lemma_reply_correspondence(evs, ts);
    lemma_active_iff_open(evs, i as nat);
    assert forall|j: int| 0 <= j < i implies !(#[trigger] actions(
        SessionState::Active,
        evs,
        ts,
    )[j] is End) by {
        assert(open_through(evs, j));
        assert(!ends_session(evs[j]));
    }
    assert forall|j: int| i < j < evs.len() implies #[trigger] actions(
        SessionState::Active,
        evs,
        ts,
    )[j] == ActionModel::Skip by {
        assert(!open_through(evs, j)) by {
            assert(ends_session(evs[i]));
        }
    }
}

/// One event for one of many concurrent sessions: the session's index, the
/// event, and the time a reply to it would be stamped with.
pub type Delivery = (int, SessionEvent, ClockReading);

/// The states of many sessions after the first `n` deliveries of `sched`.
pub open spec fn states_after(init: Seq<SessionState>, sched: Seq<Delivery>, n: nat) -> Seq<
    SessionState,
>
    decreases n,
{
    if n == 0 {
        init
    } else {
        let prev = states_after(init, sched, (n - 1) as nat);
        let d = sched[n - 1];
        if 0 <= d.0 < prev.len() {
            prev.update(d.0, next_state(prev[d.0], d.1))
        } else {
            prev
        }
    }
}

/// The action taken on the `p`-th delivery of `sched`.
pub open spec fn delivery_action(init: Seq<SessionState>, sched: Seq<Delivery>, p: int) -> ActionModel {
    let d = sched[p];
    action_of(states_after(init, sched, p as nat)[d.0], d.1, d.2)
}

/// Two schedules that differ only in what happens to session `k`.
pub open spec fn differ_only_at(sched1: Seq<Delivery>, sched2: Seq<Delivery>, k: int) -> bool {
    &&& sched1.len() == sched2.len()
    &&& forall|p: int|
        0 <= p < sched1.len() ==> (#[trigger] sched1[p]).0 == sched2[p].0 && (sched1[p].0 != k
            ==> sched1[p] == sched2[p])
}

/// Sessions are isolated: whatever happens to session `k` (it fails, closes,
/// or gets other frames), every other session `j` goes through the same
/// states and takes the same action on each of its own deliveries.
pub proof fn lemma_session_isolation(
    init: Seq<SessionState>,
    sched1: Seq<Delivery>,
    sched2: Seq<Delivery>,
    k: int,
    j: int,
)
    requires
        differ_only_at(sched1, sched2, k),
        0 <= j < init.len(),
        j != k,
    ensures
        forall|n: nat|
            n <= sched1.len() ==> #[trigger] states_after(init, sched1, n)[j] == states_after(
                init,
                sched2,
                n,
            )[j],
        forall|p: int|
            0 <= p < sched1.len() && (#[trigger] sched1[p]).0 == j ==> delivery_action(
                init,
                sched1,
                p,
            ) == delivery_action(init, sched2, p),
{
    assert forall|n: nat| n <= sched1.len() implies #[trigger] states_after(init, sched1, n)[j]
        == states_after(init, sched2, n)[j] by {
        lemma_isolation_upto(init, sched1, sched2, k, j, n);
    }
    assert forall|p: int| 0 <= p < sched1.len() && (#[trigger] sched1[p]).0 == j implies delivery_action(
        init,
        sched1,
        p,
    ) == delivery_action(init, sched2, p) by {
        lemma_isolation_upto(init, sched1, sched2, k, j, p as nat);
    }
}

proof fn lemma_isolation_upto(
    init: Seq<SessionState>,
    sched1: Seq<Delivery>,
    sched2: Seq<Delivery>,
    k: int,
    j: int,
    n: nat,
)
    requires
        differ_only_at(sched1, sched2, k),
        0 <= j < init.len(),
        j != k,
        n <= sched1.len(),
    ensures
        states_after(init, sched1, n).len() == init.len(),
        states_after(init, sched2, n).len() == init.len(),
        states_after(init, sched1, n)[j] == states_after(init, sched2, n)[j],
    decreases n,
{
    if n > 0 {
        lemma_isolation_upto(init, sched1, sched2, k, j, (n - 1) as nat);
        let d1 = sched1[n - 1];
        let d2 = sched2[n - 1];
        assert(d1.0 == d2.0);
    }
}

} // verus!
