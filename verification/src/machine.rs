//! The protocol's decision rules: the pre-session intake loop, the pairing
//! dispatcher, the session-start handshake, and the value-exchange loop.
//!
//! Each rule is a pure step function from what just happened (a received
//! message, a send outcome, an arrival) to what to do next. The surrounding
//! program owns the sockets and the queue; it performs each action and feeds
//! the outcome back in. The `*_sends` functions say which frames each action
//! makes the server send, and the lemmas state the laws of the rules: exactly
//! one `Session::Success` per peer per pairing, relayed values taken verbatim
//! from the opposite peer, and ignored frames leaving the pre-session state
//! unchanged.

use vstd::prelude::*;

use crate::frame::{Connection, Message, Session};
use crate::request;

verus! {

/// The two sides of a paired session.
#[derive(Clone, Copy, Debug, PartialEq, Eq, Structural)]
pub enum Peer {
    Left,
    Right,
}

/// The peer opposite to the given one.
pub open spec fn spec_other(p: Peer) -> Peer {
    match p {
        Peer::Left => Peer::Right,
        Peer::Right => Peer::Left,
    }
}

/// The peer opposite to the given one.
pub fn other(p: Peer) -> (r: Peer)
    ensures
        r == spec_other(p),
{
    match p {
        Peer::Left => Peer::Right,
        Peer::Right => Peer::Left,
    }
}

// ---------------------------------------------------------------------------
// The pre-session intake loop.
// ---------------------------------------------------------------------------

/// What the pre-session loop does after one receive.
#[derive(Clone, Copy, Debug, PartialEq, Eq, Structural)]
pub enum IntakeAction {
    /// Acknowledge with `Connection::End`, then shut the connection down.
    AcknowledgeEnd,
    /// Ignore the frame and stay in the pre-session loop.
    Stay,
    /// Hand the client to the dispatcher; the dispatcher owns it from here.
    Dispatch,
    /// Shut the connection down.
    Shutdown,
}

/// The pre-session reaction to one received message.
pub open spec fn spec_intake_message(m: Message) -> IntakeAction {
    match m {
        Message::Connection(Connection::End) => IntakeAction::AcknowledgeEnd,
        Message::Session(Session::End) => IntakeAction::Stay,
        Message::Session(Session::Value(_)) => IntakeAction::Stay,
        Message::Session(Session::Request) => IntakeAction::Dispatch,
        Message::Session(Session::Success) => IntakeAction::Shutdown,
    }
}

/// The pre-session reaction to one receive outcome: any receive error shuts
/// the connection down.
pub open spec fn spec_intake(r: Result<Message, request::Error>) -> IntakeAction {
    match r {
        Ok(m) => spec_intake_message(m),
        Err(_) => IntakeAction::Shutdown,
    }
}

/// One pre-session decision for a received message.
pub fn intake_message_step(m: &Message) -> (a: IntakeAction)
    ensures
        a == spec_intake_message(*m),
{
    match m {
        Message::Connection(Connection::End) => IntakeAction::AcknowledgeEnd,
        Message::Session(Session::End) => IntakeAction::Stay,
        Message::Session(Session::Value(_)) => IntakeAction::Stay,
        Message::Session(Session::Request) => IntakeAction::Dispatch,
        Message::Session(Session::Success) => IntakeAction::Shutdown,
    }
}

/// One pre-session decision for a receive outcome.
pub fn intake_step(input: &Result<Message, request::Error>) -> (a: IntakeAction)
    ensures
        a == spec_intake(*input),
{
    match input {
        Ok(m) => intake_message_step(m),
        Err(_) => IntakeAction::Shutdown,
    }
}

/// Whether the pre-session loop ignores a message.
pub open spec fn ignorable(m: Message) -> bool {
    ||| m matches Message::Session(Session::End)
    ||| m matches Message::Session(Session::Value(_))
}

/// The action the pre-session loop settles on after consuming a sequence of
/// messages in order: ignored frames are consumed, and the first meaningful
/// one decides; `Stay` means the client still waits in the pre-session loop.
pub open spec fn spec_intake_run(msgs: Seq<Message>) -> IntakeAction
    decreases msgs.len(),
{
    if msgs.len() == 0 {
        IntakeAction::Stay
    } else if spec_intake_message(msgs[0]) is Stay {
        spec_intake_run(msgs.drop_first())
    } else {
        spec_intake_message(msgs[0])
    }
}

/// Consumes messages exactly as the pre-session loop would, and returns the
/// first meaningful action, or `Stay` when every frame was ignored.
pub fn intake_run(msgs: &Vec<Message>) -> (a: IntakeAction)
    ensures
        a == spec_intake_run(msgs@),
{
    let mut i: usize = 0;
    proof {
        assert(msgs@.skip(0) =~= msgs@);
    }
    while i < msgs.len()
        invariant
            i <= msgs@.len(),
            spec_intake_run(msgs@) == spec_intake_run(msgs@.skip(i as int)),
        decreases msgs@.len() - i,
    {
        let a = intake_message_step(&msgs[i]);
        proof {
            assert(msgs@.skip(i as int)[0] == msgs@[i as int]);
            assert(msgs@.skip(i as int).drop_first() =~= msgs@.skip(i as int + 1));
        }
        match a {
            IntakeAction::Stay => {
            },
            _ => {
                return a;
            },
        }
        i += 1;
    }
    proof {
        assert(msgs@.skip(msgs@.len() as int) =~= Seq::<Message>::empty());
    }
    IntakeAction::Stay
}

/// A client in the pre-session state that consumes any number of
/// `Session::End` or `Session::Value` frames remains in the pre-session
/// state.
pub proof fn lemma_presession_idempotent(msgs: Seq<Message>)
    requires
        forall|i: int| 0 <= i < msgs.len() ==> ignorable(msgs[i]),
    ensures
        spec_intake_run(msgs) is Stay,
    decreases msgs.len(),
{
    if msgs.len() == 0 {
    } else {
        assert(ignorable(msgs[0]));
        lemma_presession_idempotent(msgs.drop_first());
    }
}

// ---------------------------------------------------------------------------
// The pairing dispatcher.
// ---------------------------------------------------------------------------

/// The dispatcher's occupancy: idle, or holding exactly one waiting client.
/// The dispatcher never retains more than one un-paired client: every event
/// that finds it holding leaves it idle again.
#[derive(Clone, Copy, Debug, PartialEq, Eq, Structural)]
pub enum DispatcherState {
    Idle,
    Holding,
}

/// What the dispatcher reacts to.
#[derive(Debug)]
pub enum DispatcherEvent {
    /// A requesting client arrived on the intake queue.
    Arrival,
    /// The concurrent receive on the held client finished with this result.
    HeldMessage(Result<Message, request::Error>),
    /// The intake queue is closed for good: no senders remain.
    Closed,
}

/// What the dispatcher does in reaction.
#[derive(Clone, Copy, Debug, PartialEq, Eq, Structural)]
pub enum DispatcherAction {
    /// Keep the arrived client and wait for a second one.
    Hold,
    /// Pair the held client (left) with the arrived one (right): send
    /// `Session::Success` to both and start their session.
    Pair,
    /// Confirm the held client's `Session::End` with a `Session::End` and
    /// return it to its pre-session loop.
    EndHeld,
    /// Shut the held client down.
    ShutdownHeld,
    /// Stop the dispatcher.
    Stop,
}

/// The dispatcher's reaction to one event: a first arrival is held, a second
/// pairs at once, a held client may bow out with `Session::End`, anything
/// else it sends is a violation that shuts it down, and a closed queue stops
/// the dispatcher.
pub open spec fn spec_dispatcher(st: DispatcherState, ev: DispatcherEvent) -> (
    DispatcherState,
    DispatcherAction,
) {
    match ev {
        DispatcherEvent::Arrival => match st {
            DispatcherState::Idle => (DispatcherState::Holding, DispatcherAction::Hold),
            DispatcherState::Holding => (DispatcherState::Idle, DispatcherAction::Pair),
        },
        DispatcherEvent::HeldMessage(r) => (
            DispatcherState::Idle,
            if r matches Ok(Message::Session(Session::End)) {
                DispatcherAction::EndHeld
            } else {
                DispatcherAction::ShutdownHeld
            },
        ),
        DispatcherEvent::Closed => (st, DispatcherAction::Stop),
    }
}

/// One dispatcher decision. A held-message event presupposes a held client.
pub fn dispatcher_step(st: DispatcherState, ev: &DispatcherEvent) -> (r: (
    DispatcherState,
    DispatcherAction,
))
    requires
        ev matches DispatcherEvent::HeldMessage(_) ==> st is Holding,
    ensures
        r == spec_dispatcher(st, *ev),
{
    match ev {
        DispatcherEvent::Arrival => match st {
            DispatcherState::Idle => (DispatcherState::Holding, DispatcherAction::Hold),
            DispatcherState::Holding => (DispatcherState::Idle, DispatcherAction::Pair),
        },
        DispatcherEvent::HeldMessage(r) => (
            DispatcherState::Idle,
            match r {
                Ok(Message::Session(Session::End)) => DispatcherAction::EndHeld,
                _ => DispatcherAction::ShutdownHeld,
            },
        ),
        DispatcherEvent::Closed => (st, DispatcherAction::Stop),
    }
}

// ---------------------------------------------------------------------------
// The frames each action sends.
// ---------------------------------------------------------------------------

/// The frames a dispatcher action sends, as (peer, message) pairs; the held
/// client is the left peer of the pair it enters.
pub open spec fn dispatcher_sends(a: DispatcherAction) -> Seq<(Peer, Message)> {
    match a {
        DispatcherAction::Hold => Seq::empty(),
        DispatcherAction::Pair => seq![
            (Peer::Left, Message::Session(Session::Success)),
            (Peer::Right, Message::Session(Session::Success)),
        ],
        DispatcherAction::EndHeld => seq![(Peer::Left, Message::Session(Session::End))],
        DispatcherAction::ShutdownHeld => Seq::empty(),
        DispatcherAction::Stop => Seq::empty(),
    }
}

/// The frames a pre-session action sends to its one client.
pub open spec fn intake_sends(a: IntakeAction) -> Seq<Message> {
    match a {
        IntakeAction::AcknowledgeEnd => seq![Message::Connection(Connection::End)],
        _ => Seq::empty(),
    }
}

/// Counts the `Session::Success` frames sent to the given peer.
pub open spec fn success_count(sends: Seq<(Peer, Message)>, p: Peer) -> nat
    decreases sends.len(),
{
    if sends.len() == 0 {
        0
    } else {
        (if sends[0].0 == p && sends[0].1 matches Message::Session(Session::Success) {
            1nat
        } else {
            0nat
        }) + success_count(sends.drop_first(), p)
    }
}

proof fn lemma_success_count_zero(s: Seq<(Peer, Message)>, p: Peer)
    requires
        forall|i: int|
            0 <= i < s.len() ==> !((#[trigger] s[i]).1 matches Message::Session(Session::Success)),
    ensures
        success_count(s, p) == 0,
    decreases s.len(),
{
    if s.len() == 0 {
    } else {
        lemma_success_count_zero(s.drop_first(), p);
    }
}

/// For every `Session::Success` sent to one peer, exactly one is sent to the
/// other in the same dispatcher step: pairing sends one to each, and no other
/// dispatcher action sends any.
pub proof fn lemma_success_balanced(st: DispatcherState, ev: DispatcherEvent)
    ensures
        success_count(dispatcher_sends(spec_dispatcher(st, ev).1), Peer::Left) == success_count(
            dispatcher_sends(spec_dispatcher(st, ev).1),
            Peer::Right,
        ),
        spec_dispatcher(st, ev).1 is Pair ==> success_count(
            dispatcher_sends(spec_dispatcher(st, ev).1),
            Peer::Left,
        ) == 1,
        !(spec_dispatcher(st, ev).1 is Pair) ==> success_count(
            dispatcher_sends(spec_dispatcher(st, ev).1),
            Peer::Left,
        ) == 0,
{
    let a = spec_dispatcher(st, ev).1;
    let sends = dispatcher_sends(a);
    if a is Pair {
        let s0 = (Peer::Left, Message::Session(Session::Success));
        let s1 = (Peer::Right, Message::Session(Session::Success));
        assert(sends == seq![s0, s1]);
        assert(sends.drop_first() =~= seq![s1]);
        assert(seq![s1].drop_first() =~= Seq::<(Peer, Message)>::empty());
        assert(success_count(Seq::<(Peer, Message)>::empty(), Peer::Left) == 0);
        assert(success_count(Seq::<(Peer, Message)>::empty(), Peer::Right) == 0);
        assert(success_count(seq![s1], Peer::Left) == 0);
        assert(success_count(seq![s1], Peer::Right) == 1);
        assert(success_count(sends, Peer::Left) == 1);
        assert(success_count(sends, Peer::Right) == 1);
    } else if a is EndHeld {
        assert(forall|i: int|
            0 <= i < sends.len() ==> !((#[trigger] sends[i]).1 matches Message::Session(Session::Success)));
        lemma_success_count_zero(sends, Peer::Left);
        lemma_success_count_zero(sends, Peer::Right);
    } else {
        assert(sends =~= Seq::<(Peer, Message)>::empty());
        lemma_success_count_zero(sends, Peer::Left);
        lemma_success_count_zero(sends, Peer::Right);
    }
}

/// The pre-session loop never sends `Session::Success`.
pub proof fn lemma_intake_no_success(a: IntakeAction)
    ensures
        forall|i: int|
            0 <= i < intake_sends(a).len() ==> !((#[trigger] intake_sends(a)[i]) matches Message::Session(Session::Success)),
{
}

// ---------------------------------------------------------------------------
// The session-start handshake.
// ---------------------------------------------------------------------------

/// What one peer does after the paired `Session::Success` sends come back.
#[derive(Clone, Copy, Debug, PartialEq, Eq, Structural)]
pub enum PeerAction {
    /// Both sends succeeded: enter the value-exchange loop.
    Exchange,
    /// This peer's send succeeded but the other's failed: offer this peer a
    /// graceful `Session::End`.
    OfferEnd,
    /// This peer's send failed: shut it down.
    Shutdown,
}

/// The joint decision after sending `Session::Success` to both peers of a new
/// pair: both enter the exchange only when both sends succeeded; a peer whose
/// send failed is shut down, and a surviving peer is offered a graceful end.
pub open spec fn spec_session_start(left_sent: bool, right_sent: bool) -> (PeerAction, PeerAction) {
    (
        if !left_sent {
            PeerAction::Shutdown
        } else if right_sent {
            PeerAction::Exchange
        } else {
            PeerAction::OfferEnd
        },
        if !right_sent {
            PeerAction::Shutdown
        } else if left_sent {
            PeerAction::Exchange
        } else {
            PeerAction::OfferEnd
        },
    )
}

/// One session-start decision from the two send outcomes.
pub fn session_start_step(left_sent: bool, right_sent: bool) -> (r: (PeerAction, PeerAction))
    ensures
        r == spec_session_start(left_sent, right_sent),
{
    (
        if !left_sent {
            PeerAction::Shutdown
        } else if right_sent {
            PeerAction::Exchange
        } else {
            PeerAction::OfferEnd
        },
        if !right_sent {
            PeerAction::Shutdown
        } else if left_sent {
            PeerAction::Exchange
        } else {
            PeerAction::OfferEnd
        },
    )
}

/// The `Session::End` frames the start handshake sends after a failure.
pub open spec fn start_sends(r: (PeerAction, PeerAction)) -> Seq<(Peer, Message)> {
    (if r.0 is OfferEnd {
        seq![(Peer::Left, Message::Session(Session::End))]
    } else {
        Seq::empty()
    }) + (if r.1 is OfferEnd {
        seq![(Peer::Right, Message::Session(Session::End))]
    } else {
        Seq::empty()
    })
}

/// The start handshake's follow-up frames never include `Session::Success`.
pub proof fn lemma_start_no_success(r: (PeerAction, PeerAction))
    ensures
        forall|p: Peer| success_count(start_sends(r), p) == 0,
{
    assert forall|p: Peer| success_count(start_sends(r), p) == 0 by {
        assert(forall|i: int|
            0 <= i < start_sends(r).len() ==> !((#[trigger] start_sends(r)[i]).1 matches Message::Session(Session::Success)));
        lemma_success_count_zero(start_sends(r), p);
    }
}

// ---------------------------------------------------------------------------
// The value-exchange loop.
// ---------------------------------------------------------------------------

/// The session loop's decision after one peer's receive completed first.
#[derive(Clone, Debug)]
pub enum ExchangeAction {
    /// Relay the received value to this peer; on success the loop continues
    /// with the same roles.
    Forward(Peer, String),
    /// A graceful end: offer `Session::End` to both peers; each that accepts
    /// it returns to its pre-session loop.
    EndBoth,
    /// Shut the first peer down and offer `Session::End` to the second.
    Fail(Peer, Peer),
}

/// The exchange reaction when `source`'s receive completes: a value is
/// relayed to the opposite peer, `Session::End` ends the session gracefully
/// for both, and anything else shuts the source down while the other peer is
/// offered a clean end.
pub open spec fn spec_exchange(source: Peer, input: Result<Message, request::Error>)
    -> ExchangeAction {
    match input {
        Ok(Message::Session(Session::Value(v))) => ExchangeAction::Forward(
            spec_other(source),
            v,
        ),
        Ok(Message::Session(Session::End)) => ExchangeAction::EndBoth,
        _ => ExchangeAction::Fail(source, spec_other(source)),
    }
}

/// One exchange decision from the receive that completed first.
pub fn exchange_step(source: Peer, input: Result<Message, request::Error>) -> (a: ExchangeAction)
    ensures
        a == spec_exchange(source, input),
{
    match input {
        Ok(Message::Session(Session::Value(v))) => ExchangeAction::Forward(other(source), v),
        Ok(Message::Session(Session::End)) => ExchangeAction::EndBoth,
        _ => ExchangeAction::Fail(source, other(source)),
    }
}

/// Every value the exchange relays was received from the opposite peer in the
/// same step, unchanged — the server never originates or rewrites a value —
/// and every received value is relayed, to the opposite peer only.
pub proof fn lemma_relay_faithful(source: Peer, input: Result<Message, request::Error>)
    ensures
        spec_exchange(source, input) matches ExchangeAction::Forward(t, v) ==> (t == spec_other(
            source,
        ) && input == Ok::<Message, request::Error>(Message::Session(Session::Value(v)))),
        input matches Ok(Message::Session(Session::Value(v))) ==> spec_exchange(source, input)
            == ExchangeAction::Forward(spec_other(source), v),
{
}

/// Structural sameness of exchange actions; relayed values are compared by
/// their character sequences.
pub open spec fn exchange_action_sim(a: ExchangeAction, b: ExchangeAction) -> bool {
    match (a, b) {
        (ExchangeAction::Forward(t1, v1), ExchangeAction::Forward(t2, v2)) => t1 == t2 && v1@
            == v2@,
        (ExchangeAction::EndBoth, ExchangeAction::EndBoth) => true,
        (ExchangeAction::Fail(s1, o1), ExchangeAction::Fail(s2, o2)) => s1 == s2 && o1 == o2,
        _ => false,
    }
}

impl PartialEq for ExchangeAction {
    fn eq(&self, other: &ExchangeAction) -> (r: bool) {
        match (self, other) {
            (ExchangeAction::Forward(t1, v1), ExchangeAction::Forward(t2, v2)) => *t1 == *t2
                && *v1 == *v2,
            (ExchangeAction::EndBoth, ExchangeAction::EndBoth) => true,
            (ExchangeAction::Fail(s1, o1), ExchangeAction::Fail(s2, o2)) => *s1 == *s2 && *o1
                == *o2,
            _ => false,
        }
    }
}

impl vstd::std_specs::cmp::PartialEqSpecImpl for ExchangeAction {
    open spec fn obeys_eq_spec() -> bool {
        true
    }

    open spec fn eq_spec(&self, other: &ExchangeAction) -> bool {
        exchange_action_sim(*self, *other)
    }
}

/// The frames an exchange action sends.
pub open spec fn exchange_sends(a: ExchangeAction) -> Seq<(Peer, Message)> {
    match a {
        ExchangeAction::Forward(t, v) => seq![(t, Message::Session(Session::Value(v)))],
        ExchangeAction::EndBoth => seq![
            (Peer::Left, Message::Session(Session::End)),
            (Peer::Right, Message::Session(Session::End)),
        ],
        ExchangeAction::Fail(_, offered) => seq![(offered, Message::Session(Session::End))],
    }
}

/// The exchange loop never sends `Session::Success`.
pub proof fn lemma_exchange_no_success(a: ExchangeAction)
    ensures
        forall|p: Peer| success_count(exchange_sends(a), p) == 0,
{
    assert forall|p: Peer| success_count(exchange_sends(a), p) == 0 by {
        assert(forall|i: int|
            0 <= i < exchange_sends(a).len() ==> !((#[trigger] exchange_sends(a)[i]).1 matches Message::Session(Session::Success)));
        lemma_success_count_zero(exchange_sends(a), p);
    }
}

// ---------------------------------------------------------------------------
// Decisions after a follow-up send.
// ---------------------------------------------------------------------------

/// A client's fate after it was offered `Session::End`: back to its
/// pre-session loop when the send succeeded, else shut down.
#[derive(Clone, Copy, Debug, PartialEq, Eq, Structural)]
pub enum ClientFate {
    Resume,
    Close,
}

/// The disposition of a client after a `Session::End` offer.
pub fn after_end_offer(sent: bool) -> (r: ClientFate)
    ensures
        r == (if sent {
            ClientFate::Resume
        } else {
            ClientFate::Close
        }),
{
    if sent {
        ClientFate::Resume
    } else {
        ClientFate::Close
    }
}

/// What the exchange loop does after relaying a value.
#[derive(Clone, Copy, Debug, PartialEq, Eq, Structural)]
pub enum ForwardOutcome {
    /// The relay succeeded: keep exchanging, with the same role assignment.
    KeepExchanging,
    /// The relay failed: shut the target down and offer `Session::End` to
    /// the source.
    FailTarget,
}

/// The loop's continuation after a relayed value's send outcome.
pub fn after_forward(sent: bool) -> (r: ForwardOutcome)
    ensures
        r == (if sent {
            ForwardOutcome::KeepExchanging
        } else {
            ForwardOutcome::FailTarget
        }),
{
    if sent {
        ForwardOutcome::KeepExchanging
    } else {
        ForwardOutcome::FailTarget
    }
}

} // verus!
