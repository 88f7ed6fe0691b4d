use rendezvous::codec::{decode_body, encode_body};
use rendezvous::frame::{Connection, Message, Session};
use rendezvous::machine::{
    after_end_offer, after_forward, dispatcher_step, exchange_step, intake_run, intake_step,
    session_start_step, ClientFate, DispatcherAction, DispatcherEvent, DispatcherState,
    ExchangeAction, ForwardOutcome, IntakeAction, Peer, PeerAction,
};
use rendezvous::request;

fn value(s: &str) -> Message {
    Message::Session(Session::Value(s.to_string()))
}

/// What the server reads when a client sends the given message.
fn deliver(m: &Message) -> Message {
    decode_body(&encode_body(m)).unwrap()
}

#[test]
fn test_connection_end() {
    // the client sends {"message":{"Connection":"End"}}
    let received = deliver(&Message::Connection(Connection::End));
    let action = intake_step(&Ok(received));
    // the server acknowledges with the same frame and closes
    assert_eq!(action, IntakeAction::AcknowledgeEnd);
    let reply = deliver(&Message::Connection(Connection::End));
    assert_eq!(reply, Message::Connection(Connection::End));
}

#[test]
fn test_session_end() {
    // X and Y each send a request and are paired
    assert_eq!(intake_step(&Ok(deliver(&Message::Session(Session::Request)))), IntakeAction::Dispatch);
    let (held, a1) = dispatcher_step(DispatcherState::Idle, &DispatcherEvent::Arrival);
    assert_eq!(a1, DispatcherAction::Hold);
    assert_eq!(intake_step(&Ok(deliver(&Message::Session(Session::Request)))), IntakeAction::Dispatch);
    let (idle, a2) = dispatcher_step(held, &DispatcherEvent::Arrival);
    assert_eq!(a2, DispatcherAction::Pair);
    assert_eq!(idle, DispatcherState::Idle);
    // both Success sends land: each peer reads Success
    assert_eq!(session_start_step(true, true), (PeerAction::Exchange, PeerAction::Exchange));
    assert_eq!(deliver(&Message::Session(Session::Success)), Message::Session(Session::Success));
    // X then sends Session::End: the session ends gracefully for both
    let ending = deliver(&Message::Session(Session::End));
    let action = exchange_step(Peer::Left, Ok(ending));
    assert!(matches!(action, ExchangeAction::EndBoth));
    // each peer accepts the End and stays connected, back in pre-session
    assert_eq!(after_end_offer(true), ClientFate::Resume);
    assert_eq!(deliver(&Message::Session(Session::End)), Message::Session(Session::End));
}

#[test]
fn test_session_success() {
    // two clients A and B each send Session::Request
    let ra = deliver(&Message::Session(Session::Request));
    assert_eq!(intake_step(&Ok(ra)), IntakeAction::Dispatch);
    let (held, a1) = dispatcher_step(DispatcherState::Idle, &DispatcherEvent::Arrival);
    assert_eq!(a1, DispatcherAction::Hold);
    assert_eq!(held, DispatcherState::Holding);
    let rb = deliver(&Message::Session(Session::Request));
    assert_eq!(intake_step(&Ok(rb)), IntakeAction::Dispatch);
    // the first is held; on the second's arrival both receive Success
    let (_, a2) = dispatcher_step(held, &DispatcherEvent::Arrival);
    assert_eq!(a2, DispatcherAction::Pair);
    assert_eq!(deliver(&Message::Session(Session::Success)), Message::Session(Session::Success));
}

#[test]
fn test_session_value() {
    // after pairing, A sends Value("A") and B sends Value("B") concurrently
    let from_a = deliver(&value("A"));
    let act_a = exchange_step(Peer::Left, Ok(from_a));
    match act_a {
        ExchangeAction::Forward(target, v) => {
            assert_eq!(target, Peer::Right);
            assert_eq!(v, "A");
            // B receives exactly A's value
            assert_eq!(deliver(&value(&v)), value("A"));
        },
        other => panic!("expected a relay, got {:?}", other),
    }
    assert_eq!(after_forward(true), ForwardOutcome::KeepExchanging);
    let from_b = deliver(&value("B"));
    let act_b = exchange_step(Peer::Right, Ok(from_b));
    match act_b {
        ExchangeAction::Forward(target, v) => {
            assert_eq!(target, Peer::Left);
            assert_eq!(v, "B");
            assert_eq!(deliver(&value(&v)), value("B"));
        },
        other => panic!("expected a relay, got {:?}", other),
    }
    assert_eq!(after_forward(true), ForwardOutcome::KeepExchanging);
}

#[test]
fn test_ignore_session_end() {
    // a stray Session::End before any session is ignored; the following
    // Connection::End is acknowledged
    let first = deliver(&Message::Session(Session::End));
    let second = deliver(&Message::Connection(Connection::End));
    assert_eq!(intake_run(&vec![first, second]), IntakeAction::AcknowledgeEnd);
    assert_eq!(deliver(&Message::Connection(Connection::End)), Message::Connection(Connection::End));
}

#[test]
fn test_ignore_session_value() {
    // same with an empty Value in place of Session::End
    let first = deliver(&value(""));
    let second = deliver(&Message::Connection(Connection::End));
    assert_eq!(intake_run(&vec![first, second]), IntakeAction::AcknowledgeEnd);
    assert_eq!(deliver(&Message::Connection(Connection::End)), Message::Connection(Connection::End));
}

#[test]
fn test_invalid_request() {
    // the first request hands the client to the dispatcher, which holds it
    assert_eq!(intake_step(&Ok(deliver(&Message::Session(Session::Request)))), IntakeAction::Dispatch);
    let (held, a1) = dispatcher_step(DispatcherState::Idle, &DispatcherEvent::Arrival);
    assert_eq!(a1, DispatcherAction::Hold);
    // the second request reaches the dispatcher's concurrent receive on the
    // held client: an unexpected frame, so the client is shut down
    let stray = deliver(&Message::Session(Session::Request));
    let (_, a2) = dispatcher_step(held, &DispatcherEvent::HeldMessage(Ok(stray)));
    assert_eq!(a2, DispatcherAction::ShutdownHeld);
}

#[test]
fn pre_session_ignores_any_number_of_stray_frames() {
    let frames = vec![
        deliver(&Message::Session(Session::End)),
        deliver(&value("")),
        deliver(&value("stray")),
        deliver(&Message::Session(Session::End)),
    ];
    assert_eq!(intake_run(&frames), IntakeAction::Stay);
}

#[test]
fn pre_session_reactions() {
    assert_eq!(intake_step(&Ok(Message::Session(Session::Request))), IntakeAction::Dispatch);
    assert_eq!(intake_step(&Ok(Message::Session(Session::End))), IntakeAction::Stay);
    assert_eq!(intake_step(&Ok(value("x"))), IntakeAction::Stay);
    // Success from a client is a protocol violation
    assert_eq!(intake_step(&Ok(Message::Session(Session::Success))), IntakeAction::Shutdown);
    // any receive error closes the connection
    assert_eq!(intake_step(&Err(request::Error::IO)), IntakeAction::Shutdown);
    assert_eq!(intake_step(&Err(request::Error::Utf8)), IntakeAction::Shutdown);
    assert_eq!(intake_step(&Err(request::Error::Json)), IntakeAction::Shutdown);
}

#[test]
fn dispatcher_reactions() {
    // a waiting client may bow out with Session::End and is confirmed
    let bow_out = deliver(&Message::Session(Session::End));
    let (st, a) = dispatcher_step(
        DispatcherState::Holding,
        &DispatcherEvent::HeldMessage(Ok(bow_out)),
    );
    assert_eq!(a, DispatcherAction::EndHeld);
    assert_eq!(st, DispatcherState::Idle);
    // an error on the held client shuts it down
    let (_, a) = dispatcher_step(
        DispatcherState::Holding,
        &DispatcherEvent::HeldMessage(Err(request::Error::IO)),
    );
    assert_eq!(a, DispatcherAction::ShutdownHeld);
    // a closed intake queue stops the dispatcher
    let (_, a) = dispatcher_step(DispatcherState::Idle, &DispatcherEvent::Closed);
    assert_eq!(a, DispatcherAction::Stop);
}

#[test]
fn session_start_failures() {
    assert_eq!(session_start_step(true, false), (PeerAction::OfferEnd, PeerAction::Shutdown));
    assert_eq!(session_start_step(false, true), (PeerAction::Shutdown, PeerAction::OfferEnd));
    assert_eq!(session_start_step(false, false), (PeerAction::Shutdown, PeerAction::Shutdown));
}

#[test]
fn exchange_failures() {
    // an error on one peer shuts it down and offers the other a clean end
    let act = exchange_step(Peer::Left, Err(request::Error::IO));
    assert_eq!(act, ExchangeAction::Fail(Peer::Left, Peer::Right));
    // an in-session Success is unexpected and treated the same way
    let stray = deliver(&Message::Session(Session::Success));
    let act = exchange_step(Peer::Right, Ok(stray));
    assert_eq!(act, ExchangeAction::Fail(Peer::Right, Peer::Left));
    // a failed relay shuts the target down
    assert_eq!(after_forward(false), ForwardOutcome::FailTarget);
    // a failed end offer closes that client
    assert_eq!(after_end_offer(false), ClientFate::Close);
}
