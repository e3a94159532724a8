use ws_bridge::bridge::{BridgeError, ClientAction, ClientEvent, Incoming, PendingRequest, Phase};

fn text(s: &str) -> ClientEvent {
    ClientEvent::Message(Incoming::Text(s.to_string()))
}

#[test]
fn sends_on_open_and_resolves_with_first_text() {
    let mut p = PendingRequest::new("hello".to_string());
    assert_eq!(p.step(ClientEvent::Opened), ClientAction::Send("hello".to_string()));
    assert!(!p.is_settled());
    assert_eq!(
        p.step(text("Hello from Rust at 14:03:22")),
        ClientAction::Settle(Ok("Hello from Rust at 14:03:22".to_string()))
    );
    assert!(p.is_settled());
}

#[test]
fn later_events_are_ignored_after_settlement() {
    let mut p = PendingRequest::new("hello".to_string());
    let _ = p.step(ClientEvent::Opened);
    let _ = p.step(text("first"));
    assert_eq!(p.step(text("second")), ClientAction::Wait);
    assert_eq!(p.step(ClientEvent::Failed("boom".to_string())), ClientAction::Wait);
    assert_eq!(p.step(ClientEvent::Message(Incoming::Other)), ClientAction::Wait);
    assert_eq!(p.phase, Phase::Settled);
}

#[test]
fn nothing_is_sent_before_open() {
    let mut p = PendingRequest::new("hello".to_string());
    assert_eq!(p.phase, Phase::Connecting);
    assert_eq!(
        p.step(ClientEvent::Failed("refused".to_string())),
        ClientAction::Settle(Err(BridgeError::Transport("refused".to_string())))
    );
    assert_eq!(p.step(ClientEvent::Opened), ClientAction::Wait);
}

#[test]
fn message_is_sent_once() {
    let mut p = PendingRequest::new("hi".to_string());
    assert_eq!(p.step(ClientEvent::Opened), ClientAction::Send("hi".to_string()));
    assert_eq!(p.step(ClientEvent::Opened), ClientAction::Wait);
    assert_eq!(p.phase, Phase::Open);
}

#[test]
fn non_text_reply_is_malformed() {
    let mut p = PendingRequest::new("hello".to_string());
    let _ = p.step(ClientEvent::Opened);
    assert_eq!(
        p.step(ClientEvent::Message(Incoming::Other)),
        ClientAction::Settle(Err(BridgeError::MalformedReply))
    );
    assert_eq!(p.step(text("too late")), ClientAction::Wait);
}

#[test]
fn send_failure_rejects_without_waiting() {
    let mut p = PendingRequest::new("hello".to_string());
    let _ = p.step(ClientEvent::Opened);
    assert_eq!(
        p.step(ClientEvent::SendFailed("closed".to_string())),
        ClientAction::Settle(Err(BridgeError::Transmit("closed".to_string())))
    );
    assert!(p.is_settled());
}

#[test]
fn error_after_send_rejects() {
    let mut p = PendingRequest::new("hello".to_string());
    let _ = p.step(ClientEvent::Opened);
    assert_eq!(
        p.step(ClientEvent::Failed("reset".to_string())),
        ClientAction::Settle(Err(BridgeError::Transport("reset".to_string())))
    );
}

#[test]
fn exactly_one_settlement_over_a_sequence() {
    let events = vec![
        ClientEvent::Opened,
        ClientEvent::Opened,
        ClientEvent::Failed("e1".to_string()),
        text("late"),
        ClientEvent::SendFailed("e2".to_string()),
    ];
    let mut p = PendingRequest::new("m".to_string());
    let mut settled = Vec::new();
    let mut sends = 0;
    for (i, e) in events.into_iter().enumerate() {
        match p.step(e) {
            ClientAction::Settle(o) => settled.push((i, o)),
            ClientAction::Send(_) => sends += 1,
            ClientAction::Wait => {}
        }
    }
    assert_eq!(sends, 1);
    assert_eq!(settled, vec![(2, Err(BridgeError::Transport("e1".to_string())))]);
}
