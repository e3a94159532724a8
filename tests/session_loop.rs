use ws_bridge::clock::ClockReading;
use ws_bridge::session::{EndReason, Frame, Session, SessionAction, SessionEvent};

fn at(hour: u32, minute: u32, second: u32) -> ClockReading {
    ClockReading { hour, minute, second, nanosecond: 0 }
}

fn text(s: &str) -> SessionEvent {
    SessionEvent::Received(Frame::Text(s.to_string()))
}

#[test]
fn text_frame_gets_stamped_reply() {
    let mut s = Session::new();
    let a = s.step_at(text("hello"), &at(14, 3, 22));
    assert_eq!(a, SessionAction::Reply("Hello from Rust at 14:03:22".to_string()));
    assert!(s.is_active());
}

#[test]
fn reply_ignores_request_content() {
    let mut s = Session::new();
    let a = s.step_at(text("something else entirely"), &at(9, 5, 7));
    assert_eq!(a, SessionAction::Reply("Hello from Rust at 09:05:07".to_string()));
}

#[test]
fn other_frames_are_skipped() {
    let mut s = Session::new();
    assert_eq!(s.step_at(SessionEvent::Received(Frame::Other), &at(1, 2, 3)), SessionAction::Skip);
    assert!(s.is_active());
}

#[test]
fn close_frame_ends_gracefully() {
    let mut s = Session::new();
    let a = s.step_at(SessionEvent::Received(Frame::Close), &at(1, 2, 3));
    assert_eq!(a, SessionAction::End(EndReason::PeerClosed));
    assert!(!s.is_active());
    assert_eq!(s.step_at(text("late"), &at(1, 2, 4)), SessionAction::Skip);
}

#[test]
fn read_error_ends_session() {
    let mut s = Session::new();
    assert_eq!(s.step_at(SessionEvent::ReadFailed, &at(1, 2, 3)), SessionAction::End(EndReason::ReadFailed));
    assert!(!s.is_active());
}

#[test]
fn send_error_ends_session() {
    let mut s = Session::new();
    let _ = s.step_at(text("a"), &at(1, 2, 3));
    assert_eq!(s.step_at(SessionEvent::SendFailed, &at(1, 2, 3)), SessionAction::End(EndReason::SendFailed));
    assert!(!s.is_active());
    assert_eq!(s.step_at(SessionEvent::ReadFailed, &at(1, 2, 3)), SessionAction::Skip);
}

#[test]
fn one_reply_per_text_frame_in_order() {
    let mut s = Session::new();
    let events = vec![
        text("a"),
        SessionEvent::Received(Frame::Other),
        text("b"),
        text("c"),
        SessionEvent::Received(Frame::Close),
        text("d"),
    ];
    let mut replies = Vec::new();
    let mut skips = 0;
    for (i, e) in events.into_iter().enumerate() {
        match s.step_at(e, &at(10, 0, i as u32)) {
            SessionAction::Reply(r) => replies.push(r),
            SessionAction::Skip => skips += 1,
            SessionAction::End(r) => assert_eq!(r, EndReason::PeerClosed),
        }
    }
    assert_eq!(
        replies,
        vec![
            "Hello from Rust at 10:00:00".to_string(),
            "Hello from Rust at 10:00:02".to_string(),
            "Hello from Rust at 10:00:03".to_string(),
        ]
    );
    assert_eq!(skips, 2);
}

#[test]
fn failing_session_leaves_others_alone() {
    let mut a = Session::new();
    let mut b = Session::new();
    assert_eq!(a.step_at(text("x"), &at(8, 0, 0)), SessionAction::Reply("Hello from Rust at 08:00:00".to_string()));
    assert_eq!(b.step_at(SessionEvent::ReadFailed, &at(8, 0, 1)), SessionAction::End(EndReason::ReadFailed));
    assert_eq!(a.step_at(text("y"), &at(8, 0, 2)), SessionAction::Reply("Hello from Rust at 08:00:02".to_string()));
    assert!(a.is_active());
    assert!(!b.is_active());
}

#[test]
fn live_clock_reply_has_time_shape() {
    let mut s = Session::new();
    match s.step(text("ping")) {
        SessionAction::Reply(r) => {
            assert_ne!(r, "ping");
            assert!(r.starts_with("Hello from Rust at "));
            let stamp: Vec<char> = r["Hello from Rust at ".len()..].chars().collect();
            assert_eq!(stamp.len(), 8);
            assert_eq!(stamp[2], ':');
            assert_eq!(stamp[5], ':');
            for i in [0usize, 1, 3, 4, 6, 7] {
                assert!(stamp[i].is_ascii_digit());
            }
        }
        other => panic!("expected a reply, got {:?}", other),
    }
}
