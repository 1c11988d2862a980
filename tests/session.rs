use echo_protocol::session::{
    EchoMode, EchoSession, SessionAction, SessionEnd, SessionEvent, SessionState,
};

#[test]
fn single_shot_echoes_hello() {
    let mut s = EchoSession::new(EchoMode::SingleShot);
    assert!(s.is_open());
    match s.on_event(SessionEvent::Message(b"hello".to_vec())) {
        SessionAction::ReplyAndClose(b) => assert_eq!(b, b"hello\n".to_vec()),
        other => panic!("unexpected {:?}", other),
    }
    assert_eq!(s.state, SessionState::Closed);
    assert!(!s.is_open());
}

#[test]
fn single_shot_echoes_empty_message() {
    let mut s = EchoSession::new(EchoMode::SingleShot);
    match s.on_event(SessionEvent::Message(Vec::new())) {
        SessionAction::ReplyAndClose(b) => assert_eq!(b, b"\n".to_vec()),
        other => panic!("unexpected {:?}", other),
    }
}

#[test]
fn invalid_text_ends_session() {
    let mut s = EchoSession::new(EchoMode::SingleShot);
    assert!(matches!(
        s.on_event(SessionEvent::Message(vec![0xFE])),
        SessionAction::Close(SessionEnd::InvalidText)
    ));
    assert_eq!(s.state, SessionState::Closed);
}

#[test]
fn peer_close_and_transport_error_end_session() {
    let mut s = EchoSession::new(EchoMode::SingleShot);
    assert!(matches!(
        s.on_event(SessionEvent::PeerClosed),
        SessionAction::Close(SessionEnd::PeerClosed)
    ));
    let mut s = EchoSession::new(EchoMode::UntilEmptyLine);
    assert!(matches!(
        s.on_event(SessionEvent::TransportError),
        SessionAction::Close(SessionEnd::TransportError)
    ));
    assert!(!s.is_open());
}

#[test]
fn multi_message_mode_runs_until_empty_line() {
    let mut s = EchoSession::new(EchoMode::UntilEmptyLine);
    match s.on_event(SessionEvent::Message(b"one".to_vec())) {
        SessionAction::Reply(b) => assert_eq!(b, b"one\n".to_vec()),
        other => panic!("unexpected {:?}", other),
    }
    assert!(s.is_open());
    match s.on_event(SessionEvent::Message("z\u{df}".as_bytes().to_vec())) {
        SessionAction::Reply(b) => assert_eq!(b, "z\u{df}\n".as_bytes().to_vec()),
        other => panic!("unexpected {:?}", other),
    }
    assert!(matches!(
        s.on_event(SessionEvent::Message(Vec::new())),
        SessionAction::Close(SessionEnd::EmptyLine)
    ));
    assert_eq!(s.mode, EchoMode::UntilEmptyLine);
    assert!(!s.is_open());
}
