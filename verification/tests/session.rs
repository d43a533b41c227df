use alpha_innotec::error::Error;
use alpha_innotec::session::{
    outcome, react, Frame, Reaction, Session, SessionEvent, SessionState,
};

fn session_in(state: SessionState) -> Session {
    let mut session = Session::new();
    let events: Vec<SessionEvent> = match state {
        SessionState::Disconnected => vec![],
        SessionState::Connecting => vec![SessionEvent::Open],
        SessionState::Connected => vec![SessionEvent::Open, SessionEvent::Opened],
        SessionState::LoggedIn => {
            vec![SessionEvent::Open, SessionEvent::Opened, SessionEvent::LoginAccepted]
        }
        SessionState::Closed => vec![SessionEvent::Close],
    };
    for event in events {
        session.apply(event).unwrap();
    }
    assert_eq!(session.state(), state);
    session
}

const STATES: [SessionState; 5] = [
    SessionState::Disconnected,
    SessionState::Connecting,
    SessionState::Connected,
    SessionState::LoggedIn,
    SessionState::Closed,
];

const EVENTS: [SessionEvent; 7] = [
    SessionEvent::Open,
    SessionEvent::Opened,
    SessionEvent::OpenFailed,
    SessionEvent::LoginAccepted,
    SessionEvent::LoginRejected,
    SessionEvent::ReplyMissing,
    SessionEvent::Close,
];

#[test]
fn text_frame_is_the_reply() {
    match react(Some(Frame::Text("<Navigation/>".to_string()))) {
        Reaction::Reply(text) => assert_eq!(text, "<Navigation/>"),
        other => panic!("expected the reply, got {:?}", other),
    }
}

#[test]
fn ping_is_answered_with_its_payload() {
    match react(Some(Frame::Ping(vec![1, 2, 3]))) {
        Reaction::AnswerPing(payload) => assert_eq!(payload, vec![1, 2, 3]),
        other => panic!("expected a pong, got {:?}", other),
    }
}

#[test]
fn close_is_confirmed() {
    assert!(matches!(react(Some(Frame::Close)), Reaction::ConfirmClose));
}

#[test]
fn pong_and_binary_are_passed_over() {
    assert!(matches!(react(Some(Frame::Pong(vec![9]))), Reaction::Ignore));
    assert!(matches!(react(Some(Frame::Binary(vec![0, 1]))), Reaction::Ignore));
}

#[test]
fn end_of_stream_gives_up() {
    assert!(matches!(react(None), Reaction::GiveUp));
}

#[test]
fn wait_ends_with_reply_or_no_response() {
    match outcome(Reaction::Reply("page".to_string())) {
        Some(Ok(text)) => assert_eq!(text, "page"),
        other => panic!("expected the reply, got {:?}", other),
    }
    assert!(matches!(outcome(Reaction::ConfirmClose), Some(Err(Error::NoResponse))));
    assert!(matches!(outcome(Reaction::GiveUp), Some(Err(Error::NoResponse))));
    assert!(outcome(Reaction::AnswerPing(vec![1])).is_none());
    assert!(outcome(Reaction::Ignore).is_none());
}

#[test]
fn ping_then_text_delivers_the_text() {
    let frames = vec![
        Frame::Ping(vec![7]),
        Frame::Binary(vec![1]),
        Frame::Pong(vec![]),
        Frame::Text("reply".to_string()),
        Frame::Text("never read".to_string()),
    ];
    let mut pongs: Vec<Vec<u8>> = Vec::new();
    let mut result = None;
    let mut read = 0;
    for frame in frames {
        read += 1;
        let reaction = react(Some(frame));
        if let Reaction::AnswerPing(payload) = &reaction {
            pongs.push(payload.clone());
        }
        if let Some(ended) = outcome(reaction) {
            result = Some(ended);
            break;
        }
    }
    assert_eq!(read, 4);
    assert_eq!(pongs, vec![vec![7]]);
    assert_eq!(result.unwrap().unwrap(), "reply");
}

#[test]
fn session_walks_from_disconnected_to_logged_in() {
    let mut session = Session::new();
    assert_eq!(session.state(), SessionState::Disconnected);
    assert!(session.apply(SessionEvent::Open).is_ok());
    assert_eq!(session.state(), SessionState::Connecting);
    assert!(session.apply(SessionEvent::Opened).is_ok());
    assert_eq!(session.state(), SessionState::Connected);
    assert!(session.apply(SessionEvent::LoginAccepted).is_ok());
    assert_eq!(session.state(), SessionState::LoggedIn);
    assert!(session.apply(SessionEvent::Close).is_ok());
    assert_eq!(session.state(), SessionState::Closed);
}

#[test]
fn failed_opening_is_a_connection_error() {
    let mut session = session_in(SessionState::Connecting);
    assert!(matches!(session.apply(SessionEvent::OpenFailed), Err(Error::ConnectionError)));
    assert_eq!(session.state(), SessionState::Closed);
}

#[test]
fn rejected_login_is_a_login_error() {
    let mut session = session_in(SessionState::Connected);
    assert!(matches!(session.apply(SessionEvent::LoginRejected), Err(Error::LoginError)));
    assert_eq!(session.state(), SessionState::Closed);
}

#[test]
fn login_without_reply_is_no_response() {
    let mut session = session_in(SessionState::Connected);
    let command = session.login_command("999999").unwrap();
    assert_eq!(command, "LOGIN;999999");
    let ended = outcome(react(None)).unwrap();
    assert!(matches!(ended, Err(Error::NoResponse)));
    assert!(matches!(session.apply(SessionEvent::ReplyMissing), Err(Error::NoResponse)));
    assert_eq!(session.state(), SessionState::Closed);
    assert!(session.page_command("0x45df90").is_err());
}

#[test]
fn page_without_reply_is_no_response() {
    let mut session = session_in(SessionState::LoggedIn);
    assert!(matches!(session.apply(SessionEvent::ReplyMissing), Err(Error::NoResponse)));
    assert_eq!(session.state(), SessionState::Closed);
}

#[test]
fn closed_session_stays_closed() {
    for event in EVENTS {
        let mut session = session_in(SessionState::Closed);
        let result = session.apply(event);
        assert_eq!(session.state(), SessionState::Closed);
        assert_eq!(result.is_ok(), event == SessionEvent::Close);
    }
}

#[test]
fn every_error_closes_the_session() {
    for state in STATES {
        for event in EVENTS {
            let mut session = session_in(state);
            if session.apply(event).is_err() {
                assert_eq!(session.state(), SessionState::Closed);
            }
        }
    }
}

#[test]
fn only_an_accepted_login_logs_in() {
    for state in STATES {
        for event in EVENTS {
            let mut session = session_in(state);
            let _ = session.apply(event);
            if session.state() == SessionState::LoggedIn && state != SessionState::LoggedIn {
                assert_eq!(state, SessionState::Connected);
                assert_eq!(event, SessionEvent::LoginAccepted);
            }
        }
    }
}

#[test]
fn event_out_of_turn_ends_the_session() {
    let mut session = session_in(SessionState::Disconnected);
    assert!(matches!(session.apply(SessionEvent::LoginAccepted), Err(Error::ConnectionError)));
    assert_eq!(session.state(), SessionState::Closed);
    let mut session = session_in(SessionState::LoggedIn);
    assert!(matches!(session.apply(SessionEvent::Open), Err(Error::ConnectionError)));
    assert_eq!(session.state(), SessionState::Closed);
}

#[test]
fn login_command_needs_an_open_socket() {
    for state in STATES {
        let mut session = session_in(state);
        let result = session.login_command("1234");
        if state == SessionState::Connected {
            assert_eq!(result.unwrap(), "LOGIN;1234");
            assert_eq!(session.state(), SessionState::Connected);
        } else {
            assert!(matches!(result, Err(Error::ConnectionError)));
            assert_eq!(session.state(), SessionState::Closed);
        }
    }
}

#[test]
fn page_command_needs_a_login() {
    for state in STATES {
        let mut session = session_in(state);
        let result = session.page_command("0x45df90");
        if state == SessionState::LoggedIn {
            assert_eq!(result.unwrap(), "GET;0x45df90");
            assert_eq!(session.state(), SessionState::LoggedIn);
        } else {
            assert!(matches!(result, Err(Error::ConnectionError)));
            assert_eq!(session.state(), SessionState::Closed);
        }
    }
}
