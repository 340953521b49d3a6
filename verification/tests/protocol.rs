//! The inbound text command protocol and the store key scheme.

use presence_relay::keys::{key_platform, online_users, stream_key};
use presence_relay::session::{
    parse_command, Command, Frame, Phase, Reaction, SessionAction, SessionEndpoint,
};

#[test]
fn key_scheme() {
    assert_eq!(online_users(), "online-users");
    assert_eq!(key_platform("alice"), "platforms:alice");
    assert_eq!(stream_key("alice"), "stream-messages:alice");
}

#[test]
fn parse_list() {
    assert!(matches!(parse_command("/list"), Command::List));
    assert!(matches!(parse_command("  /list  "), Command::List));
    assert!(matches!(parse_command("/list extra"), Command::List));
    // All Unicode whitespace is trimmed, as str::trim does.
    assert!(matches!(parse_command("\u{a0}/list\u{2003}\n"), Command::List));
}

#[test]
fn parse_name() {
    match parse_command("/name alice") {
        Command::Name(v) => assert_eq!(v, "alice"),
        _ => panic!("expected a name binding"),
    }
    assert!(matches!(parse_command("/name"), Command::NameMissing));
    // Trailing whitespace is trimmed before splitting, so no argument.
    assert!(matches!(parse_command("/name  "), Command::NameMissing));
    // The argument is everything after the first space, spaces included.
    match parse_command("/name   spaced out") {
        Command::Name(v) => assert_eq!(v, "  spaced out"),
        _ => panic!("expected a name binding"),
    }
}

#[test]
fn parse_patient() {
    match parse_command("/patient {\"ward\":1}") {
        Command::Patient(v) => assert_eq!(v, "{\"ward\":1}"),
        _ => panic!("expected a payload"),
    }
    assert!(matches!(parse_command("/patient"), Command::PatientMissing));
}

#[test]
fn parse_unknown() {
    match parse_command("hello there") {
        Command::Unknown(m) => assert_eq!(m, "hello there"),
        _ => panic!("expected an unknown command"),
    }
    match parse_command("/frobnicate now") {
        Command::Unknown(m) => assert_eq!(m, "/frobnicate now"),
        _ => panic!("expected an unknown command"),
    }
}

#[test]
fn name_without_argument_is_an_error_notice_only() {
    // The session stays connected and keeps no identity.
    let mut sess = SessionEndpoint::new(0);
    sess.on_registered(5);
    let act = sess.handle_text("/name");
    match act {
        SessionAction::Notice(s) => assert_eq!(s, "!!! name is required"),
        _ => panic!("expected an error notice"),
    }
    assert_eq!(sess.phase, Phase::Registered);
    assert!(sess.identity.is_none());
    assert_eq!(sess.id, 5);
}

#[test]
fn name_with_argument_binds_identity() {
    let mut sess = SessionEndpoint::new(0);
    sess.on_registered(5);
    let act = sess.handle_text("/name alice");
    match act {
        SessionAction::Announce { session, identity } => {
            assert_eq!(session, 5);
            assert_eq!(identity, "alice");
        },
        _ => panic!("expected an identity announcement"),
    }
    assert_eq!(sess.phase, Phase::Identified);
    assert_eq!(sess.identity.as_deref(), Some("alice"));
}

#[test]
fn patient_is_stamped_with_the_bound_identity() {
    let mut sess = SessionEndpoint::new(0);
    sess.on_registered(5);
    sess.handle_text("/name alice");
    let act = sess.handle_text("/patient {\"ward\":1}");
    match act {
        SessionAction::ForwardPayload { body, requester } => {
            assert_eq!(body, "{\"ward\":1}");
            assert_eq!(requester.as_deref(), Some("alice"));
        },
        _ => panic!("expected a forwarded payload"),
    }
}

#[test]
fn unknown_command_is_echoed_back_quoted() {
    let mut sess = SessionEndpoint::new(0);
    sess.on_registered(5);
    let act = sess.handle_text("/frobnicate");
    match act {
        SessionAction::Notice(s) => assert_eq!(s, "!!! unknown command: \"/frobnicate\""),
        _ => panic!("expected a notice"),
    }
    let act = sess.handle_text("plain text");
    match act {
        SessionAction::Notice(s) => assert_eq!(s, "!!! unknown command: \"plain text\""),
        _ => panic!("expected a notice"),
    }
    assert_eq!(
        format!("!!! unknown command: {:?}", "plain text"),
        "!!! unknown command: \"plain text\"",
    );
}

#[test]
fn unknown_command_echo_escapes_like_debug() {
    let mut sess = SessionEndpoint::new(0);
    sess.on_registered(5);
    for offending in ["say \"hi\"", "a\\b", "tab\there", "bell\u{7}end", "high\u{1f}end"] {
        let act = sess.handle_text(offending);
        match act {
            SessionAction::Notice(s) => {
                assert_eq!(s, format!("!!! unknown command: {:?}", offending));
            },
            _ => panic!("expected a notice"),
        }
    }
}

#[test]
fn list_command_queries_the_directory() {
    let mut sess = SessionEndpoint::new(0);
    sess.on_registered(5);
    assert!(matches!(sess.handle_text("/list"), SessionAction::QueryList));
}

#[test]
fn probes_reset_the_clock_and_ping_is_answered() {
    let mut sess = SessionEndpoint::new(0);
    sess.on_registered(1);
    assert!(matches!(sess.on_frame(Frame::Ping, 50), Reaction::Pong));
    assert_eq!(sess.last_seen, 50);
    assert!(matches!(sess.on_frame(Frame::Pong, 70), Reaction::Ignore));
    assert_eq!(sess.last_seen, 70);
}

#[test]
fn close_and_unfinished_frames_stop_the_session() {
    let mut sess = SessionEndpoint::new(0);
    sess.on_registered(1);
    assert!(matches!(sess.on_frame(Frame::Binary, 10), Reaction::Ignore));
    assert_eq!(sess.phase, Phase::Registered);
    assert!(matches!(sess.on_frame(Frame::Close, 10), Reaction::Stop));
    assert_eq!(sess.phase, Phase::Closing);

    let mut other = SessionEndpoint::new(0);
    other.on_registered(2);
    assert!(matches!(other.on_frame(Frame::Continuation, 10), Reaction::Stop));
    assert_eq!(other.phase, Phase::Closing);
}

#[test]
fn text_frames_run_the_command_protocol() {
    let mut sess = SessionEndpoint::new(0);
    sess.on_registered(1);
    match sess.on_frame(Frame::Text(String::from("/name zoe")), 10) {
        Reaction::Act(SessionAction::Announce { session, identity }) => {
            assert_eq!(session, 1);
            assert_eq!(identity, "zoe");
        },
        _ => panic!("expected an identity announcement"),
    }
}

#[test]
fn close_reports_the_session_id() {
    let mut sess = SessionEndpoint::new(0);
    sess.on_registered(9);
    let id = sess.on_close();
    assert_eq!(id, 9);
    assert_eq!(sess.phase, Phase::Closing);
}

#[test]
fn failed_registration_closes_the_connection() {
    let mut sess = SessionEndpoint::new(0);
    assert_eq!(sess.phase, Phase::Connecting);
    sess.on_register_failed();
    assert_eq!(sess.phase, Phase::Closing);
}
