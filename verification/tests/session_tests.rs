use chat_relay::message::BroadcastMessage;
use chat_relay::registry::PeerAddr;
use chat_relay::session::{
    normalize_username, Session, SessionEvent, SessionState,
};

fn addr(port: u16) -> PeerAddr {
    PeerAddr { ip: 0x7F000001, port }
}

#[test]
fn blank_username_synthesizes_from_port() {
    assert_eq!(normalize_username("", 4242), "user-4242");
    assert_eq!(normalize_username("   \r\n", 1234), "user-1234");
    assert_eq!(normalize_username("\n", 65535), "user-65535");
}

#[test]
fn username_is_trimmed() {
    assert_eq!(normalize_username("  alice \n", 5000), "alice");
    assert_eq!(normalize_username("bob", 5000), "bob");
}

#[test]
fn handshake_line_registers_and_announces() {
    let mut s = Session::new(addr(4000), 7);
    let fx = s.step(SessionEvent::Line(String::from(" alice \n")));
    let rec = fx.register.expect("handshake must register");
    assert_eq!(rec.username, "alice");
    assert_eq!(rec.addr, addr(4000));
    assert_eq!(rec.sink, 7);
    assert!(!fx.deregister);
    match fx.broadcast.expect("handshake must announce") {
        BroadcastMessage::Notice(c) => assert_eq!(c, "alice joined the chat"),
        _ => panic!("expected a notice"),
    }
    match s.state {
        SessionState::Active { ref username } => assert_eq!(username, "alice"),
        _ => panic!("expected the session to be active"),
    }
}

#[test]
fn handshake_eof_abandons_silently() {
    let mut s = Session::new(addr(4001), 8);
    let fx = s.step(SessionEvent::Disconnected);
    assert!(fx.register.is_none());
    assert!(!fx.deregister);
    assert!(fx.broadcast.is_none());
    assert!(matches!(s.state, SessionState::Closed));
}

#[test]
fn nonempty_line_becomes_chat() {
    let mut s = Session::new(addr(4002), 9);
    s.step(SessionEvent::Line(String::from("alice\n")));
    let fx = s.step(SessionEvent::Line(String::from(" hello \n")));
    assert!(fx.register.is_none());
    assert!(!fx.deregister);
    match fx.broadcast.expect("a non-empty line is relayed") {
        BroadcastMessage::Chat { username, content } => {
            assert_eq!(username, "alice");
            assert_eq!(content, "hello");
        }
        _ => panic!("expected a chat event"),
    }
}

#[test]
fn blank_line_is_discarded() {
    let mut s = Session::new(addr(4003), 10);
    s.step(SessionEvent::Line(String::from("alice\n")));
    let fx = s.step(SessionEvent::Line(String::from("   \t\r\n")));
    assert!(fx.register.is_none());
    assert!(!fx.deregister);
    assert!(fx.broadcast.is_none());
    assert!(matches!(s.state, SessionState::Active { .. }));
}

#[test]
fn disconnect_deregisters_and_announces() {
    let mut s = Session::new(addr(4004), 11);
    s.step(SessionEvent::Line(String::from("bob\n")));
    let fx = s.step(SessionEvent::Disconnected);
    assert!(fx.register.is_none());
    assert!(fx.deregister);
    match fx.broadcast.expect("a leave notice is due") {
        BroadcastMessage::Notice(c) => assert_eq!(c, "bob left the chat"),
        _ => panic!("expected a notice"),
    }
    assert!(matches!(s.state, SessionState::Closed));
}

#[test]
fn transcript_emits_join_chats_leave() {
    let out = chat_relay::session::session_transcript(
        addr(6000),
        20,
        String::from(" carol \n"),
        vec![
            String::from("one\n"),
            String::from("   \n"),
            String::from(" two \n"),
        ],
    );
    // m non-blank lines give m chat events plus one join and one leave
    assert_eq!(out.len(), 4);
    match &out[0] {
        BroadcastMessage::Notice(c) => assert_eq!(c, "carol joined the chat"),
        _ => panic!("expected the join notice first"),
    }
    match &out[1] {
        BroadcastMessage::Chat { username, content } => {
            assert_eq!(username, "carol");
            assert_eq!(content, "one");
        }
        _ => panic!("expected the first chat event"),
    }
    match &out[2] {
        BroadcastMessage::Chat { username, content } => {
            assert_eq!(username, "carol");
            assert_eq!(content, "two");
        }
        _ => panic!("expected the second chat event"),
    }
    match &out[3] {
        BroadcastMessage::Notice(c) => assert_eq!(c, "carol left the chat"),
        _ => panic!("expected the leave notice last"),
    }
}

#[test]
fn transcript_of_blank_lines_is_just_join_and_leave() {
    let out = chat_relay::session::session_transcript(
        addr(6001),
        21,
        String::from("\n"),
        vec![String::from("\n"), String::from("  \t\n")],
    );
    assert_eq!(out.len(), 2);
    match &out[0] {
        BroadcastMessage::Notice(c) => assert_eq!(c, "user-6001 joined the chat"),
        _ => panic!("expected the join notice"),
    }
    match &out[1] {
        BroadcastMessage::Notice(c) => assert_eq!(c, "user-6001 left the chat"),
        _ => panic!("expected the leave notice"),
    }
}

#[test]
fn closed_session_never_acts_again() {
    let mut s = Session::new(addr(4005), 12);
    s.step(SessionEvent::Line(String::from("bob\n")));
    s.step(SessionEvent::Disconnected);
    let fx = s.step(SessionEvent::Line(String::from("late\n")));
    assert!(fx.register.is_none());
    assert!(!fx.deregister);
    assert!(fx.broadcast.is_none());
    let fx2 = s.step(SessionEvent::Disconnected);
    assert!(fx2.register.is_none());
    assert!(!fx2.deregister);
    assert!(fx2.broadcast.is_none());
}
