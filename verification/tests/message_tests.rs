use chat_relay::dispatch::render_now;
use chat_relay::message::{join_notice, leave_notice, render, BroadcastMessage};

#[test]
fn render_chat_line() {
    let m = BroadcastMessage::Chat {
        username: String::from("alice"),
        content: String::from("hello"),
    };
    assert_eq!(render(&m, 12, 5, 9), "[12:05:09] alice: hello");
}

#[test]
fn render_notice_line() {
    let m = BroadcastMessage::Notice(String::from("bob left the chat"));
    assert_eq!(render(&m, 0, 0, 0), "[00:00:00] * bob left the chat");
}

#[test]
fn join_and_leave_notices() {
    match join_notice("alice") {
        BroadcastMessage::Notice(c) => assert_eq!(c, "alice joined the chat"),
        _ => panic!("expected a notice"),
    }
    match leave_notice("bob") {
        BroadcastMessage::Notice(c) => assert_eq!(c, "bob left the chat"),
        _ => panic!("expected a notice"),
    }
}

#[test]
fn render_now_stamps_a_valid_time() {
    // The clock is live, so check the shape: the rendering must wrap
    // the event in "[HH:MM:SS] * " with in-range digits, not echo it.
    let m = BroadcastMessage::Notice(String::from("x"));
    let line = render_now(&m);
    let b = line.as_bytes();
    assert_eq!(b.len(), "[HH:MM:SS] * x".len());
    assert_eq!(b[0], b'[');
    assert_eq!(b[3], b':');
    assert_eq!(b[6], b':');
    assert_eq!(b[9], b']');
    assert_eq!(&line[10..], " * x");
    for &(tens, ones, hi) in &[(1usize, 2usize, b'2'), (4, 5, b'5'), (7, 8, b'5')] {
        assert!(b[tens].is_ascii_digit());
        assert!(b[ones].is_ascii_digit());
        assert!(b[tens] <= hi);
    }
}
