//! The two-client walkthrough: alice and bob connect, alice greets,
//! bob disconnects. The transport is played by the test; the library
//! drives every decision.
use chat_relay::message::{render, BroadcastMessage};
use chat_relay::registry::{PeerAddr, Registry};
use chat_relay::session::{Session, SessionEvent};

fn apply(fx: chat_relay::session::StepEffects, reg: &mut Registry, queue: &mut Vec<BroadcastMessage>) {
    if let Some(rec) = fx.register {
        if !reg.contains_addr(rec.addr) {
            reg.add(rec);
        }
    }
    if let Some(m) = fx.broadcast {
        queue.push(m);
    }
}

#[test]
fn alice_and_bob_walkthrough() {
    let mut reg = Registry::new();
    let mut queue: Vec<BroadcastMessage> = Vec::new();

    let alice_addr = PeerAddr { ip: 1, port: 50001 };
    let bob_addr = PeerAddr { ip: 2, port: 50002 };
    let mut alice = Session::new(alice_addr, 1);
    let mut bob = Session::new(bob_addr, 2);

    apply(alice.step(SessionEvent::Line(String::from("alice\n"))), &mut reg, &mut queue);
    apply(bob.step(SessionEvent::Line(String::from("bob\n"))), &mut reg, &mut queue);
    assert_eq!(reg.len(), 2);

    // alice sends `hello`: one pass writes the same line to both sinks
    apply(alice.step(SessionEvent::Line(String::from("hello\n"))), &mut reg, &mut queue);
    let chat = queue.last().expect("a chat event was enqueued");
    let line = render(chat, 9, 30, 0);
    assert_eq!(line, "[09:30:00] alice: hello");
    assert_eq!(reg.pass_targets(), vec![1, 2]);

    // bob disconnects: his record goes, alice is told
    let fx = bob.step(SessionEvent::Disconnected);
    assert!(fx.deregister);
    reg.remove_by_addr(bob_addr);
    apply(
        chat_relay::session::StepEffects { register: None, deregister: false, broadcast: fx.broadcast },
        &mut reg,
        &mut queue,
    );
    let leave = queue.last().expect("a leave notice was enqueued");
    assert_eq!(render(leave, 9, 30, 5), "[09:30:05] * bob left the chat");
    assert_eq!(reg.len(), 1);
    assert_eq!(reg.record_at(0).username, "alice");
    assert_eq!(reg.pass_targets(), vec![1]);

    // the full queue, in dispatcher order
    let rendered: Vec<String> = queue.iter().map(|m| render(m, 9, 30, 0)).collect();
    assert_eq!(
        rendered,
        vec![
            String::from("[09:30:00] * alice joined the chat"),
            String::from("[09:30:00] * bob joined the chat"),
            String::from("[09:30:00] alice: hello"),
            String::from("[09:30:00] * bob left the chat"),
        ]
    );
}

#[test]
fn handshake_prompt_is_the_wire_literal() {
    assert_eq!(chat_relay::handshake_prompt(), "Enter username: ");
}
