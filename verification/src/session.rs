//! The per-connection session: handshake, read loop and teardown, as a
//! state machine from read events to registry and broadcast effects.
//!
//! The caller owns the transport. It feeds each read outcome in as a
//! `SessionEvent` and carries out the returned `StepEffects`: adding or
//! removing the registry record and enqueueing the broadcast event.
use vstd::prelude::*;
use crate::message::BroadcastMessage;
use crate::message::MessageView;
use crate::message::chat_count;
use crate::message::lemma_chat_count_add;
use crate::message::lemma_notice_count_add;
use crate::message::notice_count;
use crate::message::join_notice;
use crate::message::leave_notice;
use crate::registry::ClientRecord;
use crate::registry::PeerAddr;
use crate::registry::RecordView;
use crate::text::dec_rep;
use crate::text::trim;
use crate::text::trim_spec;
use crate::text::u16_to_dec;

verus! {

/// The display name synthesized for a blank handshake line:
/// `user-<port>` with the peer's port in decimal.
pub open spec fn synth_name(port: u16) -> Seq<char> {
    "user-"@ + dec_rep(port as nat)
}

/// The display name a handshake line yields: the line trimmed, or the
/// synthesized `user-<port>` when it trims to empty.
pub open spec fn normalize_spec(raw: Seq<char>, port: u16) -> Seq<char> {
    if trim_spec(raw).len() == 0 {
        synth_name(port)
    } else {
        trim_spec(raw)
    }
}

/// Turn the raw handshake line into the display name.
pub fn normalize_username(raw: &str, port: u16) -> (r: String)
    ensures
        r@ == normalize_spec(raw@, port),
{
    let t = trim(raw);
    if t.as_str().unicode_len() == 0 {
        let mut r = String::from_str("user-");
        let d = u16_to_dec(port);
        r.append(d.as_str());
        r
    } else {
        t
    }
}

/// Every display name is non-empty: a non-blank line keeps at least one
/// character, and the synthesized name starts with `user-`.
pub proof fn lemma_normalized_nonempty(raw: Seq<char>, port: u16)
    ensures
        normalize_spec(raw, port).len() > 0,
{
    if trim_spec(raw).len() == 0 {
        reveal_strlit("user-");
        assert(synth_name(port).len() >= 5);
    }
}

/// Whether a line still holds text once trimmed: only such lines are
/// relayed.
pub open spec fn nonblank(l: Seq<char>) -> bool {
    trim_spec(l).len() > 0
}

/// The chat events an active session named `name` emits for the lines
/// its client sends: one per non-blank line, in order, trimmed; blank
/// lines emit nothing.
pub open spec fn chat_events(name: Seq<char>, lines: Seq<Seq<char>>) -> Seq<MessageView>
    decreases lines.len(),
{
    if lines.len() == 0 {
        Seq::empty()
    } else {
        let rest = chat_events(name, lines.drop_last());
        if nonblank(lines.last()) {
            rest.push(
                (MessageView::Chat { username: name, content: trim_spec(lines.last()) }),
            )
        } else {
            rest
        }
    }
}

/// The full event log of one registered session: its join notice, its
/// chat events, and its leave notice.
pub open spec fn session_log(raw: Seq<char>, port: u16, lines: Seq<Seq<char>>) -> Seq<
    MessageView,
> {
    let name = normalize_spec(raw, port);
    seq![(MessageView::Notice { content: name + " joined the chat"@ })] + chat_events(
        name,
        lines,
    ) + seq![(MessageView::Notice { content: name + " left the chat"@ })]
}

/// Lines that trim to empty produce zero broadcast output: a session
/// whose client sends only blank lines emits no chat event at all.
pub proof fn lemma_blank_lines_silent(name: Seq<char>, lines: Seq<Seq<char>>)
    requires
        forall|i: int| 0 <= i < lines.len() ==> !nonblank(lines[i]),
    ensures
        chat_events(name, lines).len() == 0,
    decreases lines.len(),
{
    if lines.len() > 0 {
        assert(!nonblank(lines.last()));
        lemma_blank_lines_silent(name, lines.drop_last());
    }
}

/// Counting one session's log: a client that sends `m` non-blank lines
/// contributes exactly `m` chat events and two notices (one join, one
/// leave), `m + 2` events in all.
pub proof fn lemma_session_log_counts(raw: Seq<char>, port: u16, lines: Seq<Seq<char>>)
    requires
        forall|i: int| 0 <= i < lines.len() ==> nonblank(lines[i]),
    ensures
        session_log(raw, port, lines).len() == lines.len() + 2,
        chat_count(session_log(raw, port, lines)) == lines.len(),
        notice_count(session_log(raw, port, lines)) == 2,
{
    let name = normalize_spec(raw, port);
    let join = (MessageView::Notice { content: name + " joined the chat"@ });
    let leave = (MessageView::Notice { content: name + " left the chat"@ });
    let chats = chat_events(name, lines);
    lemma_chat_events_all_chats(name, lines);
    lemma_chat_count_add(seq![join], chats);
    lemma_chat_count_add(seq![join] + chats, seq![leave]);
    lemma_notice_count_add(seq![join], chats);
    lemma_notice_count_add(seq![join] + chats, seq![leave]);
    assert(seq![join].drop_last() =~= Seq::<MessageView>::empty());
    assert(chat_count(Seq::<MessageView>::empty()) == 0);
    assert(notice_count(Seq::<MessageView>::empty()) == 0);
    assert(seq![leave].drop_last() =~= Seq::<MessageView>::empty());
    assert(chat_count(seq![join]) == 0 && notice_count(seq![join]) == 1);
    assert(chat_count(seq![leave]) == 0 && notice_count(seq![leave]) == 1);
}

/// Every event a session's read loop emits is a chat event, one per
/// non-blank line.
proof fn lemma_chat_events_all_chats(name: Seq<char>, lines: Seq<Seq<char>>)
    requires
        forall|i: int| 0 <= i < lines.len() ==> nonblank(lines[i]),
    ensures
        chat_events(name, lines).len() == lines.len(),
        chat_count(chat_events(name, lines)) == lines.len(),
        notice_count(chat_events(name, lines)) == 0,
    decreases lines.len(),
{
    if lines.len() > 0 {
        assert(nonblank(lines.last()));
        lemma_chat_events_all_chats(name, lines.drop_last());
        let rest = chat_events(name, lines.drop_last());
        let full = chat_events(name, lines);
        assert(full.drop_last() =~= rest);
    }
}

/// Where a session stands: before the name line, relaying, or torn
/// down.
pub enum SessionState {
    AwaitingHandshake,
    Active { username: String },
    Closed,
}

/// One client connection's state: its phase, the peer address it is
/// keyed under, and the handle of the writable half handed to the
/// registry.
pub struct Session {
    pub state: SessionState,
    pub addr: PeerAddr,
    pub sink: u64,
}

/// One outcome of a blocking line read: a line arrived, or the
/// transport ended (end-of-stream or read error).
pub enum SessionEvent {
    Line(String),
    Disconnected,
}

/// What the caller must carry out after a step: register a record,
/// remove this session's record, and/or enqueue a broadcast event.
pub struct StepEffects {
    pub register: Option<ClientRecord>,
    pub deregister: bool,
    pub broadcast: Option<BroadcastMessage>,
}

impl Session {
    /// A session for a freshly accepted transport, before the prompt is
    /// answered.
    pub fn new(addr: PeerAddr, sink: u64) -> (r: Session)
        ensures
            r.state is AwaitingHandshake,
            r.addr == addr,
            r.sink == sink,
    {
        Session { state: SessionState::AwaitingHandshake, addr, sink }
    }

    /// Advance the session by one read outcome.
    ///
    /// Handshake: a line yields the normalized name, a registry record
    /// and a join notice; end-of-stream abandons silently. Active: a
    /// line that trims to empty is discarded without effect, any other
    /// line becomes a chat event; disconnection removes the record and
    /// yields a leave notice. A closed session never acts again.
    pub fn step(&mut self, event: SessionEvent) -> (fx: StepEffects)
        ensures
            final(self).addr == old(self).addr,
            final(self).sink == old(self).sink,
            (match old(self).state {
                SessionState::AwaitingHandshake => (match event {
                    SessionEvent::Line(l) => {
                        let name = normalize_spec(l@, old(self).addr.port);
                        &&& final(self).state matches SessionState::Active { username }
                            && username@ == name
                        &&& fx.register matches Some(rec) && rec@ == (RecordView {
                            username: name,
                            addr: old(self).addr,
                            sink: old(self).sink,
                        })
                        &&& fx.deregister == false
                        &&& fx.broadcast matches Some(m) && m@ == (MessageView::Notice {
                            content: name + " joined the chat"@,
                        })
                    },
                    SessionEvent::Disconnected => {
                        &&& final(self).state is Closed
                        &&& fx.register is None
                        &&& fx.deregister == false
                        &&& fx.broadcast is None
                    },
                }),
                SessionState::Active { username } => (match event {
                    SessionEvent::Line(l) => {
                        if trim_spec(l@).len() == 0 {
                            &&& *final(self) == *old(self)
                            &&& fx.register is None
                            &&& fx.deregister == false
                            &&& fx.broadcast is None
                        } else {
                            &&& *final(self) == *old(self)
                            &&& fx.register is None
                            &&& fx.deregister == false
                            &&& fx.broadcast matches Some(m) && m@ == (MessageView::Chat {
                                username: username@,
                                content: trim_spec(l@),
                            })
                        }
                    },
                    SessionEvent::Disconnected => {
                        &&& final(self).state is Closed
                        &&& fx.register is None
                        &&& fx.deregister == true
                        &&& fx.broadcast matches Some(m) && m@ == (MessageView::Notice {
                            content: username@ + " left the chat"@,
                        })
                    },
                }),
                SessionState::Closed => {
                    &&& *final(self) == *old(self)
                    &&& fx.register is None
                    &&& fx.deregister == false
                    &&& fx.broadcast is None
                },
            }),
    {
        match &self.state {
            SessionState::AwaitingHandshake => match event {
                SessionEvent::Line(l) => {
                    let name = normalize_username(l.as_str(), self.addr.port);
                    let rec = ClientRecord {
                        username: name.clone(),
                        addr: self.addr,
                        sink: self.sink,
                    };
                    let notice = join_notice(name.as_str());
                    self.state = SessionState::Active { username: name };
                    StepEffects { register: Some(rec), deregister: false, broadcast: Some(notice) }
                },
                SessionEvent::Disconnected => {
                    self.state = SessionState::Closed;
                    StepEffects { register: None, deregister: false, broadcast: None }
                },
            },
            SessionState::Active { username } => match event {
                SessionEvent::Line(l) => {
                    let t = trim(l.as_str());
                    if t.as_str().unicode_len() == 0 {
                        StepEffects { register: None, deregister: false, broadcast: None }
                    } else {
                        let chat = BroadcastMessage::Chat { username: username.clone(), content: t };
                        StepEffects { register: None, deregister: false, broadcast: Some(chat) }
                    }
                },
                SessionEvent::Disconnected => {
                    let name = username.clone();
                    let notice = leave_notice(name.as_str());
                    self.state = SessionState::Closed;
                    StepEffects { register: None, deregister: true, broadcast: Some(notice) }
                },
            },
            SessionState::Closed => {
                StepEffects { register: None, deregister: false, broadcast: None }
            },
        }
    }
}

/// The broadcast events one whole session emits, given the transcript
/// of its reads: the name line, then each chat line, then
/// end-of-stream. The machine emits exactly its event log: the join
/// notice, one chat event per non-blank line in order, the leave
/// notice — whatever the lines hold.
pub fn session_transcript(
    addr: PeerAddr,
    sink: u64,
    name_line: String,
    lines: Vec<String>,
) -> (out: Vec<BroadcastMessage>)
    ensures
        out@.map_values(|m: BroadcastMessage| m@) =~= session_log(
            name_line@,
            addr.port,
            lines@.map_values(|l: String| l@),
        ),
{
    let ghost name = normalize_spec(name_line@, addr.port);
    let ghost ls = lines@.map_values(|l: String| l@);
    let ghost join = (MessageView::Notice { content: name + " joined the chat"@ });
    let ghost leave = (MessageView::Notice { content: name + " left the chat"@ });

    let mut out: Vec<BroadcastMessage> = Vec::new();
    let mut session = Session::new(addr, sink);

    let fx = session.step(SessionEvent::Line(name_line));
    match fx.broadcast {
        Some(m) => {
            out.push(m);
        },
        None => {
            proof {
                assert(false);
            }
        },
    }
    proof {
        assert(out@.map_values(|m: BroadcastMessage| m@) =~= seq![join]);
    }

    let n = lines.len();
    let mut i: usize = 0;
    while i < n
        invariant
            n == lines@.len(),
            0 <= i <= n,
            ls == lines@.map_values(|l: String| l@),
            name == normalize_spec(name_line@, addr.port),
            join == (MessageView::Notice { content: name + " joined the chat"@ }),
            session.state matches SessionState::Active { username } && username@ == name,
            session.addr == addr,
            session.sink == sink,
            out@.map_values(|m: BroadcastMessage| m@) =~= seq![join] + chat_events(
                name,
                ls.take(i as int),
            ),
        decreases n - i,
    {
        let l = lines[i].clone();
        proof {
            assert(l@ == ls[i as int]);
            assert(ls.take(i as int + 1).drop_last() =~= ls.take(i as int));
            assert(ls.take(i as int + 1).last() == ls[i as int]);
        }
        let ghost prev = out@.map_values(|m: BroadcastMessage| m@);
        let fx = session.step(SessionEvent::Line(l));
        match fx.broadcast {
            Some(m) => {
                out.push(m);
                proof {
                    assert(out@.map_values(|m2: BroadcastMessage| m2@) =~= prev.push(m@));
                }
            },
            None => {},
        }
        i = i + 1;
    }
    proof {
        assert(ls.take(n as int) =~= ls);
    }

    let ghost prev = out@.map_values(|m: BroadcastMessage| m@);
    let fx = session.step(SessionEvent::Disconnected);
    match fx.broadcast {
        Some(m) => {
            out.push(m);
            proof {
                assert(out@.map_values(|m2: BroadcastMessage| m2@) =~= prev.push(m@));
                assert(prev.push(m@) =~= seq![join] + chat_events(name, ls) + seq![leave]);
            }
        },
        None => {
            proof {
                assert(false);
            }
        },
    }
    out
}

} // verus!
