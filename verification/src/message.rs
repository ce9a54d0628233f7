//! Broadcast events and their rendering into the wire format
//! `[HH:MM:SS] <name>: <content>` / `[HH:MM:SS] * <content>`.
use vstd::prelude::*;
use crate::text::two_dec;
use crate::text::u8_to_two_dec;

verus! {

/// One event consumed by the dispatcher: a user-authored chat line or a
/// system-generated notice.
#[derive(Debug)]
pub enum BroadcastMessage {
    Chat { username: String, content: String },
    Notice(String),
}

impl Clone for BroadcastMessage {
    fn clone(&self) -> (r: Self)
        ensures
            r@ == self@,
    {
        match self {
            BroadcastMessage::Chat { username, content } => BroadcastMessage::Chat {
                username: username.clone(),
                content: content.clone(),
            },
            BroadcastMessage::Notice(content) => BroadcastMessage::Notice(content.clone()),
        }
    }
}

/// The mathematical model of a `BroadcastMessage`: its text fields as
/// character sequences.
pub enum MessageView {
    Chat { username: Seq<char>, content: Seq<char> },
    Notice { content: Seq<char> },
}

impl View for BroadcastMessage {
    type V = MessageView;

    open spec fn view(&self) -> MessageView {
        match self {
            BroadcastMessage::Chat { username, content } => (MessageView::Chat {
                username: username@,
                content: content@,
            }),
            BroadcastMessage::Notice(content) => (MessageView::Notice { content: content@ }),
        }
    }
}

impl MessageView {
    pub open spec fn is_chat(self) -> bool {
        self is Chat
    }

    pub open spec fn is_notice(self) -> bool {
        self is Notice
    }
}

/// How many of the events are user-authored chat lines.
pub open spec fn chat_count(events: Seq<MessageView>) -> nat
    decreases events.len(),
{
    if events.len() == 0 {
        0
    } else {
        chat_count(events.drop_last()) + if events.last() is Chat {
            1nat
        } else {
            0nat
        }
    }
}

/// How many of the events are system notices.
pub open spec fn notice_count(events: Seq<MessageView>) -> nat
    decreases events.len(),
{
    if events.len() == 0 {
        0
    } else {
        notice_count(events.drop_last()) + if events.last() is Notice {
            1nat
        } else {
            0nat
        }
    }
}

/// Every event is a chat or a notice: the two counts partition a run
/// of events.
pub proof fn lemma_chat_notice_partition(events: Seq<MessageView>)
    ensures
        chat_count(events) + notice_count(events) == events.len(),
    decreases events.len(),
{
    if events.len() > 0 {
        lemma_chat_notice_partition(events.drop_last());
    }
}

/// Chat counts add over concatenation of event runs.
pub proof fn lemma_chat_count_add(a: Seq<MessageView>, b: Seq<MessageView>)
    ensures
        chat_count(a + b) == chat_count(a) + chat_count(b),
    decreases b.len(),
{
    if b.len() == 0 {
        assert(a + b =~= a);
    } else {
        assert((a + b).drop_last() =~= a + b.drop_last());
        assert((a + b).last() == b.last());
        lemma_chat_count_add(a, b.drop_last());
    }
}

/// Notice counts add over concatenation of event runs.
pub proof fn lemma_notice_count_add(a: Seq<MessageView>, b: Seq<MessageView>)
    ensures
        notice_count(a + b) == notice_count(a) + notice_count(b),
    decreases b.len(),
{
    if b.len() == 0 {
        assert(a + b =~= a);
    } else {
        assert((a + b).drop_last() =~= a + b.drop_last());
        assert((a + b).last() == b.last());
        lemma_notice_count_add(a, b.drop_last());
    }
}

/// The `[HH:MM:SS] ` prefix of every broadcast line.
pub open spec fn timestamp_spec(h: u8, mi: u8, s: u8) -> Seq<char> {
    seq!['['] + two_dec(h as nat) + seq![':'] + two_dec(mi as nat) + seq![':'] + two_dec(
        s as nat,
    ) + seq![']', ' ']
}

/// The full broadcast line for an event at clock time `h:mi:s`, without
/// the trailing newline.
pub open spec fn render_spec(m: MessageView, h: u8, mi: u8, s: u8) -> Seq<char> {
    timestamp_spec(h, mi, s) + match m {
        MessageView::Chat { username, content } => username + seq![':', ' '] + content,
        MessageView::Notice { content } => seq!['*', ' '] + content,
    }
}

/// Render an event into the line the dispatcher writes to every client.
pub fn render(m: &BroadcastMessage, h: u8, mi: u8, s: u8) -> (r: String)
    requires
        h < 24,
        mi < 60,
        s < 60,
    ensures
        r@ == render_spec(m@, h, mi, s),
{
    let mut out = String::from_str("[");
    let hh = u8_to_two_dec(h);
    out.append(hh.as_str());
    out.append(":");
    let mm = u8_to_two_dec(mi);
    out.append(mm.as_str());
    out.append(":");
    let ss = u8_to_two_dec(s);
    out.append(ss.as_str());
    out.append("] ");
    match m {
        BroadcastMessage::Chat { username, content } => {
            out.append(username.as_str());
            out.append(": ");
            out.append(content.as_str());
        },
        BroadcastMessage::Notice(content) => {
            out.append("* ");
            out.append(content.as_str());
        },
    }
    proof {
        reveal_strlit("[");
        reveal_strlit(":");
        reveal_strlit("] ");
        reveal_strlit(": ");
        reveal_strlit("* ");
        assert(out@ =~= render_spec(m@, h, mi, s));
    }
    out
}

/// The notice announcing that `name` joined.
pub fn join_notice(name: &str) -> (r: BroadcastMessage)
    ensures
        r@ == (MessageView::Notice { content: name@ + " joined the chat"@ }),
{
    let mut c = String::from_str(name);
    c.append(" joined the chat");
    BroadcastMessage::Notice(c)
}

/// The notice announcing that `name` left.
pub fn leave_notice(name: &str) -> (r: BroadcastMessage)
    ensures
        r@ == (MessageView::Notice { content: name@ + " left the chat"@ }),
{
    let mut c = String::from_str(name);
    c.append(" left the chat");
    BroadcastMessage::Notice(c)
}

} // verus!
