//! The broadcast dispatcher's per-event work, and the delivery model
//! of a whole run: one FIFO queue of events, each rendered once with
//! the clock at dispatch time and written to every client registered
//! at that pass.
use vstd::prelude::*;
use crate::clock::local_hms;
use crate::message::BroadcastMessage;
use crate::message::MessageView;
use crate::message::chat_count;
use crate::message::lemma_chat_count_add;
use crate::message::lemma_chat_notice_partition;
use crate::message::lemma_notice_count_add;
use crate::message::notice_count;
use crate::message::render;
use crate::message::render_spec;
use crate::registry::RecordView;

verus! {

/// Format one event with the local wall-clock time at dispatch time.
/// Whatever the clock returned, the line is the exact rendering of the
/// event at some valid time of day.
pub fn render_now(m: &BroadcastMessage) -> (r: String)
    ensures
        exists|h: u8, mi: u8, s: u8|
            h < 24 && mi < 60 && s < 60 && r@ == render_spec(m@, h, mi, s),
{
    let (h, mi, s) = local_hms();
    let r = render(m, h, mi, s);
    proof {
        assert(h < 24 && mi < 60 && s < 60 && r@ == render_spec(m@, h, mi, s));
    }
    r
}

/// Whether a registry snapshot holds a client writing to `sink`.
pub open spec fn has_sink(r: Seq<RecordView>, sink: u64) -> bool {
    exists|i: int| 0 <= i < r.len() && r[i].sink == sink
}

/// The lines a run of events renders to, one per event, in queue
/// order, with the clock read at each dispatch.
pub open spec fn deliveries(events: Seq<MessageView>, times: Seq<(u8, u8, u8)>) -> Seq<
    Seq<char>,
>
    recommends
        times.len() == events.len(),
{
    Seq::new(
        events.len(),
        |i: int| render_spec(events[i], times[i].0, times[i].1, times[i].2),
    )
}

/// The lines one output handle has received after the first `n`
/// passes: pass `i` writes its line to exactly the clients registered
/// at pass `i` (snapshot `regs[i]`), in pass order.
pub open spec fn received_upto(
    events: Seq<MessageView>,
    times: Seq<(u8, u8, u8)>,
    regs: Seq<Seq<RecordView>>,
    sink: u64,
    n: int,
) -> Seq<Seq<char>>
    decreases n,
{
    if n <= 0 {
        Seq::empty()
    } else {
        let prev = received_upto(events, times, regs, sink, n - 1);
        if has_sink(regs[n - 1], sink) {
            prev.push(
                render_spec(events[n - 1], times[n - 1].0, times[n - 1].1, times[n - 1].2),
            )
        } else {
            prev
        }
    }
}

/// All the lines one output handle receives over a whole run.
pub open spec fn received(
    events: Seq<MessageView>,
    times: Seq<(u8, u8, u8)>,
    regs: Seq<Seq<RecordView>>,
    sink: u64,
) -> Seq<Seq<char>> {
    received_upto(events, times, regs, sink, events.len() as int)
}

proof fn lemma_received_upto_full(
    events: Seq<MessageView>,
    times: Seq<(u8, u8, u8)>,
    regs: Seq<Seq<RecordView>>,
    sink: u64,
    n: int,
)
    requires
        0 <= n <= events.len(),
        regs.len() == events.len(),
        forall|i: int| 0 <= i < n ==> has_sink(#[trigger] regs[i], sink),
    ensures
        received_upto(events, times, regs, sink, n) =~= deliveries(events, times).subrange(
            0,
            n,
        ),
    decreases n,
{
    if n > 0 {
        lemma_received_upto_full(events, times, regs, sink, n - 1);
    }
}

/// A client registered for every pass of a run receives every
/// dispatched line, in dispatch order.
pub proof fn lemma_full_member_receives_all(
    events: Seq<MessageView>,
    times: Seq<(u8, u8, u8)>,
    regs: Seq<Seq<RecordView>>,
    sink: u64,
)
    requires
        regs.len() == events.len(),
        forall|i: int| 0 <= i < regs.len() ==> has_sink(#[trigger] regs[i], sink),
    ensures
        received(events, times, regs, sink) == deliveries(events, times),
{
    lemma_received_upto_full(events, times, regs, sink, events.len() as int);
    assert(deliveries(events, times).subrange(0, events.len() as int) =~= deliveries(
        events,
        times,
    ));
}

/// Any two clients registered throughout a run receive identical
/// sequences of lines: the fan-out is uniform.
pub proof fn lemma_fanout_identical(
    events: Seq<MessageView>,
    times: Seq<(u8, u8, u8)>,
    regs: Seq<Seq<RecordView>>,
    sink_a: u64,
    sink_b: u64,
)
    requires
        regs.len() == events.len(),
        forall|i: int| 0 <= i < regs.len() ==> has_sink(#[trigger] regs[i], sink_a),
        forall|i: int| 0 <= i < regs.len() ==> has_sink(#[trigger] regs[i], sink_b),
    ensures
        received(events, times, regs, sink_a) == received(events, times, regs, sink_b),
{
    lemma_full_member_receives_all(events, times, regs, sink_a);
    lemma_full_member_receives_all(events, times, regs, sink_b);
}

/// One client's outcome never costs another a message: whoever is
/// registered at pass `i` receives pass `i`'s line, whatever happened
/// to any other client's write at that pass or earlier.
pub proof fn lemma_pass_delivery_independent(
    events: Seq<MessageView>,
    times: Seq<(u8, u8, u8)>,
    regs: Seq<Seq<RecordView>>,
    sink: u64,
    i: int,
    n: int,
)
    requires
        0 <= i < n <= events.len(),
        regs.len() == events.len(),
        has_sink(regs[i], sink),
    ensures
        received_upto(events, times, regs, sink, n).contains(
            render_spec(events[i], times[i].0, times[i].1, times[i].2),
        ),
    decreases n,
{
    let line = render_spec(events[i], times[i].0, times[i].1, times[i].2);
    if n == i + 1 {
        let out = received_upto(events, times, regs, sink, n);
        assert(out.last() == line);
    } else {
        lemma_pass_delivery_independent(events, times, regs, sink, i, n - 1);
        let prev = received_upto(events, times, regs, sink, n - 1);
        let w = choose|w: int| 0 <= w < prev.len() && prev[w] == line;
        if has_sink(regs[n - 1], sink) {
            assert(received_upto(events, times, regs, sink, n)[w] == line);
        }
    }
}

/// N sessions, each emitting `m` chat events and two notices, feed the
/// dispatcher `n*m` chats and `2*n` notices in all (shown here for the
/// arrival order that concatenates the sessions' logs).
pub proof fn lemma_run_counts(logs: Seq<Seq<MessageView>>, m: nat)
    requires
        forall|i: int|
            0 <= i < logs.len() ==> chat_count(#[trigger] logs[i]) == m && notice_count(
                logs[i],
            ) == 2,
    ensures
        chat_count(logs.flatten()) == logs.len() * m,
        notice_count(logs.flatten()) == 2 * logs.len(),
    decreases logs.len(),
{
    broadcast use vstd::prelude::Seq::lemma_flatten_push;

    if logs.len() == 0 {
        assert(logs.flatten() =~= Seq::<MessageView>::empty());
        assert(logs.len() * m == 0) by (nonlinear_arith)
            requires
                logs.len() == 0,
        ;
    } else {
        let front = logs.drop_last();
        assert forall|i: int|
            0 <= i < front.len() implies chat_count(#[trigger] front[i]) == m && notice_count(
            front[i],
        ) == 2 by {
            assert(front[i] == logs[i]);
        }
        lemma_run_counts(front, m);
        assert(front.push(logs.last()) =~= logs);
        assert(logs.flatten() == front.flatten() + logs.last());
        lemma_chat_count_add(front.flatten(), logs.last());
        lemma_notice_count_add(front.flatten(), logs.last());
        assert(front.len() * m + m == logs.len() * m) by (nonlinear_arith)
            requires
                front.len() + 1 == logs.len(),
        ;
    }
}

/// The whole fan-out property in one statement: when the dispatcher's
/// queue holds `n*m` chat events and `2*n` notices, every client
/// registered throughout receives exactly `n*m + 2*n` lines — the
/// same lines in the same order as every other such client.
pub proof fn lemma_fanout_counts(
    events: Seq<MessageView>,
    times: Seq<(u8, u8, u8)>,
    regs: Seq<Seq<RecordView>>,
    sink: u64,
    n: nat,
    m: nat,
)
    requires
        regs.len() == events.len(),
        times.len() == events.len(),
        forall|i: int| 0 <= i < regs.len() ==> has_sink(#[trigger] regs[i], sink),
        chat_count(events) == n * m,
        notice_count(events) == 2 * n,
    ensures
        received(events, times, regs, sink) == deliveries(events, times),
        received(events, times, regs, sink).len() == n * m + 2 * n,
{
    lemma_full_member_receives_all(events, times, regs, sink);
    lemma_chat_notice_partition(events);
}

} // verus!
