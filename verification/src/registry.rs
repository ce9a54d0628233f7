//! The shared client registry: the collection of currently connected,
//! named clients and their output handles, keyed by peer address.
//!
//! The callers hold the registry behind one mutual-exclusion lock; the
//! operations here are the work done under that lock.
use vstd::prelude::*;

verus! {

/// Transport-level peer identity: the registry key. Held as plain
/// numbers so that contracts can compare addresses directly.
#[derive(Debug, Clone, Copy, PartialEq, Eq, Structural)]
pub struct PeerAddr {
    pub ip: u128,
    pub port: u16,
}

/// One connected, registered client: its display name, its peer
/// address, and the handle under which the caller holds the writable
/// half of its transport.
#[derive(Debug)]
pub struct ClientRecord {
    pub username: String,
    pub addr: PeerAddr,
    pub sink: u64,
}

/// The mathematical model of a `ClientRecord`.
pub struct RecordView {
    pub username: Seq<char>,
    pub addr: PeerAddr,
    pub sink: u64,
}

impl View for ClientRecord {
    type V = RecordView;

    open spec fn view(&self) -> RecordView {
        RecordView { username: self.username@, addr: self.addr, sink: self.sink }
    }
}

impl Clone for ClientRecord {
    fn clone(&self) -> (r: Self)
        ensures
            r@ == self@,
    {
        ClientRecord { username: self.username.clone(), addr: self.addr, sink: self.sink }
    }
}

/// Whether some record in `s` carries the address `addr`.
pub open spec fn has_addr(s: Seq<RecordView>, addr: PeerAddr) -> bool {
    exists|i: int| 0 <= i < s.len() && s[i].addr == addr
}

/// The records of `s` whose position in `s` is not listed in `marked`.
pub open spec fn keep_unmarked(s: Seq<RecordView>, marked: Seq<usize>) -> Seq<RecordView>
    decreases s.len(),
{
    if s.len() == 0 {
        s
    } else {
        let prefix = keep_unmarked(s.drop_last(), marked);
        if marked.contains((s.len() - 1) as usize) {
            prefix
        } else {
            prefix.push(s.last())
        }
    }
}

/// The shared collection of active clients.
pub struct Registry {
    clients: Vec<ClientRecord>,
}

impl View for Registry {
    type V = Seq<RecordView>;

    closed spec fn view(&self) -> Seq<RecordView> {
        self.clients@.map_values(|c: ClientRecord| c@)
    }
}

impl Registry {
    /// At any instant the registry holds at most one record per peer
    /// address.
    pub open spec fn wf(self) -> bool {
        forall|i: int, j: int|
            0 <= i < j < self@.len() ==> self@[i].addr != self@[j].addr
    }

    /// An empty registry.
    pub fn new() -> (r: Registry)
        ensures
            r@ =~= Seq::<RecordView>::empty(),
            r.wf(),
    {
        Registry { clients: Vec::new() }
    }

    /// How many clients are registered.
    pub fn len(&self) -> (r: usize)
        ensures
            r == self@.len(),
    {
        self.clients.len()
    }

    /// The record at position `i`, for inspection.
    pub fn record_at(&self, i: usize) -> (r: &ClientRecord)
        requires
            i < self@.len(),
        ensures
            r@ == self@[i as int],
    {
        &self.clients[i]
    }

    /// Whether a client with address `addr` is registered.
    pub fn contains_addr(&self, addr: PeerAddr) -> (r: bool)
        ensures
            r == has_addr(self@, addr),
    {
        let n = self.clients.len();
        let mut i: usize = 0;
        while i < n
            invariant
                n == self@.len(),
                0 <= i <= n,
                forall|k: int| 0 <= k < i ==> self@[k].addr != addr,
            decreases n - i,
        {
            if self.clients[i].addr == addr {
                proof {
                    assert(self@[i as int].addr == addr);
                }
                return true;
            }
            i = i + 1;
        }
        false
    }

    /// Append a freshly handshaken client. Address uniqueness is by
    /// construction: a live connection registers once.
    pub fn add(&mut self, rec: ClientRecord)
        requires
            old(self).wf(),
            !has_addr(old(self)@, rec.addr),
        ensures
            final(self)@ =~= old(self)@.push(rec@),
            final(self).wf(),
    {
        let ghost prev = self@;
        self.clients.push(rec);
        proof {
            assert(self@ =~= prev.push(rec@));
            assert forall|i: int, j: int|
                0 <= i < j < self@.len() implies self@[i].addr != self@[j].addr by {
                assert(self@[i] == prev[i]);
                if j == self@.len() - 1 {
                    assert(self@[j] == rec@);
                    assert(!(0 <= i < prev.len() && prev[i].addr == rec.addr));
                } else {
                    assert(self@[j] == prev[j]);
                }
            }
        }
    }

    /// Delete the record (zero or one) registered under `addr`. What
    /// remains is exactly the records of other addresses, in order; a
    /// later broadcast pass therefore never targets `addr` again, and a
    /// second removal of the same address changes nothing.
    pub fn remove_by_addr(&mut self, addr: PeerAddr)
        requires
            old(self).wf(),
        ensures
            final(self)@ =~= old(self)@.filter(|c: RecordView| c.addr != addr),
            final(self).wf(),
            !has_addr(final(self)@, addr),
            final(self)@.len() == if has_addr(old(self)@, addr) {
                old(self)@.len() - 1
            } else {
                old(self)@.len() as int
            },
            !has_addr(old(self)@, addr) ==> final(self)@ =~= old(self)@,
    {
        broadcast use vstd::prelude::Seq::lemma_filter_push;

        let ghost pred = |c: RecordView| c.addr != addr;
        let n = self.clients.len();
        let mut out: Vec<ClientRecord> = Vec::new();
        let mut i: usize = 0;
        while i < n
            invariant
                n == self.clients@.len(),
                0 <= i <= n,
                self == old(self),
                old(self).wf(),
                pred == (|c: RecordView| c.addr != addr),
                out@.map_values(|c: ClientRecord| c@) =~= self@.subrange(0, i as int).filter(
                    pred,
                ),
            decreases n - i,
        {
            proof {
                let sub1 = self@.subrange(0, i as int + 1);
                let sub0 = self@.subrange(0, i as int);
                assert(sub1 =~= sub0.push(self@[i as int]));
                sub0.lemma_filter_push(self@[i as int], pred);
            }
            if !(self.clients[i].addr == addr) {
                let rec = self.clients[i].clone();
                let ghost prev_out = out@.map_values(|c: ClientRecord| c@);
                proof {
                    assert(rec@ == self@[i as int]);
                    assert(pred(self@[i as int]));
                }
                out.push(rec);
                proof {
                    assert(out@.map_values(|c: ClientRecord| c@) =~= prev_out.push(rec@));
                }
            } else {
                proof {
                    assert(!pred(self@[i as int]));
                }
            }
            i = i + 1;
        }
        proof {
            assert(self@.subrange(0, n as int) =~= self@);
        }
        self.clients = out;
        proof {
            let filtered = old(self)@.filter(pred);
            assert forall|i: int, j: int|
                0 <= i < j < filtered.len() implies filtered[i].addr != filtered[j].addr by {
                lemma_filter_keeps_distinct_addrs(old(self)@, pred, i, j);
            }
            assert forall|i: int| 0 <= i < filtered.len() implies filtered[i].addr != addr by {
                vstd::prelude::Seq::lemma_filter_pred(old(self)@, pred, i);
            }
            lemma_filter_out_addr_len(old(self)@, addr);
            if !has_addr(old(self)@, addr) {
                assert forall|k: int| 0 <= k < old(self)@.len() implies pred(
                    old(self)@[k],
                ) by {
                    assert(old(self)@[k].addr != addr);
                }
                lemma_filter_all_pass(old(self)@, pred);
            }
        }
    }

    /// The output handles of all registered clients, in registry order:
    /// the write targets of one broadcast pass. Every currently
    /// registered client is targeted; no other handle is.
    pub fn pass_targets(&self) -> (r: Vec<u64>)
        ensures
            r@ =~= self@.map_values(|c: RecordView| c.sink),
    {
        let n = self.clients.len();
        let mut r: Vec<u64> = Vec::new();
        let mut i: usize = 0;
        while i < n
            invariant
                n == self@.len(),
                0 <= i <= n,
                r@.len() == i,
                forall|k: int| 0 <= k < i ==> r@[k] == self@[k].sink,
            decreases n - i,
        {
            r.push(self.clients[i].sink);
            i = i + 1;
        }
        r
    }

    /// After a broadcast pass, delete the clients whose write or flush
    /// failed, given by their positions in this registry, in one sweep.
    /// Every client not marked stays, in order: one client's failure
    /// never costs another its registration.
    pub fn prune_failed(&mut self, failed: &Vec<usize>)
        requires
            old(self).wf(),
            forall|k: int, l: int| 0 <= k < l < failed@.len() ==> failed@[k] < failed@[l],
            forall|k: int| 0 <= k < failed@.len() ==> failed@[k] < old(self)@.len(),
        ensures
            final(self)@ =~= keep_unmarked(old(self)@, failed@),
            final(self).wf(),
            forall|k: int|
                0 <= k < old(self)@.len() && !failed@.contains(k as usize) ==> final(self)@.contains(old(self)@[k]),
    {
        let n = self.clients.len();
        let mut out: Vec<ClientRecord> = Vec::new();
        let mut f: usize = 0;
        let mut i: usize = 0;
        while i < n
            invariant
                n == self.clients@.len(),
                0 <= i <= n,
                0 <= f <= failed@.len(),
                self == old(self),
                forall|k: int, l: int| 0 <= k < l < failed@.len() ==> failed@[k] < failed@[l],
                forall|k: int| 0 <= k < failed@.len() ==> failed@[k] < n,
                forall|k: int| 0 <= k < f ==> failed@[k] < i,
                forall|k: int| f <= k < failed@.len() ==> failed@[k] >= i,
                out@.map_values(|c: ClientRecord| c@) =~= keep_unmarked(
                    self@.subrange(0, i as int),
                    failed@,
                ),
            decreases n - i,
        {
            proof {
                assert(self@.subrange(0, i + 1 as int).drop_last() =~= self@.subrange(
                    0,
                    i as int,
                ));
                assert(self@.subrange(0, i + 1 as int).last() == self@[i as int]);
            }
            let marked_here = f < failed.len() && failed[f] == i;
            proof {
                if marked_here {
                    assert(failed@.contains(i as usize));
                } else {
                    assert forall|k: int| 0 <= k < failed@.len() implies failed@[k]
                        != i as usize by {
                        if k < f {
                        } else if f < failed@.len() && k > f {
                            assert(failed@[f as int] < failed@[k]);
                        }
                    }
                    assert(!failed@.contains(i as usize));
                }
            }
            if marked_here {
                f = f + 1;
            } else {
                let rec = self.clients[i].clone();
                let ghost prev_out = out@.map_values(|c: ClientRecord| c@);
                proof {
                    assert(rec@ == self@[i as int]);
                }
                out.push(rec);
                proof {
                    assert(out@.map_values(|c: ClientRecord| c@) =~= prev_out.push(rec@));
                }
            }
            i = i + 1;
        }
        proof {
            assert(self@.subrange(0, n as int) =~= self@);
        }
        self.clients = out;
        proof {
            lemma_keep_unmarked_shape(old(self)@, failed@);
            assert forall|k: int|
                0 <= k < old(self)@.len() && !failed@.contains(k as usize) implies final(self)@.contains(old(self)@[k]) by {
                lemma_keep_unmarked_contains(old(self)@, failed@, k);
            }
        }
    }
}

/// Filtering deletes nothing from a sequence whose every record passes
/// the test.
proof fn lemma_filter_all_pass(s: Seq<RecordView>, pred: spec_fn(RecordView) -> bool)
    requires
        forall|k: int| 0 <= k < s.len() ==> pred(#[trigger] s[k]),
    ensures
        s.filter(pred) =~= s,
    decreases s.len(),
{
    reveal(Seq::filter);
    if s.len() > 0 {
        let t = s.drop_last();
        assert forall|k: int| 0 <= k < t.len() implies pred(#[trigger] t[k]) by {
            assert(t[k] == s[k]);
        }
        lemma_filter_all_pass(t, pred);
    }
}

/// Two distinct positions of a filtered sequence come from two distinct
/// positions of the sequence it was filtered from, so distinct
/// addresses are preserved.
proof fn lemma_filter_keeps_distinct_addrs(
    s: Seq<RecordView>,
    pred: spec_fn(RecordView) -> bool,
    i: int,
    j: int,
)
    requires
        forall|k: int, l: int| 0 <= k < l < s.len() ==> s[k].addr != s[l].addr,
        0 <= i < j < s.filter(pred).len(),
    ensures
        s.filter(pred)[i] != s.filter(pred)[j],
        s.filter(pred)[i].addr != s.filter(pred)[j].addr,
    decreases s.len(),
{
    reveal(Seq::filter);
    broadcast use vstd::prelude::Seq::lemma_filter_len;

    let t = s.drop_last();
    if pred(s.last()) && j == s.filter(pred).len() - 1 {
        let fi = s.filter(pred)[i];
        assert(fi == t.filter(pred)[i]);
        lemma_filter_member_of(t, pred, i);
        let w = choose|w: int| 0 <= w < t.len() && t[w] == fi;
        assert(s[w].addr != s[s.len() - 1].addr);
    } else {
        lemma_filter_keeps_distinct_addrs(t, pred, i, j);
    }
}

/// Every member of a filtered sequence stands somewhere in the
/// sequence it was filtered from.
proof fn lemma_filter_member_of(s: Seq<RecordView>, pred: spec_fn(RecordView) -> bool, i: int)
    requires
        0 <= i < s.filter(pred).len(),
    ensures
        exists|w: int| 0 <= w < s.len() && s[w] == s.filter(pred)[i],
    decreases s.len(),
{
    reveal(Seq::filter);
    broadcast use vstd::prelude::Seq::lemma_filter_len;

    let t = s.drop_last();
    if pred(s.last()) && i == s.filter(pred).len() - 1 {
        assert(s[s.len() - 1] == s.filter(pred)[i]);
    } else {
        lemma_filter_member_of(t, pred, i);
        let w = choose|w: int| 0 <= w < t.len() && t[w] == t.filter(pred)[i];
        assert(s[w] == s.filter(pred)[i]);
    }
}

/// Filtering one address out of a duplicate-free sequence shortens it
/// by one exactly when the address was present.
proof fn lemma_filter_out_addr_len(s: Seq<RecordView>, addr: PeerAddr)
    requires
        forall|k: int, l: int| 0 <= k < l < s.len() ==> s[k].addr != s[l].addr,
    ensures
        s.filter(|c: RecordView| c.addr != addr).len() == if has_addr(s, addr) {
            s.len() - 1
        } else {
            s.len() as int
        },
    decreases s.len(),
{
    reveal(Seq::filter);
    let pred = |c: RecordView| c.addr != addr;
    if s.len() > 0 {
        let t = s.drop_last();
        assert forall|k: int, l: int| 0 <= k < l < t.len() implies t[k].addr != t[l].addr by {
            assert(t[k] == s[k]);
            assert(t[l] == s[l]);
        }
        lemma_filter_out_addr_len(t, addr);
        if s.last().addr == addr {
            assert(has_addr(s, addr)) by {
                assert(s[s.len() - 1].addr == addr);
            }
            assert(!has_addr(t, addr)) by {
                if has_addr(t, addr) {
                    let w = choose|w: int| 0 <= w < t.len() && t[w].addr == addr;
                    assert(s[w].addr == addr);
                    assert(s[w].addr != s[s.len() - 1].addr);
                }
            }
        } else {
            assert(has_addr(s, addr) == has_addr(t, addr)) by {
                if has_addr(t, addr) {
                    let w = choose|w: int| 0 <= w < t.len() && t[w].addr == addr;
                    assert(s[w].addr == addr);
                }
                if has_addr(s, addr) {
                    let w = choose|w: int| 0 <= w < s.len() && s[w].addr == addr;
                    assert(w != s.len() - 1);
                    assert(t[w].addr == addr);
                }
            }
        }
    }
}

/// A record at an unmarked position survives the pruning.
proof fn lemma_keep_unmarked_contains(s: Seq<RecordView>, marked: Seq<usize>, k: int)
    requires
        0 <= k < s.len(),
        !marked.contains(k as usize),
    ensures
        keep_unmarked(s, marked).contains(s[k]),
    decreases s.len(),
{
    let out = keep_unmarked(s, marked);
    let prefix = keep_unmarked(s.drop_last(), marked);
    if k == s.len() - 1 {
        assert(out[out.len() - 1] == s[k]);
    } else {
        lemma_keep_unmarked_contains(s.drop_last(), marked, k);
        let w = choose|w: int| 0 <= w < prefix.len() && prefix[w] == s.drop_last()[k];
        if !marked.contains((s.len() - 1) as usize) {
            assert(out[w] == s[k]);
        }
    }
}

/// Pruning keeps addresses distinct: the survivors are a subsequence of
/// the sequence it was pruned from.
proof fn lemma_keep_unmarked_shape(s: Seq<RecordView>, marked: Seq<usize>)
    requires
        forall|k: int, l: int| 0 <= k < l < s.len() ==> s[k].addr != s[l].addr,
    ensures
        forall|i: int, j: int|
            0 <= i < j < keep_unmarked(s, marked).len() ==> keep_unmarked(s, marked)[i].addr
                != keep_unmarked(s, marked)[j].addr,
        keep_unmarked(s, marked).len() <= s.len(),
        forall|i: int|
            0 <= i < keep_unmarked(s, marked).len() ==> exists|w: int|
                0 <= w < s.len() && s[w] == #[trigger] keep_unmarked(s, marked)[i],
    decreases s.len(),
{
    if s.len() > 0 {
        let t = s.drop_last();
        lemma_keep_unmarked_shape(t, marked);
        let out = keep_unmarked(s, marked);
        let prefix = keep_unmarked(t, marked);
        assert forall|i: int| 0 <= i < out.len() implies exists|w: int|
            0 <= w < s.len() && s[w] == #[trigger] out[i] by {
            if i < prefix.len() {
                let w = choose|w: int| 0 <= w < t.len() && t[w] == prefix[i];
                assert(s[w] == out[i]);
            } else {
                assert(s[s.len() - 1] == out[i]);
            }
        }
        assert forall|i: int, j: int|
            0 <= i < j < out.len() implies out[i].addr != out[j].addr by {
            if j == out.len() - 1 && !marked.contains((s.len() - 1) as usize) {
                let w = choose|w: int| 0 <= w < t.len() && t[w] == prefix[i];
                assert(s[w].addr != s[s.len() - 1].addr);
            }
        }
    }
}

} // verus!
