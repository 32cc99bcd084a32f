use std::collections::VecDeque;
use vstd::prelude::*;

use crate::fanout::{
    attached_at, bounded, first_free, published, published_all, BroadcastState, Broadcaster,
    SubState,
};

verus! {

/// What a command issuer receives when no reply came in time, or the
/// connection it spoke on was lost.
pub const NO_REPLY: &'static str = "._?";

/// Where `route` sent a chunk of console output.
#[derive(PartialEq, Eq, Structural, Debug, Clone, Copy)]
pub enum Route {
    /// To the ordinary subscribers.
    Relayed,
    /// To the oldest command issuer still waiting for a reply.
    Diverted,
}

/// The state of one reply ticket.
pub enum Ticket {
    /// Not in use.
    Free,
    /// Its issuer waits for a reply until `deadline`.
    Waiting { deadline: u64 },
    /// Its reply has come and not been taken yet.
    Ready { reply: Seq<char> },
}

/// The state of a console bridge: the ordinary feed, the reply tickets, and
/// the tickets still waiting, oldest first. The skip count, the number of
/// chunks still to be diverted, is the number of waiting tickets.
pub struct BridgeState {
    pub relay: BroadcastState,
    pub tickets: Seq<Ticket>,
    pub waiters: Seq<int>,
}

/// The waiting tickets are exactly those in `ws`, each once.
pub open spec fn queue_ok(tickets: Seq<Ticket>, ws: Seq<int>) -> bool {
    &&& forall|i: int|
        0 <= i < ws.len() ==> 0 <= #[trigger] ws[i] < tickets.len() && tickets[ws[i]] is Waiting
    &&& forall|i: int, j: int| 0 <= i < j < ws.len() ==> ws[i] != ws[j]
    &&& forall|t: int|
        0 <= t < tickets.len() && (#[trigger] tickets[t] is Waiting) ==> exists|i: int|
            0 <= i < ws.len() && ws[i] == t
}

pub open spec fn bridge_ok(b: BridgeState) -> bool {
    bounded(b.relay) && queue_ok(b.tickets, b.waiters)
}

/// `i` is the first free ticket, or the number of tickets if none is free.
pub open spec fn first_free_ticket(tickets: Seq<Ticket>, i: int) -> bool {
    &&& 0 <= i <= tickets.len()
    &&& i < tickets.len() ==> tickets[i] is Free
    &&& forall|j: int| 0 <= j < i ==> !(#[trigger] tickets[j] is Free)
}

/// The bridge after an issuer registers, with deadline `deadline`, on ticket
/// `t`: the ticket waits, behind every ticket already waiting.
pub open spec fn begun(b: BridgeState, t: int, deadline: u64) -> BridgeState {
    let w = Ticket::Waiting { deadline };
    BridgeState {
        tickets: if t < b.tickets.len() { b.tickets.update(t, w) } else { b.tickets.push(w) },
        waiters: b.waiters.push(t),
        ..b
    }
}

/// The bridge after a chunk of output arrives: if a ticket waits, the oldest
/// one receives the chunk as its reply; else the ordinary subscribers do.
pub open spec fn routed(b: BridgeState, chunk: String) -> BridgeState {
    if b.waiters.len() > 0 {
        BridgeState {
            tickets: b.tickets.update(b.waiters[0], Ticket::Ready { reply: chunk@ }),
            waiters: b.waiters.drop_first(),
            ..b
        }
    } else {
        BridgeState { relay: published(b.relay, chunk), ..b }
    }
}

/// The bridge after `chunks` arrive, in order.
pub open spec fn routed_all(b: BridgeState, chunks: Seq<String>) -> BridgeState
    decreases chunks.len(),
{
    if chunks.len() == 0 {
        b
    } else {
        routed(routed_all(b, chunks.drop_last()), chunks.last())
    }
}

/// `ws` without `t`.
pub open spec fn without(ws: Seq<int>, t: int) -> Seq<int>
    decreases ws.len(),
{
    if ws.len() == 0 {
        ws
    } else {
        (if ws[0] == t { Seq::empty() } else { seq![ws[0]] }) + without(ws.drop_first(), t)
    }
}

/// The bridge after ticket `t` is withdrawn: it is free, and no longer waits.
pub open spec fn cancelled(b: BridgeState, t: int) -> BridgeState {
    if 0 <= t < b.tickets.len() {
        BridgeState { tickets: b.tickets.update(t, Ticket::Free), waiters: without(b.waiters, t), ..b }
    } else {
        b
    }
}

pub open spec fn deadline_of(t: Ticket) -> u64 {
    match t {
        Ticket::Waiting { deadline } => deadline,
        _ => 0,
    }
}

/// The tickets and the waiting list after every ticket of `ws` whose deadline
/// is at most `now` is answered with `NO_REPLY`; the others keep their order.
pub open spec fn expire_list(tickets: Seq<Ticket>, ws: Seq<int>, now: u64) -> (Seq<Ticket>, Seq<int>)
    decreases ws.len(),
{
    if ws.len() == 0 {
        (tickets, ws)
    } else {
        let w = ws[0];
        if deadline_of(tickets[w]) <= now {
            expire_list(tickets.update(w, Ticket::Ready { reply: NO_REPLY@ }), ws.drop_first(), now)
        } else {
            let (t2, keep) = expire_list(tickets, ws.drop_first(), now);
            (t2, seq![w] + keep)
        }
    }
}

/// The bridge after the waiting tickets whose deadline is at most `now` are
/// answered with `NO_REPLY`.
pub open spec fn expired(b: BridgeState, now: u64) -> BridgeState {
    let (t, w) = expire_list(b.tickets, b.waiters, now);
    BridgeState { tickets: t, waiters: w, ..b }
}

/// The bridge after its connection is lost: every waiting ticket is answered
/// with `NO_REPLY`; ordinary subscribers stay attached.
pub open spec fn ended(b: BridgeState) -> BridgeState {
    expired(b, u64::MAX)
}

enum Slot {
    Free,
    Waiting { deadline: u64 },
    Ready { reply: String },
}

spec fn slot_view(s: Slot) -> Ticket {
    match s {
        Slot::Free => Ticket::Free,
        Slot::Waiting { deadline } => Ticket::Waiting { deadline },
        Slot::Ready { reply } => Ticket::Ready { reply: reply@ },
    }
}

spec fn slots_view(v: Seq<Slot>) -> Seq<Ticket> {
    v.map_values(|s: Slot| slot_view(s))
}

spec fn ids_view(v: Seq<usize>) -> Seq<int> {
    v.map_values(|x: usize| x as int)
}

/// Removing a ticket that stops waiting from the waiting list keeps the list
/// sound.
proof fn lemma_remove_waiter(tickets: Seq<Ticket>, ws: Seq<int>, k: int, now: Ticket)
    requires
        queue_ok(tickets, ws),
        0 <= k < ws.len(),
        !(now is Waiting),
    ensures
        queue_ok(tickets.update(ws[k], now), ws.remove(k)),
{
    let t2 = tickets.update(ws[k], now);
    let w2 = ws.remove(k);
    assert forall|i: int| 0 <= i < w2.len() implies 0 <= #[trigger] w2[i] < t2.len()
        && t2[w2[i]] is Waiting by {
        let j = if i < k { i } else { i + 1 };
        assert(w2[i] == ws[j]);
        assert(ws[j] != ws[k]);
    }
    assert forall|i: int, j: int| 0 <= i < j < w2.len() implies w2[i] != w2[j] by {
        let a = if i < k { i } else { i + 1 };
        let c = if j < k { j } else { j + 1 };
        assert(w2[i] == ws[a] && w2[j] == ws[c]);
    }
    assert forall|t: int| 0 <= t < t2.len() && (#[trigger] t2[t] is Waiting) implies exists|i: int|
        0 <= i < w2.len() && w2[i] == t by {
        assert(tickets[t] is Waiting);
        let i = choose|i: int| 0 <= i < ws.len() && ws[i] == t;
        assert(i != k);
        let j = if i < k { i } else { i - 1 };
        assert(w2[j] == t);
    }
}

/// The single point through which console output reaches its consumers: the
/// ordinary subscribers, or the command issuers waiting for the next output,
/// each issuer receiving its own chunk, in the order the issuers registered.
pub struct Bridge {
    relay: Broadcaster,
    tickets: Vec<Slot>,
    waiters: VecDeque<usize>,
}

impl View for Bridge {
    type V = BridgeState;

    closed spec fn view(&self) -> BridgeState {
        BridgeState {
            relay: self.relay@,
            tickets: slots_view(self.tickets@),
            waiters: ids_view(self.waiters@),
        }
    }
}

impl Bridge {
    pub open spec fn wf(&self) -> bool {
        bridge_ok(self@)
    }

    /// A bridge with no subscriber and no ticket; ordinary queues hold `cap` chunks.
    pub fn new(cap: usize) -> (r: Bridge)
        requires
            cap > 0,
        ensures
            r.wf(),
            r@.relay.subs.len() == 0,
            r@.relay.cap == cap,
            r@.tickets.len() == 0,
            r@.waiters.len() == 0,
    {
        let r = Bridge { relay: Broadcaster::new(cap), tickets: Vec::new(), waiters: VecDeque::new() };
        assert(r@.tickets =~= Seq::<Ticket>::empty());
        assert(r@.waiters =~= Seq::<int>::empty());
        r
    }

    /// The number of chunks still to be diverted to waiting issuers.
    pub fn skip_count(&self) -> (r: usize)
        ensures
            r == self@.waiters.len(),
    {
        self.waiters.len()
    }

    /// Attaches an ordinary subscriber; returns its id.
    pub fn subscribe(&mut self) -> (id: usize)
        requires
            old(self).wf(),
        ensures
            final(self).wf(),
            first_free(old(self)@.relay.subs, id as int),
            final(self)@ == (BridgeState {
                relay: BroadcastState {
                    subs: attached_at(old(self)@.relay.subs, id as int),
                    ..old(self)@.relay
                },
                ..old(self)@
            }),
    {
        self.relay.attach()
    }

    /// Detaches ordinary subscriber `id`.
    pub fn unsubscribe(&mut self, id: usize)
        requires
            old(self).wf(),
        ensures
            final(self).wf(),
            id < old(self)@.relay.subs.len() ==> final(self)@ == (BridgeState {
                relay: BroadcastState {
                    subs: old(self)@.relay.subs.update(id as int, None),
                    ..old(self)@.relay
                },
                ..old(self)@
            }),
            id >= old(self)@.relay.subs.len() ==> final(self)@ == old(self)@,
    {
        self.relay.detach(id)
    }

    /// The oldest unread chunk of ordinary subscriber `id`.
    pub fn recv(&mut self, id: usize) -> (r: Option<String>)
        requires
            old(self).wf(),
        ensures
            final(self).wf(),
            final(self)@.tickets == old(self)@.tickets,
            final(self)@.waiters == old(self)@.waiters,
            match (if id < old(self)@.relay.subs.len() { old(self)@.relay.subs[id as int] } else { None }) {
                Some(s) if s.queue.len() > 0 => {
                    &&& r == Some(s.queue[0])
                    &&& final(self)@.relay == (BroadcastState {
                        subs: old(self)@.relay.subs.update(
                            id as int,
                            Some(SubState { queue: s.queue.drop_first(), lagged: s.lagged }),
                        ),
                        ..old(self)@.relay
                    })
                },
                _ => r is None && final(self)@ == old(self)@,
            },
    {
        self.relay.recv(id)
    }

    /// How many chunks ordinary subscriber `id` lost to overflow.
    pub fn lagged(&self, id: usize) -> (r: u64)
        ensures
            r == (if id < self@.relay.subs.len() {
                match self@.relay.subs[id as int] {
                    Some(s) => s.lagged,
                    None => 0,
                }
            } else {
                0
            }),
    {
        self.relay.lagged(id)
    }

    /// Whether any ordinary subscriber is attached.
    pub fn has_subscribers(&self) -> (r: bool)
        ensures
            r == exists|i: int|
                0 <= i < self@.relay.subs.len() && #[trigger] self@.relay.subs[i] is Some,
    {
        self.relay.has_subscribers()
    }

    /// Registers a command issuer before its command is written: its ticket
    /// waits, behind those already waiting, until a chunk of output comes for
    /// it or `deadline` passes. Returns the ticket, the first free one.
    pub fn begin_request(&mut self, deadline: u64) -> (ticket: usize)
        requires
            old(self).wf(),
        ensures
            final(self).wf(),
            first_free_ticket(old(self)@.tickets, ticket as int),
            final(self)@ == begun(old(self)@, ticket as int, deadline),
    {
        let n = self.tickets.len();
        let mut i: usize = 0;
        while i < n && !matches!(self.tickets[i], Slot::Free)
            invariant
                n == self.tickets@.len(),
                i <= n,
                forall|j: int| 0 <= j < i ==> !(#[trigger] self@.tickets[j] is Free),
            decreases n - i,
        {
            assert(!(self@.tickets[i as int] is Free));
            i = i + 1;
        }
        let ghost old_t = self@.tickets;
        let ghost old_w = self@.waiters;
        if i < n {
            self.tickets.set(i, Slot::Waiting { deadline });
        } else {
            self.tickets.push(Slot::Waiting { deadline });
        }
        self.waiters.push_back(i);
        proof {
            let b2 = begun(old(self)@, i as int, deadline);
            assert(self@.tickets =~= b2.tickets);
            assert(self@.waiters =~= b2.waiters);
            let t2 = b2.tickets;
            let w2 = b2.waiters;
            assert forall|k: int| 0 <= k < w2.len() implies 0 <= #[trigger] w2[k] < t2.len()
                && t2[w2[k]] is Waiting by {
                if k < old_w.len() {
                    assert(old_t[old_w[k]] is Waiting);
                }
            }
            assert forall|a: int, c: int| 0 <= a < c < w2.len() implies w2[a] != w2[c] by {
                if c == old_w.len() {
                    assert(old_t[old_w[a]] is Waiting);
                }
            }
            assert forall|t: int| 0 <= t < t2.len() && (#[trigger] t2[t] is Waiting) implies exists|k: int|
                0 <= k < w2.len() && w2[k] == t by {
                if t == i {
                    assert(w2[old_w.len() as int] == t);
                } else {
                    assert(old_t[t] is Waiting);
                    let k = choose|k: int| 0 <= k < old_w.len() && old_w[k] == t;
                    assert(w2[k] == t);
                }
            }
        }
        i
    }

    /// Withdraws ticket `ticket`, whose command could not be written or whose
    /// issuer gave up: the ticket is freed and the chunk it was owed goes to the
    /// next waiting ticket, or to the ordinary subscribers.
    pub fn cancel_request(&mut self, ticket: usize)
        requires
            old(self).wf(),
        ensures
            final(self).wf(),
            final(self)@ == cancelled(old(self)@, ticket as int),
    {
        if ticket >= self.tickets.len() {
            return;
        }
        let ghost t0 = self@.tickets;
        let ghost w0 = self@.waiters;
        self.tickets.set(ticket, Slot::Free);
        let ghost t1 = self@.tickets;
        assert(t1 =~= t0.update(ticket as int, Ticket::Free));
        let n = self.waiters.len();
        let mut k: usize = 0;
        while k < n && self.waiters[k] != ticket
            invariant
                n == self.waiters@.len(),
                k <= n,
                ids_view(self.waiters@) == w0,
                forall|j: int| 0 <= j < k ==> w0[j] != ticket as int,
            decreases n - k,
        {
            k = k + 1;
        }
        if k < n {
            assert(w0[k as int] == ticket as int);
            let _ = self.waiters.remove(k);
            proof {
                assert forall|j: int| 0 <= j < w0.len() && j != k implies w0[j] != ticket as int by {
                    if j > k {
                        assert(w0[j] != w0[k as int]);
                    }
                }
                lemma_without_at(w0, ticket as int, k as int);
                assert(ids_view(self.waiters@) =~= w0.remove(k as int));
                lemma_remove_waiter(t0, w0, k as int, Ticket::Free);
            }
        } else {
            proof {
                lemma_without_absent(w0, ticket as int);
                assert(!(t0[ticket as int] is Waiting)) by {
                    if t0[ticket as int] is Waiting {
                        let j = choose|j: int| 0 <= j < w0.len() && w0[j] == ticket as int;
                    }
                }
                assert forall|t: int| 0 <= t < t1.len() && (#[trigger] t1[t] is Waiting) implies exists|j: int|
                    0 <= j < w0.len() && w0[j] == t by {
                    assert(t0[t] is Waiting);
                }
                assert forall|j: int| 0 <= j < w0.len() implies 0 <= #[trigger] w0[j] < t1.len()
                    && t1[w0[j]] is Waiting by {
                    assert(t0[w0[j]] is Waiting);
                }
            }
        }
    }

    /// Takes one chunk of console output, as `routed` says.
    pub fn route(&mut self, chunk: &String) -> (r: Route)
        requires
            old(self).wf(),
        ensures
            final(self).wf(),
            final(self)@ == routed(old(self)@, *chunk),
            (r == Route::Diverted) == (old(self)@.waiters.len() > 0),
    {
        let ghost t0 = self@.tickets;
        let ghost w0 = self@.waiters;
        match self.waiters.pop_front() {
            Some(t) => {
                proof {
                    assert(w0[0] == t as int);
                    assert(0 <= w0[0] < t0.len());
                }
                self.tickets.set(t, Slot::Ready { reply: chunk.clone() });
                proof {
                    assert(self@.tickets =~= t0.update(t as int, Ticket::Ready { reply: chunk@ }));
                    assert(self@.waiters =~= w0.drop_first());
                    assert(w0.drop_first() =~= w0.remove(0));
                    lemma_remove_waiter(t0, w0, 0, Ticket::Ready { reply: chunk@ });
                }
                Route::Diverted
            },
            None => {
                self.relay.publish(chunk);
                Route::Relayed
            },
        }
    }

    /// The reply for `ticket`, once one has come; the ticket is then free.
    pub fn take_reply(&mut self, ticket: usize) -> (r: Option<String>)
        requires
            old(self).wf(),
        ensures
            final(self).wf(),
            match (if ticket < old(self)@.tickets.len() {
                old(self)@.tickets[ticket as int]
            } else {
                Ticket::Free
            }) {
                Ticket::Ready { reply } => {
                    &&& r matches Some(s) && s@ == reply
                    &&& final(self)@ == (BridgeState {
                        tickets: old(self)@.tickets.update(ticket as int, Ticket::Free),
                        ..old(self)@
                    })
                },
                _ => r is None && final(self)@ == old(self)@,
            },
    {
        if ticket >= self.tickets.len() || !matches!(self.tickets[ticket], Slot::Ready { .. }) {
            return None;
        }
        let ghost t0 = self@.tickets;
        let mut slot = Slot::Free;
        self.tickets.set_and_swap(ticket, &mut slot);
        proof {
            assert(self@.tickets =~= t0.update(ticket as int, Ticket::Free));
            let w = self@.waiters;
            assert forall|i: int| 0 <= i < w.len() implies 0 <= #[trigger] w[i] < self@.tickets.len()
                && self@.tickets[w[i]] is Waiting by {
                assert(t0[w[i]] is Waiting);
            }
            assert forall|t: int| 0 <= t < self@.tickets.len() && (#[trigger] self@.tickets[t] is Waiting) implies exists|i: int|
                0 <= i < w.len() && w[i] == t by {
                assert(t0[t] is Waiting);
            }
        }
        match slot {
            Slot::Ready { reply } => Some(reply),
            _ => None,
        }
    }

    /// Answers with `NO_REPLY` every waiting ticket whose deadline is at most
    /// `now`, as `expired` says.
    pub fn expire(&mut self, now: u64)
        requires
            old(self).wf(),
        ensures
            final(self).wf(),
            final(self)@ == expired(old(self)@, now),
            forall|t: int|
                0 <= t < final(self)@.tickets.len() && (#[trigger] final(self)@.tickets[t] is Waiting)
                    ==> deadline_of(final(self)@.tickets[t]) > now,
    {
        let ghost t0 = self@.tickets;
        let ghost w0 = self@.waiters;
        let mut rest: VecDeque<usize> = VecDeque::new();
        core::mem::swap(&mut rest, &mut self.waiters);
        proof {
            assert(ids_view(self.waiters@) + ids_view(rest@) =~= w0);
        }
        while rest.len() > 0
            invariant
                self.relay == old(self).relay,
                self@.tickets.len() == t0.len(),
                queue_ok(self@.tickets, ids_view(self.waiters@) + ids_view(rest@)),
                expire_list(self@.tickets, ids_view(rest@), now).0 == expire_list(t0, w0, now).0,
                ids_view(self.waiters@) + expire_list(self@.tickets, ids_view(rest@), now).1
                    == expire_list(t0, w0, now).1,
                forall|k: int|
                    0 <= k < self.waiters@.len() ==> deadline_of(
                        #[trigger] self@.tickets[ids_view(self.waiters@)[k]],
                    ) > now,
            decreases rest@.len(),
        {
            let ghost kept = ids_view(self.waiters@);
            let ghost r0 = ids_view(rest@);
            let ghost cur = self@.tickets;
            let w = rest.pop_front().unwrap();
            proof {
                assert(ids_view(rest@) =~= r0.drop_first());
                assert(r0[0] == w as int);
                assert((kept + r0)[kept.len() as int] == w as int);
            }
            let deadline = match self.tickets[w] {
                Slot::Waiting { deadline } => deadline,
                _ => 0,
            };
            if deadline <= now {
                self.tickets.set(w, Slot::Ready { reply: String::from_str(NO_REPLY) });
                proof {
                    assert(self@.tickets =~= cur.update(w as int, Ticket::Ready { reply: NO_REPLY@ }));
                    assert forall|k: int| 0 <= k < kept.len() implies deadline_of(
                        #[trigger] self@.tickets[kept[k]],
                    ) > now by {
                        assert((kept + r0)[k] == kept[k]);
                        assert((kept + r0)[k] != (kept + r0)[kept.len() as int]);
                    }
                    lemma_remove_waiter(cur, kept + r0, kept.len() as int, Ticket::Ready { reply: NO_REPLY@ });
                    assert((kept + r0).remove(kept.len() as int) =~= kept + r0.drop_first());
                }
            } else {
                self.waiters.push_back(w);
                proof {
                    assert(ids_view(self.waiters@) =~= kept.push(w as int));
                    assert(ids_view(self.waiters@) + ids_view(rest@) =~= kept + r0);
                    assert(deadline_of(cur[w as int]) > now);
                    let (t2, keep) = expire_list(cur, r0.drop_first(), now);
                    assert(kept.push(w as int) + keep =~= kept + (seq![w as int] + keep));
                }
            }
        }
        proof {
            assert(ids_view(rest@) =~= Seq::<int>::empty());
            assert(ids_view(self.waiters@) + ids_view(rest@) =~= ids_view(self.waiters@));
            assert(ids_view(self.waiters@) + Seq::<int>::empty() =~= ids_view(self.waiters@));
            let ws = ids_view(self.waiters@);
            assert forall|t: int|
                0 <= t < self@.tickets.len() && (#[trigger] self@.tickets[t] is Waiting) implies deadline_of(
                self@.tickets[t],
            ) > now by {
                let k = choose|k: int| 0 <= k < ws.len() && ws[k] == t;
                assert(deadline_of(self@.tickets[ws[k]]) > now);
            }
        }
    }

    /// Ends a connection epoch: every waiting ticket is answered with
    /// `NO_REPLY`. Ordinary subscribers stay attached.
    pub fn end_epoch(&mut self)
        requires
            old(self).wf(),
        ensures
            final(self).wf(),
            final(self)@ == ended(old(self)@),
            final(self)@.waiters.len() == 0,
            forall|t: int|
                0 <= t < final(self)@.tickets.len() ==> !(#[trigger] final(self)@.tickets[t] is Waiting),
    {
        self.expire(u64::MAX);
        proof {
            if self@.waiters.len() > 0 {
                let t = self@.waiters[0];
                assert(self@.tickets[t] is Waiting);
            }
        }
    }
}

/// First come, first served: when chunks arrive while tickets wait, the
/// `i`-th waiting ticket receives the `i`-th chunk as its reply, each ticket a
/// chunk of its own; the ordinary subscribers see none of them.
pub proof fn lemma_replies_in_order(b: BridgeState, chunks: Seq<String>)
    requires
        queue_ok(b.tickets, b.waiters),
        chunks.len() <= b.waiters.len(),
    ensures
        ({
            let r = routed_all(b, chunks);
            &&& r.relay == b.relay
            &&& r.waiters == b.waiters.subrange(chunks.len() as int, b.waiters.len() as int)
            &&& r.tickets.len() == b.tickets.len()
            &&& forall|i: int|
                0 <= i < chunks.len() ==> r.tickets[b.waiters[i]] == Ticket::Ready {
                    reply: chunks[i]@,
                }
        }),
    decreases chunks.len(),
{
    if chunks.len() == 0 {
        assert(b.waiters.subrange(0, b.waiters.len() as int) =~= b.waiters);
    } else {
        let front = chunks.drop_last();
        lemma_replies_in_order(b, front);
        let m = routed_all(b, front);
        let k = front.len() as int;
        assert(m.waiters[0] == b.waiters[k]);
        assert(m.waiters.drop_first() =~= b.waiters.subrange(k + 1, b.waiters.len() as int));
        let r = routed_all(b, chunks);
        assert forall|i: int| 0 <= i < chunks.len() implies r.tickets[b.waiters[i]] == Ticket::Ready {
            reply: chunks[i]@,
        } by {
            if i < k {
                assert(b.waiters[i] != b.waiters[k]);
                assert(front[i] == chunks[i]);
            }
        }
    }
}

/// With no other command waiting, an issuer that registers receives as its
/// reply exactly the first chunk that arrives afterwards, nothing that came
/// before; the ordinary subscribers do not see that chunk.
pub proof fn lemma_reply_is_next_chunk(b: BridgeState, t: int, deadline: u64, chunk: String)
    requires
        b.waiters.len() == 0,
        first_free_ticket(b.tickets, t),
    ensures
        ({
            let after = routed(begun(b, t, deadline), chunk);
            &&& after.tickets[t] == Ticket::Ready { reply: chunk@ }
            &&& after.relay == b.relay
            &&& after.waiters.len() == 0
        }),
{
    let mid = begun(b, t, deadline);
    assert(mid.waiters[0] == t);
}

proof fn lemma_end_clears(tickets: Seq<Ticket>, ws: Seq<int>)
    ensures
        expire_list(tickets, ws, u64::MAX).1.len() == 0,
    decreases ws.len(),
{
    if ws.len() > 0 {
        let w = ws[0];
        lemma_end_clears(tickets.update(w, Ticket::Ready { reply: NO_REPLY@ }), ws.drop_first());
    }
}

/// Across a lost connection, ordinary subscribers stay attached: every chunk of
/// the next epoch reaches them as if it were published to them directly, with
/// no new subscription, and no chunk is diverted to an issuer of the old epoch.
pub proof fn lemma_resume_after_reconnect(b: BridgeState, chunks: Seq<String>)
    ensures
        routed_all(ended(b), chunks).relay == published_all(b.relay, chunks),
        routed_all(ended(b), chunks).waiters.len() == 0,
    decreases chunks.len(),
{
    lemma_end_clears(b.tickets, b.waiters);
    if chunks.len() > 0 {
        lemma_resume_after_reconnect(b, chunks.drop_last());
    }
}

proof fn lemma_without_absent(ws: Seq<int>, t: int)
    requires
        forall|j: int| 0 <= j < ws.len() ==> ws[j] != t,
    ensures
        without(ws, t) == ws,
    decreases ws.len(),
{
    if ws.len() > 0 {
        lemma_without_absent(ws.drop_first(), t);
        assert(seq![ws[0]] + ws.drop_first() =~= ws);
    }
}

proof fn lemma_without_at(ws: Seq<int>, t: int, k: int)
    requires
        0 <= k < ws.len(),
        ws[k] == t,
        forall|j: int| 0 <= j < ws.len() && j != k ==> ws[j] != t,
    ensures
        without(ws, t) == ws.remove(k),
    decreases ws.len(),
{
    if k == 0 {
        lemma_without_absent(ws.drop_first(), t);
        assert(Seq::<int>::empty() + ws.drop_first() =~= ws.remove(0));
    } else {
        lemma_without_at(ws.drop_first(), t, k - 1);
        assert(seq![ws[0]] + ws.drop_first().remove(k - 1) =~= ws.remove(k));
    }
}

} // verus!
