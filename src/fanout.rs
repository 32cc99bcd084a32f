use std::collections::VecDeque;
use vstd::prelude::*;

verus! {

/// What one subscription holds: the lines it has not read yet, oldest first,
/// and how many lines it lost to overflow.
pub struct SubState {
    pub queue: Seq<String>,
    pub lagged: u64,
}

/// `n + 1`, held at the largest `u64`.
pub open spec fn bumped(n: u64) -> u64 {
    if n < u64::MAX {
        (n + 1) as u64
    } else {
        n
    }
}

/// A subscription after one line is published to it: the line joins the queue;
/// if the queue was full, its oldest line is dropped and counted as lost.
pub open spec fn delivered(s: SubState, line: String, cap: nat) -> SubState {
    if s.queue.len() < cap {
        SubState { queue: s.queue.push(line), lagged: s.lagged }
    } else {
        SubState { queue: s.queue.drop_first().push(line), lagged: bumped(s.lagged) }
    }
}

/// A subscription after `lines` are published to it, in order.
pub open spec fn delivered_all(s: SubState, lines: Seq<String>, cap: nat) -> SubState
    decreases lines.len(),
{
    if lines.len() == 0 {
        s
    } else {
        delivered(delivered_all(s, lines.drop_last(), cap), lines.last(), cap)
    }
}

/// The state of a broadcaster: one entry per subscription ever attached
/// (`None` once detached), and the capacity of each queue.
pub struct BroadcastState {
    pub subs: Seq<Option<SubState>>,
    pub cap: nat,
}

pub open spec fn delivered_opt(o: Option<SubState>, line: String, cap: nat) -> Option<SubState> {
    match o {
        Some(s) => Some(delivered(s, line, cap)),
        None => None,
    }
}

/// The broadcaster after `line` is published: every attached subscription
/// receives it.
pub open spec fn published(b: BroadcastState, line: String) -> BroadcastState {
    BroadcastState {
        subs: b.subs.map_values(|o: Option<SubState>| delivered_opt(o, line, b.cap)),
        cap: b.cap,
    }
}

/// The broadcaster after `lines` are published, in order.
pub open spec fn published_all(b: BroadcastState, lines: Seq<String>) -> BroadcastState
    decreases lines.len(),
{
    if lines.len() == 0 {
        b
    } else {
        published(published_all(b, lines.drop_last()), lines.last())
    }
}

struct Slot {
    queue: VecDeque<String>,
    lagged: u64,
}

impl View for Slot {
    type V = SubState;

    closed spec fn view(&self) -> SubState {
        SubState { queue: self.queue@, lagged: self.lagged }
    }
}

spec fn slot_view(o: Option<Slot>) -> Option<SubState> {
    match o {
        Some(s) => Some(s@),
        None => None,
    }
}

fn deliver(slot: &mut Slot, line: String, cap: usize)
    requires
        cap > 0,
        old(slot).queue@.len() <= cap,
    ensures
        final(slot)@ == delivered(old(slot)@, line, cap as nat),
        final(slot).queue@.len() <= cap,
{
    if slot.queue.len() >= cap {
        let _ = slot.queue.pop_front();
        if slot.lagged < u64::MAX {
            slot.lagged = slot.lagged + 1;
        }
    }
    slot.queue.push_back(line);
}

/// Fans lines out to any number of subscriptions, each with a queue of its own
/// of fixed capacity. Publishing never waits: a full queue loses its oldest line.
pub struct Broadcaster {
    slots: Vec<Option<Slot>>,
    cap: usize,
}

impl View for Broadcaster {
    type V = BroadcastState;

    closed spec fn view(&self) -> BroadcastState {
        BroadcastState {
            subs: self.slots@.map_values(|o: Option<Slot>| slot_view(o)),
            cap: self.cap as nat,
        }
    }
}

/// Queues have a positive capacity and none holds more than it.
pub open spec fn bounded(b: BroadcastState) -> bool {
    &&& b.cap > 0
    &&& forall|i: int|
        0 <= i < b.subs.len() ==> (#[trigger] b.subs[i] matches Some(s) ==> s.queue.len() <= b.cap)
}

/// `i` is the first detached entry of `subs`, or its length if there is none.
pub open spec fn first_free(subs: Seq<Option<SubState>>, i: int) -> bool {
    &&& 0 <= i <= subs.len()
    &&& i < subs.len() ==> subs[i] is None
    &&& forall|j: int| 0 <= j < i ==> #[trigger] subs[j] is Some
}

/// The subscriptions after a new one is attached at `i`.
pub open spec fn attached_at(subs: Seq<Option<SubState>>, i: int) -> Seq<Option<SubState>> {
    let fresh = Some(SubState { queue: Seq::empty(), lagged: 0 });
    if i < subs.len() {
        subs.update(i, fresh)
    } else {
        subs.push(fresh)
    }
}

spec fn slots_bounded(slots: Seq<Option<Slot>>, cap: usize) -> bool {
    forall|j: int| 0 <= j < slots.len() ==> (#[trigger] slots[j] matches Some(s) ==> s.queue@.len() <= cap)
}

impl Broadcaster {
    pub open spec fn wf(&self) -> bool {
        bounded(self@)
    }

    proof fn lemma_wf_slots(&self)
        ensures
            self.wf() <==> (self.cap > 0 && slots_bounded(self.slots@, self.cap)),
    {
        if self.wf() {
            assert forall|j: int| 0 <= j < self.slots@.len() implies (#[trigger] self.slots@[j] matches Some(s) ==> s.queue@.len() <= self.cap) by {
                assert(self@.subs[j] == slot_view(self.slots@[j]));
            }
        }
        if self.cap > 0 && slots_bounded(self.slots@, self.cap) {
            assert forall|i: int| 0 <= i < self@.subs.len() implies (#[trigger] self@.subs[i] matches Some(s) ==> s.queue.len() <= self@.cap) by {
                assert(self@.subs[i] == slot_view(self.slots@[i]));
            }
        }
    }

    /// A broadcaster with no subscription, whose queues hold `cap` lines each.
    pub fn new(cap: usize) -> (r: Broadcaster)
        requires
            cap > 0,
        ensures
            r.wf(),
            r@.subs == Seq::<Option<SubState>>::empty(),
            r@.cap == cap,
    {
        let r = Broadcaster { slots: Vec::new(), cap };
        assert(r@.subs =~= Seq::<Option<SubState>>::empty());
        r
    }

    /// Attaches a new subscription, with an empty queue, in the first detached
    /// entry or else a new one; returns its id.
    pub fn attach(&mut self) -> (id: usize)
        requires
            old(self).wf(),
        ensures
            final(self).wf(),
            first_free(old(self)@.subs, id as int),
            final(self)@ == (BroadcastState {
                subs: attached_at(old(self)@.subs, id as int),
                ..old(self)@
            }),
    {
        let n = self.slots.len();
        let mut i: usize = 0;
        while i < n && self.slots[i].is_some()
            invariant
                n == self.slots@.len(),
                i <= n,
                forall|j: int| 0 <= j < i ==> #[trigger] self@.subs[j] is Some,
            decreases n - i,
        {
            assert(self@.subs[i as int] is Some);
            i = i + 1;
        }
        let q: VecDeque<String> = VecDeque::new();
        let fresh = Some(Slot { queue: q, lagged: 0 });
        if i < n {
            self.slots.set(i, fresh);
        } else {
            self.slots.push(fresh);
        }
        assert(self@.subs =~= attached_at(old(self)@.subs, i as int));
        i
    }

    /// Detaches subscription `id` and drops its queue.
    pub fn detach(&mut self, id: usize)
        requires
            old(self).wf(),
        ensures
            final(self).wf(),
            id < old(self)@.subs.len() ==> final(self)@ == (BroadcastState {
                subs: old(self)@.subs.update(id as int, None),
                ..old(self)@
            }),
            id >= old(self)@.subs.len() ==> final(self)@ == old(self)@,
    {
        if id < self.slots.len() {
            self.slots.set(id, None);
            assert(self@.subs =~= old(self)@.subs.update(id as int, None));
        }
    }

    /// Publishes `line` to every attached subscription.
    pub fn publish(&mut self, line: &String)
        requires
            old(self).wf(),
        ensures
            final(self).wf(),
            final(self)@ == published(old(self)@, *line),
    {
        let n = self.slots.len();
        let mut i: usize = 0;
        proof {
            self.lemma_wf_slots();
        }
        while i < n
            invariant
                n == self.slots@.len(),
                n == old(self).slots@.len(),
                i <= n,
                self.cap == old(self).cap,
                self.cap > 0,
                slots_bounded(self.slots@, self.cap),
                forall|j: int|
                    0 <= j < i ==> slot_view(#[trigger] self.slots@[j]) == delivered_opt(
                        slot_view(old(self).slots@[j]),
                        *line,
                        self.cap as nat,
                    ),
                forall|j: int| i <= j < n ==> #[trigger] self.slots@[j] == old(self).slots@[j],
            decreases n - i,
        {
            let mut slot: Option<Slot> = None;
            let ghost before = self.slots@;
            self.slots.set_and_swap(i, &mut slot);
            assert(slot == before[i as int]);
            match slot {
                Some(mut s) => {
                    deliver(&mut s, line.clone(), self.cap);
                    self.slots.set(i, Some(s));
                },
                None => {
                    self.slots.set(i, None);
                },
            }
            assert(self.slots@ =~= before.update(i as int, self.slots@[i as int]));
            i = i + 1;
        }
        proof {
            self.lemma_wf_slots();
        }
        assert(self@.subs =~= published(old(self)@, *line).subs);
    }

    /// Takes the oldest unread line of subscription `id`, if it has one.
    pub fn recv(&mut self, id: usize) -> (r: Option<String>)
        requires
            old(self).wf(),
        ensures
            final(self).wf(),
            match (if id < old(self)@.subs.len() { old(self)@.subs[id as int] } else { None }) {
                Some(s) if s.queue.len() > 0 => {
                    &&& r == Some(s.queue[0])
                    &&& final(self)@ == (BroadcastState {
                        subs: old(self)@.subs.update(
                            id as int,
                            Some(SubState { queue: s.queue.drop_first(), lagged: s.lagged }),
                        ),
                        ..old(self)@
                    })
                },
                _ => r is None && final(self)@ == old(self)@,
            },
    {
        if id >= self.slots.len() {
            return None;
        }
        let mut slot: Option<Slot> = None;
        self.slots.set_and_swap(id, &mut slot);
        match slot {
            Some(mut s) => {
                let r = s.queue.pop_front();
                proof {
                    if r is Some {
                        assert(s.queue@ =~= old(self)@.subs[id as int].unwrap().queue.drop_first());
                    }
                }
                self.slots.set(id, Some(s));
                assert(self@.subs =~= old(self)@.subs.update(id as int, slot_view(self.slots@[id as int])));
                proof {
                    if r is None {
                        assert(self@.subs =~= old(self)@.subs);
                    }
                }
                r
            },
            None => {
                self.slots.set(id, None);
                assert(self@.subs =~= old(self)@.subs);
                None
            },
        }
    }

    /// How many lines subscription `id` has lost to overflow; none if it is not attached.
    pub fn lagged(&self, id: usize) -> (r: u64)
        ensures
            r == (if id < self@.subs.len() {
                match self@.subs[id as int] {
                    Some(s) => s.lagged,
                    None => 0,
                }
            } else {
                0
            }),
    {
        if id < self.slots.len() {
            match &self.slots[id] {
                Some(s) => s.lagged,
                None => 0,
            }
        } else {
            0
        }
    }

    /// Whether any subscription is attached.
    pub fn has_subscribers(&self) -> (r: bool)
        ensures
            r == exists|i: int| 0 <= i < self@.subs.len() && #[trigger] self@.subs[i] is Some,
    {
        let n = self.slots.len();
        let mut i: usize = 0;
        while i < n
            invariant
                n == self.slots@.len(),
                i <= n,
                forall|j: int| 0 <= j < i ==> self.slots@[j] is None,
            decreases n - i,
        {
            if self.slots[i].is_some() {
                assert(self@.subs[i as int] is Some);
                return true;
            }
            i = i + 1;
        }
        assert forall|j: int| 0 <= j < self@.subs.len() implies !(#[trigger] self@.subs[j] is Some) by {
            assert(self.slots@[j] is None);
        }
        false
    }
}


/// Publishing a sequence of lines acts on each subscription on its own.
pub proof fn lemma_published_all_at(b: BroadcastState, lines: Seq<String>, i: int)
    requires
        0 <= i < b.subs.len(),
    ensures
        published_all(b, lines).cap == b.cap,
        published_all(b, lines).subs.len() == b.subs.len(),
        published_all(b, lines).subs[i] == match b.subs[i] {
            Some(s) => Some(delivered_all(s, lines, b.cap)),
            None => None,
        },
    decreases lines.len(),
{
    if lines.len() > 0 {
        lemma_published_all_at(b, lines.drop_last(), i);
    }
}

/// `a + n`, held at the largest `u64`.
pub open spec fn plus_lost(a: u64, n: nat) -> u64 {
    if a + n <= u64::MAX {
        (a + n) as u64
    } else {
        u64::MAX
    }
}

/// What a subscription holds after `lines`: the newest `cap` lines of what it
/// held followed by `lines`, in order; the lines that did not fit are counted
/// as lost.
pub proof fn lemma_delivered_all(s: SubState, lines: Seq<String>, cap: nat)
    requires
        cap > 0,
        s.queue.len() <= cap,
    ensures
        ({
            let all = s.queue + lines;
            let lo = if all.len() > cap { all.len() - cap } else { 0 };
            let r = delivered_all(s, lines, cap);
            &&& r.queue == all.subrange(lo, all.len() as int)
            &&& r.lagged == plus_lost(s.lagged, lo as nat)
            &&& r.lagged >= s.lagged
            &&& all.len() > cap ==> r.lagged > 0
        }),
    decreases lines.len(),
{
    if lines.len() == 0 {
        assert(s.queue + lines =~= s.queue);
        assert(s.queue.subrange(0, s.queue.len() as int) =~= s.queue);
        assert(s.lagged + 0 <= u64::MAX);
    } else {
        let front = lines.drop_last();
        lemma_delivered_all(s, front, cap);
        let a = s.queue + front;
        let all = s.queue + lines;
        assert(all =~= a.push(lines.last()));
        let lo = if a.len() > cap { a.len() - cap } else { 0 };
        let prev = delivered_all(s, front, cap);
        assert(prev.queue == a.subrange(lo, a.len() as int));
        if prev.queue.len() < cap {
            assert(prev.queue.push(lines.last()) =~= all.subrange(lo, all.len() as int));
        } else {
            assert(prev.queue.drop_first().push(lines.last()) =~= all.subrange(
                lo + 1,
                all.len() as int,
            ));
        }
    }
}

/// Fan-out: a subscription whose queue never overflows receives every
/// published line, in the order published, after what it already held.
pub proof fn lemma_fan_out(b: BroadcastState, lines: Seq<String>, i: int)
    requires
        b.cap > 0,
        0 <= i < b.subs.len(),
        b.subs[i] matches Some(s) && s.queue.len() + lines.len() <= b.cap,
    ensures
        published_all(b, lines).subs[i] == Some(
            SubState { queue: b.subs[i].unwrap().queue + lines, lagged: b.subs[i].unwrap().lagged },
        ),
{
    let s = b.subs[i].unwrap();
    lemma_published_all_at(b, lines, i);
    lemma_delivered_all(s, lines, b.cap);
    lemma_no_loss(s, lines, b.cap);
    assert((s.queue + lines).subrange(0, (s.queue + lines).len() as int) =~= s.queue + lines);
}

proof fn lemma_no_loss(s: SubState, lines: Seq<String>, cap: nat)
    requires
        s.queue.len() + lines.len() <= cap,
    ensures
        delivered_all(s, lines, cap).lagged == s.lagged,
        delivered_all(s, lines, cap).queue.len() == s.queue.len() + lines.len(),
    decreases lines.len(),
{
    if lines.len() > 0 {
        lemma_no_loss(s, lines.drop_last(), cap);
    }
}

/// Lag safety: a subscription that is published more lines than its queue
/// holds has counted each line it lost, and still holds the newest lines, in
/// order; publishing asks nothing of it, and the other subscriptions are not
/// touched by its overflow.
pub proof fn lemma_lag(b: BroadcastState, lines: Seq<String>, i: int)
    requires
        b.cap > 0,
        0 <= i < b.subs.len(),
        b.subs[i] matches Some(s) && s.queue.len() <= b.cap && s.queue.len() + lines.len() > b.cap,
    ensures
        ({
            let s = b.subs[i].unwrap();
            let all = s.queue + lines;
            let r = published_all(b, lines).subs[i].unwrap();
            &&& published_all(b, lines).subs[i] is Some
            &&& r.lagged > 0
            &&& r.lagged == plus_lost(s.lagged, (all.len() - b.cap) as nat)
            &&& r.queue == all.subrange(all.len() - b.cap, all.len() as int)
        }),
{
    let s = b.subs[i].unwrap();
    lemma_published_all_at(b, lines, i);
    lemma_delivered_all(s, lines, b.cap);
}


/// One step of a run of the broadcaster: a line published, or one read by a
/// subscription.
pub enum Step {
    Publish(String),
    Read(int),
}

/// The broadcaster after subscription `id` reads one line, if it has one.
pub open spec fn read_one(b: BroadcastState, id: int) -> BroadcastState {
    if 0 <= id < b.subs.len() && b.subs[id] is Some && b.subs[id].unwrap().queue.len() > 0 {
        BroadcastState {
            subs: b.subs.update(
                id,
                Some(SubState { queue: b.subs[id].unwrap().queue.drop_first(), lagged: b.subs[id].unwrap().lagged }),
            ),
            ..b
        }
    } else {
        b
    }
}

/// The broadcaster after `steps`, in order.
pub open spec fn ran(b: BroadcastState, steps: Seq<Step>) -> BroadcastState
    decreases steps.len(),
{
    if steps.len() == 0 {
        b
    } else {
        let m = ran(b, steps.drop_last());
        match steps.last() {
            Step::Publish(line) => published(m, line),
            Step::Read(id) => read_one(m, id),
        }
    }
}

/// The lines that subscription `i` read during `steps`, in order.
pub open spec fn received(b: BroadcastState, steps: Seq<Step>, i: int) -> Seq<String>
    decreases steps.len(),
{
    if steps.len() == 0 {
        Seq::empty()
    } else {
        let m = ran(b, steps.drop_last());
        let prev = received(b, steps.drop_last(), i);
        match steps.last() {
            Step::Read(id) => if id == i && m.subs[i] is Some && m.subs[i].unwrap().queue.len() > 0 {
                prev.push(m.subs[i].unwrap().queue[0])
            } else {
                prev
            },
            _ => prev,
        }
    }
}

/// The lines published during `steps`, in order.
pub open spec fn published_lines(steps: Seq<Step>) -> Seq<String>
    decreases steps.len(),
{
    if steps.len() == 0 {
        Seq::empty()
    } else {
        match steps.last() {
            Step::Publish(line) => published_lines(steps.drop_last()).push(line),
            _ => published_lines(steps.drop_last()),
        }
    }
}

/// Subscription `i` never falls behind during `steps`: whenever a line is
/// published, its queue has room for it.
pub open spec fn keeps_up(b: BroadcastState, steps: Seq<Step>, i: int) -> bool
    decreases steps.len(),
{
    if steps.len() == 0 {
        true
    } else {
        &&& keeps_up(b, steps.drop_last(), i)
        &&& steps.last() is Publish ==> (ran(b, steps.drop_last()).subs[i] matches Some(s)
            && s.queue.len() < b.cap)
    }
}

/// Fan-out at its own pace: a subscription that reads whenever it likes and
/// never falls behind receives every published line exactly once, in the
/// order published, after what it already held: what it has read followed by
/// what it still holds is exactly that; it loses nothing.
pub proof fn lemma_fan_out_paced(b: BroadcastState, steps: Seq<Step>, i: int)
    requires
        0 <= i < b.subs.len(),
        b.subs[i] is Some,
        keeps_up(b, steps, i),
    ensures
        ran(b, steps).cap == b.cap,
        ran(b, steps).subs.len() == b.subs.len(),
        ran(b, steps).subs[i] is Some,
        received(b, steps, i) + ran(b, steps).subs[i].unwrap().queue == b.subs[i].unwrap().queue
            + published_lines(steps),
        ran(b, steps).subs[i].unwrap().lagged == b.subs[i].unwrap().lagged,
    decreases steps.len(),
{
    let q0 = b.subs[i].unwrap().queue;
    if steps.len() == 0 {
        assert(Seq::<String>::empty() + q0 =~= q0 + Seq::<String>::empty());
    } else {
        let front = steps.drop_last();
        lemma_fan_out_paced(b, front, i);
        let m = ran(b, front);
        let rcv = received(b, front, i);
        let q = m.subs[i].unwrap().queue;
        match steps.last() {
            Step::Publish(line) => {
                assert(rcv + q.push(line) =~= (rcv + q).push(line));
                assert((q0 + published_lines(front)).push(line) =~= q0 + published_lines(front).push(line));
            },
            Step::Read(id) => {
                if id == i && q.len() > 0 {
                    assert(rcv.push(q[0]) + q.drop_first() =~= rcv + q);
                }
            },
        }
    }
}

} // verus!
