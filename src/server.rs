use vstd::prelude::*;

use crate::batch::{fed_all, grouped, idle_due, posts_view, Outgoing, Post, Relay, RelayState};
use crate::bridge::{ended, expired, routed, Bridge, Route};
use crate::supervisor::{decided, sound, Action, Happening, Phase, Supervisor};
use crate::text::lines_of;
use crate::transport::{ansi_stripped, decode_output, utf8_lossy};

verus! {

/// Everything that one game server's console needs, held in one place: the
/// bridge that routes its output, the relay that batches chat for the chat
/// sink, and the supervisor of its connection.
pub struct Server {
    pub bridge: Bridge,
    pub relay: Relay,
    pub supervisor: Supervisor,
}

impl Server {
    pub open spec fn wf(&self) -> bool {
        self.bridge.wf() && self.relay.wf() && sound(self.supervisor@)
    }

    /// A server context whose subscribers' queues hold `queue_cap` chunks, whose
    /// relay flushes over `line_cap` lines or after `idle` milliseconds, and
    /// whose supervisor waits from `base` up to `max_wait` milliseconds,
    /// counting an epoch of `healthy_after` milliseconds as healthy.
    pub fn new(
        queue_cap: usize,
        line_cap: usize,
        idle: u64,
        base: u64,
        max_wait: u64,
        healthy_after: u64,
    ) -> (r: Server)
        requires
            queue_cap > 0,
            line_cap < usize::MAX,
            0 < base <= max_wait,
        ensures
            r.wf(),
            r.bridge@.relay.subs.len() == 0,
            r.bridge@.relay.cap == queue_cap,
            r.bridge@.tickets.len() == 0,
            r.bridge@.waiters.len() == 0,
            r.relay@.pending == Seq::<Post>::empty(),
            r.relay@.cap == line_cap,
            r.relay@.idle == idle,
            r.supervisor@.base == base,
            r.supervisor@.cap == max_wait,
            r.supervisor@.healthy_after == healthy_after,
            r.supervisor@.backoff == base,
            r.supervisor@.phase == Phase::Starting,
    {
        Server {
            bridge: Bridge::new(queue_cap),
            relay: Relay::new(line_cap, idle),
            supervisor: Supervisor::new(base, max_wait, healthy_after),
        }
    }

    /// Takes raw bytes read from the console at `now`: they are decoded and
    /// routed; output that no command issuer waits for also goes to the relay,
    /// which hands out what it flushes.
    pub fn on_output(&mut self, raw: &[u8], now: u64) -> (r: Vec<Outgoing>)
        requires
            old(self).wf(),
        ensures
            final(self).wf(),
            final(self).supervisor@ == old(self).supervisor@,
            ({
                let chunk = utf8_lossy(ansi_stripped(raw@));
                exists|c: String|
                    c@ == chunk && final(self).bridge@ == routed(old(self).bridge@, c)
            }),
            old(self).bridge@.waiters.len() > 0 ==> r@.len() == 0 && final(self).relay@ == old(self).relay@,
            old(self).bridge@.waiters.len() == 0 ==> {
                let lines = lines_of(utf8_lossy(ansi_stripped(raw@)));
                &&& final(self).relay@ == fed_all(old(self).relay@, lines, now).0
                &&& posts_view(r@) == fed_all(old(self).relay@, lines, now).1
            },
    {
        let chunk = decode_output(raw);
        match self.bridge.route(&chunk) {
            Route::Diverted => Vec::new(),
            Route::Relayed => self.relay.feed_chunk(chunk.as_str(), now),
        }
    }

    /// The timed checks at `now`: command issuers whose deadline has come are
    /// answered with `NO_REPLY`, and the relay runs its idle check.
    pub fn tick(&mut self, now: u64) -> (r: Vec<Outgoing>)
        requires
            old(self).wf(),
        ensures
            final(self).wf(),
            final(self).bridge@ == expired(old(self).bridge@, now),
            final(self).supervisor@ == old(self).supervisor@,
            idle_due(old(self).relay@, now) ==> posts_view(r@) == grouped(
                old(self).relay@.pending,
            ) && final(self).relay@ == (RelayState { pending: Seq::empty(), ..old(self).relay@ }),
            !idle_due(old(self).relay@, now) ==> r@.len() == 0 && final(self).relay@ == old(self).relay@,
    {
        self.bridge.expire(now);
        self.relay.poll(now)
    }

    /// What to do about the connection on `h`. When the epoch being served
    /// ends, the bridge ends its epoch too: waiting command issuers are told
    /// that no reply will come, and subscribers stay attached.
    pub fn on_connection(&mut self, h: Happening) -> (a: Action)
        requires
            old(self).wf(),
        ensures
            final(self).wf(),
            final(self).relay@ == old(self).relay@,
            (final(self).supervisor@, a) == decided(old(self).supervisor@, h),
            old(self).supervisor@.phase == Phase::Serving && h is EpochEnded ==> final(self).bridge@ == ended(old(self).bridge@),
            !(old(self).supervisor@.phase == Phase::Serving && h is EpochEnded) ==> final(self).bridge@ == old(self).bridge@,
    {
        let a = self.supervisor.decide(h);
        if let Happening::EpochEnded { .. } = h {
            if let Action::Wait { .. } = a {
                self.bridge.end_epoch();
            }
        }
        a
    }
}

} // verus!
