use vstd::prelude::*;

use crate::batch::elapsed;

verus! {

/// The state of a live viewer's output pacing: when lines were last written
/// to the viewer without a flush, and how many are waiting.
pub struct PacerState {
    pub last: Option<u64>,
    pub waiting: nat,
    pub idle: u64,
    pub cap: nat,
}

/// Whether the lines written to a viewer should be flushed at `now`: some are
/// unflushed, and either more than `cap` are waiting or none came for longer
/// than `idle` milliseconds.
pub open spec fn flush_due(s: PacerState, now: u64) -> bool {
    match s.last {
        Some(t) => elapsed(t, now) > s.idle || s.waiting > s.cap,
        None => false,
    }
}

/// Decides when a live viewer of the raw console output flushes what was
/// written to it, so that bursts of lines go out together.
pub struct Pacer {
    last: Option<u64>,
    waiting: usize,
    idle: u64,
    cap: usize,
}

impl View for Pacer {
    type V = PacerState;

    closed spec fn view(&self) -> PacerState {
        PacerState { last: self.last, waiting: self.waiting as nat, idle: self.idle, cap: self.cap as nat }
    }
}

impl Pacer {
    /// A pacer with nothing waiting.
    pub fn new(idle: u64, cap: usize) -> (r: Pacer)
        ensures
            r@ == (PacerState { last: None, waiting: 0, idle, cap: cap as nat }),
    {
        Pacer { last: None, waiting: 0, idle, cap }
    }

    /// Records that `lines` lines were written to the viewer at `now`.
    pub fn wrote(&mut self, lines: usize, now: u64)
        ensures
            final(self)@ == (PacerState {
                last: Some(now),
                waiting: if old(self)@.waiting + lines <= usize::MAX {
                    (old(self)@.waiting + lines) as nat
                } else {
                    usize::MAX as nat
                },
                ..old(self)@
            }),
    {
        self.waiting = self.waiting.saturating_add(lines);
        self.last = Some(now);
    }

    /// Whether to flush at `now`, as `flush_due` says; after a flush nothing
    /// is waiting.
    pub fn poll(&mut self, now: u64) -> (r: bool)
        ensures
            r == flush_due(old(self)@, now),
            r ==> final(self)@ == (PacerState { last: None, waiting: 0, ..old(self)@ }),
            !r ==> final(self)@ == old(self)@,
    {
        match self.last {
            Some(t) => {
                let since = if now >= t {
                    now - t
                } else {
                    0
                };
                if since > self.idle || self.waiting > self.cap {
                    self.last = None;
                    self.waiting = 0;
                    true
                } else {
                    false
                }
            },
            None => false,
        }
    }
}

} // verus!
