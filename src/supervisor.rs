use vstd::prelude::*;

verus! {

/// What happened to the connection since the supervisor last decided.
#[derive(PartialEq, Eq, Structural, Debug, Clone, Copy)]
pub enum Happening {
    /// The supervisor has just started.
    Started,
    /// A transport was acquired.
    Connected,
    /// Acquiring a transport failed.
    ConnectFailed,
    /// The current transport closed or failed after serving for `ran_for` milliseconds.
    EpochEnded { ran_for: u64 },
    /// The wait asked for has passed.
    Waited,
}

/// What the supervisor asks of the loop that runs it. There is no way to stop:
/// the supervisor never gives up on the external process.
#[derive(PartialEq, Eq, Structural, Debug, Clone, Copy)]
pub enum Action {
    /// Try to acquire a transport.
    Connect,
    /// Serve the acquired transport until it ends.
    Serve,
    /// Wait this many milliseconds, then report `Waited`.
    Wait { millis: u64 },
    /// Nothing: the report does not fit what the supervisor asked for last.
    Stay,
}

/// What the supervisor last asked for.
#[derive(PartialEq, Eq, Structural, Debug, Clone, Copy)]
pub enum Phase {
    /// Nothing yet.
    Starting,
    /// A connection attempt.
    Connecting,
    /// Serving a connection.
    Serving,
    /// A wait before the next attempt.
    Waiting,
}

/// The supervisor's settings and its current backoff, in milliseconds.
pub struct SupervisorState {
    pub phase: Phase,
    pub base: u64,
    pub cap: u64,
    pub healthy_after: u64,
    pub backoff: u64,
}

/// Twice `d`, held at `cap`.
pub open spec fn doubled(d: u64, cap: u64) -> u64 {
    if d as int * 2 <= cap as int {
        (d * 2) as u64
    } else {
        cap
    }
}

/// The wait after a failure: the current backoff, or the base value if the
/// epoch that just ended ran for at least `healthy_after`.
pub open spec fn wait_for(s: SupervisorState, h: Happening) -> u64 {
    match h {
        Happening::EpochEnded { ran_for } if ran_for >= s.healthy_after => s.base,
        _ => s.backoff,
    }
}

/// The report `h` fits phase `p`: a start when starting, the outcome of an
/// attempt when connecting, the end of the epoch when serving, the end of the
/// wait when waiting.
pub open spec fn fits(p: Phase, h: Happening) -> bool {
    match (p, h) {
        (Phase::Starting, Happening::Started) => true,
        (Phase::Connecting, Happening::Connected) => true,
        (Phase::Connecting, Happening::ConnectFailed) => true,
        (Phase::Serving, Happening::EpochEnded { .. }) => true,
        (Phase::Waiting, Happening::Waited) => true,
        _ => false,
    }
}

/// The supervisor's decision on `h`, and its state afterwards. A report that
/// does not fit the phase changes nothing.
pub open spec fn decided(s: SupervisorState, h: Happening) -> (SupervisorState, Action) {
    if !fits(s.phase, h) {
        (s, Action::Stay)
    } else {
        match h {
            Happening::Started | Happening::Waited => (
                SupervisorState { phase: Phase::Connecting, ..s },
                Action::Connect,
            ),
            Happening::Connected => (SupervisorState { phase: Phase::Serving, ..s }, Action::Serve),
            _ => {
                let d = wait_for(s, h);
                (
                    SupervisorState { phase: Phase::Waiting, backoff: doubled(d, s.cap), ..s },
                    Action::Wait { millis: d },
                )
            },
        }
    }
}

/// Keeps the connection to the external process: decides when to connect, to
/// serve, and how long to wait after a failure, doubling the wait on each
/// failure up to a cap and returning to the base wait after a healthy epoch.
pub struct Supervisor {
    phase: Phase,
    base: u64,
    cap: u64,
    healthy_after: u64,
    backoff: u64,
}

impl View for Supervisor {
    type V = SupervisorState;

    closed spec fn view(&self) -> SupervisorState {
        SupervisorState {
            phase: self.phase,
            base: self.base,
            cap: self.cap,
            healthy_after: self.healthy_after,
            backoff: self.backoff,
        }
    }
}

/// The supervisor's settings are sound: waits start at a positive base, no
/// larger than the cap, and the current wait lies between the two.
pub open spec fn sound(s: SupervisorState) -> bool {
    0 < s.base <= s.backoff <= s.cap
}

impl Supervisor {
    /// A supervisor whose waits start at `base` and double up to `cap`
    /// milliseconds, and which counts an epoch of at least `healthy_after`
    /// milliseconds as healthy.
    pub fn new(base: u64, cap: u64, healthy_after: u64) -> (r: Supervisor)
        requires
            0 < base <= cap,
        ensures
            r@ == (SupervisorState { phase: Phase::Starting, base, cap, healthy_after, backoff: base }),
            sound(r@),
    {
        Supervisor { phase: Phase::Starting, base, cap, healthy_after, backoff: base }
    }

    /// Decides what to do on `h`.
    pub fn decide(&mut self, h: Happening) -> (a: Action)
        requires
            sound(old(self)@),
        ensures
            sound(final(self)@),
            (final(self)@, a) == decided(old(self)@, h),
    {
        let fit = match (self.phase, h) {
            (Phase::Starting, Happening::Started) => true,
            (Phase::Connecting, Happening::Connected) => true,
            (Phase::Connecting, Happening::ConnectFailed) => true,
            (Phase::Serving, Happening::EpochEnded { .. }) => true,
            (Phase::Waiting, Happening::Waited) => true,
            _ => false,
        };
        if !fit {
            return Action::Stay;
        }
        match h {
            Happening::Started | Happening::Waited => {
                self.phase = Phase::Connecting;
                Action::Connect
            },
            Happening::Connected => {
                self.phase = Phase::Serving;
                Action::Serve
            },
            _ => {
                self.phase = Phase::Waiting;
                let d = match h {
                    Happening::EpochEnded { ran_for } if ran_for >= self.healthy_after => self.base,
                    _ => self.backoff,
                };
                self.backoff = if d <= self.cap / 2 {
                    d * 2
                } else {
                    self.cap
                };
                Action::Wait { millis: d }
            },
        }
    }
}

/// A failure that does not reset the backoff and that the phase expects: a
/// failed connect while connecting, or an epoch shorter than `healthy_after`
/// while serving.
pub open spec fn quick_failure(s: SupervisorState, h: Happening) -> bool {
    match h {
        Happening::ConnectFailed => s.phase == Phase::Connecting,
        Happening::EpochEnded { ran_for } => s.phase == Phase::Serving && ran_for < s.healthy_after,
        _ => false,
    }
}

/// Backoff grows: after a failure and its wait, a second failure, of either
/// kind, waits longer than the first, until the first wait reaches the cap.
pub proof fn lemma_backoff_grows(s: SupervisorState, first: Happening, ran_for: u64)
    requires
        sound(s),
        quick_failure(s, first),
        ran_for < s.healthy_after,
        s.backoff < s.cap,
    ensures
        ({
            let (m1, a1) = decided(s, first);
            let (m2, a2) = decided(m1, Happening::Waited);
            let (_, a3) = decided(m2, Happening::ConnectFailed);
            let (m4, a4) = decided(m2, Happening::Connected);
            let (_, a5) = decided(m4, Happening::EpochEnded { ran_for });
            &&& a2 == Action::Connect
            &&& a4 == Action::Serve
            &&& a1 matches Action::Wait { millis: d1 }
            &&& a3 matches Action::Wait { millis: d3 }
            &&& a5 matches Action::Wait { millis: d5 }
            &&& d1 < d3 && d1 < d5
        }),
{
}

/// Backoff resets: when an epoch that ran for at least `healthy_after` ends,
/// the wait is the base value again, whatever failures came before.
pub proof fn lemma_backoff_resets(s: SupervisorState, ran_for: u64)
    requires
        sound(s),
        s.phase == Phase::Serving,
        ran_for >= s.healthy_after,
    ensures
        decided(s, Happening::EpochEnded { ran_for }).1 == (Action::Wait { millis: s.base }),
        decided(s, Happening::EpochEnded { ran_for }).0.backoff == doubled(s.base, s.cap),
{
}

/// One connection at a time: the supervisor asks to connect only at its start
/// or at the end of a wait, and it starts waiting only after a failed attempt
/// or the end of the epoch being served; while serving, nothing but the end
/// of the epoch moves it on.
pub proof fn lemma_one_connection(s: SupervisorState, h: Happening)
    ensures
        decided(s, h).1 == Action::Connect ==> (s.phase == Phase::Starting && h == Happening::Started)
            || (s.phase == Phase::Waiting && h == Happening::Waited),
        decided(s, h).0.phase == Phase::Waiting && s.phase != Phase::Waiting ==> (s.phase
            == Phase::Connecting && h == Happening::ConnectFailed) || (s.phase == Phase::Serving
            && h is EpochEnded),
        s.phase == Phase::Serving && !(h is EpochEnded) ==> decided(s, h) == (s, Action::Stay),
{
}

} // verus!
