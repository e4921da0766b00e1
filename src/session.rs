use vstd::prelude::*;

use crate::error::Leg;
use crate::error::RelayError;

verus! {

/// Handshake progress of one TLS leg.
#[derive(Clone, Copy, Debug, PartialEq, Eq, Structural)]
pub enum TlsPhase {
    Idle,
    Handshaking,
    Established,
    Closed,
}

/// Where a record that arrived on a leg's encrypted channel goes.
#[derive(Clone, Copy, Debug, PartialEq, Eq, Structural)]
pub enum RecordRoute {
    /// Consumed by the leg's handshake; not forwarded.
    Handshake,
    /// An application record: decrypted, rewritten and forwarded.
    Application,
    /// The leg is closed; nothing more may pass.
    Rejected,
}

/// Before a leg is established its records belong to the handshake.
pub fn route_record(phase: TlsPhase) -> (r: RecordRoute)
    ensures
        r == match phase {
            TlsPhase::Idle | TlsPhase::Handshaking => RecordRoute::Handshake,
            TlsPhase::Established => RecordRoute::Application,
            TlsPhase::Closed => RecordRoute::Rejected,
        },
{
    match phase {
        TlsPhase::Idle | TlsPhase::Handshaking => RecordRoute::Handshake,
        TlsPhase::Established => RecordRoute::Application,
        TlsPhase::Closed => RecordRoute::Rejected,
    }
}

/// A direction of traffic through the proxy.
#[derive(Clone, Copy, Debug, PartialEq, Eq, Structural)]
pub enum Direction {
    PhoneToHeadUnit,
    HeadUnitToPhone,
}

/// Bytes and frames forwarded in each direction.
#[derive(Clone, Copy, Debug, PartialEq, Eq, Structural)]
pub struct Stats {
    pub phone_to_head_unit_bytes: u64,
    pub phone_to_head_unit_frames: u64,
    pub head_unit_to_phone_bytes: u64,
    pub head_unit_to_phone_frames: u64,
}

/// Why a session ended.
#[derive(Clone, Copy, Debug, PartialEq, Eq, Structural)]
pub enum Termination {
    /// No frame was forwarded in some direction for longer than the timeout.
    IdleTimeout,
    /// The supervisor asked the session to stop.
    Shutdown,
    /// A transport closed, or a framing or TLS error.
    Failed(RelayError),
}

#[derive(Clone, Copy, Debug, PartialEq, Eq, Structural)]
pub enum Phase {
    Running,
    Terminated(Termination),
}

/// Something that happened to a running session; times are milliseconds
/// on a monotonic clock.
#[derive(Clone, Copy, Debug, PartialEq, Eq, Structural)]
pub enum Event {
    /// A frame of `bytes` bytes was forwarded.
    Forwarded { direction: Direction, bytes: u64, now: u64 },
    /// Time passed.
    Tick { now: u64 },
    /// The leg's TLS handshake began.
    HandshakeStarted(Leg),
    /// The leg's TLS handshake completed.
    HandshakeDone(Leg),
    /// A transport, framing or TLS failure.
    Failed(RelayError),
    /// An external shutdown request.
    Shutdown,
}

/// What the driver of the session must do next.
#[derive(Clone, Copy, Debug, PartialEq, Eq, Structural)]
pub enum Action {
    Nothing,
    /// Emit a statistics snapshot.
    Report(Stats),
    /// Close both transport endpoints, drop both TLS legs and any partly
    /// reassembled message, and tell the supervisor that a restart is needed.
    Terminate(Termination),
}

/// The relay loop's own state: phase, idle timers, statistics and both legs.
#[derive(Clone, Copy, Debug, PartialEq, Eq, Structural)]
pub struct Session {
    pub timeout_ms: u64,
    /// Zero disables statistics reports.
    pub stats_interval_ms: u64,
    pub phase: Phase,
    pub endpoints_open: bool,
    pub last_phone_to_head_unit: u64,
    pub last_head_unit_to_phone: u64,
    pub next_report: u64,
    pub stats: Stats,
    pub phone_leg: TlsPhase,
    pub head_unit_leg: TlsPhase,
}

pub open spec fn sat_add(a: u64, b: u64) -> u64 {
    if a as nat + b as nat > u64::MAX as nat {
        u64::MAX
    } else {
        (a + b) as u64
    }
}

fn saturating_sum(a: u64, b: u64) -> (r: u64)
    ensures
        r == sat_add(a, b),
{
    if a > u64::MAX - b {
        u64::MAX
    } else {
        a + b
    }
}

/// Whether more than `timeout` passed from `last` to `now`.
pub open spec fn expired(last: u64, now: u64, timeout: u64) -> bool {
    now > last && now - last > timeout
}

pub open spec fn terminated(s: Session, t: Termination) -> Session {
    Session {
        phase: Phase::Terminated(t),
        endpoints_open: false,
        phone_leg: TlsPhase::Closed,
        head_unit_leg: TlsPhase::Closed,
        ..s
    }
}

pub open spec fn count(st: Stats, d: Direction, bytes: u64) -> Stats {
    match d {
        Direction::PhoneToHeadUnit => Stats {
            phone_to_head_unit_bytes: sat_add(st.phone_to_head_unit_bytes, bytes),
            phone_to_head_unit_frames: sat_add(st.phone_to_head_unit_frames, 1),
            ..st
        },
        Direction::HeadUnitToPhone => Stats {
            head_unit_to_phone_bytes: sat_add(st.head_unit_to_phone_bytes, bytes),
            head_unit_to_phone_frames: sat_add(st.head_unit_to_phone_frames, 1),
            ..st
        },
    }
}

pub open spec fn leg_started(p: TlsPhase) -> TlsPhase {
    if p == TlsPhase::Idle { TlsPhase::Handshaking } else { p }
}

pub open spec fn leg_done(p: TlsPhase) -> TlsPhase {
    if p == TlsPhase::Handshaking { TlsPhase::Established } else { p }
}

/// One decision of the relay loop. A terminated session ignores every event,
/// so the supervisor is told to restart exactly once.
pub open spec fn session_step(s: Session, e: Event) -> (Session, Action) {
    if s.phase != Phase::Running {
        (s, Action::Nothing)
    } else {
        match e {
            Event::Forwarded { direction, bytes, now } => {
                let s1 = Session { stats: count(s.stats, direction, bytes), ..s };
                match direction {
                    Direction::PhoneToHeadUnit => (
                        Session { last_phone_to_head_unit: now, ..s1 },
                        Action::Nothing,
                    ),
                    Direction::HeadUnitToPhone => (
                        Session { last_head_unit_to_phone: now, ..s1 },
                        Action::Nothing,
                    ),
                }
            },
            Event::Tick { now } => {
                if expired(s.last_phone_to_head_unit, now, s.timeout_ms) || expired(
                    s.last_head_unit_to_phone,
                    now,
                    s.timeout_ms,
                ) {
                    (
                        terminated(s, Termination::IdleTimeout),
                        Action::Terminate(Termination::IdleTimeout),
                    )
                } else if s.stats_interval_ms > 0 && now >= s.next_report {
                    (
                        Session { next_report: sat_add(now, s.stats_interval_ms), ..s },
                        Action::Report(s.stats),
                    )
                } else {
                    (s, Action::Nothing)
                }
            },
            Event::HandshakeStarted(leg) => match leg {
                Leg::Phone => (Session { phone_leg: leg_started(s.phone_leg), ..s }, Action::Nothing),
                Leg::HeadUnit => (
                    Session { head_unit_leg: leg_started(s.head_unit_leg), ..s },
                    Action::Nothing,
                ),
            },
            Event::HandshakeDone(leg) => match leg {
                Leg::Phone => (Session { phone_leg: leg_done(s.phone_leg), ..s }, Action::Nothing),
                Leg::HeadUnit => (
                    Session { head_unit_leg: leg_done(s.head_unit_leg), ..s },
                    Action::Nothing,
                ),
            },
            Event::Failed(err) => (
                terminated(s, Termination::Failed(err)),
                Action::Terminate(Termination::Failed(err)),
            ),
            Event::Shutdown => (
                terminated(s, Termination::Shutdown),
                Action::Terminate(Termination::Shutdown),
            ),
        }
    }
}

impl Session {
    /// A running session started at `now`, with both legs idle and no traffic.
    pub fn new(timeout_ms: u64, stats_interval_ms: u64, now: u64) -> (r: Session)
        ensures
            r == (Session {
                timeout_ms,
                stats_interval_ms,
                phase: Phase::Running,
                endpoints_open: true,
                last_phone_to_head_unit: now,
                last_head_unit_to_phone: now,
                next_report: sat_add(now, stats_interval_ms),
                stats: Stats {
                    phone_to_head_unit_bytes: 0,
                    phone_to_head_unit_frames: 0,
                    head_unit_to_phone_bytes: 0,
                    head_unit_to_phone_frames: 0,
                },
                phone_leg: TlsPhase::Idle,
                head_unit_leg: TlsPhase::Idle,
            }),
    {
        Session {
            timeout_ms,
            stats_interval_ms,
            phase: Phase::Running,
            endpoints_open: true,
            last_phone_to_head_unit: now,
            last_head_unit_to_phone: now,
            next_report: saturating_sum(now, stats_interval_ms),
            stats: Stats {
                phone_to_head_unit_bytes: 0,
                phone_to_head_unit_frames: 0,
                head_unit_to_phone_bytes: 0,
                head_unit_to_phone_frames: 0,
            },
            phone_leg: TlsPhase::Idle,
            head_unit_leg: TlsPhase::Idle,
        }
    }

    fn terminate(&mut self, t: Termination) -> (r: Action)
        ensures
            *final(self) == terminated(*old(self), t),
            r == Action::Terminate(t),
    {
        self.phase = Phase::Terminated(t);
        self.endpoints_open = false;
        self.phone_leg = TlsPhase::Closed;
        self.head_unit_leg = TlsPhase::Closed;
        Action::Terminate(t)
    }

    /// Takes one event and says what to do.
    pub fn handle(&mut self, e: Event) -> (r: Action)
        ensures
            (*final(self), r) == session_step(*old(self), e),
    {
        if self.phase != Phase::Running {
            return Action::Nothing;
        }
        match e {
            Event::Forwarded { direction, bytes, now } => {
                match direction {
                    Direction::PhoneToHeadUnit => {
                        self.stats.phone_to_head_unit_bytes = saturating_sum(
                            self.stats.phone_to_head_unit_bytes,
                            bytes,
                        );
                        self.stats.phone_to_head_unit_frames = saturating_sum(
                            self.stats.phone_to_head_unit_frames,
                            1,
                        );
                        self.last_phone_to_head_unit = now;
                    },
                    Direction::HeadUnitToPhone => {
                        self.stats.head_unit_to_phone_bytes = saturating_sum(
                            self.stats.head_unit_to_phone_bytes,
                            bytes,
                        );
                        self.stats.head_unit_to_phone_frames = saturating_sum(
                            self.stats.head_unit_to_phone_frames,
                            1,
                        );
                        self.last_head_unit_to_phone = now;
                    },
                }
                Action::Nothing
            },
            Event::Tick { now } => {
                let idle_out = now > self.last_phone_to_head_unit && now
                    - self.last_phone_to_head_unit > self.timeout_ms;
                let idle_in = now > self.last_head_unit_to_phone && now
                    - self.last_head_unit_to_phone > self.timeout_ms;
                if idle_out || idle_in {
                    self.terminate(Termination::IdleTimeout)
                } else if self.stats_interval_ms > 0 && now >= self.next_report {
                    self.next_report = saturating_sum(now, self.stats_interval_ms);
                    Action::Report(self.stats)
                } else {
                    Action::Nothing
                }
            },
            Event::HandshakeStarted(leg) => {
                match leg {
                    Leg::Phone => {
                        if self.phone_leg == TlsPhase::Idle {
                            self.phone_leg = TlsPhase::Handshaking;
                        }
                    },
                    Leg::HeadUnit => {
                        if self.head_unit_leg == TlsPhase::Idle {
                            self.head_unit_leg = TlsPhase::Handshaking;
                        }
                    },
                }
                Action::Nothing
            },
            Event::HandshakeDone(leg) => {
                match leg {
                    Leg::Phone => {
                        if self.phone_leg == TlsPhase::Handshaking {
                            self.phone_leg = TlsPhase::Established;
                        }
                    },
                    Leg::HeadUnit => {
                        if self.head_unit_leg == TlsPhase::Handshaking {
                            self.head_unit_leg = TlsPhase::Established;
                        }
                    },
                }
                Action::Nothing
            },
            Event::Failed(err) => self.terminate(Termination::Failed(err)),
            Event::Shutdown => self.terminate(Termination::Shutdown),
        }
    }
}

/// Once more than the timeout has passed without a forwarded frame in some
/// direction, the next tick ends a running session as idle, closes both
/// endpoints and both legs, and asks for a restart.
pub proof fn lemma_idle_timeout(s: Session, now: u64)
    requires
        s.phase == Phase::Running,
        expired(s.last_phone_to_head_unit, now, s.timeout_ms) || expired(
            s.last_head_unit_to_phone,
            now,
            s.timeout_ms,
        ),
    ensures
        session_step(s, Event::Tick { now }).0.phase == Phase::Terminated(Termination::IdleTimeout),
        !session_step(s, Event::Tick { now }).0.endpoints_open,
        session_step(s, Event::Tick { now }).0.phone_leg == TlsPhase::Closed,
        session_step(s, Event::Tick { now }).0.head_unit_leg == TlsPhase::Closed,
        session_step(s, Event::Tick { now }).1 == Action::Terminate(Termination::IdleTimeout),
{
}

/// A terminated session stays terminated and asks for nothing more, whatever
/// happens next; the restart request is raised once.
pub proof fn lemma_terminated_is_final(s: Session, e: Event)
    requires
        s.phase != Phase::Running,
    ensures
        session_step(s, e) == (s, Action::Nothing),
{
}

} // verus!
