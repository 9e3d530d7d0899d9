//! The life of a protocol session, and the wait between sessions.
//!
//! A session is connected, identified and streamed, and ends on a failed
//! connect, a read error or a closed stream. After each end the supervisor
//! waits before it tries again: one second at first, twice as long after
//! every further session that ended early. A session that lasted
//! `STABLE_SESSION` seconds or more takes the wait back to one second.
//!
//! Times are seconds on a clock of the host's choosing. A session is measured
//! from the start of its connection attempt.

use vstd::arithmetic::power2::{
    lemma2_to64, lemma_pow2_strictly_increases, lemma_pow2_unfold, pow2,
};
use vstd::prelude::*;

verus! {

/// The shortest wait, in seconds.
pub const BACKOFF_FLOOR: u64 = 1;

/// How long a session must have lasted, in seconds, for the wait to start
/// over.
pub const STABLE_SESSION: u64 = 300;

/// Where a session stands.
#[derive(Clone, Copy, Debug, PartialEq, Eq, Structural)]
pub enum Phase {
    Disconnected,
    Connecting,
    Identified,
    Streaming,
}

/// What the host reports.
#[derive(Clone, Copy, Debug, PartialEq, Eq, Structural)]
pub enum SessionEvent {
    /// A connection attempt starts.
    Attempt,
    /// The connection stands and the identification was sent.
    Connected,
    /// The message stream is open.
    Opened,
    /// The session is over: the connect failed, a read failed, or the
    /// stream was closed.
    Ended,
}

/// The state of the supervisor.
#[derive(Clone, Copy, Debug, PartialEq, Eq, Structural)]
pub struct Supervisor {
    phase: Phase,
    current_delay: u64,
    session_start_time: u64,
}

/// A `Supervisor`, open to contracts.
pub ghost struct SupervisorView {
    pub phase: Phase,
    pub current_delay: nat,
    pub session_start_time: nat,
}

impl View for Supervisor {
    type V = SupervisorView;

    closed spec fn view(&self) -> SupervisorView {
        SupervisorView {
            phase: self.phase,
            current_delay: self.current_delay as nat,
            session_start_time: self.session_start_time as nat,
        }
    }
}

/// Twice `wait`, as far as the counter goes.
pub open spec fn doubled(wait: nat) -> nat {
    if 2 * wait > u64::MAX {
        u64::MAX as nat
    } else {
        2 * wait
    }
}

/// The wait after a session that lasted `lasted` seconds, `delay` being the
/// wait that was due.
pub open spec fn wait_for(delay: nat, lasted: nat) -> nat {
    if lasted >= STABLE_SESSION {
        BACKOFF_FLOOR as nat
    } else {
        delay
    }
}

/// How long a session lasted that started at `start` and ended at `now`.
pub open spec fn lasted(start: nat, now: nat) -> nat {
    if now >= start {
        (now - start) as nat
    } else {
        0
    }
}

/// The state after `event` at the time `now`. An event that cannot follow
/// the phase changes nothing.
pub open spec fn session_next(s: SupervisorView, event: SessionEvent, now: nat) -> SupervisorView {
    match (s.phase, event) {
        (Phase::Disconnected, SessionEvent::Attempt) => SupervisorView {
            phase: Phase::Connecting,
            session_start_time: now,
            ..s
        },
        (Phase::Connecting, SessionEvent::Connected) => SupervisorView {
            phase: Phase::Identified,
            ..s
        },
        (Phase::Identified, SessionEvent::Opened) => SupervisorView {
            phase: Phase::Streaming,
            ..s
        },
        (Phase::Connecting, SessionEvent::Ended)
        | (Phase::Identified, SessionEvent::Ended)
        | (Phase::Streaming, SessionEvent::Ended) => SupervisorView {
            phase: Phase::Disconnected,
            current_delay: doubled(wait_for(s.current_delay, lasted(s.session_start_time, now))),
            ..s
        },
        _ => s,
    }
}

/// The seconds to wait before the next attempt, where `event` ends a
/// session.
pub open spec fn session_wait(s: SupervisorView, event: SessionEvent, now: nat) -> Option<nat> {
    if event == SessionEvent::Ended && s.phase != Phase::Disconnected {
        Some(wait_for(s.current_delay, lasted(s.session_start_time, now)))
    } else {
        None
    }
}

/// The wait that is due after `n` sessions in a row that ended early.
pub open spec fn backoff(n: nat) -> nat
    decreases n,
{
    if n == 0 {
        BACKOFF_FLOOR as nat
    } else {
        doubled(backoff((n - 1) as nat))
    }
}

/// The state after `n` more sessions, each started the moment the last one
/// ended and each lasting `len` seconds.
pub open spec fn after_sessions(s: SupervisorView, n: nat, start: nat, len: nat) -> SupervisorView
    decreases n,
{
    if n == 0 {
        s
    } else {
        let before = after_sessions(s, (n - 1) as nat, start, len);
        let begin = (start + (n - 1) * len) as nat;
        session_next(
            session_next(before, SessionEvent::Attempt, begin),
            SessionEvent::Ended,
            begin + len,
        )
    }
}

impl Supervisor {
    /// A supervisor that never had a session.
    pub fn new() -> (s: Supervisor)
        ensures
            s@ == (SupervisorView {
                phase: Phase::Disconnected,
                current_delay: BACKOFF_FLOOR as nat,
                session_start_time: 0,
            }),
    {
        Supervisor {
            phase: Phase::Disconnected,
            current_delay: BACKOFF_FLOOR,
            session_start_time: 0,
        }
    }

    /// Where the session stands.
    pub fn phase(&self) -> (p: Phase)
        ensures
            p == self@.phase,
    {
        self.phase
    }

    /// The wait that is due if the session in hand ends early.
    pub fn current_delay(&self) -> (d: u64)
        ensures
            d == self@.current_delay,
    {
        self.current_delay
    }

    /// When the session in hand started.
    pub fn session_start_time(&self) -> (t: u64)
        ensures
            t == self@.session_start_time,
    {
        self.session_start_time
    }

    /// Takes one report of the host at the time `now`. Where it ends a
    /// session, the result is the number of seconds to wait before the next
    /// attempt.
    pub fn on_event(&mut self, event: SessionEvent, now: u64) -> (wait: Option<u64>)
        ensures
            final(self)@ == session_next(old(self)@, event, now as nat),
            match wait {
                Some(w) => session_wait(old(self)@, event, now as nat) == Some(w as nat),
                None => session_wait(old(self)@, event, now as nat) is None,
            },
    {
        match (self.phase, event) {
            (Phase::Disconnected, SessionEvent::Attempt) => {
                self.phase = Phase::Connecting;
                self.session_start_time = now;
                None
            },
            (Phase::Connecting, SessionEvent::Connected) => {
                self.phase = Phase::Identified;
                None
            },
            (Phase::Identified, SessionEvent::Opened) => {
                self.phase = Phase::Streaming;
                None
            },
            (Phase::Connecting, SessionEvent::Ended)
            | (Phase::Identified, SessionEvent::Ended)
            | (Phase::Streaming, SessionEvent::Ended) => {
                let lasted: u64 = if now >= self.session_start_time {
                    now - self.session_start_time
                } else {
                    0
                };
                let wait: u64 = if lasted >= STABLE_SESSION {
                    BACKOFF_FLOOR
                } else {
                    self.current_delay
                };
                self.phase = Phase::Disconnected;
                self.current_delay = if wait > u64::MAX / 2 {
                    u64::MAX
                } else {
                    wait * 2
                };
                Some(wait)
            },
            _ => None,
        }
    }
}

/// A session that lasted `STABLE_SESSION` seconds or more is followed by a
/// wait of `BACKOFF_FLOOR`, whatever came before; a shorter one is followed
/// by the wait that was due, and makes the next wait twice as long.
pub proof fn lemma_session_end(s: SupervisorView, now: nat)
    requires
        s.phase != Phase::Disconnected,
    ensures
        lasted(s.session_start_time, now) >= STABLE_SESSION ==> session_wait(
            s,
            SessionEvent::Ended,
            now,
        ) == Some(BACKOFF_FLOOR as nat),
        lasted(s.session_start_time, now) < STABLE_SESSION ==> session_wait(
            s,
            SessionEvent::Ended,
            now,
        ) == Some(s.current_delay),
        session_wait(s, SessionEvent::Ended, now) matches Some(w) && session_next(
            s,
            SessionEvent::Ended,
            now,
        ).current_delay == doubled(w),
        session_next(s, SessionEvent::Ended, now).phase == Phase::Disconnected,
{
}

/// Sessions in a row that each end early double the wait: from a supervisor
/// whose wait is `BACKOFF_FLOOR`, the wait that is due after `n` of them is
/// `backoff(n)`, so 1, 2, 4, 8 and so on, as far as the counter goes.
pub proof fn lemma_backoff_doubles(s: SupervisorView, n: nat, start: nat, len: nat)
    requires
        s.phase == Phase::Disconnected,
        s.current_delay == BACKOFF_FLOOR,
        len < STABLE_SESSION,
    ensures
        after_sessions(s, n, start, len).phase == Phase::Disconnected,
        after_sessions(s, n, start, len).current_delay == backoff(n),
    decreases n,
{
    if n > 0 {
        lemma_backoff_doubles(s, (n - 1) as nat, start, len);
    }
}

/// As long as the counter holds it, the wait after `n` sessions in a row
/// that ended early is 2 to the power of `n`; from then on it is the
/// greatest number the counter holds.
pub proof fn lemma_backoff_is_power(n: nat)
    ensures
        n < 64 ==> backoff(n) == pow2(n),
        n >= 64 ==> backoff(n) == u64::MAX,
    decreases n,
{
    lemma2_to64();
    if n > 0 {
        lemma_backoff_is_power((n - 1) as nat);
        if n < 64 {
            lemma_pow2_unfold(n);
            lemma_pow2_strictly_increases(n, 64);
        } else if n == 64 {
            lemma_pow2_unfold(64);
        }
    } else {
        assert(pow2(0) == 1);
    }
}

/// The first waits are 1, 2, 4 and 8 seconds.
pub proof fn lemma_backoff_values()
    ensures
        backoff(0) == 1,
        backoff(1) == 2,
        backoff(2) == 4,
        backoff(3) == 8,
{
    reveal_with_fuel(backoff, 5);
}

} // verus!
