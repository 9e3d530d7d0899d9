use plugin_host::supervisor::{Phase, SessionEvent, Supervisor, BACKOFF_FLOOR, STABLE_SESSION};

fn session(s: &mut Supervisor, start: u64, len: u64) -> u64 {
    assert_eq!(s.on_event(SessionEvent::Attempt, start), None);
    assert_eq!(s.on_event(SessionEvent::Connected, start), None);
    assert_eq!(s.on_event(SessionEvent::Opened, start), None);
    s.on_event(SessionEvent::Ended, start + len).unwrap()
}

#[test]
fn fresh_supervisor() {
    let s = Supervisor::new();
    assert_eq!(s.phase(), Phase::Disconnected);
    assert_eq!(s.current_delay(), BACKOFF_FLOOR);
}

#[test]
fn phases_follow_the_session() {
    let mut s = Supervisor::new();
    s.on_event(SessionEvent::Attempt, 10);
    assert_eq!(s.phase(), Phase::Connecting);
    assert_eq!(s.session_start_time(), 10);
    s.on_event(SessionEvent::Connected, 11);
    assert_eq!(s.phase(), Phase::Identified);
    s.on_event(SessionEvent::Opened, 12);
    assert_eq!(s.phase(), Phase::Streaming);
    assert_eq!(s.on_event(SessionEvent::Ended, 13), Some(1));
    assert_eq!(s.phase(), Phase::Disconnected);
}

#[test]
fn short_sessions_double_the_wait() {
    let mut s = Supervisor::new();
    let mut now = 0;
    for expected in [1u64, 2, 4, 8, 16, 32] {
        assert_eq!(session(&mut s, now, 5), expected);
        now += 5 + expected;
    }
}

#[test]
fn failed_connects_double_the_wait_too() {
    let mut s = Supervisor::new();
    for expected in [1u64, 2, 4, 8] {
        s.on_event(SessionEvent::Attempt, 100);
        assert_eq!(s.on_event(SessionEvent::Ended, 100), Some(expected));
    }
}

#[test]
fn stable_session_resets_the_wait() {
    let mut s = Supervisor::new();
    assert_eq!(session(&mut s, 0, 1), 1);
    assert_eq!(session(&mut s, 10, 1), 2);
    assert_eq!(session(&mut s, 20, 1), 4);
    assert_eq!(session(&mut s, 30, STABLE_SESSION), 1);
    assert_eq!(session(&mut s, 400, 1), 2);
    assert_eq!(session(&mut s, 410, STABLE_SESSION - 1), 4);
    assert_eq!(session(&mut s, 800, STABLE_SESSION + 1000), 1);
}

#[test]
fn wait_stops_growing_at_the_top() {
    let mut s = Supervisor::new();
    let mut last = 0;
    for _ in 0..70 {
        last = session(&mut s, 0, 0);
    }
    assert_eq!(last, u64::MAX);
    assert_eq!(s.current_delay(), u64::MAX);
}

#[test]
fn clock_that_runs_backwards_counts_as_no_time() {
    let mut s = Supervisor::new();
    s.on_event(SessionEvent::Attempt, 1000);
    assert_eq!(s.on_event(SessionEvent::Ended, 10), Some(1));
    assert_eq!(s.current_delay(), 2);
}

#[test]
fn events_out_of_turn_change_nothing() {
    let mut s = Supervisor::new();
    assert_eq!(s.on_event(SessionEvent::Ended, 5), None);
    assert_eq!(s.on_event(SessionEvent::Connected, 5), None);
    assert_eq!(s.on_event(SessionEvent::Opened, 5), None);
    assert_eq!(s, Supervisor::new());
    s.on_event(SessionEvent::Attempt, 7);
    let before = s;
    assert_eq!(s.on_event(SessionEvent::Attempt, 9), None);
    assert_eq!(s.on_event(SessionEvent::Opened, 9), None);
    assert_eq!(s, before);
}
