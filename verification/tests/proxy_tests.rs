use termproxy::proxy::{deadline_passed, remaining_wait, ProxyState};

#[test]
fn initial_state_is_optimistic() {
    let s = ProxyState::new();
    assert!(s.tcp_readable && s.tcp_writable && s.pty_readable && s.pty_writable);
    assert_eq!(s.remaining, 0);
    assert!(!s.finished);
}

#[test]
fn polls_immediately_only_while_work_is_pending() {
    let mut s = ProxyState::new();
    assert!(s.poll_immediately(false, false));
    // both target buffers full: nothing useful to do without waiting
    assert!(!s.poll_immediately(true, true));
    s.would_block(true, true);
    s.would_block(false, true);
    // nothing readable: block however much room there is
    assert!(!s.poll_immediately(false, false));
}

#[test]
fn events_only_ever_set_flags() {
    let mut s = ProxyState::new();
    s.would_block(true, true);
    s.would_block(false, false);
    assert!(!s.tcp_readable && !s.pty_writable);
    s.apply_event(true, true, false, false);
    assert!(s.tcp_readable);
    assert!(!s.pty_writable);
    s.apply_event(false, false, true, false);
    assert!(s.pty_writable);
    assert!(!s.finished);
}

#[test]
fn a_closed_read_side_requests_termination() {
    let mut s = ProxyState::new();
    s.apply_event(true, false, false, true);
    assert!(s.finished);
}

#[test]
fn zero_byte_read_requests_termination() {
    let mut s = ProxyState::new();
    s.peer_closed();
    assert!(s.finished);
}

#[test]
fn errors_are_fatal_only_before_shutdown() {
    let mut s = ProxyState::new();
    assert!(s.error_is_fatal());
    s.peer_closed();
    assert!(!s.error_is_fatal());
}

#[test]
fn payload_accounting_never_overshoots() {
    let mut s = ProxyState::new();
    s.begin_data(5);
    assert_eq!(s.chunk_len(3), 3);
    s.forwarded(3);
    assert_eq!(s.remaining, 2);
    assert_eq!(s.chunk_len(10), 2);
    s.forwarded(2);
    assert_eq!(s.remaining, 0);
}

#[test]
fn late_passes_never_wait_negatively() {
    assert_eq!(remaining_wait(0, 10_000), 10_000);
    assert_eq!(remaining_wait(9_999, 10_000), 1);
    assert_eq!(remaining_wait(10_000, 10_000), 0);
    assert_eq!(remaining_wait(20_000, 10_000), 0);
}

#[test]
fn the_deadline_is_inclusive() {
    assert!(!deadline_passed(10_000, 10_000));
    assert!(deadline_passed(10_001, 10_000));
}
