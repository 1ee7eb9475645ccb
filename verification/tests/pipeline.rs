use epd_core::net::{AssociationState, RadioMode, StatusReport};
use epd_core::orchestrator::{next_phase, FetchOutcome, Phase};
use epd_core::socket::{BlockingSocket, ReadOutcome, SocketError, SocketPhase};

#[test]
fn association_completes_after_n_plus_one_checks() {
    let n = 5u64;
    let mut s = AssociationState::new();
    s.begin_scan(10);
    s.on_scan_complete(3);
    assert_eq!(s.ap_seen, 3);
    assert_eq!(s.scan_limit, 10);
    s.begin_connect();
    for _ in 0..n {
        s.on_status_check(StatusReport::NotConnected);
        assert!(matches!(s.mode, RadioMode::Connecting));
        assert!(s.address.is_none());
    }
    s.on_status_check(StatusReport::Connected);
    assert!(matches!(s.mode, RadioMode::Connected));
    assert_eq!(s.checks, n + 1);

    // The address appears exactly once the interface reports up.
    s.on_iface_poll(false, None);
    assert!(s.address.is_none());
    s.on_iface_poll(true, Some(0xC0A8_0117));
    assert!(s.iface_up);
    assert_eq!(s.address, Some(0xC0A8_0117));
}

#[test]
fn radio_error_is_terminal_for_the_attempt() {
    let mut s = AssociationState::new();
    s.begin_scan(10);
    s.on_scan_complete(25);
    assert_eq!(s.ap_seen, 10);
    s.begin_connect();
    s.on_status_check(StatusReport::NotConnected);
    s.on_status_check(StatusReport::RadioError);
    assert!(matches!(s.mode, RadioMode::Failed));
    assert!(s.failure.is_some());
    assert_eq!(s.checks, 2);
}

#[test]
fn socket_open_only_from_idle_and_with_a_route() {
    let mut s = BlockingSocket::new(64);
    assert_eq!(s.open(false), Err(SocketError::ConnectError));
    assert_eq!(s.open(true), Ok(()));
    assert!(matches!(s.phase, SocketPhase::Opening));
    // A second open while the handshake runs is refused.
    assert_eq!(s.open(true), Err(SocketError::ConnectError));
    // After teardown an open is accepted again.
    s.on_established();
    s.disconnect();
    assert!(matches!(s.phase, SocketPhase::Closed));
    assert_eq!(s.open(true), Ok(()));
}

#[test]
fn socket_write_and_flush_keep_order() {
    let mut s = BlockingSocket::new(64);
    assert_eq!(s.write(b"GET"), Err(SocketError::WriteError));
    assert_eq!(s.flush(), Err(SocketError::FlushError));
    s.open(true).unwrap();
    s.on_established();
    assert_eq!(s.write(b"GET / HTTP/1.0\r\n"), Ok(16));
    assert_eq!(s.write(b"\r\n"), Ok(2));
    let out = s.flush().unwrap();
    assert_eq!(out, b"GET / HTTP/1.0\r\n\r\n");
    assert_eq!(s.flush().unwrap(), b"");
}

#[test]
fn socket_write_beyond_capacity_is_refused_whole() {
    let mut s = BlockingSocket::new(4);
    s.open(true).unwrap();
    s.on_established();
    assert_eq!(s.write(b"abc"), Ok(3));
    assert_eq!(s.write(b"de"), Err(SocketError::WriteError));
    assert_eq!(s.flush().unwrap(), b"abc");
}

#[test]
fn read_reports_end_of_stream_after_peer_close() {
    let mut s = BlockingSocket::new(64);
    s.open(true).unwrap();
    s.on_established();
    s.set_deadline(1_000);
    s.on_data(b"tail");
    s.on_peer_closed();
    // Buffered bytes still come out first...
    match s.read(16, 10) {
        ReadOutcome::Data(d) => assert_eq!(d, b"tail"),
        _ => panic!("expected data"),
    }
    // ...then end of stream, promptly, instead of hanging.
    assert!(matches!(s.read(16, 11), ReadOutcome::EndOfStream));
    assert!(matches!(s.read(16, 2_000), ReadOutcome::EndOfStream));
}

#[test]
fn read_before_deadline_with_no_data_is_empty_not_an_error() {
    let mut s = BlockingSocket::new(64);
    s.open(true).unwrap();
    s.on_established();
    s.set_deadline(1_000);
    assert!(matches!(s.read(16, 0), ReadOutcome::Empty));
    assert!(matches!(s.read(16, 1_000), ReadOutcome::Empty));
    assert!(matches!(s.read(16, 1_001), ReadOutcome::DeadlinePassed));
}

#[test]
fn read_delivers_bytes_in_arrival_order() {
    let mut s = BlockingSocket::new(64);
    s.open(true).unwrap();
    s.on_established();
    s.set_deadline(1_000);
    s.on_data(b"HTTP/1.0 200 OK");
    s.on_data(b"\r\n\r\nbody");
    match s.read(15, 1) {
        ReadOutcome::Data(d) => assert_eq!(d, b"HTTP/1.0 200 OK"),
        _ => panic!("expected data"),
    }
    match s.read(64, 2) {
        ReadOutcome::Data(d) => assert_eq!(d, b"\r\n\r\nbody"),
        _ => panic!("expected data"),
    }
    assert!(matches!(s.read(64, 3), ReadOutcome::Empty));
}

#[test]
fn phases_run_forward_and_idle_is_terminal() {
    let mut p = Phase::Init;
    let expected = [
        Phase::RadioUp,
        Phase::AddressAcquired,
        Phase::Fetching,
        Phase::FetchDone,
        Phase::Composing,
        Phase::Rendered,
        Phase::Idle,
    ];
    for e in expected {
        p = next_phase(p, FetchOutcome::Done);
        assert_eq!(p, e);
    }
    assert_eq!(next_phase(Phase::Idle, FetchOutcome::Done), Phase::Idle);
    assert_eq!(next_phase(Phase::Idle, FetchOutcome::TimedOut), Phase::Idle);
}

#[test]
fn fetch_timeout_still_reaches_composing() {
    let p = next_phase(Phase::Fetching, FetchOutcome::TimedOut);
    assert_eq!(p, Phase::FetchTimeout);
    assert_eq!(next_phase(p, FetchOutcome::TimedOut), Phase::Composing);
}
