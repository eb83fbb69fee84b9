use toi_server::handoff::{communicate, give_response, poll_notification, receive, take_request, Shared};
use toi_server::reactor::{grow_buffer, TcpServer, WriteOutcome, READ_CHUNK};
use toi_server::readiness::Interest;
use toi_server::waiter::{waiter_step, WaiterState};

#[test]
fn scenario_ping_pong() {
    let mut s = TcpServer::new();
    let t = s.accept_connection();
    assert_eq!(t, 1);

    let step = s.handle_readable(t, b"ping".to_vec(), false);
    assert!(step.handled);
    assert!(step.dispatched);
    assert!(!step.close);
    assert!(s.in_flight(t));

    let sh = receive(&mut s);
    assert!(!sh.null);
    assert_eq!(sh.token, t);
    assert_eq!(sh.value, b"ping".to_vec());

    assert!(communicate(&mut s, t, b"pong".to_vec()));
    assert!(s.waiter_poll(t));
    assert!(matches!(s.registered_interest(t), Some(Interest::Writable)));

    let data = s.handle_writable(t).unwrap();
    assert_eq!(data, b"pong".to_vec());
    let close = s.handle_write_result(t, WriteOutcome::Wrote(data.len()));
    assert!(!close);
    assert!(!s.in_flight(t));
    assert!(matches!(s.registered_interest(t), Some(Interest::Readable)));
}

#[test]
fn at_most_one_in_flight() {
    let mut s = TcpServer::new();
    let t = s.accept_connection();

    let first = s.handle_readable(t, b"first".to_vec(), false);
    assert!(first.dispatched);
    assert_eq!(s.notification_count(), 1);

    // A second rapid write before any response: nothing is read, nothing is
    // queued.
    let second = s.handle_readable(t, b"second".to_vec(), false);
    assert!(!second.handled);
    assert!(!second.dispatched);
    assert_eq!(s.notification_count(), 1);

    // After the response is written back, the connection accepts requests
    // again.
    assert_eq!(receive(&mut s).value, b"first".to_vec());
    assert!(give_response(&mut s, t, b"ok".to_vec()));
    assert!(s.waiter_poll(t));
    let data = s.handle_writable(t).unwrap();
    assert!(!s.handle_write_result(t, WriteOutcome::Wrote(data.len())));
    let third = s.handle_readable(t, b"third".to_vec(), false);
    assert!(third.dispatched);
    assert_eq!(s.notification_count(), 1);
}

#[test]
fn tokens_monotonic_never_reused() {
    let mut s = TcpServer::new();
    let t1 = s.accept_connection();
    let t2 = s.accept_connection();
    let t3 = s.accept_connection();
    assert!(t1 < t2 && t2 < t3);

    assert!(s.close_connection(t2));
    let t4 = s.accept_connection();
    assert!(t4 > t3);
    assert_ne!(t4, t2);
}

#[test]
fn registry_readiness_agree() {
    let mut s = TcpServer::new();
    let t1 = s.accept_connection();
    let t2 = s.accept_connection();
    for t in [t1, t2] {
        assert_eq!(s.has_connection(t), s.is_registered(t));
        assert!(s.has_connection(t));
    }
    assert!(s.is_registered(0));
    assert!(!s.has_connection(0));

    assert!(s.close_connection(t1));
    assert!(!s.has_connection(t1));
    assert!(!s.is_registered(t1));
    assert!(s.has_connection(t2));
    assert!(s.is_registered(t2));

    // Closing an unknown token is a no-op, not a panic.
    assert!(!s.close_connection(999));
}

#[test]
fn close_keyword_closes_without_notification() {
    let mut s = TcpServer::new();
    let t = s.accept_connection();
    let step = s.handle_readable(t, b"exit".to_vec(), false);
    assert!(step.handled);
    assert!(!step.dispatched);
    assert!(step.close);
    assert_eq!(s.notification_count(), 0);
    assert!(s.close_connection(t));
    assert!(receive(&mut s).null);
}

#[test]
fn close_keyword_case_insensitive_with_whitespace() {
    let mut s = TcpServer::new();
    let t = s.accept_connection();
    let step = s.handle_readable(t, b"  EXIT \r\n".to_vec(), false);
    assert!(step.close);
    assert_eq!(s.notification_count(), 0);
}

#[test]
fn end_of_stream_closes() {
    let mut s = TcpServer::new();
    let t = s.accept_connection();
    let step = s.handle_readable(t, Vec::new(), true);
    assert!(step.handled);
    assert!(step.close);
    assert!(!step.dispatched);
}

#[test]
fn non_utf8_dropped_connection_stays() {
    let mut s = TcpServer::new();
    let t = s.accept_connection();
    let step = s.handle_readable(t, vec![0xff, 0xfe, 0x61], false);
    assert!(step.handled);
    assert!(!step.dispatched);
    assert!(!step.close);
    assert_eq!(s.notification_count(), 0);
    assert!(!s.in_flight(t));

    // The connection still accepts a well-formed request afterwards.
    let again = s.handle_readable(t, b"ping".to_vec(), false);
    assert!(again.dispatched);
}

#[test]
fn response_for_closed_connection_is_discarded() {
    let mut s = TcpServer::new();
    let t = s.accept_connection();
    assert!(s.handle_readable(t, b"ping".to_vec(), false).dispatched);
    let sh = receive(&mut s);
    assert_eq!(sh.token, t);

    // The client disconnects before the processor answers.
    assert!(s.close_connection(t));
    assert!(!give_response(&mut s, t, b"pong".to_vec()));
    assert!(!communicate(&mut s, t, b"pong".to_vec()));
}

#[test]
fn two_clients_get_their_own_responses() {
    let mut s = TcpServer::new();
    let t1 = s.accept_connection();
    let t2 = s.accept_connection();

    assert!(s.handle_readable(t1, b"one".to_vec(), false).dispatched);
    assert!(s.handle_readable(t2, b"two".to_vec(), false).dispatched);
    assert_eq!(s.notification_count(), 2);

    let n1 = poll_notification(&mut s).unwrap();
    let n2 = poll_notification(&mut s).unwrap();
    assert!(n1 != n2);
    assert!(n1 == t1 || n1 == t2);
    assert!(n2 == t1 || n2 == t2);

    assert_eq!(take_request(&mut s, t1).unwrap(), b"one".to_vec());
    assert_eq!(take_request(&mut s, t2).unwrap(), b"two".to_vec());

    assert!(give_response(&mut s, t1, b"answer one".to_vec()));
    assert!(give_response(&mut s, t2, b"answer two".to_vec()));
    assert!(s.waiter_poll(t1));
    assert!(s.waiter_poll(t2));
    assert_eq!(s.handle_writable(t1).unwrap(), b"answer one".to_vec());
    assert_eq!(s.handle_writable(t2).unwrap(), b"answer two".to_vec());
}

#[test]
fn shutdown_stops_reactor_and_waiters() {
    let mut s = TcpServer::new();
    let t1 = s.accept_connection();
    let t2 = s.accept_connection();
    let t3 = s.accept_connection();
    for t in [t1, t2, t3] {
        assert!(s.handle_readable(t, b"work".to_vec(), false).dispatched);
    }

    assert!(s.should_run());
    s.raise_shutdown();
    assert!(!s.should_run());
    // Raising it twice is a no-op.
    s.raise_shutdown();
    assert!(!s.should_run());

    // Every waiter terminates within three bounded-wait steps.
    for w in [
        WaiterState::Spawned,
        WaiterState::WaitingForResponse,
        WaiterState::ResponseReceived,
        WaiterState::ShutdownObserved,
        WaiterState::Terminated,
    ] {
        let w1 = waiter_step(w, false, true);
        let w2 = waiter_step(w1, false, true);
        let w3 = waiter_step(w2, false, true);
        assert_eq!(w3, WaiterState::Terminated);
    }

    // Teardown drops every connection and its registration.
    s.drain_connections();
    assert_eq!(s.connection_count(), 0);
    for t in [t1, t2, t3] {
        assert!(!s.has_connection(t));
        assert!(!s.is_registered(t));
    }
    assert!(s.is_registered(0));
}

#[test]
fn boundary_returns_empty_after_shutdown() {
    let mut s = TcpServer::new();
    let t = s.accept_connection();
    assert!(s.handle_readable(t, b"work".to_vec(), false).dispatched);
    assert!(give_response(&mut s, t, b"late".to_vec()));
    assert_eq!(s.notification_count(), 1);

    s.raise_shutdown();

    // Once the flag stands, the worker boundary hands nothing out, even
    // though a notification, a request and a response are all queued.
    assert!(poll_notification(&mut s).is_none());
    assert!(take_request(&mut s, t).is_none());
    let sh = receive(&mut s);
    assert!(sh.null);
    assert_eq!(sh.token, 0);
    assert!(sh.value.is_empty());
    assert_eq!(s.notification_count(), 1);

    // The waiter observes the flag before the queue and leaves the
    // descriptor untouched.
    assert!(!s.waiter_poll(t));
    assert!(s.handle_writable(t).unwrap().is_empty());
}

#[test]
fn waiter_receives_response_then_terminates() {
    let w = WaiterState::Spawned;
    let w = waiter_step(w, false, false);
    assert_eq!(w, WaiterState::WaitingForResponse);
    // Timeouts without a response keep it waiting while the flag is down.
    let w = waiter_step(w, false, false);
    assert_eq!(w, WaiterState::WaitingForResponse);
    let w = waiter_step(w, true, false);
    assert_eq!(w, WaiterState::ResponseReceived);
    let w = waiter_step(w, false, false);
    assert_eq!(w, WaiterState::Terminated);
}

#[test]
fn short_write_is_fatal_would_block_is_not() {
    let mut s = TcpServer::new();
    let t = s.accept_connection();
    assert!(s.handle_readable(t, b"ping".to_vec(), false).dispatched);
    assert_eq!(receive(&mut s).value, b"ping".to_vec());
    assert!(give_response(&mut s, t, b"pong".to_vec()));
    assert!(s.waiter_poll(t));

    // Would-block leaves everything as it was.
    assert!(!s.handle_write_result(t, WriteOutcome::WouldBlock));
    assert!(s.in_flight(t));
    assert_eq!(s.handle_writable(t).unwrap(), b"pong".to_vec());

    // A short write is fatal for the connection.
    assert!(s.handle_write_result(t, WriteOutcome::Wrote(2)));
    // So is an I/O error.
    assert!(s.handle_write_result(t, WriteOutcome::Failed));
}

#[test]
fn pending_response_of_unknown_connection() {
    let mut s = TcpServer::new();
    assert!(s.handle_writable(42).is_none());
    assert!(!s.handle_write_result(42, WriteOutcome::Wrote(0)));
    assert!(!s.waiter_poll(42));
    assert!(take_request(&mut s, 42).is_none());
}

#[test]
fn empty_handover_is_null() {
    let sh = Shared::null();
    assert!(sh.null);
    assert_eq!(sh.token, 0);
    assert!(sh.value.is_empty());
}

#[test]
fn read_buffer_grows_by_chunks() {
    let mut buf = vec![0u8; 16];
    grow_buffer(&mut buf, 8);
    assert_eq!(buf.len(), 16);
    grow_buffer(&mut buf, 16);
    assert_eq!(buf.len(), 16 + READ_CHUNK);
    assert!(buf[16..].iter().all(|b| *b == 0));
}
