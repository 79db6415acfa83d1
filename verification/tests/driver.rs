//! The client driver: correlation identifiers, the pending-reply table, and
//! the call outcomes a caller observes.

use nitrogen::rpc_service::{
    request_outcome, CallOutcome, ClientDriver, RECONNECT_DELAY_MILLIS, REQUEST_CHANNEL_CAPACITY,
    REQUEST_TIMEOUT_MILLIS,
};

#[test]
fn identifiers_start_at_one_and_increase() {
    let mut d = ClientDriver::new();
    assert_eq!(d.next_id(), 1);
    assert_eq!(d.next_id(), 2);
    assert_eq!(d.next_id(), 3);
}

#[test]
fn each_reply_reaches_its_own_waiter() {
    let mut d = ClientDriver::new();
    let id1 = d.next_id();
    d.register(id1, 101);
    let id2 = d.next_id();
    d.register(id2, 102);
    let id3 = d.next_id();
    d.register(id3, 103);
    assert_eq!(d.on_reply(id2), Some(102));
    assert_eq!(d.on_reply(id1), Some(101));
    assert_eq!(d.on_reply(id3), Some(103));
}

#[test]
fn replies_in_reverse_order_still_deliver() {
    let mut d = ClientDriver::new();
    let mut ids = Vec::new();
    for w in 0..10u64 {
        let id = d.next_id();
        d.register(id, 1000 + w);
        ids.push((id, 1000 + w));
    }
    for (id, w) in ids.into_iter().rev() {
        assert_eq!(d.on_reply(id), Some(w));
    }
}

#[test]
fn unknown_identifier_dropped_silently() {
    let mut d = ClientDriver::new();
    let id = d.next_id();
    d.register(id, 7);
    assert_eq!(d.on_reply(99), None);
    // The one registered call is still in flight.
    assert_eq!(d.on_reply(id), Some(7));
    // A duplicate reply no longer finds it.
    assert_eq!(d.on_reply(id), None);
}

#[test]
fn failed_send_leaves_no_pending_entry() {
    let mut d = ClientDriver::new();
    // The identifier is consumed even when the send then fails and nothing
    // is registered under it.
    let id = d.next_id();
    assert_eq!(d.on_reply(id), None);
    assert_eq!(d.next_id(), id + 1);
}

#[test]
fn timed_out_call_is_evicted() {
    let mut d = ClientDriver::new();
    let id = d.next_id();
    d.register(id, 5);
    let other = d.next_id();
    d.register(other, 6);
    // The caller's timer fires; the entry leaves the table.
    d.evict(id);
    // A late reply for the evicted call is dropped silently.
    assert_eq!(d.on_reply(id), None);
    // Evicting an identifier that is not in flight changes nothing.
    d.evict(99);
    assert_eq!(d.on_reply(other), Some(6));
    assert_eq!(d.next_id(), 3);
}

#[test]
fn stream_failure_abandons_in_flight_calls() {
    let mut d = ClientDriver::new();
    let id1 = d.next_id();
    d.register(id1, 11);
    let id2 = d.next_id();
    d.register(id2, 12);
    let abandoned = d.on_stream_failure();
    assert_eq!(abandoned, vec![11, 12]);
    // The abandoned calls are gone; their late replies find nothing.
    assert_eq!(d.on_reply(id1), None);
    assert_eq!(d.on_reply(id2), None);
    // After the reconnect, identifiers continue above the old ones, and a
    // fresh call completes.
    let id3 = d.next_id();
    assert_eq!(id3, 3);
    d.register(id3, 13);
    assert_eq!(d.on_reply(id3), Some(13));
}

#[test]
fn two_drivers_do_not_interact() {
    let mut a = ClientDriver::new();
    let mut b = ClientDriver::new();
    let ida = a.next_id();
    a.register(ida, 1);
    let idb = b.next_id();
    b.register(idb, 2);
    // The identifier spaces are per stream; each driver resolves only its
    // own call.
    assert_eq!(ida, idb);
    assert_eq!(a.on_reply(ida), Some(1));
    assert_eq!(b.on_reply(idb), Some(2));
}

#[test]
fn outcome_replied_returns_payload() {
    let r: Result<u32, _> = request_outcome("MyService", CallOutcome::Replied(42));
    assert_eq!(r.unwrap(), 42);
}

#[test]
fn outcome_timeout_names_timeout() {
    let r: Result<(), _> = request_outcome("MyService", CallOutcome::TimedOut);
    let e = r.unwrap_err();
    assert_eq!(e.0, "MyServiceClient::request timeout error");
    assert!(e.0.contains("timeout"));
}

#[test]
fn outcome_recv_dropped_names_recv_error() {
    let r: Result<(), _> = request_outcome("Sleep", CallOutcome::RecvDropped);
    let e = r.unwrap_err();
    assert_eq!(e.0, "SleepClient::request recv error");
    assert!(e.0.contains("recv error"));
}

#[test]
fn outcome_send_failed_names_send_error() {
    let r: Result<(), _> = request_outcome("Echo", CallOutcome::SendFailed);
    let e = r.unwrap_err();
    assert_eq!(e.0, "EchoClient::request send error");
    assert!(e.0.contains("send error"));
}

#[test]
fn engine_constants() {
    assert_eq!(REQUEST_CHANNEL_CAPACITY, 128);
    assert_eq!(REQUEST_TIMEOUT_MILLIS, 5000);
    assert_eq!(RECONNECT_DELAY_MILLIS, 1000);
}
