//! The peer: session registry, service registry, and the routing of
//! connects and inbound streams.

use nitrogen::base::{ConnectDecision, Nitrogen};
use nitrogen::session::{Addr, Session};

fn loopback(port: u16) -> Addr {
    Addr::new(0x7F000001, port)
}

#[test]
fn fresh_peer_is_empty() {
    let n = Nitrogen::new(loopback(4000));
    assert_eq!(n.local_addr(), loopback(4000));
    assert!(n.services().is_empty());
    assert!(matches!(n.connect_decision(loopback(1)), ConnectDecision::Dial));
}

#[test]
fn server_addr_before_and_after_serve() {
    let mut n = Nitrogen::new(loopback(4000));
    let e = n.server_addr().unwrap_err();
    assert_eq!(e.0, "no server addr");
    n.record_server_addr(loopback(31234));
    assert_eq!(n.server_addr().unwrap(), loopback(31234));
}

#[test]
fn connect_is_idempotent() {
    let mut n = Nitrogen::new(loopback(4000));
    let addr = loopback(31234);
    // First connect: no session yet, so the peer dials and registers the
    // fresh session.
    assert!(matches!(n.connect_decision(addr), ConnectDecision::Dial));
    let s = Session::new(1, loopback(4000), addr);
    n.insert_session(addr, s);
    // A concurrent connect for the same address converges on that very
    // session: same handle, same local and remote addresses.
    match n.connect_decision(addr) {
        ConnectDecision::Existing(t) => {
            assert_eq!(t, s);
            assert_eq!(t.local_addr(), loopback(4000));
            assert_eq!(t.remote_addr(), addr);
        }
        ConnectDecision::Dial => panic!("second connect must reuse the session"),
    }
    match n.connect_decision(addr) {
        ConnectDecision::Existing(t) => assert_eq!(t, s),
        ConnectDecision::Dial => panic!("third connect must reuse the session"),
    }
}

#[test]
fn eviction_forces_fresh_dial() {
    let mut n = Nitrogen::new(loopback(4000));
    let addr = loopback(31234);
    let other = loopback(31235);
    n.insert_session(addr, Session::new(1, loopback(4000), addr));
    n.insert_session(other, Session::new(2, loopback(4000), other));
    // The remote closes; the inbound task exits and evicts the session.
    n.remove_session(addr);
    assert!(n.lookup_session(addr).is_none());
    assert!(matches!(n.connect_decision(addr), ConnectDecision::Dial));
    // The next connect registers a freshly established session.
    n.insert_session(addr, Session::new(3, loopback(4000), addr));
    match n.connect_decision(addr) {
        ConnectDecision::Existing(t) => assert_eq!(t.handle, 3),
        ConnectDecision::Dial => panic!("the fresh session must be found"),
    }
    // The other connection was never touched.
    assert_eq!(n.lookup_session(other).unwrap().handle, 2);
}

#[test]
fn session_replaced_for_same_address() {
    let mut n = Nitrogen::new(loopback(4000));
    let addr = loopback(31234);
    n.insert_session(addr, Session::new(1, loopback(4000), addr));
    n.insert_session(addr, Session::new(9, loopback(4000), addr));
    assert_eq!(n.lookup_session(addr).unwrap().handle, 9);
}

#[test]
fn service_registry_lookup_and_snapshot() {
    let mut n = Nitrogen::new(loopback(4000));
    n.add_service(&"Echo".to_string(), 10);
    n.add_service(&"Counter".to_string(), 20);
    assert_eq!(n.get_service(&"Echo".to_string()), Some(10));
    assert_eq!(n.get_service(&"Counter".to_string()), Some(20));
    assert_eq!(n.get_service(&"Sleep".to_string()), None);
    let names = n.services();
    assert_eq!(names.len(), 2);
    assert!(names.contains(&"Echo".to_string()));
    assert!(names.contains(&"Counter".to_string()));
}

#[test]
fn duplicate_service_registration_replaces() {
    let mut n = Nitrogen::new(loopback(4000));
    n.add_service(&"Echo".to_string(), 10);
    n.add_service(&"Echo".to_string(), 33);
    assert_eq!(n.get_service(&"Echo".to_string()), Some(33));
    assert_eq!(n.services().len(), 1);
}

#[test]
fn route_inbound_finds_handler_and_session() {
    let mut n = Nitrogen::new(loopback(4000));
    let remote = loopback(5000);
    let session = Session::new(4, loopback(4000), remote);
    n.insert_session(remote, session);
    n.add_service(&"Echo".to_string(), 10);
    let (handler, s) = n.route_inbound(&"Echo".to_string(), remote).unwrap();
    assert_eq!(handler, 10);
    assert_eq!(s, session);
}

#[test]
fn unknown_service_fails_only_that_stream() {
    let mut n = Nitrogen::new(loopback(4000));
    let remote = loopback(5000);
    n.insert_session(remote, Session::new(4, loopback(4000), remote));
    n.add_service(&"Echo".to_string(), 10);
    // A stream negotiating an unknown name is refused...
    let e = n.route_inbound(&"NoSuch".to_string(), remote).unwrap_err();
    assert_eq!(e.0, "no service");
    // ...while concurrent streams on the same session go on unaffected.
    assert!(n.route_inbound(&"Echo".to_string(), remote).is_ok());
    assert!(n.lookup_session(remote).is_some());
}

#[test]
fn stream_without_session_is_refused() {
    let mut n = Nitrogen::new(loopback(4000));
    n.add_service(&"Echo".to_string(), 10);
    let e = n.route_inbound(&"Echo".to_string(), loopback(5000)).unwrap_err();
    assert_eq!(e.0, "no session");
}
