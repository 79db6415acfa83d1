//! The derived service surface: routing, projection, the example service's
//! replies, the counter, and the name derivation.

use nitrogen::model::{Error, Message, Negotiate};
use nitrogen::rpc::{
    loopback_hello, loopback_ping, loopback_single, project_ping, render_ping, route, to_camel_case,
    Counter, MyService, MyServiceImpl, MyServiceRequest, MyServiceResponse,
};
use nitrogen::session::{Addr, Session};
use nitrogen::text::{byte_list_string, u64_to_string};

#[test]
fn ping_reply_for_echo() {
    // Service `Echo`, ping([1, 2, 3]).
    let s = render_ping("Echo", &vec![1, 2, 3]);
    assert_eq!(s, "|name: Echo, time: [1, 2, 3]|");
}

#[test]
fn ping_round_trip() {
    let r = loopback_ping(&MyServiceImpl, vec![1, 2, 3]).unwrap();
    assert_eq!(r, "|name: MyService, time: [1, 2, 3]|");
    assert_eq!(r, MyServiceImpl.ping(vec![1, 2, 3]));
}

#[test]
fn hello_round_trip() {
    let r = loopback_hello(&MyServiceImpl, "world".to_string()).unwrap();
    assert_eq!(r, "|hello, world|");
    assert_eq!(r, MyServiceImpl.hello("world".to_string()));
}

#[test]
fn single_round_trip() {
    let r = loopback_single(&MyServiceImpl).unwrap();
    assert_eq!(r, "|single|");
    assert_eq!(r, MyServiceImpl.single());
}

#[test]
fn service_name_of_example() {
    assert_eq!(MyServiceImpl::service_name(), "MyService");
}

#[test]
fn route_answers_the_request_case() {
    match route(&MyServiceImpl, MyServiceRequest::Hello("a".to_string())) {
        MyServiceResponse::Hello(Ok(s)) => assert_eq!(s, "|hello, a|"),
        _ => panic!("the response case must match the request case"),
    }
}

#[test]
fn mismatched_response_case_is_protocol_error() {
    let resp = MyServiceResponse::Hello(Ok("x".to_string()));
    let e = project_ping(resp).unwrap_err();
    assert_eq!(e.0, "protocol mismatch");
}

#[test]
fn counter_returns_each_value_once() {
    let mut c = Counter::new();
    let mut returns: Vec<u64> = Vec::new();
    for _ in 0..100 {
        returns.push(c.inc());
    }
    let mut sorted = returns.clone();
    sorted.sort();
    sorted.dedup();
    // The multiset of returned values is exactly 1 ..= 100.
    assert_eq!(sorted.len(), 100);
    assert_eq!(sorted, (1..=100).collect::<Vec<u64>>());
}

#[test]
fn camel_case_of_operation_names() {
    assert_eq!(to_camel_case("ping"), "Ping");
    assert_eq!(to_camel_case("fn_name"), "FnName");
    assert_eq!(to_camel_case("fn_name2"), "FnName2");
    assert_eq!(to_camel_case("a_b_c"), "ABC");
    assert_eq!(to_camel_case(""), "");
    assert_eq!(to_camel_case("_x"), "_X");
    assert_eq!(to_camel_case("already_Upper"), "AlreadyUpper");
}

#[test]
fn decimal_renderings() {
    assert_eq!(u64_to_string(0), "0");
    assert_eq!(u64_to_string(7), "7");
    assert_eq!(u64_to_string(10), "10");
    assert_eq!(u64_to_string(31234), "31234");
    assert_eq!(u64_to_string(u64::MAX), "18446744073709551615");
}

#[test]
fn byte_list_renderings() {
    assert_eq!(byte_list_string(&vec![]), "[]");
    assert_eq!(byte_list_string(&vec![5]), "[5]");
    assert_eq!(byte_list_string(&vec![1, 2, 3]), "[1, 2, 3]");
    assert_eq!(byte_list_string(&vec![0, 255]), "[0, 255]");
}

#[test]
fn error_rendering_carries_prefix() {
    let e = Error("boom".to_string());
    assert_eq!(e.message(), "boom");
    assert_eq!(e.to_display_string(), "Nitrogen Error: boom");
}

#[test]
fn reply_echoes_the_identifier() {
    let m = Message::reply(41, vec![1, 2]);
    assert_eq!(m.id, 41);
    assert_eq!(m.payload, vec![1, 2]);
}

#[test]
fn session_handshake_frame_matches_negotiator() {
    let session = Session::new(1, Addr::new(0x7F000001, 4000), Addr::new(0x7F000001, 31234));
    let frame = session
        .new_stream_frame(&Negotiate { name: "Echo".to_string() })
        .unwrap();
    let direct = nitrogen::negotiator::Negotiator::new()
        .encode(&Negotiate { name: "Echo".to_string() })
        .unwrap();
    assert_eq!(frame, direct);
}
