//! The service derivation contract: what a service declaration turns into.
//! A declared service (a name and an ordered list of operations) yields a
//! request variant and a response variant (one case per operation, named by
//! the CamelCase of the operation name), a `route` function dispatching a
//! request to the operation and wrapping its return, and a client-side
//! projection of each response case back to the operation's result.
//!
//! The example service here exercises the whole shape; `Counter` models a
//! stateful operation.

use vstd::prelude::*;
use vstd::string::{StrSliceExecFns, StringExecFns};

use crate::model::Error;
use crate::text::{byte_list_rep, byte_list_string};

verus! {

/// An ASCII lowercase letter raised to its uppercase form; any other
/// character kept as it is.
pub open spec fn upper_char(c: char) -> char {
    if 'a' <= c && c <= 'z' {
        ((c as int) - 32) as char
    } else {
        c
    }
}

/// The tail of the CamelCase form: each underscore is dropped and the
/// character after it is raised; `prev` is the character before the tail.
pub open spec fn camel_tail(s: Seq<char>, prev: char) -> Seq<char>
    decreases s.len(),
{
    if s.len() == 0 {
        Seq::<char>::empty()
    } else {
        let c = s[0];
        let rest = camel_tail(s.drop_first(), c);
        if c == '_' {
            rest
        } else if prev == '_' {
            seq![upper_char(c)] + rest
        } else {
            seq![c] + rest
        }
    }
}

/// The CamelCase form of a snake_case name: the first character raised,
/// each underscore dropped and the character after it raised.
pub open spec fn camel_of(s: Seq<char>) -> Seq<char> {
    if s.len() == 0 {
        Seq::<char>::empty()
    } else {
        seq![upper_char(s[0])] + camel_tail(s.drop_first(), s[0])
    }
}

/// An ASCII lowercase letter raised to uppercase.
fn to_upper(c: char) -> (r: char)
    ensures
        r == upper_char(c),
{
    let u = c as u32;
    if 97 <= u && u <= 122 {
        proof {
            assert((u - 32) as u8 == u - 32) by (bit_vector)
                requires
                    97 <= u && u <= 122,
            ;
        }
        ((u - 32) as u8) as char
    } else {
        c
    }
}

/// The CamelCase form of an operation name: this names the request and
/// response case derived for the operation.
pub fn to_camel_case(name: &str) -> (r: String)
    ensures
        r@ == camel_of(name@),
{
    let len = name.unicode_len();
    let mut out = String::new();
    if len == 0 {
        return out;
    }
    let first = name.get_char(0);
    out.push(to_upper(first));
    let mut prev: char = first;
    let mut i: usize = 1;
    proof {
        assert(name@.drop_first() =~= name@.subrange(1, len as int));
    }
    while i < len
        invariant
            1 <= i <= len,
            len == name@.len(),
            prev == name@[i - 1],
            out@ + camel_tail(name@.subrange(i as int, len as int), prev) == camel_of(name@),
        decreases len - i,
    {
        let c = name.get_char(i);
        proof {
            assert(name@.subrange(i as int, len as int).drop_first() =~= name@.subrange(
                i as int + 1,
                len as int,
            ));
        }
        if c == '_' {
        } else if prev == '_' {
            out.push(to_upper(c));
        } else {
            out.push(c);
        }
        proof {
            assert(out@ + camel_tail(name@.subrange(i as int + 1, len as int), name@[i as int])
                =~= camel_of(name@));
        }
        prev = c;
        i = i + 1;
    }
    proof {
        assert(camel_tail(name@.subrange(len as int, len as int), prev)
            =~= Seq::<char>::empty());
        assert(out@ =~= camel_of(name@));
    }
    out
}

/// The message of the error for a reply whose case does not match the
/// request's case.
pub open spec fn mismatch_message() -> Seq<char> {
    "protocol mismatch"@
}

/// The rendering the example service's `ping` operation replies with.
pub open spec fn ping_rep(name: Seq<char>, time: Seq<u8>) -> Seq<char> {
    "|name: "@ + name + ", time: "@ + byte_list_rep(time) + "|"@
}

/// The rendering the example service's `hello` operation replies with.
pub open spec fn hello_rep(name: Seq<char>) -> Seq<char> {
    "|hello, "@ + name + "|"@
}

/// The `ping` reply for a service of this name and this payload.
pub fn render_ping(name: &str, time: &Vec<u8>) -> (r: String)
    ensures
        r@ == ping_rep(name@, time@),
{
    let mut s = String::from_str("|name: ");
    s.append(name);
    s.append(", time: ");
    let list = byte_list_string(time);
    s.append(list.as_str());
    s.append("|");
    proof {
        assert(s@ =~= ping_rep(name@, time@));
    }
    s
}

/// The `hello` reply for this caller name.
pub fn render_hello(name: &str) -> (r: String)
    ensures
        r@ == hello_rep(name@),
{
    let mut s = String::from_str("|hello, ");
    s.append(name);
    s.append("|");
    proof {
        assert(s@ =~= hello_rep(name@));
    }
    s
}

/// The example service declaration: three operations, each with the
/// specification its replies are held to.  An implementation must be
/// cloneable and shareable so the dispatcher can hand it to the concurrent
/// per-message tasks.
pub trait MyService: Sized {
    /// The service's registered name.
    spec fn name_spec() -> Seq<char>;

    /// What `ping` replies for this payload.
    spec fn ping_spec(&self, time: Seq<u8>) -> Seq<char>;

    /// What `hello` replies for this caller name.
    spec fn hello_spec(&self, name: Seq<char>) -> Seq<char>;

    /// What `single` replies.
    spec fn single_spec(&self) -> Seq<char>;

    /// The service's registered name.
    fn service_name() -> (r: String)
        ensures
            r@ == Self::name_spec(),
    ;

    fn ping(&self, time: Vec<u8>) -> (r: String)
        ensures
            r@ == self.ping_spec(time@),
    ;

    fn hello(&self, name: String) -> (r: String)
        ensures
            r@ == self.hello_spec(name@),
    ;

    fn single(&self) -> (r: String)
        ensures
            r@ == self.single_spec(),
    ;
}

/// The request variant derived from the example service: one case per
/// operation, carrying the operation's inputs positionally.
#[derive(Debug)]
pub enum MyServiceRequest {
    Ping(Vec<u8>),
    Hello(String),
    Single,
}

/// The response variant derived from the example service: the same cases,
/// each carrying the operation's result.
#[derive(Debug)]
pub enum MyServiceResponse {
    Ping(Result<String, Error>),
    Hello(Result<String, Error>),
    Single(Result<String, Error>),
}

/// The server side of the derivation: dispatch a request to the operation
/// it names and wrap the operation's return in the matching response case.
pub fn route<T: MyService>(svc: &T, req: MyServiceRequest) -> (resp: MyServiceResponse)
    ensures
        (req matches MyServiceRequest::Ping(t) ==> (resp matches MyServiceResponse::Ping(Ok(s))
            && s@ == svc.ping_spec(t@))),
        (req matches MyServiceRequest::Hello(n) ==> (resp matches MyServiceResponse::Hello(Ok(s))
            && s@ == svc.hello_spec(n@))),
        (req is Single ==> (resp matches MyServiceResponse::Single(Ok(s)) && s@
            == svc.single_spec())),
{
    match req {
        MyServiceRequest::Ping(time) => MyServiceResponse::Ping(Ok(svc.ping(time))),
        MyServiceRequest::Hello(name) => MyServiceResponse::Hello(Ok(svc.hello(name))),
        MyServiceRequest::Single => MyServiceResponse::Single(Ok(svc.single())),
    }
}

/// The client side of the derivation for `ping`: project the matching
/// response case; any other case is a protocol mismatch.
pub fn project_ping(resp: MyServiceResponse) -> (r: Result<String, Error>)
    ensures
        (resp matches MyServiceResponse::Ping(res) ==> r == res),
        !(resp is Ping) ==> (r matches Err(e) && e.0@ == mismatch_message()),
{
    match resp {
        MyServiceResponse::Ping(res) => res,
        _ => Err(Error(String::from_str("protocol mismatch"))),
    }
}

/// The client side of the derivation for `hello`.
pub fn project_hello(resp: MyServiceResponse) -> (r: Result<String, Error>)
    ensures
        (resp matches MyServiceResponse::Hello(res) ==> r == res),
        !(resp is Hello) ==> (r matches Err(e) && e.0@ == mismatch_message()),
{
    match resp {
        MyServiceResponse::Hello(res) => res,
        _ => Err(Error(String::from_str("protocol mismatch"))),
    }
}

/// The client side of the derivation for `single`.
pub fn project_single(resp: MyServiceResponse) -> (r: Result<String, Error>)
    ensures
        (resp matches MyServiceResponse::Single(res) ==> r == res),
        !(resp is Single) ==> (r matches Err(e) && e.0@ == mismatch_message()),
{
    match resp {
        MyServiceResponse::Single(res) => res,
        _ => Err(Error(String::from_str("protocol mismatch"))),
    }
}

/// Round-trip for `ping`: routing a request through a service and
/// projecting the reply yields exactly what the service's own operation
/// returns for those inputs.
pub fn loopback_ping<T: MyService>(svc: &T, time: Vec<u8>) -> (r: Result<String, Error>)
    ensures
        r matches Ok(s) && s@ == svc.ping_spec(time@),
{
    let ghost t = time@;
    let resp = route(svc, MyServiceRequest::Ping(time));
    project_ping(resp)
}

/// Round-trip for `hello`.
pub fn loopback_hello<T: MyService>(svc: &T, name: String) -> (r: Result<String, Error>)
    ensures
        r matches Ok(s) && s@ == svc.hello_spec(name@),
{
    let ghost n = name@;
    let resp = route(svc, MyServiceRequest::Hello(name));
    project_hello(resp)
}

/// Round-trip for `single`.
pub fn loopback_single<T: MyService>(svc: &T) -> (r: Result<String, Error>)
    ensures
        r matches Ok(s) && s@ == svc.single_spec(),
{
    let resp = route(svc, MyServiceRequest::Single);
    project_single(resp)
}

/// The example implementation of the service declaration.
#[derive(Debug, Clone)]
pub struct MyServiceImpl;

impl MyService for MyServiceImpl {
    open spec fn name_spec() -> Seq<char> {
        "MyService"@
    }

    open spec fn ping_spec(&self, time: Seq<u8>) -> Seq<char> {
        ping_rep("MyService"@, time)
    }

    open spec fn hello_spec(&self, name: Seq<char>) -> Seq<char> {
        hello_rep(name)
    }

    open spec fn single_spec(&self) -> Seq<char> {
        "|single|"@
    }

    fn service_name() -> (r: String) {
        String::from_str("MyService")
    }

    fn ping(&self, time: Vec<u8>) -> (r: String) {
        render_ping("MyService", &time)
    }

    fn hello(&self, name: String) -> (r: String) {
        render_hello(name.as_str())
    }

    fn single(&self) -> (r: String) {
        String::from_str("|single|")
    }
}

/// A stateful operation: each call returns the number of calls made so
/// far.  The dispatcher runs handlers concurrently, one task per message,
/// so the task layer must serialize the shared count (behind a lock) for
/// the 1 ..= k law below to hold of a deployment.
#[derive(Debug, Clone)]
pub struct Counter {
    pub count: u64,
}

impl Counter {
    /// A fresh counter: nothing counted yet.
    pub fn new() -> (r: Counter)
        ensures
            r.count == 0,
    {
        Counter { count: 0 }
    }

    /// Step the counter and return the new value: call `i` (counting from
    /// one) returns exactly `i`, so the returns of `k` calls are exactly
    /// `1 ..= k`, each value once.
    pub fn inc(&mut self) -> (r: u64)
        requires
            old(self).count < u64::MAX,
        ensures
            r == old(self).count + 1,
            final(self).count == old(self).count + 1,
    {
        self.count = self.count + 1;
        self.count
    }
}

/// The values `k` calls of `inc` on a fresh counter hand out: the call at
/// position `i` returns `i + 1`.
pub open spec fn inc_returns(k: nat) -> Seq<int> {
    Seq::new(k, |i: int| i + 1)
}

/// The returns of distinct calls differ: taken together, `k` calls return
/// the set `1 ..= k` with no value repeated.
pub proof fn lemma_inc_returns_exact(k: nat, i: int, j: int)
    requires
        0 <= i < k,
        0 <= j < k,
        i != j,
    ensures
        inc_returns(k)[i] == i + 1,
        1 <= inc_returns(k)[i] <= k,
        inc_returns(k)[i] != inc_returns(k)[j],
{
}

} // verus!
