//! The peer: one endpoint that both dials and listens.  It owns a session
//! registry keyed by remote address and a service registry keyed by name,
//! and decides how connects and inbound streams are handled.  The
//! surrounding tasks perform the dialing, accepting and stream I/O and keep
//! these registries in step through the functions here.

use vstd::prelude::*;

use crate::model::Error;
use crate::session::{Addr, Session};

verus! {

/// Whether the session registry holds an entry for the address.
pub open spec fn sessions_has(s: Seq<(Addr, Session)>, addr: Addr) -> bool {
    exists|i: int| 0 <= i < s.len() && (#[trigger] s[i]).0 == addr
}

/// The position of the address's entry in the session registry.
pub open spec fn sessions_index(s: Seq<(Addr, Session)>, addr: Addr) -> int {
    choose|i: int| 0 <= i < s.len() && (#[trigger] s[i]).0 == addr
}

/// The session registered under the address.
pub open spec fn sessions_at(s: Seq<(Addr, Session)>, addr: Addr) -> Session {
    s[sessions_index(s, addr)].1
}

/// No two registry entries share an address.
pub open spec fn sessions_distinct(s: Seq<(Addr, Session)>) -> bool {
    forall|i: int, j: int| 0 <= i < j < s.len() ==> s[i].0 != s[j].0
}

/// Whether the service registry holds an entry for the name.
pub open spec fn services_has(s: Seq<(String, u64)>, name: Seq<char>) -> bool {
    exists|i: int| 0 <= i < s.len() && (#[trigger] s[i]).0@ == name
}

/// The position of the name's entry in the service registry.
pub open spec fn services_index(s: Seq<(String, u64)>, name: Seq<char>) -> int {
    choose|i: int| 0 <= i < s.len() && (#[trigger] s[i]).0@ == name
}

/// The handler registered under the name.
pub open spec fn services_at(s: Seq<(String, u64)>, name: Seq<char>) -> u64 {
    s[services_index(s, name)].1
}

/// No two registry entries share a name.
pub open spec fn services_distinct(s: Seq<(String, u64)>) -> bool {
    forall|i: int, j: int| 0 <= i < j < s.len() ==> s[i].0@ != s[j].0@
}

/// The message of the error for a connect that found no session after the
/// dial.
pub open spec fn no_session_message() -> Seq<char> {
    "no session"@
}

/// The message of the error for a negotiation naming no registered service.
pub open spec fn no_service_message() -> Seq<char> {
    "no service"@
}

/// The message of the error for asking a peer that never listened for its
/// server address.
pub open spec fn no_server_addr_message() -> Seq<char> {
    "no server addr"@
}

/// One peer endpoint.  Handlers are held as opaque tokens: the task layer
/// maps each token to the closure it runs for a negotiated stream.
pub struct Nitrogen {
    /// Address the dialing endpoint is bound to.
    pub local: Addr,
    /// Address of the listening endpoint, once `serve` has bound one.
    pub server: Option<Addr>,
    /// Session registry: remote address of a live connection, and its session.
    pub sessions: Vec<(Addr, Session)>,
    /// Service registry: service name, and the token of its handler.
    pub services: Vec<(String, u64)>,
}

/// What the peer decides for a `connect` to an address.
pub enum ConnectDecision {
    /// The registry already holds a session for this address: hand it out,
    /// do not dial again.
    Existing(Session),
    /// No session yet: dial, then register the fresh session.
    Dial,
}

impl Nitrogen {
    /// Both registries hold each key at most once.
    pub open spec fn wf(self) -> bool {
        &&& sessions_distinct(self.sessions@)
        &&& services_distinct(self.services@)
    }

    /// A fresh peer bound to `local`: not listening, no sessions, no
    /// services.
    pub fn new(local: Addr) -> (r: Nitrogen)
        ensures
            r.wf(),
            r.local == local,
            r.server is None,
            r.sessions@ == Seq::<(Addr, Session)>::empty(),
            r.services@ == Seq::<(String, u64)>::empty(),
    {
        Nitrogen { local, server: None, sessions: Vec::new(), services: Vec::new() }
    }

    /// The address the dialing endpoint is bound to.
    pub fn local_addr(&self) -> (r: Addr)
        ensures
            r == self.local,
    {
        self.local
    }

    /// The listening endpoint's bound address; an error for a peer that
    /// never began to listen.
    pub fn server_addr(&self) -> (r: Result<Addr, Error>)
        ensures
            (self.server matches Some(a) ==> r == Ok::<Addr, Error>(a)),
            (self.server is None ==> (r matches Err(e) && e.0@ == no_server_addr_message())),
    {
        match self.server {
            Some(a) => Ok(a),
            None => Err(Error(String::from_str("no server addr"))),
        }
    }

    /// Record the address the listener bound: from here on the peer is
    /// usable for dialing and accepting in parallel.
    pub fn record_server_addr(&mut self, addr: Addr)
        requires
            old(self).wf(),
        ensures
            final(self).wf(),
            final(self).server == Some(addr),
            final(self).local == old(self).local,
            final(self).sessions@ == old(self).sessions@,
            final(self).services@ == old(self).services@,
    {
        self.server = Some(addr);
    }

    /// What `connect(addr)` does: a registered session is handed out as it
    /// is; only an unknown address leads to a dial.
    pub fn connect_decision(&self, addr: Addr) -> (r: ConnectDecision)
        requires
            self.wf(),
        ensures
            sessions_has(self.sessions@, addr) ==> r == ConnectDecision::Existing(
                sessions_at(self.sessions@, addr),
            ),
            !sessions_has(self.sessions@, addr) ==> r is Dial,
    {
        match self.lookup_session(addr) {
            Some(s) => ConnectDecision::Existing(s),
            None => ConnectDecision::Dial,
        }
    }

    /// The session registered for the address, if any.
    pub fn lookup_session(&self, addr: Addr) -> (r: Option<Session>)
        requires
            self.wf(),
        ensures
            sessions_has(self.sessions@, addr) ==> r == Some(sessions_at(self.sessions@, addr)),
            !sessions_has(self.sessions@, addr) ==> r is None,
    {
        let ghost s = self.sessions@;
        let mut i: usize = 0;
        while i < self.sessions.len()
            invariant
                self.wf(),
                s == self.sessions@,
                i <= s.len(),
                forall|j: int| 0 <= j < i ==> (#[trigger] s[j]).0 != addr,
            decreases s.len() - i,
        {
            if self.sessions[i].0 == addr {
                proof {
                    lemma_sessions_entry(s, i as int);
                }
                return Some(self.sessions[i].1);
            }
            i = i + 1;
        }
        proof {
            if sessions_has(s, addr) {
                let k = sessions_index(s, addr);
                assert(s[k].0 != addr);
            }
        }
        None
    }

    /// Drop the address's entry, if any: called when the inbound task of
    /// that connection exits.  Every other address keeps its session.
    pub fn remove_session(&mut self, addr: Addr)
        requires
            old(self).wf(),
        ensures
            final(self).wf(),
            !sessions_has(final(self).sessions@, addr),
            forall|a: Addr|
                a != addr ==> #[trigger] sessions_has(final(self).sessions@, a) == sessions_has(
                    old(self).sessions@,
                    a,
                ),
            forall|a: Addr|
                a != addr && sessions_has(old(self).sessions@, a) ==> #[trigger] sessions_at(
                    final(self).sessions@,
                    a,
                ) == sessions_at(old(self).sessions@, a),
            final(self).local == old(self).local,
            final(self).server == old(self).server,
            final(self).services@ == old(self).services@,
    {
        let ghost s = self.sessions@;
        let mut i: usize = 0;
        while i < self.sessions.len()
            invariant
                old(self).wf(),
                s == old(self).sessions@,
                self.sessions@ == s,
                self.local == old(self).local,
                self.server == old(self).server,
                self.services@ == old(self).services@,
                i <= s.len(),
                forall|j: int| 0 <= j < i ==> (#[trigger] s[j]).0 != addr,
            decreases s.len() - i,
        {
            if self.sessions[i].0 == addr {
                self.sessions.remove(i);
                proof {
                    let t = self.sessions@;
                    assert forall|ii: int, jj: int| 0 <= ii < jj < t.len() implies t[ii].0
                        != t[jj].0 by {
                        let si = if ii < i as int { ii } else { ii + 1 };
                        let sj = if jj < i as int { jj } else { jj + 1 };
                        assert(t[ii] == s[si] && t[jj] == s[sj]);
                    }
                    assert forall|j: int| 0 <= j < t.len() implies (#[trigger] t[j]).0 != addr by {
                        let sj = if j < i as int { j } else { j + 1 };
                        assert(t[j] == s[sj]);
                        if sj != i as int && s[sj].0 == addr {
                            assert(false);
                        }
                    }
                    if sessions_has(t, addr) {
                        let k = sessions_index(t, addr);
                        assert(t[k].0 != addr);
                    }
                    assert forall|a: Addr| a != addr implies #[trigger] sessions_has(t, a)
                        == sessions_has(s, a) by {
                        lemma_sessions_remove_other(s, i as int, a);
                    }
                    assert forall|a: Addr| a != addr && sessions_has(s, a) implies
                        #[trigger] sessions_at(t, a) == sessions_at(s, a) by {
                        lemma_sessions_remove_other(s, i as int, a);
                    }
                }
                return ;
            }
            i = i + 1;
        }
        proof {
            if sessions_has(s, addr) {
                let k = sessions_index(s, addr);
                assert(s[k].0 != addr);
            }
        }
    }

    /// Register the session for its remote address; a stale entry for the
    /// same address gives way (last writer wins).  Every other address
    /// keeps its session.
    pub fn insert_session(&mut self, addr: Addr, session: Session)
        requires
            old(self).wf(),
        ensures
            final(self).wf(),
            sessions_has(final(self).sessions@, addr),
            sessions_at(final(self).sessions@, addr) == session,
            forall|a: Addr|
                a != addr ==> #[trigger] sessions_has(final(self).sessions@, a) == sessions_has(
                    old(self).sessions@,
                    a,
                ),
            forall|a: Addr|
                a != addr && sessions_has(old(self).sessions@, a) ==> #[trigger] sessions_at(
                    final(self).sessions@,
                    a,
                ) == sessions_at(old(self).sessions@, a),
            final(self).local == old(self).local,
            final(self).server == old(self).server,
            final(self).services@ == old(self).services@,
    {
        self.remove_session(addr);
        let ghost mid = self.sessions@;
        self.sessions.push((addr, session));
        proof {
            let t = self.sessions@;
            let n = mid.len() as int;
            assert(t == mid.push((addr, session)));
            assert forall|ii: int, jj: int| 0 <= ii < jj < t.len() implies t[ii].0 != t[jj].0 by {
                if jj < n {
                    assert(t[ii] == mid[ii] && t[jj] == mid[jj]);
                } else {
                    assert(t[ii] == mid[ii] && t[jj] == (addr, session));
                }
            }
            assert(t[n].0 == addr);
            assert(sessions_has(t, addr));
            let k = sessions_index(t, addr);
            assert(0 <= k < t.len() && t[k].0 == addr);
            if k != n {
                assert(t[k] == mid[k]);
                assert(false);
            }
            assert forall|a: Addr| a != addr implies #[trigger] sessions_has(t, a) == sessions_has(
                mid,
                a,
            ) by {
                if sessions_has(t, a) {
                    let m = sessions_index(t, a);
                    assert(0 <= m < t.len() && t[m].0 == a);
                    assert(m != n);
                    assert(t[m] == mid[m]);
                }
                if sessions_has(mid, a) {
                    let m = sessions_index(mid, a);
                    assert(t[m] == mid[m]);
                    assert(sessions_has(t, a));
                }
            }
            assert forall|a: Addr| a != addr && sessions_has(mid, a) implies #[trigger] sessions_at(
                t,
                a,
            ) == sessions_at(mid, a) by {
                let m = sessions_index(mid, a);
                assert(0 <= m < mid.len() && mid[m].0 == a);
                assert(t[m] == mid[m]);
                assert(sessions_has(t, a));
                let m2 = sessions_index(t, a);
                assert(0 <= m2 < t.len() && t[m2].0 == a);
                assert(m2 != n);
                assert(t[m2] == mid[m2]);
                if m2 != m {
                    assert(false);
                }
            }
        }
    }

    /// Register a handler token under a service name; a prior handler under
    /// the same name gives way (last writer wins).  Every other name keeps
    /// its handler.
    pub fn add_service(&mut self, name: &String, handler: u64)
        requires
            old(self).wf(),
        ensures
            final(self).wf(),
            services_has(final(self).services@, name@),
            services_at(final(self).services@, name@) == handler,
            forall|n: Seq<char>|
                n != name@ ==> #[trigger] services_has(final(self).services@, n) == services_has(
                    old(self).services@,
                    n,
                ),
            forall|n: Seq<char>|
                n != name@ && services_has(old(self).services@, n) ==> #[trigger] services_at(
                    final(self).services@,
                    n,
                ) == services_at(old(self).services@, n),
            final(self).local == old(self).local,
            final(self).server == old(self).server,
            final(self).sessions@ == old(self).sessions@,
    {
        self.remove_service(name);
        let ghost mid = self.services@;
        let entry = (name.clone(), handler);
        self.services.push(entry);
        proof {
            let t = self.services@;
            let n = mid.len() as int;
            assert(t == mid.push(entry));
            assert(t[n].0@ == name@);
            assert forall|ii: int, jj: int| 0 <= ii < jj < t.len() implies t[ii].0@ != t[jj].0@ by {
                if jj < n {
                    assert(t[ii] == mid[ii] && t[jj] == mid[jj]);
                } else {
                    assert(t[ii] == mid[ii]);
                }
            }
            assert(services_has(t, name@));
            let k = services_index(t, name@);
            assert(0 <= k < t.len() && t[k].0@ == name@);
            if k != n {
                assert(t[k] == mid[k]);
                assert(false);
            }
            assert forall|nm: Seq<char>| nm != name@ implies #[trigger] services_has(t, nm)
                == services_has(mid, nm) by {
                if services_has(t, nm) {
                    let m = services_index(t, nm);
                    assert(0 <= m < t.len() && t[m].0@ == nm);
                    assert(m != n);
                    assert(t[m] == mid[m]);
                }
                if services_has(mid, nm) {
                    let m = services_index(mid, nm);
                    assert(t[m] == mid[m]);
                    assert(services_has(t, nm));
                }
            }
            assert forall|nm: Seq<char>| nm != name@ && services_has(mid, nm) implies
                #[trigger] services_at(t, nm) == services_at(mid, nm) by {
                let m = services_index(mid, nm);
                assert(0 <= m < mid.len() && mid[m].0@ == nm);
                assert(t[m] == mid[m]);
                assert(services_has(t, nm));
                let m2 = services_index(t, nm);
                assert(0 <= m2 < t.len() && t[m2].0@ == nm);
                assert(m2 != n);
                assert(t[m2] == mid[m2]);
                if m2 != m {
                    assert(false);
                }
            }
        }
    }

    /// Drop the name's entry, if any.  Every other name keeps its handler.
    pub fn remove_service(&mut self, name: &String)
        requires
            old(self).wf(),
        ensures
            final(self).wf(),
            !services_has(final(self).services@, name@),
            forall|n: Seq<char>|
                n != name@ ==> #[trigger] services_has(final(self).services@, n) == services_has(
                    old(self).services@,
                    n,
                ),
            forall|n: Seq<char>|
                n != name@ && services_has(old(self).services@, n) ==> #[trigger] services_at(
                    final(self).services@,
                    n,
                ) == services_at(old(self).services@, n),
            final(self).local == old(self).local,
            final(self).server == old(self).server,
            final(self).sessions@ == old(self).sessions@,
    {
        let ghost s = self.services@;
        let mut i: usize = 0;
        while i < self.services.len()
            invariant
                old(self).wf(),
                s == old(self).services@,
                self.services@ == s,
                self.local == old(self).local,
                self.server == old(self).server,
                self.sessions@ == old(self).sessions@,
                i <= s.len(),
                forall|j: int| 0 <= j < i ==> (#[trigger] s[j]).0@ != name@,
            decreases s.len() - i,
        {
            if self.services[i].0 == *name {
                self.services.remove(i);
                proof {
                    let t = self.services@;
                    assert forall|ii: int, jj: int| 0 <= ii < jj < t.len() implies t[ii].0@
                        != t[jj].0@ by {
                        let si = if ii < i as int { ii } else { ii + 1 };
                        let sj = if jj < i as int { jj } else { jj + 1 };
                        assert(t[ii] == s[si] && t[jj] == s[sj]);
                    }
                    assert forall|j: int| 0 <= j < t.len() implies (#[trigger] t[j]).0@ != name@ by {
                        let sj = if j < i as int { j } else { j + 1 };
                        assert(t[j] == s[sj]);
                        if sj != i as int && s[sj].0@ == name@ {
                            assert(false);
                        }
                    }
                    if services_has(t, name@) {
                        let k = services_index(t, name@);
                        assert(t[k].0@ != name@);
                    }
                    assert forall|nm: Seq<char>| nm != name@ implies #[trigger] services_has(t, nm)
                        == services_has(s, nm) by {
                        lemma_services_remove_other(s, i as int, nm);
                    }
                    assert forall|nm: Seq<char>| nm != name@ && services_has(s, nm) implies
                        #[trigger] services_at(t, nm) == services_at(s, nm) by {
                        lemma_services_remove_other(s, i as int, nm);
                    }
                }
                return ;
            }
            i = i + 1;
        }
        proof {
            if services_has(s, name@) {
                let k = services_index(s, name@);
                assert(s[k].0@ != name@);
            }
        }
    }

    /// The handler token registered under the name, if any.
    pub fn get_service(&self, name: &String) -> (r: Option<u64>)
        requires
            self.wf(),
        ensures
            services_has(self.services@, name@) ==> r == Some(services_at(self.services@, name@)),
            !services_has(self.services@, name@) ==> r is None,
    {
        let ghost s = self.services@;
        let mut i: usize = 0;
        while i < self.services.len()
            invariant
                self.wf(),
                s == self.services@,
                i <= s.len(),
                forall|j: int| 0 <= j < i ==> (#[trigger] s[j]).0@ != name@,
            decreases s.len() - i,
        {
            if self.services[i].0 == *name {
                proof {
                    lemma_services_entry(s, i as int);
                }
                return Some(self.services[i].1);
            }
            i = i + 1;
        }
        proof {
            if services_has(s, name@) {
                let k = services_index(s, name@);
                assert(s[k].0@ != name@);
            }
        }
        None
    }

    /// A snapshot of the registered service names.
    pub fn services(&self) -> (r: Vec<String>)
        ensures
            r@.len() == self.services@.len(),
            forall|i: int| 0 <= i < r@.len() ==> (#[trigger] r@[i])@ == self.services@[i].0@,
    {
        let mut names: Vec<String> = Vec::new();
        let mut i: usize = 0;
        while i < self.services.len()
            invariant
                i <= self.services@.len(),
                names@.len() == i,
                forall|j: int| 0 <= j < i ==> (#[trigger] names@[j])@ == self.services@[j].0@,
            decreases self.services@.len() - i,
        {
            names.push(self.services[i].0.clone());
            i = i + 1;
        }
        names
    }

    /// Route one inbound stream after its negotiation record named
    /// `name`: look up the handler, then the session of the connection the
    /// stream arrived on.  An unknown name or a missing session refuses
    /// only this stream; the registries do not change.
    pub fn route_inbound(&self, name: &String, remote: Addr) -> (r: Result<(u64, Session), Error>)
        requires
            self.wf(),
        ensures
            services_has(self.services@, name@) && sessions_has(self.sessions@, remote) ==> r
                == Ok::<(u64, Session), Error>(
                (services_at(self.services@, name@), sessions_at(self.sessions@, remote)),
            ),
            !services_has(self.services@, name@) ==> (r matches Err(e) && e.0@
                == no_service_message()),
            services_has(self.services@, name@) && !sessions_has(self.sessions@, remote) ==> (
            r matches Err(e) && e.0@ == no_session_message()),
    {
        let handler = match self.get_service(name) {
            Some(h) => h,
            None => {
                return Err(Error(String::from_str("no service")));
            },
        };
        let session = match self.lookup_session(remote) {
            Some(s) => s,
            None => {
                return Err(Error(String::from_str("no session")));
            },
        };
        Ok((handler, session))
    }
}

/// Each registry entry is found under its own address.
pub proof fn lemma_sessions_entry(s: Seq<(Addr, Session)>, i: int)
    requires
        sessions_distinct(s),
        0 <= i < s.len(),
    ensures
        sessions_has(s, s[i].0),
        sessions_index(s, s[i].0) == i,
        sessions_at(s, s[i].0) == s[i].1,
{
    let addr = s[i].0;
    assert(sessions_has(s, addr));
    let k = sessions_index(s, addr);
    assert(0 <= k < s.len() && s[k].0 == addr);
    if k != i {
        assert(false);
    }
}

/// Removing one entry does not touch what is registered under any other
/// address.
proof fn lemma_sessions_remove_other(s: Seq<(Addr, Session)>, i: int, a: Addr)
    requires
        sessions_distinct(s),
        0 <= i < s.len(),
        a != s[i].0,
    ensures
        sessions_has(s.remove(i), a) == sessions_has(s, a),
        sessions_has(s, a) ==> sessions_at(s.remove(i), a) == sessions_at(s, a),
{
    let t = s.remove(i);
    if sessions_has(s, a) {
        let k = sessions_index(s, a);
        assert(0 <= k < s.len() && s[k].0 == a);
        assert(k != i);
        let k2 = if k < i { k } else { k - 1 };
        assert(t[k2] == s[k]);
        assert(sessions_has(t, a));
        let m = sessions_index(t, a);
        assert(0 <= m < t.len() && t[m].0 == a);
        let sm = if m < i { m } else { m + 1 };
        assert(t[m] == s[sm]);
        if sm != k {
            assert(false);
        }
    }
    if sessions_has(t, a) {
        let m = sessions_index(t, a);
        assert(0 <= m < t.len() && t[m].0 == a);
        let sm = if m < i { m } else { m + 1 };
        assert(t[m] == s[sm]);
        assert(sessions_has(s, a));
    }
}

/// Each registry entry is found under its own name.
pub proof fn lemma_services_entry(s: Seq<(String, u64)>, i: int)
    requires
        services_distinct(s),
        0 <= i < s.len(),
    ensures
        services_has(s, s[i].0@),
        services_index(s, s[i].0@) == i,
        services_at(s, s[i].0@) == s[i].1,
{
    let name = s[i].0@;
    assert(services_has(s, name));
    let k = services_index(s, name);
    assert(0 <= k < s.len() && s[k].0@ == name);
    if k != i {
        assert(false);
    }
}

/// Removing one entry does not touch what is registered under any other
/// name.
proof fn lemma_services_remove_other(s: Seq<(String, u64)>, i: int, n: Seq<char>)
    requires
        services_distinct(s),
        0 <= i < s.len(),
        n != s[i].0@,
    ensures
        services_has(s.remove(i), n) == services_has(s, n),
        services_has(s, n) ==> services_at(s.remove(i), n) == services_at(s, n),
{
    let t = s.remove(i);
    if services_has(s, n) {
        let k = services_index(s, n);
        assert(0 <= k < s.len() && s[k].0@ == n);
        assert(k != i);
        let k2 = if k < i { k } else { k - 1 };
        assert(t[k2] == s[k]);
        assert(services_has(t, n));
        let m = services_index(t, n);
        assert(0 <= m < t.len() && t[m].0@ == n);
        let sm = if m < i { m } else { m + 1 };
        assert(t[m] == s[sm]);
        if sm != k {
            assert(false);
        }
    }
    if services_has(t, n) {
        let m = services_index(t, n);
        assert(0 <= m < t.len() && t[m].0@ == n);
        let sm = if m < i { m } else { m + 1 };
        assert(t[m] == s[sm]);
        assert(services_has(s, n));
    }
}

/// Idempotent connect: once a dial has recorded a session for an address,
/// every further connect for that address is answered from the registry
/// with that very session (same handle, local and remote address) instead
/// of dialing again.  Registry insertion under the peer's lock is the point
/// of serialization, so two concurrent connects converge on one session.
pub proof fn lemma_idempotent_connect(n: Nitrogen, addr: Addr, session: Session)
    requires
        n.wf(),
        sessions_has(n.sessions@, addr),
        sessions_at(n.sessions@, addr) == session,
    ensures
        forall|i: int|
            0 <= i < n.sessions@.len() && (#[trigger] n.sessions@[i]).0 == addr ==> n.sessions@[i].1
                == session,
{
    assert forall|i: int|
        0 <= i < n.sessions@.len() && (#[trigger] n.sessions@[i]).0 == addr implies n.sessions@[i].1
        == session by {
        lemma_sessions_entry(n.sessions@, i);
    }
}

/// Session eviction: once the inbound task of a connection has exited and
/// removed its entry, the registry holds nothing for that address, so the
/// next connect dials and establishes a fresh session.
pub proof fn lemma_eviction_forces_fresh_dial(n: Nitrogen, addr: Addr)
    requires
        n.wf(),
        !sessions_has(n.sessions@, addr),
    ensures
        forall|i: int| 0 <= i < n.sessions@.len() ==> (#[trigger] n.sessions@[i]).0 != addr,
{
    assert forall|i: int| 0 <= i < n.sessions@.len() implies (#[trigger] n.sessions@[i]).0
        != addr by {
        if n.sessions@[i].0 == addr {
            assert(sessions_has(n.sessions@, addr));
        }
    }
}

} // verus!
