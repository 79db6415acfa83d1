//! Client half of the RPC engine: the state of the per-service driver task
//! that assigns correlation identifiers, keeps the pending-reply table, and
//! matches every inbound reply back to the caller awaiting it.
//!
//! The surrounding task owns the stream and the channels; it feeds each
//! event (a new request, an inbound reply, a stream failure) to these
//! functions and carries out the returned decision.

use vstd::prelude::*;
use vstd::string::StringExecFns;

use crate::model::Error;

verus! {

/// Capacity of the caller-facing request channel.
pub const REQUEST_CHANNEL_CAPACITY: usize = 128;

/// The per-call timeout, after which a caller gives up on its reply.
pub const REQUEST_TIMEOUT_MILLIS: u64 = 5000;

/// How long the driver sleeps before it retries opening a stream.
pub const RECONNECT_DELAY_MILLIS: u64 = 1000;

/// Whether a pending-reply table holds the identifier.
pub open spec fn table_has(s: Seq<(u64, u64)>, id: u64) -> bool {
    exists|i: int| 0 <= i < s.len() && s[i].0 == id
}

/// The position of the identifier's entry in the table.
pub open spec fn table_index(s: Seq<(u64, u64)>, id: u64) -> int {
    choose|i: int| 0 <= i < s.len() && s[i].0 == id
}

/// The waiter registered under the identifier.
pub open spec fn table_waiter(s: Seq<(u64, u64)>, id: u64) -> u64 {
    s[table_index(s, id)].1
}

/// No two entries of the table share an identifier.
pub open spec fn table_distinct(s: Seq<(u64, u64)>) -> bool {
    forall|i: int, j: int| 0 <= i < j < s.len() ==> s[i].0 != s[j].0
}

/// The state of one client driver: the correlation cursor and the
/// pending-reply table mapping each in-flight identifier to the waiter
/// (an opaque token for the caller's reply slot) registered under it.
pub struct ClientDriver {
    pub cursor: u64,
    pub pending: Vec<(u64, u64)>,
}

impl ClientDriver {
    /// Identifiers are pairwise distinct and never ahead of the cursor;
    /// the cursor starts at zero, so identifiers start at one.
    pub open spec fn wf(self) -> bool {
        &&& table_distinct(self.pending@)
        &&& forall|i: int|
            0 <= i < self.pending@.len() ==> 1 <= (#[trigger] self.pending@[i]).0 <= self.cursor
    }

    /// A fresh driver: cursor at zero, no call in flight.
    pub fn new() -> (r: ClientDriver)
        ensures
            r.wf(),
            r.cursor == 0,
            r.pending@ == Seq::<(u64, u64)>::empty(),
    {
        ClientDriver { cursor: 0, pending: Vec::new() }
    }

    /// Assign the identifier for the next outgoing request: the cursor moves
    /// up by one and the new identifier is strictly above every identifier
    /// ever assigned on this stream, in flight or not.
    pub fn next_id(&mut self) -> (id: u64)
        requires
            old(self).wf(),
            old(self).cursor < u64::MAX,
        ensures
            final(self).wf(),
            id == old(self).cursor + 1,
            final(self).cursor == id,
            final(self).pending@ == old(self).pending@,
            forall|i: int|
                0 <= i < old(self).pending@.len() ==> (#[trigger] old(self).pending@[i]).0 < id,
    {
        self.cursor = self.cursor + 1;
        self.cursor
    }

    /// Record that the request under `id` went out and that `waiter` awaits
    /// its reply.  Called once per assigned identifier, after a successful
    /// send; a failed send leaves no entry behind.
    pub fn register(&mut self, id: u64, waiter: u64)
        requires
            old(self).wf(),
            1 <= id <= old(self).cursor,
            !table_has(old(self).pending@, id),
        ensures
            final(self).wf(),
            final(self).cursor == old(self).cursor,
            final(self).pending@ == old(self).pending@.push((id, waiter)),
            table_has(final(self).pending@, id),
            table_waiter(final(self).pending@, id) == waiter,
    {
        self.pending.push((id, waiter));
        proof {
            let s = self.pending@;
            let n = s.len() - 1;
            assert(s[n].0 == id);
            let i = table_index(s, id);
            assert(s[i].0 == id && 0 <= i < s.len());
            if i != n {
                assert(old(self).pending@[i] == s[i]);
                assert(table_has(old(self).pending@, id));
            }
        }
    }

    /// Match an inbound reply to the caller that awaits it.  The entry under
    /// `id` leaves the table and its waiter comes back; an unknown
    /// identifier (already timed out and evicted, or never assigned) is
    /// dropped silently and changes nothing.
    pub fn on_reply(&mut self, id: u64) -> (r: Option<u64>)
        requires
            old(self).wf(),
        ensures
            final(self).wf(),
            final(self).cursor == old(self).cursor,
            table_has(old(self).pending@, id) ==> (r == Some(table_waiter(old(self).pending@, id))
                && final(self).pending@ == old(self).pending@.remove(
                table_index(old(self).pending@, id),
            )),
            !table_has(old(self).pending@, id) ==> (r is None && final(self).pending@ == old(
                self,
            ).pending@),
    {
        let ghost s = self.pending@;
        let mut i: usize = 0;
        while i < self.pending.len()
            invariant
                old(self).wf(),
                s == old(self).pending@,
                self.pending@ == s,
                self.cursor == old(self).cursor,
                i <= s.len(),
                forall|j: int| 0 <= j < i ==> (#[trigger] s[j]).0 != id,
            decreases s.len() - i,
        {
            if self.pending[i].0 == id {
                let w = self.pending[i].1;
                self.pending.remove(i);
                proof {
                    assert(table_has(s, id));
                    let k = table_index(s, id);
                    assert(0 <= k < s.len() && s[k].0 == id);
                    if k != i as int {
                        assert(false);
                    }
                    lemma_table_distinct_after_remove(s, i as int);
                    let t = s.remove(i as int);
                    assert forall|j: int| 0 <= j < t.len() implies 1 <= (#[trigger] t[j]).0
                        <= self.cursor by {
                        let sj = if j < i as int { j } else { j + 1 };
                        assert(t[j] == s[sj]);
                    }
                }
                return Some(w);
            }
            i = i + 1;
        }
        proof {
            if table_has(s, id) {
                let k = table_index(s, id);
                assert(s[k].0 != id);
            }
        }
        None
    }

    /// Evict a call whose timeout fired: the entry under `id` leaves the
    /// table, so the table stays bounded even when the server drops
    /// replies; a reply arriving after the eviction is dropped silently
    /// like any unknown identifier.  An identifier no longer in the table
    /// (answered in the meantime) changes nothing.
    pub fn evict(&mut self, id: u64)
        requires
            old(self).wf(),
        ensures
            final(self).wf(),
            final(self).cursor == old(self).cursor,
            table_has(old(self).pending@, id) ==> final(self).pending@ == old(
                self,
            ).pending@.remove(table_index(old(self).pending@, id)),
            !table_has(old(self).pending@, id) ==> final(self).pending@ == old(self).pending@,
    {
        let _ = self.on_reply(id);
    }

    /// Give up the stream: every in-flight call is abandoned, so each of
    /// their waiters comes back (for the task to drop, which surfaces as a
    /// receive error or a timeout at the call site).  The cursor stays where
    /// it is: identifiers assigned after a reconnect never collide with
    /// identifiers from before the failure.
    pub fn on_stream_failure(&mut self) -> (abandoned: Vec<u64>)
        requires
            old(self).wf(),
        ensures
            final(self).wf(),
            final(self).cursor == old(self).cursor,
            final(self).pending@ == Seq::<(u64, u64)>::empty(),
            abandoned@ == old(self).pending@.map_values(|p: (u64, u64)| p.1),
    {
        let mut abandoned: Vec<u64> = Vec::new();
        let mut i: usize = 0;
        while i < self.pending.len()
            invariant
                self.pending@ == old(self).pending@,
                i <= self.pending@.len(),
                abandoned@ == self.pending@.subrange(0, i as int).map_values(|p: (u64, u64)| p.1),
            decreases self.pending@.len() - i,
        {
            abandoned.push(self.pending[i].1);
            i = i + 1;
            proof {
                assert(abandoned@ =~= self.pending@.subrange(0, i as int).map_values(
                    |p: (u64, u64)| p.1,
                ));
            }
        }
        self.pending = Vec::new();
        proof {
            assert(old(self).pending@.subrange(0, old(self).pending@.len() as int) =~= old(
                self,
            ).pending@);
        }
        abandoned
    }
}

/// Unique correlation: no two in-flight calls of one driver ever share an
/// identifier, so a reply can belong to at most one caller.
pub proof fn lemma_unique_correlation(d: ClientDriver, i: int, j: int)
    requires
        d.wf(),
        0 <= i < d.pending@.len(),
        0 <= j < d.pending@.len(),
        i != j,
    ensures
        d.pending@[i].0 != d.pending@[j].0,
{
}

/// Each reply reaches its own caller: the waiter looked up for an entry's
/// identifier is that entry's waiter, whatever else is in flight.
pub proof fn lemma_reply_reaches_own_waiter(d: ClientDriver, i: int)
    requires
        d.wf(),
        0 <= i < d.pending@.len(),
    ensures
        table_has(d.pending@, d.pending@[i].0),
        table_index(d.pending@, d.pending@[i].0) == i,
        table_waiter(d.pending@, d.pending@[i].0) == d.pending@[i].1,
{
    let s = d.pending@;
    let id = s[i].0;
    assert(table_has(s, id));
    let k = table_index(s, id);
    assert(0 <= k < s.len() && s[k].0 == id);
    if k != i {
        assert(false);
    }
}

/// Removing one entry keeps every other identifier distinct.
pub proof fn lemma_table_distinct_after_remove(s: Seq<(u64, u64)>, k: int)
    requires
        table_distinct(s),
        0 <= k < s.len(),
    ensures
        table_distinct(s.remove(k)),
{
    let t = s.remove(k);
    assert forall|i: int, j: int| 0 <= i < j < t.len() implies t[i].0 != t[j].0 by {
        let si = if i < k { i } else { i + 1 };
        let sj = if j < k { j } else { j + 1 };
        assert(t[i] == s[si] && t[j] == s[sj]);
    }
}

/// Ordering tolerance: the server may reply in any order.  Consuming the
/// reply for one identifier leaves every other in-flight call in the table,
/// still bound to its own waiter, so the remaining replies deliver the same
/// way whenever they come.
pub proof fn lemma_order_tolerance(s: Seq<(u64, u64)>, id1: u64, id2: u64)
    requires
        table_distinct(s),
        table_has(s, id1),
        table_has(s, id2),
        id1 != id2,
    ensures
        table_distinct(s.remove(table_index(s, id2))),
        table_has(s.remove(table_index(s, id2)), id1),
        table_waiter(s.remove(table_index(s, id2)), id1) == table_waiter(s, id1),
{
    let i1 = table_index(s, id1);
    let i2 = table_index(s, id2);
    assert(0 <= i1 < s.len() && s[i1].0 == id1);
    assert(0 <= i2 < s.len() && s[i2].0 == id2);
    lemma_table_distinct_after_remove(s, i2);
    let t = s.remove(i2);
    let j1 = if i1 < i2 { i1 } else { i1 - 1 };
    assert(t[j1] == s[i1]);
    assert(table_has(t, id1));
    let k = table_index(t, id1);
    assert(0 <= k < t.len() && t[k].0 == id1);
    if k != j1 {
        assert(false);
    }
}

/// How one call ends, as the driver's task observes it.
pub enum CallOutcome<R> {
    /// The matching reply arrived in time.
    Replied(R),
    /// The reply slot was dropped before a reply came (the driver abandoned
    /// the call when its stream failed).
    RecvDropped,
    /// No reply within the per-call timeout.
    TimedOut,
    /// The request could not be handed to the driver.
    SendFailed,
}

/// The error message of a call that could not be sent.
pub open spec fn send_error_message(service: Seq<char>) -> Seq<char> {
    service + "Client::request send error"@
}

/// The error message of a call whose reply slot was dropped.
pub open spec fn recv_error_message(service: Seq<char>) -> Seq<char> {
    service + "Client::request recv error"@
}

/// The error message of a call that timed out.
pub open spec fn timeout_message(service: Seq<char>) -> Seq<char> {
    service + "Client::request timeout error"@
}

/// Turn the observed outcome of one call into the caller's result: the reply
/// payload on success, and otherwise the error naming the service and the
/// way the call failed.
pub fn request_outcome<R>(service: &str, outcome: CallOutcome<R>) -> (r: Result<R, Error>)
    ensures
        (outcome matches CallOutcome::Replied(p) ==> (r matches Ok(q) && q == p)),
        (outcome is RecvDropped ==> (r matches Err(e) && e.0@ == recv_error_message(service@))),
        (outcome is TimedOut ==> (r matches Err(e) && e.0@ == timeout_message(service@))),
        (outcome is SendFailed ==> (r matches Err(e) && e.0@ == send_error_message(service@))),
{
    match outcome {
        CallOutcome::Replied(p) => Ok(p),
        CallOutcome::RecvDropped => Err(
            Error(String::from_str(service).concat("Client::request recv error")),
        ),
        CallOutcome::TimedOut => Err(
            Error(String::from_str(service).concat("Client::request timeout error")),
        ),
        CallOutcome::SendFailed => Err(
            Error(String::from_str(service).concat("Client::request send error")),
        ),
    }
}

/// One sequence holds another as a contiguous run.
pub open spec fn contains_seq<T>(hay: Seq<T>, needle: Seq<T>) -> bool {
    exists|i: int|
        0 <= i && i + needle.len() <= hay.len() && #[trigger] hay.subrange(i, i + needle.len())
            == needle
}

/// A timed-out call's error message names the timeout, whatever the service
/// is called.
pub proof fn lemma_timeout_message_names_timeout(service: Seq<char>)
    ensures
        contains_seq(timeout_message(service), "timeout"@),
{
    reveal_strlit("Client::request timeout error");
    reveal_strlit("timeout");
    let msg = timeout_message(service);
    let i = service.len() as int + 16;
    assert(msg.subrange(i, i + "timeout"@.len()) =~= "timeout"@);
}

} // verus!
