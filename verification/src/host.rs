//! Host-side logic: the append-only result store shared by all
//! connections, and the per-message decision of the echo responder.
//! The surrounding program owns the listener, the per-connection I/O
//! and the lock; every decision about a received message is made here.

use vstd::prelude::*;
use crate::protocol::{Message, MessageV, TestResults, TestResultsV};

verus! {

/// Append-only collection of results received from clients. Entries
/// are never removed or mutated after insertion.
pub struct ResultStore {
    pub entries: Vec<TestResults>,
}

impl ResultStore {
    /// An empty store.
    pub fn new() -> (r: Self)
        ensures
            r.entries@ =~= Seq::<TestResults>::empty(),
    {
        ResultStore { entries: Vec::new() }
    }

    /// Appends one result; everything already stored stays in place.
    pub fn push(&mut self, results: TestResults)
        ensures
            final(self).entries@ =~= old(self).entries@.push(results),
    {
        self.entries.push(results);
    }

    /// How many results have been stored.
    pub fn len(&self) -> (r: usize)
        ensures
            r == self.entries@.len(),
    {
        self.entries.len()
    }

    /// The `i`-th stored result, in insertion order.
    pub fn get(&self, i: usize) -> (r: &TestResults)
        requires
            i < self.entries@.len(),
        ensures
            *r == self.entries@[i as int],
    {
        &self.entries[i]
    }

    /// All stored results, in insertion order.
    pub fn get_results(&self) -> (r: &Vec<TestResults>)
        ensures
            r@ == self.entries@,
    {
        &self.entries
    }
}

/// What the echo responder does with one received message.
pub enum HostAction {
    /// Send this message back on the same connection.
    Reply(Message),
    /// Append these results to the shared store.
    Store(TestResults),
    /// An unexpected Pong: note it and keep serving.
    LogUnexpected,
    /// A peer-reported error: note its text and keep serving.
    LogError(String),
}

/// The action is a reply with a Pong echoing timestamp `t` unmodified.
pub open spec fn is_pong_reply(r: HostAction, t: u64) -> bool {
    match r {
        HostAction::Reply(m) => m@ == (MessageV::Pong { timestamp: t }),
        _ => false,
    }
}

/// The action stores exactly the received results.
pub open spec fn is_store_of(r: HostAction, results: TestResultsV) -> bool {
    match r {
        HostAction::Store(x) => x@ == results,
        _ => false,
    }
}

/// Decides the echo responder's reaction to one message: a Ping is
/// echoed back as a Pong with the same timestamp, results are stored,
/// and an unexpected Pong or a peer error is logged and survived.
pub fn host_action(msg: Message) -> (r: HostAction)
    ensures
        match msg@ {
            MessageV::Ping { timestamp } => is_pong_reply(r, timestamp),
            MessageV::TestResults { results } => is_store_of(r, results),
            MessageV::Pong { .. } => r is LogUnexpected,
            MessageV::Error { message } => match r {
                HostAction::LogError(s) => s@ == message,
                _ => false,
            },
        },
{
    match msg {
        Message::Ping { timestamp } => HostAction::Reply(Message::Pong { timestamp }),
        Message::TestResults { results } => HostAction::Store(results),
        Message::Pong { .. } => HostAction::LogUnexpected,
        Message::Error { message } => HostAction::LogError(message),
    }
}

/// Two clients' results, pushed in either order by concurrent
/// connections, leave the store with exactly two more entries: one
/// copy of each, intact, beside everything already stored.
pub proof fn lemma_two_results_stored(base: Seq<TestResults>, a: TestResults, b: TestResults)
    ensures
        base.push(a).push(b).len() == base.len() + 2,
        base.push(b).push(a).len() == base.len() + 2,
        base.push(a).push(b).to_multiset() =~= base.to_multiset().insert(a).insert(b),
        base.push(b).push(a).to_multiset() =~= base.to_multiset().insert(a).insert(b),
        base.push(a).push(b).contains(a) && base.push(a).push(b).contains(b),
        base.push(b).push(a).contains(a) && base.push(b).push(a).contains(b),
{
    base.to_multiset_ensures();
    base.push(a).to_multiset_ensures();
    base.push(b).to_multiset_ensures();
    assert(base.push(a).push(b).to_multiset() =~= base.to_multiset().insert(a).insert(b));
    assert(base.push(b).push(a).to_multiset() =~= base.to_multiset().insert(b).insert(a));
    assert(base.to_multiset().insert(b).insert(a) =~= base.to_multiset().insert(a).insert(b));
    assert(base.push(a).push(b)[base.len() as int] == a);
    assert(base.push(a).push(b)[base.len() as int + 1] == b);
    assert(base.push(b).push(a)[base.len() as int] == b);
    assert(base.push(b).push(a)[base.len() as int + 1] == a);
}

} // verus!
