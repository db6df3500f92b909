//! A pool of recyclable outbound HTTP clients: its slots, the round robin
//! over them, and the rules of recycling and of falling back.
//!
//! The pool is generic in the client, of which it needs nothing. A slot is
//! never empty: a client is replaced, not removed.

use vstd::prelude::*;

verus! {

/// The slot that the `ticket`-th request is served from, in a pool of `size`
/// slots.
pub open spec fn slot_for(ticket: nat, size: nat) -> nat
    recommends
        size > 0,
{
    ticket % size
}

/// Works out the slot that the `ticket`-th request is served from.
pub fn slot_of(ticket: usize, size: usize) -> (slot: usize)
    requires
        size > 0,
    ensures
        slot == slot_for(ticket as nat, size as nat),
        slot < size,
{
    ticket % size
}

/// A pool of clients with a round-robin counter.
pub struct Pool<C> {
    slots: Vec<C>,
    counter: usize,
}

impl<C> Pool<C> {
    /// The clients, by slot.
    pub closed spec fn slots(&self) -> Seq<C> {
        self.slots@
    }

    /// The number of requests served so far, modulo the machine word.
    pub closed spec fn counter(&self) -> nat {
        self.counter as nat
    }

    /// The invariant of the pool: it has a slot.
    pub closed spec fn wf(&self) -> bool {
        self.slots@.len() > 0
    }

    /// A pool of the given clients, one per slot; `None` without clients,
    /// since a pool has to have a slot.
    pub fn new(clients: Vec<C>) -> (p: Option<Pool<C>>)
        ensures
            p is Some == (clients.len() > 0),
            p is Some ==> p->0.wf() && p->0.slots() == clients@ && p->0.counter() == 0,
    {
        if clients.len() == 0 {
            None
        } else {
            Some(Pool { slots: clients, counter: 0 })
        }
    }

    /// The number of slots, which never changes.
    pub fn size(&self) -> (n: usize)
        ensures
            n == self.slots().len(),
    {
        self.slots.len()
    }

    /// Hands out the slot of the next request, round robin; the counter
    /// starts over where the machine word ends.
    pub fn next_index(&mut self) -> (index: usize)
        requires
            old(self).wf(),
        ensures
            final(self).wf(),
            final(self).slots() == old(self).slots(),
            index == slot_for(old(self).counter(), old(self).slots().len()),
            index < final(self).slots().len(),
            final(self).counter() == (if old(self).counter() == usize::MAX {
                0
            } else {
                old(self).counter() + 1
            }),
    {
        let current: usize = self.counter;
        self.counter = if current == usize::MAX {
            0
        } else {
            current + 1
        };
        current % self.slots.len()
    }

    /// The client in a slot.
    pub fn client(&self, index: usize) -> (c: &C)
        requires
            index < self.slots().len(),
        ensures
            *c == self.slots()[index as int],
    {
        &self.slots[index]
    }

    /// Puts a new client into a slot and hands back the one that was there.
    /// Every other slot keeps its client.
    pub fn recycle(&mut self, index: usize, client: C) -> (dropped: C)
        requires
            old(self).wf(),
            index < old(self).slots().len(),
        ensures
            final(self).wf(),
            final(self).slots() == old(self).slots().update(index as int, client),
            final(self).slots().len() == old(self).slots().len(),
            final(self).counter() == old(self).counter(),
            dropped == old(self).slots()[index as int],
    {
        let ghost was = self.slots@;
        self.slots.push(client);
        let dropped = self.slots.swap_remove(index);
        assert(self.slots@ =~= was.update(index as int, client));
        dropped
    }
}

/// How a request through a pooled client has failed.
#[derive(Debug, Clone, Copy, PartialEq, Eq, Structural)]
pub enum FetchFailure {
    /// The request did not get through: connect, TLS, timeout.
    Transport,
    /// The reply's body could not be read to its end.
    BodyRead,
    /// Upstream answered with this status, which is no success.
    Status(u16),
    /// Upstream answered with success, and the body is not what was asked
    /// for.
    Malformed,
}

/// Whether the client that a failed request went through is replaced: after
/// a transport failure, after a body that could not be read, and after a
/// status of 500 or above. A status below 500 and a malformed body are the
/// fault of the request or of upstream, not of the client.
pub open spec fn recycles(failure: FetchFailure) -> bool {
    match failure {
        FetchFailure::Transport => true,
        FetchFailure::BodyRead => true,
        FetchFailure::Status(code) => code >= 500,
        FetchFailure::Malformed => false,
    }
}

/// Tells whether the client that a failed request went through is replaced.
pub fn should_recycle(failure: FetchFailure) -> (r: bool)
    ensures
        r == recycles(failure),
{
    match failure {
        FetchFailure::Transport => true,
        FetchFailure::BodyRead => true,
        FetchFailure::Status(code) => code >= 500,
        FetchFailure::Malformed => false,
    }
}

/// Attempts at building a client before the fallback is taken.
pub const BUILD_ATTEMPTS: u32 = 3;

/// Milliseconds between two attempts at building a client.
pub const BUILD_RETRY_DELAY_MS: u64 = 500;

/// Attempts at fetching candles before the request gives up.
pub const HISTORY_ATTEMPTS: u32 = 2;

/// What follows a failed attempt at building a client.
#[derive(Debug, Clone, Copy, PartialEq, Eq, Structural)]
pub enum BuildStep {
    /// Wait this many milliseconds and try again.
    Retry { delay_ms: u64 },
    /// Give up and take the fallback.
    Fallback,
}

/// Decides what follows the failure of the `attempt`-th attempt at building
/// a client, counted from 1: the fallback after the third, else another
/// attempt after half a second. A tunnel address that does not parse is not
/// retried at all: the caller takes the fallback at once.
pub fn after_build_failure(attempt: u32) -> (step: BuildStep)
    ensures
        step == (if attempt >= BUILD_ATTEMPTS {
            BuildStep::Fallback
        } else {
            BuildStep::Retry { delay_ms: BUILD_RETRY_DELAY_MS }
        }),
{
    if attempt >= BUILD_ATTEMPTS {
        BuildStep::Fallback
    } else {
        BuildStep::Retry { delay_ms: BUILD_RETRY_DELAY_MS }
    }
}

/// The client that stands in for one that could not be built.
#[derive(Debug, Clone, Copy, PartialEq, Eq, Structural)]
pub enum FallbackKind {
    /// A client behind a tunnel address that nothing listens on, so that
    /// its requests fail and never leave directly.
    DeadEnd,
    /// A plain direct client.
    Direct,
}

/// Picks the fallback: a pool that was given a tunnel never falls back to a
/// direct client.
pub fn fallback_kind(has_tunnel: bool) -> (kind: FallbackKind)
    ensures
        (kind is Direct) == !has_tunnel,
        (kind is DeadEnd) == has_tunnel,
{
    if has_tunnel {
        FallbackKind::DeadEnd
    } else {
        FallbackKind::Direct
    }
}

} // verus!
