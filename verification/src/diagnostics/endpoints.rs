//! What connections to an address came to a short while ago. It is only observed: no connection is
//! skipped for it.

use crate::diagnostics::keys::{Deadline, FailureReason, PreviousConnect, ResultKind};
use crate::endpoint::Endpoint;
use vstd::prelude::*;

verus! {

/// How many addresses are remembered at most.
pub const CAPACITY: usize = 4096;

/// For how long an address is remembered, in nanoseconds.
pub const TTL_NANOS: u64 = 300_000_000_000;

/// The last connection to an address, and when it ended.
#[derive(Clone, Copy, Debug, PartialEq, Eq, Structural)]
pub struct EndpointEntry {
    pub endpoint: Endpoint,
    pub outcome: PreviousConnect,
    pub ended: u64,
}

/// The addresses that are remembered.
#[derive(Debug)]
pub struct EndpointHistory {
    pub entries: Vec<EndpointEntry>,
}

/// The time from `then` to `now`.
pub open spec fn elapsed(then: u64, now: u64) -> int {
    if now < then {
        0
    } else {
        now - then
    }
}

/// Whether an address is still remembered.
pub open spec fn fresh_entry(entry: EndpointEntry, now: u64) -> bool {
    elapsed(entry.ended, now) < TTL_NANOS
}

/// The addresses that are still remembered.
pub open spec fn kept(entries: Seq<EndpointEntry>, now: u64) -> Seq<EndpointEntry>
    decreases entries.len(),
{
    if entries.len() == 0 {
        entries
    } else {
        let rest = kept(entries.drop_last(), now);
        if fresh_entry(entries.last(), now) {
            rest.push(entries.last())
        } else {
            rest
        }
    }
}

/// Whether an address is remembered.
pub open spec fn known(entries: Seq<EndpointEntry>, endpoint: Endpoint) -> bool {
    exists|i: int| 0 <= i < entries.len() && (#[trigger] entries[i]).endpoint == endpoint
}

/// What the last connection to an address came to.
pub open spec fn outcome_of(entries: Seq<EndpointEntry>, endpoint: Endpoint) -> PreviousConnect
    decreases entries.len(),
{
    if entries.len() == 0 {
        PreviousConnect::NoHistory
    } else if entries.last().endpoint == endpoint {
        entries.last().outcome
    } else {
        outcome_of(entries.drop_last(), endpoint)
    }
}

/// The addresses with a new connection: a known one changes, another one needs room.
pub open spec fn remembered(entries: Seq<EndpointEntry>, entry: EndpointEntry) -> Seq<EndpointEntry> {
    if known(entries, entry.endpoint) {
        Seq::new(
            entries.len(),
            |i: int|
                if entries[i].endpoint == entry.endpoint {
                    entry
                } else {
                    entries[i]
                },
        )
    } else if entries.len() < CAPACITY {
        entries.push(entry)
    } else {
        entries
    }
}

/// Whether no address occurs twice, and there are not too many.
pub open spec fn history_ok(entries: Seq<EndpointEntry>) -> bool {
    &&& entries.len() <= CAPACITY
    &&& forall|i: int, j: int|
        0 <= i < j < entries.len() ==> (#[trigger] entries[i]).endpoint != (
        #[trigger] entries[j]).endpoint
}

/// What is remembered of a connection. One that was given up, or cut off by a deadline of the whole
/// exchange, says nothing of the address.
pub open spec fn connect_outcome(
    result: ResultKind,
    deadline: Deadline,
    reason: Option<FailureReason>,
) -> Option<PreviousConnect> {
    match result {
        ResultKind::Success => Some(PreviousConnect::Success),
        ResultKind::Timeout => if deadline is Stage {
            Some(PreviousConnect::Timeout)
        } else {
            None
        },
        ResultKind::Io | ResultKind::Eof | ResultKind::Reset => Some(
            match reason {
                Some(FailureReason::ConnectionRefused) => PreviousConnect::ConnectionRefused,
                Some(FailureReason::NetworkUnreachable) => PreviousConnect::Unreachable,
                Some(FailureReason::HostUnreachable) => PreviousConnect::Unreachable,
                _ => PreviousConnect::OtherIo,
            },
        ),
        _ => None,
    }
}

/// What is remembered of a connection.
pub fn outcome_for(
    result: ResultKind,
    deadline: Deadline,
    reason: Option<FailureReason>,
) -> (outcome: Option<PreviousConnect>)
    ensures
        outcome == connect_outcome(result, deadline, reason),
{
    match result {
        ResultKind::Success => Some(PreviousConnect::Success),
        ResultKind::Timeout => if matches!(deadline, Deadline::Stage) {
            Some(PreviousConnect::Timeout)
        } else {
            None
        },
        ResultKind::Io | ResultKind::Eof | ResultKind::Reset => Some(
            match reason {
                Some(FailureReason::ConnectionRefused) => PreviousConnect::ConnectionRefused,
                Some(FailureReason::NetworkUnreachable | FailureReason::HostUnreachable) => {
                    PreviousConnect::Unreachable
                },
                _ => PreviousConnect::OtherIo,
            },
        ),
        _ => None,
    }
}

/// Only addresses that were remembered stay, unchanged and fresh.
pub proof fn lemma_kept(entries: Seq<EndpointEntry>, now: u64)
    requires
        history_ok(entries),
    ensures
        history_ok(kept(entries, now)),
        kept(entries, now).len() <= entries.len(),
        forall|i: int|
            0 <= i < kept(entries, now).len() ==> entries.contains(
                #[trigger] kept(entries, now)[i],
            ) && fresh_entry(kept(entries, now)[i], now),
    decreases entries.len(),
{
    if entries.len() > 0 {
        let rest = entries.drop_last();
        lemma_kept(rest, now);
        let before = kept(rest, now);
        let after = kept(entries, now);
        assert forall|i: int| 0 <= i < after.len() implies entries.contains(#[trigger] after[i])
            && fresh_entry(after[i], now) by {
            if i < before.len() {
                assert(after[i] == before[i]);
                let j = choose|j: int| 0 <= j < rest.len() && rest[j] == before[i];
                assert(entries[j] == after[i]);
            } else {
                assert(entries[entries.len() - 1] == after[i]);
            }
        }
        assert forall|i: int, j: int| 0 <= i < j < after.len() implies (
        #[trigger] after[i]).endpoint != (#[trigger] after[j]).endpoint by {
            if j < before.len() {
                assert(after[i] == before[i] && after[j] == before[j]);
            } else {
                assert(after[i] == before[i]);
                assert(rest.contains(before[i]));
                let k = choose|k: int| 0 <= k < rest.len() && rest[k] == before[i];
                assert(entries[k] == before[i]);
            }
        }
    }
}

/// An unknown address has no history.
proof fn lemma_unknown(entries: Seq<EndpointEntry>, endpoint: Endpoint)
    requires
        !known(entries, endpoint),
    ensures
        outcome_of(entries, endpoint) is NoHistory,
    decreases entries.len(),
{
    if entries.len() > 0 {
        assert(entries[entries.len() - 1].endpoint != endpoint);
        let rest = entries.drop_last();
        assert forall|i: int| 0 <= i < rest.len() implies (#[trigger] rest[i]).endpoint
            != endpoint by {
            assert(entries[i] == rest[i]);
        }
        lemma_unknown(rest, endpoint);
    }
}

/// The history of an address is that of its entry.
proof fn lemma_outcome(entries: Seq<EndpointEntry>, at: int)
    requires
        history_ok(entries),
        0 <= at < entries.len(),
    ensures
        outcome_of(entries, entries[at].endpoint) == entries[at].outcome,
    decreases entries.len(),
{
    if at < entries.len() - 1 {
        assert(entries[at].endpoint != entries[entries.len() - 1].endpoint);
        lemma_outcome(entries.drop_last(), at);
    }
}

/// The last connection to an address replaces what was known of it, and nothing else.
pub proof fn lemma_remembered(
    entries: Seq<EndpointEntry>,
    entry: EndpointEntry,
    other: Endpoint,
)
    requires
        history_ok(entries),
    ensures
        history_ok(remembered(entries, entry)),
        known(entries, entry.endpoint) || entries.len() < CAPACITY ==> outcome_of(
            remembered(entries, entry),
            entry.endpoint,
        ) == entry.outcome,
        other != entry.endpoint ==> outcome_of(remembered(entries, entry), other) == outcome_of(
            entries,
            other,
        ),
{
    let next = remembered(entries, entry);
    if known(entries, entry.endpoint) {
        assert forall|i: int, j: int| 0 <= i < j < next.len() implies (
        #[trigger] next[i]).endpoint != (#[trigger] next[j]).endpoint by {
            assert(next[i].endpoint == entries[i].endpoint);
            assert(next[j].endpoint == entries[j].endpoint);
        }
        let at = choose|i: int|
            0 <= i < entries.len() && (#[trigger] entries[i]).endpoint == entry.endpoint;
        assert(next[at] == entry);
        lemma_outcome(next, at);
        if other != entry.endpoint {
            if known(entries, other) {
                let i = choose|i: int|
                    0 <= i < entries.len() && (#[trigger] entries[i]).endpoint == other;
                assert(next[i] == entries[i]);
                lemma_outcome(next, i);
                lemma_outcome(entries, i);
            } else {
                assert forall|i: int| 0 <= i < next.len() implies (#[trigger] next[i]).endpoint
                    != other by {
                    assert(entries[i].endpoint != other);
                }
                lemma_unknown(next, other);
                lemma_unknown(entries, other);
            }
        }
    } else if entries.len() < CAPACITY {
        assert forall|i: int, j: int| 0 <= i < j < next.len() implies (
        #[trigger] next[i]).endpoint != (#[trigger] next[j]).endpoint by {
            assert(next[i] == entries[i]);
            if j < entries.len() {
                assert(next[j] == entries[j]);
            }
        }
        assert(next.drop_last() =~= entries);
    }
}

/// An address whose last connection ended too long ago has no history, whatever was read meanwhile.
pub proof fn lemma_forgotten(entries: Seq<EndpointEntry>, at: int, now: u64)
    requires
        history_ok(entries),
        0 <= at < entries.len(),
    ensures
        outcome_of(kept(entries, now), entries[at].endpoint) == if fresh_entry(entries[at], now) {
            entries[at].outcome
        } else {
            PreviousConnect::NoHistory
        },
    decreases entries.len(),
{
    let endpoint = entries[at].endpoint;
    lemma_kept(entries, now);
    if fresh_entry(entries[at], now) {
        lemma_kept_there(entries, at, now);
        let there = kept(entries, now);
        let i = choose|i: int| 0 <= i < there.len() && there[i] == entries[at];
        lemma_outcome(there, i);
    } else {
        let there = kept(entries, now);
        assert forall|i: int| 0 <= i < there.len() implies (#[trigger] there[i]).endpoint
            != endpoint by {
            assert(entries.contains(there[i]));
            let j = choose|j: int| 0 <= j < entries.len() && entries[j] == there[i];
            if there[i].endpoint == endpoint {
                assert(entries[j].endpoint == entries[at].endpoint);
            }
        }
        lemma_unknown(there, endpoint);
    }
}

/// A fresh entry stays.
proof fn lemma_kept_there(entries: Seq<EndpointEntry>, at: int, now: u64)
    requires
        0 <= at < entries.len(),
        fresh_entry(entries[at], now),
    ensures
        kept(entries, now).contains(entries[at]),
    decreases entries.len(),
{
    let there = kept(entries, now);
    if at < entries.len() - 1 {
        let rest = entries.drop_last();
        lemma_kept_there(rest, at, now);
        let before = kept(rest, now);
        let i = choose|i: int| 0 <= i < before.len() && before[i] == rest[at];
        assert(there[i] == before[i]);
    } else {
        assert(there[there.len() - 1] == entries[at]);
    }
}

impl EndpointHistory {
    /// Nothing remembered.
    pub fn new() -> (history: EndpointHistory)
        ensures
            history.entries@.len() == 0,
            history_ok(history.entries@),
    {
        EndpointHistory { entries: Vec::new() }
    }

    /// Forgets what is too old, and says how many addresses that were.
    pub fn expire(&mut self, now: u64) -> (expired: u64)
        requires
            history_ok(old(self).entries@),
        ensures
            final(self).entries@ == kept(old(self).entries@, now),
            history_ok(final(self).entries@),
            expired == old(self).entries@.len() - final(self).entries@.len(),
    {
        let ghost before = self.entries@;
        let mut entries: Vec<EndpointEntry> = Vec::new();
        proof {
            lemma_kept(before, now);
        }
        for i in 0..self.entries.len()
            invariant
                before == self.entries@,
                entries@ == kept(before.take(i as int), now),
                entries@.len() <= i,
        {
            let entry = self.entries[i];
            proof {
                assert(before.take(i + 1).drop_last() =~= before.take(i as int));
                assert(before.take(i + 1).last() == entry);
            }
            if now < entry.ended || now - entry.ended < TTL_NANOS {
                entries.push(entry);
            }
        }
        assert(before.take(before.len() as int) =~= before);
        let expired: u64 = (self.entries.len() - entries.len()) as u64;
        self.entries = entries;
        expired
    }

    /// What the last connection to an address came to.
    pub fn previous(&self, endpoint: Endpoint) -> (previous: PreviousConnect)
        ensures
            previous == outcome_of(self.entries@, endpoint),
    {
        let mut at: usize = self.entries.len();
        assert(self.entries@.take(at as int) =~= self.entries@);
        while at > 0
            invariant
                at <= self.entries@.len(),
                outcome_of(self.entries@, endpoint) == outcome_of(
                    self.entries@.take(at as int),
                    endpoint,
                ),
            decreases at,
        {
            assert(self.entries@.take(at as int).last() == self.entries@[at - 1]);
            assert(self.entries@.take(at as int).drop_last() =~= self.entries@.take(at - 1));
            at -= 1;
            if self.entries[at].endpoint == endpoint {
                return self.entries[at].outcome;
            }
        }
        PreviousConnect::NoHistory
    }

    /// Remembers a connection, and says whether there was no room for it.
    pub fn remember(&mut self, entry: EndpointEntry) -> (full: bool)
        requires
            history_ok(old(self).entries@),
        ensures
            final(self).entries@ == remembered(old(self).entries@, entry),
            history_ok(final(self).entries@),
            full == (old(self).entries@.len() >= CAPACITY && !known(
                old(self).entries@,
                entry.endpoint,
            )),
    {
        let ghost before = self.entries@;
        proof {
            lemma_remembered(before, entry, entry.endpoint);
        }
        let count: usize = self.entries.len();
        for i in 0..count
            invariant
                before == self.entries@,
                before == old(self).entries@,
                count == before.len(),
                history_ok(before),
                forall|k: int| 0 <= k < i ==> (#[trigger] before[k]).endpoint != entry.endpoint,
        {
            if self.entries[i].endpoint == entry.endpoint {
                proof {
                    assert(known(before, entry.endpoint));
                    lemma_remembered(before, entry, entry.endpoint);
                }
                self.entries.set(i, entry);
                assert(self.entries@ =~= remembered(before, entry));
                return false;
            }
        }
        if self.entries.len() < CAPACITY {
            self.entries.push(entry);
            false
        } else {
            true
        }
    }
}

/// An address is remembered for five minutes after its last connection ended, in the place that it
/// has. A time that went back counts as no time.
pub proof fn lemma_next_entry(entries: Seq<EndpointEntry>, entry: EndpointEntry, now: u64, endpoint: Endpoint)
    ensures
        kept(Seq::empty(), now).len() == 0,
        now - entry.ended < 5 * 60 * 1_000_000_000 ==> kept(entries.push(entry), now) == kept(
            entries,
            now,
        ).push(entry),
        now - entry.ended >= 5 * 60 * 1_000_000_000 ==> kept(entries.push(entry), now) == kept(
            entries,
            now,
        ),
        !known(Seq::empty(), endpoint),
        known(entries.push(entry), endpoint) <==> known(entries, endpoint) || entry.endpoint
            == endpoint,
        outcome_of(Seq::empty(), endpoint) is NoHistory,
        outcome_of(entries.push(entry), endpoint) == if entry.endpoint == endpoint {
            entry.outcome
        } else {
            outcome_of(entries, endpoint)
        },
        CAPACITY == 4096,
{
    let all = entries.push(entry);
    assert(all.drop_last() =~= entries);
    assert(all[entries.len() as int] == entry);
    if known(entries, endpoint) {
        let i = choose|i: int|
            0 <= i < entries.len() && (#[trigger] entries[i]).endpoint == endpoint;
        assert(all[i].endpoint == endpoint);
    }
    if known(all, endpoint) {
        let i = choose|i: int| 0 <= i < all.len() && (#[trigger] all[i]).endpoint == endpoint;
        if i < entries.len() {
            assert(entries[i].endpoint == endpoint);
        }
    }
}

/// What is remembered of a connection: a success, a deadline of its own stage, or why the system
/// ended it. Deadlines from outside and what was cancelled say nothing of the address.
pub proof fn lemma_connect_outcome(
    result: ResultKind,
    deadline: Deadline,
    reason: Option<FailureReason>,
)
    ensures
        ({
            let outcome = connect_outcome(result, deadline, reason);
            let system = result is Io || result is Eof || result is Reset;
            &&& result is Success ==> outcome == Some(PreviousConnect::Success)
            &&& result is Timeout && deadline is Stage ==> outcome == Some(PreviousConnect::Timeout)
            &&& result is Timeout && !(deadline is Stage) ==> outcome is None
            &&& system && reason == Some(FailureReason::ConnectionRefused) ==> outcome == Some(
                PreviousConnect::ConnectionRefused,
            )
            &&& system && (reason == Some(FailureReason::NetworkUnreachable) || reason == Some(
                FailureReason::HostUnreachable,
            )) ==> outcome == Some(PreviousConnect::Unreachable)
            &&& system && reason != Some(FailureReason::ConnectionRefused) && reason != Some(
                FailureReason::NetworkUnreachable,
            ) && reason != Some(FailureReason::HostUnreachable) ==> outcome == Some(
                PreviousConnect::OtherIo,
            )
            &&& !system && !(result is Success) && !(result is Timeout) ==> outcome is None
        }),
{
}

/// One more outcome replaces what is known of its address in its place; a new address is put last
/// while there is room, and else nothing changes.
pub proof fn lemma_remembered_place(entries: Seq<EndpointEntry>, entry: EndpointEntry, i: int)
    ensures
        ({
            let after = remembered(entries, entry);
            &&& known(entries, entry.endpoint) ==> after.len() == entries.len() && (0 <= i
                < entries.len() ==> after[i] == if entries[i].endpoint == entry.endpoint {
                entry
            } else {
                entries[i]
            })
            &&& !known(entries, entry.endpoint) && entries.len() < 4096 ==> after == entries.push(
                entry,
            )
            &&& !known(entries, entry.endpoint) && entries.len() >= 4096 ==> after == entries
        }),
{
}

} // verus!
