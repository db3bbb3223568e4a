//! Finding a first neighbour: which addresses are asked, in what order, and how long to wait before
//! the next try.

use crate::endpoint::{contains_endpoint, Endpoint, Family};
use crate::random::random_up_to;
use vstd::prelude::*;

verus! {

/// The longest wait, in nanoseconds: fifteen minutes.
pub const LONGEST_WAIT: u64 = 900_000_000_000;

/// The greatest base of a wait, in milliseconds.
pub const LONGEST_BACKOFF: u32 = 900_000;

/// The first base of a wait, in milliseconds.
pub const FIRST_BACKOFF: u32 = 60_000;

/// The first wait, and that while there are neighbours, in nanoseconds: a minute.
pub const FIRST_WAIT: u64 = 60_000_000_000;

/// The wait while saved neighbours are asked, in nanoseconds.
pub const RECOVERY_WAIT: u64 = 10_000_000_000;

/// The wait while there is no room for a query, in nanoseconds.
pub const BUSY_WAIT: u64 = 1_000_000_000;

/// How many addresses are asked at most.
pub const MAX_ADDRESSES: usize = 8;

/// The greatest jitter, in thousandths.
pub const MOST_JITTER: u32 = 200;

/// How many queries are under way at most.
pub const MAX_PENDING: usize = 2;

/// The lesser of a wait and the longest one.
pub open spec fn limited(wait: int) -> int {
    if wait < LONGEST_WAIT {
        wait
    } else {
        LONGEST_WAIT as int
    }
}

/// A base in milliseconds, made longer by thousandths of itself, in nanoseconds. A thousandth of a
/// millisecond is a whole number of them, so that nothing is rounded.
pub open spec fn jittered(base: int, jitter: int) -> int {
    base * 1_000_000 + base * jitter * 1000
}

/// The wait before the next try, in nanoseconds: the base in milliseconds with a jitter in
/// thousandths, within the longest wait.
pub fn retry_delay(base: u32, jitter: u32) -> (delay: u64)
    ensures
        delay == limited(jittered(base as int, jitter as int)),
{
    assert(0 <= base * jitter <= u32::MAX * u32::MAX) by (nonlinear_arith)
        requires
            0 <= base <= u32::MAX,
            0 <= jitter <= u32::MAX,
    ;
    let delay: u128 = base as u128 * 1_000_000 + base as u128 * jitter as u128 * 1000;
    if delay < LONGEST_WAIT as u128 {
        delay as u64
    } else {
        LONGEST_WAIT
    }
}

/// A jitter never makes a wait shorter than its base, nor longer than the longest one.
pub proof fn lemma_delay_bounds(base: int, jitter: int)
    requires
        0 <= base <= LONGEST_BACKOFF,
        0 <= jitter,
    ensures
        base * 1_000_000 <= limited(jittered(base, jitter)) <= LONGEST_WAIT,
{
    assert(base * jitter >= 0) by (nonlinear_arith)
        requires
            0 <= base,
            0 <= jitter,
    ;
}

/// How a round of queries went.
#[derive(Clone, Copy, Debug, PartialEq, Eq, Structural)]
pub enum Round {
    Connected,
    Busy,
    Failed,
}

/// The search: the base of the next wait after a failure, in milliseconds.
#[derive(Clone, Copy, Debug, PartialEq, Eq, Structural)]
pub struct Search {
    pub backoff: u32,
}

impl Search {
    /// Whether the base is one that a search comes to.
    pub open spec fn well_formed(self) -> bool {
        FIRST_BACKOFF <= self.backoff <= LONGEST_BACKOFF
    }

    /// The search after a round.
    pub open spec fn after(self, round: Round) -> Search {
        match round {
            Round::Connected => Search { backoff: FIRST_BACKOFF },
            Round::Busy => self,
            Round::Failed => Search {
                backoff: if 2 * self.backoff < LONGEST_BACKOFF {
                    (2 * self.backoff) as u32
                } else {
                    LONGEST_BACKOFF
                },
            },
        }
    }

    /// The search after some failed rounds.
    pub open spec fn after_failures(self, n: nat) -> Search
        decreases n,
    {
        if n == 0 {
            self
        } else {
            self.after_failures((n - 1) as nat).after(Round::Failed)
        }
    }

    /// Begins, and says how long to wait first: a while where saved neighbours are asked.
    pub fn begin(recovering: bool) -> (begun: (Search, u64))
        ensures
            begun.0 == (Search { backoff: FIRST_BACKOFF }),
            begun.0.well_formed(),
            begun.1 == if recovering {
                RECOVERY_WAIT
            } else {
                0
            },
    {
        (
            Search { backoff: FIRST_BACKOFF },
            if recovering {
                RECOVERY_WAIT
            } else {
                0
            },
        )
    }

    /// Whether there is something to do: with a neighbour the search rests for a while.
    pub fn rests(&mut self, good: usize) -> (wait: Option<u64>)
        ensures
            good > 0 ==> wait == Some(FIRST_WAIT) && *final(self) == old(self).after(
                Round::Connected,
            ),
            good == 0 ==> wait is None && *final(self) == *old(self),
    {
        if good > 0 {
            self.backoff = FIRST_BACKOFF;
            Some(FIRST_WAIT)
        } else {
            None
        }
    }

    /// How long to wait after a round.
    pub open spec fn wait(self, round: Round, jitter: u32) -> int {
        match round {
            Round::Connected => FIRST_WAIT as int,
            Round::Busy => BUSY_WAIT as int,
            Round::Failed => limited(jittered(self.backoff as int, jitter as int)),
        }
    }

    /// The wait after a round, with a jitter that is left to chance.
    pub fn finish_at_random(&mut self, round: Round) -> (wait: u64)
        requires
            old(self).well_formed(),
        ensures
            *final(self) == old(self).after(round),
            final(self).well_formed(),
            exists|jitter: u32|
                jitter <= MOST_JITTER && wait == #[trigger] old(self).wait(round, jitter),
    {
        let jitter: u32 = random_up_to(MOST_JITTER);
        self.finish_round(round, jitter)
    }

    /// The wait after a round.
    pub fn finish_round(&mut self, round: Round, jitter: u32) -> (wait: u64)
        requires
            old(self).well_formed(),
        ensures
            *final(self) == old(self).after(round),
            final(self).well_formed(),
            wait == old(self).wait(round, jitter),
    {
        match round {
            Round::Connected => {
                self.backoff = FIRST_BACKOFF;
                FIRST_WAIT
            },
            Round::Busy => BUSY_WAIT,
            Round::Failed => {
                let delay: u64 = retry_delay(self.backoff, jitter);
                let doubled: u32 = self.backoff * 2;
                self.backoff = if doubled < LONGEST_BACKOFF {
                    doubled
                } else {
                    LONGEST_BACKOFF
                };
                delay
            },
        }
    }
}

/// A search that keeps failing waits ever longer, up to the longest wait.
pub proof fn lemma_backoff_grows(search: Search, n: nat)
    requires
        search.well_formed(),
    ensures
        search.after_failures(n).well_formed(),
        search.after_failures(n).backoff <= search.after_failures(n + 1).backoff,
        n >= 4 ==> search.after_failures(n).backoff == LONGEST_BACKOFF,
    decreases n,
{
    reveal_with_fuel(Search::after_failures, 6);
    if n > 0 {
        lemma_backoff_grows(search, (n - 1) as nat);
    }
}

/// An address that a name leads to, and whether it may be used.
#[derive(Clone, Copy, Debug, PartialEq, Eq, Structural)]
pub struct Resolved {
    pub endpoint: Endpoint,
    pub allowed: bool,
}

/// One more address: it is taken if there is room, it is of the family, may be used and is new.
pub open spec fn taken(chosen: Seq<Endpoint>, found: Resolved, family: Family) -> Seq<Endpoint> {
    if chosen.len() < MAX_ADDRESSES && found.endpoint.family == family && found.allowed
        && !chosen.contains(found.endpoint) {
        chosen.push(found.endpoint)
    } else {
        chosen
    }
}

/// More addresses.
pub open spec fn all_taken(chosen: Seq<Endpoint>, found: Seq<Resolved>, family: Family) -> Seq<
    Endpoint,
>
    decreases found.len(),
{
    if found.len() == 0 {
        chosen
    } else {
        taken(all_taken(chosen, found.drop_last(), family), found.last(), family)
    }
}

/// Nothing is taken where there is no room.
proof fn lemma_full(chosen: Seq<Endpoint>, found: Seq<Resolved>, n: int, family: Family)
    requires
        0 <= n <= found.len(),
        all_taken(chosen, found.take(n), family).len() >= MAX_ADDRESSES,
    ensures
        all_taken(chosen, found, family) == all_taken(chosen, found.take(n), family),
    decreases found.len(),
{
    if n == found.len() {
        assert(found.take(n) =~= found);
    } else {
        assert(found.drop_last().take(n) =~= found.take(n));
        lemma_full(chosen, found.drop_last(), n, family);
    }
}

/// Takes the addresses that a name leads to, and says whether there are enough.
pub fn resolve_addresses(chosen: &mut Vec<Endpoint>, found: &Vec<Resolved>, family: Family) -> (
enough: bool)
    requires
        old(chosen)@.len() <= MAX_ADDRESSES,
    ensures
        final(chosen)@ == all_taken(old(chosen)@, found@, family),
        final(chosen)@.len() <= MAX_ADDRESSES,
        enough == (final(chosen)@.len() == MAX_ADDRESSES),
{
    let ghost before = chosen@;
    for i in 0..found.len()
        invariant
            before == old(chosen)@,
            chosen@ == all_taken(before, found@.take(i as int), family),
            chosen@.len() <= MAX_ADDRESSES,
    {
        proof {
            assert(found@.take(i + 1).drop_last() =~= found@.take(i as int));
            assert(found@.take(i + 1).last() == found@[i as int]);
        }
        if chosen.len() == MAX_ADDRESSES {
            proof {
                lemma_full(before, found@, i as int, family);
            }
            return true;
        }
        let candidate = found[i];
        if candidate.endpoint.family == family && candidate.allowed && !contains_endpoint(
            chosen,
            candidate.endpoint,
        ) {
            chosen.push(candidate.endpoint);
        }
    }
    assert(found@.take(found@.len() as int) =~= found@);
    chosen.len() == MAX_ADDRESSES
}

/// Only addresses of the family that may be used are asked, none of them twice, and not too many.
pub proof fn lemma_addresses(found: Seq<Resolved>, family: Family)
    ensures
        ({
            let chosen = all_taken(Seq::empty(), found, family);
            &&& chosen.len() <= MAX_ADDRESSES
            &&& chosen.no_duplicates()
            &&& forall|i: int|
                0 <= i < chosen.len() ==> (#[trigger] chosen[i]).family == family
                    && exists|k: int|
                    0 <= k < found.len() && (#[trigger] found[k]).endpoint == chosen[i]
                        && found[k].allowed
        }),
    decreases found.len(),
{
    let chosen = all_taken(Seq::empty(), found, family);
    if found.len() > 0 {
        let rest = found.drop_last();
        lemma_addresses(rest, family);
        let before = all_taken(Seq::empty(), rest, family);
        assert forall|i: int| 0 <= i < chosen.len() implies (#[trigger] chosen[i]).family == family
            && exists|k: int|
            0 <= k < found.len() && (#[trigger] found[k]).endpoint == chosen[i]
                && found[k].allowed by {
            if i < before.len() {
                assert(before[i] == chosen[i]);
                let k = choose|k: int|
                    0 <= k < rest.len() && (#[trigger] rest[k]).endpoint == before[i]
                        && rest[k].allowed;
                assert(found[k] == rest[k]);
            } else {
                assert(found[found.len() - 1].endpoint == chosen[i]);
            }
        }
        assert forall|i: int, j: int| 0 <= i < chosen.len() && 0 <= j < chosen.len() && i
            != j implies chosen[i] != chosen[j] by {
            if i < before.len() && j < before.len() {
                assert(chosen[i] == before[i] && chosen[j] == before[j]);
            } else if i < before.len() {
                assert(chosen[i] == before[i]);
                assert(before.contains(before[i]));
            } else if j < before.len() {
                assert(chosen[j] == before[j]);
                assert(before.contains(before[j]));
            }
        }
    }
}

/// How a query went.
#[derive(Clone, Copy, Debug, PartialEq, Eq, Structural)]
pub enum QueryEnd {
    /// A neighbour answered.
    Answered,
    /// There was no room for it.
    AtCapacity,
    /// The node is closed, or closes.
    Closing,
    /// Anything else.
    Unanswered,
}

/// A round of queries: the next address, how many there are, and what has come so far.
#[derive(Clone, Copy, Debug, PartialEq, Eq, Structural)]
pub struct RoundState {
    pub next: usize,
    pub count: usize,
    pub pending: usize,
    pub connected: bool,
    pub busy: bool,
}

impl RoundState {
    /// Whether no address is asked that there is not, and not too many are asked at once.
    pub open spec fn well_formed(self) -> bool {
        &&& self.next <= self.count
        &&& self.pending <= MAX_PENDING
        &&& self.pending <= self.next
    }

    /// Whether the next address may be asked.
    pub open spec fn may_send(self) -> bool {
        !self.connected && self.next < self.count && self.pending < MAX_PENDING
    }

    /// Whether the round is over: nothing is under way, and nothing is left or needed.
    pub open spec fn is_over(self) -> bool {
        self.pending == 0 && (self.next >= self.count || self.connected)
    }

    /// The round after a query was sent.
    pub open spec fn after_send(self) -> RoundState {
        RoundState {
            next: (self.next + 1) as usize,
            pending: (self.pending + 1) as usize,
            ..self
        }
    }

    /// The round after a query ended.
    pub open spec fn after_end(self, end: QueryEnd) -> RoundState {
        RoundState {
            pending: (self.pending - 1) as usize,
            connected: self.connected || end is Answered,
            busy: self.busy || end is AtCapacity,
            ..self
        }
    }

    /// Begins a round with `count` addresses.
    pub fn new(count: usize) -> (round: RoundState)
        ensures
            round == (RoundState { next: 0, count, pending: 0, connected: false, busy: false }),
            round.well_formed(),
    {
        RoundState { next: 0, count, pending: 0, connected: false, busy: false }
    }

    /// Whether the round is over.
    pub fn over(&self) -> (over: bool)
        ensures
            over == self.is_over(),
    {
        self.pending == 0 && (self.next >= self.count || self.connected)
    }

    /// Whether the next address may be asked.
    pub fn can_send(&self) -> (can: bool)
        ensures
            can == self.may_send(),
    {
        !self.connected && self.next < self.count && self.pending < MAX_PENDING
    }

    /// The address to ask.
    pub fn send(&mut self) -> (index: usize)
        requires
            old(self).well_formed(),
            old(self).may_send(),
        ensures
            index == old(self).next,
            index < old(self).count,
            *final(self) == old(self).after_send(),
            final(self).well_formed(),
    {
        let index: usize = self.next;
        self.next = self.next + 1;
        self.pending = self.pending + 1;
        index
    }

    /// Takes note of a query that ended, and says whether the search goes on.
    pub fn finish(&mut self, end: QueryEnd) -> (goes_on: bool)
        requires
            old(self).well_formed(),
            old(self).pending > 0,
        ensures
            goes_on == !(end is Closing),
            *final(self) == old(self).after_end(end),
            final(self).well_formed(),
    {
        self.pending = self.pending - 1;
        match end {
            QueryEnd::Answered => {
                self.connected = true;
                true
            },
            QueryEnd::AtCapacity => {
                self.busy = true;
                true
            },
            QueryEnd::Closing => false,
            QueryEnd::Unanswered => true,
        }
    }

    /// How the round went.
    pub fn result(&self) -> (round: Round)
        ensures
            round == if self.connected {
                Round::Connected
            } else if self.busy {
                Round::Busy
            } else {
                Round::Failed
            },
    {
        if self.connected {
            Round::Connected
        } else if self.busy {
            Round::Busy
        } else {
            Round::Failed
        }
    }
}

/// After the first answer no address is asked any more, whatever else comes.
pub proof fn lemma_first_answer(round: RoundState, end: QueryEnd)
    requires
        round.connected,
    ensures
        !round.may_send(),
        round.after_end(end).connected,
{
}

/// As long as a round is not over, it can go on: a query is under way, or one can be sent.
pub proof fn lemma_round_goes_on(round: RoundState)
    requires
        round.well_formed(),
        !round.is_over(),
    ensures
        round.pending > 0 || round.may_send(),
{
}

/// A failed round doubles the next wait up to a quarter of an hour, a busy one leaves it, and a
/// connection brings it back to a minute.
pub proof fn lemma_backoff(search: Search)
    requires
        search.well_formed(),
    ensures
        search.after(Round::Connected).backoff == 60_000,
        search.after(Round::Busy) == search,
        search.backoff <= 450_000 ==> search.after(Round::Failed).backoff == 2 * search.backoff,
        search.backoff > 450_000 ==> search.after(Round::Failed).backoff == 900_000,
        60_000 <= search.backoff <= 900_000,
{
}

/// A wait after a failure is its base lengthened by so many thousandths, at most a quarter of an
/// hour. A connection is checked after a minute, a busy round is tried again after a second.
pub proof fn lemma_wait(search: Search, jitter: u32)
    ensures
        search.wait(Round::Connected, jitter) == 60 * 1_000_000_000,
        search.wait(Round::Busy, jitter) == 1_000_000_000,
        search.wait(Round::Failed, jitter) <= 15 * 60 * 1_000_000_000,
        search.backoff * (1000 + jitter) * 1000 < 15 * 60 * 1_000_000_000 ==> search.wait(
            Round::Failed,
            jitter,
        ) == search.backoff * (1000 + jitter) * 1000,
        search.backoff * (1000 + jitter) * 1000 >= 15 * 60 * 1_000_000_000 ==> search.wait(
            Round::Failed,
            jitter,
        ) == 15 * 60 * 1_000_000_000,
        RECOVERY_WAIT == 10 * 1_000_000_000,
        MOST_JITTER == 200,
{
    let (base, more) = (search.backoff as int, jitter as int);
    assert(base * (1000 + more) * 1000 == base * 1_000_000 + base * more * 1000) by (nonlinear_arith);
}

/// Addresses are taken in their order: each of the family that may be used and was not taken yet,
/// until there are eight.
pub proof fn lemma_next_address(chosen: Seq<Endpoint>, found: Seq<Resolved>, next: Resolved, family: Family)
    ensures
        all_taken(chosen, Seq::empty(), family) == chosen,
        ({
            let before = all_taken(chosen, found, family);
            let after = all_taken(chosen, found.push(next), family);
            let counts = before.len() < 8 && next.endpoint.family == family && next.allowed
                && !before.contains(next.endpoint);
            &&& counts ==> after == before.push(next.endpoint)
            &&& !counts ==> after == before
        }),
{
    assert(found.push(next).drop_last() =~= found);
}

/// A round asks its addresses one by one, two at a time, until one has answered. It is over once
/// nothing is pending and nothing is left to ask.
pub proof fn lemma_round(round: RoundState, end: QueryEnd)
    requires
        round.well_formed(),
    ensures
        round.may_send() <==> !round.connected && round.next < round.count && round.pending < 2,
        round.is_over() <==> round.pending == 0 && (round.connected || round.next == round.count),
        round.may_send() ==> round.after_send().well_formed() && round.after_send().next
            == round.next + 1 && round.after_send().pending == round.pending + 1
            && round.after_send().connected == round.connected && round.after_send().busy
            == round.busy && round.after_send().count == round.count,
        round.pending > 0 ==> {
            let after = round.after_end(end);
            &&& after.well_formed()
            &&& after.pending == round.pending - 1
            &&& after.next == round.next
            &&& after.count == round.count
            &&& after.connected <==> round.connected || end is Answered
            &&& after.busy <==> round.busy || end is AtCapacity
        },
{
}

} // verus!
