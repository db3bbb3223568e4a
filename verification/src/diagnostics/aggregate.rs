//! The diagnostics as a whole: an aggregate since the start, one since the last report, the addresses
//! of a short while and the budget for texts on broken frames.

use crate::diagnostics::endpoints::{
    connect_outcome, elapsed, history_ok, kept, known, lemma_kept, outcome_for, outcome_of,
    remembered, EndpointEntry, EndpointHistory, CAPACITY,
};
use crate::diagnostics::keys::{
    AttemptContext, AttemptKey, AttemptResult, ConnectionKey, FailureKey, FailureReason, PeerKey,
    PreviousConnect, TaskTiming,
};
use crate::diagnostics::snapshot::{
    lemma_applied, lemma_volume_room, weight, Event, Measures, Snapshot, SnapshotModel,
};
use crate::endpoint::Endpoint;
use crate::jobs::model::AttemptKind;
use vstd::prelude::*;

verus! {

/// How many texts are put out in one window.
pub const SAMPLE_LIMIT: u8 = 8;

/// How long a window is, in nanoseconds.
pub const SAMPLE_WINDOW_NANOS: u64 = 60_000_000_000;

/// A window of texts: when it began, and how many were put out.
#[derive(Clone, Copy, Debug, PartialEq, Eq, Structural)]
pub struct SampleWindow {
    pub start: Option<u64>,
    pub emitted: u8,
}

impl SampleWindow {
    /// The window at a time: a new one where the last is over.
    pub open spec fn at(self, now: u64) -> SampleWindow {
        if self.start is None || elapsed(self.start->0, now) >= SAMPLE_WINDOW_NANOS {
            SampleWindow { start: Some(now), emitted: 0 }
        } else {
            self
        }
    }

    /// Whether one more text is put out.
    pub open spec fn admits(self, now: u64) -> bool {
        self.at(now).emitted < SAMPLE_LIMIT
    }

    /// The window after one more text.
    pub open spec fn counted(self, now: u64) -> SampleWindow {
        if self.admits(now) {
            SampleWindow {
                start: self.at(now).start,
                emitted: (self.at(now).emitted + 1) as u8,
            }
        } else {
            self.at(now)
        }
    }

    /// Counts a text, and says whether it is put out.
    pub fn accept(&mut self, now: u64) -> (admitted: bool)
        requires
            old(self).emitted <= SAMPLE_LIMIT,
        ensures
            admitted == old(self).admits(now),
            *final(self) == old(self).counted(now),
            final(self).emitted <= SAMPLE_LIMIT,
    {
        let over = match self.start {
            None => true,
            Some(start) => now >= start && now - start >= SAMPLE_WINDOW_NANOS,
        };
        if over {
            self.start = Some(now);
            self.emitted = 0;
        }
        if self.emitted == SAMPLE_LIMIT {
            return false;
        }
        self.emitted = self.emitted + 1;
        true
    }
}

/// A connection that was begun: its address, what was known of it and the kind of the attempt.
#[derive(Clone, Copy, Debug, PartialEq, Eq, Structural)]
pub struct Observation {
    pub address: Endpoint,
    pub previous: PreviousConnect,
    pub attempt_kind: Option<AttemptKind>,
}

/// The diagnostics.
#[derive(Debug)]
pub struct Diagnostics {
    pub endpoints: EndpointHistory,
    pub window: SampleWindow,
    pub total: Snapshot,
    pub interval: Snapshot,
}

/// The model of the diagnostics.
#[verifier::ext_equal]
pub struct DiagnosticsModel {
    pub endpoints: Seq<EndpointEntry>,
    pub window: SampleWindow,
    pub total: SnapshotModel,
    pub interval: SnapshotModel,
}

impl View for Diagnostics {
    type V = DiagnosticsModel;

    open spec fn view(&self) -> DiagnosticsModel {
        DiagnosticsModel {
            endpoints: self.endpoints.entries@,
            window: self.window,
            total: self.total@,
            interval: self.interval@,
        }
    }
}

/// What is left for one more step: no step adds more than this.
pub const STEP: u64 = 8192;

impl DiagnosticsModel {
    /// Nothing counted, and no connection remembered.
    pub open spec fn empty() -> DiagnosticsModel {
        DiagnosticsModel {
            endpoints: Seq::empty(),
            window: SampleWindow { start: None, emitted: 0 },
            total: SnapshotModel::empty(),
            interval: SnapshotModel::empty(),
        }
    }

    /// Whether all parts are in order.
    pub open spec fn well_formed(self) -> bool {
        &&& history_ok(self.endpoints)
        &&& self.window.emitted <= SAMPLE_LIMIT
        &&& self.total.well_formed()
        &&& self.interval.well_formed()
    }

    /// Whether no aggregate counts more than `limit` in all.
    pub open spec fn below(self, limit: int) -> bool {
        &&& self.total.volume() <= limit
        &&& self.interval.volume() <= limit
    }

    /// Whether there is room for one more step.
    pub open spec fn has_room(self) -> bool {
        self.below(u64::MAX - STEP)
    }

    /// An event counts in both aggregates.
    #[verifier::opaque]
    pub open spec fn noted(self, event: Event) -> DiagnosticsModel {
        DiagnosticsModel {
            total: self.total.applied(event),
            interval: self.interval.applied(event),
            ..self
        }
    }

    /// Old addresses are forgotten.
    pub open spec fn expired(self, now: u64) -> DiagnosticsModel {
        DiagnosticsModel { endpoints: kept(self.endpoints, now), ..self }.noted(
            Event::Endpoints {
                expired: (self.endpoints.len() - kept(self.endpoints, now).len()) as u64,
                dropped: 0,
            },
        )
    }

    /// A connection is remembered, where it says something of the address.
    pub open spec fn connect_remembered(
        self,
        address: Endpoint,
        outcome: PreviousConnect,
        now: u64,
    ) -> DiagnosticsModel {
        let fresh = kept(self.endpoints, now);
        let entry = EndpointEntry { endpoint: address, outcome, ended: now };
        DiagnosticsModel { endpoints: remembered(fresh, entry), ..self }.noted(
            Event::Endpoints {
                expired: (self.endpoints.len() - fresh.len()) as u64,
                dropped: if fresh.len() >= CAPACITY && !known(fresh, address) {
                    1
                } else {
                    0
                },
            },
        )
    }

    /// A connection ended.
    pub open spec fn connect_finished(
        self,
        observation: Observation,
        key: PeerKey,
        reason: Option<FailureReason>,
        millis: u64,
        now: u64,
    ) -> DiagnosticsModel {
        let after = match connect_outcome(key.result, key.deadline, reason) {
            Some(outcome) => self.connect_remembered(observation.address, outcome, now),
            None => self,
        };
        after.noted(
            Event::Connection {
                key: ConnectionKey {
                    attempt_kind: observation.attempt_kind,
                    source: key.source,
                    ipv6: key.ipv6,
                    previous: observation.previous,
                    result: key.result,
                    reason,
                    deadline: key.deadline,
                },
                millis,
            },
        )
    }

    /// A text on a broken frame was put out or held back.
    pub open spec fn sampled(self, now: u64) -> DiagnosticsModel {
        DiagnosticsModel { window: self.window.counted(now), ..self }.noted(
            Event::Sample { admitted: self.window.admits(now) },
        )
    }

    /// A report was made.
    pub open spec fn reported(self, now: u64) -> DiagnosticsModel {
        DiagnosticsModel { interval: SnapshotModel::empty(), ..self.expired(now) }
    }
}

/// What is reported.
#[derive(Debug)]
pub struct Report {
    /// How many addresses are remembered.
    pub entries: usize,
    pub total: Snapshot,
    pub interval: Snapshot,
}

impl Diagnostics {
    /// Nothing observed.
    pub fn new() -> (diagnostics: Diagnostics)
        ensures
            diagnostics@ == DiagnosticsModel::empty(),
            diagnostics@.well_formed(),
            diagnostics@.has_room(),
    {
        let diagnostics = Diagnostics {
            endpoints: EndpointHistory::new(),
            window: SampleWindow { start: None, emitted: 0 },
            total: Snapshot::new(),
            interval: Snapshot::new(),
        };
        assert(diagnostics@.endpoints =~= Seq::empty());
        proof {
            reveal(SnapshotModel::volume);
        }
        diagnostics
    }

    /// Counts an event in both aggregates.
    pub fn note(&mut self, event: Event)
        requires
            old(self)@.well_formed(),
            old(self)@.below(u64::MAX - weight(event)),
        ensures
            final(self)@ == old(self)@.noted(event),
            final(self)@.well_formed(),
            final(self)@.total.volume() == old(self)@.total.volume() + weight(event),
            final(self)@.interval.volume() == old(self)@.interval.volume() + weight(event),
    {
        proof {
            lemma_volume_room(self.total@, event);
            lemma_volume_room(self.interval@, event);
            reveal(SnapshotModel::volume);
            reveal(DiagnosticsModel::noted);
        }
        self.total.apply(event);
        self.interval.apply(event);
    }

    /// Counts a duration of an attempt.
    pub fn attempt(
        &mut self,
        context: AttemptContext,
        timing: TaskTiming,
        result: AttemptResult,
        millis: u64,
    )
        requires
            old(self)@.well_formed(),
            old(self)@.has_room(),
        ensures
            final(self)@ == old(self)@.noted(
                Event::Attempt { key: AttemptKey { context, timing, result }, millis },
            ),
            final(self)@.well_formed(),
    {
        self.note(Event::Attempt { key: AttemptKey { context, timing, result }, millis });
    }

    /// Counts a result that was stored.
    pub fn committed(&mut self, context: AttemptContext)
        requires
            old(self)@.well_formed(),
            old(self)@.has_room(),
        ensures
            final(self)@ == old(self)@.noted(Event::Commit { context }),
            final(self)@.well_formed(),
    {
        self.note(Event::Commit { context });
    }

    /// Counts a stored result of a session with frames out of order.
    pub fn compatibility_committed(&mut self)
        requires
            old(self)@.well_formed(),
            old(self)@.has_room(),
        ensures
            final(self)@ == old(self)@.noted(Event::CompatibleCommit),
            final(self)@.well_formed(),
    {
        self.note(Event::CompatibleCommit);
    }

    /// Counts a stage that ended.
    pub fn record(&mut self, key: PeerKey, millis: u64)
        requires
            old(self)@.well_formed(),
            old(self)@.below(u64::MAX - 1),
        ensures
            final(self)@ == old(self)@.noted(Event::Peer { key, millis }),
            final(self)@.well_formed(),
            final(self)@.total.volume() == old(self)@.total.volume() + 1,
            final(self)@.interval.volume() == old(self)@.interval.volume() + 1,
    {
        self.note(Event::Peer { key, millis });
    }

    /// Counts a stage that failed.
    pub fn failure(&mut self, key: PeerKey, reason: FailureReason)
        requires
            old(self)@.well_formed(),
            old(self)@.below(u64::MAX - 1),
        ensures
            final(self)@ == old(self)@.noted(Event::Failure { key: failure_key(key, reason) }),
            final(self)@.well_formed(),
            final(self)@.total.volume() == old(self)@.total.volume() + 1,
            final(self)@.interval.volume() == old(self)@.interval.volume() + 1,
    {
        self.note(
            Event::Failure {
                key: FailureKey { stage: key.stage, source: key.source, ipv6: key.ipv6, reason },
            },
        );
    }

    /// Begins a connection. Reading the history does not prolong it.
    pub fn observe_connect(
        &mut self,
        address: Endpoint,
        attempt_kind: Option<AttemptKind>,
        now: u64,
    ) -> (observation: Observation)
        requires
            old(self)@.well_formed(),
            old(self)@.has_room(),
        ensures
            final(self)@ == old(self)@.expired(now),
            final(self)@.well_formed(),
            observation == (Observation {
                address,
                previous: outcome_of(kept(old(self)@.endpoints, now), address),
                attempt_kind,
            }),
    {
        proof {
            reveal(DiagnosticsModel::noted);
        }
        let expired: u64 = self.endpoints.expire(now);
        let previous = self.endpoints.previous(address);
        self.connection_maintenance(expired, 0);
        assert(self@ =~= old(self)@.expired(now));
        Observation { address, previous, attempt_kind }
    }

    /// Counts addresses that were forgotten or had no room.
    pub fn connection_maintenance(&mut self, expired: u64, dropped: u64)
        requires
            old(self)@.well_formed(),
            old(self)@.below(u64::MAX - expired - dropped),
        ensures
            final(self)@ == old(self)@.noted(Event::Endpoints { expired, dropped }),
            final(self)@.well_formed(),
            final(self)@.total.volume() == old(self)@.total.volume() + expired + dropped,
            final(self)@.interval.volume() == old(self)@.interval.volume() + expired + dropped,
    {
        self.note(Event::Endpoints { expired, dropped });
    }

    /// How many addresses are remembered.
    pub fn endpoint_count(&mut self, now: u64) -> (count: usize)
        requires
            old(self)@.well_formed(),
            old(self)@.has_room(),
        ensures
            final(self)@ == old(self)@.expired(now),
            final(self)@.well_formed(),
            count == final(self)@.endpoints.len(),
    {
        proof {
            reveal(DiagnosticsModel::noted);
        }
        let expired: u64 = self.endpoints.expire(now);
        self.connection_maintenance(expired, 0);
        assert(self@ =~= old(self)@.expired(now));
        self.endpoints.entries.len()
    }

    /// Counts a connection that ended, and remembers it where it says something of the address.
    pub fn finish_connect(
        &mut self,
        observation: Observation,
        key: PeerKey,
        reason: Option<FailureReason>,
        millis: u64,
        now: u64,
    )
        requires
            old(self)@.well_formed(),
            old(self)@.below(u64::MAX - CAPACITY - 2),
        ensures
            final(self)@ == old(self)@.connect_finished(observation, key, reason, millis, now),
            final(self)@.well_formed(),
            final(self)@.total.volume() <= old(self)@.total.volume() + CAPACITY + 2,
            final(self)@.interval.volume() <= old(self)@.interval.volume() + CAPACITY + 2,
    {
        proof {
            reveal(DiagnosticsModel::noted);
        }
        match outcome_for(key.result, key.deadline, reason) {
            Some(outcome) => {
                let expired: u64 = self.endpoints.expire(now);
                let full = self.endpoints.remember(
                    EndpointEntry { endpoint: observation.address, outcome, ended: now },
                );
                let dropped: u64 = if full {
                    1
                } else {
                    0
                };
                self.connection_maintenance(expired, dropped);
                assert(self@ =~= old(self)@.connect_remembered(
                    observation.address,
                    outcome,
                    now,
                ));
            },
            None => {},
        }
        self.note(
            Event::Connection {
                key: ConnectionKey {
                    attempt_kind: observation.attempt_kind,
                    source: key.source,
                    ipv6: key.ipv6,
                    previous: observation.previous,
                    result: key.result,
                    reason,
                    deadline: key.deadline,
                },
                millis,
            },
        );
    }

    /// Counts a text on a broken frame, and says whether it is put out.
    pub fn sample_bencode(&mut self, now: u64) -> (admitted: bool)
        requires
            old(self)@.well_formed(),
            old(self)@.below(u64::MAX - 1),
        ensures
            admitted == old(self)@.window.admits(now),
            final(self)@ == old(self)@.sampled(now),
            final(self)@.well_formed(),
    {
        proof {
            reveal(DiagnosticsModel::noted);
        }
        let admitted = self.window.accept(now);
        self.note(Event::Sample { admitted });
        assert(self@ =~= old(self)@.sampled(now));
        admitted
    }

    /// Whether there is room for one more step.
    pub fn roomy(&self) -> (roomy: bool)
        ensures
            roomy == self@.has_room(),
    {
        let limit: u64 = u64::MAX - STEP;
        self.total.counted() <= limit && self.interval.counted() <= limit
    }

    /// Makes a report, and begins a new interval.
    pub fn log_snapshot(&mut self, now: u64) -> (report: Report)
        requires
            old(self)@.well_formed(),
            old(self)@.has_room(),
        ensures
            report.entries == old(self)@.expired(now).endpoints.len(),
            report.total@ == old(self)@.expired(now).total,
            report.total@.well_formed(),
            report.interval@ == old(self)@.expired(now).interval,
            report.interval@.well_formed(),
            final(self)@ == old(self)@.reported(now),
            final(self)@.well_formed(),
    {
        proof {
            reveal(DiagnosticsModel::noted);
        }
        let entries: usize = self.endpoint_count(now);
        let total = self.total.copy();
        let mut interval = Snapshot::new();
        std::mem::swap(&mut interval, &mut self.interval);
        assert(self@ =~= old(self)@.reported(now));
        Report { entries, total, interval }
    }
}

/// A failed stage and the reason.
pub open spec fn failure_key(key: PeerKey, reason: FailureReason) -> FailureKey {
    FailureKey { stage: key.stage, source: key.source, ipv6: key.ipv6, reason }
}

/// What happens to the diagnostics in the course of time.
pub enum Moment {
    /// Something is counted.
    Counted(Event),
    /// A report is made.
    Reported(u64),
}

/// Whether there is room for what happens.
pub open spec fn can_happen(diagnostics: DiagnosticsModel, moment: Moment) -> bool {
    match moment {
        Moment::Counted(event) => diagnostics.below(u64::MAX - weight(event)),
        Moment::Reported(_) => diagnostics.has_room(),
    }
}

/// The diagnostics after a moment.
pub open spec fn after(diagnostics: DiagnosticsModel, moment: Moment) -> DiagnosticsModel {
    match moment {
        Moment::Counted(event) => diagnostics.noted(event),
        Moment::Reported(now) => diagnostics.reported(now),
    }
}

/// What a moment reports as its interval.
pub open spec fn interval_of(diagnostics: DiagnosticsModel, moment: Moment) -> Measures {
    match moment {
        Moment::Counted(_) => Measures::zero(),
        Moment::Reported(now) => diagnostics.expired(now).interval.measures(),
    }
}

/// The diagnostics after some moments.
pub open spec fn after_all(diagnostics: DiagnosticsModel, moments: Seq<Moment>) -> DiagnosticsModel
    decreases moments.len(),
{
    if moments.len() == 0 {
        diagnostics
    } else {
        after(after_all(diagnostics, moments.drop_last()), moments.last())
    }
}

/// Whether there is room for all that happens.
pub open spec fn can_all_happen(diagnostics: DiagnosticsModel, moments: Seq<Moment>) -> bool
    decreases moments.len(),
{
    moments.len() == 0 || (can_all_happen(diagnostics, moments.drop_last()) && can_happen(
        after_all(diagnostics, moments.drop_last()),
        moments.last(),
    ))
}

/// What all reports gave as their intervals.
pub open spec fn all_intervals(diagnostics: DiagnosticsModel, moments: Seq<Moment>) -> Measures
    decreases moments.len(),
{
    if moments.len() == 0 {
        Measures::zero()
    } else {
        all_intervals(diagnostics, moments.drop_last()).plus(
            interval_of(after_all(diagnostics, moments.drop_last()), moments.last()),
        )
    }
}

/// Whether what the total grew by from one state to another is what was reported between them, and
/// what the interval grew by.
pub open spec fn reconciles(
    from: DiagnosticsModel,
    to: DiagnosticsModel,
    reported: Measures,
) -> bool {
    to.total.measures().plus(from.interval.measures()) == from.total.measures().plus(
        to.interval.measures(),
    ).plus(reported)
}

/// What is counted in both aggregates reconciles.
proof fn lemma_counted_reconciles(before: DiagnosticsModel, event: Event)
    requires
        before.well_formed(),
        before.below(u64::MAX - weight(event)),
    ensures
        before.noted(event).well_formed(),
        reconciles(before, before.noted(event), Measures::zero()),
{
    reveal(DiagnosticsModel::noted);
    lemma_volume_room(before.total, event);
    lemma_volume_room(before.interval, event);
    lemma_applied(before.total, event);
    lemma_applied(before.interval, event);
}

/// A report reconciles.
proof fn lemma_reported_reconciles(before: DiagnosticsModel, now: u64)
    requires
        before.well_formed(),
        before.has_room(),
    ensures
        before.reported(now).well_formed(),
        reconciles(before, before.reported(now), before.expired(now).interval.measures()),
{
    reveal(DiagnosticsModel::noted);
    lemma_kept(before.endpoints, now);
    let event = Event::Endpoints {
        expired: (before.endpoints.len() - kept(before.endpoints, now).len()) as u64,
        dropped: 0,
    };
    lemma_volume_room(before.total, event);
    lemma_volume_room(before.interval, event);
    lemma_applied(before.total, event);
    lemma_applied(before.interval, event);
    assert(SnapshotModel::empty().measures() == Measures::zero());
}

/// What reconciles in two steps reconciles in all.
proof fn lemma_reconciled_twice(
    from: DiagnosticsModel,
    between: DiagnosticsModel,
    to: DiagnosticsModel,
    first: Measures,
    second: Measures,
)
    requires
        reconciles(from, between, first),
        reconciles(between, to, second),
    ensures
        reconciles(from, to, first.plus(second)),
{
}

/// The intervals reconcile with the total: whatever is counted and whenever it is reported, what
/// the total grew by is what the reports gave as intervals, and what has been counted since.
pub proof fn lemma_intervals_reconcile(start: DiagnosticsModel, moments: Seq<Moment>)
    requires
        start.well_formed(),
        can_all_happen(start, moments),
    ensures
        after_all(start, moments).well_formed(),
        reconciles(start, after_all(start, moments), all_intervals(start, moments)),
    decreases moments.len(),
{
    if moments.len() > 0 {
        let rest = moments.drop_last();
        lemma_intervals_reconcile(start, rest);
        let before = after_all(start, rest);
        match moments.last() {
            Moment::Counted(event) => {
                lemma_counted_reconciles(before, event);
            },
            Moment::Reported(now) => {
                lemma_reported_reconciles(before, now);
            },
        }
        lemma_reconciled_twice(
            start,
            before,
            after(before, moments.last()),
            all_intervals(start, rest),
            interval_of(before, moments.last()),
        );
    }
}

/// In a minute from the first text on, eight texts are put out. The next text behind that minute
/// begins another.
pub proof fn lemma_window(window: SampleWindow, now: u64)
    requires
        window.emitted <= 8,
    ensures
        ({
            let over = match window.start {
                Some(start) => now - start >= 60 * 1_000_000_000,
                None => true,
            };
            let after = window.counted(now);
            &&& window.admits(now) <==> over || window.emitted < 8
            &&& over ==> after.start == Some(now) && after.emitted == 1
            &&& !over && window.emitted < 8 ==> after.start == window.start && after.emitted
                == window.emitted + 1
            &&& !over && window.emitted == 8 ==> after == window
        }),
{
}

/// What is counted is counted in the total and in the interval alike.
pub proof fn lemma_noted_twice(diagnostics: DiagnosticsModel, event: Event)
    ensures
        diagnostics.noted(event).total == diagnostics.total.applied(event),
        diagnostics.noted(event).interval == diagnostics.interval.applied(event),
        diagnostics.noted(event).endpoints == diagnostics.endpoints,
        diagnostics.noted(event).window == diagnostics.window,
        DiagnosticsModel::empty().total == SnapshotModel::empty(),
        DiagnosticsModel::empty().interval == SnapshotModel::empty(),
        DiagnosticsModel::empty().endpoints.len() == 0,
        DiagnosticsModel::empty().window == (SampleWindow { start: None, emitted: 0 }),
{
    reveal(DiagnosticsModel::noted);
}

/// Addresses that are too old are forgotten and counted, a new one is remembered where there is room
/// and else counted as dropped, and a report forgets the old ones and begins a new interval.
pub proof fn lemma_addresses_counted(
    diagnostics: DiagnosticsModel,
    address: Endpoint,
    outcome: PreviousConnect,
    now: u64,
)
    requires
        diagnostics.well_formed(),
    ensures
        ({
            let fresh = kept(diagnostics.endpoints, now);
            let gone = (diagnostics.endpoints.len() - fresh.len()) as u64;
            let full = fresh.len() == 4096 && !known(fresh, address);
            let expired = diagnostics.expired(now);
            let after = diagnostics.connect_remembered(address, outcome, now);
            &&& expired.endpoints == fresh
            &&& expired.window == diagnostics.window
            &&& expired.total == diagnostics.total.applied(
                Event::Endpoints { expired: gone, dropped: 0 },
            )
            &&& expired.interval == diagnostics.interval.applied(
                Event::Endpoints { expired: gone, dropped: 0 },
            )
            &&& after.endpoints == remembered(
                fresh,
                EndpointEntry { endpoint: address, outcome, ended: now },
            )
            &&& after.window == diagnostics.window
            &&& after.total == diagnostics.total.applied(
                Event::Endpoints { expired: gone, dropped: if full { 1 } else { 0 } },
            )
            &&& after.interval == diagnostics.interval.applied(
                Event::Endpoints { expired: gone, dropped: if full { 1 } else { 0 } },
            )
            &&& diagnostics.reported(now) == (DiagnosticsModel {
                interval: SnapshotModel::empty(),
                ..expired
            })
        }),
{
    reveal(DiagnosticsModel::noted);
    crate::diagnostics::endpoints::lemma_kept(diagnostics.endpoints, now);
}

/// A connection that ended is counted under what was known of its address when it began, how it ended
/// and why. What is remembered of the address is what this connection says of it, if anything.
pub proof fn lemma_connection_counted(
    diagnostics: DiagnosticsModel,
    observation: Observation,
    key: PeerKey,
    reason: Option<FailureReason>,
    millis: u64,
    now: u64,
)
    ensures
        ({
            let after = diagnostics.connect_finished(observation, key, reason, millis, now);
            let before = match connect_outcome(key.result, key.deadline, reason) {
                Some(outcome) => diagnostics.connect_remembered(observation.address, outcome, now),
                None => diagnostics,
            };
            let counted = Event::Connection {
                key: ConnectionKey {
                    attempt_kind: observation.attempt_kind,
                    source: key.source,
                    ipv6: key.ipv6,
                    previous: observation.previous,
                    result: key.result,
                    reason,
                    deadline: key.deadline,
                },
                millis,
            };
            &&& after.endpoints == before.endpoints
            &&& after.window == before.window
            &&& after.total == before.total.applied(counted)
            &&& after.interval == before.interval.applied(counted)
        }),
{
    reveal(DiagnosticsModel::noted);
}

/// A text counts as put out or as held back, as its window says.
pub proof fn lemma_sample_counted(diagnostics: DiagnosticsModel, now: u64)
    ensures
        ({
            let after = diagnostics.sampled(now);
            let event = Event::Sample { admitted: diagnostics.window.admits(now) };
            &&& after.window == diagnostics.window.counted(now)
            &&& after.endpoints == diagnostics.endpoints
            &&& after.total == diagnostics.total.applied(event)
            &&& after.interval == diagnostics.interval.applied(event)
        }),
{
    reveal(DiagnosticsModel::noted);
}

/// A failure is counted under its stage, its source and its family.
pub proof fn lemma_failure_key(key: PeerKey, reason: FailureReason)
    ensures
        failure_key(key, reason).stage == key.stage,
        failure_key(key, reason).source == key.source,
        failure_key(key, reason).ipv6 == key.ipv6,
        failure_key(key, reason).reason == reason,
{
}

/// The model of the diagnostics holds each of their parts.
pub proof fn lemma_diagnostics_view(diagnostics: Diagnostics)
    ensures
        diagnostics@.endpoints == diagnostics.endpoints.entries@,
        diagnostics@.window == diagnostics.window,
        diagnostics@.total == diagnostics.total@,
        diagnostics@.interval == diagnostics.interval@,
{
}

} // verus!
