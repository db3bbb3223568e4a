//! One aggregate of all diagnostics, and the events that it counts.

use crate::diagnostics::attempts::{AttemptModel, AttemptReport, AttemptStats};
use crate::diagnostics::histogram::{capped, Buckets, Histogram, HistogramModel};
use crate::diagnostics::keys::{
    AttemptContext, AttemptKey, ConnectionKey, FailureKey, HandshakeKey, PeerKey,
};
use crate::diagnostics::table::{
    lemma_counts_part, lemma_put_in_order, lemma_put_sum, lemma_recorded_row, lemma_sums_part, Table, TableModel,
};
use crate::jobs::model::AttemptKind;
use vstd::prelude::*;

verus! {

/// Extension handshakes with keys out of order: the frames, the sessions with such a frame, and
/// what came of them.
#[derive(Clone, Copy, Debug, PartialEq, Eq, Structural)]
pub struct CompatibilityCounts {
    pub attempted_frames: u64,
    pub accepted_frames: u64,
    pub rejected_frames: u64,
    pub sessions: u64,
    pub downloaded: u64,
    pub committed: u64,
}

/// Texts on broken frames: how many were put out, and how many held back.
#[derive(Clone, Copy, Debug, PartialEq, Eq, Structural)]
pub struct SampleCounts {
    pub emitted: u64,
    pub suppressed: u64,
}

/// Connections by what came before.
#[derive(Debug)]
pub struct ConnectionStats {
    pub timings: Table<ConnectionKey, Histogram>,
    pub expired: u64,
    pub capacity_dropped: u64,
}

/// How much of the connections the addresses that are remembered cover.
#[derive(Clone, Copy, Debug, PartialEq, Eq, Structural)]
pub struct ConnectionSummary {
    pub entries: usize,
    pub expired: u64,
    pub capacity_dropped: u64,
}

/// The aggregate.
#[derive(Debug)]
pub struct Snapshot {
    pub compatibility: CompatibilityCounts,
    pub connections: ConnectionStats,
    pub attempts: AttemptStats,
    pub samples: SampleCounts,
    pub peers: Table<PeerKey, Histogram>,
    pub handshakes: Table<HandshakeKey, Histogram>,
    pub failures: Table<FailureKey, u64>,
}

/// The model of the aggregate.
#[verifier::ext_equal]
pub struct SnapshotModel {
    pub compatibility: CompatibilityCounts,
    pub connections: TableModel<ConnectionKey, HistogramModel>,
    pub expired: u64,
    pub capacity_dropped: u64,
    pub attempts: AttemptModel,
    pub samples: SampleCounts,
    pub peers: TableModel<PeerKey, HistogramModel>,
    pub handshakes: TableModel<HandshakeKey, HistogramModel>,
    pub failures: TableModel<FailureKey, u64>,
}

impl View for Snapshot {
    type V = SnapshotModel;

    open spec fn view(&self) -> SnapshotModel {
        SnapshotModel {
            compatibility: self.compatibility,
            connections: self.connections.timings@,
            expired: self.connections.expired,
            capacity_dropped: self.connections.capacity_dropped,
            attempts: self.attempts@,
            samples: self.samples,
            peers: self.peers@,
            handshakes: self.handshakes@,
            failures: self.failures@,
        }
    }
}

/// What is counted.
#[allow(inconsistent_fields)]
#[derive(Clone, Copy, Debug, PartialEq, Eq, Structural)]
pub enum Event {
    /// A duration of an attempt.
    Attempt { key: AttemptKey, millis: u64 },
    /// A result that was stored.
    Commit { context: AttemptContext },
    /// A stage of an exchange that ended.
    Peer { key: PeerKey, millis: u64 },
    /// A full handshake that ended.
    Handshake { key: HandshakeKey, millis: u64 },
    /// A stage that failed.
    Failure { key: FailureKey },
    /// A connection that ended.
    Connection { key: ConnectionKey, millis: u64 },
    /// Addresses that were forgotten or had no room.
    Endpoints { expired: u64, dropped: u64 },
    /// A text on a broken frame.
    Sample { admitted: bool },
    /// A frame with keys out of order; `first` in its session.
    Frame { accepted: bool, first: bool },
    /// A download from a session with such frames.
    CompatibleDownload,
    /// A stored result of such a session.
    CompatibleCommit,
}

/// One for a yes.
pub open spec fn one(flag: bool) -> int {
    if flag {
        1
    } else {
        0
    }
}

/// How often each thing was counted.
#[verifier::ext_equal]
pub struct Measures {
    pub attempts: int,
    pub commits: int,
    pub peers: int,
    pub handshakes: int,
    pub failures: int,
    pub connections: int,
    pub expired: int,
    pub dropped: int,
    pub emitted: int,
    pub suppressed: int,
    pub attempted_frames: int,
    pub accepted_frames: int,
    pub rejected_frames: int,
    pub sessions: int,
    pub downloaded: int,
    pub committed: int,
}

impl Measures {
    /// Nothing counted.
    pub open spec fn zero() -> Measures {
        Measures {
            attempts: 0,
            commits: 0,
            peers: 0,
            handshakes: 0,
            failures: 0,
            connections: 0,
            expired: 0,
            dropped: 0,
            emitted: 0,
            suppressed: 0,
            attempted_frames: 0,
            accepted_frames: 0,
            rejected_frames: 0,
            sessions: 0,
            downloaded: 0,
            committed: 0,
        }
    }

    /// Both together.
    pub open spec fn plus(self, other: Measures) -> Measures {
        Measures {
            attempts: self.attempts + other.attempts,
            commits: self.commits + other.commits,
            peers: self.peers + other.peers,
            handshakes: self.handshakes + other.handshakes,
            failures: self.failures + other.failures,
            connections: self.connections + other.connections,
            expired: self.expired + other.expired,
            dropped: self.dropped + other.dropped,
            emitted: self.emitted + other.emitted,
            suppressed: self.suppressed + other.suppressed,
            attempted_frames: self.attempted_frames + other.attempted_frames,
            accepted_frames: self.accepted_frames + other.accepted_frames,
            rejected_frames: self.rejected_frames + other.rejected_frames,
            sessions: self.sessions + other.sessions,
            downloaded: self.downloaded + other.downloaded,
            committed: self.committed + other.committed,
        }
    }

    /// All numbers together.
    pub open spec fn volume(self) -> int {
        self.attempts + self.commits + self.peers + self.handshakes + self.failures
            + self.connections + self.expired + self.dropped + self.emitted + self.suppressed
            + self.attempted_frames + self.accepted_frames + self.rejected_frames + self.sessions
            + self.downloaded + self.committed
    }

    /// Whether no number exceeds `limit`.
    pub open spec fn within(self, limit: int) -> bool {
        &&& self.attempts <= limit
        &&& self.commits <= limit
        &&& self.peers <= limit
        &&& self.handshakes <= limit
        &&& self.failures <= limit
        &&& self.connections <= limit
        &&& self.expired <= limit
        &&& self.dropped <= limit
        &&& self.emitted <= limit
        &&& self.suppressed <= limit
        &&& self.attempted_frames <= limit
        &&& self.accepted_frames <= limit
        &&& self.rejected_frames <= limit
        &&& self.sessions <= limit
        &&& self.downloaded <= limit
        &&& self.committed <= limit
    }
}

/// What an event adds.
pub open spec fn share(event: Event) -> Measures {
    match event {
        Event::Attempt { .. } => Measures { attempts: 1, ..Measures::zero() },
        Event::Commit { .. } => Measures { commits: 1, ..Measures::zero() },
        Event::Peer { .. } => Measures { peers: 1, ..Measures::zero() },
        Event::Handshake { .. } => Measures { handshakes: 1, ..Measures::zero() },
        Event::Failure { .. } => Measures { failures: 1, ..Measures::zero() },
        Event::Connection { .. } => Measures { connections: 1, ..Measures::zero() },
        Event::Endpoints { expired, dropped } => Measures {
            expired: expired as int,
            dropped: dropped as int,
            ..Measures::zero()
        },
        Event::Sample { admitted } => Measures {
            emitted: one(admitted),
            suppressed: one(!admitted),
            ..Measures::zero()
        },
        Event::Frame { accepted, first } => Measures {
            attempted_frames: 1,
            accepted_frames: one(accepted),
            rejected_frames: one(!accepted),
            sessions: one(first),
            ..Measures::zero()
        },
        Event::CompatibleDownload => Measures { downloaded: 1, ..Measures::zero() },
        Event::CompatibleCommit => Measures { committed: 1, ..Measures::zero() },
    }
}

/// How much an event adds in all.
pub open spec fn weight(event: Event) -> int {
    match event {
        Event::Endpoints { expired, dropped } => expired + dropped,
        Event::Frame { first, .. } => 2 + one(first),
        _ => 1,
    }
}

impl SnapshotModel {
    /// Nothing counted.
    pub open spec fn empty() -> SnapshotModel {
        SnapshotModel {
            compatibility: CompatibilityCounts {
                attempted_frames: 0,
                accepted_frames: 0,
                rejected_frames: 0,
                sessions: 0,
                downloaded: 0,
                committed: 0,
            },
            connections: TableModel::empty(),
            expired: 0,
            capacity_dropped: 0,
            attempts: AttemptModel::empty(),
            samples: SampleCounts { emitted: 0, suppressed: 0 },
            peers: TableModel::empty(),
            handshakes: TableModel::empty(),
            failures: TableModel::empty(),
        }
    }

    /// Whether all tables are in order.
    pub open spec fn well_formed(self) -> bool {
        &&& self.connections.well_formed()
        &&& self.attempts.well_formed()
        &&& self.peers.well_formed()
        &&& self.handshakes.holds(Buckets::Network)
        &&& self.failures.in_order()
    }

    /// How often each thing was counted.
    pub open spec fn measures(self) -> Measures {
        Measures {
            attempts: self.attempts.timings.total(),
            commits: self.attempts.committed.sum(),
            peers: self.peers.total(),
            handshakes: self.handshakes.total(),
            failures: self.failures.sum(),
            connections: self.connections.total(),
            expired: self.expired as int,
            dropped: self.capacity_dropped as int,
            emitted: self.samples.emitted as int,
            suppressed: self.samples.suppressed as int,
            attempted_frames: self.compatibility.attempted_frames as int,
            accepted_frames: self.compatibility.accepted_frames as int,
            rejected_frames: self.compatibility.rejected_frames as int,
            sessions: self.compatibility.sessions as int,
            downloaded: self.compatibility.downloaded as int,
            committed: self.compatibility.committed as int,
        }
    }

    /// How often anything was counted.
    #[verifier::opaque]
    pub open spec fn volume(self) -> int {
        self.measures().volume()
    }

    /// Whether one more event can be counted.
    pub open spec fn has_room(self, event: Event) -> bool {
        self.measures().plus(share(event)).within(u64::MAX as int)
    }

    /// The aggregate with one more event.
    #[verifier::opaque]
    pub open spec fn applied(self, event: Event) -> SnapshotModel {
        match event {
            Event::Attempt { key, millis } => SnapshotModel {
                attempts: self.attempts.recorded(key, millis),
                ..self
            },
            Event::Commit { context } => SnapshotModel {
                attempts: self.attempts.confirmed(context),
                ..self
            },
            Event::Peer { key, millis } => SnapshotModel {
                peers: self.peers.recorded(key, millis),
                ..self
            },
            Event::Handshake { key, millis } => SnapshotModel {
                handshakes: self.handshakes.recorded_in(Buckets::Network, key, millis),
                ..self
            },
            Event::Failure { key } => SnapshotModel { failures: self.failures.added(key, 1), ..self },
            Event::Connection { key, millis } => SnapshotModel {
                connections: self.connections.recorded(key, millis),
                ..self
            },
            Event::Endpoints { expired, dropped } => SnapshotModel {
                expired: (self.expired + expired) as u64,
                capacity_dropped: (self.capacity_dropped + dropped) as u64,
                ..self
            },
            Event::Sample { admitted } => SnapshotModel {
                samples: SampleCounts {
                    emitted: (self.samples.emitted + one(admitted)) as u64,
                    suppressed: (self.samples.suppressed + one(!admitted)) as u64,
                },
                ..self
            },
            Event::Frame { accepted, first } => SnapshotModel {
                compatibility: CompatibilityCounts {
                    attempted_frames: (self.compatibility.attempted_frames + 1) as u64,
                    accepted_frames: (self.compatibility.accepted_frames + one(accepted)) as u64,
                    rejected_frames: (self.compatibility.rejected_frames + one(!accepted)) as u64,
                    sessions: (self.compatibility.sessions + one(first)) as u64,
                    ..self.compatibility
                },
                ..self
            },
            Event::CompatibleDownload => SnapshotModel {
                compatibility: CompatibilityCounts {
                    downloaded: (self.compatibility.downloaded + 1) as u64,
                    ..self.compatibility
                },
                ..self
            },
            Event::CompatibleCommit => SnapshotModel {
                compatibility: CompatibilityCounts {
                    committed: (self.compatibility.committed + 1) as u64,
                    ..self.compatibility
                },
                ..self
            },
        }
    }
}

/// There is room for an event where everything together leaves it.
pub proof fn lemma_volume_room(snapshot: SnapshotModel, event: Event)
    requires
        snapshot.volume() + weight(event) <= u64::MAX,
    ensures
        snapshot.has_room(event),
        snapshot.measures().plus(share(event)).volume() == snapshot.volume() + weight(event),
{
    reveal(SnapshotModel::volume);
    lemma_counts_part(snapshot.attempts.timings.values, 0);
    lemma_sums_part(snapshot.attempts.committed.values, 0);
    lemma_counts_part(snapshot.peers.values, 0);
    lemma_counts_part(snapshot.handshakes.values, 0);
    lemma_sums_part(snapshot.failures.values, 0);
    lemma_counts_part(snapshot.connections.values, 0);
}

/// An event adds its share, the same to every aggregate.
pub proof fn lemma_applied(snapshot: SnapshotModel, event: Event)
    requires
        snapshot.well_formed(),
        snapshot.has_room(event),
    ensures
        snapshot.applied(event).well_formed(),
        snapshot.applied(event).measures() == snapshot.measures().plus(share(event)),
{
    reveal(SnapshotModel::applied);
    match event {
        Event::Attempt { key, millis } => {
            lemma_recorded_row(snapshot.attempts.timings, Buckets::Diagnostic, key, millis);
        },
        Event::Commit { context } => {
            let committed = snapshot.attempts.committed;
            lemma_put_sum(committed, context, (committed.count(context) + 1) as u64);
            lemma_put_in_order(committed, context, (committed.count(context) + 1) as u64);
        },
        Event::Peer { key, millis } => {
            lemma_recorded_row(snapshot.peers, Buckets::Diagnostic, key, millis);
        },
        Event::Handshake { key, millis } => {
            lemma_recorded_row(snapshot.handshakes, Buckets::Network, key, millis);
        },
        Event::Failure { key } => {
            let failures = snapshot.failures;
            lemma_put_sum(failures, key, (failures.count(key) + 1) as u64);
            lemma_put_in_order(failures, key, (failures.count(key) + 1) as u64);
        },
        Event::Connection { key, millis } => {
            lemma_recorded_row(snapshot.connections, Buckets::Diagnostic, key, millis);
        },
        _ => {},
    }
}

impl Snapshot {
    /// Nothing counted.
    pub fn new() -> (snapshot: Snapshot)
        ensures
            snapshot@ == SnapshotModel::empty(),
            snapshot@.well_formed(),
            snapshot@.measures() == Measures::zero(),
    {
        Snapshot {
            compatibility: CompatibilityCounts {
                attempted_frames: 0,
                accepted_frames: 0,
                rejected_frames: 0,
                sessions: 0,
                downloaded: 0,
                committed: 0,
            },
            connections: ConnectionStats {
                timings: Table::new(),
                expired: 0,
                capacity_dropped: 0,
            },
            attempts: AttemptStats::new(),
            samples: SampleCounts { emitted: 0, suppressed: 0 },
            peers: Table::new(),
            handshakes: Table::new(),
            failures: Table::new(),
        }
    }

    /// A copy of the aggregate.
    pub fn copy(&self) -> (copy: Snapshot)
        requires
            self@.well_formed(),
        ensures
            copy@ == self@,
    {
        Snapshot {
            compatibility: self.compatibility,
            connections: ConnectionStats {
                timings: self.connections.timings.copy(),
                expired: self.connections.expired,
                capacity_dropped: self.connections.capacity_dropped,
            },
            attempts: self.attempts.copy(),
            samples: self.samples,
            peers: self.peers.copy(),
            handshakes: self.handshakes.copy(),
            failures: self.failures.copy(),
        }
    }

    /// What is reported of the attempts.
    pub fn log_attempts(&self) -> (report: AttemptReport)
        requires
            self@.well_formed(),
        ensures
            report.views@ == self@.attempts.views(),
            report.views@.timings.well_formed(),
            report.views@.class_timings.well_formed(),
            report.first == self@.attempts.views().kind_summary(AttemptKind::First),
            report.repeat == self@.attempts.views().kind_summary(AttemptKind::Repeat),
    {
        self.attempts.log_attempts()
    }

    /// What is reported of frames out of order.
    pub fn log_compatibility(&self) -> (counts: CompatibilityCounts)
        ensures
            counts == self@.compatibility,
    {
        self.compatibility
    }

    /// What is reported of the addresses, of which `entries` are remembered.
    pub fn log_connections(&self, entries: usize) -> (summary: ConnectionSummary)
        ensures
            summary == (ConnectionSummary {
                entries,
                expired: self@.expired,
                capacity_dropped: self@.capacity_dropped,
            }),
    {
        ConnectionSummary {
            entries,
            expired: self.connections.expired,
            capacity_dropped: self.connections.capacity_dropped,
        }
    }

    /// How often anything was counted, as far as the number can be held.
    pub fn counted(&self) -> (count: u64)
        ensures
            count == capped(self@.volume()),
            0 <= self@.volume(),
    {
        proof {
            reveal(SnapshotModel::volume);
            lemma_counts_part(self@.attempts.timings.values, 0);
            lemma_sums_part(self@.attempts.committed.values, 0);
            lemma_counts_part(self@.peers.values, 0);
            lemma_counts_part(self@.handshakes.values, 0);
            lemma_sums_part(self@.failures.values, 0);
            lemma_counts_part(self@.connections.values, 0);
        }
        let tables: u128 = self.attempts.timings.count_all() as u128
            + self.attempts.committed.sum_all() as u128 + self.peers.count_all() as u128
            + self.handshakes.count_all() as u128 + self.failures.sum_all() as u128
            + self.connections.timings.count_all() as u128;
        let numbers: u128 = self.connections.expired as u128
            + self.connections.capacity_dropped as u128 + self.samples.emitted as u128
            + self.samples.suppressed as u128 + self.compatibility.attempted_frames as u128
            + self.compatibility.accepted_frames as u128
            + self.compatibility.rejected_frames as u128 + self.compatibility.sessions as u128
            + self.compatibility.downloaded as u128 + self.compatibility.committed as u128;
        if tables + numbers > u64::MAX as u128 {
            u64::MAX
        } else {
            (tables + numbers) as u64
        }
    }

    /// Counts an event.
    pub fn apply(&mut self, event: Event)
        requires
            old(self)@.well_formed(),
            old(self)@.has_room(event),
        ensures
            final(self)@ == old(self)@.applied(event),
            final(self)@.well_formed(),
            final(self)@.measures() == old(self)@.measures().plus(share(event)),
    {
        proof {
            reveal(SnapshotModel::applied);
        }
        match event {
            Event::Attempt { key, millis } => self.attempts.record(key, millis),
            Event::Commit { context } => self.attempts.confirm(context),
            Event::Peer { key, millis } => self.peers.record(key, millis),
            Event::Handshake { key, millis } => {
                self.handshakes.record_in(Buckets::Network, key, millis)
            },
            Event::Failure { key } => self.failures.add_count(key, 1),
            Event::Connection { key, millis } => self.connections.timings.record(key, millis),
            Event::Endpoints { expired, dropped } => {
                self.connections.expired = self.connections.expired + expired;
                self.connections.capacity_dropped = self.connections.capacity_dropped + dropped;
            },
            Event::Sample { admitted } => {
                if admitted {
                    self.samples.emitted = self.samples.emitted + 1;
                } else {
                    self.samples.suppressed = self.samples.suppressed + 1;
                }
            },
            Event::Frame { accepted, first } => {
                self.compatibility.attempted_frames = self.compatibility.attempted_frames + 1;
                if accepted {
                    self.compatibility.accepted_frames = self.compatibility.accepted_frames + 1;
                } else {
                    self.compatibility.rejected_frames = self.compatibility.rejected_frames + 1;
                }
                if first {
                    self.compatibility.sessions = self.compatibility.sessions + 1;
                }
            },
            Event::CompatibleDownload => {
                self.compatibility.downloaded = self.compatibility.downloaded + 1;
            },
            Event::CompatibleCommit => {
                self.compatibility.committed = self.compatibility.committed + 1;
            },
        }
        assert(self@ =~= old(self)@.applied(event));
    }
}

/// What an event is a share of: itself, once, and of a sample or a frame also how it went.
pub proof fn lemma_share(
    key: AttemptKey,
    context: AttemptContext,
    peer: PeerKey,
    handshake: HandshakeKey,
    failure: FailureKey,
    connection: ConnectionKey,
    millis: u64,
    flag: bool,
    first: bool,
    expired: u64,
    dropped: u64,
)
    ensures
        ({
            let nothing = Measures::zero();
            &&& share(Event::Attempt { key, millis }) == (Measures { attempts: 1, ..nothing })
            &&& share(Event::Commit { context }) == (Measures { commits: 1, ..nothing })
            &&& share(Event::Peer { key: peer, millis }) == (Measures { peers: 1, ..nothing })
            &&& share(Event::Handshake { key: handshake, millis }) == (Measures {
                handshakes: 1,
                ..nothing
            })
            &&& share(Event::Failure { key: failure }) == (Measures { failures: 1, ..nothing })
            &&& share(Event::Connection { key: connection, millis }) == (Measures {
                connections: 1,
                ..nothing
            })
            &&& share(Event::Endpoints { expired, dropped }) == (Measures {
                expired: expired as int,
                dropped: dropped as int,
                ..nothing
            })
            &&& share(Event::Sample { admitted: flag }) == (Measures {
                emitted: if flag { 1 } else { 0 },
                suppressed: if flag { 0 } else { 1 },
                ..nothing
            })
            &&& share(Event::Frame { accepted: flag, first }) == (Measures {
                attempted_frames: 1,
                accepted_frames: if flag { 1 } else { 0 },
                rejected_frames: if flag { 0 } else { 1 },
                sessions: if first { 1 } else { 0 },
                ..nothing
            })
            &&& share(Event::CompatibleDownload) == (Measures { downloaded: 1, ..nothing })
            &&& share(Event::CompatibleCommit) == (Measures { committed: 1, ..nothing })
        }),
{
}

/// Nothing measured is nothing in every measure, and measures are added one by one.
pub proof fn lemma_measures(a: Measures, b: Measures)
    ensures
        Measures::zero().volume() == 0,
        Measures::zero().within(0),
        a.plus(Measures::zero()) == a,
        a.plus(b) == b.plus(a),
        a.plus(b).volume() == a.volume() + b.volume(),
        a.plus(b).attempts == a.attempts + b.attempts,
        a.plus(b).commits == a.commits + b.commits,
        a.plus(b).peers == a.peers + b.peers,
        a.plus(b).handshakes == a.handshakes + b.handshakes,
        a.plus(b).failures == a.failures + b.failures,
        a.plus(b).connections == a.connections + b.connections,
        a.plus(b).expired == a.expired + b.expired,
        a.plus(b).dropped == a.dropped + b.dropped,
        a.plus(b).emitted == a.emitted + b.emitted,
        a.plus(b).suppressed == a.suppressed + b.suppressed,
        a.plus(b).attempted_frames == a.attempted_frames + b.attempted_frames,
        a.plus(b).accepted_frames == a.accepted_frames + b.accepted_frames,
        a.plus(b).rejected_frames == a.rejected_frames + b.rejected_frames,
        a.plus(b).sessions == a.sessions + b.sessions,
        a.plus(b).downloaded == a.downloaded + b.downloaded,
        a.plus(b).committed == a.committed + b.committed,
{
}

/// What an aggregate measures is the sum of each of its tables, and each of its counts.
pub proof fn lemma_snapshot_measures(snapshot: SnapshotModel)
    ensures
        ({
            let measures = snapshot.measures();
            &&& measures.attempts == snapshot.attempts.timings.total()
            &&& measures.commits == snapshot.attempts.committed.sum()
            &&& measures.peers == snapshot.peers.total()
            &&& measures.handshakes == snapshot.handshakes.total()
            &&& measures.failures == snapshot.failures.sum()
            &&& measures.connections == snapshot.connections.total()
            &&& measures.expired == snapshot.expired
            &&& measures.dropped == snapshot.capacity_dropped
            &&& measures.emitted == snapshot.samples.emitted
            &&& measures.suppressed == snapshot.samples.suppressed
            &&& measures.attempted_frames == snapshot.compatibility.attempted_frames
            &&& measures.accepted_frames == snapshot.compatibility.accepted_frames
            &&& measures.rejected_frames == snapshot.compatibility.rejected_frames
            &&& measures.sessions == snapshot.compatibility.sessions
            &&& measures.downloaded == snapshot.compatibility.downloaded
            &&& measures.committed == snapshot.compatibility.committed
        }),
        SnapshotModel::empty().measures() == Measures::zero(),
{
}

/// A timed event is recorded under its key in the table of its own, by the buckets that the table
/// has, and touches no other table.
pub proof fn lemma_event_recorded(
    snapshot: SnapshotModel,
    key: AttemptKey,
    context: AttemptContext,
    peer: PeerKey,
    handshake: HandshakeKey,
    failure: FailureKey,
    connection: ConnectionKey,
    millis: u64,
)
    requires
        snapshot.well_formed(),
    ensures
        ({
            let after = snapshot.applied(Event::Attempt { key, millis });
            &&& after == (SnapshotModel { attempts: after.attempts, ..snapshot })
            &&& after.attempts.committed == snapshot.attempts.committed
            &&& after.attempts.timings == snapshot.attempts.timings.recorded_in(
                Buckets::Diagnostic,
                key,
                millis,
            )
        }),
        ({
            let after = snapshot.applied(Event::Commit { context });
            &&& after == (SnapshotModel { attempts: after.attempts, ..snapshot })
            &&& after.attempts.timings == snapshot.attempts.timings
            &&& after.attempts.committed == snapshot.attempts.committed.added(context, 1)
        }),
        snapshot.applied(Event::Peer { key: peer, millis }) == (SnapshotModel {
            peers: snapshot.peers.recorded_in(Buckets::Diagnostic, peer, millis),
            ..snapshot
        }),
        snapshot.applied(Event::Handshake { key: handshake, millis }) == (SnapshotModel {
            handshakes: snapshot.handshakes.recorded_in(Buckets::Network, handshake, millis),
            ..snapshot
        }),
        snapshot.applied(Event::Failure { key: failure }) == (SnapshotModel {
            failures: snapshot.failures.added(failure, 1),
            ..snapshot
        }),
        snapshot.applied(Event::Connection { key: connection, millis }) == (SnapshotModel {
            connections: snapshot.connections.recorded_in(Buckets::Diagnostic, connection, millis),
            ..snapshot
        }),
{
    reveal(SnapshotModel::applied);
}

/// The model of an aggregate holds each of its parts.
pub proof fn lemma_snapshot_view(snapshot: Snapshot)
    ensures
        snapshot@.compatibility == snapshot.compatibility,
        snapshot@.connections == snapshot.connections.timings@,
        snapshot@.expired == snapshot.connections.expired,
        snapshot@.capacity_dropped == snapshot.connections.capacity_dropped,
        snapshot@.attempts == snapshot.attempts@,
        snapshot@.samples == snapshot.samples,
        snapshot@.peers == snapshot.peers@,
        snapshot@.handshakes == snapshot.handshakes@,
        snapshot@.failures == snapshot.failures@,
{
}

} // verus!
