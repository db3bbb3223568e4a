//! Counters and durations of the collector.

use crate::diagnostics::aggregate::{Diagnostics, DiagnosticsModel, Report};
use crate::diagnostics::histogram::{capped, Buckets, Figures, Histogram, HistogramModel};
use vstd::prelude::*;

verus! {

/// What the collector counts.
#[derive(Clone, Copy, Debug, PartialEq, Eq, Structural)]
pub enum Counter {
    /// Claimed jobs with a valid address.
    ClaimsWithHint,
    /// Claimed jobs without a valid address.
    ClaimsWithoutHint,
    /// Lookups that began; both families count once.
    Lookups,
    /// Queries that a lookup sent, counted when it ends.
    RpcSent,
    /// Lookups that found a peer.
    LookupWithPeers,
    /// Peers that were tried.
    PeerAttempts,
    /// Results that were stored.
    MetadataCommitted,
    /// Bytes of the results that were stored.
    MetadataBytes,
    /// Rounds that were put off after a failure.
    RemoteFailures,
    /// Rounds that were put off for a reason of this machine.
    LocalDeferrals,
    /// Lookups that ended.
    LookupsFinished,
    /// Lookups that found their first peer.
    LookupFirstPeer,
    /// Lookups that were ended because the result was there.
    LookupCancelledSuccess,
    /// Peers that failed.
    PeerFailures,
    /// Ends of a pause of sampling.
    SamplingResumes,
    /// Announcements that were accepted.
    AnnouncesAccepted,
}

impl Counter {
    /// The place of the counter.
    pub open spec fn index(self) -> int {
        match self {
            Counter::ClaimsWithHint => 0,
            Counter::ClaimsWithoutHint => 1,
            Counter::Lookups => 2,
            Counter::RpcSent => 3,
            Counter::LookupWithPeers => 4,
            Counter::PeerAttempts => 5,
            Counter::MetadataCommitted => 6,
            Counter::MetadataBytes => 7,
            Counter::RemoteFailures => 8,
            Counter::LocalDeferrals => 9,
            Counter::LookupsFinished => 10,
            Counter::LookupFirstPeer => 11,
            Counter::LookupCancelledSuccess => 12,
            Counter::PeerFailures => 13,
            Counter::SamplingResumes => 14,
            Counter::AnnouncesAccepted => 15,
        }
    }

    /// The label of a counter.
    pub open spec fn text(self) -> Seq<char> {
        match self {
            Counter::ClaimsWithHint => "claims_with_hint"@,
            Counter::ClaimsWithoutHint => "claims_without_hint"@,
            Counter::Lookups => "lookups"@,
            Counter::RpcSent => "rpc_sent"@,
            Counter::LookupWithPeers => "lookup_with_peers"@,
            Counter::PeerAttempts => "peer_attempts"@,
            Counter::MetadataCommitted => "metadata_committed"@,
            Counter::MetadataBytes => "metadata_bytes"@,
            Counter::RemoteFailures => "remote_failures"@,
            Counter::LocalDeferrals => "local_deferrals"@,
            Counter::LookupsFinished => "lookups_finished"@,
            Counter::LookupFirstPeer => "lookup_first_peer"@,
            Counter::LookupCancelledSuccess => "lookup_cancelled_success"@,
            Counter::PeerFailures => "peer_failures"@,
            Counter::SamplingResumes => "sampling_resumes"@,
            Counter::AnnouncesAccepted => "announces_accepted"@,
        }
    }

    /// The place of the counter.
    pub fn place(self) -> (place: usize)
        ensures
            place == self.index(),
            place < 16,
    {
        match self {
            Counter::ClaimsWithHint => 0,
            Counter::ClaimsWithoutHint => 1,
            Counter::Lookups => 2,
            Counter::RpcSent => 3,
            Counter::LookupWithPeers => 4,
            Counter::PeerAttempts => 5,
            Counter::MetadataCommitted => 6,
            Counter::MetadataBytes => 7,
            Counter::RemoteFailures => 8,
            Counter::LocalDeferrals => 9,
            Counter::LookupsFinished => 10,
            Counter::LookupFirstPeer => 11,
            Counter::LookupCancelledSuccess => 12,
            Counter::PeerFailures => 13,
            Counter::SamplingResumes => 14,
            Counter::AnnouncesAccepted => 15,
        }
    }

    /// The counter of a place.
    pub fn at(place: usize) -> (counter: Option<Counter>)
        ensures
            place < 16 ==> counter is Some && counter->0.index() == place,
            place >= 16 ==> counter is None,
    {
        match place {
            0 => Some(Counter::ClaimsWithHint),
            1 => Some(Counter::ClaimsWithoutHint),
            2 => Some(Counter::Lookups),
            3 => Some(Counter::RpcSent),
            4 => Some(Counter::LookupWithPeers),
            5 => Some(Counter::PeerAttempts),
            6 => Some(Counter::MetadataCommitted),
            7 => Some(Counter::MetadataBytes),
            8 => Some(Counter::RemoteFailures),
            9 => Some(Counter::LocalDeferrals),
            10 => Some(Counter::LookupsFinished),
            11 => Some(Counter::LookupFirstPeer),
            12 => Some(Counter::LookupCancelledSuccess),
            13 => Some(Counter::PeerFailures),
            14 => Some(Counter::SamplingResumes),
            15 => Some(Counter::AnnouncesAccepted),
            _ => None,
        }
    }

    /// The label of the counter.
    pub fn label(self) -> (label: &'static str)
        ensures
            label@ == self.text(),
    {
        match self {
            Counter::ClaimsWithHint => "claims_with_hint",
            Counter::ClaimsWithoutHint => "claims_without_hint",
            Counter::Lookups => "lookups",
            Counter::RpcSent => "rpc_sent",
            Counter::LookupWithPeers => "lookup_with_peers",
            Counter::PeerAttempts => "peer_attempts",
            Counter::MetadataCommitted => "metadata_committed",
            Counter::MetadataBytes => "metadata_bytes",
            Counter::RemoteFailures => "remote_failures",
            Counter::LocalDeferrals => "local_deferrals",
            Counter::LookupsFinished => "lookups_finished",
            Counter::LookupFirstPeer => "lookup_first_peer",
            Counter::LookupCancelledSuccess => "lookup_cancelled_success",
            Counter::PeerFailures => "peer_failures",
            Counter::SamplingResumes => "sampling_resumes",
            Counter::AnnouncesAccepted => "announces_accepted",
        }
    }
}

/// What the collector times.
#[derive(Clone, Copy, Debug, PartialEq, Eq, Structural)]
pub enum Timing {
    /// A lookup, from its start to its end.
    Lookup,
    /// The wait for a connection to the same address, without the connection itself.
    TcpWait,
    /// From the start of a lookup to its first peer.
    FirstPeer,
}

/// The counters and the durations.
#[derive(Debug)]
pub struct MetricsSnapshot {
    pub counts: [u64; 16],
    pub lookup: Histogram,
    pub tcp_wait: Histogram,
    pub first_peer: Histogram,
}

/// The model of the counters and the durations.
#[verifier::ext_equal]
pub struct MetricsModel {
    pub counts: Seq<u64>,
    pub lookup: HistogramModel,
    pub tcp_wait: HistogramModel,
    pub first_peer: HistogramModel,
}

impl View for MetricsSnapshot {
    type V = MetricsModel;

    open spec fn view(&self) -> MetricsModel {
        MetricsModel {
            counts: self.counts@,
            lookup: self.lookup@,
            tcp_wait: self.tcp_wait@,
            first_peer: self.first_peer@,
        }
    }
}

impl MetricsModel {
    /// Nothing counted.
    pub open spec fn empty() -> MetricsModel {
        MetricsModel {
            counts: Seq::new(16, |i: int| 0u64),
            lookup: HistogramModel::empty(Buckets::Collector),
            tcp_wait: HistogramModel::empty(Buckets::Collector),
            first_peer: HistogramModel::empty(Buckets::Collector),
        }
    }

    /// Whether the histograms are in order.
    pub open spec fn well_formed(self) -> bool {
        &&& self.counts.len() == 16
        &&& self.lookup.well_formed()
        &&& self.tcp_wait.well_formed()
        &&& self.first_peer.well_formed()
    }

    /// The histogram of a timing.
    pub open spec fn timing(self, timing: Timing) -> HistogramModel {
        match timing {
            Timing::Lookup => self.lookup,
            Timing::TcpWait => self.tcp_wait,
            Timing::FirstPeer => self.first_peer,
        }
    }

    /// A counter went up, as far as it can be held.
    pub open spec fn added(self, counter: Counter, value: u64) -> MetricsModel {
        MetricsModel {
            counts: self.counts.update(
                counter.index(),
                capped(self.counts[counter.index()] + value),
            ),
            ..self
        }
    }

    /// A duration was counted.
    pub open spec fn observed(self, timing: Timing, millis: u64) -> MetricsModel {
        match timing {
            Timing::Lookup => MetricsModel { lookup: self.lookup.recorded(millis), ..self },
            Timing::TcpWait => MetricsModel { tcp_wait: self.tcp_wait.recorded(millis), ..self },
            Timing::FirstPeer => MetricsModel {
                first_peer: self.first_peer.recorded(millis),
                ..self
            },
        }
    }
}

impl MetricsSnapshot {
    /// Nothing counted.
    pub fn new() -> (snapshot: MetricsSnapshot)
        ensures
            snapshot@ == MetricsModel::empty(),
            snapshot@.well_formed(),
    {
        let snapshot = MetricsSnapshot {
            counts: [0u64; 16],
            lookup: Histogram::new(Buckets::Collector),
            tcp_wait: Histogram::new(Buckets::Collector),
            first_peer: Histogram::new(Buckets::Collector),
        };
        assert(snapshot@ =~= MetricsModel::empty());
        snapshot
    }

    /// A copy.
    pub fn copy(&self) -> (copy: MetricsSnapshot)
        ensures
            copy@ == self@,
    {
        MetricsSnapshot {
            counts: self.counts,
            lookup: self.lookup.copy(),
            tcp_wait: self.tcp_wait.copy(),
            first_peer: self.first_peer.copy(),
        }
    }

    /// Adds to a counter.
    pub fn add(&mut self, counter: Counter, value: u64)
        requires
            old(self)@.well_formed(),
        ensures
            final(self)@ == old(self)@.added(counter, value),
            final(self)@.well_formed(),
    {
        let place: usize = counter.place();
        let count: u64 = self.counts[place].saturating_add(value);
        self.counts[place] = count;
        assert(self@ =~= old(self)@.added(counter, value));
    }

    /// Counts a duration.
    pub fn observe(&mut self, timing: Timing, millis: u64)
        requires
            old(self)@.well_formed(),
            old(self)@.timing(timing).count < u64::MAX,
        ensures
            final(self)@ == old(self)@.observed(timing, millis),
            final(self)@.well_formed(),
    {
        match timing {
            Timing::Lookup => self.lookup.record(millis),
            Timing::TcpWait => self.tcp_wait.record(millis),
            Timing::FirstPeer => self.first_peer.record(millis),
        }
    }
}

/// The metrics: since the start, and since the last report.
#[derive(Debug)]
pub struct Metrics {
    pub diagnostics: Diagnostics,
    pub total: MetricsSnapshot,
    pub interval: MetricsSnapshot,
}

/// What is shown of the metrics at any time.
#[derive(Clone, Copy, Debug, PartialEq, Eq)]
pub struct MetricsFigures {
    pub counts: [u64; 16],
    pub lookup: Figures,
    pub tcp_wait: Figures,
    pub first_peer: Figures,
}

/// What is reported of the metrics.
#[derive(Debug)]
pub struct MetricsReport {
    /// Whether it is the last one.
    pub final_snapshot: bool,
    pub diagnostics: Report,
    pub total: MetricsSnapshot,
    pub interval: MetricsSnapshot,
}

impl Metrics {
    /// Nothing counted.
    pub fn new() -> (metrics: Metrics)
        ensures
            metrics.diagnostics@ == DiagnosticsModel::empty(),
            metrics.diagnostics@.well_formed(),
            metrics.diagnostics@.has_room(),
            metrics.total@ == MetricsModel::empty(),
            metrics.interval@ == MetricsModel::empty(),
            metrics.total@.well_formed(),
            metrics.interval@.well_formed(),
    {
        Metrics {
            diagnostics: Diagnostics::new(),
            total: MetricsSnapshot::new(),
            interval: MetricsSnapshot::new(),
        }
    }

    /// Adds to a counter.
    pub fn add(&mut self, counter: Counter, value: u64)
        requires
            old(self).total@.well_formed(),
            old(self).interval@.well_formed(),
        ensures
            final(self).total@ == old(self).total@.added(counter, value),
            final(self).interval@ == old(self).interval@.added(counter, value),
            final(self).total@.well_formed(),
            final(self).interval@.well_formed(),
            final(self).diagnostics == old(self).diagnostics,
    {
        self.total.add(counter, value);
        self.interval.add(counter, value);
    }

    /// Counts a duration.
    pub fn observe(&mut self, timing: Timing, millis: u64)
        requires
            old(self).total@.well_formed(),
            old(self).interval@.well_formed(),
            old(self).total@.timing(timing).count < u64::MAX,
            old(self).interval@.timing(timing).count < u64::MAX,
        ensures
            final(self).total@ == old(self).total@.observed(timing, millis),
            final(self).interval@ == old(self).interval@.observed(timing, millis),
            final(self).total@.well_formed(),
            final(self).interval@.well_formed(),
            final(self).diagnostics == old(self).diagnostics,
    {
        self.total.observe(timing, millis);
        self.interval.observe(timing, millis);
    }

    /// The results, the claims and the tried peers since the last report. The interval goes on.
    pub fn interval_counts(&self) -> (counts: [u64; 3])
        requires
            self.interval@.counts[Counter::ClaimsWithHint.index()]
                + self.interval@.counts[Counter::ClaimsWithoutHint.index()] <= u64::MAX,
        ensures
            counts@ == seq![
                self.interval@.counts[Counter::MetadataCommitted.index()],
                (self.interval@.counts[Counter::ClaimsWithHint.index()]
                    + self.interval@.counts[Counter::ClaimsWithoutHint.index()]) as u64,
                self.interval@.counts[Counter::PeerAttempts.index()],
            ],
    {
        let committed: u64 = self.interval.counts[6];
        let claims: u64 = self.interval.counts[0] + self.interval.counts[1];
        let attempts: u64 = self.interval.counts[5];
        let counts: [u64; 3] = [committed, claims, attempts];
        assert(counts@ =~= seq![committed, claims, attempts]);
        counts
    }

    /// The figures since the start. The interval goes on.
    pub fn snapshot(&self) -> (figures: MetricsFigures)
        requires
            self.total@.well_formed(),
        ensures
            figures.counts@ == self.total@.counts,
            figures.lookup == self.total@.lookup.figures_of(),
            figures.tcp_wait == self.total@.tcp_wait.figures_of(),
            figures.first_peer == self.total@.first_peer.figures_of(),
    {
        MetricsFigures {
            counts: self.total.counts,
            lookup: self.total.lookup.figures(),
            tcp_wait: self.total.tcp_wait.figures(),
            first_peer: self.total.first_peer.figures(),
        }
    }

    /// Makes a report while the collector runs.
    pub fn log(&mut self, now: u64) -> (report: MetricsReport)
        requires
            old(self).diagnostics@.well_formed(),
            old(self).diagnostics@.has_room(),
        ensures
            report_of(*old(self), *final(self), report, false, now),
    {
        self.log_snapshot(false, now)
    }

    /// Makes the last report.
    pub fn log_final(&mut self, now: u64) -> (report: MetricsReport)
        requires
            old(self).diagnostics@.well_formed(),
            old(self).diagnostics@.has_room(),
        ensures
            report_of(*old(self), *final(self), report, true, now),
    {
        self.log_snapshot(true, now)
    }

    /// Makes a report, and begins a new interval.
    pub fn log_snapshot(&mut self, final_snapshot: bool, now: u64) -> (report: MetricsReport)
        requires
            old(self).diagnostics@.well_formed(),
            old(self).diagnostics@.has_room(),
        ensures
            report_of(*old(self), *final(self), report, final_snapshot, now),
    {
        let diagnostics = self.diagnostics.log_snapshot(now);
        let total = self.total.copy();
        let mut interval = MetricsSnapshot::new();
        std::mem::swap(&mut interval, &mut self.interval);
        MetricsReport { final_snapshot, diagnostics, total, interval }
    }
}

/// A report gives all that was counted since the start and since the last report. The total goes
/// on, and the interval begins anew.
pub open spec fn report_of(
    before: Metrics,
    after: Metrics,
    report: MetricsReport,
    final_snapshot: bool,
    now: u64,
) -> bool {
    let expired = before.diagnostics@.expired(now);
    &&& report.final_snapshot == final_snapshot
    &&& report.diagnostics.entries == expired.endpoints.len()
    &&& report.diagnostics.total@ == expired.total
    &&& report.diagnostics.total@.well_formed()
    &&& report.diagnostics.interval@ == expired.interval
    &&& report.diagnostics.interval@.well_formed()
    &&& report.total@ == before.total@
    &&& report.interval@ == before.interval@
    &&& after.diagnostics@ == before.diagnostics@.reported(now)
    &&& after.diagnostics@.well_formed()
    &&& after.total@ == before.total@
    &&& after.interval@ == MetricsModel::empty()
    &&& after.interval@.well_formed()
}

/// Each counter has a place of its own among sixteen.
pub proof fn lemma_counter_places(a: Counter, b: Counter)
    ensures
        0 <= a.index() < 16,
        a.index() == b.index() ==> a == b,
        Counter::ClaimsWithHint.index() < Counter::ClaimsWithoutHint.index()
            < Counter::Lookups.index() < Counter::RpcSent.index()
            < Counter::LookupWithPeers.index() < Counter::PeerAttempts.index()
            < Counter::MetadataCommitted.index() < Counter::MetadataBytes.index()
            < Counter::RemoteFailures.index() < Counter::LocalDeferrals.index()
            < Counter::LookupsFinished.index() < Counter::LookupFirstPeer.index()
            < Counter::LookupCancelledSuccess.index() < Counter::PeerFailures.index()
            < Counter::SamplingResumes.index() < Counter::AnnouncesAccepted.index(),
{
}

/// The names of the counters.
pub proof fn lemma_counter_names()
    ensures
        Counter::ClaimsWithHint.text() == "claims_with_hint"@,
        Counter::ClaimsWithoutHint.text() == "claims_without_hint"@,
        Counter::Lookups.text() == "lookups"@,
        Counter::RpcSent.text() == "rpc_sent"@,
        Counter::LookupWithPeers.text() == "lookup_with_peers"@,
        Counter::PeerAttempts.text() == "peer_attempts"@,
        Counter::MetadataCommitted.text() == "metadata_committed"@,
        Counter::MetadataBytes.text() == "metadata_bytes"@,
        Counter::RemoteFailures.text() == "remote_failures"@,
        Counter::LocalDeferrals.text() == "local_deferrals"@,
        Counter::LookupsFinished.text() == "lookups_finished"@,
        Counter::LookupFirstPeer.text() == "lookup_first_peer"@,
        Counter::LookupCancelledSuccess.text() == "lookup_cancelled_success"@,
        Counter::PeerFailures.text() == "peer_failures"@,
        Counter::SamplingResumes.text() == "sampling_resumes"@,
        Counter::AnnouncesAccepted.text() == "announces_accepted"@,
{
}

/// What is added is added to its own counter, as far as that can hold it, and to nothing else.
pub proof fn lemma_counter_added(metrics: MetricsModel, counter: Counter, value: u64, other: Counter)
    requires
        metrics.well_formed(),
    ensures
        ({
            let after = metrics.added(counter, value);
            let sum = metrics.counts[counter.index()] + value;
            &&& sum <= u64::MAX ==> after.counts[counter.index()] == sum
            &&& sum > u64::MAX ==> after.counts[counter.index()] == u64::MAX
            &&& other != counter ==> after.counts[other.index()] == metrics.counts[other.index()]
            &&& after.lookup == metrics.lookup
            &&& after.tcp_wait == metrics.tcp_wait
            &&& after.first_peer == metrics.first_peer
        }),
        metrics.counts.len() == 16,
{
}

/// A duration is recorded among those of its own kind, and nowhere else.
pub proof fn lemma_duration_recorded(metrics: MetricsModel, millis: u64)
    ensures
        metrics.observed(Timing::Lookup, millis) == (MetricsModel {
            lookup: metrics.lookup.recorded(millis),
            ..metrics
        }),
        metrics.observed(Timing::TcpWait, millis) == (MetricsModel {
            tcp_wait: metrics.tcp_wait.recorded(millis),
            ..metrics
        }),
        metrics.observed(Timing::FirstPeer, millis) == (MetricsModel {
            first_peer: metrics.first_peer.recorded(millis),
            ..metrics
        }),
        metrics.timing(Timing::Lookup) == metrics.lookup,
        metrics.timing(Timing::TcpWait) == metrics.tcp_wait,
        metrics.timing(Timing::FirstPeer) == metrics.first_peer,
{
}

/// Nothing is counted at first, and durations are counted by the buckets of the collector.
pub proof fn lemma_metrics_empty(i: int)
    ensures
        MetricsModel::empty().counts.len() == 16,
        0 <= i < 16 ==> MetricsModel::empty().counts[i] == 0,
        MetricsModel::empty().lookup == HistogramModel::empty(Buckets::Collector),
        MetricsModel::empty().tcp_wait == HistogramModel::empty(Buckets::Collector),
        MetricsModel::empty().first_peer == HistogramModel::empty(Buckets::Collector),
{
}

/// A report tells what was counted in all and since the last report, and nothing that was told since
/// then is told again. What is counted in all stays.
pub proof fn lemma_reported(
    before: Metrics,
    after: Metrics,
    report: MetricsReport,
    final_snapshot: bool,
    now: u64,
)
    requires
        report_of(before, after, report, final_snapshot, now),
    ensures
        report.final_snapshot == final_snapshot,
        report.total@ == before.total@,
        report.interval@ == before.interval@,
        after.total@ == before.total@,
        after.interval@ == MetricsModel::empty(),
        report.diagnostics.total@ == before.diagnostics@.expired(now).total,
        report.diagnostics.interval@ == before.diagnostics@.expired(now).interval,
        report.diagnostics.entries == before.diagnostics@.expired(now).endpoints.len(),
        after.diagnostics@ == before.diagnostics@.reported(now),
{
}

/// The model of the counters and durations holds each of them.
pub proof fn lemma_metrics_view(metrics: MetricsSnapshot)
    ensures
        metrics@.counts == metrics.counts@,
        metrics@.lookup == metrics.lookup@,
        metrics@.tcp_wait == metrics.tcp_wait@,
        metrics@.first_peer == metrics.first_peer@,
{
}

} // verus!
