use bt_sniffer::diagnostics::aggregate::Diagnostics;
use bt_sniffer::diagnostics::attempts::AttemptStats;
use bt_sniffer::diagnostics::histogram::{Buckets, Histogram, Quantile};
use bt_sniffer::diagnostics::keys::{
    error_kind, failure_reason, AttemptContext, AttemptHistory, AttemptKey, AttemptResult,
    ClassKey, Deadline, FailureReason, HandshakeKey, HintKey, HistoryKey, IoKind, PeerError,
    PeerKey, PreviousConnect, ResultKind, Stage, TaskTiming,
};
use bt_sniffer::diagnostics::metrics::{Counter, Metrics, Timing};
use bt_sniffer::diagnostics::observation::{FrameOutcome, PeerObservation, TaskReport};
use bt_sniffer::endpoint::{Endpoint, Family};
use bt_sniffer::failure::AttemptFailure;
use bt_sniffer::jobs::model::{AttemptKind, ClaimClass};
use bt_sniffer::selector::Source;

const SECOND: u64 = 1_000_000_000;

fn address(port: u16) -> Endpoint {
    Endpoint {
        family: Family::V4,
        ip: 0x7f00_0001,
        port,
        flow: 0,
        scope: 0,
    }
}

#[test]
fn fixed_histogram_reports_bucket_upper_bound_and_overflow() {
    let mut h = Histogram::default();
    for ms in 1..=100 {
        h.record(ms);
    }
    assert_eq!(h.quantile(50).upper_bound_ms, Some(50));
    assert_eq!(h.quantile(95).upper_bound_ms, Some(100));
    let mut h = Histogram::new(Buckets::Diagnostic);
    h.record(1801 * 1000);
    assert_eq!(h.quantile(95).upper_bound_ms, Some(3600000));
    h.record(86401 * 1000);
    assert_eq!(
        h.quantile(99),
        Quantile {
            upper_bound_ms: None,
            exceeds_ms: Some(86400000)
        }
    );
    assert_eq!(h.overflow(), 1);
    assert_eq!(Histogram::default().quantile(95).exceeds_ms, None);
}

#[test]
fn error_categories_and_long_wait_buckets_do_not_parse_messages() {
    assert_eq!(
        error_kind(PeerError::Io(IoKind::UnexpectedEof)),
        ResultKind::Eof
    );
    assert_eq!(
        error_kind(PeerError::Io(IoKind::ConnectionReset)),
        ResultKind::Reset
    );
    assert_eq!(
        error_kind(PeerError::HashMismatch),
        ResultKind::HashMismatch
    );
    let mut d = Histogram::new(Buckets::Diagnostic);
    d.record(10 * 3600 * 1000);
    assert_eq!(d.quantile(95).upper_bound_ms, Some(12 * 3600 * 1000));
    d.record(16 * 3600 * 1000);
    assert_eq!(d.quantile(95).upper_bound_ms, Some(18 * 3600 * 1000));
}

#[test]
fn hint_summaries_reconcile_without_splitting_old_keys() {
    let mut diagnostics = Diagnostics::new();
    for hint in [false, true] {
        let context = AttemptContext {
            class: ClaimClass::Retry,
            kind: AttemptKind::Repeat,
            failed_attempts_before: 1,
            had_valid_hint: hint,
        };
        diagnostics.attempt(context, TaskTiming::DueWait, AttemptResult::Observed, 1000);
        diagnostics.attempt(
            context,
            TaskTiming::Execution,
            AttemptResult::Downloaded,
            2000,
        );
        diagnostics.committed(context);
    }
    let views = diagnostics.total.attempts.project();
    assert_eq!(views.timings.len(), 2);
    assert_eq!(views.class_timings.len(), 2);
    assert_eq!(views.committed.len(), 1);
    assert_eq!(views.class_committed.len(), 1);
    assert_eq!(views.committed.values.iter().sum::<u64>(), 2);
    for counts in &views.hints.values {
        assert_eq!(
            (
                counts.claims,
                counts.executions,
                counts.downloaded,
                counts.committed
            ),
            (1, 1, 1, 1)
        );
        assert_eq!(counts.execution_sum_ms, 2000);
    }
    diagnostics.log_snapshot(0);
    assert_eq!(diagnostics.interval.attempts.project().hints.len(), 0);
    assert_eq!(diagnostics.total.attempts.project().hints.len(), 2);
}

#[test]
fn complete_dimensions_project_without_duplicate_rows_or_quantile_arithmetic() {
    let mut diagnostics = Diagnostics::new();
    for (hint, millis) in [(false, 1), (true, 10_000)] {
        let context = AttemptContext {
            class: ClaimClass::Hint,
            kind: AttemptKind::First,
            failed_attempts_before: 0,
            had_valid_hint: hint,
        };
        diagnostics.attempt(
            context,
            TaskTiming::Execution,
            AttemptResult::Downloaded,
            millis,
        );
        if hint {
            diagnostics.committed(context);
        }
    }
    assert_eq!(diagnostics.total.attempts.timings.len(), 2);
    let views = diagnostics.total.attempts.project();
    assert_eq!(views.timings.len(), 1);
    assert_eq!(views.class_timings.len(), 1);
    let distribution = &views.timings.values[0];
    assert_eq!((distribution.count, distribution.sum_ms), (2, 10_001));
    assert_eq!(distribution.quantile(50).upper_bound_ms, Some(1));
    assert_eq!(distribution.quantile(95).upper_bound_ms, Some(10_000));
    assert_eq!(views.class_timings.values[0].sum_ms, 10_001);
    assert_eq!(views.committed.values.iter().sum::<u64>(), 1);
    let without = HintKey {
        kind: AttemptKind::First,
        had_valid_hint: false,
    };
    assert_eq!(views.hints.get(without).unwrap().committed, 0);
}

#[test]
fn failure_details_are_typed_once_and_intervals_reset() {
    for (kind, reason) in [
        (
            IoKind::ConnectionRefused,
            FailureReason::ConnectionRefused,
        ),
        (
            IoKind::NetworkUnreachable,
            FailureReason::NetworkUnreachable,
        ),
        (IoKind::HostUnreachable, FailureReason::HostUnreachable),
        (IoKind::PermissionDenied, FailureReason::PermissionDenied),
        (IoKind::Other, FailureReason::OtherIo),
    ] {
        assert_eq!(failure_reason(PeerError::Io(kind)), reason);
    }
    let mut diagnostics = Diagnostics::new();
    let mut report = PeerObservation::new(Source::Announce, false, 0);
    report.advance(&mut diagnostics, Stage::ExtensionHandshake, 0);
    let error = PeerError::Protocol {
        kind: 7,
        detailed: false,
    };
    report.failure(&mut diagnostics, error, 0);
    report.failure(&mut diagnostics, error, 0);
    report.finish(&mut diagnostics, error_kind(error), Deadline::Nothing, 0);
    report.abandon(&mut diagnostics, false, 0);
    let sum = |values: &Vec<u64>| values.iter().sum::<u64>();
    assert_eq!(sum(&diagnostics.total.failures.values), 1);
    assert_eq!(
        (
            diagnostics.total.samples.emitted,
            diagnostics.total.samples.suppressed
        ),
        (0, 0)
    );
    assert_eq!(sum(&diagnostics.interval.failures.values), 1);
    diagnostics.log_snapshot(0);
    assert_eq!(diagnostics.interval.failures.len(), 0);
    assert_eq!(sum(&diagnostics.total.failures.values), 1);
}

#[test]
fn inspection_does_not_consume_interval() {
    let mut metrics = Metrics::new();
    metrics.add(Counter::MetadataCommitted, 3);
    let before = metrics.interval_counts();
    assert_eq!(metrics.snapshot(), metrics.snapshot());
    assert_eq!(metrics.interval_counts(), before);
    assert_eq!(before, [3, 0, 0]);
}

#[test]
fn counters_saturate_and_reports_reset_the_interval() {
    let mut metrics = Metrics::new();
    metrics.add(Counter::MetadataBytes, u64::MAX);
    metrics.add(Counter::MetadataBytes, 5);
    metrics.add(Counter::ClaimsWithHint, 2);
    metrics.add(Counter::ClaimsWithoutHint, 3);
    metrics.add(Counter::PeerAttempts, 7);
    metrics.observe(Timing::Lookup, 42);
    assert_eq!(metrics.interval_counts(), [0, 5, 7]);
    let report = metrics.log(0);
    assert!(!report.final_snapshot);
    assert_eq!(
        report.total.counts[Counter::MetadataBytes.place()],
        u64::MAX
    );
    assert_eq!(report.interval.lookup.count(), 1);
    assert_eq!(metrics.interval_counts(), [0, 0, 0]);
    assert_eq!(metrics.snapshot().lookup.count, 1);
    assert_eq!(metrics.snapshot().lookup.p50.upper_bound_ms, Some(50));
    assert!(metrics.log_final(0).final_snapshot);
    for place in 0..16 {
        assert_eq!(Counter::at(place).unwrap().place(), place);
    }
    assert_eq!(Counter::at(16), None);
    assert_eq!(
        Counter::LookupCancelledSuccess.label(),
        "lookup_cancelled_success"
    );
}

#[test]
fn phase_reports_success_failure_and_cancellation_once() {
    let mut diagnostics = Diagnostics::new();
    let mut report = PeerObservation::new(Source::Dht, false, 0);
    report.advance(&mut diagnostics, Stage::StandardHandshake, SECOND);
    report.finish(
        &mut diagnostics,
        ResultKind::Io,
        Deadline::Nothing,
        SECOND,
    );
    report.abandon(&mut diagnostics, false, SECOND);
    let mut dropped = PeerObservation::new(Source::Dht, false, SECOND);
    dropped.abandon(&mut diagnostics, false, SECOND);
    let peers = &diagnostics.total.peers;
    let count = |stage, result| {
        peers
            .keys
            .iter()
            .zip(&peers.values)
            .filter(|(key, _)| key.stage == stage && key.result == result)
            .map(|(_, d)| d.count)
            .sum::<u64>()
    };
    assert_eq!(count(Stage::Connect, ResultKind::Success), 1);
    assert_eq!(count(Stage::Connect, ResultKind::Cancelled), 1);
    assert_eq!(count(Stage::StandardHandshake, ResultKind::Io), 1);
    assert_eq!(peers.values.iter().map(|d| d.count).sum::<u64>(), 3);
}

#[test]
fn phases_finish_once_and_outer_deadline_is_distinct_from_cancellation() {
    let mut diagnostics = Diagnostics::new();
    let mut report = PeerObservation::new(Source::Announce, false, 0);
    report.advance(&mut diagnostics, Stage::StandardHandshake, 0);
    report.advance(&mut diagnostics, Stage::StandardHandshake, 0);
    assert_eq!(report.stage(), Stage::StandardHandshake);
    report.abandon(&mut diagnostics, true, 5 * SECOND);
    let mut other = PeerObservation::new(Source::Dht, true, 5 * SECOND);
    other.abandon(&mut diagnostics, false, 5 * SECOND);
    let peers = &diagnostics.total.peers;
    assert_eq!(peers.values.iter().map(|d| d.count).sum::<u64>(), 3);
    assert!(peers
        .keys
        .iter()
        .any(|k| k.stage == Stage::StandardHandshake
            && k.result == ResultKind::Timeout
            && k.deadline == Deadline::Task));
    assert!(peers
        .keys
        .iter()
        .any(|k| k.ipv6 && k.result == ResultKind::Cancelled));
    diagnostics.log_snapshot(5 * SECOND);
    assert_eq!(diagnostics.interval.peers.len(), 0);
    assert_eq!(diagnostics.total.peers.len(), 3);
}

fn finish(
    diagnostics: &mut Diagnostics,
    address: Endpoint,
    result: ResultKind,
    deadline: Deadline,
    now: u64,
) {
    let mut report = PeerObservation::new(Source::Dht, address.family == Family::V6, now);
    report.observe_connect(diagnostics, address, Some(AttemptKind::Repeat), now);
    report.finish(diagnostics, result, deadline, now);
    report.finish(diagnostics, result, deadline, now);
}

#[test]
fn history_expires_without_reads_refreshing_and_success_replaces_failure() {
    let mut diagnostics = Diagnostics::new();
    let known = address(1234);
    let start = 1000 * SECOND;
    finish(
        &mut diagnostics,
        known,
        ResultKind::Timeout,
        Deadline::Stage,
        start,
    );
    assert_eq!(
        diagnostics
            .observe_connect(known, None, start + 299 * SECOND)
            .previous,
        PreviousConnect::Timeout
    );
    let now = start + 300 * SECOND;
    assert_eq!(
        diagnostics.observe_connect(known, None, now).previous,
        PreviousConnect::NoHistory
    );
    finish(
        &mut diagnostics,
        known,
        ResultKind::Timeout,
        Deadline::Stage,
        now,
    );
    finish(
        &mut diagnostics,
        known,
        ResultKind::Success,
        Deadline::Nothing,
        now,
    );
    assert_eq!(
        diagnostics.observe_connect(known, None, now).previous,
        PreviousConnect::Success
    );
    let v6 = Endpoint {
        family: Family::V6,
        ip: 1,
        port: 1234,
        flow: 0,
        scope: 0,
    };
    for other in [address(1235), v6] {
        assert_eq!(
            diagnostics.observe_connect(other, None, now).previous,
            PreviousConnect::NoHistory
        );
    }
    // Neither a connection that is given up nor an outer deadline hides the success.
    let mut dropped = PeerObservation::new(Source::Dht, false, now);
    dropped.observe_connect(&mut diagnostics, known, Some(AttemptKind::Repeat), now);
    dropped.abandon(&mut diagnostics, false, now);
    finish(
        &mut diagnostics,
        known,
        ResultKind::Timeout,
        Deadline::Peer,
        now,
    );
    let mut outer = PeerObservation::new(Source::Dht, false, now);
    outer.observe_connect(&mut diagnostics, known, Some(AttemptKind::Repeat), now);
    outer.abandon(&mut diagnostics, true, now);
    assert_eq!(
        diagnostics.observe_connect(known, None, now).previous,
        PreviousConnect::Success
    );
    assert_eq!(
        diagnostics
            .total
            .connections
            .timings
            .values
            .iter()
            .map(|d| d.count)
            .sum::<u64>(),
        6
    );
    assert_eq!(diagnostics.total.connections.expired, 1);
    diagnostics.log_snapshot(now);
    assert_eq!(diagnostics.interval.connections.timings.len(), 0);
    assert_eq!(diagnostics.interval.connections.expired, 0);
}

#[test]
fn capacity_is_bounded_and_known_endpoints_can_still_update() {
    let mut diagnostics = Diagnostics::new();
    for port in 1..=4096u16 {
        let mut report = PeerObservation::new(Source::Dht, false, 0);
        report.observe_connect(
            &mut diagnostics,
            address(port),
            Some(AttemptKind::Repeat),
            0,
        );
        report.failure(
            &mut diagnostics,
            PeerError::Io(IoKind::ConnectionRefused),
            0,
        );
        report.finish(&mut diagnostics, ResultKind::Io, Deadline::Nothing, 0);
    }
    let known = address(1);
    assert_eq!(
        diagnostics.observe_connect(known, None, 0).previous,
        PreviousConnect::ConnectionRefused
    );
    let unknown = address(5000);
    finish(
        &mut diagnostics,
        unknown,
        ResultKind::Success,
        Deadline::Nothing,
        0,
    );
    assert_eq!(diagnostics.endpoint_count(0), 4096);
    assert_eq!(
        diagnostics.observe_connect(unknown, None, 0).previous,
        PreviousConnect::NoHistory
    );
    finish(
        &mut diagnostics,
        known,
        ResultKind::Success,
        Deadline::Nothing,
        0,
    );
    assert_eq!(
        diagnostics.observe_connect(known, None, 0).previous,
        PreviousConnect::Success
    );
    assert_eq!(diagnostics.total.connections.capacity_dropped, 1);
    let later = 300 * SECOND;
    assert_eq!(diagnostics.endpoint_count(later), 0);
    finish(
        &mut diagnostics,
        unknown,
        ResultKind::Success,
        Deadline::Nothing,
        later,
    );
    assert_eq!(diagnostics.endpoint_count(later), 1);
}

#[test]
fn bencode_budget_is_shared_bounded_and_resets_after_sixty_seconds() {
    let mut diagnostics = Diagnostics::new();
    let error = PeerError::Protocol {
        kind: 3,
        detailed: true,
    };
    let emit = |diagnostics: &mut Diagnostics, n: u64, now: u64| {
        let source = if n % 2 == 0 {
            Source::Dht
        } else {
            Source::Announce
        };
        let mut report = PeerObservation::new(source, n % 2 == 0, now);
        report.advance(
            diagnostics,
            if n % 2 == 0 {
                Stage::ExtensionHandshake
            } else {
                Stage::Transfer
            },
            now,
        );
        let emitted = report.failure(diagnostics, error, now);
        assert!(!report.failure(diagnostics, error, now));
        emitted
    };
    for n in 0..9 {
        assert_eq!(emit(&mut diagnostics, n, 0), n < 8);
    }
    assert_eq!(
        (
            diagnostics.total.samples.emitted,
            diagnostics.total.samples.suppressed
        ),
        (8, 1)
    );
    assert_eq!(diagnostics.total.failures.values.iter().sum::<u64>(), 9);
    diagnostics.log_snapshot(0);
    emit(&mut diagnostics, 9, 59 * SECOND);
    assert_eq!(
        (
            diagnostics.interval.samples.emitted,
            diagnostics.interval.samples.suppressed
        ),
        (0, 1)
    );
    emit(&mut diagnostics, 10, 60 * SECOND);
    assert_eq!(
        (
            diagnostics.total.samples.emitted,
            diagnostics.total.samples.suppressed
        ),
        (9, 2)
    );
    assert_eq!(
        (
            diagnostics.interval.samples.emitted,
            diagnostics.interval.samples.suppressed
        ),
        (1, 1)
    );
    diagnostics.log_snapshot(60 * SECOND);
    assert_eq!(
        (
            diagnostics.interval.samples.emitted,
            diagnostics.interval.samples.suppressed
        ),
        (0, 0)
    );
    assert_eq!(diagnostics.total.failures.values.iter().sum::<u64>(), 11);
}

#[test]
fn attempt_costs_end_once_and_are_separate_from_commits() {
    let mut diagnostics = Diagnostics::new();
    for kind in [AttemptKind::First, AttemptKind::Repeat] {
        let context = AttemptContext {
            class: ClaimClass::Hint,
            had_valid_hint: false,
            kind,
            failed_attempts_before: 0,
        };
        for result in [
            AttemptResult::Downloaded,
            AttemptResult::LocalDeferral,
            AttemptResult::RemoteFailure(AttemptFailure::Protocol),
            AttemptResult::ControlFailure,
            AttemptResult::Cancelled,
        ] {
            diagnostics.attempt(context, TaskTiming::DueWait, AttemptResult::Observed, 0);
            let mut report = TaskReport::new(context, 0);
            if result != AttemptResult::Cancelled {
                report.finish(result);
            }
            report.close(&mut diagnostics, 2 * SECOND);
        }
        TaskReport::new(context, 0).close(&mut diagnostics, 0);
        let views = diagnostics.total.attempts.project();
        assert_eq!(views.committed.len(), 0);
        let key = |result| HistoryKey {
            history: context.history(),
            timing: TaskTiming::Execution,
            result,
        };
        assert_eq!(
            views.timings.get(key(AttemptResult::Cancelled)).unwrap().count,
            2
        );
        assert_eq!(
            views
                .timings
                .get(key(AttemptResult::Downloaded))
                .unwrap()
                .sum_ms,
            2000
        );
    }
    let context = AttemptContext {
        class: ClaimClass::Hint,
        had_valid_hint: false,
        kind: AttemptKind::First,
        failed_attempts_before: 0,
    };
    diagnostics.committed(context);
    diagnostics.log_snapshot(0);
    assert_eq!(
        diagnostics
            .total
            .attempts
            .project()
            .committed
            .get(context.history())
            .copied(),
        Some(1)
    );
    let interval = diagnostics.interval.attempts.project();
    assert_eq!(interval.timings.len(), 0);
    assert_eq!(interval.committed.len(), 0);
    for label in [
        "no_peers",
        "peer_io",
        "peer_timeout",
        "protocol",
        "hash_mismatch",
        "unsupported",
        "receive_limit",
        "rejected",
        "metadata_unavailable",
        "task_timeout",
    ] {
        assert_ne!(
            AttemptFailure::from_label(label),
            AttemptFailure::Other,
            "{label}"
        );
    }
    assert_eq!(
        AttemptFailure::from_label("an unknown message"),
        AttemptFailure::Other
    );
}

#[test]
fn attempt_summary_gives_the_cost_of_a_commit_only_where_there_is_one() {
    let mut diagnostics = Diagnostics::new();
    let context = AttemptContext {
        class: ClaimClass::Hint,
        had_valid_hint: false,
        kind: AttemptKind::First,
        failed_attempts_before: 0,
    };
    diagnostics.attempt(context, TaskTiming::DueWait, AttemptResult::Observed, 3000);
    diagnostics.attempt(
        context,
        TaskTiming::Execution,
        AttemptResult::Downloaded,
        6000,
    );
    diagnostics.committed(context);
    let report = diagnostics.log_snapshot(0);
    for snapshot in [report.total, report.interval] {
        let attempts = snapshot.log_attempts();
        assert_eq!(attempts.first.claims, 1);
        assert_eq!(attempts.first.downloaded, 1);
        assert_eq!(attempts.first.committed, 1);
        assert_eq!(attempts.first.execution_sum_ms, 6000);
        assert_eq!(attempts.first.execution_ms_per_commit, Some(6000));
        assert_eq!(attempts.repeat.committed, 0);
        assert_eq!(attempts.repeat.execution_ms_per_commit, None);
        let summary = snapshot.log_connections(report.entries);
        assert_eq!(
            (summary.entries, summary.expired, summary.capacity_dropped),
            (0, 0, 0)
        );
    }
}

#[test]
fn class_breakdown_rolls_up_and_preserves_frozen_class() {
    let mut diagnostics = Diagnostics::new();
    for kind in [AttemptKind::First, AttemptKind::Repeat] {
        for class in [
            ClaimClass::Hint,
            ClaimClass::Recent,
            ClaimClass::Retry,
            ClaimClass::History,
        ] {
            let context = AttemptContext {
                class,
                had_valid_hint: false,
                kind,
                failed_attempts_before: 1,
            };
            diagnostics.attempt(context, TaskTiming::DueWait, AttemptResult::Observed, 3000);
            let mut report = TaskReport::new(context, 0);
            report.finish(AttemptResult::Downloaded);
            report.close(&mut diagnostics, SECOND);
            diagnostics.committed(context);
        }
    }
    for snapshot in [&diagnostics.total, &diagnostics.interval] {
        let views = snapshot.attempts.project();
        for (key, total) in views.timings.keys.iter().zip(&views.timings.values) {
            let mut count = 0;
            let mut sum_ms = 0;
            for (found, distribution) in views
                .class_timings
                .keys
                .iter()
                .zip(&views.class_timings.values)
            {
                if (found.history, found.timing, found.result)
                    == (key.history, key.timing, key.result)
                {
                    count += distribution.count;
                    sum_ms += distribution.sum_ms;
                }
            }
            assert_eq!((count, sum_ms), (total.count, total.sum_ms));
        }
        for (history, total) in views.committed.keys.iter().zip(&views.committed.values) {
            assert_eq!(
                views
                    .class_committed
                    .keys
                    .iter()
                    .zip(&views.class_committed.values)
                    .filter(|(found, _)| found.history == *history)
                    .map(|(_, count)| count)
                    .sum::<u64>(),
                *total
            );
        }
        let key = ClassKey {
            history: AttemptHistory {
                kind: AttemptKind::First,
                failed_attempts_before: 1,
            },
            class: ClaimClass::Retry,
            timing: TaskTiming::Execution,
            result: AttemptResult::Downloaded,
        };
        assert_eq!(views.class_timings.get(key).unwrap().sum_ms, 1000);
    }
    diagnostics.log_snapshot(SECOND);
    assert_eq!(
        diagnostics.interval.attempts.project().class_timings.len(),
        0
    );
    assert_eq!(
        diagnostics
            .interval
            .attempts
            .project()
            .class_committed
            .len(),
        0
    );
    assert_eq!(
        diagnostics.total.attempts.project().class_committed.len(),
        8
    );
}

#[test]
fn times_add_up_over_classes_and_addresses_up_to_the_cap() {
    let execution = |class, had_valid_hint| AttemptKey {
        context: AttemptContext {
            class,
            had_valid_hint,
            kind: AttemptKind::First,
            failed_attempts_before: 0,
        },
        timing: TaskTiming::Execution,
        result: AttemptResult::ControlFailure,
    };
    for (first, second, sum) in [(70, 30, 100), (u64::MAX, 1, u64::MAX)] {
        let mut stats = AttemptStats::new();
        stats.record(execution(ClaimClass::Hint, true), first);
        stats.record(execution(ClaimClass::Retry, false), second);
        let report = stats.log_attempts();
        assert_eq!(report.views.timings.values[0].count, 2);
        assert_eq!(report.views.timings.values[0].sum_ms, sum);
        assert_eq!(report.views.class_timings.values[0].sum_ms, first);
        assert_eq!(report.views.class_timings.values[1].sum_ms, second);
        assert_eq!(report.first.execution_sum_ms, sum);
        let hints: Vec<u64> = report
            .views
            .hints
            .values
            .iter()
            .map(|hint| hint.execution_sum_ms)
            .collect();
        assert_eq!(hints, vec![second, first]);
    }
}

#[test]
fn compatibility_events_reconcile_intervals() {
    let mut diagnostics = Diagnostics::new();
    let mut intervals = Vec::new();
    let mut peer = PeerObservation::new(Source::Dht, false, 0);
    peer.extension_frame(&mut diagnostics, FrameOutcome::UnsortedCompatible);
    intervals.push(diagnostics.log_snapshot(0).interval.log_compatibility());
    peer.extension_frame(&mut diagnostics, FrameOutcome::UnsortedCompatible);
    peer.extension_frame(&mut diagnostics, FrameOutcome::InvalidDictionary);
    peer.extension_frame(&mut diagnostics, FrameOutcome::Plain);
    assert!(peer.extension_downloaded(&mut diagnostics));
    assert!(peer.extension_downloaded(&mut diagnostics));
    diagnostics.compatibility_committed();
    peer.abandon(&mut diagnostics, false, 0);
    let mut cancelled = PeerObservation::new(Source::Dht, false, 0);
    assert!(!cancelled.extension_downloaded(&mut diagnostics));
    cancelled.extension_frame(&mut diagnostics, FrameOutcome::UnsortedCompatible);
    cancelled.abandon(&mut diagnostics, false, 0);
    let report = diagnostics.log_snapshot(0);
    intervals.push(report.interval.log_compatibility());
    let total = report.total.log_compatibility();
    intervals.push(diagnostics.log_snapshot(0).interval.log_compatibility());
    assert_eq!(total.attempted_frames, 4);
    assert_eq!(total.accepted_frames, 3);
    assert_eq!(total.rejected_frames, 1);
    assert_eq!(total.sessions, 2);
    assert_eq!(total.downloaded, 1);
    assert_eq!(total.committed, 1);
    assert_eq!(
        intervals.iter().map(|c| c.attempted_frames).sum::<u64>(),
        4
    );
    assert_eq!(intervals.iter().map(|c| c.sessions).sum::<u64>(), 2);
    assert_eq!(intervals.iter().map(|c| c.committed).sum::<u64>(), 1);
}

#[test]
fn unified_observer_records_full_handshake_and_task_timeout() {
    let mut diagnostics = Diagnostics::new();
    let mut peer = PeerObservation::new(Source::Dht, false, 0);
    peer.advance(&mut diagnostics, Stage::StandardHandshake, 0);
    peer.advance(&mut diagnostics, Stage::ExtensionHandshake, SECOND);
    peer.advance(&mut diagnostics, Stage::Transfer, 5 * SECOND);
    peer.abandon(&mut diagnostics, true, 5 * SECOND);
    let handshake = &diagnostics.total.handshakes.values[0];
    assert_eq!(handshake.count, 1);
    assert_eq!(handshake.sum_ms, 5000);
    assert_eq!(handshake.quantile(95).upper_bound_ms, Some(5000));
    let peers = &diagnostics.total.peers;
    assert!(peers
        .keys
        .iter()
        .zip(&peers.values)
        .any(|(key, value)| key.stage == Stage::ExtensionHandshake && value.sum_ms == 4000));
    assert!(peers.keys.iter().any(|key| key.stage == Stage::Transfer
        && key.result == ResultKind::Timeout
        && key.deadline == Deadline::Task));
}

#[test]
fn handshake_totals_intervals_failures_and_overflow_are_explicit() {
    let mut diagnostics = Diagnostics::new();
    PeerObservation::new(Source::Dht, false, 0).abandon(&mut diagnostics, false, 0);
    assert_eq!(diagnostics.total.handshakes.len(), 0);
    let mut interval_count = 0;
    for (index, result, deadline) in [
        (0, ResultKind::Success, Deadline::Nothing),
        (1, ResultKind::Protocol, Deadline::Nothing),
        (2, ResultKind::Timeout, Deadline::Stage),
        (3, ResultKind::Timeout, Deadline::Peer),
        (4, ResultKind::Timeout, Deadline::Task),
        (5, ResultKind::Cancelled, Deadline::Nothing),
    ] {
        let mut peer = PeerObservation::new(Source::Announce, true, 0);
        peer.advance(&mut diagnostics, Stage::StandardHandshake, 0);
        peer.advance(&mut diagnostics, Stage::ExtensionHandshake, SECOND);
        interval_count += diagnostics
            .log_snapshot(0)
            .interval
            .handshakes
            .values
            .iter()
            .map(|d| d.count)
            .sum::<u64>();
        let now = SECOND + if index == 0 { 180 } else { 4 } * SECOND;
        peer.advance(&mut diagnostics, Stage::ExtensionHandshake, now);
        match index {
            0 => peer.advance(&mut diagnostics, Stage::Transfer, now),
            4 => peer.abandon(&mut diagnostics, true, now),
            5 => peer.abandon(&mut diagnostics, false, now),
            _ => {
                peer.finish(&mut diagnostics, result, deadline, now);
                peer.finish(&mut diagnostics, result, deadline, now);
            }
        }
        peer.abandon(&mut diagnostics, false, now);
        let key = HandshakeKey {
            source: Source::Announce,
            ipv6: true,
            result,
            deadline,
        };
        let total = diagnostics.total.handshakes.get(key).unwrap();
        let interval = diagnostics.interval.handshakes.get(key).unwrap();
        assert_eq!((total.count, interval.count), (1, 1));
        assert_eq!(total.sum_ms, if index == 0 { 181_000 } else { 5_000 });
    }
    let report = diagnostics.log_snapshot(0);
    interval_count += report
        .interval
        .handshakes
        .values
        .iter()
        .map(|d| d.count)
        .sum::<u64>();
    assert_eq!(interval_count, 6);
    assert_eq!(diagnostics.interval.handshakes.len(), 0);
    let success = HandshakeKey {
        source: Source::Announce,
        ipv6: true,
        result: ResultKind::Success,
        deadline: Deadline::Nothing,
    };
    let figures = report.total.handshakes.get(success).unwrap().figures();
    assert_eq!(figures.overflow, 1);
    assert_eq!(figures.p95.exceeds_ms, Some(180_000));
    assert_eq!(figures.p95.upper_bound_ms, None);
}

#[test]
fn executions_are_counted_with_the_full_context() {
    let mut diagnostics = Diagnostics::new();
    let context = AttemptContext {
        kind: AttemptKind::First,
        class: ClaimClass::Recent,
        failed_attempts_before: 0,
        had_valid_hint: false,
    };
    assert_eq!(diagnostics.total.attempts.timings.len(), 0);
    let report = TaskReport::new(context, 0);
    diagnostics.log_snapshot(2 * SECOND);
    report.close(&mut diagnostics, 5 * SECOND);
    let key = AttemptKey {
        context,
        timing: TaskTiming::Execution,
        result: AttemptResult::Cancelled,
    };
    for snapshot in [&diagnostics.total, &diagnostics.interval] {
        let execution = snapshot.attempts.timings.get(key).unwrap();
        assert_eq!((execution.count, execution.sum_ms), (1, 5000));
        assert_eq!(snapshot.attempts.committed.len(), 0);
    }
    assert_eq!(
        AttemptResult::RemoteFailure(AttemptFailure::PeerIo).label(),
        "RemoteFailure"
    );
    assert_eq!(
        AttemptResult::RemoteFailure(AttemptFailure::PeerIo).reason(),
        Some("peer_io")
    );
    assert_eq!(AttemptResult::Cancelled.reason(), None);
}

#[test]
fn rows_stand_in_the_order_of_their_dimensions() {
    let mut diagnostics = Diagnostics::new();
    for (stage, ipv6) in [
        (Stage::Transfer, false),
        (Stage::Connect, true),
        (Stage::Connect, false),
        (Stage::StandardHandshake, false),
    ] {
        let key = PeerKey {
            stage,
            source: Source::Dht,
            ipv6,
            result: ResultKind::Success,
            deadline: Deadline::Nothing,
        };
        diagnostics.record(key, 1);
        diagnostics.record(key, 1);
    }
    let order: Vec<_> = diagnostics
        .total
        .peers
        .keys
        .iter()
        .map(|key| (key.stage, key.ipv6))
        .collect();
    assert_eq!(
        order,
        vec![
            (Stage::Connect, false),
            (Stage::Connect, true),
            (Stage::StandardHandshake, false),
            (Stage::Transfer, false),
        ]
    );
    assert!(diagnostics.total.peers.values.iter().all(|d| d.count == 2));
}

#[test]
fn there_is_room_until_the_counts_are_almost_full() {
    let mut diagnostics = Diagnostics::new();
    assert!(diagnostics.roomy());
    diagnostics.total.connections.expired = u64::MAX - 8192;
    assert!(diagnostics.roomy());
    diagnostics.total.samples.emitted = 1;
    assert!(!diagnostics.roomy());
    diagnostics.total.connections.capacity_dropped = u64::MAX;
    assert!(!diagnostics.roomy());
    assert_eq!(diagnostics.total.counted(), u64::MAX);
    let context = AttemptContext {
        class: ClaimClass::Hint,
        had_valid_hint: true,
        kind: AttemptKind::First,
        failed_attempts_before: 0,
    };
    diagnostics.interval.attempts.confirm(context);
    let key = AttemptKey {
        context,
        timing: TaskTiming::Execution,
        result: AttemptResult::Downloaded,
    };
    diagnostics.interval.attempts.record(key, 5);
    diagnostics.interval.attempts.record(key, 6);
    assert_eq!(diagnostics.interval.counted(), 3);
}
