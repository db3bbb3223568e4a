use bt_sniffer::failure::AttemptFailure;
use bt_sniffer::inspection::JobState;
use bt_sniffer::jobs::admission::{available, enqueue, Admission, Deferral, Enqueued};
use bt_sniffer::jobs::backfill::{
    fill_history, fill_recent, history_cursor, history_page_size, recent_start, AddressPolicy,
    BackfillRecord, CollectionStore, Observation,
};
use bt_sniffer::jobs::claim::{
    claim_row, classify, read_row, recent, schedule_sql, ScheduledRow,
};
use bt_sniffer::jobs::hints::{
    accepts_announcement, check_announcement, fresh, keep_newest, Hint,
};
use bt_sniffer::jobs::model::{
    decode_hash, AttemptKind, ClaimClass, JobRow, LocalReason, RetryReason, StoreError,
    UpdateResult,
};
use bt_sniffer::jobs::stats::Stats;
use bt_sniffer::jobs::transitions::{
    add_time, retry_backoff, retry_transition, sub_time, JITTER_UNIT,
};
use bt_sniffer::metainfo::identity::InfoHashV1;

fn billionths(jitter: f64) -> u32 {
    (jitter * f64::from(JITTER_UNIT)) as u32
}

#[test]
fn retry_threshold_jitter_and_local_deferral_keep_existing_rules() {
    let remote = RetryReason::Failed(AttemptFailure::PeerIo);
    for (before, state, delays) in [
        (0, "retry_wait", [48_000, 60_000, 72_000]),
        (4, "retry_wait", [768_000, 960_000, 1_152_000]),
        (5, "dormant", [1_536_000, 1_920_000, 2_304_000]),
    ] {
        for (jitter, delay) in [0.8, 1.0, 1.2].into_iter().zip(delays) {
            let next = retry_transition(before, remote, 1000, billionths(jitter));
            assert_eq!(next.state.label(), state);
            assert_eq!(next.attempts, before + 1);
            assert_eq!(next.due_at, 1000 + delay);
        }
    }
    for reason in [
        RetryReason::Deferred,
        RetryReason::Local(LocalReason::Cancelled),
        RetryReason::Local(LocalReason::NoRoute),
        RetryReason::Local(LocalReason::ResourceWait),
    ] {
        for before in [0, 5, 6] {
            let next = retry_transition(before, reason, 1000, billionths(0.8));
            assert_eq!(next.attempts, before);
            assert_eq!(next.due_at, 61_000);
            assert_eq!(
                next.state.label(),
                if before == 6 { "dormant" } else { "retry_wait" }
            );
        }
    }
    assert_eq!(
        retry_transition(0, remote, i64::MAX - 1, billionths(1.0)).due_at,
        i64::MAX
    );
}

#[test]
fn a_drawn_jitter_moves_the_wait_by_a_fifth_at_most() {
    let mut waits = Vec::new();
    for _ in 0..64 {
        let mut row = JobRow::new(100);
        assert!(row.claim(100));
        let result = row.retry_at_random(1, 200, RetryReason::Failed(AttemptFailure::Other));
        assert_eq!(result, UpdateResult::Applied);
        let wait = row.due_at - 200;
        assert!((48_000..=72_000).contains(&wait), "{wait}");
        waits.push(wait);
    }
    assert!(waits.iter().any(|wait| *wait != waits[0]));
    assert_eq!(
        (0..4).map(retry_backoff).collect::<Vec<_>>(),
        vec![60_000, 120_000, 240_000, 480_000]
    );
}

#[test]
fn stale_claims_change_nothing_and_failures_end_in_dormancy() {
    let failed = RetryReason::Failed(AttemptFailure::Other);
    let mut row = JobRow::new(100);
    assert!(!row.claim(99));
    assert!(row.claim(100));
    assert!(!row.claim(100));
    let first = row.generation;
    assert_eq!(AttemptKind::of_generation(first), AttemptKind::First);
    row.recover(200, false);
    assert_eq!((row.state, row.due_at), (JobState::Pending, 200));
    assert!(row.claim(200));
    assert!(row.generation > first);
    assert_eq!(
        AttemptKind::of_generation(row.generation),
        AttemptKind::Repeat
    );
    let held = row;
    assert_eq!(
        row.retry(first, 201, failed, JITTER_UNIT),
        UpdateResult::Stale
    );
    assert_eq!(row.complete(first, 201), UpdateResult::Stale);
    assert_eq!(row, held);
    let mut now = 201;
    for failures in 1..=6 {
        assert_eq!(
            row.retry(row.generation, now, failed, JITTER_UNIT),
            UpdateResult::Applied
        );
        assert_eq!(row.attempts, failures);
        now = row.due_at;
        assert_eq!(row.claim(now), failures < 6);
    }
    assert_eq!(row.state, JobState::Dormant);
    let slept = row.updated_at;
    assert!(!row.revive(slept + 86_399_999));
    let generation = row.generation;
    assert!(row.revive(slept + 86_400_000));
    assert_eq!(
        (row.state, row.attempts, row.generation),
        (JobState::Pending, 0, generation)
    );
}

#[test]
fn metadata_that_came_by_another_way_ends_a_claim() {
    let mut row = JobRow::new(5);
    assert!(row.claim(5));
    assert!(row.supersede(3));
    assert_eq!((row.state, row.updated_at), (JobState::Succeeded, 5));
    assert_eq!(row.complete(1, 9), UpdateResult::Stale);
    assert!(!row.supersede(10));
    let mut other = JobRow::new(5);
    other.claim(5);
    assert_eq!(other.complete(1, 9), UpdateResult::Applied);
    assert_eq!((other.state, other.updated_at), (JobState::Succeeded, 9));
    let mut stored = JobRow::new(5);
    stored.recover(6, true);
    assert_eq!(stored.state, JobState::Succeeded);
    assert_eq!(add_time(i64::MAX, 1), i64::MAX);
    assert_eq!(add_time(i64::MIN, -1), i64::MIN);
    assert_eq!(sub_time(i64::MIN, 1), i64::MIN);
    assert_eq!(sub_time(i64::MAX, -1), i64::MAX);
}

#[test]
fn reasons_have_stored_labels() {
    for (reason, label) in [
        (RetryReason::Deferred, "local_deferred"),
        (RetryReason::Local(LocalReason::ResourceWait), "local_wait"),
        (RetryReason::Local(LocalReason::NoRoute), "no_route"),
        (RetryReason::Local(LocalReason::Cancelled), "cancelled"),
    ] {
        assert_eq!(reason.category(), Some(label));
        assert_eq!(reason.failure_category(), None);
    }
    let failed = RetryReason::Failed(AttemptFailure::NoPeers);
    assert_eq!(failed.failure_category(), Some("no_peers"));
    assert_eq!(failed.category(), Some("no_peers"));
}

fn hint(port: u16, observed_at: i64) -> Hint {
    Hint {
        ip: vec![127, 0, 0, 1],
        port,
        observed_at,
    }
}

#[test]
fn hints_are_bounded_and_the_newest_are_kept() {
    let mut hints = Vec::new();
    for port in 1..=12 {
        keep_newest(&mut hints, hint(port, 100));
    }
    assert_eq!(
        hints.iter().map(|h| h.port).collect::<Vec<_>>(),
        (1..=8).collect::<Vec<_>>()
    );
    keep_newest(&mut hints, hint(20, 200));
    keep_newest(&mut hints, hint(2, 150));
    keep_newest(&mut hints, hint(2, 120));
    assert_eq!(
        hints
            .iter()
            .map(|h| (h.port, h.observed_at))
            .collect::<Vec<_>>(),
        vec![
            (20, 200),
            (2, 150),
            (1, 100),
            (3, 100),
            (4, 100),
            (5, 100),
            (6, 100),
            (7, 100)
        ]
    );
    assert!(fresh(100, 1_800_100));
    assert!(!fresh(100, 1_800_101));
    assert!(check_announcement(1, 0).is_ok());
    assert_eq!(check_announcement(0, 0), Err(StoreError::Announcement));
    assert_eq!(check_announcement(1, -1), Err(StoreError::Announcement));
    assert!(accepts_announcement(0, true));
    assert!(!accepts_announcement(0, false));
}

#[test]
fn claims_are_classified_by_history_hint_and_age() {
    assert_eq!(classify(1, true, 0, 0), ClaimClass::Retry);
    assert_eq!(classify(0, true, 0, i64::MAX), ClaimClass::Hint);
    assert_eq!(classify(0, false, 0, 1_800_000), ClaimClass::Recent);
    assert_eq!(classify(0, false, 0, 1_800_001), ClaimClass::History);
    assert!(recent(0, 1_800_000) && !recent(0, 1_800_001));
    let row = ScheduledRow {
        hash: vec![7; 20],
        generation: 0,
        due_at: 3,
        class: 1,
        first_seen: 2,
        failed_attempts: 0,
    };
    let (class, hash) = read_row(&row).unwrap();
    assert_eq!((class, hash), (ClaimClass::Recent, InfoHashV1([7; 20])));
    let claim = claim_row(&row, class, hash, vec![]);
    assert_eq!(claim.job.attempt_kind(), AttemptKind::First);
    assert!(!claim.job.had_valid_hint);
    assert_eq!((claim.due_at, claim.first_seen), (3, 2));
    assert_eq!(
        read_row(&ScheduledRow { class: 4, ..row }),
        Err(StoreError::UnknownClass)
    );
    assert_eq!(decode_hash(vec![7; 19]), Err(StoreError::HashLength));
    for class in 0..4 {
        assert_eq!(
            ClaimClass::from_sql(class).unwrap().label(),
            ["hint", "recent", "retry", "history"][class as usize]
        );
    }
    assert_ne!(
        schedule_sql(None),
        schedule_sql(Some(ClaimClass::History))
    );
}

fn observation(id: u16, known: bool, first_seen: i64) -> Observation {
    let mut bytes = [0; 20];
    bytes[..2].copy_from_slice(&id.to_be_bytes());
    Observation {
        hash: InfoHashV1(bytes),
        first_seen,
        known,
        stored: false,
    }
}

#[test]
fn history_pages_bound_scans_and_keep_the_cursor_at_capacity() {
    let rows: Vec<_> = (0u16..600).map(|i| observation(i, i < 599, 1)).collect();
    let now = 10_000_000;
    let size = history_page_size(0);
    assert_eq!((size, history_page_size(1)), (256, 128));
    let mut active = 0;
    let mut cursor = None;
    let mut start = 0;
    for (end, inserted) in [(256, 0), (512, 0), (600, 1)] {
        let page_rows = rows[start..(start + size).min(600)].to_vec();
        let mut admission = Admission::load(1, active, 0, 0);
        assert_eq!(admission.history_blocked(), None);
        let page = fill_history(&mut admission, &page_rows, now, 0);
        assert_eq!(page.inserted.len(), inserted);
        cursor = history_cursor(false, cursor, &page_rows, page.scanned);
        assert_eq!(cursor, Some(rows[end - 1].hash));
        active += inserted as i64;
        start = end;
    }
    let admission = Admission::load(1, active, 0, 0);
    assert_eq!(
        admission.history_blocked(),
        Some(Deferral::TotalCapacity)
    );
    assert_eq!(history_cursor(true, cursor, &vec![], 0), cursor);
    assert_eq!(history_cursor(false, cursor, &vec![], 0), None);
}

#[test]
fn recent_torrents_keep_their_places() {
    let now = 2_000_000;
    let mut admission = Admission::load(4, 0, 2, 0);
    assert_eq!(
        (admission.total, admission.recent, admission.history),
        (4, 2, 2)
    );
    let old: Vec<_> = (0..6).map(|i| observation(i, false, 0)).collect();
    let page = fill_history(&mut admission, &old, now, 2);
    assert_eq!((page.scanned, page.inserted.len()), (2, 2));
    assert_eq!(
        admission.history_blocked(),
        Some(Deferral::HistoryReserve)
    );
    let fresh: Vec<_> = (10..16).map(|i| observation(i, i == 10, now)).collect();
    let page = fill_recent(&mut admission, &fresh, now);
    assert_eq!((page.scanned, page.inserted.len()), (3, 2));
    assert_eq!(
        admission.recent_blocked(),
        Some(Deferral::TotalCapacity)
    );
    assert_eq!(
        Admission::load(9, 0, 2, 2).recent_blocked(),
        Some(Deferral::FirstAttemptBuffer)
    );
    assert_eq!(available(3, 5), 0);
    assert_eq!(available(3, -1), 0);
    let hash = InfoHashV1([1; 20]);
    assert_eq!(
        recent_start(now, Some((200_000, hash))),
        (200_000, Some(hash))
    );
    assert_eq!(recent_start(now, Some((199_999, hash))), (200_000, None));
}

#[test]
fn enqueueing_creates_and_wakes_only_where_there_is_room() {
    let mut job = None;
    assert_eq!(enqueue(&mut job, false, 1, 0), Enqueued::Unchanged);
    assert_eq!(enqueue(&mut job, true, 1, 1), Enqueued::Unchanged);
    assert_eq!(job, None);
    assert_eq!(enqueue(&mut job, false, 1, 1), Enqueued::Created);
    assert_eq!(enqueue(&mut job, false, 1, 1), Enqueued::Unchanged);
    let mut dormant = Some(JobRow {
        state: JobState::Dormant,
        attempts: 6,
        updated_at: 100,
        ..job.unwrap()
    });
    assert_eq!(enqueue(&mut dormant, false, 200, 1), Enqueued::Unchanged);
    assert_eq!(
        enqueue(&mut dormant, false, 90_000_000, 1),
        Enqueued::Revived
    );
    assert_eq!(dormant.unwrap().attempts, 0);
}

#[test]
fn the_store_counts_deferrals_per_scope() {
    let mut store = CollectionStore::new();
    store.enable_fetch(5);
    store.enable_recent_admission(3, AddressPolicy::LocalUnicast);
    assert_eq!(store.recent_admission().limit, 3);
    store
        .backfill_counters
        .defer(Deferral::FirstAttemptBuffer, 2);
    store.backfill_counters.add_recent(4, 1);
    store.backfill_counters.add_history(8, 2);
    let records = store.log_backfill();
    assert!(records.len() >= 2);
    assert_eq!(
        store
            .backfill_counters
            .total
            .deferrals
            .count(Deferral::FirstAttemptBuffer),
        2
    );
    assert_eq!(
        store
            .backfill_counters
            .interval
            .deferrals
            .count(Deferral::FirstAttemptBuffer),
        0
    );
    assert!(records
        .iter()
        .any(|record| matches!(record, BackfillRecord::Deferral(_, Deferral::FirstAttemptBuffer, 2))));
    assert_eq!(Deferral::HistoryReserve.label(), "history_reserve");
    assert_eq!(store.sample_observations(), 0);
}

#[test]
fn job_statistics_reject_unknown_states() {
    let mut stats = Stats {
        pending: 0,
        running: 0,
        retry_wait: 0,
        dormant: 0,
        succeeded: 0,
        metadata_count: 0,
        metadata_bytes: 0,
    };
    for (state, count) in [
        ("pending", 1),
        ("running", 2),
        ("retry_wait", 3),
        ("dormant", 4),
        ("succeeded", 5),
    ] {
        stats.record(state, count).unwrap();
    }
    assert_eq!(stats.active(), 6);
    assert_eq!(stats.record("lost", 1), Err(StoreError::UnknownState));
}
