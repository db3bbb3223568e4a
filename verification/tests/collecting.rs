use bt_sniffer::backpressure::Mode;
use bt_sniffer::bootstrap::{Round, Search, FIRST_WAIT};
use bt_sniffer::bounded::{byte_len, decimal, push_bounded, read_cursor, write_hex};
use bt_sniffer::clock::{unix_millis, Clock, ClockError, WALL_MAX};
use bt_sniffer::collector::{
    admission_limit, closing_step, count_step, running_step, state_size, validate, Closing,
    CompletionTotals, FileState, Outcome, Step, WorkerEnd,
};
use bt_sniffer::diagnostics::keys::AttemptContext;
use bt_sniffer::diagnostics::metrics::{Counter, Metrics};
use bt_sniffer::failure::AttemptFailure;
use bt_sniffer::ingest::{IngestStep, SampleProgress, SEGMENT};
use bt_sniffer::jobs::model::{
    AttemptKind, ClaimClass, LocalReason, RetryReason, UpdateResult,
};
use bt_sniffer::logging::{new_run_name, run_name};

const SECOND: u64 = 1_000_000_000;

#[test]
fn clock_is_injectable_and_rejects_invalid_time() {
    let now = 5 * SECOND;
    let clock = Clock::new(now, 100 * i128::from(SECOND));
    assert_eq!(clock.millis_at(now + 21600 * SECOND).unwrap(), 21_700_000);
    assert_eq!(
        clock.millis_at(now - SECOND),
        Err(ClockError::MonotonicBackwards)
    );
    assert_eq!(
        unix_millis(-i128::from(SECOND)),
        Err(ClockError::BeforeEpoch)
    );
    // A cooling time never ends too early.
    assert_eq!(clock.millis_at(now + 1).unwrap(), 100_001);
    assert_eq!(
        Clock::new(0, WALL_MAX).wall_at(1),
        Err(ClockError::WallOverflow)
    );
}

#[test]
fn tasks_are_settled_by_what_was_stored() {
    let failed = Outcome::Retry(RetryReason::Failed(AttemptFailure::NoPeers));
    let success = Outcome::Success {
        bytes: 10,
        compatible: true,
    };
    assert_eq!(running_step(Outcome::Control), Step::Fail);
    assert_eq!(running_step(success), Step::Complete);
    assert_eq!(
        closing_step(failed),
        Step::Retry(RetryReason::Local(LocalReason::Cancelled))
    );
    let mut totals = CompletionTotals::new();
    totals.settle(success, UpdateResult::Applied);
    totals.settle(success, UpdateResult::Stale);
    totals.settle(failed, UpdateResult::Applied);
    assert_eq!((totals.succeeded, totals.failed), (1, 1));
    assert_eq!(
        totals.failure_categories.get(AttemptFailure::NoPeers),
        Some(&1)
    );
    let context = AttemptContext {
        class: ClaimClass::Recent,
        kind: AttemptKind::First,
        failed_attempts_before: 0,
        had_valid_hint: false,
    };
    let mut metrics = Metrics::new();
    count_step(
        &mut metrics,
        context,
        Step::Complete,
        10,
        true,
        UpdateResult::Applied,
    );
    count_step(
        &mut metrics,
        context,
        Step::Complete,
        10,
        true,
        UpdateResult::Stale,
    );
    let counts = metrics.snapshot().counts;
    assert_eq!(counts[Counter::MetadataCommitted.place()], 1);
    assert_eq!(counts[Counter::MetadataBytes.place()], 10);
    assert_eq!(metrics.diagnostics.total.log_compatibility().committed, 1);
}

#[test]
fn a_failed_write_ends_the_writes_of_the_close() {
    let mut closing = Closing::new(false, false);
    let lost = closing.save(WorkerEnd::Lost);
    assert_eq!(
        lost,
        Some(Step::Retry(RetryReason::Local(LocalReason::Cancelled)))
    );
    assert!(closing.drains());
    closing.saved(true);
    assert!(closing.drains());
    closing.saved(false);
    closing.saved(true);
    assert_eq!(
        closing.save(WorkerEnd::Finished(Outcome::Retry(RetryReason::Deferred))),
        None
    );
    assert!(!closing.drains());
    assert!(!Closing::new(true, false).drains());
    assert!(!Closing::new(false, true).drains());
}

#[test]
fn limits_of_the_collector() {
    assert!(!validate(0));
    assert!(validate(1));
    assert!(validate(usize::MAX / 8));
    assert!(!validate(usize::MAX / 8 + 1));
    assert_eq!(admission_limit(Mode::Capacity, 4096, 8), 0);
    assert!(admission_limit(Mode::Freshness, 4096, 8) > 0);
    assert_eq!(
        state_size(&vec![FileState::Present(5), FileState::Missing]),
        Some(5)
    );
    assert_eq!(
        state_size(&vec![FileState::Present(5), FileState::Unreadable]),
        None
    );
    assert_eq!(
        state_size(&vec![
            FileState::Present(u64::MAX),
            FileState::Present(1)
        ]),
        Some(u64::MAX)
    );
}

#[test]
fn a_failed_batch_resumes_behind_its_last_confirmed_segment() {
    let mut progress = SampleProgress::new();
    assert_eq!(progress.next_step(), IngestStep::Receive);
    progress.received(SEGMENT + 5);
    assert_eq!(
        progress.next_step(),
        IngestStep::Save(0, SEGMENT)
    );
    progress.confirmed();
    progress.rejected();
    assert!(progress.failed);
    assert_eq!(progress.offset, SEGMENT);
    assert_eq!(progress.batch, Some(SEGMENT + 5));
}

#[test]
fn drawn_numbers_stay_in_their_range() {
    let mut waits = Vec::new();
    for _ in 0..64 {
        let (mut search, _) = Search::begin(false);
        let wait = search.finish_at_random(Round::Failed);
        assert!((FIRST_WAIT..=FIRST_WAIT / 5 * 6).contains(&wait));
        waits.push(wait);
    }
    assert!(waits.iter().any(|wait| *wait != waits[0]));
    let name = new_run_name();
    assert_eq!(name.len(), 32);
    assert_ne!(name, new_run_name());
    assert_eq!(run_name(0xab), format!("{:032x}", 0xab));
    assert_eq!(run_name(u128::MAX), "f".repeat(32));
}

#[test]
fn numbers_are_written_and_read_back() {
    for n in [0, 9, 10, 12345, u64::MAX] {
        assert_eq!(decimal(n), n.to_string());
        assert_eq!(read_cursor(&write_hex(u128::from(n), 16)), Some(n));
    }
    assert_eq!(read_cursor("+00000000000000f"), Some(15));
    assert_eq!(read_cursor("-00000000000000f"), None);
    assert_eq!(byte_len("a中"), 4);
    let mut output = String::new();
    assert!(push_bounded(&mut output, "ab", 4));
    assert!(!push_bounded(&mut output, "中", 4));
    assert!(output.len() <= 4);
}
