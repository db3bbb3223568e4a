use bt_sniffer::inspection::JobState;
use bt_sniffer::jobs::model::{ClaimClass, JobRow};
use bt_sniffer::jobs::policy::{order_for, ClaimPolicy};
use bt_sniffer::jobs::schedule::{claim_order, find_due, Candidate};
use bt_sniffer::jobs::status::{job_status, DueStats, FirstAttemptBacklog};
use bt_sniffer::metainfo::identity::InfoHashV1;

fn job(id: u8, due_at: i64, generation: i64, first_seen: i64, hinted: bool) -> Candidate {
    Candidate {
        hash: InfoHashV1([id; 20]),
        row: JobRow {
            due_at,
            generation,
            ..JobRow::new(due_at)
        },
        first_seen,
        hinted,
    }
}

#[test]
fn preferred_claims_rotate_borrow_and_respect_the_due_time() {
    let mut jobs: Vec<_> = (1..=12).map(|id| job(id, 100, 0, 100, id >= 4)).collect();
    let mut order = Vec::new();
    for turn in 0..12 {
        let preferred = if turn % 4 < 3 {
            ClaimClass::Hint
        } else {
            ClaimClass::Recent
        };
        let at = claim_order(&mut jobs, Some(order_for(preferred)), 100).unwrap();
        assert_eq!(jobs[at].row.state, JobState::Running);
        assert_eq!(jobs[at].row.generation, 1);
        assert_eq!(jobs[at].hinted, turn % 4 < 3);
        order.push(jobs[at].hash.0[0]);
    }
    assert_eq!(order, vec![4, 5, 6, 1, 7, 8, 9, 2, 10, 11, 12, 3]);
    assert_eq!(
        claim_order(&mut jobs, Some(order_for(ClaimClass::Hint)), 101),
        None
    );
}

#[test]
fn an_empty_class_lends_its_turn_and_time_decides_within_one() {
    let now = 2_000_000;
    let mut jobs = vec![
        job(3, 50, 0, 0, false),
        job(2, 50, 0, 0, false),
        job(9, 40, 0, 0, false),
        job(1, now + 1, 0, 0, true),
    ];
    assert_eq!(find_due(&jobs, Some(ClaimClass::Hint), now), None);
    assert_eq!(find_due(&jobs, None, now), Some(2));
    for expected in [9, 2, 3] {
        let at = claim_order(&mut jobs, Some(ClaimPolicy::new().order()), now).unwrap();
        assert_eq!(jobs[at].hash.0[0], expected);
    }
    assert_eq!(claim_order(&mut jobs, None, now), None);
    assert_eq!(claim_order(&mut jobs, None, now + 1), Some(3));
}

#[test]
fn the_status_counts_buffer_and_backlog_apart() {
    let now = 4_000_000;
    let jobs = vec![
        job(1, now - 10, 0, now, false),
        job(2, now + 10, 0, now - 1_800_000, false),
        job(3, now - 20, 0, now, true),
        job(4, now - 5, 0, now - 1_800_001, false),
        job(5, now - 30, 2, now, false),
    ];
    let status = job_status(&jobs, now);
    assert_eq!(
        status.due,
        DueStats {
            count: 4,
            oldest_wait_ms: 30,
            fresh: 1
        }
    );
    assert_eq!(status.recent_active, 4);
    assert_eq!(status.first_attempt_waiting, 2);
    assert_eq!(
        status.backlog,
        FirstAttemptBacklog {
            waiting: 4,
            older_than_30m: 1,
            oldest_discovery_age_ms: Some(1_800_001),
            oldest_due_wait_ms: Some(20),
            not_due: 1
        }
    );
    let empty = job_status(&vec![], now);
    assert_eq!(empty.backlog.oldest_due_wait_ms, None);
    assert_eq!(empty.due.oldest_wait_ms, 0);
    let future = vec![job(1, now + 5, 0, now + 5, false)];
    assert_eq!(
        job_status(&future, now).backlog.oldest_discovery_age_ms,
        Some(0)
    );
}
