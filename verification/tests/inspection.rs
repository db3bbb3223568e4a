use bt_sniffer::inspection::{JobCounts, JobState, ReadError};

#[test]
fn job_counts_reject_unknown_state() {
    let mut counts = JobCounts::default();
    for state in ["pending", "running", "retry_wait", "dormant", "succeeded"] {
        counts.record(state, 1).unwrap();
    }
    assert_eq!(
        counts,
        JobCounts {
            pending: 1,
            running: 1,
            retry_wait: 1,
            dormant: 1,
            succeeded: 1,
        }
    );
    assert!(matches!(
        counts.record("unknown", 1),
        Err(ReadError::Unavailable)
    ));
}

#[test]
fn state_labels_name_their_states() {
    for state in [
        JobState::Pending,
        JobState::Running,
        JobState::RetryWait,
        JobState::Dormant,
        JobState::Succeeded,
    ] {
        assert_eq!(JobState::from_label(state.label()), Some(state));
    }
    assert_eq!(JobState::from_label("future"), None);
}

#[test]
fn interrupted_statements_are_told_from_others() {
    assert_eq!(ReadError::from_statement(true), ReadError::Cancelled);
    assert_eq!(ReadError::from_statement(false), ReadError::Unavailable);
}
