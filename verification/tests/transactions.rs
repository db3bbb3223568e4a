use bt_sniffer::inspection::JobState;
use bt_sniffer::jobs::admission::Deferral;
use bt_sniffer::jobs::backfill::{AddressPolicy, CollectionStore, Observation};
use bt_sniffer::jobs::claim::Job;
use bt_sniffer::jobs::hints::Hint;
use bt_sniffer::jobs::model::{ClaimClass, JobRow, StoreError, UpdateResult};
use bt_sniffer::jobs::transactions::{complete_job, discover_peer};
use bt_sniffer::metainfo::identity::InfoHashV1;

fn hint(port: u16, observed_at: i64) -> Hint {
    Hint {
        ip: vec![127, 0, 0, 1],
        port,
        observed_at,
    }
}

fn job(generation: i64) -> Job {
    Job {
        class: ClaimClass::Recent,
        had_valid_hint: false,
        hash: InfoHashV1([1; 20]),
        generation,
        failed_attempts_before: 0,
        peers: vec![],
    }
}

#[test]
fn metadata_is_stored_once_and_never_replaced() {
    let hash = InfoHashV1([1; 20]);
    let mut claimed = JobRow::new(5);
    claimed.claim(5);
    let mut row = Some(claimed);
    let mut stored = None;
    let mut hints = vec![hint(1, 5)];
    let mut complete = |row: &mut _, stored: &mut _, hints: &mut _, generation, hash, info: &[u8]| {
        complete_job(row, Ok(()), stored, hints, &job(generation), hash, info.to_vec(), 9)
    };
    let other = InfoHashV1([2; 20]);
    assert_eq!(
        complete(&mut row, &mut stored, &mut hints, 1, other, b"de"),
        Err(StoreError::Conflict)
    );
    assert_eq!(
        complete(&mut row, &mut stored, &mut hints, 0, hash, b"de"),
        Ok(UpdateResult::Stale)
    );
    let mut foreign = Some(b"le".to_vec());
    assert_eq!(
        complete(&mut row, &mut foreign, &mut hints, 1, hash, b"de"),
        Err(StoreError::Conflict)
    );
    assert_eq!(foreign, Some(b"le".to_vec()));
    assert_eq!((row, stored.is_none(), hints.len()), (Some(claimed), true, 1));
    assert_eq!(
        complete(&mut row, &mut stored, &mut hints, 1, hash, b"de"),
        Ok(UpdateResult::Applied)
    );
    assert_eq!(row.unwrap().state, JobState::Succeeded);
    assert_eq!(stored, Some(b"de".to_vec()));
    assert!(hints.is_empty());
    assert_eq!(
        complete(&mut row, &mut stored, &mut hints, 1, hash, b"le"),
        Ok(UpdateResult::Stale)
    );
    assert_eq!(
        complete(&mut None, &mut None, &mut hints, 1, hash, b"le"),
        Ok(UpdateResult::Stale)
    );
}

#[test]
fn a_full_store_refreshes_only_active_jobs() {
    let mut row = Some(JobRow::new(100));
    let mut hints = vec![];
    assert_eq!(
        discover_peer(&mut row, false, &mut hints, hint(6881, 200), 1, 1),
        Ok(true)
    );
    assert_eq!(hints.len(), 1);
    let mut unknown = None;
    let mut others = vec![];
    assert_eq!(
        discover_peer(&mut unknown, false, &mut others, hint(6881, 200), 1, 1),
        Ok(false)
    );
    assert!(unknown.is_none() && others.is_empty());
    assert_eq!(
        discover_peer(&mut unknown, false, &mut others, hint(6881, 200), 2, 1),
        Ok(true)
    );
    assert_eq!(unknown.unwrap().due_at, 200);
    assert_eq!(
        discover_peer(&mut unknown, false, &mut others, hint(0, 200), 2, 1),
        Err(StoreError::Announcement)
    );
    assert_eq!(
        discover_peer(&mut unknown, false, &mut others, hint(1, -1), 2, 1),
        Err(StoreError::Announcement)
    );
}

fn observation(id: u8, first_seen: i64) -> Observation {
    Observation {
        hash: InfoHashV1([id; 20]),
        first_seen,
        known: false,
        stored: false,
    }
}

#[test]
fn pages_count_what_they_did_and_why_they_waited() {
    let now = 4_000_000;
    let mut store = CollectionStore::new();
    let rows = vec![observation(1, now), observation(2, now), observation(3, now)];
    let page = store.backfill_recent_page(0, 0, &rows, now, None);
    assert_eq!((page.scanned, page.next), (0, None));
    store.enable_fetch(4);
    store.enable_recent_admission(2, AddressPolicy::PublicOnly);
    let page = store.backfill_recent_page(0, 0, &rows, now, None);
    assert_eq!(page.inserted, vec![rows[0].hash, rows[1].hash]);
    assert_eq!(page.next, Some((now, rows[1].hash)));
    let cursor = page.next;
    let page = store.backfill_recent_page(2, 2, &rows, now, cursor);
    assert_eq!((page.inserted.len(), page.next), (0, cursor));
    let old = vec![observation(7, 0), observation(8, 0), observation(9, 0)];
    let page = store.backfill_page(0, 0, &old, now, None);
    assert_eq!(page.inserted.len(), 2);
    assert_eq!(page.next, Some(old[1].hash));
    let page = store.backfill_page(2, 2, &old, now, page.next);
    assert_eq!(page.next, Some(old[1].hash));
    let total = store.backfill_counters.total;
    assert_eq!((total.recent_scanned, total.recent_inserted), (2, 2));
    assert_eq!((total.history_scanned, total.history_inserted), (2, 2));
    for (reason, count) in [
        (Deferral::TotalCapacity, 1),
        (Deferral::FirstAttemptBuffer, 1),
        (Deferral::HistoryReserve, 1),
        (Deferral::SampleWaitingBackfill, 0),
    ] {
        assert_eq!(total.deferrals.count(reason), count);
    }
}

#[test]
fn stored_bytes_of_a_wrong_size_refuse_only_a_claim_that_stands() {
    let hash = InfoHashV1([1; 20]);
    let mut claimed = JobRow::new(5);
    claimed.claim(5);
    for (generation, given, expected) in [
        (1, InfoHashV1([2; 20]), Err(StoreError::Conflict)),
        (0, hash, Ok(UpdateResult::Stale)),
        (1, hash, Err(StoreError::MetadataSize)),
    ] {
        let mut row = Some(claimed);
        let mut stored = Some(vec![]);
        let mut hints = vec![hint(1, 5)];
        let result = complete_job(
            &mut row,
            Err(StoreError::MetadataSize),
            &mut stored,
            &mut hints,
            &job(generation),
            given,
            b"de".to_vec(),
            9,
        );
        assert_eq!(result, expected);
        assert_eq!((row, stored, hints.len()), (Some(claimed), Some(vec![]), 1));
    }
}
