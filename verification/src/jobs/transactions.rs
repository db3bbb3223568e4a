//! What one transaction does to a job, its addresses and its metadata, and what one page of the
//! backfill does.

use crate::inspection::JobState;
use crate::jobs::admission::{
    available, enqueue, enqueue_result, left_of, reserve_of, Admission, Deferral, Enqueued,
};
use crate::jobs::backfill::{
    fill_history, fill_recent, fill_rows, history_cursor, history_wants, recent_wants,
    BackfillCounters, BackfillSnapshot, CollectionStore, Observation,
};
use crate::jobs::claim::Job;
use crate::jobs::hints::{
    accepts_announcement, check_announcement, hint_models, keep_newest, kept_hints, Hint,
};
use crate::jobs::model::{JobRow, StoreError, UpdateResult};
use crate::jobs::transitions::{job_step, JobStep};
use crate::metainfo::identity::InfoHashV1;
use crate::order::bytes_equal;
use vstd::prelude::*;

verus! {

/// The bytes that are stored, if any.
pub open spec fn stored_bytes(stored: Option<Vec<u8>>) -> Option<Seq<u8>> {
    match stored {
        Some(bytes) => Some(bytes@),
        None => None,
    }
}

/// Whether a claim of the job stands.
pub open spec fn is_held(row: Option<JobRow>, generation: i64) -> bool {
    row is Some && row->0.is_held(generation)
}

/// What becomes of metadata that a worker brings: bytes of another torrent are refused, then a claim
/// that no longer stands is passed over, then the error stands that the check of the stored bytes
/// gave, then other bytes than those that are stored are refused.
pub open spec fn completion(
    row: Option<JobRow>,
    checked: Result<(), StoreError>,
    stored: Option<Seq<u8>>,
    generation: i64,
    answers: bool,
    info: Seq<u8>,
) -> Result<UpdateResult, StoreError> {
    if !answers {
        Err(StoreError::Conflict)
    } else if !is_held(row, generation) {
        Ok(UpdateResult::Stale)
    } else if checked is Err {
        Err(checked->Err_0)
    } else if stored is Some && stored->0 != info {
        Err(StoreError::Conflict)
    } else {
        Ok(UpdateResult::Applied)
    }
}

/// Stores the metadata that a worker brings, ends its job and forgets its addresses, or does none of
/// it. `checked` is what the store says of the size of the bytes that it holds for the job.
pub fn complete_job(
    row: &mut Option<JobRow>,
    checked: Result<(), StoreError>,
    stored: &mut Option<Vec<u8>>,
    hints: &mut Vec<Hint>,
    job: &Job,
    info_hash: InfoHashV1,
    info: Vec<u8>,
    now: i64,
) -> (result: Result<UpdateResult, StoreError>)
    ensures
        result == completion(
            *old(row),
            checked,
            stored_bytes(*old(stored)),
            job.generation,
            info_hash.0@ == job.hash.0@,
            info@,
        ),
        result == Ok::<UpdateResult, StoreError>(UpdateResult::Applied) ==> {
            &&& *final(row) == Some(
                job_step(old(row)->0, JobStep::Complete(job.generation, now)),
            )
            &&& stored_bytes(*final(stored)) == Some(info@)
            &&& final(hints)@.len() == 0
        },
        result != Ok::<UpdateResult, StoreError>(UpdateResult::Applied) ==> {
            &&& *final(row) == *old(row)
            &&& *final(stored) == *old(stored)
            &&& final(hints)@ == old(hints)@
        },
{
    let answers = bytes_equal(
        vstd::array::array_as_slice(&info_hash.0),
        vstd::array::array_as_slice(&job.hash.0),
    );
    if !answers {
        return Err(StoreError::Conflict);
    }
    let mut current = match *row {
        Some(current) => current,
        None => {
            return Ok(UpdateResult::Stale);
        },
    };
    if current.complete(job.generation, now) == UpdateResult::Stale {
        return Ok(UpdateResult::Stale);
    }
    if let Err(error) = checked {
        return Err(error);
    }
    let differs = match stored.as_ref() {
        Some(bytes) => !bytes_equal(bytes.as_slice(), info.as_slice()),
        None => false,
    };
    if differs {
        return Err(StoreError::Conflict);
    }
    *row = Some(current);
    *stored = Some(info);
    hints.clear();
    Ok(UpdateResult::Applied)
}

/// Stored bytes are never replaced by others, and a worker that was told that its result is stored
/// cannot store another.
pub proof fn lemma_completed_once(
    row: JobRow,
    checked: Result<(), StoreError>,
    stored: Option<Seq<u8>>,
    generation: i64,
    now: i64,
    info: Seq<u8>,
    other: Seq<u8>,
)
    requires
        completion(Some(row), checked, stored, generation, true, info) == Ok::<
            UpdateResult,
            StoreError,
        >(UpdateResult::Applied),
    ensures
        stored is Some ==> stored->0 == info,
        completion(
            Some(job_step(row, JobStep::Complete(generation, now))),
            checked,
            Some(info),
            generation,
            true,
            other,
        ) == Ok::<UpdateResult, StoreError>(UpdateResult::Stale),
{
}

/// Whether an announcement is taken in: there is a place, or the job is active already.
pub open spec fn takes_announcement(job: Option<JobRow>, limit: usize, active: i64) -> bool {
    left_of(limit as int, active as int) > 0 || (job is Some && job->0.is_active())
}

/// Takes in an announced address, and creates or wakes the job where there is a place. `active` jobs
/// take up places already. A full store takes in addresses of active jobs alone.
pub fn discover_peer(
    job: &mut Option<JobRow>,
    stored: bool,
    hints: &mut Vec<Hint>,
    hint: Hint,
    limit: usize,
    active: i64,
) -> (result: Result<bool, StoreError>)
    ensures
        if hint.port == 0 || hint.observed_at < 0 {
            &&& result == Err::<bool, StoreError>(StoreError::Announcement)
            &&& *final(job) == *old(job)
            &&& final(hints)@ == old(hints)@
        } else if !takes_announcement(*old(job), limit, active) {
            &&& result == Ok::<bool, StoreError>(false)
            &&& *final(job) == *old(job)
            &&& final(hints)@ == old(hints)@
        } else {
            let enqueued = enqueue_result(
                *old(job),
                stored,
                hint.observed_at,
                left_of(limit as int, active as int),
            );
            &&& result == Ok::<bool, StoreError>(true)
            &&& *final(job) == (match enqueued {
                Enqueued::Created => Some(JobRow::created(hint.observed_at)),
                Enqueued::Revived => Some(
                    job_step(old(job)->0, JobStep::Revive(hint.observed_at)),
                ),
                Enqueued::Unchanged => *old(job),
            })
            &&& hint_models(final(hints)@) == kept_hints(hint_models(old(hints)@), hint@)
        },
{
    match check_announcement(hint.port, hint.observed_at) {
        Err(error) => {
            return Err(error);
        },
        Ok(()) => {},
    }
    let places: usize = available(limit, active);
    let is_active = match *job {
        Some(row) => row.state == JobState::Pending || row.state == JobState::Running || row.state
            == JobState::RetryWait,
        None => false,
    };
    if !accepts_announcement(places, is_active) {
        return Ok(false);
    }
    let _ = enqueue(job, stored, hint.observed_at, places);
    keep_newest(hints, hint);
    Ok(true)
}

/// The places of a batch.
pub open spec fn places_of(limit: usize, active: i64, recent_limit: usize, waiting: i64) -> Admission {
    let total = left_of(limit as int, active as int);
    Admission {
        total: total as usize,
        recent: if recent_limit == 0 {
            total as usize
        } else {
            left_of(recent_limit as int, waiting as int) as usize
        },
        history: left_of(total, reserve_of(limit as int, recent_limit as int)) as usize,
        enabled: recent_limit > 0,
    }
}

/// Whether the page of recent observations ends behind `n` rows: with the last one, or with the one
/// that takes the last place.
pub open spec fn recent_ends(places: Admission, rows: Seq<Observation>, now: i64, n: nat) -> bool {
    &&& n <= rows.len()
    &&& n < rows.len() ==> {
        let left = fill_rows(places, rows, now, recent_wants(), n).0;
        left.total == 0 || left.recent == 0
    }
    &&& forall|k: int|
        0 <= k < n ==> {
            let left = #[trigger] fill_rows(places, rows, now, recent_wants(), k as nat);
            left.0.total > 0 && left.0.recent > 0
        }
}

/// Whether the page of the history ends behind `n` rows: with the last one, or before the one for
/// which there is no place.
pub open spec fn history_ends(
    places: Admission,
    rows: Seq<Observation>,
    now: i64,
    recent_limit: int,
    n: nat,
) -> bool {
    &&& n <= rows.len()
    &&& n < rows.len() ==> fill_rows(
        places,
        rows,
        now,
        history_wants(recent_limit, now),
        n,
    ).0.room(false) <= 0
    &&& forall|k: int|
        0 <= k < n ==> {
            let left = #[trigger] fill_rows(
                places,
                rows,
                now,
                history_wants(recent_limit, now),
                k as nat,
            );
            left.0.room(false) > 0
        }
}

/// Whether `after` counts one more deferral for a reason than `before`.
pub open spec fn counts_deferral(
    before: BackfillSnapshot,
    after: BackfillSnapshot,
    reason: Deferral,
) -> bool {
    &&& after == (BackfillSnapshot { deferrals: after.deferrals, ..before })
    &&& after.deferrals.of(reason) == before.deferrals.of(reason) + 1
    &&& forall|other: Deferral|
        other != reason ==> #[trigger] after.deferrals.of(other) == before.deferrals.of(other)
}

/// Whether the counters have room for a page.
pub open spec fn has_room(counters: BackfillCounters, rows: int) -> bool {
    &&& counters.well_formed()
    &&& counters.total.recent_scanned + rows <= u64::MAX
    &&& counters.total.recent_inserted + rows <= u64::MAX
    &&& counters.total.history_scanned + rows <= u64::MAX
    &&& counters.total.history_inserted + rows <= u64::MAX
    &&& forall|reason: Deferral| #[trigger] counters.total.deferrals.of(reason) < u64::MAX
}

/// What a page of recent observations came to: the jobs that were created, the rows that were looked
/// at and where the next page starts.
#[derive(Debug)]
pub struct RecentPage {
    pub inserted: Vec<InfoHashV1>,
    pub scanned: usize,
    pub next: Option<(i64, InfoHashV1)>,
}

/// What a page of the history came to.
#[derive(Debug)]
pub struct HistoryPage {
    pub inserted: Vec<InfoHashV1>,
    pub scanned: usize,
    pub next: Option<InfoHashV1>,
}

/// No more jobs are created than rows are looked at.
proof fn lemma_inserted_bounded(
    places: Admission,
    rows: Seq<Observation>,
    now: i64,
    wants: spec_fn(Observation) -> bool,
    n: nat,
)
    ensures
        fill_rows(places, rows, now, wants, n).1.len() <= n,
    decreases n,
{
    if n > 0 {
        lemma_inserted_bounded(places, rows, now, wants, (n - 1) as nat);
    }
}

impl CollectionStore {
    /// Fills a page of recent observations. While there is no place for them the cursor stays, and
    /// the reason is counted.
    pub fn backfill_recent_page(
        &mut self,
        active: i64,
        waiting: i64,
        rows: &Vec<Observation>,
        now: i64,
        cursor: Option<(i64, InfoHashV1)>,
    ) -> (page: RecentPage)
        requires
            has_room(old(self).backfill_counters, rows@.len() as int),
        ensures
            ({
                let places = places_of(
                    old(self).fetch_limit,
                    active,
                    old(self).recent.limit,
                    waiting,
                );
                let before = old(self).backfill_counters;
                let after = final(self).backfill_counters;
                if places.total == 0 || places.recent == 0 {
                    let reason = if places.total == 0 {
                        Deferral::TotalCapacity
                    } else {
                        Deferral::FirstAttemptBuffer
                    };
                    &&& page.inserted@.len() == 0
                    &&& page.scanned == 0
                    &&& page.next == cursor
                    &&& counts_deferral(before.total, after.total, reason)
                    &&& counts_deferral(before.interval, after.interval, reason)
                } else {
                    let n = page.scanned as nat;
                    let count = page.inserted@.len();
                    &&& recent_ends(places, rows@, now, n)
                    &&& page.inserted@ == fill_rows(places, rows@, now, recent_wants(), n).1
                    &&& page.next == (if n == 0 {
                        None
                    } else {
                        Some((rows@[n - 1].first_seen, rows@[n - 1].hash))
                    })
                    &&& after.total == (BackfillSnapshot {
                        recent_scanned: (before.total.recent_scanned + n) as u64,
                        recent_inserted: (before.total.recent_inserted + count) as u64,
                        ..before.total
                    })
                    &&& after.interval == (BackfillSnapshot {
                        recent_scanned: (before.interval.recent_scanned + n) as u64,
                        recent_inserted: (before.interval.recent_inserted + count) as u64,
                        ..before.interval
                    })
                }
            }),
            final(self).backfill_counters.well_formed(),
            final(self).fetch_limit == old(self).fetch_limit,
            final(self).recent == old(self).recent,
            final(self).observed_samples == old(self).observed_samples,
    {
        let mut places = Admission::load(self.fetch_limit, active, self.recent.limit, waiting);
        let ghost start = places;
        assert(start == places_of(self.fetch_limit, active, self.recent.limit, waiting));
        if let Some(reason) = places.recent_blocked() {
            self.backfill_counters.defer(reason, 1);
            return RecentPage { inserted: Vec::new(), scanned: 0, next: cursor };
        }
        let filled = fill_recent(&mut places, rows, now);
        proof {
            lemma_inserted_bounded(start, rows@, now, recent_wants(), filled.scanned as nat);
        }
        let next = if filled.scanned == 0 {
            None
        } else {
            let row = rows[filled.scanned - 1];
            Some((row.first_seen, row.hash))
        };
        self.backfill_counters.add_recent(filled.scanned as u64, filled.inserted.len() as u64);
        RecentPage { inserted: filled.inserted, scanned: filled.scanned, next }
    }

    /// Fills a page of the history. While there is no place for it the cursor stays, and the reason
    /// is counted.
    pub fn backfill_page(
        &mut self,
        active: i64,
        waiting: i64,
        rows: &Vec<Observation>,
        now: i64,
        cursor: Option<InfoHashV1>,
    ) -> (page: HistoryPage)
        requires
            has_room(old(self).backfill_counters, rows@.len() as int),
        ensures
            ({
                let limit = old(self).recent.limit;
                let places = places_of(old(self).fetch_limit, active, limit, waiting);
                let before = old(self).backfill_counters;
                let after = final(self).backfill_counters;
                if places.room(false) <= 0 {
                    let reason = if places.total == 0 {
                        Deferral::TotalCapacity
                    } else {
                        Deferral::HistoryReserve
                    };
                    &&& page.inserted@.len() == 0
                    &&& page.scanned == 0
                    &&& page.next == cursor
                    &&& counts_deferral(before.total, after.total, reason)
                    &&& counts_deferral(before.interval, after.interval, reason)
                } else {
                    let n = page.scanned as nat;
                    let count = page.inserted@.len();
                    &&& history_ends(places, rows@, now, limit as int, n)
                    &&& page.inserted@ == fill_rows(
                        places,
                        rows@,
                        now,
                        history_wants(limit as int, now),
                        n,
                    ).1
                    &&& page.next == (if n == 0 {
                        None
                    } else {
                        Some(rows@[n - 1].hash)
                    })
                    &&& after.total == (BackfillSnapshot {
                        history_scanned: (before.total.history_scanned + n) as u64,
                        history_inserted: (before.total.history_inserted + count) as u64,
                        ..before.total
                    })
                    &&& after.interval == (BackfillSnapshot {
                        history_scanned: (before.interval.history_scanned + n) as u64,
                        history_inserted: (before.interval.history_inserted + count) as u64,
                        ..before.interval
                    })
                }
            }),
            final(self).backfill_counters.well_formed(),
            final(self).fetch_limit == old(self).fetch_limit,
            final(self).recent == old(self).recent,
            final(self).observed_samples == old(self).observed_samples,
    {
        let limit: usize = self.recent.limit;
        let mut places = Admission::load(self.fetch_limit, active, limit, waiting);
        let ghost start = places;
        assert(start == places_of(self.fetch_limit, active, limit, waiting));
        if let Some(reason) = places.history_blocked() {
            self.backfill_counters.defer(reason, 1);
            let next = history_cursor(true, cursor, rows, 0);
            return HistoryPage { inserted: Vec::new(), scanned: 0, next };
        }
        let filled = fill_history(&mut places, rows, now, limit);
        proof {
            lemma_inserted_bounded(
                start,
                rows@,
                now,
                history_wants(limit as int, now),
                filled.scanned as nat,
            );
        }
        let next = history_cursor(false, cursor, rows, filled.scanned);
        self.backfill_counters.add_history(filled.scanned as u64, filled.inserted.len() as u64);
        HistoryPage { inserted: filled.inserted, scanned: filled.scanned, next }
    }
}

/// A result is stored exactly where it answers the job, the worker still has the job, the store does
/// not object, and the bytes that are there, if any, are the same. A worker that lost its job is
/// told so, whatever else would stand in the way but the wrong hash.
pub proof fn lemma_completion(
    row: Option<JobRow>,
    checked: Result<(), StoreError>,
    stored: Option<Seq<u8>>,
    generation: i64,
    answers: bool,
    info: Seq<u8>,
)
    ensures
        ({
            let result = completion(row, checked, stored, generation, answers, info);
            let held = row is Some && row->0.state is Running && row->0.generation == generation;
            &&& result == Ok::<UpdateResult, StoreError>(UpdateResult::Applied) <==> answers && held
                && checked is Ok && (stored is Some ==> stored->0 == info)
            &&& result == Ok::<UpdateResult, StoreError>(UpdateResult::Stale) <==> answers && !held
            &&& !answers ==> result == Err::<UpdateResult, StoreError>(StoreError::Conflict)
            &&& answers && held && checked is Err ==> result == Err::<UpdateResult, StoreError>(
                checked->Err_0,
            )
            &&& answers && held && checked is Ok && stored is Some && stored->0 != info ==> result
                == Err::<UpdateResult, StoreError>(StoreError::Conflict)
        }),
{
}

/// An announcement is taken in while fewer jobs are active than there may be, and for a job that is
/// active also where all places are taken.
pub proof fn lemma_takes_announcement(job: Option<JobRow>, limit: usize, active: i64)
    requires
        0 <= active,
    ensures
        takes_announcement(job, limit, active) <==> active < limit || (job is Some && (
        job->0.state is Pending || job->0.state is Running || job->0.state is RetryWait)),
{
}

/// The places of a page: what the active jobs leave of the limit. Where a reserve is kept, recent
/// hashes have what those that wait leave of it, and the others what stays above the reserve, which
/// leaves them at least one place of the whole limit.
pub proof fn lemma_places(limit: usize, active: i64, recent_limit: usize, waiting: i64)
    requires
        0 <= active,
        0 <= waiting,
    ensures
        ({
            let places = places_of(limit, active, recent_limit, waiting);
            let reserve = if recent_limit < limit {
                recent_limit as int
            } else if limit > 0 {
                limit - 1
            } else {
                0
            };
            &&& places.total == if active < limit { limit - active } else { 0 }
            &&& recent_limit == 0 ==> places.recent == places.total && places.history
                == places.total && !places.enabled
            &&& recent_limit > 0 ==> {
                &&& places.enabled
                &&& places.recent == if waiting < recent_limit { recent_limit - waiting } else { 0 }
                &&& places.history == if reserve < places.total { places.total - reserve } else { 0 }
            }
        }),
{
}

/// A page of recent rows ends at the first row where nothing is left for it, and else at its end.
pub proof fn lemma_recent_ends(places: Admission, rows: Seq<Observation>, now: i64, n: nat, k: int)
    requires
        recent_ends(places, rows, now, n),
        0 <= k <= n,
    ensures
        n <= rows.len(),
        ({
            let left = fill_rows(places, rows, now, recent_wants(), k as nat).0;
            &&& k < n ==> left.total > 0 && left.recent > 0
            &&& k == n && n < rows.len() ==> left.total == 0 || left.recent == 0
        }),
{
}

/// A page of the history ends at the first row where nothing is left for it, and else at its end.
pub proof fn lemma_history_ends(
    places: Admission,
    rows: Seq<Observation>,
    now: i64,
    recent_limit: int,
    n: nat,
    k: int,
)
    requires
        history_ends(places, rows, now, recent_limit, n),
        0 <= k <= n,
    ensures
        n <= rows.len(),
        ({
            let left = fill_rows(places, rows, now, history_wants(recent_limit, now), k as nat).0;
            let open = left.total > 0 && (!left.enabled || left.history > 0);
            &&& k < n ==> open
            &&& k == n && n < rows.len() ==> !open
        }),
{
}

/// A deferral is counted once under its reason, and nothing else is.
pub proof fn lemma_deferral_counted(
    before: BackfillSnapshot,
    after: BackfillSnapshot,
    reason: Deferral,
)
    requires
        counts_deferral(before, after, reason),
    ensures
        after.recent_scanned == before.recent_scanned,
        after.recent_inserted == before.recent_inserted,
        after.history_scanned == before.history_scanned,
        after.history_inserted == before.history_inserted,
        ({
            let (old_counts, new_counts) = (before.deferrals, after.deferrals);
            &&& new_counts.total_capacity == old_counts.total_capacity + if reason
                is TotalCapacity {
                1int
            } else {
                0
            }
            &&& new_counts.first_attempt_buffer == old_counts.first_attempt_buffer + if reason
                is FirstAttemptBuffer {
                1int
            } else {
                0
            }
            &&& new_counts.history_reserve == old_counts.history_reserve + if reason
                is HistoryReserve {
                1int
            } else {
                0
            }
            &&& new_counts.sample_waiting_backfill == old_counts.sample_waiting_backfill
                + if reason is SampleWaitingBackfill {
                1int
            } else {
                0
            }
        }),
{
    let counts = after.deferrals;
    assert(counts.of(Deferral::TotalCapacity) == counts.total_capacity);
    assert(counts.of(Deferral::FirstAttemptBuffer) == counts.first_attempt_buffer);
    assert(counts.of(Deferral::HistoryReserve) == counts.history_reserve);
    assert(counts.of(Deferral::SampleWaitingBackfill) == counts.sample_waiting_backfill);
}

/// The bytes that are stored are those of the vector that is there.
pub proof fn lemma_stored_bytes(stored: Option<Vec<u8>>)
    ensures
        stored_bytes(stored) is Some <==> stored is Some,
        stored matches Some(bytes) ==> stored_bytes(stored) == Some(bytes@),
{
}

} // verus!
