//! How many jobs may be created, and for whom the places are kept.

use crate::jobs::claim::{is_recent, recent};
use crate::jobs::model::JobRow;
use crate::jobs::transitions::{job_step, JobStep};
use vstd::prelude::*;

verus! {

/// What is left of a limit once `taken` of it is used.
pub open spec fn left_of(limit: int, taken: int) -> int {
    if taken < 0 || taken >= limit {
        0
    } else {
        limit - taken
    }
}

/// What is left of a limit once `taken` of it is used. A count that cannot be leaves nothing.
fn take_from(limit: usize, taken: i64) -> (left: usize)
    ensures
        left == left_of(limit as int, taken as int),
{
    if taken < 0 || taken as u128 >= limit as u128 {
        0
    } else {
        limit - taken as usize
    }
}

/// The places that are left for active jobs.
pub fn available(limit: usize, active: i64) -> (left: usize)
    ensures
        left == left_of(limit as int, active as int),
{
    take_from(limit, active)
}

/// Why a job is not created yet.
#[derive(Clone, Copy, Debug, PartialEq, Eq, Structural)]
pub enum Deferral {
    TotalCapacity,
    FirstAttemptBuffer,
    HistoryReserve,
    SampleWaitingBackfill,
}

impl Deferral {
    /// The label of a deferral.
    pub open spec fn text(self) -> Seq<char> {
        match self {
            Deferral::TotalCapacity => "total_capacity"@,
            Deferral::FirstAttemptBuffer => "first_attempt_buffer"@,
            Deferral::HistoryReserve => "history_reserve"@,
            Deferral::SampleWaitingBackfill => "sample_waiting_backfill"@,
        }
    }

    /// The label of the deferral.
    pub fn label(self) -> (label: &'static str)
        ensures
            label@ == self.text(),
    {
        match self {
            Deferral::TotalCapacity => "total_capacity",
            Deferral::FirstAttemptBuffer => "first_attempt_buffer",
            Deferral::HistoryReserve => "history_reserve",
            Deferral::SampleWaitingBackfill => "sample_waiting_backfill",
        }
    }

    /// What the deferral is counted in.
    pub fn unit(self) -> (unit: &'static str)
        ensures
            unit@ == (if self is SampleWaitingBackfill {
                "hash_observation"@
            } else {
                "backfill_call"@
            }),
    {
        match self {
            Deferral::SampleWaitingBackfill => "hash_observation",
            _ => "backfill_call",
        }
    }
}

/// What becomes of a hash that asks for a job.
#[derive(Clone, Copy, Debug, PartialEq, Eq, Structural)]
pub enum Enqueued {
    Unchanged,
    Created,
    Revived,
}

/// What becomes of a hash with this job, where `stored` says whether its metadata is there: without
/// a free place nothing; with one, a missing job is created and a rested dormant one revived.
pub open spec fn enqueue_result(job: Option<JobRow>, stored: bool, now: i64, room: int) -> Enqueued {
    if room <= 0 || stored {
        Enqueued::Unchanged
    } else {
        match job {
            None => Enqueued::Created,
            Some(row) => if row.can_revive(now) {
                Enqueued::Revived
            } else {
                Enqueued::Unchanged
            },
        }
    }
}

/// Creates or revives the job of a hash where there is room for it.
pub fn enqueue(job: &mut Option<JobRow>, stored: bool, now: i64, room: usize) -> (result: Enqueued)
    ensures
        result == enqueue_result(*old(job), stored, now, room as int),
        *final(job) == (match result {
            Enqueued::Created => Some(JobRow::created(now)),
            Enqueued::Revived => Some(job_step(old(job)->0, JobStep::Revive(now))),
            Enqueued::Unchanged => *old(job),
        }),
{
    if room == 0 || stored {
        return Enqueued::Unchanged;
    }
    match *job {
        None => {
            *job = Some(JobRow::new(now));
            Enqueued::Created
        },
        Some(row) => {
            let mut row = row;
            if row.revive(now) {
                *job = Some(row);
                Enqueued::Revived
            } else {
                Enqueued::Unchanged
            }
        },
    }
}

/// The places that one batch may fill. The history must not take those that are kept for recent
/// torrents.
#[derive(Clone, Copy, Debug, PartialEq, Eq, Structural)]
pub struct Admission {
    pub total: usize,
    pub recent: usize,
    pub history: usize,
    pub enabled: bool,
}

/// The places that are kept for recent torrents. One place is always left to the history.
pub open spec fn reserve_of(limit: int, recent_limit: int) -> int {
    let rest = if limit > 0 {
        limit - 1
    } else {
        0
    };
    if recent_limit < rest {
        recent_limit
    } else {
        rest
    }
}

impl Admission {
    /// The places that a hash may use.
    pub open spec fn room(self, recent: bool) -> int {
        if !self.enabled {
            self.total as int
        } else {
            let own = if recent {
                self.recent as int
            } else {
                self.history as int
            };
            if own < self.total {
                own
            } else {
                self.total as int
            }
        }
    }

    /// The places once one of them is used.
    pub open spec fn used(self, recent: bool) -> Admission {
        Admission {
            total: if self.total > 0 { (self.total - 1) as usize } else { 0 },
            recent: if recent && self.recent > 0 { (self.recent - 1) as usize } else { self.recent },
            history: if self.history > 0 { (self.history - 1) as usize } else { 0 },
            enabled: self.enabled,
        }
    }

    /// The places after a hash has asked for a job.
    pub open spec fn after(self, result: Enqueued, recent: bool) -> Admission {
        if result is Unchanged {
            self
        } else {
            self.used(recent)
        }
    }

    /// The places of a batch: `active` jobs take up places already, and `waiting` recent ones wait
    /// for their first attempt.
    pub fn load(limit: usize, active: i64, recent_limit: usize, waiting: i64) -> (admission: Admission)
        ensures
            admission.total == left_of(limit as int, active as int),
            admission.enabled == (recent_limit > 0),
            admission.recent == (if recent_limit == 0 {
                admission.total as int
            } else {
                left_of(recent_limit as int, waiting as int)
            }),
            admission.history == left_of(
                admission.total as int,
                reserve_of(limit as int, recent_limit as int),
            ),
    {
        let total: usize = available(limit, active);
        let rest: usize = if limit > 0 {
            limit - 1
        } else {
            0
        };
        let reserve: usize = if recent_limit < rest {
            recent_limit
        } else {
            rest
        };
        let recent: usize = if recent_limit == 0 {
            total
        } else {
            take_from(recent_limit, waiting)
        };
        let history: usize = if reserve >= total {
            0
        } else {
            total - reserve
        };
        Admission { total, recent, history, enabled: recent_limit != 0 }
    }

    /// Why the history may create no job, if it may not.
    pub fn history_blocked(&self) -> (reason: Option<Deferral>)
        ensures
            reason == (if self.total == 0 {
                Some(Deferral::TotalCapacity)
            } else if self.enabled && self.history == 0 {
                Some(Deferral::HistoryReserve)
            } else {
                None
            }),
            reason is None == (self.room(false) > 0),
    {
        if self.total == 0 {
            Some(Deferral::TotalCapacity)
        } else if self.enabled && self.history == 0 {
            Some(Deferral::HistoryReserve)
        } else {
            None
        }
    }

    /// Whether the history may create a job.
    pub fn has_history_room(&self) -> (room: bool)
        ensures
            room == (self.room(false) > 0),
    {
        self.total > 0 && (!self.enabled || self.history > 0)
    }

    /// Why recent torrents may create no job, if they may not.
    pub fn recent_blocked(&self) -> (reason: Option<Deferral>)
        ensures
            reason == (if self.total == 0 {
                Some(Deferral::TotalCapacity)
            } else if self.recent == 0 {
                Some(Deferral::FirstAttemptBuffer)
            } else {
                None
            }),
    {
        if self.total == 0 {
            Some(Deferral::TotalCapacity)
        } else if self.recent == 0 {
            Some(Deferral::FirstAttemptBuffer)
        } else {
            None
        }
    }

    /// Uses up a place.
    fn use_place(&mut self, recent: bool)
        ensures
            *final(self) == old(self).used(recent),
    {
        if self.total > 0 {
            self.total = self.total - 1;
        }
        if self.history > 0 {
            self.history = self.history - 1;
        }
        if recent && self.recent > 0 {
            self.recent = self.recent - 1;
        }
    }

    /// Creates or revives the job of a hash where its kind has a place left.
    pub fn enqueue(&mut self, job: &mut Option<JobRow>, stored: bool, first_seen: i64, now: i64) -> (result:
        Enqueued)
        ensures
            result == enqueue_result(
                *old(job),
                stored,
                now,
                old(self).room(is_recent(first_seen, now)),
            ),
            *final(self) == old(self).after(result, is_recent(first_seen, now)),
            *final(job) == (match result {
                Enqueued::Created => Some(JobRow::created(now)),
                Enqueued::Revived => Some(job_step(old(job)->0, JobStep::Revive(now))),
                Enqueued::Unchanged => *old(job),
            }),
    {
        let is_new = recent(first_seen, now);
        let mut room: usize = self.total;
        if self.enabled {
            let own: usize = if is_new {
                self.recent
            } else {
                self.history
            };
            if own < room {
                room = own;
            }
        }
        let result = enqueue(job, stored, now, room);
        if result != Enqueued::Unchanged {
            self.use_place(is_new);
        }
        result
    }

    /// Takes note of an observed hash. While places are kept for recent torrents an observation
    /// only revives dormant jobs: what is new waits for the backfill, which the result reports.
    pub fn observe(&mut self, job: &mut Option<JobRow>, stored: bool, first_seen: i64, now: i64) -> (waits:
        bool)
        ensures
            ({
                let limited = old(self).enabled;
                let asleep = *old(job) matches Some(row) && row.state is Dormant;
                let recent = is_recent(first_seen, now);
                let result = if !limited {
                    enqueue_result(*old(job), stored, now, old(self).room(recent))
                } else if asleep {
                    enqueue_result(*old(job), stored, now, old(self).total as int)
                } else {
                    Enqueued::Unchanged
                };
                &&& waits == (limited && *old(job) is None && !stored)
                &&& *final(self) == old(self).after(result, !limited && recent)
                &&& *final(job) == (match result {
                    Enqueued::Created => Some(JobRow::created(now)),
                    Enqueued::Revived => Some(job_step(old(job)->0, JobStep::Revive(now))),
                    Enqueued::Unchanged => *old(job),
                })
            }),
    {
        if !self.enabled {
            let _ = self.enqueue(job, stored, first_seen, now);
            return false;
        }
        let waits = job.is_none() && !stored;
        if let Some(row) = *job {
            if row.state == crate::inspection::JobState::Dormant {
                let result = enqueue(job, stored, now, self.total);
                if result != Enqueued::Unchanged {
                    self.use_place(false);
                }
            }
        }
        waits
    }
}

/// A batch never fills more places than it has: each job takes one of those that are left.
pub proof fn lemma_place_taken(admission: Admission, job: Option<JobRow>, stored: bool, recent: bool, now: i64)
    ensures
        ({
            let result = enqueue_result(job, stored, now, admission.room(recent));
            let after = admission.after(result, recent);
            &&& !(result is Unchanged) ==> admission.total > 0 && after.total == admission.total - 1
            &&& result is Unchanged ==> after == admission
        }),
{
}

/// A hash that is not recent never takes a place that is kept for recent ones.
pub proof fn lemma_reserve_kept(admission: Admission, job: Option<JobRow>, stored: bool, now: i64)
    requires
        admission.enabled,
        admission.history <= admission.total,
    ensures
        ({
            let result = enqueue_result(job, stored, now, admission.room(false));
            let after = admission.after(result, false);
            &&& after.total - after.history == admission.total - admission.history
            &&& after.history <= after.total
        }),
{
}

/// What is left of a limit and what was taken of it are together the limit. Where all of it or more
/// was taken, or the count cannot be, nothing is left.
pub proof fn lemma_left(limit: int, taken: int)
    requires
        0 <= limit,
    ensures
        0 <= taken <= limit ==> left_of(limit, taken) + taken == limit,
        taken < 0 || taken > limit ==> left_of(limit, taken) == 0,
{
}

/// A hash gets a job exactly where there is a place, its metadata is not stored and it has none, and
/// its job is revived exactly where it has been dormant for a day or longer.
pub proof fn lemma_enqueued(job: Option<JobRow>, stored: bool, now: i64, room: int)
    ensures
        enqueue_result(job, stored, now, room) is Created <==> room > 0 && !stored && job is None,
        enqueue_result(job, stored, now, room) is Revived <==> room > 0 && !stored && job is Some
            && job->0.state is Dormant && now - job->0.updated_at >= 24 * 60 * 60 * 1000,
{
}

/// The reserve is as large as it was asked for, but leaves one place to other hashes where there is
/// any.
pub proof fn lemma_reserve(limit: int, recent_limit: int)
    requires
        0 <= limit,
        0 <= recent_limit,
    ensures
        0 <= reserve_of(limit, recent_limit) <= recent_limit,
        limit > 0 ==> reserve_of(limit, recent_limit) < limit,
        limit == 0 ==> reserve_of(limit, recent_limit) == 0,
        limit > 0 && reserve_of(limit, recent_limit) < recent_limit ==> reserve_of(
            limit,
            recent_limit,
        ) == limit - 1,
{
}

/// A hash has as much room as there are places, and where a reserve is kept no more than its own
/// kind has. A place that is taken is gone for all kinds, but a hash that is not recent leaves the
/// recent ones theirs.
pub proof fn lemma_room(places: Admission, recent: bool)
    ensures
        places.room(recent) <= places.total,
        !places.enabled ==> places.room(recent) == places.total,
        places.enabled && recent ==> places.room(recent) <= places.recent,
        places.enabled && !recent ==> places.room(recent) <= places.history,
        places.room(recent) < places.total ==> places.room(recent) == if recent {
            places.recent
        } else {
            places.history
        },
        ({
            let used = places.used(recent);
            &&& places.total > 0 ==> used.total == places.total - 1
            &&& places.total == 0 ==> used.total == 0
            &&& places.history > 0 ==> used.history == places.history - 1
            &&& places.history == 0 ==> used.history == 0
            &&& recent && places.recent > 0 ==> used.recent == places.recent - 1
            &&& !recent || places.recent == 0 ==> used.recent == places.recent
            &&& used.enabled == places.enabled
            &&& places.after(Enqueued::Created, recent) == used
            &&& places.after(Enqueued::Revived, recent) == used
            &&& places.after(Enqueued::Unchanged, recent) == places
        }),
{
}

/// Each reason has a name of its own.
pub proof fn lemma_deferral_names()
    ensures
        Deferral::TotalCapacity.text() == "total_capacity"@,
        Deferral::FirstAttemptBuffer.text() == "first_attempt_buffer"@,
        Deferral::HistoryReserve.text() == "history_reserve"@,
        Deferral::SampleWaitingBackfill.text() == "sample_waiting_backfill"@,
{
}

} // verus!
