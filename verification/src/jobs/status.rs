//! What is told of the active jobs: how many are due, how many wait for their first attempt, and for
//! how long.

use crate::inspection::JobState;
use crate::jobs::claim::{is_recent, recent};
use crate::jobs::model::RECENT_MS;
use crate::jobs::schedule::Candidate;
use vstd::prelude::*;

verus! {

/// What of the jobs is due.
#[derive(Clone, Copy, Debug, PartialEq, Eq, Structural)]
pub struct DueStats {
    pub count: u64,
    /// How long the oldest has been due.
    pub oldest_wait_ms: i128,
    /// How many have a valid address.
    pub fresh: u64,
}

/// All jobs that have never been claimed, recent or not, hinted or not.
#[derive(Clone, Copy, Debug, PartialEq, Eq, Structural)]
pub struct FirstAttemptBacklog {
    pub waiting: u64,
    pub older_than_30m: u64,
    /// How long ago the oldest was first seen; a time to come counts as now.
    pub oldest_discovery_age_ms: Option<i128>,
    /// How long the oldest has been due, perhaps another one.
    pub oldest_due_wait_ms: Option<i128>,
    pub not_due: u64,
}

/// What is told of the active jobs at a moment.
#[derive(Clone, Copy, Debug, PartialEq, Eq, Structural)]
pub struct JobStatus {
    pub due: DueStats,
    pub recent_active: u64,
    pub first_attempt_waiting: u64,
    pub backlog: FirstAttemptBacklog,
}

impl Candidate {
    /// Whether the job waits to be claimed.
    pub open spec fn waits(self) -> bool {
        self.row.state is Pending || self.row.state is RetryWait
    }

    /// Whether the job waits for its first attempt.
    pub open spec fn waits_first(self) -> bool {
        self.waits() && self.row.generation == 0
    }

    /// Whether the job fills the buffer of recent torrents: it waits for its first attempt, is recent
    /// and has no valid address.
    pub open spec fn fills_buffer(self, now: i64) -> bool {
        self.waits_first() && is_recent(self.first_seen, now) && !self.hinted
    }
}

/// How many jobs have a property.
pub open spec fn count_of(jobs: Seq<Candidate>, meets: spec_fn(Candidate) -> bool) -> int
    decreases jobs.len(),
{
    if jobs.len() == 0 {
        0
    } else {
        count_of(jobs.drop_last(), meets) + if meets(jobs.last()) {
            1int
        } else {
            0
        }
    }
}

/// The least of a value over the jobs that have a property.
pub open spec fn least_of(
    jobs: Seq<Candidate>,
    meets: spec_fn(Candidate) -> bool,
    value: spec_fn(Candidate) -> i64,
) -> Option<i64>
    decreases jobs.len(),
{
    if jobs.len() == 0 {
        None
    } else {
        let rest = least_of(jobs.drop_last(), meets, value);
        if !meets(jobs.last()) {
            rest
        } else {
            match rest {
                Some(least) => if value(jobs.last()) < least {
                    Some(value(jobs.last()))
                } else {
                    rest
                },
                None => Some(value(jobs.last())),
            }
        }
    }
}

/// Due jobs.
pub open spec fn is_due_at(now: i64) -> spec_fn(Candidate) -> bool {
    |job: Candidate| job.row.is_due(now)
}

/// Due jobs with a valid address.
pub open spec fn is_fresh_due(now: i64) -> spec_fn(Candidate) -> bool {
    |job: Candidate| job.row.is_due(now) && job.hinted
}

/// Active jobs of recent torrents.
pub open spec fn is_recent_active(now: i64) -> spec_fn(Candidate) -> bool {
    |job: Candidate| job.row.is_active() && is_recent(job.first_seen, now)
}

/// Jobs that fill the buffer of recent torrents.
pub open spec fn in_buffer(now: i64) -> spec_fn(Candidate) -> bool {
    |job: Candidate| job.fills_buffer(now)
}

/// Jobs that wait for their first attempt.
pub open spec fn in_backlog() -> spec_fn(Candidate) -> bool {
    |job: Candidate| job.waits_first()
}

/// Jobs that wait for their first attempt and were first seen too long ago to be recent.
pub open spec fn is_old(now: i64) -> spec_fn(Candidate) -> bool {
    |job: Candidate| job.waits_first() && job.first_seen < now - RECENT_MS
}

/// Jobs that wait for their first attempt and are not due yet.
pub open spec fn is_early(now: i64) -> spec_fn(Candidate) -> bool {
    |job: Candidate| job.waits_first() && job.row.due_at > now
}

/// When a job is due.
pub open spec fn due_time() -> spec_fn(Candidate) -> i64 {
    |job: Candidate| job.row.due_at
}

/// When a torrent was first seen.
pub open spec fn seen_time() -> spec_fn(Candidate) -> i64 {
    |job: Candidate| job.first_seen
}

/// The time since a moment, none where it is still to come.
pub open spec fn since(at: i64, now: i64) -> int {
    if at < now {
        now - at
    } else {
        0
    }
}

/// Whether a status tells of these jobs.
pub open spec fn tells(status: JobStatus, jobs: Seq<Candidate>, now: i64) -> bool {
    &&& status.due.count == count_of(jobs, is_due_at(now))
    &&& status.due.oldest_wait_ms == match least_of(jobs, is_due_at(now), due_time()) {
        Some(at) => since(at, now),
        None => 0,
    }
    &&& status.due.fresh == count_of(jobs, is_fresh_due(now))
    &&& status.recent_active == count_of(jobs, is_recent_active(now))
    &&& status.first_attempt_waiting == count_of(jobs, in_buffer(now))
    &&& status.backlog.waiting == count_of(jobs, in_backlog())
    &&& status.backlog.older_than_30m == count_of(jobs, is_old(now))
    &&& status.backlog.not_due == count_of(jobs, is_early(now))
    &&& match least_of(jobs, in_backlog(), seen_time()) {
        Some(at) => status.backlog.oldest_discovery_age_ms is Some
            && status.backlog.oldest_discovery_age_ms->0 == since(at, now),
        None => status.backlog.oldest_discovery_age_ms is None,
    }
    &&& match least_of(jobs, in_backlog(), due_time()) {
        Some(at) => status.backlog.oldest_due_wait_ms is Some
            && status.backlog.oldest_due_wait_ms->0 == since(at, now),
        None => status.backlog.oldest_due_wait_ms is None,
    }
}

/// No more jobs have a property than there are.
proof fn lemma_count_bounded(jobs: Seq<Candidate>, meets: spec_fn(Candidate) -> bool)
    ensures
        0 <= count_of(jobs, meets) <= jobs.len(),
    decreases jobs.len(),
{
    if jobs.len() > 0 {
        lemma_count_bounded(jobs.drop_last(), meets);
    }
}

fn elapsed(at: i64, now: i64) -> (time: i128)
    ensures
        time == since(at, now),
{
    if at < now {
        now as i128 - at as i128
    } else {
        0
    }
}

fn lesser(least: Option<i64>, value: i64) -> (lesser: Option<i64>)
    ensures
        lesser == match least {
            Some(least) => if value < least {
                Some(value)
            } else {
                Some(least)
            },
            None => Some(value),
        },
{
    match least {
        Some(least) => if value < least {
            Some(value)
        } else {
            Some(least)
        },
        None => Some(value),
    }
}

/// Tells of the active jobs.
pub fn job_status(jobs: &Vec<Candidate>, now: i64) -> (status: JobStatus)
    ensures
        tells(status, jobs@, now),
{
    let mut count: u64 = 0;
    let mut fresh: u64 = 0;
    let mut recent_active: u64 = 0;
    let mut buffer: u64 = 0;
    let mut waiting: u64 = 0;
    let mut old_ones: u64 = 0;
    let mut not_due: u64 = 0;
    let mut oldest_due: Option<i64> = None;
    let mut oldest_seen: Option<i64> = None;
    let mut oldest_first: Option<i64> = None;
    for i in 0..jobs.len()
        invariant
            count == count_of(jobs@.take(i as int), is_due_at(now)),
            fresh == count_of(jobs@.take(i as int), is_fresh_due(now)),
            recent_active == count_of(jobs@.take(i as int), is_recent_active(now)),
            buffer == count_of(jobs@.take(i as int), in_buffer(now)),
            waiting == count_of(jobs@.take(i as int), in_backlog()),
            old_ones == count_of(jobs@.take(i as int), is_old(now)),
            not_due == count_of(jobs@.take(i as int), is_early(now)),
            oldest_due == least_of(jobs@.take(i as int), is_due_at(now), due_time()),
            oldest_seen == least_of(jobs@.take(i as int), in_backlog(), seen_time()),
            oldest_first == least_of(jobs@.take(i as int), in_backlog(), due_time()),
    {
        let job = jobs[i];
        proof {
            let seen = jobs@.take(i as int);
            assert(jobs@.take(i + 1).drop_last() =~= seen);
            assert(jobs@.take(i + 1).last() == job);
            lemma_count_bounded(seen, is_due_at(now));
            lemma_count_bounded(seen, is_fresh_due(now));
            lemma_count_bounded(seen, is_recent_active(now));
            lemma_count_bounded(seen, in_buffer(now));
            lemma_count_bounded(seen, in_backlog());
            lemma_count_bounded(seen, is_old(now));
            lemma_count_bounded(seen, is_early(now));
        }
        let is_new = recent(job.first_seen, now);
        let waits = job.row.state == JobState::Pending || job.row.state == JobState::RetryWait;
        if waits && job.row.due_at <= now {
            count = count + 1;
            oldest_due = lesser(oldest_due, job.row.due_at);
            if job.hinted {
                fresh = fresh + 1;
            }
        }
        if is_new && (waits || job.row.state == JobState::Running) {
            recent_active = recent_active + 1;
        }
        if waits && job.row.generation == 0 {
            waiting = waiting + 1;
            oldest_seen = lesser(oldest_seen, job.first_seen);
            oldest_first = lesser(oldest_first, job.row.due_at);
            if is_new && !job.hinted {
                buffer = buffer + 1;
            }
            if (job.first_seen as i128) < now as i128 - RECENT_MS as i128 {
                old_ones = old_ones + 1;
            }
            if job.row.due_at > now {
                not_due = not_due + 1;
            }
        }
    }
    assert(jobs@.take(jobs@.len() as int) =~= jobs@);
    JobStatus {
        due: DueStats {
            count,
            oldest_wait_ms: match oldest_due {
                Some(at) => elapsed(at, now),
                None => 0,
            },
            fresh,
        },
        recent_active,
        first_attempt_waiting: buffer,
        backlog: FirstAttemptBacklog {
            waiting,
            older_than_30m: old_ones,
            oldest_discovery_age_ms: match oldest_seen {
                Some(at) => Some(elapsed(at, now)),
                None => None,
            },
            oldest_due_wait_ms: match oldest_first {
                Some(at) => Some(elapsed(at, now)),
                None => None,
            },
            not_due,
        },
    }
}

/// The jobs that fill the buffer are part of the backlog and of the recent active jobs, and the old
/// ones and those that are not due are part of the backlog.
pub proof fn lemma_counts_nest(jobs: Seq<Candidate>, now: i64)
    ensures
        count_of(jobs, in_buffer(now)) <= count_of(jobs, in_backlog()),
        count_of(jobs, in_buffer(now)) <= count_of(jobs, is_recent_active(now)),
        count_of(jobs, in_buffer(now)) + count_of(jobs, is_old(now)) <= count_of(jobs, in_backlog()),
        count_of(jobs, is_early(now)) <= count_of(jobs, in_backlog()),
        count_of(jobs, is_fresh_due(now)) <= count_of(jobs, is_due_at(now)),
    decreases jobs.len(),
{
    if jobs.len() > 0 {
        lemma_counts_nest(jobs.drop_last(), now);
    }
}

/// What is told of no jobs at all is that there are none.
pub proof fn lemma_status_of_none(status: JobStatus, now: i64)
    requires
        tells(status, Seq::empty(), now),
    ensures
        status.due == (DueStats { count: 0, oldest_wait_ms: 0, fresh: 0 }),
        status.recent_active == 0,
        status.first_attempt_waiting == 0,
        status.backlog.waiting == 0,
        status.backlog.older_than_30m == 0,
        status.backlog.not_due == 0,
        status.backlog.oldest_discovery_age_ms is None,
        status.backlog.oldest_due_wait_ms is None,
{
}

/// One job more changes what is told as follows. A waiting job whose time has come is due, and fresh
/// where it has a hint; the longest wait is that of the oldest. An active job is recent for half an
/// hour after its hash was first seen. A waiting job that was never claimed joins the backlog, and
/// also the buffer where it is recent and has no hint.
pub proof fn lemma_status_with(
    before: JobStatus,
    after: JobStatus,
    jobs: Seq<Candidate>,
    job: Candidate,
    now: i64,
)
    requires
        tells(before, jobs, now),
        tells(after, jobs.push(job), now),
    ensures
        ({
            let waits = job.row.state is Pending || job.row.state is RetryWait;
            let due = waits && job.row.due_at <= now;
            let first = waits && job.row.generation == 0;
            let age = now - job.first_seen;
            let recent = 0 <= age <= 30 * 60 * 1000;
            let late = now - job.row.due_at;
            &&& after.due.count == before.due.count + if due { 1int } else { 0 }
            &&& after.due.fresh == before.due.fresh + if due && job.hinted { 1int } else { 0 }
            &&& after.due.oldest_wait_ms == if due && late > before.due.oldest_wait_ms {
                late
            } else {
                before.due.oldest_wait_ms as int
            }
            &&& after.recent_active == before.recent_active + if (waits
                || job.row.state is Running) && recent {
                1int
            } else {
                0
            }
            &&& after.first_attempt_waiting == before.first_attempt_waiting + if first && recent
                && !job.hinted {
                1int
            } else {
                0
            }
            &&& after.backlog.waiting == before.backlog.waiting + if first { 1int } else { 0 }
            &&& after.backlog.older_than_30m == before.backlog.older_than_30m + if first && age > 30
                * 60 * 1000 {
                1int
            } else {
                0
            }
            &&& after.backlog.not_due == before.backlog.not_due + if first && job.row.due_at > now {
                1int
            } else {
                0
            }
            &&& !first ==> after.backlog.oldest_discovery_age_ms
                == before.backlog.oldest_discovery_age_ms && after.backlog.oldest_due_wait_ms
                == before.backlog.oldest_due_wait_ms
            &&& first ==> {
                let oldest = match before.backlog.oldest_discovery_age_ms {
                    Some(oldest) => oldest as int,
                    None => 0,
                };
                &&& after.backlog.oldest_discovery_age_ms is Some
                &&& after.backlog.oldest_discovery_age_ms->0 == if age > oldest {
                    age
                } else {
                    oldest
                }
            }
            &&& first ==> {
                let longest = match before.backlog.oldest_due_wait_ms {
                    Some(longest) => longest as int,
                    None => 0,
                };
                &&& after.backlog.oldest_due_wait_ms is Some
                &&& after.backlog.oldest_due_wait_ms->0 == if late > longest {
                    late
                } else {
                    longest
                }
            }
        }),
{
    let all = jobs.push(job);
    assert(all.drop_last() =~= jobs);
    assert(all.last() == job);
    lemma_least_meets(jobs, is_due_at(now), due_time());
}

/// The least value is that of a job that meets the condition.
proof fn lemma_least_meets(
    jobs: Seq<Candidate>,
    meets: spec_fn(Candidate) -> bool,
    value: spec_fn(Candidate) -> i64,
)
    ensures
        least_of(jobs, meets, value) matches Some(least) ==> exists|i: int|
            0 <= i < jobs.len() && meets(#[trigger] jobs[i]) && value(jobs[i]) == least,
    decreases jobs.len(),
{
    if jobs.len() > 0 {
        let rest = jobs.drop_last();
        lemma_least_meets(rest, meets, value);
        if let Some(least) = least_of(jobs, meets, value) {
            if least_of(rest, meets, value) == Some(least) {
                let i = choose|i: int|
                    0 <= i < rest.len() && meets(#[trigger] rest[i]) && value(rest[i]) == least;
                assert(rest[i] == jobs[i]);
                assert(meets(jobs[i]) && value(jobs[i]) == least);
            } else {
                let last = jobs.len() - 1;
                assert(meets(jobs[last]) && value(jobs[last]) == least);
            }
        }
    }
}

} // verus!
