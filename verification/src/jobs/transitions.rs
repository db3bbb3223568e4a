//! The transitions of a fetch job. The generation names a claim: only the claim that stands may
//! change the job.

use crate::failure::AttemptFailure;
use crate::inspection::JobState;
use crate::jobs::model::{
    JobRow, RetryReason, UpdateResult, DORMANT_REACTIVATION_DELAY_MS, LOCAL_RETRY_DELAY_MS,
    MAX_FAILED_ATTEMPTS, RETRY_BASE_DELAY_MS,
};
use crate::random::random_up_to;
use vstd::arithmetic::power2::pow2;
use vstd::prelude::*;

verus! {

/// The jitter that leaves a wait as it is. Jitters are counted in billionths.
pub const JITTER_UNIT: u32 = 1_000_000_000;

/// The least jitter.
pub const LEAST_JITTER: u32 = 800_000_000;

/// How far the greatest jitter is above the least.
pub const JITTER_RANGE: u32 = 400_000_000;

/// The sum of two times, held at the ends of the range.
pub open spec fn later(at: i64, delay: i64) -> int {
    if at + delay > i64::MAX {
        i64::MAX as int
    } else if at + delay < i64::MIN {
        i64::MIN as int
    } else {
        at + delay
    }
}

/// The sum of two times, held at the ends of the range.
pub fn add_time(at: i64, delay: i64) -> (sum: i64)
    ensures
        sum == later(at, delay),
{
    match at.checked_add(delay) {
        Some(sum) => sum,
        None => if delay > 0 {
            i64::MAX
        } else {
            i64::MIN
        },
    }
}

/// The difference of two times, held at the ends of the range.
pub open spec fn earlier(at: i64, delay: i64) -> int {
    if at - delay > i64::MAX {
        i64::MAX as int
    } else if at - delay < i64::MIN {
        i64::MIN as int
    } else {
        at - delay
    }
}

/// The difference of two times, held at the ends of the range.
pub fn sub_time(at: i64, delay: i64) -> (difference: i64)
    ensures
        difference == earlier(at, delay),
{
    match at.checked_sub(delay) {
        Some(difference) => difference,
        None => if delay > 0 {
            i64::MIN
        } else {
            i64::MAX
        },
    }
}

/// The new values of a job whose attempt ended without metadata.
#[derive(Clone, Copy, Debug, PartialEq, Eq, Structural)]
pub struct RetryTransition {
    pub state: JobState,
    pub attempts: u32,
    pub due_at: i64,
}

/// How long a job waits after its `attempts`-th failure, before the jitter: twice as long each time.
pub open spec fn backoff(attempts: nat) -> int {
    RETRY_BASE_DELAY_MS * pow2((attempts - 1) as nat)
}

/// How long a job waits after one more failure than the `attempts` before, before the jitter.
pub fn retry_backoff(attempts: u32) -> (delay: i64)
    requires
        attempts < 32,
    ensures
        delay == backoff((attempts + 1) as nat),
{
    let mut delay: i64 = RETRY_BASE_DELAY_MS;
    proof {
        vstd::arithmetic::power2::lemma2_to64();
    }
    for i in 0..attempts
        invariant
            attempts < 32,
            delay == RETRY_BASE_DELAY_MS * pow2(i as nat),
    {
        proof {
            vstd::arithmetic::power2::lemma_pow2_unfold((i + 1) as nat);
            vstd::arithmetic::power2::lemma2_to64();
            if i + 1 < 32 {
                vstd::arithmetic::power2::lemma_pow2_strictly_increases((i + 1) as nat, 32);
            }
        }
        delay = delay * 2;
    }
    delay
}

/// Whether a jitter is one that a wait gets.
pub open spec fn is_jitter(jitter: u32) -> bool {
    LEAST_JITTER <= jitter <= LEAST_JITTER + JITTER_RANGE
}

/// How long a job waits after its `attempts`-th failure.
pub open spec fn failure_delay(attempts: nat, jitter: u32) -> int {
    backoff(attempts) * jitter / JITTER_UNIT as int
}

/// How long a job waits after one more failure than the `attempts` before.
pub fn retry_delay(attempts: u32, jitter: u32) -> (delay: i64)
    requires
        attempts < 32,
    ensures
        delay == failure_delay((attempts + 1) as nat, jitter),
{
    let base: i64 = retry_backoff(attempts);
    proof {
        lemma_backoff_bounded((attempts + 1) as nat);
        assert(0 <= base * jitter <= 0x8000_0000_0000 * 0x1_0000_0000) by (nonlinear_arith)
            requires
                0 <= base <= 0x8000_0000_0000,
                0 <= jitter <= 0x1_0000_0000,
        ;
    }
    (base as u128 * jitter as u128 / JITTER_UNIT as u128) as i64
}

/// The waits stay small while the failures can be counted.
proof fn lemma_backoff_bounded(attempts: nat)
    requires
        1 <= attempts <= 32,
    ensures
        0 <= backoff(attempts) <= 0x8000_0000_0000,
{
    vstd::arithmetic::power2::lemma2_to64();
    if attempts < 32 {
        vstd::arithmetic::power2::lemma_pow2_strictly_increases((attempts - 1) as nat, 31);
    }
}

/// A jitter moves a wait by a fifth at most.
pub proof fn lemma_jitter_bounded(attempts: nat, jitter: u32)
    requires
        is_jitter(jitter),
    ensures
        backoff(attempts) * 4 / 5 <= failure_delay(attempts, jitter) <= backoff(attempts) * 6 / 5,
{
    let base = backoff(attempts);
    let unit = JITTER_UNIT as int;
    assert(base * LEAST_JITTER <= base * jitter <= base * (LEAST_JITTER + JITTER_RANGE))
        by (nonlinear_arith)
        requires
            base >= 0,
            LEAST_JITTER <= jitter <= LEAST_JITTER + JITTER_RANGE,
    ;
}

/// What follows an attempt that ended without metadata. A failure counts, and waits longer each
/// time; a deferral does not count and waits for the fixed time. With the sixth failure the job
/// becomes dormant.
pub fn retry_transition(attempts: u32, reason: RetryReason, now_ms: i64, jitter: u32) -> (next:
    RetryTransition)
    requires
        reason is Failed ==> attempts < 32,
    ensures
        next.attempts == attempts + (if reason is Failed { 1int } else { 0 }),
        next.state == (if next.attempts >= MAX_FAILED_ATTEMPTS {
            JobState::Dormant
        } else {
            JobState::RetryWait
        }),
        next.due_at == later(
            now_ms,
            if reason is Failed {
                failure_delay((attempts + 1) as nat, jitter) as i64
            } else {
                LOCAL_RETRY_DELAY_MS
            },
        ),
{
    let failed = matches!(reason, RetryReason::Failed(_));
    let delay: i64 = if failed {
        retry_delay(attempts, jitter)
    } else {
        LOCAL_RETRY_DELAY_MS
    };
    let attempts: u32 = if failed {
        attempts + 1
    } else {
        attempts
    };
    RetryTransition {
        state: if attempts >= MAX_FAILED_ATTEMPTS {
            JobState::Dormant
        } else {
            JobState::RetryWait
        },
        attempts,
        due_at: add_time(now_ms, delay),
    }
}

/// What can happen to a stored job.
pub enum JobStep {
    Claim(i64),
    Retry(i64, i64, RetryReason, u32),
    Complete(i64, i64),
    Recover(i64, bool),
    Revive(i64),
    Supersede(i64),
}

/// The job after a step.
pub open spec fn job_step(row: JobRow, step: JobStep) -> JobRow {
    match step {
        JobStep::Claim(now) => if row.is_due(now) {
            JobRow {
                state: JobState::Running,
                generation: (row.generation + 1) as i64,
                updated_at: now,
                ..row
            }
        } else {
            row
        },
        JobStep::Retry(generation, now, reason, jitter) => if row.is_held(generation) {
            let attempts = (row.attempts + if reason is Failed {
                1int
            } else {
                0
            }) as u32;
            JobRow {
                state: if attempts >= MAX_FAILED_ATTEMPTS {
                    JobState::Dormant
                } else {
                    JobState::RetryWait
                },
                attempts,
                generation: row.generation,
                due_at: later(
                    now,
                    if reason is Failed {
                        failure_delay((row.attempts + 1) as nat, jitter) as i64
                    } else {
                        LOCAL_RETRY_DELAY_MS
                    },
                ) as i64,
                updated_at: now,
                error: Some(reason),
            }
        } else {
            row
        },
        JobStep::Complete(generation, now) => if row.is_held(generation) {
            JobRow { state: JobState::Succeeded, updated_at: now, error: None, ..row }
        } else {
            row
        },
        JobStep::Recover(now, stored) => row.recovered(now, stored),
        JobStep::Revive(now) => if row.can_revive(now) {
            JobRow {
                state: JobState::Pending,
                attempts: 0,
                due_at: now,
                updated_at: now,
                error: None,
                ..row
            }
        } else {
            row
        },
        JobStep::Supersede(at) => if row.state is Succeeded {
            row
        } else {
            JobRow {
                state: JobState::Succeeded,
                generation: (row.generation + 1) as i64,
                updated_at: if row.updated_at > at { row.updated_at } else { at },
                error: None,
                ..row
            }
        },
    }
}

impl JobRow {
    /// A new job, due at once.
    pub open spec fn created(now: i64) -> JobRow {
        JobRow {
            state: JobState::Pending,
            attempts: 0,
            generation: 0,
            due_at: now,
            updated_at: now,
            error: None,
        }
    }

    /// A new job, due at once.
    pub fn new(now: i64) -> (row: JobRow)
        ensures
            row == JobRow::created(now),
    {
        JobRow {
            state: JobState::Pending,
            attempts: 0,
            generation: 0,
            due_at: now,
            updated_at: now,
            error: None,
        }
    }

    /// Claims a due job, which gives it the next generation.
    pub fn claim(&mut self, now: i64) -> (claimed: bool)
        requires
            old(self).generation < i64::MAX,
        ensures
            claimed == old(self).is_due(now),
            *final(self) == job_step(*old(self), JobStep::Claim(now)),
    {
        if (self.state == JobState::Pending || self.state == JobState::RetryWait) && self.due_at <= now {
            self.state = JobState::Running;
            self.generation = self.generation + 1;
            self.updated_at = now;
            true
        } else {
            false
        }
    }

    /// Ends the claim `generation` without metadata. A claim that no longer stands changes nothing.
    pub fn retry(&mut self, generation: i64, now: i64, reason: RetryReason, jitter: u32) -> (result:
        UpdateResult)
        requires
            old(self).is_held(generation) && reason is Failed ==> old(self).attempts < 32,
        ensures
            result is Applied == old(self).is_held(generation),
            *final(self) == job_step(*old(self), JobStep::Retry(generation, now, reason, jitter)),
    {
        if self.state != JobState::Running || self.generation != generation {
            return UpdateResult::Stale;
        }
        let next = retry_transition(self.attempts, reason, now, jitter);
        self.state = next.state;
        self.attempts = next.attempts;
        self.due_at = next.due_at;
        self.updated_at = now;
        self.error = Some(reason);
        UpdateResult::Applied
    }

    /// Ends the claim `generation` without metadata, with a jitter that is left to chance.
    pub fn retry_at_random(&mut self, generation: i64, now: i64, reason: RetryReason) -> (result:
        UpdateResult)
        requires
            old(self).is_held(generation) && reason is Failed ==> old(self).attempts < 32,
        ensures
            result is Applied == old(self).is_held(generation),
            exists|jitter: u32| #[trigger]
                is_jitter(jitter) && *final(self) == job_step(
                    *old(self),
                    JobStep::Retry(generation, now, reason, jitter),
                ),
    {
        let jitter: u32 = LEAST_JITTER + random_up_to(JITTER_RANGE);
        assert(is_jitter(jitter));
        self.retry(generation, now, reason, jitter)
    }

    /// Ends the claim `generation` with metadata. A claim that no longer stands changes nothing.
    pub fn complete(&mut self, generation: i64, now: i64) -> (result: UpdateResult)
        ensures
            result is Applied == old(self).is_held(generation),
            *final(self) == job_step(*old(self), JobStep::Complete(generation, now)),
    {
        if self.state != JobState::Running || self.generation != generation {
            return UpdateResult::Stale;
        }
        self.state = JobState::Succeeded;
        self.updated_at = now;
        self.error = None;
        UpdateResult::Applied
    }

    /// What a job is after a restart: one that was running is due at once, under a new generation,
    /// and one whose metadata is stored has succeeded.
    pub open spec fn recovered(self, now: i64, stored: bool) -> JobRow {
        let idle = if self.state is Running {
            JobRow {
                state: JobState::Pending,
                due_at: now,
                updated_at: now,
                generation: (self.generation + 1) as i64,
                ..self
            }
        } else {
            self
        };
        if stored {
            JobRow { state: JobState::Succeeded, error: None, ..idle }
        } else {
            idle
        }
    }

    /// Recovers the job after a restart.
    pub fn recover(&mut self, now: i64, stored: bool)
        requires
            old(self).generation < i64::MAX,
        ensures
            *final(self) == job_step(*old(self), JobStep::Recover(now, stored)),
    {
        if self.state == JobState::Running {
            self.state = JobState::Pending;
            self.due_at = now;
            self.updated_at = now;
            self.generation = self.generation + 1;
        }
        if stored {
            self.state = JobState::Succeeded;
            self.error = None;
        }
    }

    /// Whether an observation wakes the job: it is dormant, and has been for long enough.
    pub open spec fn can_revive(self, now: i64) -> bool {
        self.state is Dormant && self.updated_at <= now - DORMANT_REACTIVATION_DELAY_MS
    }

    /// Wakes a dormant job, which keeps its generation and forgets its failures.
    pub fn revive(&mut self, now: i64) -> (revived: bool)
        ensures
            revived == old(self).can_revive(now),
            *final(self) == job_step(*old(self), JobStep::Revive(now)),
    {
        let rested = (self.updated_at as i128) <= (now as i128) - (DORMANT_REACTIVATION_DELAY_MS as i128);
        if self.state == JobState::Dormant && rested {
            self.state = JobState::Pending;
            self.attempts = 0;
            self.due_at = now;
            self.updated_at = now;
            self.error = None;
            true
        } else {
            false
        }
    }

    /// Ends a job whose metadata came by another way. A claim that still runs no longer stands.
    pub fn supersede(&mut self, at: i64) -> (ended: bool)
        requires
            old(self).generation < i64::MAX,
        ensures
            ended == !(old(self).state is Succeeded),
            *final(self) == job_step(*old(self), JobStep::Supersede(at)),
    {
        if self.state == JobState::Succeeded {
            return false;
        }
        self.state = JobState::Succeeded;
        self.generation = self.generation + 1;
        if self.updated_at <= at {
            self.updated_at = at;
        }
        self.error = None;
        true
    }
}

/// Whether the failures of a job fit its state: all states but dormancy and success leave room for
/// another failure.
pub open spec fn attempts_fit(row: JobRow) -> bool {
    &&& row.attempts <= MAX_FAILED_ATTEMPTS
    &&& !(row.state is Dormant) && !(row.state is Succeeded) ==> row.attempts < MAX_FAILED_ATTEMPTS
}

/// No step lowers the generation of a job, and every step keeps the bound on its failures.
pub proof fn lemma_job_step(row: JobRow, step: JobStep)
    requires
        row.generation < i64::MAX,
        attempts_fit(row),
    ensures
        row.generation <= job_step(row, step).generation <= row.generation + 1,
        attempts_fit(job_step(row, step)),
{
}

/// A claim that stands before a step and not after it never stands again in a later generation: the
/// steps that end a claim without its worker raise the generation.
pub proof fn lemma_stale_claim(row: JobRow, step: JobStep, generation: i64)
    requires
        row.generation < i64::MAX,
        row.generation > generation,
    ensures
        !row.is_held(generation),
        job_step(row, step).generation > generation,
        !job_step(row, step).is_held(generation),
{
}

/// The late result of a worker changes nothing once the job was recovered, claimed anew or ended by
/// another way.
pub proof fn lemma_late_result(row: JobRow, other: JobStep, late: JobStep, generation: i64)
    requires
        row.is_held(generation),
        generation < i64::MAX,
        other is Recover || other is Supersede,
        match late {
            JobStep::Retry(held, _, _, _) => held == generation,
            JobStep::Complete(held, _) => held == generation,
            _ => false,
        },
    ensures
        job_step(job_step(row, other), late) == job_step(row, other),
{
}

/// Deferrals never bring a job nearer to dormancy.
pub proof fn lemma_deferral_is_free(row: JobRow, generation: i64, now: i64, reason: RetryReason, jitter: u32)
    requires
        attempts_fit(row),
        row.is_held(generation),
        !(reason is Failed),
    ensures
        job_step(row, JobStep::Retry(generation, now, reason, jitter)).attempts == row.attempts,
        job_step(row, JobStep::Retry(generation, now, reason, jitter)).state is RetryWait,
{
}

/// Each failure counts once. With the last one that is allowed, and with no other, the job becomes
/// dormant, and is not claimed any more.
pub proof fn lemma_failure_counts(
    row: JobRow,
    generation: i64,
    now: i64,
    failure: AttemptFailure,
    jitter: u32,
    then: i64,
)
    requires
        attempts_fit(row),
        row.is_held(generation),
    ensures
        ({
            let step = JobStep::Retry(generation, now, RetryReason::Failed(failure), jitter);
            let after = job_step(row, step);
            &&& after.attempts == row.attempts + 1
            &&& after.state is Dormant == (after.attempts == MAX_FAILED_ATTEMPTS)
            &&& after.state is Dormant ==> job_step(after, JobStep::Claim(then)) == after
        }),
{
}

/// A job can be claimed exactly while it waits and its time has come. The claim gives it the next
/// generation and changes nothing of what it remembers; a job that cannot be claimed stays as it is.
pub proof fn lemma_claim(row: JobRow, now: i64)
    requires
        row.generation < i64::MAX,
    ensures
        ({
            let after = job_step(row, JobStep::Claim(now));
            if (row.state == JobState::Pending || row.state == JobState::RetryWait) && row.due_at
                <= now {
                &&& after.state == JobState::Running
                &&& after.generation == row.generation + 1
                &&& after.attempts == row.attempts
                &&& after.due_at == row.due_at
                &&& after.error == row.error
                &&& after.updated_at == now
            } else {
                after == row
            }
        }),
        row.is_due(now) <==> job_step(row, JobStep::Claim(now)).state == JobState::Running
            && row.state != JobState::Running,
{
}

/// A job that was just created can be claimed in the same moment, and the claim is its first.
pub proof fn lemma_created_is_due(now: i64)
    ensures
        ({
            let row = JobRow::created(now);
            let claimed = job_step(row, JobStep::Claim(now));
            &&& row.is_due(now)
            &&& row.attempts == 0
            &&& row.error is None
            &&& claimed.state == JobState::Running
            &&& claimed.generation == 1
            &&& forall|before: i64| before < now ==> job_step(row, #[trigger] claim_at(before)) == row
        }),
{
}

/// The step that claims a job.
pub open spec fn claim_at(now: i64) -> JobStep {
    JobStep::Claim(now)
}

/// A dormant job wakes once it has rested for a day, and not before. It then can be claimed in the
/// same moment, and has forgotten its failures; it keeps its generation, so that the claim is a later
/// one than all before.
pub proof fn lemma_revived_is_due(row: JobRow, now: i64)
    requires
        row.generation < i64::MAX,
    ensures
        ({
            let after = job_step(row, JobStep::Revive(now));
            let claimed = job_step(after, JobStep::Claim(now));
            if row.state == JobState::Dormant && now - row.updated_at >= 24 * 60 * 60 * 1000 {
                &&& after.is_due(now)
                &&& after.attempts == 0
                &&& after.error is None
                &&& after.generation == row.generation
                &&& after.updated_at == now
                &&& claimed.state == JobState::Running
                &&& claimed.generation == row.generation + 1
            } else {
                after == row
            }
        }),
{
}

/// After a restart a job that was running can be claimed in the same moment, under a new generation
/// and with the failures it had; one whose metadata is stored is done, and any other stays as it is.
pub proof fn lemma_recovered_is_due(row: JobRow, now: i64, stored: bool)
    requires
        row.generation < i64::MAX - 1,
    ensures
        ({
            let after = job_step(row, JobStep::Recover(now, stored));
            let claimed = job_step(after, JobStep::Claim(now));
            &&& stored ==> after.state == JobState::Succeeded && after.error is None
                && after.attempts == row.attempts
            &&& !stored && row.state == JobState::Running ==> {
                &&& after.is_due(now)
                &&& after.attempts == row.attempts
                &&& after.error == row.error
                &&& after.generation == row.generation + 1
                &&& claimed.state == JobState::Running
                &&& claimed.generation == row.generation + 2
            }
            &&& !stored && row.state != JobState::Running ==> after == row
            &&& row.state == JobState::Running ==> !after.is_held(row.generation)
        }),
{
}

/// A deferral puts the job off for a minute: it cannot be claimed before, and can then.
pub proof fn lemma_deferral_waits(
    row: JobRow,
    generation: i64,
    now: i64,
    reason: RetryReason,
    jitter: u32,
    at: i64,
)
    requires
        attempts_fit(row),
        row.is_held(generation),
        !(reason is Failed),
        now <= i64::MAX - 60_000,
    ensures
        ({
            let after = job_step(row, JobStep::Retry(generation, now, reason, jitter));
            &&& after.is_due(at) <==> at >= now + 60_000
            &&& after.error == Some(reason)
            &&& after.updated_at == now
            &&& after.generation == row.generation
        }),
{
}

/// A failure puts the job off for a minute the first time and for twice as long each time after,
/// moved by a fifth at most: it cannot be claimed before four fifths of that, and can after six. It is
/// told why.
pub proof fn lemma_failure_waits(
    row: JobRow,
    generation: i64,
    now: i64,
    failure: AttemptFailure,
    jitter: u32,
    at: i64,
)
    requires
        attempts_fit(row),
        row.is_held(generation),
        row.attempts < 5,
        is_jitter(jitter),
        now <= i64::MAX - 10_000_000,
    ensures
        ({
            let step = JobStep::Retry(generation, now, RetryReason::Failed(failure), jitter);
            let after = job_step(row, step);
            let wait = 60_000 * pow2(row.attempts as nat) as int;
            &&& after.state == JobState::RetryWait
            &&& after.is_due(at) ==> at - now >= wait * 4 / 5
            &&& at - now >= wait * 6 / 5 ==> after.is_due(at)
            &&& after.error == Some(RetryReason::Failed(failure))
            &&& after.updated_at == now
            &&& after.generation == row.generation
        }),
{
    vstd::arithmetic::power2::lemma2_to64();
    let attempts = (row.attempts + 1) as nat;
    lemma_jitter_bounded(attempts, jitter);
    assert(pow2(row.attempts as nat) <= 16) by {
        if row.attempts < 4 {
            vstd::arithmetic::power2::lemma_pow2_strictly_increases(row.attempts as nat, 4);
        }
    }
}

/// A jitter scales the wait in billionths, rounded down to a millisecond.
pub proof fn lemma_jitter_scales(attempts: nat, jitter: u32)
    requires
        attempts >= 1,
    ensures
        ({
            let wait = 60_000 * pow2((attempts - 1) as nat) as int;
            let delay = failure_delay(attempts, jitter);
            delay * 1_000_000_000 <= wait * jitter < (delay + 1) * 1_000_000_000
        }),
        is_jitter(jitter) <==> 800_000_000 <= jitter <= 1_200_000_000,
{
}

/// A job that has succeeded stays so, whatever happens after.
pub proof fn lemma_success_stays(row: JobRow, step: JobStep)
    requires
        row.state == JobState::Succeeded,
    ensures
        job_step(row, step).state == JobState::Succeeded,
        !(step is Recover) ==> job_step(row, step) == row,
{
}

/// The claim that stands can end the job with metadata, and so can metadata that came by another
/// way; a claim that does not stand ends nothing.
pub proof fn lemma_success(row: JobRow, generation: i64, now: i64)
    requires
        row.generation < i64::MAX,
    ensures
        ({
            let done = job_step(row, JobStep::Complete(generation, now));
            let passed_by = job_step(row, JobStep::Supersede(now));
            &&& if row.state == JobState::Running && row.generation == generation {
                &&& done.state == JobState::Succeeded
                &&& done.error is None
                &&& done.updated_at == now
                &&& done.generation == row.generation
                &&& done.attempts == row.attempts
            } else {
                done == row
            }
            &&& passed_by.state == JobState::Succeeded
            &&& passed_by.updated_at >= row.updated_at
            &&& row.state != JobState::Succeeded ==> passed_by.error is None
                && passed_by.updated_at >= now && (passed_by.updated_at == now
                || passed_by.updated_at == row.updated_at) && passed_by.generation
                == row.generation + 1
        }),
{
}

/// Times are held at the ends of their range, and exact within it.
pub proof fn lemma_times(at: i64, delay: i64)
    ensures
        i64::MIN <= at + delay <= i64::MAX ==> later(at, delay) == at + delay,
        at + delay > i64::MAX ==> later(at, delay) == i64::MAX,
        at + delay < i64::MIN ==> later(at, delay) == i64::MIN,
        i64::MIN <= at - delay <= i64::MAX ==> earlier(at, delay) == at - delay,
        at - delay > i64::MAX ==> earlier(at, delay) == i64::MAX,
        at - delay < i64::MIN ==> earlier(at, delay) == i64::MIN,
{
}

/// A job is due from the moment at which it is created, revived or taken back from a worker, and what
/// it is told of its time is that moment. A result leaves all but its end.
pub proof fn lemma_moments(row: JobRow, generation: i64, now: i64, stored: bool)
    requires
        row.generation < i64::MAX,
    ensures
        ({
            let created = JobRow::created(now);
            &&& created.due_at == now && created.updated_at == now && created.generation == 0
            &&& created.state == JobState::Pending
        }),
        row.state == JobState::Dormant && now - row.updated_at >= 24 * 60 * 60 * 1000 ==> {
            let revived = job_step(row, JobStep::Revive(now));
            revived.due_at == now && revived.state == JobState::Pending
        },
        row.state == JobState::Running ==> {
            let recovered = job_step(row, JobStep::Recover(now, stored));
            &&& recovered.due_at == now && recovered.updated_at == now
            &&& recovered.generation == row.generation + 1 && recovered.attempts == row.attempts
        },
        row.state != JobState::Running && stored ==> {
            let recovered = job_step(row, JobStep::Recover(now, stored));
            &&& recovered.due_at == row.due_at && recovered.updated_at == row.updated_at
            &&& recovered.generation == row.generation && recovered.attempts == row.attempts
        },
        job_step(row, JobStep::Complete(generation, now)).due_at == row.due_at,
        job_step(row, JobStep::Supersede(now)).due_at == row.due_at,
        job_step(row, JobStep::Supersede(now)).attempts == row.attempts,
{
}

/// A retry changes nothing unless its claim stands. A failure counts, and puts off for the doubled
/// minutes scaled by its jitter, rounded down to a millisecond; the sixth failure lets the job rest.
pub proof fn lemma_failure_due(
    row: JobRow,
    generation: i64,
    now: i64,
    reason: RetryReason,
    jitter: u32,
)
    requires
        attempts_fit(row),
        now <= i64::MAX - 10_000_000,
    ensures
        ({
            let after = job_step(row, JobStep::Retry(generation, now, reason, jitter));
            let wait = 60_000 * pow2(row.attempts as nat) as int;
            let held = row.state == JobState::Running && row.generation == generation;
            &&& !held ==> after == row
            &&& held && reason is Failed ==> {
                &&& after.attempts == row.attempts + 1
                &&& after.state == if row.attempts == 5 {
                    JobState::Dormant
                } else {
                    JobState::RetryWait
                }
                &&& (after.due_at - now) * 1_000_000_000 <= wait * jitter < (after.due_at - now + 1)
                    * 1_000_000_000
            }
        }),
{
    if row.is_held(generation) {
        vstd::arithmetic::power2::lemma2_to64();
        let attempts = (row.attempts + 1) as nat;
        let wait = 60_000 * pow2(row.attempts as nat) as int;
        assert(pow2(row.attempts as nat) <= 32) by {
            if row.attempts < 5 {
                vstd::arithmetic::power2::lemma_pow2_strictly_increases(row.attempts as nat, 5);
            }
        }
        lemma_jitter_scales(attempts, jitter);
        assert(0 <= wait * jitter <= 1_920_000 * 0x1_0000_0000) by (nonlinear_arith)
            requires
                0 <= wait <= 1_920_000,
                0 <= jitter <= 0x1_0000_0000,
        ;
    }
}

} // verus!
