//! Counts of the stored jobs and of the stored metadata.

use crate::inspection::JobState;
use crate::jobs::model::StoreError;
use vstd::prelude::*;

verus! {

/// How many jobs are in each state, and how much metadata is stored.
#[derive(Clone, Copy, Debug, PartialEq, Eq, Structural)]
pub struct Stats {
    pub pending: i64,
    pub running: i64,
    pub retry_wait: i64,
    pub dormant: i64,
    pub succeeded: i64,
    pub metadata_count: i64,
    pub metadata_bytes: i64,
}

impl Default for Stats {
    fn default() -> (stats: Stats)
        ensures
            forall|state: JobState| #[trigger] stats.of(state) == 0,
            stats.metadata_count == 0,
            stats.metadata_bytes == 0,
    {
        Stats {
            pending: 0,
            running: 0,
            retry_wait: 0,
            dormant: 0,
            succeeded: 0,
            metadata_count: 0,
            metadata_bytes: 0,
        }
    }
}

impl Stats {
    /// The number of jobs in a state.
    pub open spec fn of(self, state: JobState) -> i64 {
        match state {
            JobState::Pending => self.pending,
            JobState::Running => self.running,
            JobState::RetryWait => self.retry_wait,
            JobState::Dormant => self.dormant,
            JobState::Succeeded => self.succeeded,
        }
    }

    /// Takes over the number of jobs in the state with this name. A name that no state has leaves
    /// all counts alone.
    pub fn record(&mut self, state: &str, count: i64) -> (result: Result<(), StoreError>)
        ensures
            forall|named: JobState| state@ == #[trigger] named.text() ==> {
                &&& result is Ok
                &&& final(self).of(named) == count
                &&& forall|other: JobState|
                    other != named ==> #[trigger] final(self).of(other) == old(self).of(other)
            },
            (forall|named: JobState| state@ != #[trigger] named.text()) ==> {
                &&& result == Err::<(), StoreError>(StoreError::UnknownState)
                &&& *final(self) == *old(self)
            },
            final(self).metadata_count == old(self).metadata_count,
            final(self).metadata_bytes == old(self).metadata_bytes,
    {
        let named = JobState::from_label(state);
        proof {
            assert forall|a: JobState, b: JobState|
                #[trigger] a.text() == #[trigger] b.text() implies a == b by {
                crate::inspection::lemma_state_names(a, b);
            }
        }
        match named {
            Some(JobState::Pending) => self.pending = count,
            Some(JobState::Running) => self.running = count,
            Some(JobState::RetryWait) => self.retry_wait = count,
            Some(JobState::Dormant) => self.dormant = count,
            Some(JobState::Succeeded) => self.succeeded = count,
            None => {
                return Err(StoreError::UnknownState);
            },
        }
        Ok(())
    }

    /// The number of jobs that take up a place: neither dormant nor done.
    pub fn active(&self) -> (count: i64)
        requires
            i64::MIN <= self.pending + self.running <= i64::MAX,
            i64::MIN <= self.pending + self.running + self.retry_wait <= i64::MAX,
        ensures
            count == self.of(JobState::Pending) + self.of(JobState::Running) + self.of(
                JobState::RetryWait,
            ),
    {
        self.pending + self.running + self.retry_wait
    }
}

/// Each state has a count of its own.
pub proof fn lemma_counts_by_state(stats: Stats)
    ensures
        stats.of(JobState::Pending) == stats.pending,
        stats.of(JobState::Running) == stats.running,
        stats.of(JobState::RetryWait) == stats.retry_wait,
        stats.of(JobState::Dormant) == stats.dormant,
        stats.of(JobState::Succeeded) == stats.succeeded,
{
}

} // verus!
