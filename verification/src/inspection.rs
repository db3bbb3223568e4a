//! Read-only queries: how they fail, and the counts that they report.

use crate::metainfo::identity::text_equal;
use vstd::prelude::*;

verus! {

/// Why a read-only query gives no answer.
#[derive(Clone, Copy, Debug, PartialEq, Eq, Structural)]
pub enum ReadError {
    Invalid,
    Missing,
    Cancelled,
    Unavailable,
    Busy,
}

impl ReadError {
    /// The error that a failed statement stands for: an interrupted one was cancelled.
    pub fn from_statement(interrupted: bool) -> (error: ReadError)
        ensures
            error == (if interrupted {
                ReadError::Cancelled
            } else {
                ReadError::Unavailable
            }),
    {
        if interrupted {
            ReadError::Cancelled
        } else {
            ReadError::Unavailable
        }
    }
}

/// The lasting states of a fetch job.
#[derive(Clone, Copy, Debug, PartialEq, Eq, Structural)]
pub enum JobState {
    Pending,
    Running,
    RetryWait,
    Dormant,
    Succeeded,
}

impl JobState {
    /// The stored name of a state.
    pub open spec fn text(self) -> Seq<char> {
        match self {
            JobState::Pending => "pending"@,
            JobState::Running => "running"@,
            JobState::RetryWait => "retry_wait"@,
            JobState::Dormant => "dormant"@,
            JobState::Succeeded => "succeeded"@,
        }
    }

    /// The stored name of the state.
    pub fn label(self) -> (label: &'static str)
        ensures
            label@ == self.text(),
    {
        match self {
            JobState::Pending => "pending",
            JobState::Running => "running",
            JobState::RetryWait => "retry_wait",
            JobState::Dormant => "dormant",
            JobState::Succeeded => "succeeded",
        }
    }

    /// The state with this stored name.
    pub fn from_label(label: &str) -> (state: Option<JobState>)
        ensures
            match state {
                Some(state) => label@ == state.text(),
                None => forall|state: JobState| label@ != #[trigger] state.text(),
            },
    {
        if text_equal(label, "pending") {
            Some(JobState::Pending)
        } else if text_equal(label, "running") {
            Some(JobState::Running)
        } else if text_equal(label, "retry_wait") {
            Some(JobState::RetryWait)
        } else if text_equal(label, "dormant") {
            Some(JobState::Dormant)
        } else if text_equal(label, "succeeded") {
            Some(JobState::Succeeded)
        } else {
            None
        }
    }
}

/// Two states never share a stored name.
pub proof fn lemma_state_names(a: JobState, b: JobState)
    ensures
        a.text() == b.text() ==> a == b,
{
    reveal_strlit("pending");
    reveal_strlit("running");
    reveal_strlit("retry_wait");
    reveal_strlit("dormant");
    reveal_strlit("succeeded");
    if a.text() == b.text() {
        assert(a.text()[0] == b.text()[0]);
        assert(a.text()[1] == b.text()[1]);
    }
}

/// How many jobs are in each state.
#[derive(Clone, Copy, Debug, PartialEq, Eq, Structural)]
pub struct JobCounts {
    pub pending: i64,
    pub running: i64,
    pub retry_wait: i64,
    pub dormant: i64,
    pub succeeded: i64,
}

impl Default for JobCounts {
    fn default() -> (counts: JobCounts)
        ensures
            forall|state: JobState| #[trigger] counts.of(state) == 0,
    {
        JobCounts { pending: 0, running: 0, retry_wait: 0, dormant: 0, succeeded: 0 }
    }
}

impl JobCounts {
    /// The number of jobs in a state.
    pub open spec fn of(self, state: JobState) -> i64 {
        match state {
            JobState::Pending => self.pending,
            JobState::Running => self.running,
            JobState::RetryWait => self.retry_wait,
            JobState::Dormant => self.dormant,
            JobState::Succeeded => self.succeeded,
        }
    }

    /// Takes over the number of jobs in the state with this name. A name that no state has leaves
    /// all counts alone.
    pub fn record(&mut self, state: &str, count: i64) -> (result: Result<(), ReadError>)
        ensures
            forall|named: JobState| state@ == #[trigger] named.text() ==> {
                &&& result is Ok
                &&& final(self).of(named) == count
                &&& forall|other: JobState|
                    other != named ==> #[trigger] final(self).of(other) == old(self).of(other)
            },
            (forall|named: JobState| state@ != #[trigger] named.text()) ==> {
                &&& result == Err::<(), ReadError>(ReadError::Unavailable)
                &&& *final(self) == *old(self)
            },
    {
        let named = JobState::from_label(state);
        proof {
            assert forall|a: JobState, b: JobState|
                #[trigger] a.text() == #[trigger] b.text() implies a == b by {
                lemma_state_names(a, b);
            }
        }
        match named {
            Some(JobState::Pending) => self.pending = count,
            Some(JobState::Running) => self.running = count,
            Some(JobState::RetryWait) => self.retry_wait = count,
            Some(JobState::Dormant) => self.dormant = count,
            Some(JobState::Succeeded) => self.succeeded = count,
            None => {
                return Err(ReadError::Unavailable);
            },
        }
        Ok(())
    }
}

/// The names and the counts of the states.
pub proof fn lemma_states(counts: JobCounts)
    ensures
        JobState::Pending.text() == "pending"@ && counts.of(JobState::Pending) == counts.pending,
        JobState::Running.text() == "running"@ && counts.of(JobState::Running) == counts.running,
        JobState::RetryWait.text() == "retry_wait"@ && counts.of(JobState::RetryWait)
            == counts.retry_wait,
        JobState::Dormant.text() == "dormant"@ && counts.of(JobState::Dormant) == counts.dormant,
        JobState::Succeeded.text() == "succeeded"@ && counts.of(JobState::Succeeded)
            == counts.succeeded,
{
}

} // verus!
