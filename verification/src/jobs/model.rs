//! The facts of a fetch job.

use crate::failure::AttemptFailure;
use crate::inspection::JobState;
use crate::metainfo::identity::InfoHashV1;
use vstd::prelude::*;

verus! {

/// How long an announced address stays valid.
pub const PEER_HINT_TTL_MS: i64 = 1_800_000;

/// How long a job stays dormant before an observation may wake it.
pub const DORMANT_REACTIVATION_DELAY_MS: i64 = 86_400_000;

/// How long a job waits after a local deferral.
pub const LOCAL_RETRY_DELAY_MS: i64 = 60_000;

/// How long a job waits after its first failure, before the jitter.
pub const RETRY_BASE_DELAY_MS: i64 = 60_000;

/// The number of failures after which a job becomes dormant.
pub const MAX_FAILED_ATTEMPTS: u32 = 6;

/// The number of addresses that are kept for a job.
pub const MAX_PEER_HINTS: usize = 8;

/// The number of observations that one step of the backfill looks at.
pub const BACKFILL_PAGE_SIZE: usize = 256;

/// The number of expired addresses that one step removes.
pub const PEER_HINT_CLEANUP_BATCH_SIZE: usize = 1024;

/// How long after its first observation a torrent counts as recent.
pub const RECENT_MS: i64 = 1_800_000;

/// The version of the rotation.
pub const SCHEDULING_POLICY_VERSION: u64 = 2;

/// Why the store refuses a value.
#[derive(Clone, Copy, Debug, PartialEq, Eq, Structural)]
pub enum StoreError {
    /// A class that is none of the four.
    UnknownClass,
    /// A state that is none of the five.
    UnknownState,
    /// A hash that does not have twenty bytes.
    HashLength,
    /// An announcement without a port or from before the epoch.
    Announcement,
    /// Bytes that contradict what is stored.
    Conflict,
    /// An info dictionary that is empty or too large.
    MetadataSize,
    /// An info dictionary that is none.
    MetadataDictionary,
    /// Something behind an info dictionary.
    MetadataTrailing,
}

/// A local reason to put an attempt off. None of them counts as a failure.
#[derive(Clone, Copy, Debug, PartialEq, Eq, Structural)]
pub enum LocalReason {
    ResourceWait,
    NoRoute,
    Cancelled,
}

/// Why an attempt ended without metadata.
#[derive(Clone, Copy, Debug, PartialEq, Eq, Structural)]
pub enum RetryReason {
    Deferred,
    Local(LocalReason),
    Failed(AttemptFailure),
}

impl RetryReason {
    /// The label that is stored for a reason.
    pub open spec fn text(self) -> Seq<char> {
        match self {
            RetryReason::Deferred => "local_deferred"@,
            RetryReason::Local(LocalReason::ResourceWait) => "local_wait"@,
            RetryReason::Local(LocalReason::NoRoute) => "no_route"@,
            RetryReason::Local(LocalReason::Cancelled) => "cancelled"@,
            RetryReason::Failed(category) => category.text(),
        }
    }

    /// The category of a failure; nothing for a deferral.
    pub fn failure_category(self) -> (category: Option<&'static str>)
        ensures
            match self {
                RetryReason::Failed(failure) => category is Some && category->0@ == failure.text(),
                _ => category is None,
            },
    {
        match self {
            RetryReason::Deferred | RetryReason::Local(_) => None,
            RetryReason::Failed(category) => Some(category.label()),
        }
    }

    /// The label that is stored for the reason.
    pub fn category(self) -> (category: Option<&'static str>)
        ensures
            category is Some,
            category->0@ == self.text(),
    {
        match self {
            RetryReason::Deferred => Some("local_deferred"),
            RetryReason::Local(LocalReason::ResourceWait) => Some("local_wait"),
            RetryReason::Local(LocalReason::NoRoute) => Some("no_route"),
            RetryReason::Local(LocalReason::Cancelled) => Some("cancelled"),
            RetryReason::Failed(category) => Some(category.label()),
        }
    }
}

/// Whether an update of a claimed job took effect.
#[derive(Clone, Copy, Debug, PartialEq, Eq, Structural)]
pub enum UpdateResult {
    Applied,
    Stale,
}

/// The four classes of due jobs, which exclude each other.
#[derive(Clone, Copy, Debug, PartialEq, Eq, Structural, PartialOrd, Ord)]
pub enum ClaimClass {
    Hint,
    Recent,
    Retry,
    History,
}

impl ClaimClass {
    /// The number by which the database names a class.
    pub open spec fn code(self) -> int {
        match self {
            ClaimClass::Hint => 0,
            ClaimClass::Recent => 1,
            ClaimClass::Retry => 2,
            ClaimClass::History => 3,
        }
    }

    /// The label of a class.
    pub open spec fn text(self) -> Seq<char> {
        match self {
            ClaimClass::Hint => "hint"@,
            ClaimClass::Recent => "recent"@,
            ClaimClass::Retry => "retry"@,
            ClaimClass::History => "history"@,
        }
    }

    /// The class that the database names by a number.
    pub fn from_sql(value: i64) -> (result: Result<ClaimClass, StoreError>)
        ensures
            0 <= value <= 3 ==> result is Ok && result->Ok_0.code() == value,
            !(0 <= value <= 3) ==> result == Err::<ClaimClass, StoreError>(StoreError::UnknownClass),
    {
        match value {
            0 => Ok(ClaimClass::Hint),
            1 => Ok(ClaimClass::Recent),
            2 => Ok(ClaimClass::Retry),
            3 => Ok(ClaimClass::History),
            _ => Err(StoreError::UnknownClass),
        }
    }

    /// The label of the class.
    pub fn label(self) -> (label: &'static str)
        ensures
            label@ == self.text(),
    {
        match self {
            ClaimClass::Hint => "hint",
            ClaimClass::Recent => "recent",
            ClaimClass::Retry => "retry",
            ClaimClass::History => "history",
        }
    }
}

/// Whether a job was claimed before.
#[derive(Clone, Copy, Debug, PartialEq, Eq, Structural, PartialOrd, Ord)]
pub enum AttemptKind {
    First,
    Repeat,
}

impl AttemptKind {
    /// The kind of a claim, which raises the generation from zero to one the first time.
    pub fn of_generation(generation: i64) -> (kind: AttemptKind)
        ensures
            kind is First == (generation == 1),
    {
        if generation == 1 {
            AttemptKind::First
        } else {
            AttemptKind::Repeat
        }
    }
}

/// Takes over a hash of twenty bytes.
pub fn decode_hash(bytes: Vec<u8>) -> (result: Result<InfoHashV1, StoreError>)
    ensures
        bytes@.len() == 20 ==> result is Ok && result->Ok_0.0@ == bytes@,
        bytes@.len() != 20 ==> result == Err::<InfoHashV1, StoreError>(StoreError::HashLength),
{
    if bytes.len() != 20 {
        return Err(StoreError::HashLength);
    }
    let mut hash: [u8; 20] = [0u8; 20];
    for i in 0..20usize
        invariant
            bytes@.len() == 20,
            hash@.take(i as int) == bytes@.take(i as int),
    {
        let ghost before = hash@;
        hash[i] = bytes[i];
        assert(hash@.take(i + 1) =~= before.take(i as int).push(bytes@[i as int]));
        assert(bytes@.take(i + 1) =~= bytes@.take(i as int).push(bytes@[i as int]));
    }
    assert(hash@ =~= hash@.take(20) && bytes@ =~= bytes@.take(20));
    Ok(InfoHashV1(hash))
}

/// What is stored of a fetch job.
#[derive(Clone, Copy, Debug, PartialEq, Eq, Structural)]
pub struct JobRow {
    pub state: JobState,
    pub attempts: u32,
    pub generation: i64,
    pub due_at: i64,
    pub updated_at: i64,
    pub error: Option<RetryReason>,
}

impl JobRow {
    /// Whether the job takes up one of the places for active jobs.
    pub open spec fn is_active(self) -> bool {
        self.state is Pending || self.state is Running || self.state is RetryWait
    }

    /// Whether the job can be claimed.
    pub open spec fn is_due(self, now: i64) -> bool {
        (self.state is Pending || self.state is RetryWait) && self.due_at <= now
    }

    /// Whether this claim of the job still stands.
    pub open spec fn is_held(self, generation: i64) -> bool {
        self.state is Running && self.generation == generation
    }
}

/// A job takes up a place until it has succeeded or rests. It can be claimed from when it is due,
/// unless a worker has it, and a worker has it under the generation of its claim only.
pub proof fn lemma_job_states(row: JobRow, generation: i64, now: i64)
    ensures
        row.is_active() <==> !(row.state is Dormant || row.state is Succeeded),
        row.is_due(now) <==> row.is_active() && !(row.state is Running) && row.due_at <= now,
        row.is_held(generation) <==> row.state is Running && row.generation == generation,
{
}

/// The numbers and the names under which classes are stored and shown.
pub proof fn lemma_class_names()
    ensures
        ClaimClass::Hint.code() == 0,
        ClaimClass::Recent.code() == 1,
        ClaimClass::Retry.code() == 2,
        ClaimClass::History.code() == 3,
        ClaimClass::Hint.text() == "hint"@,
        ClaimClass::Recent.text() == "recent"@,
        ClaimClass::Retry.text() == "retry"@,
        ClaimClass::History.text() == "history"@,
{
}

/// What is stored as the reason of an attempt that ended without metadata: a failure under its own
/// name, anything local under one of four.
pub proof fn lemma_reason_names(failure: AttemptFailure)
    ensures
        RetryReason::Deferred.text() == "local_deferred"@,
        RetryReason::Local(LocalReason::ResourceWait).text() == "local_wait"@,
        RetryReason::Local(LocalReason::NoRoute).text() == "no_route"@,
        RetryReason::Local(LocalReason::Cancelled).text() == "cancelled"@,
        RetryReason::Failed(failure).text() == failure.text(),
{
}

/// The times and counts by which jobs are kept: half an hour for an address and for what is recent,
/// a day of rest, a minute before the next attempt, six failures, eight addresses.
pub proof fn lemma_job_limits()
    ensures
        PEER_HINT_TTL_MS == 30 * 60 * 1000,
        RECENT_MS == 30 * 60 * 1000,
        DORMANT_REACTIVATION_DELAY_MS == 24 * 60 * 60 * 1000,
        LOCAL_RETRY_DELAY_MS == 60 * 1000,
        RETRY_BASE_DELAY_MS == 60 * 1000,
        MAX_FAILED_ATTEMPTS == 6,
        MAX_PEER_HINTS == 8,
        BACKFILL_PAGE_SIZE == 256,
        PEER_HINT_CLEANUP_BATCH_SIZE == 1024,
        SCHEDULING_POLICY_VERSION == 2,
{
}

} // verus!
