//! Claiming a due job: its class, the statement that finds it and the claim that comes of it.

use crate::endpoint::Endpoint;
use crate::jobs::model::{decode_hash, AttemptKind, ClaimClass, StoreError, RECENT_MS};
use crate::metainfo::identity::InfoHashV1;
use vstd::prelude::*;

verus! {

/// Whether a torrent that was first seen then is recent now.
pub open spec fn is_recent(first_seen: i64, now: i64) -> bool {
    now - RECENT_MS <= first_seen <= now
}

/// Whether a torrent that was first seen then is recent now.
pub fn recent(first_seen: i64, now: i64) -> (recent: bool)
    ensures
        recent == is_recent(first_seen, now),
{
    first_seen <= now && (now as i128) - (RECENT_MS as i128) <= first_seen as i128
}

/// The class of a due job: one that was claimed before is a retry, whatever its addresses; of the
/// others those with a valid address come first, then the recent ones.
pub open spec fn class_of(generation: i64, hinted: bool, first_seen: i64, now: i64) -> ClaimClass {
    if generation > 0 {
        ClaimClass::Retry
    } else if hinted {
        ClaimClass::Hint
    } else if is_recent(first_seen, now) {
        ClaimClass::Recent
    } else {
        ClaimClass::History
    }
}

/// The class of a due job.
pub fn classify(generation: i64, hinted: bool, first_seen: i64, now: i64) -> (class: ClaimClass)
    ensures
        class == class_of(generation, hinted, first_seen, now),
{
    if generation > 0 {
        ClaimClass::Retry
    } else if hinted {
        ClaimClass::Hint
    } else if recent(first_seen, now) {
        ClaimClass::Recent
    } else {
        ClaimClass::History
    }
}

/// An address or the lack of one never turns a job that was claimed before into a first attempt.
pub proof fn lemma_claimed_stays_retry(generation: i64, hinted: bool, first_seen: i64, now: i64)
    requires
        generation > 0,
    ensures
        class_of(generation, hinted, first_seen, now) is Retry,
{
}

/// The hashes that have a valid address: `?1` is now, `?2` how long an address is valid.
pub const HINTED_SQL: &'static str = "SELECT h.hash FROM peer_hints h
        WHERE h.observed_at >= ?1 - ?2 AND legal_peer(h.ip, h.port)";

/// The condition that picks the jobs of one class, or of all.
pub open spec fn class_condition(preference: Option<ClaimClass>) -> Seq<char> {
    match preference {
        Some(ClaimClass::Hint) => "j.generation = 0 AND j.hash IN ("@ + HINTED_SQL@ + ")"@,
        Some(ClaimClass::Recent) => "j.generation = 0 AND i.first_seen BETWEEN ?1 - ?3 AND ?1
                AND j.hash NOT IN ("@ + HINTED_SQL@ + ")"@,
        Some(ClaimClass::Retry) => "j.generation > 0"@,
        Some(ClaimClass::History) => "j.generation = 0 AND i.first_seen NOT BETWEEN ?1 - ?3 AND ?1
                AND j.hash NOT IN ("@ + HINTED_SQL@ + ")"@,
        None => "1"@,
    }
}

/// The index that leads to the jobs of one class.
pub open spec fn class_index(preference: Option<ClaimClass>) -> Seq<char> {
    match preference {
        Some(ClaimClass::Retry) => "fetch_retry_due"@,
        _ => "fetch_claim_due"@,
    }
}

/// The statement that finds the job to claim: of the due jobs of a class the one that has waited
/// longest, then the one with the smallest hash.
pub open spec fn schedule_text(preference: Option<ClaimClass>) -> Seq<char> {
    "SELECT j.hash, j.generation, j.due_at,
        CASE WHEN j.generation > 0 THEN 2
             WHEN j.hash IN ("@ + HINTED_SQL@ + ") THEN 0
             WHEN i.first_seen BETWEEN ?1 - ?3 AND ?1 THEN 1 ELSE 3 END,
        i.first_seen,
        j.attempts
        FROM fetch_jobs j INDEXED BY "@ + class_index(preference) + "
        JOIN infohashes i ON i.hash = j.hash
        WHERE j.state IN ('pending', 'retry_wait') AND j.due_at <= ?1
          AND ("@ + class_condition(preference) + ")
        ORDER BY j.due_at, j.hash LIMIT 1"@
}

/// Writes the condition that picks the jobs of one class.
fn write_condition(preference: Option<ClaimClass>) -> (text: String)
    ensures
        text@ == class_condition(preference),
{
    let mut text = String::new();
    match preference {
        Some(ClaimClass::Hint) => {
            text.push_str("j.generation = 0 AND j.hash IN (");
            text.push_str(HINTED_SQL);
            text.push_str(")");
        },
        Some(ClaimClass::Recent) => {
            text.push_str("j.generation = 0 AND i.first_seen BETWEEN ?1 - ?3 AND ?1
                AND j.hash NOT IN (");
            text.push_str(HINTED_SQL);
            text.push_str(")");
        },
        Some(ClaimClass::Retry) => {
            text.push_str("j.generation > 0");
        },
        Some(ClaimClass::History) => {
            text.push_str("j.generation = 0 AND i.first_seen NOT BETWEEN ?1 - ?3 AND ?1
                AND j.hash NOT IN (");
            text.push_str(HINTED_SQL);
            text.push_str(")");
        },
        None => {
            text.push_str("1");
        },
    }
    assert(text@ =~= class_condition(preference));
    text
}

/// The statement that finds the job to claim. Its parts come from here alone: `?1` is now, `?2` how
/// long an address is valid, `?3` how long a torrent is recent.
pub fn schedule_sql(preference: Option<ClaimClass>) -> (text: String)
    ensures
        text@ == schedule_text(preference),
{
    let condition = write_condition(preference);
    let mut text = String::new();
    text.push_str("SELECT j.hash, j.generation, j.due_at,
        CASE WHEN j.generation > 0 THEN 2
             WHEN j.hash IN (");
    text.push_str(HINTED_SQL);
    text.push_str(") THEN 0
             WHEN i.first_seen BETWEEN ?1 - ?3 AND ?1 THEN 1 ELSE 3 END,
        i.first_seen,
        j.attempts
        FROM fetch_jobs j INDEXED BY ");
    match preference {
        Some(ClaimClass::Retry) => {
            text.push_str("fetch_retry_due");
        },
        _ => {
            text.push_str("fetch_claim_due");
        },
    }
    text.push_str("
        JOIN infohashes i ON i.hash = j.hash
        WHERE j.state IN ('pending', 'retry_wait') AND j.due_at <= ?1
          AND (");
    text.push_str(condition.as_str());
    text.push_str(")
        ORDER BY j.due_at, j.hash LIMIT 1");
    assert(text@ =~= schedule_text(preference));
    text
}

/// A row of that statement.
#[derive(Debug)]
pub struct ScheduledRow {
    pub hash: Vec<u8>,
    pub generation: i64,
    pub due_at: i64,
    pub class: i64,
    pub first_seen: i64,
    pub failed_attempts: u32,
}

/// A claimed job, with the addresses to try first. Its class is that of the moment of the claim.
#[derive(Debug)]
pub struct Job {
    pub class: ClaimClass,
    pub had_valid_hint: bool,
    pub hash: InfoHashV1,
    pub generation: i64,
    pub failed_attempts_before: u32,
    pub peers: Vec<Endpoint>,
}

impl Job {
    /// Whether this is the first claim of the job.
    pub fn attempt_kind(&self) -> (kind: AttemptKind)
        ensures
            kind is First == (self.generation == 1),
    {
        AttemptKind::of_generation(self.generation)
    }
}

/// A claim with the times that it started from.
#[derive(Debug)]
pub struct Claim {
    pub job: Job,
    pub due_at: i64,
    pub first_seen: i64,
}

/// The class and the hash of a row.
pub fn read_row(row: &ScheduledRow) -> (result: Result<(ClaimClass, InfoHashV1), StoreError>)
    ensures
        if !(0 <= row.class <= 3) {
            result == Err::<(ClaimClass, InfoHashV1), StoreError>(StoreError::UnknownClass)
        } else if row.hash@.len() != 20 {
            result == Err::<(ClaimClass, InfoHashV1), StoreError>(StoreError::HashLength)
        } else {
            &&& result is Ok
            &&& result->Ok_0.0.code() == row.class
            &&& result->Ok_0.1.0@ == row.hash@
        },
{
    let class = match ClaimClass::from_sql(row.class) {
        Err(error) => {
            return Err(error);
        },
        Ok(class) => class,
    };
    let bytes = vstd::slice::slice_to_vec(row.hash.as_slice());
    match decode_hash(bytes) {
        Err(error) => Err(error),
        Ok(hash) => Ok((class, hash)),
    }
}

/// The claim that comes of a row, once the job is marked as running under the next generation.
/// `peers` are the addresses that are valid and allowed.
pub fn claim_row(
    row: &ScheduledRow,
    class: ClaimClass,
    hash: InfoHashV1,
    peers: Vec<Endpoint>,
) -> (claim: Claim)
    requires
        row.generation < i64::MAX,
    ensures
        claim.job.class == class,
        claim.job.hash == hash,
        claim.job.had_valid_hint == (peers@.len() > 0),
        claim.job.generation == row.generation + 1,
        claim.job.failed_attempts_before == row.failed_attempts,
        claim.job.peers == peers,
        claim.due_at == row.due_at,
        claim.first_seen == row.first_seen,
{
    let had_valid_hint = peers.len() > 0;
    Claim {
        job: Job {
            class,
            had_valid_hint,
            hash,
            generation: row.generation + 1,
            failed_attempts_before: row.failed_attempts,
            peers,
        },
        due_at: row.due_at,
        first_seen: row.first_seen,
    }
}

/// A hash is recent for half an hour from when it was first seen, and never before.
pub proof fn lemma_recent(first_seen: i64, now: i64)
    ensures
        is_recent(first_seen, now) <==> 0 <= now - first_seen <= 30 * 60 * 1000,
{
}

/// A job that was claimed before is a repeated one, whatever else holds. Of the others those with a
/// fresh hint come first, then those of recent hashes, and the rest is history.
pub proof fn lemma_class(generation: i64, hinted: bool, first_seen: i64, now: i64)
    ensures
        ({
            let class = class_of(generation, hinted, first_seen, now);
            let recent = 0 <= now - first_seen <= 30 * 60 * 1000;
            &&& class is Retry <==> generation > 0
            &&& class is Hint <==> generation <= 0 && hinted
            &&& class is Recent <==> generation <= 0 && !hinted && recent
            &&& class is History <==> generation <= 0 && !hinted && !recent
        }),
{
}

/// What a statement asks of a class says whether a job was claimed before, when its hash was first
/// seen and whether it has a fresh hint. Repeated jobs have an index of their own.
pub proof fn lemma_statements(preference: Option<ClaimClass>)
    ensures
        class_condition(Some(ClaimClass::Retry)) == "j.generation > 0"@,
        class_condition(Some(ClaimClass::Hint)) == "j.generation = 0 AND j.hash IN ("@ + HINTED_SQL@
            + ")"@,
        class_condition(None) == "1"@,
        preference == Some(ClaimClass::Retry) ==> class_index(preference) == "fetch_retry_due"@,
        preference != Some(ClaimClass::Retry) ==> class_index(preference) == "fetch_claim_due"@,
{
}

/// Every statement asks for waiting jobs that are due and meet the condition of their class, the one
/// that was due first, and names the class of what it finds by its number.
pub proof fn lemma_schedule(preference: Option<ClaimClass>)
    ensures
        schedule_text(preference) == "SELECT j.hash, j.generation, j.due_at,
        CASE WHEN j.generation > 0 THEN 2
             WHEN j.hash IN ("@ + HINTED_SQL@ + ") THEN 0
             WHEN i.first_seen BETWEEN ?1 - ?3 AND ?1 THEN 1 ELSE 3 END,
        i.first_seen,
        j.attempts
        FROM fetch_jobs j INDEXED BY "@ + class_index(preference) + "
        JOIN infohashes i ON i.hash = j.hash
        WHERE j.state IN ('pending', 'retry_wait') AND j.due_at <= ?1
          AND ("@ + class_condition(preference) + ")
        ORDER BY j.due_at, j.hash LIMIT 1"@,
        class_condition(Some(ClaimClass::Recent)) == "j.generation = 0 AND i.first_seen BETWEEN ?1 - ?3 AND ?1
                AND j.hash NOT IN ("@ + HINTED_SQL@ + ")"@,
        class_condition(Some(ClaimClass::History)) == "j.generation = 0 AND i.first_seen NOT BETWEEN ?1 - ?3 AND ?1
                AND j.hash NOT IN ("@ + HINTED_SQL@ + ")"@,
{
}

} // verus!
