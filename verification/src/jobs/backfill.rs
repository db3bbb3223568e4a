//! Creating jobs for torrents that were only observed so far, page by page.

use crate::jobs::admission::{enqueue_result, Admission, Deferral, Enqueued};
use crate::jobs::claim::{is_recent, recent};
use crate::jobs::model::{JobRow, BACKFILL_PAGE_SIZE, RECENT_MS};
use crate::jobs::transitions::{earlier, sub_time};
use crate::metainfo::identity::InfoHashV1;
use vstd::prelude::*;

verus! {

/// The version of the admission rules.
pub const POLICY_VERSION: u64 = 2;

/// The page of recent observations: `?1` is now, `?2` and `?3` the observation before the page.
pub const RECENT_PAGE_SQL: &'static str = "SELECT first_seen, hash
    FROM infohashes
    WHERE (first_seen, hash) > (?2, ?3)
      AND first_seen <= ?1
    ORDER BY first_seen, hash
    LIMIT 128";

/// Which addresses may be used.
#[derive(Clone, Copy, Debug, PartialEq, Eq, Structural)]
pub enum AddressPolicy {
    PublicOnly,
    LocalUnicast,
}

/// The places that are kept for recent torrents. None are kept where the limit is zero.
#[derive(Clone, Copy, Debug, PartialEq, Eq, Structural)]
pub struct RecentAdmission {
    pub limit: usize,
    pub policy: AddressPolicy,
}

impl Default for RecentAdmission {
    fn default() -> (settings: RecentAdmission)
        ensures
            settings.limit == 0,
            settings.policy is PublicOnly,
    {
        RecentAdmission { limit: 0, policy: AddressPolicy::PublicOnly }
    }
}

/// How often jobs were put off, by reason.
#[derive(Clone, Copy, Debug, PartialEq, Eq, Structural)]
pub struct DeferralCounts {
    pub total_capacity: u64,
    pub first_attempt_buffer: u64,
    pub history_reserve: u64,
    pub sample_waiting_backfill: u64,
}

impl DeferralCounts {
    /// How often a reason was counted.
    pub open spec fn of(self, reason: Deferral) -> u64 {
        match reason {
            Deferral::TotalCapacity => self.total_capacity,
            Deferral::FirstAttemptBuffer => self.first_attempt_buffer,
            Deferral::HistoryReserve => self.history_reserve,
            Deferral::SampleWaitingBackfill => self.sample_waiting_backfill,
        }
    }

    /// How often a reason was counted.
    pub fn count(&self, reason: Deferral) -> (count: u64)
        ensures
            count == self.of(reason),
    {
        match reason {
            Deferral::TotalCapacity => self.total_capacity,
            Deferral::FirstAttemptBuffer => self.first_attempt_buffer,
            Deferral::HistoryReserve => self.history_reserve,
            Deferral::SampleWaitingBackfill => self.sample_waiting_backfill,
        }
    }

    /// Counts a reason.
    fn bump(&mut self, reason: Deferral, count: u64)
        requires
            old(self).of(reason) + count <= u64::MAX,
        ensures
            final(self).of(reason) == old(self).of(reason) + count,
            forall|other: Deferral|
                other != reason ==> #[trigger] final(self).of(other) == old(self).of(other),
    {
        match reason {
            Deferral::TotalCapacity => self.total_capacity = self.total_capacity + count,
            Deferral::FirstAttemptBuffer => self.first_attempt_buffer = self.first_attempt_buffer
                + count,
            Deferral::HistoryReserve => self.history_reserve = self.history_reserve + count,
            Deferral::SampleWaitingBackfill => self.sample_waiting_backfill =
            self.sample_waiting_backfill + count,
        }
    }
}

/// What the backfill did in some span of time.
#[derive(Clone, Copy, Debug, PartialEq, Eq, Structural)]
pub struct BackfillSnapshot {
    pub recent_scanned: u64,
    pub recent_inserted: u64,
    pub history_scanned: u64,
    pub history_inserted: u64,
    pub deferrals: DeferralCounts,
}

impl BackfillSnapshot {
    /// A span in which nothing was done.
    pub open spec fn zero() -> BackfillSnapshot {
        BackfillSnapshot {
            recent_scanned: 0,
            recent_inserted: 0,
            history_scanned: 0,
            history_inserted: 0,
            deferrals: DeferralCounts {
                total_capacity: 0,
                first_attempt_buffer: 0,
                history_reserve: 0,
                sample_waiting_backfill: 0,
            },
        }
    }

    /// A span in which nothing was done.
    fn empty() -> (snapshot: BackfillSnapshot)
        ensures
            snapshot == BackfillSnapshot::zero(),
    {
        BackfillSnapshot {
            recent_scanned: 0,
            recent_inserted: 0,
            history_scanned: 0,
            history_inserted: 0,
            deferrals: DeferralCounts {
                total_capacity: 0,
                first_attempt_buffer: 0,
                history_reserve: 0,
                sample_waiting_backfill: 0,
            },
        }
    }

    /// Whether no number exceeds its counterpart in `whole`.
    pub open spec fn within(self, whole: BackfillSnapshot) -> bool {
        &&& self.recent_scanned <= whole.recent_scanned
        &&& self.recent_inserted <= whole.recent_inserted
        &&& self.history_scanned <= whole.history_scanned
        &&& self.history_inserted <= whole.history_inserted
        &&& forall|reason: Deferral| #[trigger]
            self.deferrals.of(reason) <= whole.deferrals.of(reason)
    }
}

/// What the backfill did since the start, and since the last report. It is counted once the
/// transaction is committed.
#[derive(Debug)]
pub struct BackfillCounters {
    pub total: BackfillSnapshot,
    pub interval: BackfillSnapshot,
}

/// What a report covers.
#[derive(Clone, Copy, Debug, PartialEq, Eq, Structural)]
pub enum Scope {
    Total,
    Interval,
}

impl Scope {
    /// The label of a scope.
    pub open spec fn text(self) -> Seq<char> {
        match self {
            Scope::Total => "total"@,
            Scope::Interval => "interval"@,
        }
    }

    /// The label of the scope.
    pub fn label(self) -> (label: &'static str)
        ensures
            label@ == self.text(),
    {
        match self {
            Scope::Total => "total",
            Scope::Interval => "interval",
        }
    }
}

/// A line of the backfill report.
#[derive(Clone, Copy, Debug, PartialEq, Eq, Structural)]
pub enum BackfillRecord {
    Deferral(Scope, Deferral, u64),
    Backfill(Scope, BackfillSnapshot),
}

/// The lines of one scope.
pub open spec fn scope_records(scope: Scope, counts: BackfillSnapshot) -> Seq<BackfillRecord> {
    seq![
        BackfillRecord::Deferral(
            scope,
            Deferral::TotalCapacity,
            counts.deferrals.of(Deferral::TotalCapacity),
        ),
        BackfillRecord::Deferral(
            scope,
            Deferral::FirstAttemptBuffer,
            counts.deferrals.of(Deferral::FirstAttemptBuffer),
        ),
        BackfillRecord::Deferral(
            scope,
            Deferral::HistoryReserve,
            counts.deferrals.of(Deferral::HistoryReserve),
        ),
        BackfillRecord::Deferral(
            scope,
            Deferral::SampleWaitingBackfill,
            counts.deferrals.of(Deferral::SampleWaitingBackfill),
        ),
        BackfillRecord::Backfill(scope, counts),
    ]
}

/// Appends the lines of one scope.
fn push_scope(records: &mut Vec<BackfillRecord>, scope: Scope, counts: BackfillSnapshot)
    ensures
        final(records)@ == old(records)@ + scope_records(scope, counts),
{
    let ghost before = records@;
    records.push(
        BackfillRecord::Deferral(scope, Deferral::TotalCapacity, counts.deferrals.total_capacity),
    );
    records.push(
        BackfillRecord::Deferral(
            scope,
            Deferral::FirstAttemptBuffer,
            counts.deferrals.first_attempt_buffer,
        ),
    );
    records.push(
        BackfillRecord::Deferral(scope, Deferral::HistoryReserve, counts.deferrals.history_reserve),
    );
    records.push(
        BackfillRecord::Deferral(
            scope,
            Deferral::SampleWaitingBackfill,
            counts.deferrals.sample_waiting_backfill,
        ),
    );
    records.push(BackfillRecord::Backfill(scope, counts));
    assert(records@ =~= before + scope_records(scope, counts));
}

impl BackfillCounters {
    /// Whether the interval is part of the total.
    pub open spec fn well_formed(self) -> bool {
        self.interval.within(self.total)
    }

    /// Counters that stand at zero.
    pub fn new() -> (counters: BackfillCounters)
        ensures
            counters.well_formed(),
            counters.total == BackfillSnapshot::zero(),
            counters.interval == BackfillSnapshot::zero(),
    {
        BackfillCounters { total: BackfillSnapshot::empty(), interval: BackfillSnapshot::empty() }
    }

    /// Counts a deferral.
    pub fn defer(&mut self, reason: Deferral, count: u64)
        requires
            old(self).well_formed(),
            old(self).total.deferrals.of(reason) + count <= u64::MAX,
        ensures
            final(self).well_formed(),
            final(self).total.deferrals.of(reason) == old(self).total.deferrals.of(reason) + count,
            final(self).interval.deferrals.of(reason) == old(self).interval.deferrals.of(reason)
                + count,
            forall|other: Deferral| #![trigger final(self).total.deferrals.of(other)]
                other != reason ==> {
                    &&& final(self).total.deferrals.of(other) == old(self).total.deferrals.of(other)
                    &&& final(self).interval.deferrals.of(other) == old(
                        self,
                    ).interval.deferrals.of(other)
                },
            final(self).total == (BackfillSnapshot {
                deferrals: final(self).total.deferrals,
                ..old(self).total
            }),
            final(self).interval == (BackfillSnapshot {
                deferrals: final(self).interval.deferrals,
                ..old(self).interval
            }),
    {
        assert(self.interval.deferrals.of(reason) <= self.total.deferrals.of(reason));
        let ghost before = *self;
        self.total.deferrals.bump(reason, count);
        self.interval.deferrals.bump(reason, count);
        proof {
            assert forall|other: Deferral| #[trigger]
                self.interval.deferrals.of(other) <= self.total.deferrals.of(other) by {
                assert(before.interval.deferrals.of(other) <= before.total.deferrals.of(other));
            }
        }
    }

    /// Counts a page of recent observations.
    pub fn add_recent(&mut self, scanned: u64, inserted: u64)
        requires
            old(self).well_formed(),
            old(self).total.recent_scanned + scanned <= u64::MAX,
            old(self).total.recent_inserted + inserted <= u64::MAX,
        ensures
            final(self).well_formed(),
            final(self).total == (BackfillSnapshot {
                recent_scanned: (old(self).total.recent_scanned + scanned) as u64,
                recent_inserted: (old(self).total.recent_inserted + inserted) as u64,
                ..old(self).total
            }),
            final(self).interval == (BackfillSnapshot {
                recent_scanned: (old(self).interval.recent_scanned + scanned) as u64,
                recent_inserted: (old(self).interval.recent_inserted + inserted) as u64,
                ..old(self).interval
            }),
    {
        self.total.recent_scanned = self.total.recent_scanned + scanned;
        self.total.recent_inserted = self.total.recent_inserted + inserted;
        self.interval.recent_scanned = self.interval.recent_scanned + scanned;
        self.interval.recent_inserted = self.interval.recent_inserted + inserted;
    }

    /// Counts a page of the history.
    pub fn add_history(&mut self, scanned: u64, inserted: u64)
        requires
            old(self).well_formed(),
            old(self).total.history_scanned + scanned <= u64::MAX,
            old(self).total.history_inserted + inserted <= u64::MAX,
        ensures
            final(self).well_formed(),
            final(self).total == (BackfillSnapshot {
                history_scanned: (old(self).total.history_scanned + scanned) as u64,
                history_inserted: (old(self).total.history_inserted + inserted) as u64,
                ..old(self).total
            }),
            final(self).interval == (BackfillSnapshot {
                history_scanned: (old(self).interval.history_scanned + scanned) as u64,
                history_inserted: (old(self).interval.history_inserted + inserted) as u64,
                ..old(self).interval
            }),
    {
        self.total.history_scanned = self.total.history_scanned + scanned;
        self.total.history_inserted = self.total.history_inserted + inserted;
        self.interval.history_scanned = self.interval.history_scanned + scanned;
        self.interval.history_inserted = self.interval.history_inserted + inserted;
    }
}

/// What the process keeps beside the database: limits that its start sets, and counters.
#[derive(Debug)]
pub struct CollectionStore {
    pub fetch_limit: usize,
    pub recent: RecentAdmission,
    pub backfill_counters: BackfillCounters,
    pub observed_samples: u64,
}

impl CollectionStore {
    /// A store that admits nothing yet.
    pub fn new() -> (store: CollectionStore)
        ensures
            store.fetch_limit == 0,
            store.recent.limit == 0,
            store.recent.policy is PublicOnly,
            store.backfill_counters.well_formed(),
            store.backfill_counters.total == BackfillSnapshot::zero(),
            store.backfill_counters.interval == BackfillSnapshot::zero(),
            store.observed_samples == 0,
    {
        CollectionStore {
            fetch_limit: 0,
            recent: RecentAdmission::default(),
            backfill_counters: BackfillCounters::new(),
            observed_samples: 0,
        }
    }

    /// Sets the limit for active jobs. It holds for what is admitted from now on.
    pub fn enable_fetch(&mut self, limit: usize)
        ensures
            final(self).fetch_limit == limit,
            *final(self) == (CollectionStore { fetch_limit: limit, ..*old(self) }),
    {
        self.fetch_limit = limit;
    }

    /// Sets how many places are kept for recent torrents.
    pub fn enable_recent_admission(&mut self, limit: usize, policy: AddressPolicy)
        ensures
            *final(self) == (CollectionStore {
                recent: RecentAdmission { limit, policy },
                ..*old(self)
            }),
    {
        self.recent = RecentAdmission { limit, policy };
    }

    /// How many places are kept for recent torrents.
    pub fn recent_admission(&self) -> (settings: RecentAdmission)
        ensures
            settings == self.recent,
    {
        self.recent
    }

    /// How many samples were observed.
    pub fn sample_observations(&self) -> (count: u64)
        ensures
            count == self.observed_samples,
    {
        self.observed_samples
    }

    /// The lines of the backfill report: first the total, then what was done since the last report,
    /// which starts anew.
    pub fn log_backfill(&mut self) -> (records: Vec<BackfillRecord>)
        requires
            old(self).backfill_counters.well_formed(),
        ensures
            records@ == scope_records(Scope::Total, old(self).backfill_counters.total)
                + scope_records(Scope::Interval, old(self).backfill_counters.interval),
            final(self).backfill_counters.total == old(self).backfill_counters.total,
            final(self).backfill_counters.interval == BackfillSnapshot::zero(),
            final(self).backfill_counters.well_formed(),
            final(self).fetch_limit == old(self).fetch_limit,
            final(self).recent == old(self).recent,
            final(self).observed_samples == old(self).observed_samples,
    {
        let total = self.backfill_counters.total;
        let interval = self.backfill_counters.interval;
        self.backfill_counters.interval = BackfillSnapshot::empty();
        let mut records: Vec<BackfillRecord> = Vec::new();
        push_scope(&mut records, Scope::Total, total);
        push_scope(&mut records, Scope::Interval, interval);
        assert(records@ =~= scope_records(Scope::Total, total) + scope_records(
            Scope::Interval,
            interval,
        ));
        records
    }
}

/// An observed hash: when it was first seen, whether it has a job, and whether its metadata is
/// stored.
#[derive(Clone, Copy, Debug)]
pub struct Observation {
    pub hash: InfoHashV1,
    pub first_seen: i64,
    pub known: bool,
    pub stored: bool,
}

/// A filled page: the hashes that got a job, the number of rows looked at and the last of them.
#[derive(Debug)]
pub struct FilledPage {
    pub inserted: Vec<InfoHashV1>,
    pub scanned: usize,
}

/// What `n` rows leave of the places, and which hashes got a job. Only a row that `wants` one asks.
pub open spec fn fill_rows(
    admission: Admission,
    rows: Seq<Observation>,
    now: i64,
    wants: spec_fn(Observation) -> bool,
    n: nat,
) -> (Admission, Seq<InfoHashV1>)
    decreases n,
{
    if n == 0 {
        (admission, seq![])
    } else {
        let (left, hashes) = fill_rows(admission, rows, now, wants, (n - 1) as nat);
        let row = rows[n - 1];
        let fresh = is_recent(row.first_seen, now);
        let result = enqueue_result(None, row.stored, now, left.room(fresh));
        if wants(row) && result is Created {
            (left.used(fresh), hashes.push(row.hash))
        } else {
            (left, hashes)
        }
    }
}

/// A row of the recent page asks for a job where it has none. A dormant job is not woken here.
pub open spec fn recent_wants() -> spec_fn(Observation) -> bool {
    |row: Observation| !row.known
}

/// A row of the history asks for a job where it has none and its metadata is missing. Recent rows
/// have a page of their own, where places are kept for them.
pub open spec fn history_wants(recent_limit: int, now: i64) -> spec_fn(Observation) -> bool {
    |row: Observation|
        !row.known && !row.stored && (recent_limit == 0 || !is_recent(row.first_seen, now))
}

/// Where the recent page starts: behind the cursor while it is inside the window, else at the start
/// of the window with all hashes of that moment.
pub fn recent_start(now: i64, cursor: Option<(i64, InfoHashV1)>) -> (start: (i64, Option<InfoHashV1>))
    ensures
        match cursor {
            Some((at, hash)) if at >= earlier(now, RECENT_MS) => start == (at, Some(hash)),
            _ => start.0 == earlier(now, RECENT_MS) && start.1 is None,
        },
{
    let window: i64 = sub_time(now, RECENT_MS);
    match cursor {
        Some((at, hash)) => if at >= window {
            (at, Some(hash))
        } else {
            (window, None)
        },
        None => (window, None),
    }
}

/// Fills the recent page: it stops behind the row with which the places for recent torrents run
/// out.
pub fn fill_recent(admission: &mut Admission, rows: &Vec<Observation>, now: i64) -> (page: FilledPage)
    requires
        old(admission).total > 0,
        old(admission).recent > 0,
    ensures
        page.scanned <= rows@.len(),
        (*final(admission), page.inserted@) == fill_rows(
            *old(admission),
            rows@,
            now,
            recent_wants(),
            page.scanned as nat,
        ),
        page.scanned < rows@.len() ==> final(admission).total == 0 || final(admission).recent == 0,
        forall|k: int|
            0 <= k < page.scanned ==> {
                let left = #[trigger] fill_rows(*old(admission), rows@, now, recent_wants(), k as nat);
                left.0.total > 0 && left.0.recent > 0
            },
{
    let ghost start = *admission;
    let mut inserted: Vec<InfoHashV1> = Vec::new();
    let mut scanned: usize = 0;
    while scanned < rows.len() && admission.total > 0 && admission.recent > 0
        invariant
            scanned <= rows@.len(),
            start == *old(admission),
            (*admission, inserted@) == fill_rows(start, rows@, now, recent_wants(), scanned as nat),
            forall|k: int|
                0 <= k < scanned ==> {
                    let left = #[trigger] fill_rows(start, rows@, now, recent_wants(), k as nat);
                    left.0.total > 0 && left.0.recent > 0
                },
        decreases rows@.len() - scanned,
    {
        let row = rows[scanned];
        assert(recent_wants()(row) == !row.known);
        if !row.known {
            let mut job: Option<JobRow> = None;
            let result = admission.enqueue(&mut job, row.stored, row.first_seen, now);
            if result == Enqueued::Created {
                inserted.push(row.hash);
            }
        }
        scanned += 1;
    }
    FilledPage { inserted, scanned }
}

/// Fills a page of the history: it stops before the row for which there is no place left.
pub fn fill_history(
    admission: &mut Admission,
    rows: &Vec<Observation>,
    now: i64,
    recent_limit: usize,
) -> (page: FilledPage)
    ensures
        page.scanned <= rows@.len(),
        (*final(admission), page.inserted@) == fill_rows(
            *old(admission),
            rows@,
            now,
            history_wants(recent_limit as int, now),
            page.scanned as nat,
        ),
        page.scanned < rows@.len() ==> final(admission).room(false) <= 0,
        forall|k: int|
            0 <= k < page.scanned ==> {
                let left = #[trigger] fill_rows(
                    *old(admission),
                    rows@,
                    now,
                    history_wants(recent_limit as int, now),
                    k as nat,
                );
                left.0.room(false) > 0
            },
{
    let ghost start = *admission;
    let ghost wants = history_wants(recent_limit as int, now);
    let mut inserted: Vec<InfoHashV1> = Vec::new();
    let mut scanned: usize = 0;
    while scanned < rows.len() && admission.has_history_room()
        invariant
            scanned <= rows@.len(),
            start == *old(admission),
            wants == history_wants(recent_limit as int, now),
            (*admission, inserted@) == fill_rows(start, rows@, now, wants, scanned as nat),
            forall|k: int|
                0 <= k < scanned ==> {
                    let left = #[trigger] fill_rows(start, rows@, now, wants, k as nat);
                    left.0.room(false) > 0
                },
        decreases rows@.len() - scanned,
    {
        let row = rows[scanned];
        let asks = !row.known && !row.stored && (recent_limit == 0 || !recent(row.first_seen, now));
        assert(asks == wants(row));
        if asks {
            let mut job: Option<JobRow> = None;
            let result = admission.enqueue(&mut job, row.stored, row.first_seen, now);
            if result == Enqueued::Created {
                inserted.push(row.hash);
            }
        }
        scanned += 1;
    }
    FilledPage { inserted, scanned }
}

/// The number of rows on a page of the history, half as many while places are kept for recent
/// torrents.
pub fn history_page_size(recent_limit: usize) -> (size: usize)
    ensures
        size == (if recent_limit == 0 {
            BACKFILL_PAGE_SIZE as int
        } else {
            BACKFILL_PAGE_SIZE as int / 2
        }),
{
    if recent_limit == 0 {
        BACKFILL_PAGE_SIZE
    } else {
        BACKFILL_PAGE_SIZE / 2
    }
}

/// Where the next page of the history starts: behind the last row looked at, at the beginning once
/// there are no more rows, and where it was while there is no place.
pub fn history_cursor(blocked: bool, cursor: Option<InfoHashV1>, rows: &Vec<Observation>, scanned: usize) -> (next:
    Option<InfoHashV1>)
    requires
        scanned <= rows@.len(),
    ensures
        next == (if blocked {
            cursor
        } else if scanned == 0 {
            None
        } else {
            Some(rows@[scanned - 1].hash)
        }),
{
    if blocked {
        cursor
    } else if scanned == 0 {
        None
    } else {
        Some(rows[scanned - 1].hash)
    }
}

/// A page creates at most as many jobs as there were places, each for a row it looked at, and the
/// places that are left are those that were not taken.
pub proof fn lemma_page_bounded(
    admission: Admission,
    rows: Seq<Observation>,
    now: i64,
    wants: spec_fn(Observation) -> bool,
    n: nat,
)
    requires
        n <= rows.len(),
    ensures
        ({
            let (left, hashes) = fill_rows(admission, rows, now, wants, n);
            &&& hashes.len() <= n
            &&& left.total + hashes.len() == admission.total
            &&& left.enabled == admission.enabled
        }),
    decreases n,
{
    if n > 0 {
        lemma_page_bounded(admission, rows, now, wants, (n - 1) as nat);
    }
}

/// A page of the history leaves the places that are kept for recent torrents.
pub proof fn lemma_history_keeps_reserve(
    admission: Admission,
    rows: Seq<Observation>,
    now: i64,
    recent_limit: int,
    n: nat,
)
    requires
        n <= rows.len(),
        admission.enabled,
        recent_limit > 0,
        admission.history <= admission.total,
    ensures
        ({
            let left = fill_rows(admission, rows, now, history_wants(recent_limit, now), n).0;
            &&& left.total - left.history == admission.total - admission.history
            &&& left.recent == admission.recent
            &&& left.enabled
        }),
    decreases n,
{
    if n > 0 {
        lemma_history_keeps_reserve(admission, rows, now, recent_limit, (n - 1) as nat);
        let row = rows[n - 1];
        assert(history_wants(recent_limit, now)(row) ==> !is_recent(row.first_seen, now));
    }
}

/// A page takes its rows in order. The next one gets a job and takes a place of its kind exactly
/// where it is wanted, its metadata is not stored and its kind has a place left; any other row
/// changes nothing. A row is recent where it was first seen in the last half hour.
pub proof fn lemma_page_step(
    places: Admission,
    rows: Seq<Observation>,
    now: i64,
    wants: spec_fn(Observation) -> bool,
    n: nat,
)
    ensures
        fill_rows(places, rows, now, wants, 0) == (places, Seq::<InfoHashV1>::empty()),
        ({
            let row = rows[n as int];
            let recent = 0 <= now - row.first_seen <= 30 * 60 * 1000;
            let (left, hashes) = fill_rows(places, rows, now, wants, n);
            let (after, all) = fill_rows(places, rows, now, wants, n + 1);
            let room = if !left.enabled {
                left.total > 0
            } else if recent {
                left.total > 0 && left.recent > 0
            } else {
                left.total > 0 && left.history > 0
            };
            &&& wants(row) && !row.stored && room ==> all == hashes.push(row.hash) && after
                == left.used(recent)
            &&& !(wants(row) && !row.stored && room) ==> all == hashes && after == left
        }),
{
}

/// Recent rows are wanted unless they have a job. Rows of the history are wanted unless they have a
/// job or metadata or, where places are kept for recent rows, are recent themselves.
pub proof fn lemma_wanted(row: Observation, recent_limit: int, now: i64)
    ensures
        recent_wants()(row) <==> !row.known,
        history_wants(recent_limit, now)(row) <==> !row.known && !row.stored && (recent_limit == 0
            || row.first_seen > now || now - row.first_seen > 30 * 60 * 1000),
{
}

/// The report of a scope gives each reason with its count, and then all counts.
pub proof fn lemma_scope_records(scope: Scope, counts: BackfillSnapshot)
    ensures
        ({
            let records = scope_records(scope, counts);
            let deferrals = counts.deferrals;
            &&& records.len() == 5
            &&& records[0] == BackfillRecord::Deferral(
                scope,
                Deferral::TotalCapacity,
                deferrals.total_capacity,
            )
            &&& records[1] == BackfillRecord::Deferral(
                scope,
                Deferral::FirstAttemptBuffer,
                deferrals.first_attempt_buffer,
            )
            &&& records[2] == BackfillRecord::Deferral(
                scope,
                Deferral::HistoryReserve,
                deferrals.history_reserve,
            )
            &&& records[3] == BackfillRecord::Deferral(
                scope,
                Deferral::SampleWaitingBackfill,
                deferrals.sample_waiting_backfill,
            )
            &&& records[4] == BackfillRecord::Backfill(scope, counts)
        }),
        Scope::Total.text() == "total"@,
        Scope::Interval.text() == "interval"@,
{
}

/// Nothing is counted at first, and a part counts no more than the whole under any heading.
pub proof fn lemma_counts(part: BackfillSnapshot, whole: BackfillSnapshot)
    ensures
        ({
            let zero = BackfillSnapshot::zero();
            &&& zero.recent_scanned == 0
            &&& zero.recent_inserted == 0
            &&& zero.history_scanned == 0
            &&& zero.history_inserted == 0
            &&& forall|reason: Deferral| #[trigger] zero.deferrals.of(reason) == 0
        }),
        part.within(whole) <==> {
            &&& part.recent_scanned <= whole.recent_scanned
            &&& part.recent_inserted <= whole.recent_inserted
            &&& part.history_scanned <= whole.history_scanned
            &&& part.history_inserted <= whole.history_inserted
            &&& part.deferrals.total_capacity <= whole.deferrals.total_capacity
            &&& part.deferrals.first_attempt_buffer <= whole.deferrals.first_attempt_buffer
            &&& part.deferrals.history_reserve <= whole.deferrals.history_reserve
            &&& part.deferrals.sample_waiting_backfill <= whole.deferrals.sample_waiting_backfill
        },
{
    assert(part.deferrals.of(Deferral::TotalCapacity) == part.deferrals.total_capacity);
    assert(part.deferrals.of(Deferral::FirstAttemptBuffer) == part.deferrals.first_attempt_buffer);
    assert(part.deferrals.of(Deferral::HistoryReserve) == part.deferrals.history_reserve);
    assert(part.deferrals.of(Deferral::SampleWaitingBackfill)
        == part.deferrals.sample_waiting_backfill);
}

} // verus!
