//! The decisions of the collector: how it is set up, what it does with the outcome of a task, and how
//! it closes.

use crate::backpressure::{recent_limit, waiting_limit, Mode};
use crate::diagnostics::aggregate::DiagnosticsModel;
use crate::diagnostics::histogram::capped;
use crate::diagnostics::keys::{AttemptContext, Keyed};
use crate::diagnostics::metrics::{Counter, Metrics, MetricsModel};
use crate::diagnostics::snapshot::Event;
use crate::diagnostics::table::{Table, TableModel};
use crate::failure::AttemptFailure;
use crate::jobs::model::{LocalReason, RetryReason, UpdateResult};
use vstd::prelude::*;

verus! {

/// `tokio::sync::Semaphore::MAX_PERMITS`, the most permits that a semaphore holds: an eighth of the
/// range of `usize`.
#[verifier::external_body]
fn max_permits() -> (permits: usize)
    ensures
        permits == usize::MAX / 8,
{
    tokio::sync::Semaphore::MAX_PERMITS
}

/// Whether tasks can run with this concurrency.
pub fn validate(concurrency: usize) -> (valid: bool)
    ensures
        valid == (0 < concurrency <= usize::MAX / 8),
{
    concurrency != 0 && concurrency <= max_permits()
}

/// The limit for recent torrents that wait: none where sampling goes by the capacity alone.
pub fn admission_limit(mode: Mode, max_active: usize, concurrency: usize) -> (limit: usize)
    ensures
        limit == (if mode is Freshness {
            waiting_limit(max_active as int, concurrency as int)
        } else {
            0
        }),
{
    match mode {
        Mode::Freshness => recent_limit(max_active, concurrency),
        Mode::Capacity => 0,
    }
}

/// How a task ended.
#[derive(Clone, Copy, Debug, PartialEq, Eq, Structural)]
pub enum Outcome {
    /// The lookup could not be controlled.
    Control,
    /// An info dictionary was fetched, perhaps from a session with frames out of order.
    Success { bytes: u64, compatible: bool },
    /// The job is to be tried again.
    Retry(RetryReason),
}

/// What is done with the job of a task that ended.
#[derive(Clone, Copy, Debug, PartialEq, Eq, Structural)]
pub enum Step {
    /// Nothing: the collector fails.
    Fail,
    /// The result is stored.
    Complete,
    /// The job is put off.
    Retry(RetryReason),
}

/// What is done with the job of a task that ended while the collector runs.
pub fn running_step(outcome: Outcome) -> (step: Step)
    ensures
        step == match outcome {
            Outcome::Control => Step::Fail,
            Outcome::Success { .. } => Step::Complete,
            Outcome::Retry(reason) => Step::Retry(reason),
        },
{
    match outcome {
        Outcome::Control => Step::Fail,
        Outcome::Success { .. } => Step::Complete,
        Outcome::Retry(reason) => Step::Retry(reason),
    }
}

/// What is done with a job while the collector closes: results are kept, and everything else is put
/// off for a reason of this machine.
pub open spec fn step_when_closing(outcome: Outcome) -> Step {
    match outcome {
        Outcome::Control => Step::Fail,
        Outcome::Success { .. } => Step::Complete,
        Outcome::Retry(_) => Step::Retry(RetryReason::Local(LocalReason::Cancelled)),
    }
}

/// What is done with the job of a task that ended while the collector closes.
pub fn closing_step(outcome: Outcome) -> (step: Step)
    ensures
        step == step_when_closing(outcome),
{
    match outcome {
        Outcome::Control => Step::Fail,
        Outcome::Success { .. } => Step::Complete,
        Outcome::Retry(_) => Step::Retry(RetryReason::Local(LocalReason::Cancelled)),
    }
}

/// The place of a category among all, by label.
pub open spec fn category_place(failure: AttemptFailure) -> int {
    match failure {
        AttemptFailure::HashMismatch => 0,
        AttemptFailure::MetadataUnavailable => 1,
        AttemptFailure::NoPeers => 2,
        AttemptFailure::Other => 3,
        AttemptFailure::PeerIo => 4,
        AttemptFailure::PeerTimeout => 5,
        AttemptFailure::Protocol => 6,
        AttemptFailure::ReceiveLimit => 7,
        AttemptFailure::Rejected => 8,
        AttemptFailure::TaskTimeout => 9,
        AttemptFailure::Unsupported => 10,
    }
}

impl Keyed for AttemptFailure {
    open spec fn rank(self) -> int {
        category_place(self)
    }

    fn code(self) -> (code: u64) {
        match self {
            AttemptFailure::HashMismatch => 0,
            AttemptFailure::MetadataUnavailable => 1,
            AttemptFailure::NoPeers => 2,
            AttemptFailure::Other => 3,
            AttemptFailure::PeerIo => 4,
            AttemptFailure::PeerTimeout => 5,
            AttemptFailure::Protocol => 6,
            AttemptFailure::ReceiveLimit => 7,
            AttemptFailure::Rejected => 8,
            AttemptFailure::TaskTimeout => 9,
            AttemptFailure::Unsupported => 10,
        }
    }

    proof fn lemma_rank(a: Self, b: Self) {
    }
}

/// What a run of the collector has achieved. Only what was stored counts.
#[derive(Debug)]
pub struct CompletionTotals {
    pub succeeded: u64,
    pub failed: u64,
    pub failure_categories: Table<AttemptFailure, u64>,
}

/// The model of the achievements.
#[verifier::ext_equal]
pub struct TotalsModel {
    pub succeeded: u64,
    pub failed: u64,
    pub failure_categories: TableModel<AttemptFailure, u64>,
}

impl View for CompletionTotals {
    type V = TotalsModel;

    open spec fn view(&self) -> TotalsModel {
        TotalsModel {
            succeeded: self.succeeded,
            failed: self.failed,
            failure_categories: self.failure_categories@,
        }
    }
}

impl TotalsModel {
    /// Whether the categories are in order and add up to the failures.
    pub open spec fn well_formed(self) -> bool {
        &&& self.failure_categories.in_order()
        &&& self.failure_categories.sum() == self.failed
    }

    /// The achievements after an outcome took effect.
    pub open spec fn after(self, outcome: Outcome, update: UpdateResult) -> TotalsModel {
        match (outcome, update) {
            (Outcome::Success { .. }, UpdateResult::Applied) => TotalsModel {
                succeeded: (self.succeeded + 1) as u64,
                ..self
            },
            (Outcome::Retry(RetryReason::Failed(failure)), UpdateResult::Applied) => TotalsModel {
                failed: (self.failed + 1) as u64,
                failure_categories: self.failure_categories.added(failure, 1),
                ..self
            },
            _ => self,
        }
    }
}

impl CompletionTotals {
    /// Nothing achieved.
    pub fn new() -> (totals: CompletionTotals)
        ensures
            totals@ == (TotalsModel {
                succeeded: 0,
                failed: 0,
                failure_categories: TableModel::empty(),
            }),
            totals@.well_formed(),
    {
        CompletionTotals { succeeded: 0, failed: 0, failure_categories: Table::new() }
    }

    /// Counts an outcome that took effect, or did not.
    pub fn settle(&mut self, outcome: Outcome, update: UpdateResult)
        requires
            old(self)@.well_formed(),
            old(self).succeeded < u64::MAX,
            old(self).failed < u64::MAX,
        ensures
            final(self)@ == old(self)@.after(outcome, update),
            final(self)@.well_formed(),
    {
        if update != UpdateResult::Applied {
            return;
        }
        match outcome {
            Outcome::Control => {},
            Outcome::Success { .. } => {
                self.succeeded = self.succeeded + 1;
            },
            Outcome::Retry(reason) => match reason {
                RetryReason::Failed(failure) => {
                    self.failed = self.failed + 1;
                    self.failure_categories.add_count(failure, 1);
                },
                _ => {},
            },
        }
        assert(self@ =~= old(self)@.after(outcome, update));
    }
}

/// The diagnostics after a result was stored.
pub open spec fn committed_diagnostics(
    diagnostics: DiagnosticsModel,
    attempt: AttemptContext,
    compatible: bool,
) -> DiagnosticsModel {
    let counted = diagnostics.noted(Event::Commit { context: attempt });
    if compatible {
        counted.noted(Event::CompatibleCommit)
    } else {
        counted
    }
}

/// The counters after a step took effect. A job that is put off counts as a failure of the peers
/// only where it is one.
pub open spec fn counted_step(metrics: MetricsModel, step: Step, bytes: u64) -> MetricsModel {
    match step {
        Step::Fail => metrics,
        Step::Complete => metrics.added(Counter::MetadataCommitted, 1).added(
            Counter::MetadataBytes,
            bytes,
        ),
        Step::Retry(reason) => if reason is Failed {
            metrics.added(Counter::RemoteFailures, 1)
        } else {
            metrics.added(Counter::LocalDeferrals, 1)
        },
    }
}

/// Counts a step that took effect, or did not.
pub fn count_step(
    metrics: &mut Metrics,
    attempt: AttemptContext,
    step: Step,
    bytes: u64,
    compatible: bool,
    update: UpdateResult,
)
    requires
        old(metrics).total@.well_formed(),
        old(metrics).interval@.well_formed(),
        old(metrics).diagnostics@.well_formed(),
        old(metrics).diagnostics@.has_room(),
    ensures
        final(metrics).total@ == if update is Applied {
            counted_step(old(metrics).total@, step, bytes)
        } else {
            old(metrics).total@
        },
        final(metrics).interval@ == if update is Applied {
            counted_step(old(metrics).interval@, step, bytes)
        } else {
            old(metrics).interval@
        },
        final(metrics).diagnostics@ == if update is Applied && step is Complete {
            committed_diagnostics(old(metrics).diagnostics@, attempt, compatible)
        } else {
            old(metrics).diagnostics@
        },
        final(metrics).total@.well_formed(),
        final(metrics).interval@.well_formed(),
        final(metrics).diagnostics@.well_formed(),
{
    if update != UpdateResult::Applied {
        return;
    }
    match step {
        Step::Fail => {},
        Step::Complete => {
            metrics.diagnostics.note(Event::Commit { context: attempt });
            if compatible {
                metrics.diagnostics.note(Event::CompatibleCommit);
            }
            metrics.add(Counter::MetadataCommitted, 1);
            metrics.add(Counter::MetadataBytes, bytes);
        },
        Step::Retry(reason) => {
            if reason.failure_category().is_some() {
                metrics.add(Counter::RemoteFailures, 1);
            } else {
                metrics.add(Counter::LocalDeferrals, 1);
            }
        },
    }
}

/// How a worker ended while the collector closes.
#[derive(Clone, Copy, Debug, PartialEq, Eq, Structural)]
pub enum WorkerEnd {
    /// With an outcome.
    Finished(Outcome),
    /// With an error, or before it began.
    Lost,
}

/// The close of the collector: whether the store still takes writes, and whether it is full.
#[derive(Clone, Copy, Debug, PartialEq, Eq, Structural)]
pub struct Closing {
    pub writable: bool,
    pub storage_paused: bool,
}

impl Closing {
    /// The step for a worker that ended: none once the store takes no writes.
    pub open spec fn step(self, end: WorkerEnd) -> Option<Step> {
        if !self.writable {
            None
        } else {
            Some(
                match end {
                    WorkerEnd::Finished(outcome) => step_when_closing(outcome),
                    WorkerEnd::Lost => Step::Retry(RetryReason::Local(LocalReason::Cancelled)),
                },
            )
        }
    }

    /// The close after a write that went well, or did not.
    pub open spec fn after(self, written: bool) -> Closing {
        Closing { writable: self.writable && written, ..self }
    }

    /// The close after some writes.
    pub open spec fn after_all(self, written: Seq<bool>) -> Closing
        decreases written.len(),
    {
        if written.len() == 0 {
            self
        } else {
            self.after_all(written.drop_last()).after(written.last())
        }
    }

    /// Begins the close. After an error of the store nothing is written.
    pub fn new(storage_failed: bool, storage_paused: bool) -> (closing: Closing)
        ensures
            closing == (Closing { writable: !storage_failed, storage_paused }),
    {
        Closing { writable: !storage_failed, storage_paused }
    }

    /// The step for a worker that ended.
    pub fn save(&self, end: WorkerEnd) -> (step: Option<Step>)
        ensures
            step == self.step(end),
    {
        if !self.writable {
            return None;
        }
        match end {
            WorkerEnd::Finished(outcome) => Some(closing_step(outcome)),
            WorkerEnd::Lost => Some(closing_step(Outcome::Retry(RetryReason::Deferred))),
        }
    }

    /// Notes whether a write went well.
    pub fn saved(&mut self, written: bool)
        ensures
            *final(self) == old(self).after(written),
    {
        self.writable = self.writable && written;
    }

    /// Whether the announcements that are left are accepted.
    pub fn drains(&self) -> (drains: bool)
        ensures
            drains == (self.writable && !self.storage_paused),
    {
        self.writable && !self.storage_paused
    }
}

/// Once a write fails, nothing is written any more.
pub proof fn lemma_nothing_after_failure(closing: Closing, written: Seq<bool>, end: WorkerEnd)
    requires
        written.contains(false),
    ensures
        closing.after_all(written).step(end) is None,
        !closing.after_all(written).writable,
    decreases written.len(),
{
    let i = choose|i: int| 0 <= i < written.len() && !written[i];
    if i < written.len() - 1 {
        let rest = written.drop_last();
        assert(rest[i] == written[i]);
        assert(rest.contains(false));
        lemma_nothing_after_failure(closing, rest, end);
    }
}

/// A close never counts as a failure of the peers.
pub proof fn lemma_close_is_local(outcome: Outcome, reason: RetryReason)
    ensures
        step_when_closing(outcome) == Step::Retry(reason) ==> !(reason is Failed),
{
}

/// A file of the store.
#[derive(Clone, Copy, Debug, PartialEq, Eq, Structural)]
pub enum FileState {
    Present(u64),
    Missing,
    Unreadable,
}

/// The sizes of files together.
pub open spec fn sizes(files: Seq<FileState>) -> int
    decreases files.len(),
{
    if files.len() == 0 {
        0
    } else {
        sizes(files.drop_last()) + match files.last() {
            FileState::Present(bytes) => bytes as int,
            _ => 0,
        }
    }
}

/// The size of the store in bytes, as far as it can be held: nothing where a file cannot be read.
pub fn state_size(files: &Vec<FileState>) -> (size: Option<u64>)
    ensures
        (exists|i: int| 0 <= i < files@.len() && #[trigger] files@[i] is Unreadable) ==> size
            is None,
        (forall|i: int| 0 <= i < files@.len() ==> !(#[trigger] files@[i] is Unreadable)) ==> size
            == Some(capped(sizes(files@))),
{
    let mut bytes: u64 = 0;
    for i in 0..files.len()
        invariant
            bytes == capped(sizes(files@.take(i as int))),
            0 <= sizes(files@.take(i as int)),
            forall|k: int| 0 <= k < i ==> !(#[trigger] files@[k] is Unreadable),
    {
        proof {
            assert(files@.take(i + 1).drop_last() =~= files@.take(i as int));
            assert(files@.take(i + 1).last() == files@[i as int]);
        }
        match files[i] {
            FileState::Present(size) => {
                bytes = bytes.saturating_add(size);
            },
            FileState::Missing => {},
            FileState::Unreadable => {
                return None;
            },
        }
    }
    assert(files@.take(files@.len() as int) =~= files@);
    Some(bytes)
}

/// While the collector closes, a result is still stored, and whatever else ends its task without one
/// is put off as cancelled; a lookup that could not be controlled fails the collector. Nothing is
/// done once a write failed.
pub proof fn lemma_closing(closing: Closing, bytes: u64, compatible: bool, reason: RetryReason)
    ensures
        !closing.writable ==> closing.step(WorkerEnd::Lost) is None,
        closing.writable ==> {
            let cancelled = Step::Retry(RetryReason::Local(LocalReason::Cancelled));
            &&& closing.step(WorkerEnd::Lost) == Some(cancelled)
            &&& closing.step(WorkerEnd::Finished(Outcome::Retry(reason))) == Some(cancelled)
            &&& closing.step(WorkerEnd::Finished(Outcome::Success { bytes, compatible })) == Some(
                Step::Complete,
            )
            &&& closing.step(WorkerEnd::Finished(Outcome::Control)) == Some(Step::Fail)
        },
        closing.after(true) == closing,
        !closing.after(false).writable,
        closing.after(false).storage_paused == closing.storage_paused,
{
}

/// A result that was applied counts once as a success, a failure that was applied once as one of its
/// category. A reason of this machine counts as neither, and so does what came too late.
pub proof fn lemma_totals(
    totals: TotalsModel,
    bytes: u64,
    compatible: bool,
    failure: AttemptFailure,
    local: LocalReason,
)
    requires
        totals.succeeded < u64::MAX,
        totals.failed < u64::MAX,
    ensures
        ({
            let done = totals.after(Outcome::Success { bytes, compatible }, UpdateResult::Applied);
            &&& done.succeeded == totals.succeeded + 1
            &&& done.failed == totals.failed
            &&& done.failure_categories == totals.failure_categories
        }),
        ({
            let failed = totals.after(
                Outcome::Retry(RetryReason::Failed(failure)),
                UpdateResult::Applied,
            );
            &&& failed.succeeded == totals.succeeded
            &&& failed.failed == totals.failed + 1
            &&& failed.failure_categories == totals.failure_categories.added(failure, 1)
        }),
        totals.after(Outcome::Retry(RetryReason::Local(local)), UpdateResult::Applied) == totals,
        totals.after(Outcome::Retry(RetryReason::Deferred), UpdateResult::Applied) == totals,
        totals.after(Outcome::Control, UpdateResult::Applied) == totals,
        totals.after(Outcome::Success { bytes, compatible }, UpdateResult::Stale) == totals,
        totals.after(Outcome::Retry(RetryReason::Failed(failure)), UpdateResult::Stale) == totals,
{
}

/// The categories stand in the order of their names.
pub proof fn lemma_category_order(a: AttemptFailure, b: AttemptFailure)
    ensures
        0 <= a.rank() <= 10,
        a.rank() == b.rank() ==> a == b,
        AttemptFailure::HashMismatch.rank() < AttemptFailure::MetadataUnavailable.rank()
            < AttemptFailure::NoPeers.rank() < AttemptFailure::Other.rank()
            < AttemptFailure::PeerIo.rank() < AttemptFailure::PeerTimeout.rank()
            < AttemptFailure::Protocol.rank() < AttemptFailure::ReceiveLimit.rank()
            < AttemptFailure::Rejected.rank() < AttemptFailure::TaskTimeout.rank()
            < AttemptFailure::Unsupported.rank(),
{
}

/// A stored result counts once and with its bytes, a failure of the peers as a remote one, and any
/// other retry as a local one.
pub proof fn lemma_counted_step(
    metrics: MetricsModel,
    bytes: u64,
    failure: AttemptFailure,
    local: LocalReason,
    counter: Counter,
)
    requires
        metrics.counts.len() == 16,
        forall|i: int| 0 <= i < 16 ==> (#[trigger] metrics.counts[i]) + bytes + 1 <= u64::MAX,
    ensures
        ({
            let before = metrics.counts[counter.index()] as int;
            let done = counted_step(metrics, Step::Complete, bytes);
            let failed = counted_step(metrics, Step::Retry(RetryReason::Failed(failure)), bytes);
            let put_off = counted_step(metrics, Step::Retry(RetryReason::Local(local)), bytes);
            &&& done.counts[counter.index()] == before + if counter is MetadataCommitted {
                1
            } else if counter is MetadataBytes {
                bytes as int
            } else {
                0
            }
            &&& failed.counts[counter.index()] == before + if counter is RemoteFailures {
                1int
            } else {
                0
            }
            &&& put_off.counts[counter.index()] == before + if counter is LocalDeferrals {
                1int
            } else {
                0
            }
            &&& counted_step(metrics, Step::Retry(RetryReason::Deferred), bytes)
                == counted_step(metrics, Step::Retry(RetryReason::Local(local)), bytes)
            &&& counted_step(metrics, Step::Fail, bytes) == metrics
        }),
{
}

/// A file that is there adds its size, and one that is missing none.
pub proof fn lemma_sizes(files: Seq<FileState>, bytes: u64)
    ensures
        sizes(Seq::empty()) == 0,
        sizes(files.push(FileState::Present(bytes))) == sizes(files) + bytes,
        sizes(files.push(FileState::Missing)) == sizes(files),
{
    assert(files.push(FileState::Present(bytes)).drop_last() =~= files);
    assert(files.push(FileState::Missing).drop_last() =~= files);
}

/// A stored result is confirmed for its attempt, and counted once more where its session had frames
/// out of order.
pub proof fn lemma_committed(diagnostics: DiagnosticsModel, attempt: AttemptContext)
    ensures
        committed_diagnostics(diagnostics, attempt, false) == diagnostics.noted(
            Event::Commit { context: attempt },
        ),
        committed_diagnostics(diagnostics, attempt, true) == diagnostics.noted(
            Event::Commit { context: attempt },
        ).noted(Event::CompatibleCommit),
{
}

/// The model of the achievements holds each of their counts.
pub proof fn lemma_totals_view(totals: CompletionTotals)
    ensures
        totals@.succeeded == totals.succeeded,
        totals@.failed == totals.failed,
        totals@.failure_categories == totals.failure_categories@,
{
}

} // verus!
