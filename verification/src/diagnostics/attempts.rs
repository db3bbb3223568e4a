//! Attempts by their history: what they cost, how they went and which were committed.

use crate::diagnostics::histogram::{capped, lemma_empty, lemma_merged, Buckets, Histogram, HistogramModel};
use crate::diagnostics::keys::{
    AttemptContext, AttemptHistory, AttemptKey, AttemptResult, ClassKey, CommitKey, HintKey,
    HistoryKey, Keyed, TaskTiming,
};
use crate::diagnostics::table::{
    all_counts, all_sums, lemma_counts_part, lemma_place, lemma_put_get, lemma_put_holds, lemma_put_in_order,
    lemma_put_sum, lemma_put_total, lemma_sums_part, place_of, Table, TableModel,
};
use crate::jobs::model::{AttemptKind, ClaimClass};
use vstd::prelude::*;

verus! {

/// The attempts by whether there was a valid address when they were claimed.
#[derive(Clone, Copy, Debug, PartialEq, Eq, Structural)]
pub struct HintSummary {
    pub claims: u64,
    pub executions: u64,
    pub execution_sum_ms: u64,
    pub downloaded: u64,
    pub committed: u64,
}

impl View for HintSummary {
    type V = HintSummary;

    open spec fn view(&self) -> HintSummary {
        *self
    }
}

impl HintSummary {
    /// Nothing counted.
    pub open spec fn zero() -> HintSummary {
        HintSummary { claims: 0, executions: 0, execution_sum_ms: 0, downloaded: 0, committed: 0 }
    }

    /// The summary with the durations of one more row.
    pub open spec fn timed(
        self,
        timing: TaskTiming,
        result: AttemptResult,
        durations: HistogramModel,
    ) -> HintSummary {
        match timing {
            TaskTiming::DueWait => HintSummary {
                claims: (self.claims + durations.count) as u64,
                ..self
            },
            TaskTiming::DiscoveryAge => self,
            TaskTiming::Execution => HintSummary {
                executions: (self.executions + durations.count) as u64,
                execution_sum_ms: capped(self.execution_sum_ms + durations.sum_ms),
                downloaded: if result is Downloaded {
                    (self.downloaded + durations.count) as u64
                } else {
                    self.downloaded
                },
                ..self
            },
        }
    }

    /// The summary with more commits.
    pub open spec fn confirmed(self, count: u64) -> HintSummary {
        HintSummary { committed: (self.committed + count) as u64, ..self }
    }
}

/// The aggregate of all attempts in all their dimensions, and the commits on their own.
#[derive(Debug)]
pub struct AttemptStats {
    pub timings: Table<AttemptKey, Histogram>,
    pub committed: Table<AttemptContext, u64>,
}

/// The model of the aggregate.
#[verifier::ext_equal]
pub struct AttemptModel {
    pub timings: TableModel<AttemptKey, HistogramModel>,
    pub committed: TableModel<AttemptContext, u64>,
}

impl View for AttemptStats {
    type V = AttemptModel;

    open spec fn view(&self) -> AttemptModel {
        AttemptModel { timings: self.timings@, committed: self.committed@ }
    }
}

impl AttemptModel {
    /// Nothing counted.
    pub open spec fn empty() -> AttemptModel {
        AttemptModel { timings: TableModel::empty(), committed: TableModel::empty() }
    }

    /// Whether the tables are in order and their sums can be held.
    pub open spec fn well_formed(self) -> bool {
        &&& self.timings.well_formed()
        &&& self.timings.total() <= u64::MAX
        &&& self.committed.in_order()
        &&& self.committed.sum() <= u64::MAX
    }

    /// The aggregate with one more duration.
    pub open spec fn recorded(self, key: AttemptKey, millis: u64) -> AttemptModel {
        AttemptModel { timings: self.timings.recorded(key, millis), ..self }
    }

    /// The aggregate with one more commit.
    pub open spec fn confirmed(self, context: AttemptContext) -> AttemptModel {
        AttemptModel { committed: self.committed.added(context, 1), ..self }
    }

    /// The aggregate in fewer dimensions.
    pub open spec fn views(self) -> ViewsModel {
        ViewsModel {
            hints: hint_commits(hint_timings(self.timings), self.committed),
            timings: regroup(self.timings, by_history()),
            committed: resum(self.committed, context_history()),
            class_timings: regroup(self.timings, by_class()),
            class_committed: resum(self.committed, context_class()),
        }
    }
}

/// The aggregate in fewer dimensions.
#[derive(Debug)]
pub struct AttemptViews {
    pub hints: Table<HintKey, HintSummary>,
    pub timings: Table<HistoryKey, Histogram>,
    pub committed: Table<AttemptHistory, u64>,
    pub class_timings: Table<ClassKey, Histogram>,
    pub class_committed: Table<CommitKey, u64>,
}

/// The model of the aggregate in fewer dimensions.
#[verifier::ext_equal]
pub struct ViewsModel {
    pub hints: TableModel<HintKey, HintSummary>,
    pub timings: TableModel<HistoryKey, HistogramModel>,
    pub committed: TableModel<AttemptHistory, u64>,
    pub class_timings: TableModel<ClassKey, HistogramModel>,
    pub class_committed: TableModel<CommitKey, u64>,
}

impl View for AttemptViews {
    type V = ViewsModel;

    open spec fn view(&self) -> ViewsModel {
        ViewsModel {
            hints: self.hints@,
            timings: self.timings@,
            committed: self.committed@,
            class_timings: self.class_timings@,
            class_committed: self.class_committed@,
        }
    }
}

/// What of a key tells of addresses.
pub open spec fn hint_key(context: AttemptContext) -> HintKey {
    HintKey { kind: context.kind, had_valid_hint: context.had_valid_hint }
}

/// A key without class and addresses.
pub open spec fn history_key(key: AttemptKey) -> HistoryKey {
    HistoryKey { history: key.context.past(), timing: key.timing, result: key.result }
}

/// A key without addresses.
pub open spec fn class_key(key: AttemptKey) -> ClassKey {
    ClassKey {
        history: key.context.past(),
        class: key.context.class,
        timing: key.timing,
        result: key.result,
    }
}

/// The context of a commit without addresses.
pub open spec fn commit_key(context: AttemptContext) -> CommitKey {
    CommitKey { history: context.past(), class: context.class }
}

/// Keys by history.
pub open spec fn by_history() -> spec_fn(AttemptKey) -> HistoryKey {
    |key: AttemptKey| history_key(key)
}

/// Keys by history and class.
pub open spec fn by_class() -> spec_fn(AttemptKey) -> ClassKey {
    |key: AttemptKey| class_key(key)
}

/// Contexts by history.
pub open spec fn context_history() -> spec_fn(AttemptContext) -> AttemptHistory {
    |context: AttemptContext| context.past()
}

/// Contexts by history and class.
pub open spec fn context_class() -> spec_fn(AttemptContext) -> CommitKey {
    |context: AttemptContext| commit_key(context)
}

/// Rows put together that agree in a part of their keys: their buckets add up.
pub open spec fn regroup<K: Keyed, P: Keyed>(
    rows: TableModel<K, HistogramModel>,
    part: spec_fn(K) -> P,
) -> TableModel<P, HistogramModel>
    decreases rows.keys.len(),
{
    if rows.keys.len() == 0 {
        TableModel::empty()
    } else {
        regroup(rows.drop_last(), part).merged(part(rows.keys.last()), rows.values.last())
    }
}

/// Numbers put together that agree in a part of their keys.
pub open spec fn resum<K: Keyed, P: Keyed>(
    rows: TableModel<K, u64>,
    part: spec_fn(K) -> P,
) -> TableModel<P, u64>
    decreases rows.keys.len(),
{
    if rows.keys.len() == 0 {
        TableModel::empty()
    } else {
        resum(rows.drop_last(), part).added(part(rows.keys.last()), rows.values.last())
    }
}

/// The summary of a key: an empty one where there is none.
pub open spec fn summary(hints: TableModel<HintKey, HintSummary>, key: HintKey) -> HintSummary {
    match hints.get(key) {
        Some(summary) => summary,
        None => HintSummary::zero(),
    }
}

/// The summaries of the durations.
pub open spec fn hint_timings(rows: TableModel<AttemptKey, HistogramModel>) -> TableModel<
    HintKey,
    HintSummary,
>
    decreases rows.keys.len(),
{
    if rows.keys.len() == 0 {
        TableModel::empty()
    } else {
        let hints = hint_timings(rows.drop_last());
        let key = rows.keys.last();
        hints.put(
            hint_key(key.context),
            summary(hints, hint_key(key.context)).timed(
                key.timing,
                key.result,
                rows.values.last(),
            ),
        )
    }
}

/// The summaries with the commits.
pub open spec fn hint_commits(
    hints: TableModel<HintKey, HintSummary>,
    rows: TableModel<AttemptContext, u64>,
) -> TableModel<HintKey, HintSummary>
    decreases rows.keys.len(),
{
    if rows.keys.len() == 0 {
        hints
    } else {
        let before = hint_commits(hints, rows.drop_last());
        let key = hint_key(rows.keys.last());
        before.put(key, summary(before, key).confirmed(rows.values.last()))
    }
}

/// Whether every summary counts no more than there is.
pub open spec fn hints_within(hints: TableModel<HintKey, HintSummary>, timed: int, committed: int) -> bool {
    forall|i: int|
        0 <= i < hints.values.len() ==> {
            let summary = #[trigger] hints.values[i];
            &&& summary.claims <= timed
            &&& summary.executions <= timed
            &&& summary.downloaded <= timed
            &&& summary.committed <= committed
        }
}

proof fn lemma_hints_within(
    hints: TableModel<HintKey, HintSummary>,
    key: HintKey,
    value: HintSummary,
    timed: int,
    committed: int,
)
    requires
        hints.in_order(),
        hints_within(hints, timed, committed),
        value.claims <= timed,
        value.executions <= timed,
        value.downloaded <= timed,
        value.committed <= committed,
    ensures
        hints_within(hints.put(key, value), timed, committed),
{
    let next = hints.put(key, value);
    let at = place_of(hints.keys, key);
    lemma_place(hints.keys, key);
    assert forall|i: int| 0 <= i < next.values.len() implies {
        let summary = #[trigger] next.values[i];
        &&& summary.claims <= timed
        &&& summary.executions <= timed
        &&& summary.downloaded <= timed
        &&& summary.committed <= committed
    } by {
        if i != at {
            if hints.keys.contains(key) || i < at {
                assert(next.values[i] == hints.values[i]);
            } else {
                assert(next.values[i] == hints.values[i - 1]);
            }
        }
    }
}

proof fn lemma_counts_take(values: Seq<HistogramModel>, n: int)
    requires
        0 <= n < values.len(),
    ensures
        all_counts(values.take(n + 1)) == all_counts(values.take(n)) + values[n].count,
        0 <= all_counts(values.take(n)),
        all_counts(values.take(n + 1)) <= all_counts(values),
    decreases values.len(),
{
    assert(values.take(n + 1).drop_last() =~= values.take(n));
    lemma_counts_part(values.take(n), 0);
    if n + 1 == values.len() {
        assert(values.take(n + 1) =~= values);
    } else {
        let rest = values.drop_last();
        lemma_counts_take(rest, n);
        assert(rest.take(n + 1) =~= values.take(n + 1));
    }
}

proof fn lemma_sums_take(values: Seq<u64>, n: int)
    requires
        0 <= n < values.len(),
    ensures
        all_sums(values.take(n + 1)) == all_sums(values.take(n)) + values[n],
        0 <= all_sums(values.take(n)),
        all_sums(values.take(n + 1)) <= all_sums(values),
    decreases values.len(),
{
    assert(values.take(n + 1).drop_last() =~= values.take(n));
    lemma_sums_part(values.take(n), 0);
    if n + 1 == values.len() {
        assert(values.take(n + 1) =~= values);
    } else {
        let rest = values.drop_last();
        lemma_sums_take(rest, n);
        assert(rest.take(n + 1) =~= values.take(n + 1));
    }
}

impl AttemptStats {
    /// Nothing counted.
    pub fn new() -> (stats: AttemptStats)
        ensures
            stats@ == AttemptModel::empty(),
            stats@.well_formed(),
    {
        AttemptStats { timings: Table::new(), committed: Table::new() }
    }

    /// Counts a duration of an attempt.
    pub fn record(&mut self, key: AttemptKey, millis: u64)
        requires
            old(self)@.well_formed(),
            old(self)@.timings.total() < u64::MAX,
        ensures
            final(self)@ == old(self)@.recorded(key, millis),
            final(self)@.well_formed(),
            final(self)@.timings.total() == old(self)@.timings.total() + 1,
    {
        self.timings.record(key, millis);
    }

    /// Counts a commit. An execution that succeeded is not one yet.
    pub fn confirm(&mut self, context: AttemptContext)
        requires
            old(self)@.well_formed(),
            old(self)@.committed.sum() < u64::MAX,
        ensures
            final(self)@ == old(self)@.confirmed(context),
            final(self)@.well_formed(),
            final(self)@.committed.sum() == old(self)@.committed.sum() + 1,
    {
        self.committed.add_count(context, 1);
    }

    /// A copy of the aggregate.
    pub fn copy(&self) -> (copy: AttemptStats)
        requires
            self@.well_formed(),
        ensures
            copy@ == self@,
    {
        AttemptStats { timings: self.timings.copy(), committed: self.committed.copy() }
    }

    /// The aggregate in fewer dimensions. Buckets add up before any quantile is taken.
    pub fn project(&self) -> (views: AttemptViews)
        requires
            self@.well_formed(),
        ensures
            views@ == self@.views(),
            views@.hints.in_order(),
            views@.timings.well_formed(),
            views@.timings.total() == self@.timings.total(),
            views@.committed.in_order(),
            views@.committed.sum() == self@.committed.sum(),
            views@.class_timings.well_formed(),
            views@.class_timings.total() == self@.timings.total(),
            views@.class_committed.in_order(),
            views@.class_committed.sum() == self@.committed.sum(),
    {
        let ghost rows = self@.timings;
        let ghost commits = self@.committed;
        let mut hints: Table<HintKey, HintSummary> = Table::new();
        let mut timings: Table<HistoryKey, Histogram> = Table::new();
        let mut class_timings: Table<ClassKey, Histogram> = Table::new();
        for i in 0..self.timings.keys.len()
            invariant
                rows == self.timings@,
                rows.well_formed(),
                rows.total() <= u64::MAX,
                hints@ == hint_timings(rows.take(i as int)),
                hints@.in_order(),
                hints_within(hints@, rows.take(i as int).total(), 0),
                timings@ == regroup(rows.take(i as int), by_history()),
                timings@.well_formed(),
                timings@.total() == rows.take(i as int).total(),
                class_timings@ == regroup(rows.take(i as int), by_class()),
                class_timings@.well_formed(),
                class_timings@.total() == rows.take(i as int).total(),
        {
            let key = self.timings.keys[i];
            let durations = &self.timings.values[i];
            let ghost next = rows.take(i + 1);
            proof {
                lemma_counts_take(rows.values, i as int);
                assert(next.drop_last() =~= rows.take(i as int));
                assert(next.keys.last() == key);
                assert(rows.values[i as int] == durations@);
                assert(next.values.last() == durations@);
            }
            let hinted = HintKey {
                kind: key.context.kind,
                had_valid_hint: key.context.had_valid_hint,
            };
            let mut hint = match hints.get(hinted) {
                Some(hint) => *hint,
                None => HintSummary {
                    claims: 0,
                    executions: 0,
                    execution_sum_ms: 0,
                    downloaded: 0,
                    committed: 0,
                },
            };
            proof {
                lemma_place(hints@.keys, hinted);
                assert(hint == summary(hints@, hinted));
            }
            match key.timing {
                TaskTiming::DueWait => {
                    hint.claims = hint.claims + durations.count;
                },
                TaskTiming::DiscoveryAge => {},
                TaskTiming::Execution => {
                    hint.executions = hint.executions + durations.count;
                    hint.execution_sum_ms = hint.execution_sum_ms.saturating_add(durations.sum_ms);
                    if matches!(key.result, AttemptResult::Downloaded) {
                        hint.downloaded = hint.downloaded + durations.count;
                    }
                },
            }
            proof {
                assert(hints_within(hints@, next.total(), 0));
                lemma_hints_within(hints@, hinted, hint, next.total(), 0);
            }
            hints.put(hinted, hint);
            let history = key.context.history();
            timings.merge(
                HistoryKey { history, timing: key.timing, result: key.result },
                durations,
            );
            class_timings.merge(
                ClassKey {
                    history,
                    class: key.context.class,
                    timing: key.timing,
                    result: key.result,
                },
                durations,
            );
        }
        assert(rows.take(rows.keys.len() as int) =~= rows);
        let ghost timed = hints@;
        let mut committed: Table<AttemptHistory, u64> = Table::new();
        let mut class_committed: Table<CommitKey, u64> = Table::new();
        for i in 0..self.committed.keys.len()
            invariant
                commits == self.committed@,
                commits.in_order(),
                commits.sum() <= u64::MAX,
                rows.total() <= u64::MAX,
                hints@ == hint_commits(timed, commits.take(i as int)),
                hints@.in_order(),
                hints_within(hints@, rows.total(), commits.take(i as int).sum()),
                committed@ == resum(commits.take(i as int), context_history()),
                committed@.in_order(),
                committed@.sum() == commits.take(i as int).sum(),
                class_committed@ == resum(commits.take(i as int), context_class()),
                class_committed@.in_order(),
                class_committed@.sum() == commits.take(i as int).sum(),
        {
            let context = self.committed.keys[i];
            let count: u64 = self.committed.values[i];
            let ghost next = commits.take(i + 1);
            proof {
                lemma_sums_take(commits.values, i as int);
                assert(next.drop_last() =~= commits.take(i as int));
                assert(next.keys.last() == context);
                assert(commits.values[i as int] == count);
                assert(next.values.last() == count);
            }
            let hinted = HintKey { kind: context.kind, had_valid_hint: context.had_valid_hint };
            let mut hint = match hints.get(hinted) {
                Some(hint) => *hint,
                None => HintSummary {
                    claims: 0,
                    executions: 0,
                    execution_sum_ms: 0,
                    downloaded: 0,
                    committed: 0,
                },
            };
            proof {
                lemma_place(hints@.keys, hinted);
                lemma_counts_part(rows.values, 0);
                assert(hint == summary(hints@, hinted));
            }
            hint.committed = hint.committed + count;
            proof {
                assert(hints_within(hints@, rows.total(), next.sum()));
                lemma_hints_within(hints@, hinted, hint, rows.total(), next.sum());
            }
            hints.put(hinted, hint);
            committed.add_count(context.history(), count);
            class_committed.add_count(
                CommitKey { history: context.history(), class: context.class },
                count,
            );
        }
        assert(commits.take(commits.keys.len() as int) =~= commits);
        AttemptViews { hints, timings, committed, class_timings, class_committed }
    }
}

/// The keys with a given part.
pub open spec fn having<K, P>(part: spec_fn(K) -> P, wanted: P) -> spec_fn(K) -> bool {
    |key: K| part(key) == wanted
}

/// The keys of which a part is kept.
pub open spec fn with_part<K, P>(part: spec_fn(K) -> P, keep: spec_fn(P) -> bool) -> spec_fn(
    K,
) -> bool {
    |key: K| keep(part(key))
}

/// How many durations there are in the rows that are kept.
pub open spec fn counted<K: Keyed>(
    rows: TableModel<K, HistogramModel>,
    keep: spec_fn(K) -> bool,
) -> int
    decreases rows.keys.len(),
{
    if rows.keys.len() == 0 {
        0
    } else {
        counted(rows.drop_last(), keep) + if keep(rows.keys.last()) {
            rows.values.last().count as int
        } else {
            0
        }
    }
}

/// The time in the rows that are kept.
pub open spec fn timed<K: Keyed>(
    rows: TableModel<K, HistogramModel>,
    keep: spec_fn(K) -> bool,
) -> int
    decreases rows.keys.len(),
{
    if rows.keys.len() == 0 {
        0
    } else {
        timed(rows.drop_last(), keep) + if keep(rows.keys.last()) {
            rows.values.last().sum_ms as int
        } else {
            0
        }
    }
}

/// The sum of the numbers that are kept.
pub open spec fn summed<K: Keyed>(rows: TableModel<K, u64>, keep: spec_fn(K) -> bool) -> int
    decreases rows.keys.len(),
{
    if rows.keys.len() == 0 {
        0
    } else {
        summed(rows.drop_last(), keep) + if keep(rows.keys.last()) {
            rows.values.last() as int
        } else {
            0
        }
    }
}

/// The attempts of one kind in all.
#[derive(Clone, Copy, Debug, PartialEq, Eq, Structural)]
pub struct KindSummary {
    pub claims: u64,
    pub executions: u64,
    pub downloaded: u64,
    pub committed: u64,
    pub execution_sum_ms: u64,
    pub execution_ms_per_commit: Option<u64>,
}

/// The rows of claims.
pub open spec fn claims_of(kind: AttemptKind) -> spec_fn(HistoryKey) -> bool {
    |key: HistoryKey| key.history.kind == kind && key.timing is DueWait
}

/// The rows of executions.
pub open spec fn executions_of(kind: AttemptKind) -> spec_fn(HistoryKey) -> bool {
    |key: HistoryKey| key.history.kind == kind && key.timing is Execution
}

/// The rows of executions that downloaded something.
pub open spec fn downloads_of(kind: AttemptKind) -> spec_fn(HistoryKey) -> bool {
    |key: HistoryKey|
        key.history.kind == kind && key.timing is Execution && key.result is Downloaded
}

/// The rows of commits.
pub open spec fn commits_of(kind: AttemptKind) -> spec_fn(AttemptHistory) -> bool {
    |history: AttemptHistory| history.kind == kind
}

impl ViewsModel {
    /// The attempts of one kind. What a commit costs is the time of all executions that have ended.
    pub open spec fn kind_summary(self, kind: AttemptKind) -> KindSummary {
        let committed = summed(self.committed, commits_of(kind)) as u64;
        let execution_sum_ms = capped(timed(self.timings, executions_of(kind)));
        KindSummary {
            claims: counted(self.timings, claims_of(kind)) as u64,
            executions: counted(self.timings, executions_of(kind)) as u64,
            downloaded: counted(self.timings, downloads_of(kind)) as u64,
            committed,
            execution_sum_ms,
            execution_ms_per_commit: if committed == 0 {
                None
            } else {
                Some((execution_sum_ms / committed) as u64)
            },
        }
    }
}

/// What is kept is part of the whole.
proof fn lemma_counted_part<K: Keyed>(
    rows: TableModel<K, HistogramModel>,
    keep: spec_fn(K) -> bool,
)
    requires
        rows.keys.len() == rows.values.len(),
    ensures
        0 <= counted(rows, keep) <= rows.total(),
        0 <= timed(rows, keep),
    decreases rows.keys.len(),
{
    if rows.keys.len() > 0 {
        lemma_counted_part(rows.drop_last(), keep);
    }
}

proof fn lemma_summed_part<K: Keyed>(rows: TableModel<K, u64>, keep: spec_fn(K) -> bool)
    requires
        rows.keys.len() == rows.values.len(),
    ensures
        0 <= summed(rows, keep) <= rows.sum(),
    decreases rows.keys.len(),
{
    if rows.keys.len() > 0 {
        lemma_summed_part(rows.drop_last(), keep);
    }
}

impl AttemptViews {
    /// The attempts of one kind.
    pub fn kind_summary(&self, kind: AttemptKind) -> (summary: KindSummary)
        requires
            self@.timings.well_formed(),
            self@.timings.total() <= u64::MAX,
            self@.committed.in_order(),
            self@.committed.sum() <= u64::MAX,
        ensures
            summary == self@.kind_summary(kind),
    {
        let ghost rows = self@.timings;
        let ghost commits = self@.committed;
        let (mut claims, mut executions): (u64, u64) = (0, 0);
        let (mut downloaded, mut execution_sum_ms): (u64, u64) = (0, 0);
        for i in 0..self.timings.keys.len()
            invariant
                rows == self.timings@,
                rows.well_formed(),
                rows.total() <= u64::MAX,
                claims == counted(rows.take(i as int), claims_of(kind)),
                executions == counted(rows.take(i as int), executions_of(kind)),
                downloaded == counted(rows.take(i as int), downloads_of(kind)),
                execution_sum_ms == capped(timed(rows.take(i as int), executions_of(kind))),
        {
            let key = self.timings.keys[i];
            let durations = &self.timings.values[i];
            proof {
                let next = rows.take(i + 1);
                lemma_counts_take(rows.values, i as int);
                assert(next.drop_last() =~= rows.take(i as int));
                assert(next.keys.last() == key);
                assert(rows.values[i as int] == durations@);
                assert(next.values.last() == durations@);
                lemma_counted_part(next, claims_of(kind));
                lemma_counted_part(next, executions_of(kind));
                lemma_counted_part(next, downloads_of(kind));
                lemma_counted_part(rows.take(i as int), executions_of(kind));
            }
            if key.history.kind == kind {
                match key.timing {
                    TaskTiming::DueWait => {
                        claims = claims + durations.count;
                    },
                    TaskTiming::DiscoveryAge => {},
                    TaskTiming::Execution => {
                        executions = executions + durations.count;
                        execution_sum_ms = execution_sum_ms.saturating_add(durations.sum_ms);
                        if matches!(key.result, AttemptResult::Downloaded) {
                            downloaded = downloaded + durations.count;
                        }
                    },
                }
            }
        }
        assert(rows.take(rows.keys.len() as int) =~= rows);
        let mut committed: u64 = 0;
        for i in 0..self.committed.keys.len()
            invariant
                commits == self.committed@,
                commits.in_order(),
                commits.sum() <= u64::MAX,
                committed == summed(commits.take(i as int), commits_of(kind)),
        {
            proof {
                let next = commits.take(i + 1);
                lemma_sums_take(commits.values, i as int);
                assert(next.drop_last() =~= commits.take(i as int));
                assert(next.keys.last() == self.committed.keys@[i as int]);
                assert(commits.values[i as int] == self.committed.values@[i as int]);
                assert(next.values.last() == self.committed.values@[i as int]);
                lemma_summed_part(next, commits_of(kind));
            }
            if self.committed.keys[i].kind == kind {
                committed = committed + self.committed.values[i];
            }
        }
        assert(commits.take(commits.keys.len() as int) =~= commits);
        KindSummary {
            claims,
            executions,
            downloaded,
            committed,
            execution_sum_ms,
            execution_ms_per_commit: if committed == 0 {
                None
            } else {
                Some(execution_sum_ms / committed)
            },
        }
    }
}

/// What is reported of the attempts.
#[derive(Debug)]
pub struct AttemptReport {
    pub views: AttemptViews,
    pub first: KindSummary,
    pub repeat: KindSummary,
}

impl AttemptStats {
    /// What is reported of the attempts.
    pub fn log_attempts(&self) -> (report: AttemptReport)
        requires
            self@.well_formed(),
        ensures
            report.views@ == self@.views(),
            report.views@.timings.well_formed(),
            report.views@.class_timings.well_formed(),
            report.first == self@.views().kind_summary(AttemptKind::First),
            report.repeat == self@.views().kind_summary(AttemptKind::Repeat),
    {
        let views = self.project();
        let first = views.kind_summary(AttemptKind::First);
        let repeat = views.kind_summary(AttemptKind::Repeat);
        AttemptReport { views, first, repeat }
    }
}

/// A table with a merged histogram stays in order, and its durations add up.
proof fn lemma_merged_row<K: Keyed>(
    table: TableModel<K, HistogramModel>,
    key: K,
    other: HistogramModel,
)
    requires
        table.well_formed(),
        other.well_formed(),
        other.kind == Buckets::Diagnostic,
        table.total() + other.count <= u64::MAX,
    ensures
        table.merged(key, other).well_formed(),
        table.merged(key, other).total() == table.total() + other.count,
        table.timing(key).merged(other).count == table.timing(key).count + other.count,
{
    let value = table.timing(key).merged(other);
    let at = place_of(table.keys, key);
    lemma_place(table.keys, key);
    lemma_put_in_order(table, key, value);
    lemma_put_total(table, Buckets::Diagnostic, key, value);
    lemma_empty(Buckets::Diagnostic);
    if table.keys.contains(key) {
        assert(table.values[at].well_formed());
    }
    lemma_merged(table.timing(key), other);
    lemma_put_holds(table, Buckets::Diagnostic, key, value);
}

/// Regrouped rows are in order, and no duration is lost or counted twice.
pub proof fn lemma_regroup<K: Keyed, P: Keyed>(
    rows: TableModel<K, HistogramModel>,
    part: spec_fn(K) -> P,
)
    requires
        rows.well_formed(),
        rows.total() <= u64::MAX,
    ensures
        regroup(rows, part).well_formed(),
        regroup(rows, part).total() == rows.total(),
    decreases rows.keys.len(),
{
    if rows.keys.len() > 0 {
        let rest = rows.drop_last();
        lemma_counts_part(rest.values, 0);
        assert forall|i: int| 0 <= i < rest.values.len() implies (#[trigger] rest.values[i]).well_formed()
            && rest.values[i].kind == Buckets::Diagnostic by {
            assert(rest.values[i] == rows.values[i]);
        }
        lemma_regroup(rest, part);
        assert(rows.values[rows.values.len() - 1].well_formed());
        lemma_merged_row(regroup(rest, part), part(rows.keys.last()), rows.values.last());
    }
}

/// The count of a regrouped row is that of all rows that it stands for.
pub proof fn lemma_regroup_count<K: Keyed, P: Keyed>(
    rows: TableModel<K, HistogramModel>,
    part: spec_fn(K) -> P,
    wanted: P,
)
    requires
        rows.well_formed(),
        rows.total() <= u64::MAX,
    ensures
        regroup(rows, part).timing(wanted).count == counted(rows, having(part, wanted)),
    decreases rows.keys.len(),
{
    if rows.keys.len() > 0 {
        let rest = rows.drop_last();
        let key = part(rows.keys.last());
        lemma_counts_part(rest.values, 0);
        assert forall|i: int| 0 <= i < rest.values.len() implies (#[trigger] rest.values[i]).well_formed()
            && rest.values[i].kind == Buckets::Diagnostic by {
            assert(rest.values[i] == rows.values[i]);
        }
        lemma_regroup(rest, part);
        lemma_regroup_count(rest, part, wanted);
        let grouped = regroup(rest, part);
        assert(rows.values[rows.values.len() - 1].well_formed());
        lemma_merged_row(grouped, key, rows.values.last());
        lemma_put_get(grouped, key, grouped.timing(key).merged(rows.values.last()), wanted);
    }
}

/// The time of a regrouped row is that of all rows that it stands for, up to the cap.
pub proof fn lemma_regroup_time<K: Keyed, P: Keyed>(
    rows: TableModel<K, HistogramModel>,
    part: spec_fn(K) -> P,
    wanted: P,
)
    requires
        rows.well_formed(),
        rows.total() <= u64::MAX,
    ensures
        regroup(rows, part).timing(wanted).sum_ms == capped(timed(rows, having(part, wanted))),
        0 <= timed(rows, having(part, wanted)),
    decreases rows.keys.len(),
{
    if rows.keys.len() > 0 {
        let rest = rows.drop_last();
        let key = part(rows.keys.last());
        lemma_counts_part(rest.values, 0);
        assert forall|i: int| 0 <= i < rest.values.len() implies (#[trigger] rest.values[i]).well_formed()
            && rest.values[i].kind == Buckets::Diagnostic by {
            assert(rest.values[i] == rows.values[i]);
        }
        lemma_regroup(rest, part);
        lemma_regroup_time(rest, part, wanted);
        let grouped = regroup(rest, part);
        lemma_put_get(grouped, key, grouped.timing(key).merged(rows.values.last()), wanted);
    }
}

/// The number of a regrouped row is that of all rows that it stands for.
pub proof fn lemma_resum_count<K: Keyed, P: Keyed>(
    rows: TableModel<K, u64>,
    part: spec_fn(K) -> P,
    wanted: P,
)
    requires
        rows.in_order(),
        rows.sum() <= u64::MAX,
    ensures
        resum(rows, part).in_order(),
        resum(rows, part).sum() == rows.sum(),
        resum(rows, part).count(wanted) == summed(rows, having(part, wanted)),
    decreases rows.keys.len(),
{
    if rows.keys.len() > 0 {
        let rest = rows.drop_last();
        let key = part(rows.keys.last());
        lemma_sums_part(rest.values, 0);
        lemma_resum_count(rest, part, wanted);
        let grouped = resum(rest, part);
        let value = (grouped.count(key) + rows.values.last()) as u64;
        lemma_put_sum(grouped, key, value);
        lemma_put_in_order(grouped, key, value);
        lemma_put_get(grouped, key, value, wanted);
    }
}

/// Rows of which a part holds.
proof fn lemma_counted_classes(rows: TableModel<AttemptKey, HistogramModel>, wanted: HistoryKey)
    ensures
        counted(rows, having(by_history(), wanted)) == counted(
            rows,
            having(by_class(), in_class(wanted, ClaimClass::Hint)),
        ) + counted(
            rows,
            having(by_class(), in_class(wanted, ClaimClass::Recent)),
        ) + counted(
            rows,
            having(by_class(), in_class(wanted, ClaimClass::Retry)),
        ) + counted(
            rows,
            having(by_class(), in_class(wanted, ClaimClass::History)),
        ),
    decreases rows.keys.len(),
{
    if rows.keys.len() > 0 {
        lemma_counted_classes(rows.drop_last(), wanted);
    }
}

proof fn lemma_timed_classes(rows: TableModel<AttemptKey, HistogramModel>, wanted: HistoryKey)
    ensures
        timed(rows, having(by_history(), wanted)) == timed(
            rows,
            having(by_class(), in_class(wanted, ClaimClass::Hint)),
        ) + timed(
            rows,
            having(by_class(), in_class(wanted, ClaimClass::Recent)),
        ) + timed(
            rows,
            having(by_class(), in_class(wanted, ClaimClass::Retry)),
        ) + timed(
            rows,
            having(by_class(), in_class(wanted, ClaimClass::History)),
        ),
    decreases rows.keys.len(),
{
    if rows.keys.len() > 0 {
        lemma_timed_classes(rows.drop_last(), wanted);
    }
}

proof fn lemma_summed_classes(rows: TableModel<AttemptContext, u64>, wanted: AttemptHistory)
    ensures
        summed(rows, having(context_history(), wanted)) == summed(
            rows,
            having(context_class(), commit_in_class(wanted, ClaimClass::Hint)),
        ) + summed(
            rows,
            having(context_class(), commit_in_class(wanted, ClaimClass::Recent)),
        ) + summed(
            rows,
            having(context_class(), commit_in_class(wanted, ClaimClass::Retry)),
        ) + summed(
            rows,
            having(context_class(), commit_in_class(wanted, ClaimClass::History)),
        ),
    decreases rows.keys.len(),
{
    if rows.keys.len() > 0 {
        lemma_summed_classes(rows.drop_last(), wanted);
    }
}

/// A row by history, in one class.
pub open spec fn in_class(key: HistoryKey, class: ClaimClass) -> ClassKey {
    ClassKey { history: key.history, class, timing: key.timing, result: key.result }
}

/// Commits by history, in one class.
pub open spec fn commit_in_class(history: AttemptHistory, class: ClaimClass) -> CommitKey {
    CommitKey { history, class }
}

/// The view by class breaks the view by history down: each row of the latter counts as many
/// durations as its rows in the four classes, and as much time, which only the cap of a sum can cut
/// short. The same holds of the commits.
pub proof fn lemma_classes_add_up(stats: AttemptModel, key: HistoryKey, history: AttemptHistory)
    requires
        stats.well_formed(),
    ensures
        ({
            let row = stats.views().timings.timing(key);
            let hint = stats.views().class_timings.timing(in_class(key, ClaimClass::Hint));
            let recent = stats.views().class_timings.timing(in_class(key, ClaimClass::Recent));
            let retry = stats.views().class_timings.timing(in_class(key, ClaimClass::Retry));
            let old = stats.views().class_timings.timing(in_class(key, ClaimClass::History));
            let time = hint.sum_ms + recent.sum_ms + retry.sum_ms + old.sum_ms;
            &&& row.count == hint.count + recent.count + retry.count + old.count
            &&& row.sum_ms == capped(time)
            &&& time <= u64::MAX ==> row.sum_ms == time
        }),
        stats.views().committed.count(history) == stats.views().class_committed.count(
            commit_in_class(history, ClaimClass::Hint),
        ) + stats.views().class_committed.count(commit_in_class(history, ClaimClass::Recent))
            + stats.views().class_committed.count(commit_in_class(history, ClaimClass::Retry))
            + stats.views().class_committed.count(commit_in_class(history, ClaimClass::History)),
{
    let rows = stats.timings;
    lemma_regroup_count(rows, by_history(), key);
    lemma_regroup_count(rows, by_class(), in_class(key, ClaimClass::Hint));
    lemma_regroup_count(rows, by_class(), in_class(key, ClaimClass::Recent));
    lemma_regroup_count(rows, by_class(), in_class(key, ClaimClass::Retry));
    lemma_regroup_count(rows, by_class(), in_class(key, ClaimClass::History));
    lemma_counted_classes(rows, key);
    lemma_regroup_time(rows, by_history(), key);
    lemma_regroup_time(rows, by_class(), in_class(key, ClaimClass::Hint));
    lemma_regroup_time(rows, by_class(), in_class(key, ClaimClass::Recent));
    lemma_regroup_time(rows, by_class(), in_class(key, ClaimClass::Retry));
    lemma_regroup_time(rows, by_class(), in_class(key, ClaimClass::History));
    lemma_timed_classes(rows, key);
    let commits = stats.committed;
    lemma_resum_count(commits, context_history(), history);
    lemma_resum_count(commits, context_class(), commit_in_class(history, ClaimClass::Hint));
    lemma_resum_count(commits, context_class(), commit_in_class(history, ClaimClass::Recent));
    lemma_resum_count(commits, context_class(), commit_in_class(history, ClaimClass::Retry));
    lemma_resum_count(commits, context_class(), commit_in_class(history, ClaimClass::History));
    lemma_summed_classes(commits, history);
}

proof fn lemma_counted_update<K: Keyed>(
    table: TableModel<K, HistogramModel>,
    at: int,
    value: HistogramModel,
    keep: spec_fn(K) -> bool,
)
    requires
        table.keys.len() == table.values.len(),
        0 <= at < table.keys.len(),
    ensures
        counted(
            TableModel { keys: table.keys, values: table.values.update(at, value) },
            keep,
        ) == counted(table, keep) + if keep(table.keys[at]) {
            value.count - table.values[at].count
        } else {
            0
        },
    decreases table.keys.len(),
{
    let next = TableModel { keys: table.keys, values: table.values.update(at, value) };
    if at == table.keys.len() - 1 {
        assert(next.drop_last() =~= table.drop_last());
    } else {
        lemma_counted_update(table.drop_last(), at, value, keep);
        assert(next.drop_last() =~= TableModel {
            keys: table.drop_last().keys,
            values: table.drop_last().values.update(at, value),
        });
    }
}

proof fn lemma_counted_insert<K: Keyed>(
    table: TableModel<K, HistogramModel>,
    at: int,
    key: K,
    value: HistogramModel,
    keep: spec_fn(K) -> bool,
)
    requires
        table.keys.len() == table.values.len(),
        0 <= at <= table.keys.len(),
    ensures
        counted(
            TableModel { keys: table.keys.insert(at, key), values: table.values.insert(at, value) },
            keep,
        ) == counted(table, keep) + if keep(key) {
            value.count as int
        } else {
            0
        },
    decreases table.keys.len(),
{
    let next = TableModel {
        keys: table.keys.insert(at, key),
        values: table.values.insert(at, value),
    };
    if at == table.keys.len() {
        assert(next.drop_last() =~= table);
    } else {
        lemma_counted_insert(table.drop_last(), at, key, value, keep);
        assert(next.drop_last() =~= TableModel {
            keys: table.drop_last().keys.insert(at, key),
            values: table.drop_last().values.insert(at, value),
        });
    }
}

proof fn lemma_timed_update<K: Keyed>(
    table: TableModel<K, HistogramModel>,
    at: int,
    value: HistogramModel,
    keep: spec_fn(K) -> bool,
)
    requires
        table.keys.len() == table.values.len(),
        0 <= at < table.keys.len(),
    ensures
        timed(
            TableModel { keys: table.keys, values: table.values.update(at, value) },
            keep,
        ) == timed(table, keep) + if keep(table.keys[at]) {
            value.sum_ms - table.values[at].sum_ms
        } else {
            0
        },
    decreases table.keys.len(),
{
    let next = TableModel { keys: table.keys, values: table.values.update(at, value) };
    if at == table.keys.len() - 1 {
        assert(next.drop_last() =~= table.drop_last());
    } else {
        lemma_timed_update(table.drop_last(), at, value, keep);
        assert(next.drop_last() =~= TableModel {
            keys: table.drop_last().keys,
            values: table.drop_last().values.update(at, value),
        });
    }
}

proof fn lemma_timed_insert<K: Keyed>(
    table: TableModel<K, HistogramModel>,
    at: int,
    key: K,
    value: HistogramModel,
    keep: spec_fn(K) -> bool,
)
    requires
        table.keys.len() == table.values.len(),
        0 <= at <= table.keys.len(),
    ensures
        timed(
            TableModel { keys: table.keys.insert(at, key), values: table.values.insert(at, value) },
            keep,
        ) == timed(table, keep) + if keep(key) {
            value.sum_ms as int
        } else {
            0
        },
    decreases table.keys.len(),
{
    let next = TableModel {
        keys: table.keys.insert(at, key),
        values: table.values.insert(at, value),
    };
    if at == table.keys.len() {
        assert(next.drop_last() =~= table);
    } else {
        lemma_timed_insert(table.drop_last(), at, key, value, keep);
        assert(next.drop_last() =~= TableModel {
            keys: table.drop_last().keys.insert(at, key),
            values: table.drop_last().values.insert(at, value),
        });
    }
}

/// What is kept of regrouped rows is what is kept of the rows that they stand for.
pub proof fn lemma_regroup_kept<K: Keyed, P: Keyed>(
    rows: TableModel<K, HistogramModel>,
    part: spec_fn(K) -> P,
    keep: spec_fn(P) -> bool,
)
    requires
        rows.well_formed(),
        rows.total() <= u64::MAX,
    ensures
        counted(regroup(rows, part), keep) == counted(rows, with_part(part, keep)),
    decreases rows.keys.len(),
{
    if rows.keys.len() > 0 {
        let rest = rows.drop_last();
        let key = part(rows.keys.last());
        lemma_counts_part(rest.values, 0);
        assert forall|i: int| 0 <= i < rest.values.len() implies (#[trigger] rest.values[i]).well_formed()
            && rest.values[i].kind == Buckets::Diagnostic by {
            assert(rest.values[i] == rows.values[i]);
        }
        lemma_regroup(rest, part);
        lemma_regroup_kept(rest, part, keep);
        let grouped = regroup(rest, part);
        assert(rows.values[rows.values.len() - 1].well_formed());
        lemma_merged_row(grouped, key, rows.values.last());
        lemma_place(grouped.keys, key);
        let at = place_of(grouped.keys, key);
        let value = grouped.timing(key).merged(rows.values.last());
        if grouped.keys.contains(key) {
            lemma_counted_update(grouped, at, value, keep);
        } else {
            lemma_counted_insert(grouped, at, key, value, keep);
        }
    }
}

/// The time that is kept of regrouped rows is that of the rows that they stand for, up to the cap.
pub proof fn lemma_regroup_kept_time<K: Keyed, P: Keyed>(
    rows: TableModel<K, HistogramModel>,
    part: spec_fn(K) -> P,
    keep: spec_fn(P) -> bool,
)
    requires
        rows.well_formed(),
        rows.total() <= u64::MAX,
    ensures
        capped(timed(regroup(rows, part), keep)) == capped(timed(rows, with_part(part, keep))),
    decreases rows.keys.len(),
{
    if rows.keys.len() > 0 {
        let rest = rows.drop_last();
        let key = part(rows.keys.last());
        lemma_counts_part(rest.values, 0);
        assert forall|i: int| 0 <= i < rest.values.len() implies (#[trigger] rest.values[i]).well_formed()
            && rest.values[i].kind == Buckets::Diagnostic by {
            assert(rest.values[i] == rows.values[i]);
        }
        lemma_regroup(rest, part);
        lemma_regroup_kept_time(rest, part, keep);
        lemma_counted_part(rest, with_part(part, keep));
        let grouped = regroup(rest, part);
        lemma_counted_part(grouped, keep);
        lemma_place(grouped.keys, key);
        let at = place_of(grouped.keys, key);
        let value = grouped.timing(key).merged(rows.values.last());
        if grouped.keys.contains(key) {
            lemma_timed_update(grouped, at, value, keep);
            let nothing = HistogramModel::empty(Buckets::Diagnostic);
            lemma_timed_update(grouped, at, nothing, keep);
            lemma_counted_part(
                TableModel { keys: grouped.keys, values: grouped.values.update(at, nothing) },
                keep,
            );
        } else {
            lemma_timed_insert(grouped, at, key, value, keep);
        }
    }
}

/// The rows of one kind of timing with or without addresses.
spec fn hinted_rows(key: HintKey, timing: TaskTiming, downloads: bool) -> spec_fn(
    AttemptKey,
) -> bool {
    |row: AttemptKey|
        hint_key(row.context) == key && row.timing == timing && (downloads ==> row.result
            is Downloaded)
}

/// The commits with or without addresses.
spec fn hinted_commits(key: HintKey) -> spec_fn(AttemptContext) -> bool {
    |context: AttemptContext| hint_key(context) == key
}

proof fn lemma_hint_counts(rows: TableModel<AttemptKey, HistogramModel>, key: HintKey)
    requires
        rows.well_formed(),
        rows.total() <= u64::MAX,
    ensures
        hint_timings(rows).in_order(),
        summary(hint_timings(rows), key).claims == counted(
            rows,
            hinted_rows(key, TaskTiming::DueWait, false),
        ),
        summary(hint_timings(rows), key).executions == counted(
            rows,
            hinted_rows(key, TaskTiming::Execution, false),
        ),
        summary(hint_timings(rows), key).downloaded == counted(
            rows,
            hinted_rows(key, TaskTiming::Execution, true),
        ),
        summary(hint_timings(rows), key).execution_sum_ms == capped(
            timed(rows, hinted_rows(key, TaskTiming::Execution, false)),
        ),
        summary(hint_timings(rows), key).committed == 0,
    decreases rows.keys.len(),
{
    if rows.keys.len() > 0 {
        let rest = rows.drop_last();
        let last = rows.keys.last();
        let here = hint_key(last.context);
        lemma_counts_part(rest.values, 0);
        assert forall|i: int| 0 <= i < rest.values.len() implies (#[trigger] rest.values[i]).well_formed()
            && rest.values[i].kind == Buckets::Diagnostic by {
            assert(rest.values[i] == rows.values[i]);
        }
        lemma_hint_counts(rest, key);
        lemma_hint_counts(rest, here);
        let hints = hint_timings(rest);
        let value = summary(hints, here).timed(last.timing, last.result, rows.values.last());
        lemma_put_in_order(hints, here, value);
        lemma_put_get(hints, here, value, key);
        lemma_counted_part(rows, hinted_rows(key, TaskTiming::DueWait, false));
        lemma_counted_part(rows, hinted_rows(key, TaskTiming::Execution, false));
        lemma_counted_part(rows, hinted_rows(key, TaskTiming::Execution, true));
        lemma_counted_part(rest, hinted_rows(key, TaskTiming::Execution, false));
    }
}

proof fn lemma_hint_commits(
    hints: TableModel<HintKey, HintSummary>,
    rows: TableModel<AttemptContext, u64>,
    key: HintKey,
)
    requires
        hints.in_order(),
        rows.in_order(),
        rows.sum() <= u64::MAX,
        forall|other: HintKey| (#[trigger] summary(hints, other)).committed == 0,
    ensures
        hint_commits(hints, rows).in_order(),
        summary(hint_commits(hints, rows), key).claims == summary(hints, key).claims,
        summary(hint_commits(hints, rows), key).executions == summary(hints, key).executions,
        summary(hint_commits(hints, rows), key).downloaded == summary(hints, key).downloaded,
        summary(hint_commits(hints, rows), key).execution_sum_ms == summary(
            hints,
            key,
        ).execution_sum_ms,
        summary(hint_commits(hints, rows), key).committed == summed(rows, hinted_commits(key)),
    decreases rows.keys.len(),
{
    if rows.keys.len() > 0 {
        let rest = rows.drop_last();
        let here = hint_key(rows.keys.last());
        lemma_sums_part(rest.values, 0);
        lemma_hint_commits(hints, rest, key);
        lemma_hint_commits(hints, rest, here);
        let before = hint_commits(hints, rest);
        let value = summary(before, here).confirmed(rows.values.last());
        lemma_put_in_order(before, here, value);
        lemma_put_get(before, here, value, key);
        lemma_summed_part(rows, hinted_commits(key));
    }
}

/// Rows are told apart by the presence of addresses.
proof fn lemma_counted_hints(
    rows: TableModel<AttemptKey, HistogramModel>,
    kind: AttemptKind,
    keep: spec_fn(HistoryKey) -> bool,
    timing: TaskTiming,
    downloads: bool,
)
    requires
        forall|key: HistoryKey| #[trigger]
            keep(key) == (key.history.kind == kind && key.timing == timing && (downloads
                ==> key.result is Downloaded)),
    ensures
        counted(rows, with_part(by_history(), keep)) == counted(
            rows,
            hinted_rows(HintKey { kind, had_valid_hint: false }, timing, downloads),
        ) + counted(
            rows,
            hinted_rows(HintKey { kind, had_valid_hint: true }, timing, downloads),
        ),
    decreases rows.keys.len(),
{
    if rows.keys.len() > 0 {
        lemma_counted_hints(rows.drop_last(), kind, keep, timing, downloads);
        let last = rows.keys.last();
        assert(keep(history_key(last)) == (last.context.kind == kind && last.timing == timing && (
        downloads ==> last.result is Downloaded)));
    }
}

proof fn lemma_timed_hints(rows: TableModel<AttemptKey, HistogramModel>, kind: AttemptKind)
    ensures
        timed(rows, with_part(by_history(), executions_of(kind))) == timed(
            rows,
            hinted_rows(HintKey { kind, had_valid_hint: false }, TaskTiming::Execution, false),
        ) + timed(
            rows,
            hinted_rows(HintKey { kind, had_valid_hint: true }, TaskTiming::Execution, false),
        ),
    decreases rows.keys.len(),
{
    if rows.keys.len() > 0 {
        lemma_timed_hints(rows.drop_last(), kind);
    }
}

proof fn lemma_summed_hints(rows: TableModel<AttemptContext, u64>, kind: AttemptKind)
    ensures
        summed(rows, with_part(context_history(), commits_of(kind))) == summed(
            rows,
            hinted_commits(HintKey { kind, had_valid_hint: false }),
        ) + summed(rows, hinted_commits(HintKey { kind, had_valid_hint: true })),
    decreases rows.keys.len(),
{
    if rows.keys.len() > 0 {
        lemma_summed_hints(rows.drop_last(), kind);
    }
}

proof fn lemma_summed_update<K: Keyed>(
    table: TableModel<K, u64>,
    at: int,
    value: u64,
    keep: spec_fn(K) -> bool,
)
    requires
        table.keys.len() == table.values.len(),
        0 <= at < table.keys.len(),
    ensures
        summed(TableModel { keys: table.keys, values: table.values.update(at, value) }, keep)
            == summed(table, keep) + if keep(table.keys[at]) {
            value - table.values[at]
        } else {
            0
        },
    decreases table.keys.len(),
{
    let next = TableModel { keys: table.keys, values: table.values.update(at, value) };
    if at == table.keys.len() - 1 {
        assert(next.drop_last() =~= table.drop_last());
    } else {
        lemma_summed_update(table.drop_last(), at, value, keep);
        assert(next.drop_last() =~= TableModel {
            keys: table.drop_last().keys,
            values: table.drop_last().values.update(at, value),
        });
    }
}

proof fn lemma_summed_insert<K: Keyed>(
    table: TableModel<K, u64>,
    at: int,
    key: K,
    value: u64,
    keep: spec_fn(K) -> bool,
)
    requires
        table.keys.len() == table.values.len(),
        0 <= at <= table.keys.len(),
    ensures
        summed(
            TableModel { keys: table.keys.insert(at, key), values: table.values.insert(at, value) },
            keep,
        ) == summed(table, keep) + if keep(key) {
            value as int
        } else {
            0
        },
    decreases table.keys.len(),
{
    let next = TableModel {
        keys: table.keys.insert(at, key),
        values: table.values.insert(at, value),
    };
    if at == table.keys.len() {
        assert(next.drop_last() =~= table);
    } else {
        lemma_summed_insert(table.drop_last(), at, key, value, keep);
        assert(next.drop_last() =~= TableModel {
            keys: table.drop_last().keys.insert(at, key),
            values: table.drop_last().values.insert(at, value),
        });
    }
}

/// What is kept of regrouped numbers is what is kept of the rows that they stand for.
pub proof fn lemma_resum_kept<K: Keyed, P: Keyed>(
    rows: TableModel<K, u64>,
    part: spec_fn(K) -> P,
    keep: spec_fn(P) -> bool,
)
    requires
        rows.in_order(),
        rows.sum() <= u64::MAX,
    ensures
        summed(resum(rows, part), keep) == summed(rows, with_part(part, keep)),
    decreases rows.keys.len(),
{
    if rows.keys.len() > 0 {
        let rest = rows.drop_last();
        let key = part(rows.keys.last());
        lemma_sums_part(rest.values, 0);
        lemma_resum_count(rest, part, key);
        lemma_resum_kept(rest, part, keep);
        let grouped = resum(rest, part);
        let value = (grouped.count(key) + rows.values.last()) as u64;
        lemma_put_sum(grouped, key, value);
        lemma_place(grouped.keys, key);
        let at = place_of(grouped.keys, key);
        if grouped.keys.contains(key) {
            lemma_summed_update(grouped, at, value, keep);
        } else {
            lemma_summed_insert(grouped, at, key, value, keep);
        }
    }
}

/// The summaries by addresses reconcile with the attempts of a kind in all: what was claimed,
/// executed, downloaded and committed with and without a valid address adds up, and so does the time
/// of the executions, which only the cap of a sum can cut short.
pub proof fn lemma_hints_reconcile(stats: AttemptModel, kind: AttemptKind)
    requires
        stats.well_formed(),
    ensures
        ({
            let views = stats.views();
            let with = summary(views.hints, HintKey { kind, had_valid_hint: true });
            let without = summary(views.hints, HintKey { kind, had_valid_hint: false });
            let all = views.kind_summary(kind);
            &&& with.claims + without.claims == all.claims
            &&& with.executions + without.executions == all.executions
            &&& with.downloaded + without.downloaded == all.downloaded
            &&& with.committed + without.committed == all.committed
            &&& all.execution_sum_ms == capped(with.execution_sum_ms + without.execution_sum_ms)
        }),
{
    let with = HintKey { kind, had_valid_hint: true };
    let without = HintKey { kind, had_valid_hint: false };
    let rows = stats.timings;
    let commits = stats.committed;
    let views = stats.views();
    lemma_hint_counts(rows, with);
    lemma_hint_counts(rows, without);
    assert forall|other: HintKey| (#[trigger] summary(hint_timings(rows), other)).committed == 0 by {
        lemma_hint_counts(rows, other);
    }
    lemma_hint_commits(hint_timings(rows), commits, with);
    lemma_hint_commits(hint_timings(rows), commits, without);
    lemma_regroup(rows, by_history());
    lemma_regroup_kept(rows, by_history(), claims_of(kind));
    lemma_regroup_kept(rows, by_history(), executions_of(kind));
    lemma_regroup_kept(rows, by_history(), downloads_of(kind));
    lemma_regroup_kept_time(rows, by_history(), executions_of(kind));
    lemma_timed_hints(rows, kind);
    lemma_counted_part(rows, hinted_rows(with, TaskTiming::Execution, false));
    lemma_counted_part(rows, hinted_rows(without, TaskTiming::Execution, false));
    lemma_counted_hints(rows, kind, claims_of(kind), TaskTiming::DueWait, false);
    lemma_counted_hints(rows, kind, executions_of(kind), TaskTiming::Execution, false);
    lemma_counted_hints(rows, kind, downloads_of(kind), TaskTiming::Execution, true);
    lemma_counted_part(views.timings, claims_of(kind));
    lemma_counted_part(views.timings, executions_of(kind));
    lemma_counted_part(views.timings, downloads_of(kind));
    lemma_resum_kept(commits, context_history(), commits_of(kind));
    lemma_resum_count(commits, context_history(), AttemptHistory { kind, failed_attempts_before: 0 });
    lemma_summed_hints(commits, kind);
    lemma_summed_part(views.committed, commits_of(kind));
}

/// A wait until a claim counts as a claim, an execution as an execution with its time, and where it
/// downloaded something also as a download; how old a discovery was counts as neither.
pub proof fn lemma_summary_timed(
    summary: HintSummary,
    result: AttemptResult,
    durations: HistogramModel,
    count: u64,
)
    requires
        summary.claims + durations.count <= u64::MAX,
        summary.executions + durations.count <= u64::MAX,
        summary.downloaded + durations.count <= u64::MAX,
        summary.execution_sum_ms + durations.sum_ms <= u64::MAX,
        summary.committed + count <= u64::MAX,
    ensures
        ({
            let claimed = summary.timed(TaskTiming::DueWait, result, durations);
            let executed = summary.timed(TaskTiming::Execution, result, durations);
            &&& claimed.claims == summary.claims + durations.count
            &&& claimed == (HintSummary { claims: claimed.claims, ..summary })
            &&& executed.claims == summary.claims
            &&& executed.committed == summary.committed
            &&& executed.executions == summary.executions + durations.count
            &&& executed.execution_sum_ms == summary.execution_sum_ms + durations.sum_ms
            &&& result is Downloaded ==> executed.downloaded == summary.downloaded + durations.count
            &&& !(result is Downloaded) ==> executed.downloaded == summary.downloaded
            &&& summary.timed(TaskTiming::DiscoveryAge, result, durations) == summary
            &&& summary.confirmed(count) == (HintSummary {
                committed: (summary.committed + count) as u64,
                ..summary
            })
            &&& summary.confirmed(count).committed == summary.committed + count
            &&& HintSummary::zero().claims == 0 && HintSummary::zero().executions == 0
                && HintSummary::zero().execution_sum_ms == 0 && HintSummary::zero().downloaded == 0
                && HintSummary::zero().committed == 0
        }),
{
}

/// The dimensions that are kept: of a context its kind and its hint, its history, or its history and
/// its class, and of what was timed also what it was and how it ended.
pub proof fn lemma_kept_dimensions(key: AttemptKey)
    ensures
        ({
            let context = key.context;
            &&& hint_key(context).kind == context.kind
            &&& hint_key(context).had_valid_hint == context.had_valid_hint
            &&& by_history()(key).history.kind == context.kind
            &&& by_history()(key).history.failed_attempts_before == context.failed_attempts_before
            &&& by_history()(key).timing == key.timing
            &&& by_history()(key).result == key.result
            &&& by_class()(key).history == by_history()(key).history
            &&& by_class()(key).class == context.class
            &&& by_class()(key).timing == key.timing
            &&& by_class()(key).result == key.result
            &&& context_history()(context) == by_history()(key).history
            &&& context_class()(context).history == by_history()(key).history
            &&& context_class()(context).class == context.class
        }),
{
}

/// Rows are counted, timed and summed one by one, those that are meant and no others.
pub proof fn lemma_row_counted<K: Keyed>(
    rows: TableModel<K, HistogramModel>,
    sums: TableModel<K, u64>,
    keep: spec_fn(K) -> bool,
)
    ensures
        rows.keys.len() == 0 ==> counted(rows, keep) == 0 && timed(rows, keep) == 0,
        rows.keys.len() > 0 && keep(rows.keys.last()) ==> counted(rows, keep) == counted(
            rows.drop_last(),
            keep,
        ) + rows.values.last().count && timed(rows, keep) == timed(rows.drop_last(), keep)
            + rows.values.last().sum_ms,
        rows.keys.len() > 0 && !keep(rows.keys.last()) ==> counted(rows, keep) == counted(
            rows.drop_last(),
            keep,
        ) && timed(rows, keep) == timed(rows.drop_last(), keep),
        sums.keys.len() == 0 ==> summed(sums, keep) == 0,
        sums.keys.len() > 0 ==> summed(sums, keep) == summed(sums.drop_last(), keep) + if keep(
            sums.keys.last(),
        ) {
            sums.values.last() as int
        } else {
            0
        },
        rows.drop_last().keys == rows.keys.drop_last(),
        rows.drop_last().values == rows.values.drop_last(),
{
}

/// What is told of one kind: its claims, its executions and their time, its downloads, its stored
/// results, and the time for each of these, as long as there are any.
pub proof fn lemma_kind_summary(views: ViewsModel, kind: AttemptKind, key: HistoryKey, history: AttemptHistory)
    requires
        0 <= summed(views.committed, commits_of(kind)) <= u64::MAX,
        0 <= timed(views.timings, executions_of(kind)) <= u64::MAX,
        0 <= counted(views.timings, claims_of(kind)) <= u64::MAX,
        0 <= counted(views.timings, executions_of(kind)) <= u64::MAX,
        0 <= counted(views.timings, downloads_of(kind)) <= u64::MAX,
    ensures
        claims_of(kind)(key) <==> key.history.kind == kind && key.timing is DueWait,
        executions_of(kind)(key) <==> key.history.kind == kind && key.timing is Execution,
        downloads_of(kind)(key) <==> key.history.kind == kind && key.timing is Execution
            && key.result is Downloaded,
        commits_of(kind)(history) <==> history.kind == kind,
        ({
            let told = views.kind_summary(kind);
            &&& told.claims == counted(views.timings, claims_of(kind))
            &&& told.executions == counted(views.timings, executions_of(kind))
            &&& told.downloaded == counted(views.timings, downloads_of(kind))
            &&& told.committed == summed(views.committed, commits_of(kind))
            &&& told.execution_sum_ms == timed(views.timings, executions_of(kind))
            &&& told.execution_ms_per_commit is None <==> told.committed == 0
            &&& told.execution_ms_per_commit matches Some(share) ==> share * told.committed
                <= told.execution_sum_ms < (share + 1) * told.committed
        }),
{
    let told = views.kind_summary(kind);
    if told.committed > 0 {
        let (a, b) = (told.execution_sum_ms as int, told.committed as int);
        vstd::arithmetic::div_mod::lemma_fundamental_div_mod(a, b);
        vstd::arithmetic::div_mod::lemma_mod_bound(a, b);
        let q = a / b;
        assert(0 <= q <= a) by (nonlinear_arith)
            requires
                q == a / b,
                0 <= a,
                0 < b,
        ;
        assert(q * b <= a < (q + 1) * b) by (nonlinear_arith)
            requires
                a == b * q + a % b,
                0 <= a % b < b,
        ;
    }
}

/// An attempt that is recorded or confirmed is so under its own key, and the rest stays.
pub proof fn lemma_attempt_recorded(stats: AttemptModel, key: AttemptKey, millis: u64)
    ensures
        stats.recorded(key, millis).committed == stats.committed,
        stats.recorded(key, millis).timings == stats.timings.recorded(key, millis),
        stats.confirmed(key.context).timings == stats.timings,
        stats.confirmed(key.context).committed == stats.committed.added(key.context, 1),
        AttemptModel::empty().timings == TableModel::<AttemptKey, HistogramModel>::empty(),
        AttemptModel::empty().committed == TableModel::<AttemptContext, u64>::empty(),
{
}

/// The models of attempts and of their views hold each of their tables.
pub proof fn lemma_attempt_views(stats: AttemptStats, views: AttemptViews)
    ensures
        stats@.timings == stats.timings@,
        stats@.committed == stats.committed@,
        views@.hints == views.hints@,
        views@.timings == views.timings@,
        views@.committed == views.committed@,
        views@.class_timings == views.class_timings@,
        views@.class_committed == views.class_committed@,
{
}

/// Each summary counts the attempts of its own kind that had an address when they were claimed, or
/// those that had none: its claims, its executions and their time, its downloads and its results.
pub proof fn lemma_hints_by_kind(
    stats: AttemptModel,
    key: HintKey,
    claims: spec_fn(AttemptKey) -> bool,
    executions: spec_fn(AttemptKey) -> bool,
    downloads: spec_fn(AttemptKey) -> bool,
    commits: spec_fn(AttemptContext) -> bool,
)
    requires
        stats.well_formed(),
        forall|row: AttemptKey| #[trigger]
            claims(row) <==> row.context.kind == key.kind && row.context.had_valid_hint
                == key.had_valid_hint && row.timing is DueWait,
        forall|row: AttemptKey| #[trigger]
            executions(row) <==> row.context.kind == key.kind && row.context.had_valid_hint
                == key.had_valid_hint && row.timing is Execution,
        forall|row: AttemptKey| #[trigger]
            downloads(row) <==> row.context.kind == key.kind && row.context.had_valid_hint
                == key.had_valid_hint && row.timing is Execution && row.result is Downloaded,
        forall|context: AttemptContext| #[trigger]
            commits(context) <==> context.kind == key.kind && context.had_valid_hint
                == key.had_valid_hint,
    ensures
        ({
            let told = summary(stats.views().hints, key);
            &&& told.claims == counted(stats.timings, claims)
            &&& told.executions == counted(stats.timings, executions)
            &&& told.downloaded == counted(stats.timings, downloads)
            &&& told.committed == summed(stats.committed, commits)
            &&& told.execution_sum_ms == capped(timed(stats.timings, executions))
        }),
{
    let hints = hint_timings(stats.timings);
    assert forall|other: HintKey| (#[trigger] summary(hints, other)).committed == 0 by {
        lemma_hint_counts(stats.timings, other);
    }
    lemma_hint_counts(stats.timings, key);
    lemma_hint_commits(hints, stats.committed, key);
    assert(hinted_rows(key, TaskTiming::DueWait, false) =~= claims);
    assert(hinted_rows(key, TaskTiming::Execution, false) =~= executions);
    assert(hinted_rows(key, TaskTiming::Execution, true) =~= downloads);
    assert(hinted_commits(key) =~= commits);
}

/// Each row of the history counts and sums the attempts with its dimensions, whatever their class and
/// their hint, and each row by class those of the class alone.
pub proof fn lemma_history_rows(
    stats: AttemptModel,
    key: ClassKey,
    all: spec_fn(AttemptKey) -> bool,
    own: spec_fn(AttemptKey) -> bool,
    history: AttemptHistory,
    commits: spec_fn(AttemptContext) -> bool,
)
    requires
        stats.well_formed(),
        forall|row: AttemptKey| #[trigger]
            all(row) <==> row.context.kind == key.history.kind && row.context.failed_attempts_before
                == key.history.failed_attempts_before && row.timing == key.timing && row.result
                == key.result,
        forall|row: AttemptKey| #[trigger]
            own(row) <==> all(row) && row.context.class == key.class,
        forall|context: AttemptContext| #[trigger]
            commits(context) <==> context.kind == history.kind && context.failed_attempts_before
                == history.failed_attempts_before,
    ensures
        ({
            let views = stats.views();
            let row = HistoryKey { history: key.history, timing: key.timing, result: key.result };
            &&& views.timings.timing(row).count == counted(stats.timings, all)
            &&& views.timings.timing(row).sum_ms == capped(timed(stats.timings, all))
            &&& views.class_timings.timing(key).count == counted(stats.timings, own)
            &&& views.class_timings.timing(key).sum_ms == capped(timed(stats.timings, own))
            &&& views.committed.count(history) == summed(stats.committed, commits)
        }),
{
    let row = HistoryKey { history: key.history, timing: key.timing, result: key.result };
    lemma_regroup_count(stats.timings, by_history(), row);
    lemma_regroup_time(stats.timings, by_history(), row);
    lemma_regroup_count(stats.timings, by_class(), key);
    lemma_regroup_time(stats.timings, by_class(), key);
    lemma_resum_count(stats.committed, context_history(), history);
    assert(having(by_history(), row) =~= all);
    assert(having(by_class(), key) =~= own);
    assert(having(context_history(), history) =~= commits);
}

} // verus!
