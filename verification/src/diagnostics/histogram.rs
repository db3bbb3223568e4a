//! Durations in fixed buckets.

use vstd::prelude::*;

verus! {

/// The sets of bucket bounds.
#[derive(Clone, Copy, Debug, PartialEq, Eq, Structural, PartialOrd, Ord)]
pub enum Buckets {
    /// For the work of the collector, up to ten minutes.
    Collector,
    /// For waits and executions, up to a day.
    Diagnostic,
    /// For exchanges on the network, up to three minutes.
    Network,
}

/// The upper bounds of the buckets in milliseconds, in ascending order.
pub open spec fn bounds_of(kind: Buckets) -> Seq<u64> {
    match kind {
        Buckets::Collector => seq![
            1u64, 2, 5, 10, 20, 50, 100, 200, 500, 1_000, 2_000, 5_000, 10_000, 30_000, 60_000,
            180_000, 600_000,
        ],
        Buckets::Diagnostic => seq![
            1u64, 10, 50, 100, 500, 1_000, 5_000, 10_000, 30_000, 60_000, 300_000, 600_000,
            1_800_000, 3_600_000, 10_800_000, 21_600_000, 43_200_000, 64_800_000, 86_400_000,
        ],
        Buckets::Network => seq![
            1u64, 5, 10, 20, 50, 100, 200, 500, 1_000, 2_000, 5_000, 10_000, 30_000, 60_000,
            120_000, 180_000,
        ],
    }
}

/// The upper bounds of the buckets.
fn bounds(kind: Buckets) -> (bounds: Vec<u64>)
    ensures
        bounds@ == bounds_of(kind),
{
    match kind {
        Buckets::Collector => vec![
            1u64, 2, 5, 10, 20, 50, 100, 200, 500, 1_000, 2_000, 5_000, 10_000, 30_000, 60_000,
            180_000, 600_000,
        ],
        Buckets::Diagnostic => vec![
            1u64, 10, 50, 100, 500, 1_000, 5_000, 10_000, 30_000, 60_000, 300_000, 600_000,
            1_800_000, 3_600_000, 10_800_000, 21_600_000, 43_200_000, 64_800_000, 86_400_000,
        ],
        Buckets::Network => vec![
            1u64, 5, 10, 20, 50, 100, 200, 500, 1_000, 2_000, 5_000, 10_000, 30_000, 60_000,
            120_000, 180_000,
        ],
    }
}

/// The bucket of a duration: the first whose bound it does not exceed, or the one behind the last.
pub open spec fn bucket_of(bounds: Seq<u64>, millis: u64) -> int
    decreases bounds.len(),
{
    if bounds.len() == 0 || millis <= bounds[0] {
        0
    } else {
        1 + bucket_of(bounds.drop_first(), millis)
    }
}

/// The sum of the first `n` counts.
pub open spec fn count_upto(counts: Seq<u64>, n: int) -> int
    decreases n,
{
    if n <= 0 {
        0
    } else {
        count_upto(counts, n - 1) + counts[n - 1]
    }
}

/// The durations of one kind: how many fell in each bucket, how many there were and their sum, as
/// far as it can be held.
#[derive(Debug)]
pub struct Histogram {
    pub kind: Buckets,
    pub buckets: Vec<u64>,
    pub count: u64,
    pub sum_ms: u64,
}

/// The model of a histogram.
pub struct HistogramModel {
    pub kind: Buckets,
    pub buckets: Seq<u64>,
    pub count: u64,
    pub sum_ms: u64,
}

impl View for Histogram {
    type V = HistogramModel;

    open spec fn view(&self) -> HistogramModel {
        HistogramModel {
            kind: self.kind,
            buckets: self.buckets@,
            count: self.count,
            sum_ms: self.sum_ms,
        }
    }
}

/// The sum of two numbers, held at the end of the range.
pub open spec fn capped(n: int) -> u64 {
    if n > u64::MAX {
        u64::MAX
    } else {
        n as u64
    }
}

impl HistogramModel {
    /// Whether there is a count for each bucket and one behind the last, and the counts add up.
    pub open spec fn well_formed(self) -> bool {
        &&& self.buckets.len() == bounds_of(self.kind).len() + 1
        &&& self.count == count_upto(self.buckets, self.buckets.len() as int)
    }

    /// A histogram without durations.
    pub open spec fn empty(kind: Buckets) -> HistogramModel {
        HistogramModel {
            kind,
            buckets: Seq::new(bounds_of(kind).len() + 1, |i: int| 0u64),
            count: 0,
            sum_ms: 0,
        }
    }

    /// The histogram with one more duration.
    pub open spec fn recorded(self, millis: u64) -> HistogramModel {
        let at = bucket_of(bounds_of(self.kind), millis);
        HistogramModel {
            kind: self.kind,
            buckets: self.buckets.update(at, (self.buckets[at] + 1) as u64),
            count: (self.count + 1) as u64,
            sum_ms: capped(self.sum_ms + millis),
        }
    }

    /// The durations of both.
    pub open spec fn merged(self, other: HistogramModel) -> HistogramModel {
        HistogramModel {
            kind: self.kind,
            buckets: Seq::new(
                self.buckets.len(),
                |i: int| (self.buckets[i] + other.buckets[i]) as u64,
            ),
            count: (self.count + other.count) as u64,
            sum_ms: capped(self.sum_ms + other.sum_ms),
        }
    }

    /// How many durations must not exceed a bound for it to be the `percent` quantile.
    pub open spec fn rank(self, percent: int) -> int {
        if (self.count * percent + 99) / 100 < 1 {
            1
        } else {
            (self.count * percent + 99) / 100
        }
    }

    /// The first bucket with which `rank` durations are reached.
    pub open spec fn bucket_at(self, rank: int, from: int) -> int
        decreases self.buckets.len() - from,
    {
        if from >= self.buckets.len() || count_upto(self.buckets, from + 1) >= rank {
            from
        } else {
            self.bucket_at(rank, from + 1)
        }
    }

    /// The quantile: the bound of its bucket, or the last bound where it lies behind that.
    pub open spec fn quantile_of(self, percent: int) -> Quantile {
        let bounds = bounds_of(self.kind);
        if self.count == 0 {
            Quantile { upper_bound_ms: None, exceeds_ms: None }
        } else {
            let at = self.bucket_at(self.rank(percent), 0);
            if at < bounds.len() {
                Quantile { upper_bound_ms: Some(bounds[at]), exceeds_ms: None }
            } else {
                Quantile { upper_bound_ms: None, exceeds_ms: Some(bounds[bounds.len() - 1]) }
            }
        }
    }
}

/// A quantile as far as the buckets tell: a bound that it does not exceed, or one that it exceeds.
#[derive(Clone, Copy, Debug, PartialEq, Eq, Structural)]
pub struct Quantile {
    pub upper_bound_ms: Option<u64>,
    pub exceeds_ms: Option<u64>,
}

/// The bucket of a duration is one of them.
proof fn lemma_bucket_range(bounds: Seq<u64>, millis: u64)
    ensures
        0 <= bucket_of(bounds, millis) <= bounds.len(),
    decreases bounds.len(),
{
    if bounds.len() > 0 && millis > bounds[0] {
        lemma_bucket_range(bounds.drop_first(), millis);
    }
}

/// The bucket of a duration holds it: it does not exceed the bound, and exceeds those before.
pub proof fn lemma_bucket_holds(bounds: Seq<u64>, millis: u64)
    ensures
        0 <= bucket_of(bounds, millis) <= bounds.len(),
        bucket_of(bounds, millis) < bounds.len() ==> millis <= bounds[bucket_of(bounds, millis)],
        forall|i: int| 0 <= i < bucket_of(bounds, millis) ==> #[trigger] bounds[i] < millis,
    decreases bounds.len(),
{
    if bounds.len() > 0 && millis > bounds[0] {
        let rest = bounds.drop_first();
        lemma_bucket_holds(rest, millis);
        assert forall|i: int| 0 <= i < bucket_of(bounds, millis) implies #[trigger] bounds[i]
            < millis by {
            if i > 0 {
                assert(rest[i - 1] == bounds[i]);
            }
        }
    }
}

/// Each count is part of the sum, and the sum grows.
proof fn lemma_count_part(counts: Seq<u64>, i: int, n: int)
    requires
        0 <= i < n <= counts.len(),
    ensures
        0 <= count_upto(counts, i),
        count_upto(counts, i) + counts[i] <= count_upto(counts, n),
    decreases n,
{
    lemma_count_positive(counts, i);
    if i < n - 1 {
        lemma_count_part(counts, i, n - 1);
    }
}

/// No sum is negative.
proof fn lemma_count_positive(counts: Seq<u64>, n: int)
    requires
        n <= counts.len(),
    ensures
        0 <= count_upto(counts, n),
    decreases n,
{
    if n > 0 {
        lemma_count_positive(counts, n - 1);
    }
}

/// One more in a bucket is one more in the sum.
proof fn lemma_count_update(counts: Seq<u64>, at: int, value: u64, n: int)
    requires
        0 <= at < counts.len(),
        n <= counts.len(),
    ensures
        count_upto(counts.update(at, value), n) == count_upto(counts, n) + if at < n {
            value - counts[at]
        } else {
            0
        },
    decreases n,
{
    if n > 0 {
        lemma_count_update(counts, at, value, n - 1);
    }
}

/// The sum over two lists is the sum of both.
proof fn lemma_count_merge(a: Seq<u64>, b: Seq<u64>, c: Seq<u64>, n: int)
    requires
        a.len() == b.len() == c.len(),
        n <= a.len(),
        forall|i: int| 0 <= i < a.len() ==> #[trigger] c[i] == a[i] + b[i],
    ensures
        count_upto(c, n) == count_upto(a, n) + count_upto(b, n),
    decreases n,
{
    if n > 0 {
        lemma_count_merge(a, b, c, n - 1);
    }
}

/// A list of zeros adds up to zero.
proof fn lemma_count_zero(counts: Seq<u64>, n: int)
    requires
        n <= counts.len(),
        forall|i: int| 0 <= i < counts.len() ==> counts[i] == 0,
    ensures
        count_upto(counts, n) == 0,
    decreases n,
{
    if n > 0 {
        lemma_count_zero(counts, n - 1);
    }
}

/// The durations of two histograms of one kind add up, where they can be counted.
pub proof fn lemma_merged(a: HistogramModel, b: HistogramModel)
    requires
        a.well_formed(),
        b.well_formed(),
        a.kind == b.kind,
        a.count + b.count <= u64::MAX,
    ensures
        a.merged(b).well_formed(),
        a.merged(b).count == a.count + b.count,
{
    let merged = a.merged(b).buckets;
    assert forall|i: int| 0 <= i < merged.len() implies #[trigger] merged[i] == a.buckets[i]
        + b.buckets[i] by {
        lemma_count_part(a.buckets, i, a.buckets.len() as int);
        lemma_count_part(b.buckets, i, b.buckets.len() as int);
    }
    lemma_count_merge(a.buckets, b.buckets, merged, merged.len() as int);
}

/// A duration counts once, where it can be counted.
pub proof fn lemma_recorded(model: HistogramModel, millis: u64)
    requires
        model.well_formed(),
        model.count < u64::MAX,
    ensures
        model.recorded(millis).well_formed(),
        model.recorded(millis).count == model.count + 1,
{
    let at = bucket_of(bounds_of(model.kind), millis);
    lemma_bucket_range(bounds_of(model.kind), millis);
    lemma_count_part(model.buckets, at, model.buckets.len() as int);
    lemma_count_update(
        model.buckets,
        at,
        (model.buckets[at] + 1) as u64,
        model.buckets.len() as int,
    );
}

/// There are no durations in an empty histogram.
pub proof fn lemma_empty(kind: Buckets)
    ensures
        HistogramModel::empty(kind).well_formed(),
{
    let buckets = HistogramModel::empty(kind).buckets;
    lemma_count_zero(buckets, buckets.len() as int);
}

impl Default for Histogram {
    /// A histogram in the buckets of the collector.
    fn default() -> (histogram: Histogram)
        ensures
            histogram@ == HistogramModel::empty(Buckets::Collector),
            histogram@.well_formed(),
    {
        Histogram::new(Buckets::Collector)
    }
}

impl Histogram {
    /// A histogram without durations.
    pub fn new(kind: Buckets) -> (histogram: Histogram)
        ensures
            histogram@ == HistogramModel::empty(kind),
            histogram@.well_formed(),
    {
        let limits = bounds(kind);
        let mut buckets: Vec<u64> = Vec::new();
        for i in 0..limits.len() + 1
            invariant
                limits@ == bounds_of(kind),
                buckets@.len() == i,
                forall|k: int| 0 <= k < i ==> buckets@[k] == 0,
        {
            buckets.push(0);
        }
        proof {
            assert(buckets@ =~= HistogramModel::empty(kind).buckets);
            lemma_count_zero(buckets@, buckets@.len() as int);
        }
        Histogram { kind, buckets, count: 0, sum_ms: 0 }
    }

    /// Counts a duration.
    pub fn record(&mut self, millis: u64)
        requires
            old(self)@.well_formed(),
            old(self).count < u64::MAX,
        ensures
            final(self)@ == old(self)@.recorded(millis),
            final(self)@.well_formed(),
    {
        let limits = bounds(self.kind);
        let mut at: usize = 0;
        assert(limits@.skip(0) =~= limits@);
        while at < limits.len() && millis > limits[at]
            invariant
                at <= limits@.len(),
                bucket_of(limits@, millis) == at + bucket_of(limits@.skip(at as int), millis),
            decreases limits@.len() - at,
        {
            assert(limits@.skip(at as int).drop_first() =~= limits@.skip(at + 1));
            at += 1;
        }
        proof {
            lemma_bucket_range(limits@, millis);
            if at < limits@.len() {
                assert(limits@.skip(at as int)[0] == limits@[at as int]);
            }
            assert(at == bucket_of(limits@, millis));
            lemma_count_part(self.buckets@, at as int, self.buckets@.len() as int);
            lemma_count_update(
                self.buckets@,
                at as int,
                (self.buckets@[at as int] + 1) as u64,
                self.buckets@.len() as int,
            );
        }
        let one_more: u64 = self.buckets[at] + 1;
        self.buckets.set(at, one_more);
        self.count = self.count + 1;
        self.sum_ms = self.sum_ms.saturating_add(millis);
    }

    /// Takes over the durations of another histogram of the same kind.
    pub fn merge(&mut self, other: &Histogram)
        requires
            old(self)@.well_formed(),
            other@.well_formed(),
            old(self).kind == other.kind,
            old(self).count + other.count <= u64::MAX,
        ensures
            final(self)@ == old(self)@.merged(other@),
            final(self)@.well_formed(),
    {
        let ghost mine = self.buckets@;
        let ghost theirs = other.buckets@;
        let mut merged: Vec<u64> = Vec::new();
        proof {
            assert forall|i: int| 0 <= i < mine.len() implies #[trigger] mine[i] + theirs[i]
                <= u64::MAX by {
                lemma_count_part(mine, i, mine.len() as int);
                lemma_count_part(theirs, i, theirs.len() as int);
            }
        }
        for i in 0..self.buckets.len()
            invariant
                mine == self.buckets@,
                theirs == other.buckets@,
                mine.len() == theirs.len(),
                forall|k: int| 0 <= k < mine.len() ==> #[trigger] mine[k] + theirs[k] <= u64::MAX,
                merged@.len() == i,
                forall|k: int| 0 <= k < i ==> #[trigger] merged@[k] == mine[k] + theirs[k],
        {
            assert(mine[i as int] + theirs[i as int] <= u64::MAX);
            merged.push(self.buckets[i] + other.buckets[i]);
        }
        proof {
            lemma_count_merge(mine, theirs, merged@, mine.len() as int);
            assert(merged@ =~= self@.merged(other@).buckets);
        }
        self.buckets = merged;
        self.count = self.count + other.count;
        self.sum_ms = self.sum_ms.saturating_add(other.sum_ms);
    }

    /// A copy of the histogram.
    pub fn copy(&self) -> (copy: Histogram)
        ensures
            copy@ == self@,
    {
        Histogram {
            kind: self.kind,
            buckets: vstd::slice::slice_to_vec(self.buckets.as_slice()),
            count: self.count,
            sum_ms: self.sum_ms,
        }
    }

    /// The quantile in percent.
    pub fn quantile(&self, percent: u64) -> (quantile: Quantile)
        requires
            self@.well_formed(),
            percent <= 100,
        ensures
            quantile == self@.quantile_of(percent as int),
    {
        if self.count == 0 {
            return Quantile { upper_bound_ms: None, exceeds_ms: None };
        }
        let limits = bounds(self.kind);
        assert(self.count * percent <= u64::MAX * 100) by (nonlinear_arith)
            requires
                self.count <= u64::MAX,
                percent <= 100,
        ;
        let scaled: u128 = (self.count as u128 * percent as u128 + 99) / 100;
        let rank: u128 = if scaled < 1 {
            1
        } else {
            scaled
        };
        let ghost model = self@;
        let mut reached: u128 = 0;
        let mut at: usize = 0;
        proof {
            assert(rank == model.rank(percent as int));
            assert(model.rank(percent as int) <= self.count) by (nonlinear_arith)
                requires
                    0 < self.count,
                    percent <= 100,
                    model.rank(percent as int) == (if (self.count * percent + 99) / 100 < 1 {
                        1
                    } else {
                        (self.count * percent + 99) / 100
                    }),
            ;
        }
        while at < limits.len()
            invariant
                limits@ == bounds_of(self.kind),
                model == self@,
                model.well_formed(),
                self.count > 0,
                at <= limits@.len(),
                reached == count_upto(model.buckets, at as int),
                reached < rank,
                rank <= self.count,
                rank == model.rank(percent as int),
                model.bucket_at(rank as int, 0) == model.bucket_at(rank as int, at as int),
            decreases limits@.len() - at,
        {
            proof {
                lemma_count_part(model.buckets, at as int, model.buckets.len() as int);
            }
            let next: u128 = reached + self.buckets[at] as u128;
            if next >= rank {
                return Quantile { upper_bound_ms: Some(limits[at]), exceeds_ms: None };
            }
            reached = next;
            at += 1;
        }
        assert(count_upto(model.buckets, at + 1) == self.count);
        Quantile { upper_bound_ms: None, exceeds_ms: Some(limits[limits.len() - 1]) }
    }

    /// How many durations exceed the last bound.
    pub fn overflow(&self) -> (count: u64)
        requires
            self@.well_formed(),
        ensures
            count == self@.buckets[self@.buckets.len() - 1],
    {
        self.buckets[self.buckets.len() - 1]
    }

    /// How many durations there are.
    pub fn count(&self) -> (count: u64)
        ensures
            count == self.count,
    {
        self.count
    }
}

/// What is reported of a histogram.
#[derive(Clone, Copy, Debug, PartialEq, Eq, Structural)]
pub struct Figures {
    pub count: u64,
    pub sum_ms: u64,
    pub p50: Quantile,
    pub p95: Quantile,
    pub p99: Quantile,
    pub overflow: u64,
}

impl HistogramModel {
    /// What is reported of a histogram.
    pub open spec fn figures_of(self) -> Figures {
        Figures {
            count: self.count,
            sum_ms: self.sum_ms,
            p50: self.quantile_of(50),
            p95: self.quantile_of(95),
            p99: self.quantile_of(99),
            overflow: self.buckets[self.buckets.len() - 1],
        }
    }
}

impl Histogram {
    /// What is reported of the histogram.
    pub fn figures(&self) -> (figures: Figures)
        requires
            self@.well_formed(),
        ensures
            figures == self@.figures_of(),
    {
        Figures {
            count: self.count,
            sum_ms: self.sum_ms,
            p50: self.quantile(50),
            p95: self.quantile(95),
            p99: self.quantile(99),
            overflow: self.overflow(),
        }
    }
}

/// A quantile is where it is said to be: fewer than its rank lie in the buckets before, and at least
/// its rank up to its own.
pub proof fn lemma_quantile(model: HistogramModel, rank: int, from: int)
    requires
        model.well_formed(),
        0 <= from <= model.buckets.len(),
        count_upto(model.buckets, from) < rank <= model.count,
    ensures
        ({
            let at = model.bucket_at(rank, from);
            &&& from <= at < model.buckets.len()
            &&& count_upto(model.buckets, at) < rank
            &&& rank <= count_upto(model.buckets, at + 1)
        }),
    decreases model.buckets.len() - from,
{
    if from < model.buckets.len() && count_upto(model.buckets, from + 1) < rank {
        lemma_quantile(model, rank, from + 1);
    }
}

/// The bounds of the buckets, in milliseconds.
pub proof fn lemma_bounds()
    ensures
        bounds_of(Buckets::Collector) == seq![
            1u64, 2, 5, 10, 20, 50, 100, 200, 500, 1_000, 2_000, 5_000, 10_000, 30_000, 60_000,
            180_000, 600_000,
        ],
        bounds_of(Buckets::Diagnostic) == seq![
            1u64, 10, 50, 100, 500, 1_000, 5_000, 10_000, 30_000, 60_000, 300_000, 600_000,
            1_800_000, 3_600_000, 10_800_000, 21_600_000, 43_200_000, 64_800_000, 86_400_000,
        ],
        bounds_of(Buckets::Network) == seq![
            1u64, 5, 10, 20, 50, 100, 200, 500, 1_000, 2_000, 5_000, 10_000, 30_000, 60_000,
            120_000, 180_000,
        ],
{
}

/// A time counts once, in the one bucket between whose bounds it lies, and adds itself to the sum;
/// all other buckets keep their counts.
pub proof fn lemma_recorded_once(model: HistogramModel, millis: u64, i: int)
    requires
        model.well_formed(),
        model.count < u64::MAX,
        0 <= i < model.buckets.len(),
    ensures
        ({
            let after = model.recorded(millis);
            let bounds = bounds_of(model.kind);
            let above = i == 0 || bounds[i - 1] < millis;
            let below = i == bounds.len() || millis <= bounds[i];
            &&& after.kind == model.kind
            &&& after.buckets.len() == bounds.len() + 1
            &&& above && below ==> after.buckets[i] == model.buckets[i] + 1
            &&& !(above && below) ==> after.buckets[i] == model.buckets[i]
            &&& after.count == model.count + 1
            &&& model.sum_ms + millis <= u64::MAX ==> after.sum_ms == model.sum_ms + millis
            &&& model.sum_ms + millis > u64::MAX ==> after.sum_ms == u64::MAX
        }),
{
    let bounds = bounds_of(model.kind);
    let at = bucket_of(bounds, millis);
    lemma_bucket_holds(bounds, millis);
    lemma_count_part(model.buckets, at, model.buckets.len() as int);
    assert forall|j: int, k: int| 0 <= j < k < bounds.len() implies #[trigger] bounds[j]
        < #[trigger] bounds[k] by {}
    if i < at {
        assert(bounds[i] < millis);
    } else if at < i {
        assert(millis <= bounds[at]);
        if at < i - 1 {
            assert(bounds[at] < bounds[i - 1]);
        }
    }
}

/// Two histograms are merged bucket by bucket.
pub proof fn lemma_merged_buckets(a: HistogramModel, b: HistogramModel, i: int)
    requires
        a.well_formed(),
        b.well_formed(),
        a.kind == b.kind,
        a.count + b.count <= u64::MAX,
        0 <= i < a.buckets.len(),
    ensures
        ({
            let both = a.merged(b);
            &&& both.kind == a.kind
            &&& both.buckets.len() == a.buckets.len()
            &&& both.buckets[i] == a.buckets[i] + b.buckets[i]
            &&& both.count == a.count + b.count
            &&& a.sum_ms + b.sum_ms <= u64::MAX ==> both.sum_ms == a.sum_ms + b.sum_ms
            &&& a.sum_ms + b.sum_ms > u64::MAX ==> both.sum_ms == u64::MAX
        }),
{
    lemma_count_part(a.buckets, i, a.buckets.len() as int);
    lemma_count_part(b.buckets, i, b.buckets.len() as int);
}

/// An empty histogram has counted nothing.
pub proof fn lemma_nothing_counted(kind: Buckets, i: int)
    ensures
        ({
            let empty = HistogramModel::empty(kind);
            &&& empty.kind == kind
            &&& empty.count == 0
            &&& empty.sum_ms == 0
            &&& empty.buckets.len() == bounds_of(kind).len() + 1
            &&& 0 <= i < empty.buckets.len() ==> empty.buckets[i] == 0
        }),
{
}

/// Times are counted up bucket by bucket, and what cannot be held is the largest number.
pub proof fn lemma_count_upto(counts: Seq<u64>, n: int, total: int)
    requires
        0 <= n,
    ensures
        count_upto(counts, 0) == 0,
        count_upto(counts, n + 1) == count_upto(counts, n) + counts[n],
        0 <= total <= u64::MAX ==> capped(total) == total,
        total > u64::MAX ==> capped(total) == u64::MAX,
{
}

/// A quantile is the bound of the bucket with which at least that share of all times is reached and
/// before which it is not; where it is reached only behind the last bound, it is known to exceed it.
pub proof fn lemma_quantile_share(model: HistogramModel, percent: int)
    requires
        model.well_formed(),
        0 < percent <= 100,
    ensures
        ({
            let quantile = model.quantile_of(percent);
            let bounds = bounds_of(model.kind);
            let last = bounds.len() - 1;
            &&& model.count == 0 ==> quantile.upper_bound_ms is None && quantile.exceeds_ms is None
            &&& model.count > 0 ==> quantile.upper_bound_ms is Some != quantile.exceeds_ms is Some
            &&& quantile.upper_bound_ms matches Some(bound) ==> exists|i: int|
                {
                    &&& 0 <= i < bounds.len()
                    &&& #[trigger] bounds[i] == bound
                    &&& 100 * count_upto(model.buckets, i + 1) >= model.count * percent
                    &&& 100 * count_upto(model.buckets, i) < model.count * percent
                }
            &&& quantile.exceeds_ms matches Some(bound) ==> bound == bounds[last] && 100
                * count_upto(model.buckets, last + 1) < model.count * percent
        }),
{
    if model.count > 0 {
        let rank = model.rank(percent);
        let share = model.count * percent;
        assert(0 < share <= model.count * 100) by (nonlinear_arith)
            requires
                0 < percent <= 100,
                model.count > 0,
                share == model.count * percent,
        ;
        assert((share + 99) / 100 >= 1);
        assert(100 * rank >= share > 100 * (rank - 1));
        assert(rank <= model.count);
        lemma_quantile(model, rank, 0);
        let at = model.bucket_at(rank, 0);
        let bounds = bounds_of(model.kind);
        if at < bounds.len() {
            assert(bounds[at] == model.quantile_of(percent).upper_bound_ms->0);
        }
    }
}

/// The figures of a histogram: its count, its sum, three quantiles, and what lies behind the last
/// bound.
pub proof fn lemma_figures(model: HistogramModel)
    requires
        model.well_formed(),
    ensures
        ({
            let figures = model.figures_of();
            &&& figures.count == model.count
            &&& figures.sum_ms == model.sum_ms
            &&& figures.p50 == model.quantile_of(50)
            &&& figures.p95 == model.quantile_of(95)
            &&& figures.p99 == model.quantile_of(99)
            &&& figures.overflow == model.buckets[bounds_of(model.kind).len() as int]
        }),
{
}

/// The model of a histogram holds each of its fields.
pub proof fn lemma_histogram_view(histogram: Histogram)
    ensures
        histogram@.kind == histogram.kind,
        histogram@.buckets == histogram.buckets@,
        histogram@.count == histogram.count,
        histogram@.sum_ms == histogram.sum_ms,
{
}

} // verus!
