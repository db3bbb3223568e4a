//! Tables of aggregates, one row for each combination of dimensions, in the order of the keys.

use crate::diagnostics::histogram::{
    capped, lemma_empty, lemma_recorded, Buckets, Histogram, HistogramModel,
};
use crate::diagnostics::keys::Keyed;
use vstd::prelude::*;

verus! {

/// A table: the keys in ascending order, and a value for each.
#[derive(Debug)]
pub struct Table<K, V> {
    pub keys: Vec<K>,
    pub values: Vec<V>,
}

/// The model of a table.
#[verifier::ext_equal]
pub struct TableModel<K, W> {
    pub keys: Seq<K>,
    pub values: Seq<W>,
}

impl<K, V: View> View for Table<K, V> {
    type V = TableModel<K, V::V>;

    open spec fn view(&self) -> TableModel<K, V::V> {
        TableModel {
            keys: self.keys@,
            values: Seq::new(self.values@.len(), |i: int| self.values@[i]@),
        }
    }
}

/// Whether keys stand in ascending order, so that none occurs twice.
pub open spec fn ascending<K: Keyed>(keys: Seq<K>) -> bool {
    forall|i: int, j: int|
        0 <= i < j < keys.len() ==> (#[trigger] keys[i]).rank() < (#[trigger] keys[j]).rank()
}

/// The place of a key: behind all smaller ones.
pub open spec fn place_of<K: Keyed>(keys: Seq<K>, key: K) -> int
    decreases keys.len(),
{
    if keys.len() == 0 {
        0
    } else if keys.last().rank() < key.rank() {
        keys.len() as int
    } else {
        place_of(keys.drop_last(), key)
    }
}

impl<K: Keyed, W> TableModel<K, W> {
    /// A table without rows.
    pub open spec fn empty() -> TableModel<K, W> {
        TableModel { keys: Seq::empty(), values: Seq::empty() }
    }

    /// Whether there is a value for each key, and the keys are in order.
    pub open spec fn in_order(self) -> bool {
        self.keys.len() == self.values.len() && ascending(self.keys)
    }

    /// The value of a key.
    pub open spec fn get(self, key: K) -> Option<W> {
        if self.keys.contains(key) {
            Some(self.values[place_of(self.keys, key)])
        } else {
            None
        }
    }

    /// The table with a value for a key: the row changes, or a new one stands at its place.
    pub open spec fn put(self, key: K, value: W) -> TableModel<K, W> {
        let at = place_of(self.keys, key);
        if self.keys.contains(key) {
            TableModel { keys: self.keys, values: self.values.update(at, value) }
        } else {
            TableModel {
                keys: self.keys.insert(at, key),
                values: self.values.insert(at, value),
            }
        }
    }

    /// The first `n` rows.
    pub open spec fn take(self, n: int) -> TableModel<K, W> {
        TableModel { keys: self.keys.take(n), values: self.values.take(n) }
    }

    /// All rows but the last.
    pub open spec fn drop_last(self) -> TableModel<K, W> {
        TableModel { keys: self.keys.drop_last(), values: self.values.drop_last() }
    }
}

/// The place of a key divides the keys: those before are smaller, those behind are not.
pub proof fn lemma_place<K: Keyed>(keys: Seq<K>, key: K)
    requires
        ascending(keys),
    ensures
        0 <= place_of(keys, key) <= keys.len(),
        forall|i: int|
            0 <= i < place_of(keys, key) ==> (#[trigger] keys[i]).rank() < key.rank(),
        forall|i: int|
            place_of(keys, key) <= i < keys.len() ==> (#[trigger] keys[i]).rank() >= key.rank(),
        keys.contains(key) <==> (place_of(keys, key) < keys.len() && keys[place_of(
            keys,
            key,
        )].rank() == key.rank()),
        keys.contains(key) ==> keys[place_of(keys, key)] == key,
    decreases keys.len(),
{
    let at = place_of(keys, key);
    if keys.len() > 0 {
        if keys.last().rank() < key.rank() {
            assert forall|i: int| 0 <= i < at implies (#[trigger] keys[i]).rank() < key.rank() by {
                if i < keys.len() - 1 {
                    assert(keys[i].rank() < keys[keys.len() - 1].rank());
                }
            }
        } else {
            let rest = keys.drop_last();
            lemma_place(rest, key);
            assert forall|i: int| 0 <= i < at implies (#[trigger] keys[i]).rank() < key.rank() by {
                assert(rest[i] == keys[i]);
            }
            assert forall|i: int| at <= i < keys.len() implies (#[trigger] keys[i]).rank()
                >= key.rank() by {
                if i < keys.len() - 1 {
                    assert(rest[i] == keys[i]);
                }
            }
        }
    }
    if at < keys.len() && keys[at].rank() == key.rank() {
        K::lemma_rank(keys[at], key);
    }
    if keys.contains(key) {
        let i = choose|i: int| 0 <= i < keys.len() && keys[i] == key;
        assert(i >= at);
        if i > at {
            assert(keys[at].rank() < keys[i].rank());
        }
    }
}

/// A table stays in order when a value is put.
pub proof fn lemma_put_in_order<K: Keyed, W>(table: TableModel<K, W>, key: K, value: W)
    requires
        table.in_order(),
    ensures
        table.put(key, value).in_order(),
{
    lemma_place(table.keys, key);
    let at = place_of(table.keys, key);
    let keys = table.put(key, value).keys;
    if !table.keys.contains(key) {
        assert forall|i: int, j: int| 0 <= i < j < keys.len() implies (#[trigger] keys[i]).rank()
            < (#[trigger] keys[j]).rank() by {
            if j < at {
                assert(keys[i] == table.keys[i] && keys[j] == table.keys[j]);
            } else if j == at {
                assert(keys[i] == table.keys[i] && keys[j] == key);
            } else if i < at {
                assert(keys[i] == table.keys[i] && keys[j] == table.keys[j - 1]);
                assert(table.keys[j - 1].rank() >= key.rank());
            } else if i == at {
                assert(keys[i] == key && keys[j] == table.keys[j - 1]);
                assert(table.keys[at].rank() >= key.rank());
                if table.keys[at].rank() == key.rank() {
                    assert(false);
                }
                if j - 1 > at {
                    assert(table.keys[at].rank() < table.keys[j - 1].rank());
                }
            } else {
                assert(keys[i] == table.keys[i - 1] && keys[j] == table.keys[j - 1]);
            }
        }
    }
}

/// What is put can be got, and every other key keeps its value.
pub proof fn lemma_put_get<K: Keyed, W>(table: TableModel<K, W>, key: K, value: W, other: K)
    requires
        table.in_order(),
    ensures
        table.put(key, value).get(key) == Some(value),
        other != key ==> table.put(key, value).get(other) == table.get(other),
{
    let next = table.put(key, value);
    let at = place_of(table.keys, key);
    lemma_put_in_order(table, key, value);
    lemma_place(table.keys, key);
    lemma_place(table.keys, other);
    lemma_place(next.keys, key);
    lemma_place(next.keys, other);
    assert(next.keys[at] == key);
    let here = place_of(next.keys, key);
    if here < at {
        assert(next.keys[here] == table.keys[here]);
    } else if here > at {
        assert(next.keys[at].rank() < key.rank());
    }
    if other != key {
        if table.keys.contains(other) {
            let i = place_of(table.keys, other);
            let moved = if table.keys.contains(key) || i < at {
                i
            } else {
                i + 1
            };
            assert(next.keys[moved] == other);
            let j = place_of(next.keys, other);
            if j < moved {
                assert(next.keys[j].rank() < next.keys[moved].rank());
            } else if moved < j {
                assert(next.keys[moved].rank() < other.rank());
            }
        } else if next.keys.contains(other) {
            let j = choose|j: int| 0 <= j < next.keys.len() && next.keys[j] == other;
            if table.keys.contains(key) || j < at {
                assert(table.keys[j] == other);
            } else {
                assert(table.keys[j - 1] == other);
            }
        }
    }
}

impl<K: Keyed, V: View> Table<K, V> {
    /// A table without rows.
    pub fn new() -> (table: Table<K, V>)
        ensures
            table@ == TableModel::<K, V::V>::empty(),
            table@.in_order(),
    {
        let table = Table { keys: Vec::new(), values: Vec::new() };
        assert(table@ =~= TableModel::<K, V::V>::empty());
        table
    }

    /// How many rows there are.
    pub fn len(&self) -> (len: usize)
        ensures
            len == self@.keys.len(),
    {
        self.keys.len()
    }

    /// The place of a key, and whether its row stands there.
    pub fn find(&self, key: K) -> (found: (usize, bool))
        requires
            self@.in_order(),
        ensures
            found.0 == place_of(self@.keys, key),
            found.0 <= self@.keys.len(),
            found.1 == self@.keys.contains(key),
            found.1 ==> found.0 < self@.keys.len() && self@.keys[found.0 as int] == key,
    {
        let code: u64 = key.code();
        let mut at: usize = self.keys.len();
        assert(self.keys@.take(at as int) =~= self.keys@);
        while at > 0 && self.keys[at - 1].code() >= code
            invariant
                at <= self.keys@.len(),
                code == key.rank(),
                place_of(self.keys@, key) == place_of(self.keys@.take(at as int), key),
            decreases at,
        {
            assert(self.keys@.take(at as int).last() == self.keys@[at - 1]);
            assert(self.keys@.take(at as int).drop_last() =~= self.keys@.take(at - 1));
            at -= 1;
        }
        proof {
            if at > 0 {
                assert(self.keys@.take(at as int).last() == self.keys@[at - 1]);
            }
            lemma_place(self.keys@, key);
        }
        let present = at < self.keys.len() && self.keys[at].code() == code;
        (at, present)
    }

    /// Puts the value of a key.
    pub fn put(&mut self, key: K, value: V)
        requires
            old(self)@.in_order(),
        ensures
            final(self)@ == old(self)@.put(key, value@),
            final(self)@.in_order(),
    {
        let ghost before = self@;
        let (at, present) = self.find(key);
        proof {
            lemma_put_in_order(before, key, value@);
        }
        let ghost model = value@;
        if present {
            self.values.set(at, value);
        } else {
            self.keys.insert(at, key);
            self.values.insert(at, value);
        }
        assert(self@ =~= before.put(key, model));
    }

    /// The value of a key.
    pub fn get(&self, key: K) -> (value: Option<&V>)
        requires
            self@.in_order(),
        ensures
            match value {
                Some(value) => self@.get(key) == Some(value@),
                None => self@.get(key) is None,
            },
    {
        let (at, present) = self.find(key);
        if present {
            Some(&self.values[at])
        } else {
            None
        }
    }
}

/// How many durations there are in all histograms.
pub open spec fn all_counts(values: Seq<HistogramModel>) -> int
    decreases values.len(),
{
    if values.len() == 0 {
        0
    } else {
        all_counts(values.drop_last()) + values.last().count
    }
}

/// The sum of numbers.
pub open spec fn all_sums(values: Seq<u64>) -> int
    decreases values.len(),
{
    if values.len() == 0 {
        0
    } else {
        all_sums(values.drop_last()) + values.last()
    }
}

/// No sum of counts is negative, and each count is part of it.
pub proof fn lemma_counts_part(values: Seq<HistogramModel>, at: int)
    ensures
        0 <= all_counts(values),
        0 <= at < values.len() ==> values[at].count <= all_counts(values),
    decreases values.len(),
{
    if values.len() > 0 {
        lemma_counts_part(values.drop_last(), at);
    }
}

/// The sum of counts after a change.
pub proof fn lemma_counts_update(values: Seq<HistogramModel>, at: int, value: HistogramModel)
    requires
        0 <= at < values.len(),
    ensures
        all_counts(values.update(at, value)) == all_counts(values) - values[at].count
            + value.count,
    decreases values.len(),
{
    let next = values.update(at, value);
    if at == values.len() - 1 {
        assert(next.drop_last() =~= values.drop_last());
    } else {
        lemma_counts_update(values.drop_last(), at, value);
        assert(next.drop_last() =~= values.drop_last().update(at, value));
    }
}

/// The sum of counts with one more histogram.
pub proof fn lemma_counts_insert(values: Seq<HistogramModel>, at: int, value: HistogramModel)
    requires
        0 <= at <= values.len(),
    ensures
        all_counts(values.insert(at, value)) == all_counts(values) + value.count,
    decreases values.len(),
{
    let next = values.insert(at, value);
    if at == values.len() {
        assert(next.drop_last() =~= values);
    } else {
        lemma_counts_insert(values.drop_last(), at, value);
        assert(next.drop_last() =~= values.drop_last().insert(at, value));
    }
}

/// No sum of numbers is negative, and each number is part of it.
pub proof fn lemma_sums_part(values: Seq<u64>, at: int)
    ensures
        0 <= all_sums(values),
        0 <= at < values.len() ==> values[at] <= all_sums(values),
    decreases values.len(),
{
    if values.len() > 0 {
        lemma_sums_part(values.drop_last(), at);
    }
}

/// The sum of numbers after a change.
pub proof fn lemma_sums_update(values: Seq<u64>, at: int, value: u64)
    requires
        0 <= at < values.len(),
    ensures
        all_sums(values.update(at, value)) == all_sums(values) - values[at] + value,
    decreases values.len(),
{
    let next = values.update(at, value);
    if at == values.len() - 1 {
        assert(next.drop_last() =~= values.drop_last());
    } else {
        lemma_sums_update(values.drop_last(), at, value);
        assert(next.drop_last() =~= values.drop_last().update(at, value));
    }
}

/// The sum of numbers with one more.
pub proof fn lemma_sums_insert(values: Seq<u64>, at: int, value: u64)
    requires
        0 <= at <= values.len(),
    ensures
        all_sums(values.insert(at, value)) == all_sums(values) + value,
    decreases values.len(),
{
    let next = values.insert(at, value);
    if at == values.len() {
        assert(next.drop_last() =~= values);
    } else {
        lemma_sums_insert(values.drop_last(), at, value);
        assert(next.drop_last() =~= values.drop_last().insert(at, value));
    }
}

impl<K: Keyed> TableModel<K, HistogramModel> {
    /// Whether the table is in order and holds histograms in given buckets.
    pub open spec fn holds(self, kind: Buckets) -> bool {
        &&& self.in_order()
        &&& forall|i: int|
            0 <= i < self.values.len() ==> (#[trigger] self.values[i]).well_formed()
                && self.values[i].kind == kind
    }

    /// Whether the table holds histograms in the buckets of the diagnostics.
    pub open spec fn well_formed(self) -> bool {
        self.holds(Buckets::Diagnostic)
    }

    /// The histogram of a key: an empty one where there is none.
    pub open spec fn timing_in(self, kind: Buckets, key: K) -> HistogramModel {
        match self.get(key) {
            Some(timing) => timing,
            None => HistogramModel::empty(kind),
        }
    }

    /// The histogram of a key in the buckets of the diagnostics.
    pub open spec fn timing(self, key: K) -> HistogramModel {
        self.timing_in(Buckets::Diagnostic, key)
    }

    /// How many durations there are in all rows.
    pub open spec fn total(self) -> int {
        all_counts(self.values)
    }

    /// The table with one more duration.
    pub open spec fn recorded_in(self, kind: Buckets, key: K, millis: u64) -> TableModel<
        K,
        HistogramModel,
    > {
        self.put(key, self.timing_in(kind, key).recorded(millis))
    }

    /// The table with one more duration in the buckets of the diagnostics.
    pub open spec fn recorded(self, key: K, millis: u64) -> TableModel<K, HistogramModel> {
        self.recorded_in(Buckets::Diagnostic, key, millis)
    }

    /// The table with the durations of a histogram.
    pub open spec fn merged(self, key: K, other: HistogramModel) -> TableModel<
        K,
        HistogramModel,
    > {
        self.put(key, self.timing(key).merged(other))
    }
}

/// The sum of counts after a histogram was put.
pub proof fn lemma_put_total<K: Keyed>(
    table: TableModel<K, HistogramModel>,
    kind: Buckets,
    key: K,
    value: HistogramModel,
)
    requires
        table.in_order(),
    ensures
        table.put(key, value).total() == table.total() - table.timing_in(kind, key).count
            + value.count,
        0 <= table.timing_in(kind, key).count <= table.total(),
{
    let at = place_of(table.keys, key);
    lemma_place(table.keys, key);
    lemma_counts_part(table.values, at);
    if table.keys.contains(key) {
        lemma_counts_update(table.values, at, value);
    } else {
        lemma_counts_insert(table.values, at, value);
    }
}

/// A table with a histogram put in stays in order.
pub proof fn lemma_put_holds<K: Keyed>(
    table: TableModel<K, HistogramModel>,
    kind: Buckets,
    key: K,
    value: HistogramModel,
)
    requires
        table.holds(kind),
        value.well_formed(),
        value.kind == kind,
    ensures
        table.put(key, value).holds(kind),
{
    let at = place_of(table.keys, key);
    lemma_place(table.keys, key);
    lemma_put_in_order(table, key, value);
    let next = table.put(key, value);
    assert forall|i: int| 0 <= i < next.values.len() implies (#[trigger] next.values[i]).well_formed()
        && next.values[i].kind == kind by {
        if i != at {
            if table.keys.contains(key) || i < at {
                assert(next.values[i] == table.values[i]);
            } else {
                assert(next.values[i] == table.values[i - 1]);
            }
        }
    }
}

/// A duration counts once in a table, where it can be counted.
pub proof fn lemma_recorded_row<K: Keyed>(
    table: TableModel<K, HistogramModel>,
    kind: Buckets,
    key: K,
    millis: u64,
)
    requires
        table.holds(kind),
        table.total() < u64::MAX,
    ensures
        table.recorded_in(kind, key, millis).holds(kind),
        table.recorded_in(kind, key, millis).total() == table.total() + 1,
{
    let timing = table.timing_in(kind, key);
    lemma_place(table.keys, key);
    lemma_empty(kind);
    if table.keys.contains(key) {
        assert(table.values[place_of(table.keys, key)].well_formed());
    }
    lemma_put_total(table, kind, key, timing.recorded(millis));
    lemma_recorded(timing, millis);
    lemma_put_holds(table, kind, key, timing.recorded(millis));
}

impl<K: Keyed> Table<K, Histogram> {
    /// How many durations there are in all rows, as far as the number can be held.
    pub fn count_all(&self) -> (count: u64)
        ensures
            count == capped(self@.total()),
    {
        let ghost values = self@.values;
        let mut count: u64 = 0;
        for i in 0..self.values.len()
            invariant
                values == self@.values,
                count == capped(all_counts(values.take(i as int))),
        {
            proof {
                assert(values.take(i + 1).drop_last() =~= values.take(i as int));
                assert(values.take(i + 1).last() == self.values@[i as int]@);
                lemma_counts_part(values.take(i as int), 0);
            }
            count = count.saturating_add(self.values[i].count);
        }
        assert(values.take(values.len() as int) =~= values);
        count
    }

    /// Counts a duration under a key, in given buckets.
    pub fn record_in(&mut self, kind: Buckets, key: K, millis: u64)
        requires
            old(self)@.holds(kind),
            old(self)@.total() < u64::MAX,
        ensures
            final(self)@ == old(self)@.recorded_in(kind, key, millis),
            final(self)@.holds(kind),
            final(self)@.total() == old(self)@.total() + 1,
    {
        let ghost before = self@;
        let ghost value = before.timing_in(kind, key).recorded(millis);
        let (at, present) = self.find(key);
        proof {
            lemma_recorded_row(before, kind, key, millis);
            lemma_put_total(before, kind, key, value);
            lemma_place(before.keys, key);
        }
        let mut timing = if present {
            self.values.remove(at)
        } else {
            self.keys.insert(at, key);
            Histogram::new(kind)
        };
        timing.record(millis);
        self.values.insert(at, timing);
        assert(self@ =~= before.put(key, value));
    }

    /// Counts a duration under a key, in the buckets of the diagnostics.
    pub fn record(&mut self, key: K, millis: u64)
        requires
            old(self)@.well_formed(),
            old(self)@.total() < u64::MAX,
        ensures
            final(self)@ == old(self)@.recorded(key, millis),
            final(self)@.well_formed(),
            final(self)@.total() == old(self)@.total() + 1,
    {
        self.record_in(Buckets::Diagnostic, key, millis);
    }

    /// A copy of the table.
    pub fn copy(&self) -> (copy: Table<K, Histogram>)
        requires
            self@.in_order(),
        ensures
            copy@ == self@,
    {
        let mut keys: Vec<K> = Vec::new();
        let mut values: Vec<Histogram> = Vec::new();
        for i in 0..self.keys.len()
            invariant
                self@.in_order(),
                keys@ == self.keys@.take(i as int),
                values@.len() == i,
                forall|k: int| 0 <= k < i ==> (#[trigger] values@[k])@ == self.values@[k]@,
        {
            keys.push(self.keys[i]);
            values.push(self.values[i].copy());
        }
        let copy = Table { keys, values };
        assert(copy@ =~= self@);
        copy
    }

    /// Takes over the durations of a histogram under a key.
    pub fn merge(&mut self, key: K, other: &Histogram)
        requires
            old(self)@.well_formed(),
            other@.well_formed(),
            other.kind == Buckets::Diagnostic,
            old(self)@.total() + other.count <= u64::MAX,
        ensures
            final(self)@ == old(self)@.merged(key, other@),
            final(self)@.well_formed(),
            final(self)@.total() == old(self)@.total() + other.count,
    {
        let ghost before = self@;
        let ghost value = before.timing(key).merged(other@);
        let (at, present) = self.find(key);
        proof {
            lemma_put_in_order(before, key, value);
            lemma_put_total(before, Buckets::Diagnostic, key, value);
            lemma_place(before.keys, key);
        }
        let mut timing = if present {
            self.values.remove(at)
        } else {
            self.keys.insert(at, key);
            Histogram::new(Buckets::Diagnostic)
        };
        timing.merge(other);
        proof {
            lemma_put_holds(before, Buckets::Diagnostic, key, timing@);
        }
        self.values.insert(at, timing);
        assert(self@ =~= before.put(key, value));
    }
}

impl<K: Keyed> TableModel<K, u64> {
    /// The number of a key: zero where there is none.
    pub open spec fn count(self, key: K) -> u64 {
        match self.get(key) {
            Some(count) => count,
            None => 0,
        }
    }

    /// The sum of all rows.
    pub open spec fn sum(self) -> int {
        all_sums(self.values)
    }

    /// The table with a higher number.
    pub open spec fn added(self, key: K, count: u64) -> TableModel<K, u64> {
        self.put(key, (self.count(key) + count) as u64)
    }
}

/// The sum of numbers after one was put.
pub proof fn lemma_put_sum<K: Keyed>(table: TableModel<K, u64>, key: K, value: u64)
    requires
        table.in_order(),
    ensures
        table.put(key, value).sum() == table.sum() - table.count(key) + value,
        table.count(key) <= table.sum(),
{
    let at = place_of(table.keys, key);
    lemma_place(table.keys, key);
    lemma_sums_part(table.values, at);
    if table.keys.contains(key) {
        lemma_sums_update(table.values, at, value);
    } else {
        lemma_sums_insert(table.values, at, value);
    }
}

impl<K: Keyed> Table<K, u64> {
    /// The sum of all rows, as far as it can be held.
    pub fn sum_all(&self) -> (sum: u64)
        ensures
            sum == capped(self@.sum()),
    {
        let ghost values = self@.values;
        let mut sum: u64 = 0;
        for i in 0..self.values.len()
            invariant
                values == self@.values,
                sum == capped(all_sums(values.take(i as int))),
        {
            proof {
                assert(values.take(i + 1).drop_last() =~= values.take(i as int));
                assert(values.take(i + 1).last() == self.values@[i as int]);
                lemma_sums_part(values.take(i as int), 0);
            }
            sum = sum.saturating_add(self.values[i]);
        }
        assert(values.take(values.len() as int) =~= values);
        sum
    }

    /// A copy of the table.
    pub fn copy(&self) -> (copy: Table<K, u64>)
        requires
            self@.in_order(),
        ensures
            copy@ == self@,
    {
        let mut keys: Vec<K> = Vec::new();
        let mut values: Vec<u64> = Vec::new();
        for i in 0..self.keys.len()
            invariant
                self@.in_order(),
                keys@ == self.keys@.take(i as int),
                values@ == self.values@.take(i as int),
        {
            keys.push(self.keys[i]);
            values.push(self.values[i]);
        }
        let copy = Table { keys, values };
        assert(copy@ =~= self@);
        copy
    }

    /// Adds to the number of a key.
    pub fn add_count(&mut self, key: K, count: u64)
        requires
            old(self)@.in_order(),
            old(self)@.sum() + count <= u64::MAX,
        ensures
            final(self)@ == old(self)@.added(key, count),
            final(self)@.in_order(),
            final(self)@.sum() == old(self)@.sum() + count,
    {
        let ghost before = self@;
        let ghost value = (before.count(key) + count) as u64;
        let (at, present) = self.find(key);
        proof {
            lemma_put_sum(before, key, value);
            lemma_put_in_order(before, key, value);
        }
        if present {
            let counted: u64 = self.values[at] + count;
            self.values.set(at, counted);
        } else {
            self.keys.insert(at, key);
            self.values.insert(at, count);
        }
        assert(self@ =~= before.put(key, value));
    }
}

/// A key that stands in a table is found with the value beside it, and no other key is found.
pub proof fn lemma_get_row<K: Keyed, W>(table: TableModel<K, W>, key: K, at: int)
    requires
        table.in_order(),
    ensures
        0 <= at < table.keys.len() ==> table.get(table.keys[at]) == Some(table.values[at]),
        !table.keys.contains(key) ==> table.get(key) is None,
        TableModel::<K, W>::empty().keys.len() == 0,
        TableModel::<K, W>::empty().values.len() == 0,
{
    if 0 <= at < table.keys.len() {
        let found = table.keys[at];
        lemma_place(table.keys, found);
        assert(table.keys.contains(found));
        let place = place_of(table.keys, found);
        if place < at {
            assert(table.keys[place].rank() < table.keys[at].rank());
        } else if at < place {
            assert(table.keys[at].rank() < table.keys[place].rank());
        }
    }
}

/// A time that is recorded joins the times of its key, which begin empty, and leaves all others.
pub proof fn lemma_recorded_timing<K: Keyed>(
    table: TableModel<K, HistogramModel>,
    kind: Buckets,
    key: K,
    millis: u64,
    other: K,
)
    requires
        table.in_order(),
    ensures
        table.get(key) is None ==> table.recorded_in(kind, key, millis).get(key) == Some(
            HistogramModel::empty(kind).recorded(millis),
        ),
        table.get(key) matches Some(times) ==> table.recorded_in(kind, key, millis).get(key) == Some(
            times.recorded(millis),
        ),
        other != key ==> table.recorded_in(kind, key, millis).get(other) == table.get(other),
        table.recorded(key, millis) == table.recorded_in(Buckets::Diagnostic, key, millis),
        table.timing(key) == table.timing_in(Buckets::Diagnostic, key),
        table.get(key) is None ==> table.timing_in(kind, key) == HistogramModel::empty(kind),
        table.get(key) matches Some(times) ==> table.timing_in(kind, key) == times,
{
    lemma_put_get(table, key, table.timing_in(kind, key).recorded(millis), other);
}

/// Times that are merged join those of their key, and leave all others.
pub proof fn lemma_merged_timing<K: Keyed>(
    table: TableModel<K, HistogramModel>,
    key: K,
    more: HistogramModel,
    other: K,
)
    requires
        table.in_order(),
    ensures
        table.get(key) is None ==> table.merged(key, more).get(key) == Some(
            HistogramModel::empty(Buckets::Diagnostic).merged(more),
        ),
        table.get(key) matches Some(times) ==> table.merged(key, more).get(key) == Some(
            times.merged(more),
        ),
        other != key ==> table.merged(key, more).get(other) == table.get(other),
{
    lemma_put_get(table, key, table.timing(key).merged(more), other);
}

/// A count is added to that of its key, which begins at nothing, and leaves all others.
pub proof fn lemma_added_count<K: Keyed>(table: TableModel<K, u64>, key: K, count: u64, other: K)
    requires
        table.in_order(),
        table.count(key) + count <= u64::MAX,
    ensures
        table.added(key, count).count(key) == table.count(key) + count,
        other != key ==> table.added(key, count).count(other) == table.count(other),
        table.get(key) is None ==> table.count(key) == 0,
        table.get(key) matches Some(known) ==> table.count(key) == known,
{
    lemma_put_get(table, key, (table.count(key) + count) as u64, other);
}

/// Counts are added up row by row.
pub proof fn lemma_added_up(times: Seq<HistogramModel>, more: HistogramModel, counts: Seq<u64>, count: u64)
    ensures
        all_counts(Seq::empty()) == 0,
        all_counts(times.push(more)) == all_counts(times) + more.count,
        all_sums(Seq::empty()) == 0,
        all_sums(counts.push(count)) == all_sums(counts) + count,
{
    assert(times.push(more).drop_last() =~= times);
    assert(counts.push(count).drop_last() =~= counts);
}

/// The model of a table has its keys and, beside each, the model of its value.
pub proof fn lemma_table_view<K, V: View>(table: Table<K, V>)
    ensures
        table@.keys == table.keys@,
        table@.values.len() == table.values@.len(),
        forall|i: int|
            0 <= i < table.values@.len() ==> table@.values[i] == (#[trigger] table.values@[i])@,
{
}

} // verus!
