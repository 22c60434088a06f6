//! The observer that buckets its observations.

use vstd::prelude::*;
use crate::monoid::{Monoid, WellFormed};
use crate::observer::{Observer, Sampler};
use crate::value::{MetricValue, Sample, SampleModel, Shape, add_entry, shapes_of};

verus! {

/// How often `value` occurs in `values`.
pub open spec fn occurrences(values: Seq<usize>, value: usize) -> nat
    decreases values.len(),
{
    if values.len() == 0 {
        0
    } else {
        occurrences(values.drop_last(), value) + if values.last() == value {
            1nat
        } else {
            0nat
        }
    }
}

/// The total of `values`.
pub open spec fn total_of(values: Seq<usize>) -> nat
    decreases values.len(),
{
    if values.len() == 0 {
        0
    } else {
        total_of(values.drop_last()) + values.last() as nat
    }
}

/// The values that no bucket below `buckets` takes, in their order.
pub open spec fn overflow_of(values: Seq<usize>, buckets: usize) -> Seq<usize>
    decreases values.len(),
{
    if values.len() == 0 {
        Seq::empty()
    } else if values.last() >= buckets {
        overflow_of(values.drop_last(), buckets).push(values.last())
    } else {
        overflow_of(values.drop_last(), buckets)
    }
}

/// Whether `value` is the mode of `values` as a histogram of `buckets`
/// buckets reports it: the lowest bucket among the fullest, provided that it
/// holds more than the overflow region does.
pub open spec fn is_mode(values: Seq<usize>, buckets: usize, value: usize) -> bool {
    &&& value < buckets
    &&& occurrences(values, value) > overflow_of(values, buckets).len()
    &&& forall|other: usize| other < buckets ==> occurrences(values, other) <= occurrences(values, value)
    &&& forall|other: usize| other < value ==> occurrences(values, other) < occurrences(values, value)
}

/// The mode of `values` as a histogram of `buckets` buckets reports it, if it
/// reports one.
pub open spec fn mode_of(values: Seq<usize>, buckets: usize) -> Option<usize> {
    if exists|value: usize| is_mode(values, buckets, value) {
        Some(choose|value: usize| is_mode(values, buckets, value))
    } else {
        None
    }
}

/// The mean of `values` as a quotient, if there is any value.
pub open spec fn mean_of(values: Seq<usize>) -> SampleModel {
    if values.len() > 0 {
        SampleModel::Ratio(total_of(values), values.len())
    } else {
        SampleModel::Null
    }
}

/// Whether `values` ascend.
pub open spec fn ascending(values: Seq<usize>) -> bool {
    forall|i: int, j: int| 0 <= i <= j < values.len() ==> values[i] <= values[j]
}

/// A quotient of two integers, kept exact.
#[derive(Clone, Copy, Debug, PartialEq, Eq)]
pub struct Ratio {
    pub num: u128,
    pub den: u64,
}

/// What a histogram reports of itself.
#[derive(Clone, Copy, Debug, PartialEq, Eq)]
pub struct HistSummary {
    /// The total of the observed values.
    pub sum: u128,
    /// Their mean, where there is any observation.
    pub avg: Option<Ratio>,
    /// The most frequent value, where the buckets can tell.
    pub mode: Option<usize>,
}

/// A histogram with one bucket for each of the values `0..N`, and a list of
/// the values that are `N` or more.
#[derive(Clone)]
pub struct Hist<const N: usize> {
    buckets: Vec<u64>,
    overflow: Vec<usize>,
    total: usize,
    sum: u128,
    history: Ghost<Seq<usize>>,
}

impl<const N: usize> View for Hist<N> {
    type V = Seq<usize>;

    /// Everything observed, oldest first.
    closed spec fn view(&self) -> Seq<usize> {
        self.history@
    }
}

impl<const N: usize> WellFormed for Hist<N> {
    closed spec fn wf(&self) -> bool {
        &&& self.buckets@.len() == N
        &&& forall|i: int|
            0 <= i < N ==> #[trigger] self.buckets@[i] == occurrences(self.history@, i as usize)
        &&& self.overflow@ == overflow_of(self.history@, N)
        &&& self.total == self.history@.len()
        &&& self.sum == total_of(self.history@)
    }
}

/// A value occurs in a run no more often than the run is long.
pub proof fn lemma_occurrences_bound(values: Seq<usize>, value: usize)
    ensures
        occurrences(values, value) <= values.len(),
    decreases values.len(),
{
    if values.len() > 0 {
        lemma_occurrences_bound(values.drop_last(), value);
    }
}

/// The total of a run is at most its length times the largest value.
pub proof fn lemma_total_bound(values: Seq<usize>)
    ensures
        total_of(values) <= values.len() * usize::MAX,
    decreases values.len(),
{
    if values.len() > 0 {
        lemma_total_bound(values.drop_last());
        assert((values.len() - 1) * usize::MAX + usize::MAX == values.len() * usize::MAX)
            by (nonlinear_arith);
    }
}

/// A value occurs in two runs, one after the other, as often as in both.
pub proof fn lemma_occurrences_concat(a: Seq<usize>, b: Seq<usize>, value: usize)
    ensures
        occurrences(a + b, value) == occurrences(a, value) + occurrences(b, value),
    decreases b.len(),
{
    if b.len() == 0 {
        assert(a + b =~= a);
    } else {
        lemma_occurrences_concat(a, b.drop_last(), value);
        assert((a + b).drop_last() =~= a + b.drop_last());
    }
}

/// The total of two runs, one after the other, is that of both.
pub proof fn lemma_total_concat(a: Seq<usize>, b: Seq<usize>)
    ensures
        total_of(a + b) == total_of(a) + total_of(b),
    decreases b.len(),
{
    if b.len() == 0 {
        assert(a + b =~= a);
    } else {
        lemma_total_concat(a, b.drop_last());
        assert((a + b).drop_last() =~= a + b.drop_last());
    }
}

/// What overflows of two runs, one after the other, is what overflows of
/// the first and then of the second.
pub proof fn lemma_overflow_concat(a: Seq<usize>, b: Seq<usize>, buckets: usize)
    ensures
        overflow_of(a + b, buckets) == overflow_of(a, buckets) + overflow_of(b, buckets),
    decreases b.len(),
{
    if b.len() == 0 {
        assert(a + b =~= a);
        assert(overflow_of(a, buckets) + overflow_of(b, buckets) =~= overflow_of(a, buckets));
    } else {
        lemma_overflow_concat(a, b.drop_last(), buckets);
        assert((a + b).drop_last() =~= a + b.drop_last());
        if b.last() >= buckets {
            assert(overflow_of(a, buckets) + overflow_of(b.drop_last(), buckets).push(b.last())
                =~= (overflow_of(a, buckets) + overflow_of(b.drop_last(), buckets)).push(b.last()));
        }
    }
}

/// `occurrences` counts as the multiset of the values does.
pub proof fn lemma_occurrences_multiset(values: Seq<usize>, value: usize)
    ensures
        occurrences(values, value) == values.to_multiset().count(value),
    decreases values.len(),
{
    broadcast use vstd::seq_lib::group_to_multiset_ensures;

    if values.len() == 0 {
        assert(values.to_multiset().len() == 0);
    } else {
        lemma_occurrences_multiset(values.drop_last(), value);
        assert(values.drop_last().push(values.last()) =~= values);
    }
}

/// How many of `values` are below `buckets`.
pub open spec fn bucketed(values: Seq<usize>, buckets: usize) -> nat
    decreases buckets,
{
    if buckets == 0 {
        0
    } else {
        bucketed(values, (buckets - 1) as usize) + occurrences(values, (buckets - 1) as usize)
    }
}

proof fn lemma_bucketed_push(values: Seq<usize>, value: usize, buckets: usize)
    ensures
        bucketed(values.push(value), buckets) == bucketed(values, buckets) + if value < buckets {
            1nat
        } else {
            0nat
        },
    decreases buckets,
{
    if buckets > 0 {
        lemma_bucketed_push(values, value, (buckets - 1) as usize);
        assert(values.push(value).drop_last() =~= values);
    }
}

/// Each value is in a bucket or in the overflow region.
pub proof fn lemma_overflow_len(values: Seq<usize>, buckets: usize)
    ensures
        overflow_of(values, buckets).len() + bucketed(values, buckets) == values.len(),
    decreases values.len(),
{
    if values.len() == 0 {
        lemma_bucketed_empty(values, buckets);
    } else {
        lemma_overflow_len(values.drop_last(), buckets);
        lemma_bucketed_push(values.drop_last(), values.last(), buckets);
        assert(values.drop_last().push(values.last()) =~= values);
    }
}

proof fn lemma_bucketed_empty(values: Seq<usize>, buckets: usize)
    requires
        values.len() == 0,
    ensures
        bucketed(values, buckets) == 0,
    decreases buckets,
{
    if buckets > 0 {
        lemma_bucketed_empty(values, (buckets - 1) as usize);
    }
}

proof fn lemma_bucketed_same(a: Seq<usize>, b: Seq<usize>, buckets: usize)
    requires
        forall|value: usize| occurrences(a, value) == occurrences(b, value),
    ensures
        bucketed(a, buckets) == bucketed(b, buckets),
    decreases buckets,
{
    if buckets > 0 {
        lemma_bucketed_same(a, b, (buckets - 1) as usize);
    }
}

/// The mode does not depend on the order of the observations: two runs that
/// hold the same values, each as often, have the same mode or both have none.
pub proof fn law_mode_ignores_order(a: Seq<usize>, b: Seq<usize>, buckets: usize, value: usize)
    requires
        a.to_multiset() == b.to_multiset(),
    ensures
        is_mode(a, buckets, value) <==> is_mode(b, buckets, value),
{
    broadcast use vstd::seq_lib::group_to_multiset_ensures;

    assert forall|v: usize| occurrences(a, v) == occurrences(b, v) by {
        lemma_occurrences_multiset(a, v);
        lemma_occurrences_multiset(b, v);
    }
    lemma_bucketed_same(a, b, buckets);
    lemma_overflow_len(a, buckets);
    lemma_overflow_len(b, buckets);
    a.to_multiset_ensures();
    b.to_multiset_ensures();
}

proof fn lemma_mode_found(values: Seq<usize>, buckets: usize, value: usize)
    requires
        is_mode(values, buckets, value),
    ensures
        mode_of(values, buckets) == Some(value),
{
    let chosen = choose|value: usize| is_mode(values, buckets, value);
    law_mode_unique(values, buckets, chosen, value);
}

/// Two runs that hold the same values, each as often, are reported alike:
/// they have the same length, the same total and the same mode, and each
/// value occurs as often in the one as in the other.
pub proof fn law_order_is_ignored(a: Seq<usize>, b: Seq<usize>, buckets: usize, value: usize)
    requires
        a.to_multiset() == b.to_multiset(),
    ensures
        a.len() == b.len(),
        total_of(a) == total_of(b),
        occurrences(a, value) == occurrences(b, value),
        mode_of(a, buckets) == mode_of(b, buckets),
    decreases a.len(),
{
    a.to_multiset_ensures();
    b.to_multiset_ensures();
    lemma_occurrences_multiset(a, value);
    lemma_occurrences_multiset(b, value);
    assert forall|v: usize| is_mode(a, buckets, v) <==> is_mode(b, buckets, v) by {
        law_mode_ignores_order(a, b, buckets, v);
    }
    if exists|v: usize| is_mode(a, buckets, v) {
        let chosen = choose|v: usize| is_mode(a, buckets, v);
        lemma_mode_found(a, buckets, chosen);
        lemma_mode_found(b, buckets, chosen);
    }
    lemma_total_multiset(a, b);
}

/// Two runs that hold the same values, each as often, have the same total.
proof fn lemma_total_multiset(a: Seq<usize>, b: Seq<usize>)
    requires
        a.to_multiset() == b.to_multiset(),
    ensures
        total_of(a) == total_of(b),
    decreases a.len(),
{
    a.to_multiset_ensures();
    b.to_multiset_ensures();
    if a.len() > 0 {
        let last = a.last();
        assert(a.to_multiset().count(last) > 0) by {
            assert(a.contains(last)) by {
                assert(a[a.len() - 1] == last);
            }
        }
        assert(b.contains(last));
        let at = choose|at: int| 0 <= at < b.len() && b[at] == last;
        let rest = b.remove(at);
        assert(a.drop_last() =~= a.remove(a.len() - 1));
        assert(a.drop_last().to_multiset() =~= rest.to_multiset());
        lemma_total_multiset(a.drop_last(), rest);
        lemma_total_remove(b, at);
    }
}

/// The total of a run is that of the run without one of its values, and
/// that value.
proof fn lemma_total_remove(values: Seq<usize>, at: int)
    requires
        0 <= at < values.len(),
    ensures
        total_of(values) == total_of(values.remove(at)) + values[at],
    decreases values.len(),
{
    if at == values.len() - 1 {
        assert(values.remove(at) =~= values.drop_last());
    } else {
        assert(values.remove(at).drop_last() =~= values.drop_last().remove(at));
        assert(values.remove(at).last() == values.last());
        lemma_total_remove(values.drop_last(), at);
    }
}

/// A run has at most one mode: among equally full buckets the lowest wins.
pub proof fn law_mode_unique(values: Seq<usize>, buckets: usize, first: usize, second: usize)
    requires
        is_mode(values, buckets, first),
        is_mode(values, buckets, second),
    ensures
        first == second,
{
}

/// The statistics of a run of observations: its length, its total, and what
/// each bucket and the overflow region hold, split over two parts of the run.
pub proof fn law_statistics_split(a: Seq<usize>, b: Seq<usize>, buckets: usize, value: usize)
    ensures
        (a + b).len() == a.len() + b.len(),
        total_of(a + b) == total_of(a) + total_of(b),
        occurrences(a + b, value) == occurrences(a, value) + occurrences(b, value),
        overflow_of(a + b, buckets) == overflow_of(a, buckets) + overflow_of(b, buckets),
{
    lemma_total_concat(a, b);
    lemma_occurrences_concat(a, b, value);
    lemma_overflow_concat(a, b, buckets);
}

impl<const N: usize> Hist<N> {
    /// A histogram without observations.
    pub fn new() -> (hist: Self)
        ensures
            hist.wf(),
            hist@ == Seq::<usize>::empty(),
    {
        let mut buckets: Vec<u64> = Vec::new();
        let mut i: usize = 0;
        while i < N
            invariant
                i <= N,
                buckets@.len() == i,
                forall|j: int| 0 <= j < i ==> buckets@[j] == 0,
            decreases N - i,
        {
            buckets.push(0);
            i += 1;
        }
        Hist { buckets, overflow: Vec::new(), total: 0, sum: 0, history: Ghost(Seq::empty()) }
    }

    /// The number of observations.
    pub fn count(&self) -> (n: u64)
        requires
            self.wf(),
        ensures
            n == self@.len(),
    {
        self.total as u64
    }

    /// The total of the observed values.
    pub fn sum(&self) -> (total: u128)
        requires
            self.wf(),
        ensures
            total == total_of(self@),
    {
        self.sum
    }

    /// The mean of the observed values, as an exact quotient; `None` where
    /// nothing was observed.
    pub fn average(&self) -> (mean: Option<Ratio>)
        requires
            self.wf(),
        ensures
            mean is Some <==> self@.len() > 0,
            mean is Some ==> mean->0.num == total_of(self@) && mean->0.den == self@.len(),
    {
        if self.total == 0 {
            None
        } else {
            Some(Ratio { num: self.sum, den: self.total as u64 })
        }
    }

    /// The most frequent value: the lowest bucket among the fullest. `None`
    /// where the overflow region holds as many values as that bucket or
    /// more, since the mode may then lie there; so also where nothing was
    /// observed.
    pub fn mode(&self) -> (mode: Option<usize>)
        requires
            self.wf(),
        ensures
            match mode {
                Some(value) => is_mode(self@, N, value),
                None => forall|value: usize| !#[trigger] is_mode(self@, N, value),
            },
            mode == mode_of(self@, N),
    {
        let mut best: usize = 0;
        let mut best_count: u64 = 0;
        let mut i: usize = 0;
        while i < N
            invariant
                self.wf(),
                i <= N,
                best < N || i == 0,
                i == 0 ==> best_count == 0,
                i > 0 ==> best < i && best_count == occurrences(self@, best),
                forall|other: usize| other < i ==> occurrences(self@, other) <= best_count,
                forall|other: usize| other < best ==> occurrences(self@, other) < best_count,
                i > 0 && best_count == 0 ==> best == 0,
            decreases N - i,
        {
            let here = self.buckets[i];
            if here > best_count {
                best = i;
                best_count = here;
            } else if i == 0 {
                best = 0;
                best_count = here;
            }
            i += 1;
        }
        let over = self.overflow.len();
        if N > 0 && best_count > over as u64 {
            proof {
                lemma_mode_found(self@, N, best);
            }
            Some(best)
        } else {
            proof {
                assert forall|value: usize| !#[trigger] is_mode(self@, N, value) by {
                    if is_mode(self@, N, value) {
                        assert(occurrences(self@, value) <= best_count);
                    }
                }
            }
            None
        }
    }

    /// Records one observation.
    pub fn observe(&mut self, val: usize)
        requires
            old(self).wf(),
            old(self)@.len() < usize::MAX,
        ensures
            final(self).wf(),
            final(self)@ == old(self)@.push(val),
    {
        let ghost before = self.history@;
        let ghost after = before.push(val);
        proof {
            assert(after.drop_last() =~= before);
            lemma_total_bound(before);
            assert(before.len() * usize::MAX + usize::MAX <= usize::MAX * usize::MAX)
                by (nonlinear_arith)
                requires
                    before.len() < usize::MAX,
            ;
            assert(usize::MAX * usize::MAX <= u128::MAX) by (nonlinear_arith)
                requires
                    usize::MAX <= u64::MAX,
            ;
        }
        if val < N {
            let here = self.buckets[val];
            proof {
                lemma_occurrences_bound(before, val);
            }
            self.buckets.set(val, here + 1);
        } else {
            self.overflow.push(val);
        }
        self.total = self.total + 1;
        self.sum = self.sum + val as u128;
        self.history = Ghost(after);
    }

    /// The summary of this histogram.
    pub fn describe(&self) -> (summary: HistSummary)
        requires
            self.wf(),
        ensures
            summary.sum == total_of(self@),
            summary.avg is Some <==> self@.len() > 0,
            summary.avg is Some ==> summary.avg->0.num == total_of(self@) && summary.avg->0.den
                == self@.len(),
            match summary.mode {
                Some(value) => is_mode(self@, N, value),
                None => forall|value: usize| !#[trigger] is_mode(self@, N, value),
            },
            summary.mode == mode_of(self@, N),
    {
        HistSummary { sum: self.sum(), avg: self.average(), mode: self.mode() }
    }
}

impl<const N: usize> Default for Hist<N> {
    fn default() -> (hist: Self)
        ensures
            hist.wf(),
            hist@ == Seq::<usize>::empty(),
    {
        Hist::new()
    }
}

impl<const N: usize> Observer for Hist<N> {
    open spec fn observations(&self) -> Seq<usize> {
        self@
    }

    open spec fn room(count: nat) -> bool {
        count < usize::MAX
    }

    fn observe(&mut self, value: usize) {
        Hist::observe(self, value);
    }

    fn count(&self) -> (n: usize) {
        self.total
    }
}

impl<const N: usize> Monoid for Hist<N> {
    type Model = Seq<usize>;

    open spec fn model(&self) -> Seq<usize> {
        self@
    }

    open spec fn init_model() -> Seq<usize> {
        Seq::empty()
    }

    open spec fn unite_model(a: Seq<usize>, b: Seq<usize>) -> Seq<usize> {
        a + b
    }

    open spec fn fits(a: Seq<usize>, b: Seq<usize>) -> bool {
        a.len() + b.len() <= usize::MAX
    }

    open spec fn alike(a: Seq<usize>, b: Seq<usize>) -> bool {
        a.to_multiset() == b.to_multiset()
    }

    fn init() -> (id: Self) {
        Hist::new()
    }

    fn unite(self, rhs: Self) -> (both: Self) {
        let ghost left = self.history@;
        let ghost right = rhs.history@;
        let ghost joined = left + right;
        let mut buckets = self.buckets;
        let mut i: usize = 0;
        proof {
            lemma_total_concat(left, right);
            lemma_overflow_concat(left, right, N);
            lemma_total_bound(joined);
            assert(joined.len() * usize::MAX <= usize::MAX * usize::MAX) by (nonlinear_arith)
                requires
                    joined.len() <= usize::MAX,
            ;
            assert(usize::MAX * usize::MAX <= u128::MAX) by (nonlinear_arith)
                requires
                    usize::MAX <= u64::MAX,
            ;
        }
        while i < N
            invariant
                i <= N,
                buckets@.len() == N,
                rhs.wf(),
                right == rhs.history@,
                joined == left + right,
                joined.len() <= usize::MAX,
                forall|j: int| 0 <= j < i ==> #[trigger] buckets@[j] == occurrences(joined, j as usize),
                forall|j: int| i <= j < N ==> #[trigger] buckets@[j] == occurrences(left, j as usize),
            decreases N - i,
        {
            proof {
                lemma_occurrences_concat(left, right, i);
                lemma_occurrences_bound(joined, i);
            }
            let sum = buckets[i] + rhs.buckets[i];
            buckets.set(i, sum);
            i += 1;
        }
        let mut overflow = self.overflow;
        let mut rest = rhs.overflow;
        overflow.append(&mut rest);
        Hist {
            buckets,
            overflow,
            total: self.total + rhs.total,
            sum: self.sum + rhs.sum,
            history: Ghost(joined),
        }
    }

    proof fn law_identity(a: Seq<usize>) {
        assert(Seq::<usize>::empty() + a =~= a);
        assert(a + Seq::<usize>::empty() =~= a);
    }

    proof fn law_associative(a: Seq<usize>, b: Seq<usize>, c: Seq<usize>) {
        assert((a + b) + c =~= a + (b + c));
    }

    proof fn law_commutative(a: Seq<usize>, b: Seq<usize>) {
        vstd::seq_lib::lemma_seq_union_to_multiset_commutative(a, b);
    }
}

impl<const N: usize> Sampler for Hist<N> {
    /// The summary: the total, the mean and the mode.
    open spec fn shown(samples: Seq<usize>) -> Shape {
        Shape::Object(
            seq![
                ("sum"@, Shape::Leaf(SampleModel::Number(total_of(samples)))),
                ("avg"@, Shape::Leaf(mean_of(samples))),
                (
                    "mode"@,
                    Shape::Leaf(
                        match mode_of(samples, N) {
                            Some(value) => SampleModel::Number(value as nat),
                            None => SampleModel::Null,
                        },
                    ),
                ),
            ],
        )
    }

    proof fn law_model(&self) {
    }

    proof fn law_concat(a: Seq<usize>, b: Seq<usize>) {
    }

    proof fn law_room(count: nat) {
    }

    fn to_value(&self) -> (value: MetricValue<Sample>) {
        let summary = self.describe();
        let mut entries: Vec<(String, MetricValue<Sample>)> = Vec::new();
        add_entry(&mut entries, "sum", MetricValue::Leaf(Sample::Number(summary.sum)));
        let avg = match summary.avg {
            Some(mean) => Sample::Ratio(mean.num, mean.den),
            None => Sample::Null,
        };
        add_entry(&mut entries, "avg", MetricValue::Leaf(avg));
        let mode = match summary.mode {
            Some(value) => Sample::Number(value as u128),
            None => Sample::Null,
        };
        add_entry(&mut entries, "mode", MetricValue::Leaf(mode));
        proof {
            assert(shapes_of(entries@) =~= Self::shown(self@)->Object_0);
        }
        MetricValue::Object(entries)
    }
}

/// A value occurs in a run where it stands in it.
proof fn lemma_occurs(values: Seq<usize>, at: int)
    requires
        0 <= at < values.len(),
    ensures
        occurrences(values, values[at]) > 0,
    decreases values.len(),
{
    if at < values.len() - 1 {
        lemma_occurs(values.drop_last(), at);
    }
}

/// What overflows holds each value that no bucket takes as often as the
/// run holds it, and no other value.
proof fn lemma_overflow_occurrences(values: Seq<usize>, buckets: usize, value: usize)
    ensures
        occurrences(overflow_of(values, buckets), value) == if value >= buckets {
            occurrences(values, value)
        } else {
            0
        },
    decreases values.len(),
{
    if values.len() > 0 {
        lemma_overflow_occurrences(values.drop_last(), buckets, value);
        if values.last() >= buckets {
            assert(overflow_of(values, buckets).drop_last() =~= overflow_of(
                values.drop_last(),
                buckets,
            ));
        }
    }
}

/// A value put into a run occurs once more; every other value as before.
proof fn lemma_occurrences_insert(values: Seq<usize>, at: int, new: usize, value: usize)
    requires
        0 <= at <= values.len(),
    ensures
        occurrences(values.insert(at, new), value) == occurrences(values, value) + if new == value {
            1nat
        } else {
            0nat
        },
    decreases values.len(),
{
    if at == values.len() {
        assert(values.insert(at, new) =~= values.push(new));
        assert(values.push(new).drop_last() =~= values);
    } else {
        assert(values.insert(at, new).drop_last() =~= values.drop_last().insert(at, new));
        assert(values.insert(at, new).last() == values.last());
        lemma_occurrences_insert(values.drop_last(), at, new, value);
    }
}

/// The values `values` in ascending order.
pub fn sorted(values: &Vec<usize>) -> (out: Vec<usize>)
    ensures
        ascending(out@),
        out@.len() == values@.len(),
        forall|value: usize| occurrences(out@, value) == occurrences(values@, value),
{
    let mut out: Vec<usize> = Vec::new();
    let mut i: usize = 0;
    while i < values.len()
        invariant
            i <= values@.len(),
            ascending(out@),
            out@.len() == i,
            forall|value: usize|
                occurrences(out@, value) == occurrences(values@.take(i as int), value),
        decreases values@.len() - i,
    {
        let new = values[i];
        let mut at: usize = 0;
        while at < out.len() && out[at] <= new
            invariant
                at <= out@.len(),
                forall|k: int| 0 <= k < at ==> out@[k] <= new,
            decreases out@.len() - at,
        {
            at += 1;
        }
        proof {
            let before = out@;
            let after = before.insert(at as int, new);
            assert forall|a: int, b: int| 0 <= a <= b < after.len() implies after[a]
                <= after[b] by {
                if a < at && b > at {
                    assert(before[a] <= new);
                    assert(after[b] == before[b - 1]);
                    assert(before[at as int] <= before[b - 1]);
                }
            }
            assert(values@.take(i + 1).drop_last() =~= values@.take(i as int));
            assert forall|value: usize|
                occurrences(after, value) == occurrences(values@.take(i + 1), value) by {
                lemma_occurrences_insert(before, at as int, new, value);
            }
        }
        out.insert(at, new);
        i += 1;
    }
    proof {
        assert(values@.take(values@.len() as int) =~= values@);
    }
    out
}

impl<const N: usize> Hist<N> {
    /// The observed values in ascending order, each as often as it was
    /// observed.
    pub fn into_values(self) -> (out: Vec<usize>)
        requires
            self.wf(),
        ensures
            ascending(out@),
            forall|value: usize| occurrences(out@, value) == occurrences(self@, value),
    {
        let ghost history = self.history@;
        let mut out: Vec<usize> = Vec::new();
        let mut i: usize = 0;
        while i < N
            invariant
                i <= N,
                self.wf(),
                history == self.history@,
                ascending(out@),
                forall|k: int| 0 <= k < out@.len() ==> out@[k] < i,
                forall|value: usize|
                    occurrences(out@, value) == if value < i {
                        occurrences(history, value)
                    } else {
                        0
                    },
            decreases N - i,
        {
            let count = self.buckets[i];
            let mut j: u64 = 0;
            while j < count
                invariant
                    j <= count,
                    i < N,
                    count == occurrences(history, i),
                    ascending(out@),
                    forall|k: int| 0 <= k < out@.len() ==> out@[k] <= i,
                    forall|value: usize|
                        occurrences(out@, value) == if value < i {
                            occurrences(history, value)
                        } else if value == i {
                            j as nat
                        } else {
                            0
                        },
                decreases count - j,
            {
                let ghost before = out@;
                out.push(i);
                proof {
                    assert(out@.drop_last() =~= before);
                    assert forall|value: usize|
                        occurrences(out@, value) == occurrences(before, value) + if value == i {
                            1nat
                        } else {
                            0nat
                        } by {}
                }
                j += 1;
            }
            i += 1;
        }
        let mut rest = sorted(&self.overflow);
        proof {
            let low = out@;
            let high = rest@;
            assert forall|k: int| 0 <= k < high.len() implies high[k] >= N by {
                lemma_occurs(high, k);
                lemma_overflow_occurrences(history, N, high[k]);
            }
            assert(ascending(low + high));
            assert forall|value: usize|
                occurrences(low + high, value) == occurrences(history, value) by {
                lemma_occurrences_concat(low, high, value);
                lemma_overflow_occurrences(history, N, value);
            }
        }
        out.append(&mut rest);
        out
    }
}

} // verus!
