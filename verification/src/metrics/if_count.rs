//! How many `if`s a corpus holds.

use vstd::prelude::*;
use crate::collector::{CollectError, FileAst, MetricCollector};
use crate::measure::{Sort, count_sort, tally};
use crate::registry::{Collector, MetricCollectorBox};
use crate::syntax::Node;
use crate::value::{MetricValue, Sample, SampleModel, Shape};
use crate::walk::{Prune, entering, visit};

verus! {

/// The number of `if`s of the tree under `file`; each `else if` is one more.
pub open spec fn ifs_in(file: Node) -> nat {
    count_sort(Sort::If, entering(file))
}

/// The number of `if`s of a file.
#[derive(Default, Debug, Clone, Copy, PartialEq, Eq)]
pub struct VisitorIfCount {
    pub ifcount: u64,
}

impl VisitorIfCount {
    /// Adds the `if`s of the tree under `file` to the count.
    pub fn visit_file(&mut self, file: &Node)
        requires
            old(self).ifcount + ifs_in(*file) <= u64::MAX,
        ensures
            final(self).ifcount == old(self).ifcount + ifs_in(*file),
    {
        let visits = visit(file, Prune::Nothing, false);
        let found = tally(Sort::If, &visits);
        self.ifcount = self.ifcount + found as u64;
    }
}

/// The number of `if`s of the tree under `file`.
pub fn count_ifs(file: &Node) -> (count: usize)
    ensures
        count == ifs_in(*file),
{
    let visits = visit(file, Prune::Nothing, false);
    tally(Sort::If, &visits)
}

/// The sum of `counts`.
pub open spec fn sum_of(counts: Seq<u64>) -> nat
    decreases counts.len(),
{
    if counts.len() == 0 {
        0
    } else {
        sum_of(counts.drop_last()) + counts.last() as nat
    }
}

proof fn lemma_sum_bound(counts: Seq<u64>)
    ensures
        sum_of(counts) <= counts.len() * u64::MAX,
    decreases counts.len(),
{
    if counts.len() > 0 {
        lemma_sum_bound(counts.drop_last());
        assert((counts.len() - 1) * u64::MAX + u64::MAX == counts.len() * u64::MAX)
            by (nonlinear_arith);
    }
}

/// The sum of the counts of the files of a corpus.
pub fn sum_counts(counts: &Vec<u64>) -> (total: u128)
    ensures
        total == sum_of(counts@),
{
    let mut total: u128 = 0;
    let mut i: usize = 0;
    while i < counts.len()
        invariant
            i <= counts@.len(),
            total == sum_of(counts@.take(i as int)),
        decreases counts@.len() - i,
    {
        proof {
            assert(counts@.take(i + 1).drop_last() =~= counts@.take(i as int));
            lemma_sum_bound(counts@.take(i as int));
            assert(i * u64::MAX + u64::MAX <= u64::MAX * u64::MAX + u64::MAX) by (nonlinear_arith)
                requires
                    i <= u64::MAX,
            ;
            assert(u64::MAX * u64::MAX + u64::MAX <= u128::MAX) by (nonlinear_arith);
        }
        total = total + counts[i] as u128;
        i += 1;
    }
    proof {
        assert(counts@.take(counts@.len() as int) =~= counts@);
    }
    total
}


/// The collector of the number of `if`s.
pub struct IfCountCollector;

impl MetricCollector for IfCountCollector {
    type Metric = u64;

    type AggregatedMetric = u128;

    open spec fn name_text(&self) -> Seq<char> {
        "if_count"@
    }

    open spec fn suits(&self, file: Node) -> bool {
        true
    }

    open spec fn reason(&self) -> CollectError {
        CollectError::TooLarge
    }

    open spec fn measures(&self, file: Node, metric: u64) -> bool {
        metric == ifs_in(file)
    }

    open spec fn combinable(&self, metrics: Seq<u64>) -> bool {
        true
    }

    open spec fn combines(&self, metrics: Seq<u64>, total: u128) -> bool {
        total == sum_of(metrics)
    }

    open spec fn shown(&self, total: u128) -> Shape {
        Shape::Leaf(SampleModel::Number(total as nat))
    }

    fn name(&self) -> (name: &'static str) {
        "if_count"
    }

    fn collect_file(&self, file: &FileAst) -> (metric: Result<u64, CollectError>) {
        Ok(count_ifs(&file.content) as u64)
    }

    fn aggregate_metrics(&self, metrics: Vec<u64>) -> (total: u128) {
        sum_counts(&metrics)
    }

    fn to_value(&self, total: &u128) -> (value: MetricValue<Sample>) {
        MetricValue::Leaf(Sample::Number(*total))
    }
}

/// The collector of the number of `if`s.
pub fn make_collector() -> (collector: MetricCollectorBox)
    ensures
        collector.0 is IfCount,
        collector.name_text() == "if_count"@,
{
    MetricCollectorBox(Collector::IfCount(IfCountCollector))
}

} // verus!
