//! Collectors: each binds one metric family to the files of a corpus, takes
//! the metric of each file by itself, and combines the metrics of all files
//! into the value that is reported under the collector's name.

use std::marker::PhantomData;
use vstd::prelude::*;
use crate::monoid::{Monoid, all_wf, models_of, reduce, reduce_model, reducible};
use crate::syntax::Node;
use crate::value::{MetricValue, Sample, Shape, shape_of};

verus! {

/// A file of a corpus: its path, relative to the root of the corpus, and
/// its content.
#[derive(Debug)]
pub struct File<T> {
    pub path: String,
    pub content: T,
}

/// A file as text.
pub type FileText = File<String>;

/// A file as a syntax tree.
pub type FileAst = File<Node>;

/// A metric family: the metric of a file, which combines with those of
/// other files, and can be reported.
pub trait Family: Monoid {
    /// Whether the tree under `file` can be measured: it is well formed,
    /// and its metric is small enough to be held.
    spec fn suits(file: Node) -> bool;

    /// Why a tree does not suit, where one does not.
    spec fn reason() -> CollectError;

    /// What the metric of the tree under `file` stands for.
    spec fn measured(file: Node) -> Self::Model;

    /// What a metric that stands for `model` is reported as.
    spec fn shown(model: Self::Model) -> Shape;

    /// The metric of the tree under `file`; the error of the family where
    /// the tree does not suit.
    fn collect(file: &Node) -> (metric: Result<Self, CollectError>)
        ensures
            metric is Ok <==> Self::suits(*file),
            metric is Ok ==> metric->Ok_0.wf() && metric->Ok_0.model() == Self::measured(*file),
            metric is Err ==> metric->Err_0 == Self::reason(),
    ;

    /// The value that this metric is reported as.
    fn to_value(&self) -> (value: MetricValue<Sample>)
        requires
            self.wf(),
        ensures
            shape_of(value) == Self::shown(self.model()),
    ;
}

/// The contents of `files`.
pub open spec fn contents(files: Seq<FileAst>) -> Seq<Node> {
    Seq::new(files.len(), |i: int| files[i].content)
}

/// A collector.
pub trait MetricCollector: Sized {
    /// The metric of one file.
    type Metric;

    /// The metric of a corpus.
    type AggregatedMetric;

    /// The name under which the metric is reported.
    spec fn name_text(&self) -> Seq<char>;

    /// Whether the tree under `file` can be measured: it is well formed,
    /// and its metric is small enough to be held.
    spec fn suits(&self, file: Node) -> bool;

    /// Why a tree does not suit, where one does not.
    spec fn reason(&self) -> CollectError;

    /// Whether `metric` is the metric of the tree under `file`.
    spec fn measures(&self, file: Node, metric: Self::Metric) -> bool;

    /// Whether `metrics` are small enough to be combined.
    spec fn combinable(&self, metrics: Seq<Self::Metric>) -> bool;

    /// Whether `total` is what `metrics` combine to.
    spec fn combines(&self, metrics: Seq<Self::Metric>, total: Self::AggregatedMetric) -> bool;

    /// What the metric `total` of a corpus is reported as.
    spec fn shown(&self, total: Self::AggregatedMetric) -> Shape;

    /// The name under which the metric is reported.
    fn name(&self) -> (name: &'static str)
        ensures
            name@ == self.name_text(),
    ;

    /// The metric of `file`; the error of the collector where the file does
    /// not suit.
    fn collect_file(&self, file: &FileAst) -> (metric: Result<Self::Metric, CollectError>)
        ensures
            metric is Ok <==> self.suits(file.content),
            metric is Ok ==> self.measures(file.content, metric->Ok_0),
            metric is Err ==> metric->Err_0 == self.reason(),
    ;

    /// The metric of a corpus, from the metrics of its files.
    fn aggregate_metrics(&self, metrics: Vec<Self::Metric>) -> (total: Self::AggregatedMetric)
        requires
            self.combinable(metrics@),
        ensures
            self.combines(metrics@, total),
    ;

    /// The value that the metric of a corpus is reported as.
    fn to_value(&self, total: &Self::AggregatedMetric) -> (value: MetricValue<Sample>)
        requires
            exists|metrics: Seq<Self::Metric>| self.combines(metrics, *total),
        ensures
            shape_of(value) == self.shown(*total),
    ;
}

/// A collector that takes the metric of a file as the family `V` has it,
/// and combines the metrics of the files as the family combines.
pub struct VisitorCollector<V: Family> {
    name: &'static str,
    phantom: PhantomData<V>,
}

impl<V: Family> VisitorCollector<V> {
    /// The collector of the family `V` that reports under `name`.
    pub fn new(name: &'static str) -> (collector: Self)
        ensures
            collector.name_text() == name@,
    {
        VisitorCollector { name, phantom: PhantomData }
    }
}

impl<V: Family> MetricCollector for VisitorCollector<V> {
    type Metric = V;

    type AggregatedMetric = V;

    closed spec fn name_text(&self) -> Seq<char> {
        self.name@
    }

    open spec fn suits(&self, file: Node) -> bool {
        V::suits(file)
    }

    open spec fn reason(&self) -> CollectError {
        V::reason()
    }

    open spec fn measures(&self, file: Node, metric: V) -> bool {
        metric.wf() && metric.model() == V::measured(file)
    }

    open spec fn combinable(&self, metrics: Seq<V>) -> bool {
        all_wf(metrics) && reducible::<V>(models_of(metrics))
    }

    open spec fn combines(&self, metrics: Seq<V>, total: V) -> bool {
        total.wf() && total.model() == reduce_model::<V>(models_of(metrics))
    }

    open spec fn shown(&self, total: V) -> Shape {
        V::shown(total.model())
    }

    fn name(&self) -> (name: &'static str) {
        self.name
    }

    fn collect_file(&self, file: &FileAst) -> (metric: Result<V, CollectError>) {
        V::collect(&file.content)
    }

    fn aggregate_metrics(&self, metrics: Vec<V>) -> (total: V) {
        reduce(metrics)
    }

    fn to_value(&self, total: &V) -> (value: MetricValue<Sample>) {
        total.to_value()
    }
}

/// Why the metrics of a corpus could not be collected.
#[derive(Debug, Clone, Copy, PartialEq, Eq, Structural)]
pub enum CollectError {
    /// The metric of a file is too large to be held.
    TooLarge,
    /// A file is not well formed: a function in it has no body.
    Malformed,
}

/// Whether `metrics` are the metrics of the trees `files`, file by file.
pub open spec fn measure_all<C: MetricCollector>(
    collector: &C,
    files: Seq<Node>,
    metrics: Seq<C::Metric>,
) -> bool {
    &&& metrics.len() == files.len()
    &&& forall|i: int| 0 <= i < files.len() ==> collector.measures(files[i], #[trigger] metrics[i])
}

/// Whether each of the trees `files` suits `collector`.
pub open spec fn all_suit<C: MetricCollector>(collector: &C, files: Seq<Node>) -> bool {
    forall|i: int| 0 <= i < files.len() ==> collector.suits(#[trigger] files[i])
}

/// Whether the metrics of the trees `files` can be combined, whatever they
/// are.
pub open spec fn aggregable<C: MetricCollector>(collector: &C, files: Seq<Node>) -> bool {
    forall|metrics: Seq<C::Metric>| #[trigger]
        measure_all(collector, files, metrics) ==> collector.combinable(metrics)
}

/// Whether `value` is what `collector` reports of the trees `files`.
pub open spec fn reports<C: MetricCollector>(
    collector: &C,
    files: Seq<Node>,
    value: MetricValue<Sample>,
) -> bool {
    exists|metrics: Seq<C::Metric>, total: C::AggregatedMetric|
        {
            &&& #[trigger] measure_all(collector, files, metrics)
            &&& #[trigger] collector.combines(metrics, total)
            &&& shape_of(value) == collector.shown(total)
        }
}

/// The metrics of `files`, file by file; the error of the collector where
/// a file does not suit it.
pub fn collect_files<C: MetricCollector>(collector: &C, files: &Vec<FileAst>) -> (metrics: Result<
    Vec<C::Metric>,
    CollectError,
>)
    ensures
        metrics is Ok <==> all_suit(collector, contents(files@)),
        metrics is Ok ==> measure_all(collector, contents(files@), metrics->Ok_0@),
        metrics is Err ==> metrics->Err_0 == collector.reason(),
{
    let mut metrics: Vec<C::Metric> = Vec::new();
    let ghost trees = contents(files@);
    let mut i: usize = 0;
    while i < files.len()
        invariant
            i <= files@.len(),
            trees == contents(files@),
            metrics@.len() == i,
            forall|k: int| 0 <= k < i ==> collector.suits(#[trigger] trees[k]),
            forall|k: int| 0 <= k < i ==> collector.measures(trees[k], #[trigger] metrics@[k]),
        decreases files@.len() - i,
    {
        match collector.collect_file(&files[i]) {
            Ok(metric) => {
                metrics.push(metric);
            },
            Err(error) => {
                proof {
                    assert(!collector.suits(trees[i as int]));
                }
                return Err(error);
            },
        }
        i += 1;
    }
    Ok(metrics)
}

/// What `collector` reports of `files`: the metric of each file, taken by
/// itself, and these combined. The error of the collector where a file does
/// not suit it.
pub fn collect_metric<C: MetricCollector>(collector: &C, files: &Vec<FileAst>) -> (value: Result<
    MetricValue<Sample>,
    CollectError,
>)
    requires
        aggregable(collector, contents(files@)),
    ensures
        value is Ok <==> all_suit(collector, contents(files@)),
        value is Ok ==> reports(collector, contents(files@), value->Ok_0),
        value is Err ==> value->Err_0 == collector.reason(),
{
    match collect_files(collector, files) {
        Ok(metrics) => {
            let ghost held = metrics@;
            let total = collector.aggregate_metrics(metrics);
            let value = collector.to_value(&total);
            proof {
                assert(measure_all(collector, contents(files@), held));
                assert(collector.combines(held, total));
            }
            Ok(value)
        },
        Err(error) => Err(error),
    }
}

} // verus!
