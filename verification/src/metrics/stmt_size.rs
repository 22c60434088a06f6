//! How large statements are: how many expressions each holds.

use vstd::prelude::*;
use crate::collector::{CollectError, Family, VisitorCollector};
use crate::measure::{Sort, count_sort, tally};
use crate::monoid::{Monoid, WellFormed};
use crate::observer::{Observer, Sampler, Unaggregated, grown, observe_all, ready, sampled};
use crate::registry::{Collector, MetricCollectorBox};
use crate::syntax::{Kind, Node};
use crate::value::{MetricValue, Sample, Shape};
use crate::walk::{
    Prune, Visited, leaving, lemma_backwards_is_leaving, visit, visit_under, visited, walk_under,
};

verus! {

/// The number of expressions of the statement `stmt`: those under it, those
/// left out that belong to a statement inside it.
pub open spec fn size_of(stmt: Node) -> usize {
    count_sort(Sort::Expr, walk_under(stmt, Prune::Statements, false)) as usize
}

/// The sizes of the statements of a walk, in its order.
pub open spec fn sizes(visits: Seq<Visited>) -> Seq<usize>
    decreases visits.len(),
{
    if visits.len() == 0 {
        Seq::empty()
    } else if visits.last().node.kind is Stmt {
        sizes(visits.drop_last()).push(size_of(visits.last().node))
    } else {
        sizes(visits.drop_last())
    }
}

/// The sizes of the statements of the tree under `file`, each where a reader
/// leaves it: a statement inside another comes before it.
pub open spec fn statement_sizes(file: Node) -> Seq<usize> {
    sizes(leaving(file))
}

/// The number of expressions of the statement `stmt`.
pub fn statement_size(stmt: &Node) -> (size: usize)
    ensures
        size == size_of(*stmt),
{
    let visits = visit_under(stmt, Prune::Statements, false);
    tally(Sort::Expr, &visits)
}

/// The sizes of the statements of the tree under `file`, each where a reader
/// leaves it.
pub fn sizes_in(file: &Node) -> (found: Vec<usize>)
    ensures
        found@ == statement_sizes(*file),
{
    let visits = visit(file, Prune::Nothing, true);
    let ghost order = visited(visits@).reverse();
    proof {
        lemma_backwards_is_leaving(*file, 0);
    }
    let n = visits.len();
    let mut found: Vec<usize> = Vec::new();
    let mut i: usize = 0;
    while i < n
        invariant
            i <= n,
            n == visits@.len(),
            order == visited(visits@).reverse(),
            order == leaving(*file),
            found@ == sizes(order.take(i as int)),
        decreases n - i,
    {
        let node = visits[n - 1 - i].node;
        proof {
            assert(order.take(i + 1).drop_last() =~= order.take(i as int));
            assert(order.take(i + 1).last().node == *node);
        }
        if let Kind::Stmt(_) = &node.kind {
            found.push(statement_size(node));
        }
        i += 1;
    }
    proof {
        assert(order.take(n as int) =~= order);
    }
    found
}

/// The sizes of the statements of a corpus.
pub struct StatementSize<Obs = Unaggregated> {
    /// The number of expressions of each statement.
    pub hist: Obs,
}

impl<Obs: WellFormed> WellFormed for StatementSize<Obs> {
    open spec fn wf(&self) -> bool {
        self.hist.wf()
    }
}

impl<Obs: Observer> StatementSize<Obs> {
    /// Records the sizes of the statements of the tree under `file`.
    pub fn visit_file(&mut self, file: &Node)
        requires
            old(self).wf(),
            ready(&old(self).hist, statement_sizes(*file)),
        ensures
            final(self).wf(),
            grown(&old(self).hist, &final(self).hist, statement_sizes(*file)),
    {
        let found = sizes_in(file);
        observe_all(&mut self.hist, &found);
    }
}

impl<T: Monoid> Monoid for StatementSize<T> {
    type Model = (T::Model,);

    open spec fn model(&self) -> Self::Model {
        (self.hist.model(),)
    }

    open spec fn init_model() -> Self::Model {
        (T::init_model(),)
    }

    open spec fn unite_model(a: Self::Model, b: Self::Model) -> Self::Model {
        (T::unite_model(a.0, b.0),)
    }

    open spec fn fits(a: Self::Model, b: Self::Model) -> bool {
        &&& T::fits(a.0, b.0)
    }

    open spec fn alike(a: Self::Model, b: Self::Model) -> bool {
        &&& T::alike(a.0, b.0)
    }

    fn init() -> (id: Self) {
        StatementSize { hist: T::init() }
    }

    fn unite(self, rhs: Self) -> (both: Self) {
        StatementSize { hist: self.hist.unite(rhs.hist) }
    }

    proof fn law_identity(a: Self::Model) {
        T::law_identity(a.0);
    }

    proof fn law_associative(a: Self::Model, b: Self::Model, c: Self::Model) {
        T::law_associative(a.0, b.0, c.0);
    }

    proof fn law_commutative(a: Self::Model, b: Self::Model) {
        T::law_commutative(a.0, b.0);
    }
}

impl<Obs: Sampler> Family for StatementSize<Obs> {
    open spec fn reason() -> CollectError {
        CollectError::TooLarge
    }

    open spec fn suits(file: Node) -> bool {
        true
    }

    open spec fn measured(file: Node) -> Self::Model {
        (statement_sizes(file),)
    }

    open spec fn shown(model: Self::Model) -> Shape {
        Obs::shown(model.0)
    }

    fn collect(file: &Node) -> (metric: Result<Self, CollectError>) {
        Ok(StatementSize { hist: sampled(&sizes_in(file)) })
    }

    fn to_value(&self) -> (value: MetricValue<Sample>) {
        proof {
            self.hist.law_model();
        }
        self.hist.to_value()
    }
}

/// The collector of the size of statements.
pub fn make_collector() -> (collector: MetricCollectorBox)
    ensures
        collector.0 is StatementSize,
        collector.name_text() == "statement_size"@,
{
    MetricCollectorBox(Collector::StatementSize(VisitorCollector::new("statement_size")))
}

} // verus!
