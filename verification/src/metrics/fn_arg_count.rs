//! How many arguments a function takes by mutable reference.

use vstd::prelude::*;
use crate::collector::{CollectError, Family, VisitorCollector};
use crate::measure::{Measure, gather, measure};
use crate::monoid::{Monoid, WellFormed};
use crate::observer::{Observer, Sampler, Unaggregated, grown, observe_all, ready, sampled};
use crate::registry::{Collector, MetricCollectorBox};
use crate::syntax::Node;
use crate::value::{MetricValue, Sample, Shape, add_entry, shapes_of};
use crate::walk::{Prune, entering, visit};

verus! {

/// The mutable arguments of the functions and closures of a corpus.
pub struct FnArgsCount<Obs = Unaggregated> {
    /// The number of arguments that each function or closure takes by mutable reference.
    pub mutable: Obs,
}

impl<Obs: WellFormed> WellFormed for FnArgsCount<Obs> {
    open spec fn wf(&self) -> bool {
        &&& self.mutable.wf()
    }
}

impl<Obs: Observer> FnArgsCount<Obs> {
    /// Records what the tree under `file` holds, in the order in which a
    /// reader meets it.
    pub fn visit_file(&mut self, file: &Node)
        requires
            old(self).wf(),
            ready(&old(self).mutable, gather(Measure::MutableParams, entering(*file))),
        ensures
            final(self).wf(),
            grown(
                &old(self).mutable,
                &final(self).mutable,
                gather(Measure::MutableParams, entering(*file)),
            ),
    {
        let visits = visit(file, Prune::Nothing, false);
        let values = measure(Measure::MutableParams, &visits);
        observe_all(&mut self.mutable, &values);
    }
}

impl<T: Monoid> Monoid for FnArgsCount<T> {
    type Model = (T::Model,);

    open spec fn model(&self) -> Self::Model {
        (self.mutable.model(),)
    }

    open spec fn init_model() -> Self::Model {
        (T::init_model(),)
    }

    open spec fn unite_model(a: Self::Model, b: Self::Model) -> Self::Model {
        (T::unite_model(a.0, b.0),)
    }

    open spec fn fits(a: Self::Model, b: Self::Model) -> bool {
        &&& T::fits(a.0, b.0)
    }

    open spec fn alike(a: Self::Model, b: Self::Model) -> bool {
        &&& T::alike(a.0, b.0)
    }

    fn init() -> (id: Self) {
        FnArgsCount {
            mutable: T::init(),
        }
    }

    fn unite(self, rhs: Self) -> (both: Self) {
        FnArgsCount {
            mutable: self.mutable.unite(rhs.mutable),
        }
    }

    proof fn law_identity(a: Self::Model) {
        T::law_identity(a.0);
    }

    proof fn law_associative(a: Self::Model, b: Self::Model, c: Self::Model) {
        T::law_associative(a.0, b.0, c.0);
    }

    proof fn law_commutative(a: Self::Model, b: Self::Model) {
        T::law_commutative(a.0, b.0);
    }
}

impl<Obs: Sampler> Family for FnArgsCount<Obs> {
    open spec fn reason() -> CollectError {
        CollectError::TooLarge
    }

    open spec fn suits(file: Node) -> bool {
        true
    }

    open spec fn measured(file: Node) -> Self::Model {
        (
            gather(Measure::MutableParams, entering(file)),
        )
    }

    open spec fn shown(model: Self::Model) -> Shape {
        Shape::Object(
            seq![
                ("mutable"@, Obs::shown(model.0)),
            ],
        )
    }

    fn collect(file: &Node) -> (metric: Result<Self, CollectError>) {
        let visits = visit(file, Prune::Nothing, false);
        Ok(FnArgsCount { mutable: sampled(&measure(Measure::MutableParams, &visits)) })
    }

    fn to_value(&self) -> (value: MetricValue<Sample>) {
        let mut entries: Vec<(String, MetricValue<Sample>)> = Vec::new();
        proof {
            self.mutable.law_model();
        }
        add_entry(&mut entries, "mutable", self.mutable.to_value());
        proof {
            assert(shapes_of(entries@) =~= Self::shown(self.model())->Object_0);
        }
        MetricValue::Object(entries)
    }
}

/// The collector of the mutable arguments of functions.
pub fn make_collector() -> (collector: MetricCollectorBox)
    ensures
        collector.0 is FnArgCount,
        collector.name_text() == "fn_arg_count"@,
{
    MetricCollectorBox(Collector::FnArgCount(VisitorCollector::new("fn_arg_count")))
}

} // verus!
