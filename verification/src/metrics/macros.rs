//! How macros are invoked: how much each invocation is handed, and how many
//! invocations a file holds.

use vstd::prelude::*;
use crate::collector::{CollectError, Family, VisitorCollector};
use crate::measure::{Measure, gather, measure, single};
use crate::monoid::{Monoid, WellFormed};
use crate::observer::{Observer, Sampler, Unaggregated, grown, observe_all, ready, sampled};
use crate::registry::{Collector, MetricCollectorBox};
use crate::syntax::Node;
use crate::value::{MetricValue, Sample, Shape, add_entry, shapes_of};
use crate::walk::{Prune, entering, visit};

verus! {

/// The macro invocations of a corpus.
pub struct MacroStats<Obs = Unaggregated> {
    /// The number of token trees handed to each invocation.
    pub argument_size: Obs,
    /// The number of invocations of each file.
    pub count_per_file: Obs,
}

impl<Obs: WellFormed> WellFormed for MacroStats<Obs> {
    open spec fn wf(&self) -> bool {
        &&& self.argument_size.wf()
        &&& self.count_per_file.wf()
    }
}

/// The sizes of the macro invocations of the tree under `file`.
pub open spec fn macro_sizes(file: Node) -> Seq<usize> {
    gather(Measure::MacroTokens, entering(file))
}

impl<Obs: Observer> MacroStats<Obs> {
    /// Records the macro invocations of the tree under `file`: the size of
    /// each where a reader meets it, and then how many there are.
    pub fn visit_file(&mut self, file: &Node)
        requires
            old(self).wf(),
            ready(&old(self).argument_size, macro_sizes(*file)),
            ready(&old(self).count_per_file, seq![macro_sizes(*file).len() as usize]),
        ensures
            final(self).wf(),
            grown(&old(self).argument_size, &final(self).argument_size, macro_sizes(*file)),
            grown(
                &old(self).count_per_file,
                &final(self).count_per_file,
                seq![macro_sizes(*file).len() as usize],
            ),
    {
        let visits = visit(file, Prune::Nothing, false);
        let sizes = measure(Measure::MacroTokens, &visits);
        observe_all(&mut self.argument_size, &sizes);
        let ghost before = self.count_per_file.observations();
        proof {
            assert(Obs::room(before.len()));
            assert(before.push(sizes@.len() as usize) =~= before + seq![sizes@.len() as usize]);
        }
        self.count_per_file.observe(sizes.len());
    }
}

impl<T: Monoid> Monoid for MacroStats<T> {
    type Model = (T::Model, T::Model);

    open spec fn model(&self) -> Self::Model {
        (self.argument_size.model(), self.count_per_file.model())
    }

    open spec fn init_model() -> Self::Model {
        (T::init_model(), T::init_model())
    }

    open spec fn unite_model(a: Self::Model, b: Self::Model) -> Self::Model {
        (T::unite_model(a.0, b.0), T::unite_model(a.1, b.1))
    }

    open spec fn fits(a: Self::Model, b: Self::Model) -> bool {
        &&& T::fits(a.0, b.0)
        &&& T::fits(a.1, b.1)
    }

    open spec fn alike(a: Self::Model, b: Self::Model) -> bool {
        &&& T::alike(a.0, b.0)
        &&& T::alike(a.1, b.1)
    }

    fn init() -> (id: Self) {
        MacroStats { argument_size: T::init(), count_per_file: T::init() }
    }

    fn unite(self, rhs: Self) -> (both: Self) {
        MacroStats {
            argument_size: self.argument_size.unite(rhs.argument_size),
            count_per_file: self.count_per_file.unite(rhs.count_per_file),
        }
    }

    proof fn law_identity(a: Self::Model) {
        T::law_identity(a.0);
        T::law_identity(a.1);
    }

    proof fn law_associative(a: Self::Model, b: Self::Model, c: Self::Model) {
        T::law_associative(a.0, b.0, c.0);
        T::law_associative(a.1, b.1, c.1);
    }

    proof fn law_commutative(a: Self::Model, b: Self::Model) {
        T::law_commutative(a.0, b.0);
        T::law_commutative(a.1, b.1);
    }
}

impl<Obs: Sampler> Family for MacroStats<Obs> {
    open spec fn reason() -> CollectError {
        CollectError::TooLarge
    }

    open spec fn suits(file: Node) -> bool {
        true
    }

    open spec fn measured(file: Node) -> Self::Model {
        (
            macro_sizes(file),
            seq![macro_sizes(file).len() as usize],
        )
    }

    open spec fn shown(model: Self::Model) -> Shape {
        Shape::Object(
            seq![
                ("argument_size"@, Obs::shown(model.0)),
                ("count_per_file"@, Obs::shown(model.1)),
            ],
        )
    }

    fn collect(file: &Node) -> (metric: Result<Self, CollectError>) {
        let visits = visit(file, Prune::Nothing, false);
        let sizes = measure(Measure::MacroTokens, &visits);
        Ok(
            MacroStats {
                argument_size: sampled(&sizes),
                count_per_file: sampled(&single(sizes.len())),
            },
        )
    }

    fn to_value(&self) -> (value: MetricValue<Sample>) {
        let mut entries: Vec<(String, MetricValue<Sample>)> = Vec::new();
        proof {
            self.argument_size.law_model();
            self.count_per_file.law_model();
        }
        add_entry(&mut entries, "argument_size", self.argument_size.to_value());
        add_entry(&mut entries, "count_per_file", self.count_per_file.to_value());
        proof {
            assert(shapes_of(entries@) =~= Self::shown(self.model())->Object_0);
        }
        MetricValue::Object(entries)
    }
}

/// The collector of the macro invocations.
pub fn make_collector() -> (collector: MetricCollectorBox)
    ensures
        collector.0 is Macro,
        collector.name_text() == "macro"@,
{
    MetricCollectorBox(Collector::Macro(VisitorCollector::new("macro")))
}

} // verus!
