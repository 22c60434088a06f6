//! The shape of enums.

use vstd::prelude::*;
use crate::collector::{CollectError, Family, VisitorCollector};
use crate::measure::{Measure, gather, measure};
use crate::monoid::{Monoid, WellFormed};
use crate::observer::{Observer, Sampler, Unaggregated, grown, observe_all, ready, sampled};
use crate::registry::{Collector, MetricCollectorBox};
use crate::syntax::Node;
use crate::value::{MetricValue, Sample, Shape, add_entry, shapes_of};
use crate::walk::{Prune, entering, visit};

verus! {

/// What the enums of a corpus look like.
pub struct Enums<Obs = Unaggregated> {
    /// The number of variants of each enum.
    pub variant_count: Obs,
    /// The number of attributes of each enum.
    pub attr_count: Obs,
    /// The number of attributes of each variant.
    pub variant_attr_count: Obs,
}

impl<Obs: WellFormed> WellFormed for Enums<Obs> {
    open spec fn wf(&self) -> bool {
        &&& self.variant_count.wf()
        &&& self.attr_count.wf()
        &&& self.variant_attr_count.wf()
    }
}

impl<Obs: Observer> Enums<Obs> {
    /// Records what the tree under `file` holds, in the order in which a
    /// reader meets it.
    pub fn visit_file(&mut self, file: &Node)
        requires
            old(self).wf(),
            ready(&old(self).variant_count, gather(Measure::EnumVariants, entering(*file))),
            ready(&old(self).attr_count, gather(Measure::EnumAttrs, entering(*file))),
            ready(
                &old(self).variant_attr_count,
                gather(Measure::EnumVariantAttrs, entering(*file)),
            ),
        ensures
            final(self).wf(),
            grown(
                &old(self).variant_count,
                &final(self).variant_count,
                gather(Measure::EnumVariants, entering(*file)),
            ),
            grown(
                &old(self).attr_count,
                &final(self).attr_count,
                gather(Measure::EnumAttrs, entering(*file)),
            ),
            grown(
                &old(self).variant_attr_count,
                &final(self).variant_attr_count,
                gather(Measure::EnumVariantAttrs, entering(*file)),
            ),
    {
        let visits = visit(file, Prune::Nothing, false);
        let values = measure(Measure::EnumVariants, &visits);
        observe_all(&mut self.variant_count, &values);
        let values = measure(Measure::EnumAttrs, &visits);
        observe_all(&mut self.attr_count, &values);
        let values = measure(Measure::EnumVariantAttrs, &visits);
        observe_all(&mut self.variant_attr_count, &values);
    }
}

impl<T: Monoid> Monoid for Enums<T> {
    type Model = (T::Model, T::Model, T::Model);

    open spec fn model(&self) -> Self::Model {
        (self.variant_count.model(), self.attr_count.model(), self.variant_attr_count.model())
    }

    open spec fn init_model() -> Self::Model {
        (T::init_model(), T::init_model(), T::init_model())
    }

    open spec fn unite_model(a: Self::Model, b: Self::Model) -> Self::Model {
        (T::unite_model(a.0, b.0), T::unite_model(a.1, b.1), T::unite_model(a.2, b.2))
    }

    open spec fn fits(a: Self::Model, b: Self::Model) -> bool {
        &&& T::fits(a.0, b.0)
        &&& T::fits(a.1, b.1)
        &&& T::fits(a.2, b.2)
    }

    open spec fn alike(a: Self::Model, b: Self::Model) -> bool {
        &&& T::alike(a.0, b.0)
        &&& T::alike(a.1, b.1)
        &&& T::alike(a.2, b.2)
    }

    fn init() -> (id: Self) {
        Enums {
            variant_count: T::init(),
            attr_count: T::init(),
            variant_attr_count: T::init(),
        }
    }

    fn unite(self, rhs: Self) -> (both: Self) {
        Enums {
            variant_count: self.variant_count.unite(rhs.variant_count),
            attr_count: self.attr_count.unite(rhs.attr_count),
            variant_attr_count: self.variant_attr_count.unite(rhs.variant_attr_count),
        }
    }

    proof fn law_identity(a: Self::Model) {
        T::law_identity(a.0);
        T::law_identity(a.1);
        T::law_identity(a.2);
    }

    proof fn law_associative(a: Self::Model, b: Self::Model, c: Self::Model) {
        T::law_associative(a.0, b.0, c.0);
        T::law_associative(a.1, b.1, c.1);
        T::law_associative(a.2, b.2, c.2);
    }

    proof fn law_commutative(a: Self::Model, b: Self::Model) {
        T::law_commutative(a.0, b.0);
        T::law_commutative(a.1, b.1);
        T::law_commutative(a.2, b.2);
    }
}

impl<Obs: Sampler> Family for Enums<Obs> {
    open spec fn reason() -> CollectError {
        CollectError::TooLarge
    }

    open spec fn suits(file: Node) -> bool {
        true
    }

    open spec fn measured(file: Node) -> Self::Model {
        (
            gather(Measure::EnumVariants, entering(file)),
            gather(Measure::EnumAttrs, entering(file)),
            gather(Measure::EnumVariantAttrs, entering(file)),
        )
    }

    open spec fn shown(model: Self::Model) -> Shape {
        Shape::Object(
            seq![
                ("variant_count"@, Obs::shown(model.0)),
                ("attr_count"@, Obs::shown(model.1)),
                ("variant_attr_count"@, Obs::shown(model.2)),
            ],
        )
    }

    fn collect(file: &Node) -> (metric: Result<Self, CollectError>) {
        let visits = visit(file, Prune::Nothing, false);
        Ok(
            Enums {
                variant_count: sampled(&measure(Measure::EnumVariants, &visits)),
                attr_count: sampled(&measure(Measure::EnumAttrs, &visits)),
                variant_attr_count: sampled(&measure(Measure::EnumVariantAttrs, &visits)),
            },
        )
    }

    fn to_value(&self) -> (value: MetricValue<Sample>) {
        let mut entries: Vec<(String, MetricValue<Sample>)> = Vec::new();
        proof {
            self.variant_count.law_model();
            self.attr_count.law_model();
            self.variant_attr_count.law_model();
        }
        add_entry(&mut entries, "variant_count", self.variant_count.to_value());
        add_entry(&mut entries, "attr_count", self.attr_count.to_value());
        add_entry(&mut entries, "variant_attr_count", self.variant_attr_count.to_value());
        proof {
            assert(shapes_of(entries@) =~= Self::shown(self.model())->Object_0);
        }
        MetricValue::Object(entries)
    }
}

/// The collector of the shape of enums.
pub fn make_collector() -> (collector: MetricCollectorBox)
    ensures
        collector.0 is Enums,
        collector.name_text() == "enums"@,
{
    MetricCollectorBox(Collector::Enums(VisitorCollector::new("enums")))
}

} // verus!
