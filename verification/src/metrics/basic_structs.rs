//! The shape of structs.

use vstd::prelude::*;
use crate::collector::{CollectError, Family, VisitorCollector};
use crate::measure::{Measure, gather, measure};
use crate::monoid::{Monoid, WellFormed};
use crate::observer::{Observer, Sampler, Unaggregated, grown, observe_all, ready, sampled};
use crate::registry::{Collector, MetricCollectorBox};
use crate::syntax::Node;
use crate::value::{MetricValue, Sample, Shape, add_entry, shapes_of};
use crate::walk::{Prune, entering, visit};

verus! {

/// What the structs of a corpus look like.
pub struct Structs<Obs = Unaggregated> {
    /// The number of fields of each struct.
    pub fields_count: Obs,
    /// The number of public fields of each struct.
    pub public_fields_count: Obs,
    /// The number of attributes of each struct.
    pub attrs_count: Obs,
    /// The number of attributes of each field.
    pub field_attr_count: Obs,
}

impl<Obs: WellFormed> WellFormed for Structs<Obs> {
    open spec fn wf(&self) -> bool {
        &&& self.fields_count.wf()
        &&& self.public_fields_count.wf()
        &&& self.attrs_count.wf()
        &&& self.field_attr_count.wf()
    }
}

impl<Obs: Observer> Structs<Obs> {
    /// Records what the tree under `file` holds, in the order in which a
    /// reader meets it.
    pub fn visit_file(&mut self, file: &Node)
        requires
            old(self).wf(),
            ready(&old(self).fields_count, gather(Measure::StructFields, entering(*file))),
            ready(
                &old(self).public_fields_count,
                gather(Measure::StructPublicFields, entering(*file)),
            ),
            ready(&old(self).attrs_count, gather(Measure::StructAttrs, entering(*file))),
            ready(&old(self).field_attr_count, gather(Measure::StructFieldAttrs, entering(*file))),
        ensures
            final(self).wf(),
            grown(
                &old(self).fields_count,
                &final(self).fields_count,
                gather(Measure::StructFields, entering(*file)),
            ),
            grown(
                &old(self).public_fields_count,
                &final(self).public_fields_count,
                gather(Measure::StructPublicFields, entering(*file)),
            ),
            grown(
                &old(self).attrs_count,
                &final(self).attrs_count,
                gather(Measure::StructAttrs, entering(*file)),
            ),
            grown(
                &old(self).field_attr_count,
                &final(self).field_attr_count,
                gather(Measure::StructFieldAttrs, entering(*file)),
            ),
    {
        let visits = visit(file, Prune::Nothing, false);
        let values = measure(Measure::StructFields, &visits);
        observe_all(&mut self.fields_count, &values);
        let values = measure(Measure::StructPublicFields, &visits);
        observe_all(&mut self.public_fields_count, &values);
        let values = measure(Measure::StructAttrs, &visits);
        observe_all(&mut self.attrs_count, &values);
        let values = measure(Measure::StructFieldAttrs, &visits);
        observe_all(&mut self.field_attr_count, &values);
    }
}

impl<T: Monoid> Monoid for Structs<T> {
    type Model = (T::Model, T::Model, T::Model, T::Model);

    open spec fn model(&self) -> Self::Model {
        (
            self.fields_count.model(),
            self.public_fields_count.model(),
            self.attrs_count.model(),
            self.field_attr_count.model(),
        )
    }

    open spec fn init_model() -> Self::Model {
        (T::init_model(), T::init_model(), T::init_model(), T::init_model())
    }

    open spec fn unite_model(a: Self::Model, b: Self::Model) -> Self::Model {
        (
            T::unite_model(a.0, b.0),
            T::unite_model(a.1, b.1),
            T::unite_model(a.2, b.2),
            T::unite_model(a.3, b.3),
        )
    }

    open spec fn fits(a: Self::Model, b: Self::Model) -> bool {
        &&& T::fits(a.0, b.0)
        &&& T::fits(a.1, b.1)
        &&& T::fits(a.2, b.2)
        &&& T::fits(a.3, b.3)
    }

    open spec fn alike(a: Self::Model, b: Self::Model) -> bool {
        &&& T::alike(a.0, b.0)
        &&& T::alike(a.1, b.1)
        &&& T::alike(a.2, b.2)
        &&& T::alike(a.3, b.3)
    }

    fn init() -> (id: Self) {
        Structs {
            fields_count: T::init(),
            public_fields_count: T::init(),
            attrs_count: T::init(),
            field_attr_count: T::init(),
        }
    }

    fn unite(self, rhs: Self) -> (both: Self) {
        Structs {
            fields_count: self.fields_count.unite(rhs.fields_count),
            public_fields_count: self.public_fields_count.unite(rhs.public_fields_count),
            attrs_count: self.attrs_count.unite(rhs.attrs_count),
            field_attr_count: self.field_attr_count.unite(rhs.field_attr_count),
        }
    }

    proof fn law_identity(a: Self::Model) {
        T::law_identity(a.0);
        T::law_identity(a.1);
        T::law_identity(a.2);
        T::law_identity(a.3);
    }

    proof fn law_associative(a: Self::Model, b: Self::Model, c: Self::Model) {
        T::law_associative(a.0, b.0, c.0);
        T::law_associative(a.1, b.1, c.1);
        T::law_associative(a.2, b.2, c.2);
        T::law_associative(a.3, b.3, c.3);
    }

    proof fn law_commutative(a: Self::Model, b: Self::Model) {
        T::law_commutative(a.0, b.0);
        T::law_commutative(a.1, b.1);
        T::law_commutative(a.2, b.2);
        T::law_commutative(a.3, b.3);
    }
}

impl<Obs: Sampler> Family for Structs<Obs> {
    open spec fn reason() -> CollectError {
        CollectError::TooLarge
    }

    open spec fn suits(file: Node) -> bool {
        true
    }

    open spec fn measured(file: Node) -> Self::Model {
        (
            gather(Measure::StructFields, entering(file)),
            gather(Measure::StructPublicFields, entering(file)),
            gather(Measure::StructAttrs, entering(file)),
            gather(Measure::StructFieldAttrs, entering(file)),
        )
    }

    open spec fn shown(model: Self::Model) -> Shape {
        Shape::Object(
            seq![
                ("fields_count"@, Obs::shown(model.0)),
                ("public_fields_count"@, Obs::shown(model.1)),
                ("attrs_count"@, Obs::shown(model.2)),
                ("field_attr_count"@, Obs::shown(model.3)),
            ],
        )
    }

    fn collect(file: &Node) -> (metric: Result<Self, CollectError>) {
        let visits = visit(file, Prune::Nothing, false);
        Ok(
            Structs {
                fields_count: sampled(&measure(Measure::StructFields, &visits)),
                public_fields_count: sampled(&measure(Measure::StructPublicFields, &visits)),
                attrs_count: sampled(&measure(Measure::StructAttrs, &visits)),
                field_attr_count: sampled(&measure(Measure::StructFieldAttrs, &visits)),
            },
        )
    }

    fn to_value(&self) -> (value: MetricValue<Sample>) {
        let mut entries: Vec<(String, MetricValue<Sample>)> = Vec::new();
        proof {
            self.fields_count.law_model();
            self.public_fields_count.law_model();
            self.attrs_count.law_model();
            self.field_attr_count.law_model();
        }
        add_entry(&mut entries, "fields_count", self.fields_count.to_value());
        add_entry(&mut entries, "public_fields_count", self.public_fields_count.to_value());
        add_entry(&mut entries, "attrs_count", self.attrs_count.to_value());
        add_entry(&mut entries, "field_attr_count", self.field_attr_count.to_value());
        proof {
            assert(shapes_of(entries@) =~= Self::shown(self.model())->Object_0);
        }
        MetricValue::Object(entries)
    }
}

/// The collector of the shape of structs.
pub fn make_collector() -> (collector: MetricCollectorBox)
    ensures
        collector.0 is Structs,
        collector.name_text() == "structs"@,
{
    MetricCollectorBox(Collector::Structs(VisitorCollector::new("structs")))
}

} // verus!
