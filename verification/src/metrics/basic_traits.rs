//! The shape of trait definitions.

use vstd::prelude::*;
use crate::collector::{CollectError, Family, VisitorCollector};
use crate::measure::{Measure, gather, measure};
use crate::monoid::{Monoid, WellFormed};
use crate::observer::{Observer, Sampler, Unaggregated, grown, observe_all, ready, sampled};
use crate::registry::{Collector, MetricCollectorBox};
use crate::syntax::Node;
use crate::value::{MetricValue, Sample, Shape, add_entry, shapes_of};
use crate::walk::{Prune, entering, visit};

verus! {

/// What the traits of a corpus look like.
pub struct TraitDefinitions<Obs = Unaggregated> {
    /// The number of generic parameters of each trait.
    pub generic_param_count: Obs,
    /// The number of supertraits of each trait.
    pub supertrait_count: Obs,
    /// The number of functions with a default body of each trait.
    pub default_fn_count: Obs,
    /// The number of functions of each trait.
    pub all_fn_count: Obs,
    /// The number of associated types of each trait.
    pub assoc_type_count: Obs,
}

impl<Obs: WellFormed> WellFormed for TraitDefinitions<Obs> {
    open spec fn wf(&self) -> bool {
        &&& self.generic_param_count.wf()
        &&& self.supertrait_count.wf()
        &&& self.default_fn_count.wf()
        &&& self.all_fn_count.wf()
        &&& self.assoc_type_count.wf()
    }
}

impl<Obs: Observer> TraitDefinitions<Obs> {
    /// Records what the tree under `file` holds, in the order in which a
    /// reader meets it.
    pub fn visit_file(&mut self, file: &Node)
        requires
            old(self).wf(),
            ready(
                &old(self).generic_param_count,
                gather(Measure::TraitGenericParams, entering(*file)),
            ),
            ready(&old(self).supertrait_count, gather(Measure::TraitSupertraits, entering(*file))),
            ready(&old(self).default_fn_count, gather(Measure::TraitDefaultFns, entering(*file))),
            ready(&old(self).all_fn_count, gather(Measure::TraitFns, entering(*file))),
            ready(&old(self).assoc_type_count, gather(Measure::TraitAssocTypes, entering(*file))),
        ensures
            final(self).wf(),
            grown(
                &old(self).generic_param_count,
                &final(self).generic_param_count,
                gather(Measure::TraitGenericParams, entering(*file)),
            ),
            grown(
                &old(self).supertrait_count,
                &final(self).supertrait_count,
                gather(Measure::TraitSupertraits, entering(*file)),
            ),
            grown(
                &old(self).default_fn_count,
                &final(self).default_fn_count,
                gather(Measure::TraitDefaultFns, entering(*file)),
            ),
            grown(
                &old(self).all_fn_count,
                &final(self).all_fn_count,
                gather(Measure::TraitFns, entering(*file)),
            ),
            grown(
                &old(self).assoc_type_count,
                &final(self).assoc_type_count,
                gather(Measure::TraitAssocTypes, entering(*file)),
            ),
    {
        let visits = visit(file, Prune::Nothing, false);
        let values = measure(Measure::TraitGenericParams, &visits);
        observe_all(&mut self.generic_param_count, &values);
        let values = measure(Measure::TraitSupertraits, &visits);
        observe_all(&mut self.supertrait_count, &values);
        let values = measure(Measure::TraitDefaultFns, &visits);
        observe_all(&mut self.default_fn_count, &values);
        let values = measure(Measure::TraitFns, &visits);
        observe_all(&mut self.all_fn_count, &values);
        let values = measure(Measure::TraitAssocTypes, &visits);
        observe_all(&mut self.assoc_type_count, &values);
    }
}

impl<T: Monoid> Monoid for TraitDefinitions<T> {
    type Model = (T::Model, T::Model, T::Model, T::Model, T::Model);

    open spec fn model(&self) -> Self::Model {
        (
            self.generic_param_count.model(),
            self.supertrait_count.model(),
            self.default_fn_count.model(),
            self.all_fn_count.model(),
            self.assoc_type_count.model(),
        )
    }

    open spec fn init_model() -> Self::Model {
        (T::init_model(), T::init_model(), T::init_model(), T::init_model(), T::init_model())
    }

    open spec fn unite_model(a: Self::Model, b: Self::Model) -> Self::Model {
        (
            T::unite_model(a.0, b.0),
            T::unite_model(a.1, b.1),
            T::unite_model(a.2, b.2),
            T::unite_model(a.3, b.3),
            T::unite_model(a.4, b.4),
        )
    }

    open spec fn fits(a: Self::Model, b: Self::Model) -> bool {
        &&& T::fits(a.0, b.0)
        &&& T::fits(a.1, b.1)
        &&& T::fits(a.2, b.2)
        &&& T::fits(a.3, b.3)
        &&& T::fits(a.4, b.4)
    }

    open spec fn alike(a: Self::Model, b: Self::Model) -> bool {
        &&& T::alike(a.0, b.0)
        &&& T::alike(a.1, b.1)
        &&& T::alike(a.2, b.2)
        &&& T::alike(a.3, b.3)
        &&& T::alike(a.4, b.4)
    }

    fn init() -> (id: Self) {
        TraitDefinitions {
            generic_param_count: T::init(),
            supertrait_count: T::init(),
            default_fn_count: T::init(),
            all_fn_count: T::init(),
            assoc_type_count: T::init(),
        }
    }

    fn unite(self, rhs: Self) -> (both: Self) {
        TraitDefinitions {
            generic_param_count: self.generic_param_count.unite(rhs.generic_param_count),
            supertrait_count: self.supertrait_count.unite(rhs.supertrait_count),
            default_fn_count: self.default_fn_count.unite(rhs.default_fn_count),
            all_fn_count: self.all_fn_count.unite(rhs.all_fn_count),
            assoc_type_count: self.assoc_type_count.unite(rhs.assoc_type_count),
        }
    }

    proof fn law_identity(a: Self::Model) {
        T::law_identity(a.0);
        T::law_identity(a.1);
        T::law_identity(a.2);
        T::law_identity(a.3);
        T::law_identity(a.4);
    }

    proof fn law_associative(a: Self::Model, b: Self::Model, c: Self::Model) {
        T::law_associative(a.0, b.0, c.0);
        T::law_associative(a.1, b.1, c.1);
        T::law_associative(a.2, b.2, c.2);
        T::law_associative(a.3, b.3, c.3);
        T::law_associative(a.4, b.4, c.4);
    }

    proof fn law_commutative(a: Self::Model, b: Self::Model) {
        T::law_commutative(a.0, b.0);
        T::law_commutative(a.1, b.1);
        T::law_commutative(a.2, b.2);
        T::law_commutative(a.3, b.3);
        T::law_commutative(a.4, b.4);
    }
}

impl<Obs: Sampler> Family for TraitDefinitions<Obs> {
    open spec fn reason() -> CollectError {
        CollectError::TooLarge
    }

    open spec fn suits(file: Node) -> bool {
        true
    }

    open spec fn measured(file: Node) -> Self::Model {
        (
            gather(Measure::TraitGenericParams, entering(file)),
            gather(Measure::TraitSupertraits, entering(file)),
            gather(Measure::TraitDefaultFns, entering(file)),
            gather(Measure::TraitFns, entering(file)),
            gather(Measure::TraitAssocTypes, entering(file)),
        )
    }

    open spec fn shown(model: Self::Model) -> Shape {
        Shape::Object(
            seq![
                ("generic_param_count"@, Obs::shown(model.0)),
                ("supertrait_count"@, Obs::shown(model.1)),
                ("default_fn_count"@, Obs::shown(model.2)),
                ("all_fn_count"@, Obs::shown(model.3)),
                ("assoc_type_count"@, Obs::shown(model.4)),
            ],
        )
    }

    fn collect(file: &Node) -> (metric: Result<Self, CollectError>) {
        let visits = visit(file, Prune::Nothing, false);
        Ok(
            TraitDefinitions {
                generic_param_count: sampled(&measure(Measure::TraitGenericParams, &visits)),
                supertrait_count: sampled(&measure(Measure::TraitSupertraits, &visits)),
                default_fn_count: sampled(&measure(Measure::TraitDefaultFns, &visits)),
                all_fn_count: sampled(&measure(Measure::TraitFns, &visits)),
                assoc_type_count: sampled(&measure(Measure::TraitAssocTypes, &visits)),
            },
        )
    }

    fn to_value(&self) -> (value: MetricValue<Sample>) {
        let mut entries: Vec<(String, MetricValue<Sample>)> = Vec::new();
        proof {
            self.generic_param_count.law_model();
            self.supertrait_count.law_model();
            self.default_fn_count.law_model();
            self.all_fn_count.law_model();
            self.assoc_type_count.law_model();
        }
        add_entry(&mut entries, "generic_param_count", self.generic_param_count.to_value());
        add_entry(&mut entries, "supertrait_count", self.supertrait_count.to_value());
        add_entry(&mut entries, "default_fn_count", self.default_fn_count.to_value());
        add_entry(&mut entries, "all_fn_count", self.all_fn_count.to_value());
        add_entry(&mut entries, "assoc_type_count", self.assoc_type_count.to_value());
        proof {
            assert(shapes_of(entries@) =~= Self::shown(self.model())->Object_0);
        }
        MetricValue::Object(entries)
    }
}

/// The collector of the shape of traits.
pub fn make_collector() -> (collector: MetricCollectorBox)
    ensures
        collector.0 is TraitDef,
        collector.name_text() == "trait_def"@,
{
    MetricCollectorBox(Collector::TraitDef(VisitorCollector::new("trait_def")))
}

} // verus!
