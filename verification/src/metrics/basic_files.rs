//! What a file defines: how many structs, enums, `impl` blocks and public
//! free functions.

use vstd::prelude::*;
use crate::collector::{CollectError, Family, VisitorCollector};
use crate::measure::{Sort, count_sort, single, tally};
use crate::monoid::{Monoid, WellFormed};
use crate::observer::{Observer, Sampler, Unaggregated, grown, ready, sampled};
use crate::registry::{Collector, MetricCollectorBox};
use crate::syntax::Node;
use crate::value::{MetricValue, Sample, Shape, add_entry, shapes_of};
use crate::walk::{Prune, visit, walk};

verus! {

/// What one file defines.
#[derive(Default, Debug, Clone, Copy, PartialEq, Eq)]
pub struct FileStats {
    pub structs_count: usize,
    pub enums_count: usize,
    pub impls_count: usize,
    /// Free functions.
    pub all_fns_count: usize,
    /// Public free functions.
    pub pub_fns_count: usize,
}

/// How many definitions of the sort `sort` the tree under `file` holds,
/// those left out that stand inside a struct, an enum, an `impl` block or a
/// free function.
pub open spec fn defined(sort: Sort, file: Node) -> usize {
    count_sort(sort, walk(file, Prune::Definitions, false, 0)) as usize
}

impl FileStats {
    /// What the tree under `file` defines.
    pub fn of(file: &Node) -> (stats: FileStats)
        ensures
            stats.structs_count == defined(Sort::Struct, *file),
            stats.enums_count == defined(Sort::Enum, *file),
            stats.impls_count == defined(Sort::Impl, *file),
            stats.all_fns_count == defined(Sort::Fn, *file),
            stats.pub_fns_count == defined(Sort::PublicFn, *file),
    {
        let visits = visit(file, Prune::Definitions, false);
        FileStats {
            structs_count: tally(Sort::Struct, &visits),
            enums_count: tally(Sort::Enum, &visits),
            impls_count: tally(Sort::Impl, &visits),
            all_fns_count: tally(Sort::Fn, &visits),
            pub_fns_count: tally(Sort::PublicFn, &visits),
        }
    }
}

/// What the files of a corpus define, one observation for each file.
pub struct Files<Obs = Unaggregated> {
    /// The number of structs of each file.
    pub struct_count: Obs,
    /// The number of enums of each file.
    pub enum_count: Obs,
    /// The number of `impl` blocks of each file.
    pub impl_block_count: Obs,
    /// The number of public free functions of each file.
    pub pub_fn_count: Obs,
}

impl<Obs: WellFormed> WellFormed for Files<Obs> {
    open spec fn wf(&self) -> bool {
        &&& self.struct_count.wf()
        &&& self.enum_count.wf()
        &&& self.impl_block_count.wf()
        &&& self.pub_fn_count.wf()
    }
}

impl<Obs: Observer> Files<Obs> {
    /// Records what the tree under `file` defines.
    pub fn visit_file(&mut self, file: &Node)
        requires
            old(self).wf(),
            ready(&old(self).struct_count, seq![defined(Sort::Struct, *file)]),
            ready(&old(self).enum_count, seq![defined(Sort::Enum, *file)]),
            ready(&old(self).impl_block_count, seq![defined(Sort::Impl, *file)]),
            ready(&old(self).pub_fn_count, seq![defined(Sort::PublicFn, *file)]),
        ensures
            final(self).wf(),
            grown(
                &old(self).struct_count,
                &final(self).struct_count,
                seq![defined(Sort::Struct, *file)],
            ),
            grown(&old(self).enum_count, &final(self).enum_count, seq![defined(Sort::Enum, *file)]),
            grown(
                &old(self).impl_block_count,
                &final(self).impl_block_count,
                seq![defined(Sort::Impl, *file)],
            ),
            grown(
                &old(self).pub_fn_count,
                &final(self).pub_fn_count,
                seq![defined(Sort::PublicFn, *file)],
            ),
    {
        let stats = FileStats::of(file);
        proof {
            assert(Obs::room(self.struct_count.observations().len()));
            assert(Obs::room(self.enum_count.observations().len()));
            assert(Obs::room(self.impl_block_count.observations().len()));
            assert(Obs::room(self.pub_fn_count.observations().len()));
            let a = self.struct_count.observations();
            assert(a.push(stats.structs_count) =~= a + seq![stats.structs_count]);
            let b = self.enum_count.observations();
            assert(b.push(stats.enums_count) =~= b + seq![stats.enums_count]);
            let c = self.impl_block_count.observations();
            assert(c.push(stats.impls_count) =~= c + seq![stats.impls_count]);
            let d = self.pub_fn_count.observations();
            assert(d.push(stats.pub_fns_count) =~= d + seq![stats.pub_fns_count]);
        }
        self.struct_count.observe(stats.structs_count);
        self.enum_count.observe(stats.enums_count);
        self.impl_block_count.observe(stats.impls_count);
        self.pub_fn_count.observe(stats.pub_fns_count);
    }
}

impl<T: Monoid> Monoid for Files<T> {
    type Model = (T::Model, T::Model, T::Model, T::Model);

    open spec fn model(&self) -> Self::Model {
        (
            self.struct_count.model(),
            self.enum_count.model(),
            self.impl_block_count.model(),
            self.pub_fn_count.model(),
        )
    }

    open spec fn init_model() -> Self::Model {
        (T::init_model(), T::init_model(), T::init_model(), T::init_model())
    }

    open spec fn unite_model(a: Self::Model, b: Self::Model) -> Self::Model {
        (
            T::unite_model(a.0, b.0),
            T::unite_model(a.1, b.1),
            T::unite_model(a.2, b.2),
            T::unite_model(a.3, b.3),
        )
    }

    open spec fn fits(a: Self::Model, b: Self::Model) -> bool {
        &&& T::fits(a.0, b.0)
        &&& T::fits(a.1, b.1)
        &&& T::fits(a.2, b.2)
        &&& T::fits(a.3, b.3)
    }

    open spec fn alike(a: Self::Model, b: Self::Model) -> bool {
        &&& T::alike(a.0, b.0)
        &&& T::alike(a.1, b.1)
        &&& T::alike(a.2, b.2)
        &&& T::alike(a.3, b.3)
    }

    fn init() -> (id: Self) {
        Files {
            struct_count: T::init(),
            enum_count: T::init(),
            impl_block_count: T::init(),
            pub_fn_count: T::init(),
        }
    }

    fn unite(self, rhs: Self) -> (both: Self) {
        Files {
            struct_count: self.struct_count.unite(rhs.struct_count),
            enum_count: self.enum_count.unite(rhs.enum_count),
            impl_block_count: self.impl_block_count.unite(rhs.impl_block_count),
            pub_fn_count: self.pub_fn_count.unite(rhs.pub_fn_count),
        }
    }

    proof fn law_identity(a: Self::Model) {
        T::law_identity(a.0);
        T::law_identity(a.1);
        T::law_identity(a.2);
        T::law_identity(a.3);
    }

    proof fn law_associative(a: Self::Model, b: Self::Model, c: Self::Model) {
        T::law_associative(a.0, b.0, c.0);
        T::law_associative(a.1, b.1, c.1);
        T::law_associative(a.2, b.2, c.2);
        T::law_associative(a.3, b.3, c.3);
    }

    proof fn law_commutative(a: Self::Model, b: Self::Model) {
        T::law_commutative(a.0, b.0);
        T::law_commutative(a.1, b.1);
        T::law_commutative(a.2, b.2);
        T::law_commutative(a.3, b.3);
    }
}

impl<Obs: Sampler> Family for Files<Obs> {
    open spec fn reason() -> CollectError {
        CollectError::TooLarge
    }

    open spec fn suits(file: Node) -> bool {
        true
    }

    open spec fn measured(file: Node) -> Self::Model {
        (
            seq![defined(Sort::Struct, file)],
            seq![defined(Sort::Enum, file)],
            seq![defined(Sort::Impl, file)],
            seq![defined(Sort::PublicFn, file)],
        )
    }

    open spec fn shown(model: Self::Model) -> Shape {
        Shape::Object(
            seq![
                ("struct_count"@, Obs::shown(model.0)),
                ("enum_count"@, Obs::shown(model.1)),
                ("impl_block_count"@, Obs::shown(model.2)),
                ("pub_fn_count"@, Obs::shown(model.3)),
            ],
        )
    }

    fn collect(file: &Node) -> (metric: Result<Self, CollectError>) {
        let stats = FileStats::of(file);
        Ok(
            Files {
                struct_count: sampled(&single(stats.structs_count)),
                enum_count: sampled(&single(stats.enums_count)),
                impl_block_count: sampled(&single(stats.impls_count)),
                pub_fn_count: sampled(&single(stats.pub_fns_count)),
            },
        )
    }

    fn to_value(&self) -> (value: MetricValue<Sample>) {
        let mut entries: Vec<(String, MetricValue<Sample>)> = Vec::new();
        proof {
            self.struct_count.law_model();
            self.enum_count.law_model();
            self.impl_block_count.law_model();
            self.pub_fn_count.law_model();
        }
        add_entry(&mut entries, "struct_count", self.struct_count.to_value());
        add_entry(&mut entries, "enum_count", self.enum_count.to_value());
        add_entry(&mut entries, "impl_block_count", self.impl_block_count.to_value());
        add_entry(&mut entries, "pub_fn_count", self.pub_fn_count.to_value());
        proof {
            assert(shapes_of(entries@) =~= Self::shown(self.model())->Object_0);
        }
        MetricValue::Object(entries)
    }
}

/// The collector of what each file defines.
pub fn make_collector() -> (collector: MetricCollectorBox)
    ensures
        collector.0 is PerFile,
        collector.name_text() == "per_file"@,
{
    MetricCollectorBox(Collector::PerFile(VisitorCollector::new("per_file")))
}

} // verus!
