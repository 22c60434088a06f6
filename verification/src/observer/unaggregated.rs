//! The observer that keeps every raw observation.

use vstd::prelude::*;
use crate::monoid::{Monoid, WellFormed};
use crate::observer::{Observer, Sampler};
use crate::value::{MetricValue, Sample, SampleModel, Shape, samples};

verus! {

/// Every observation, in the order in which it was made.
#[derive(Clone, Debug)]
pub struct Unaggregated<T = usize> {
    observations: Vec<T>,
}

impl<T> View for Unaggregated<T> {
    type V = Seq<T>;

    closed spec fn view(&self) -> Seq<T> {
        self.observations@
    }
}

impl<T> Unaggregated<T> {
    /// Records one observation.
    pub fn observe(&mut self, val: T)
        ensures
            final(self)@ == old(self)@.push(val),
    {
        self.observations.push(val);
    }

    /// The observations, oldest first.
    pub fn values(&self) -> (values: &Vec<T>)
        ensures
            values@ == self@,
    {
        &self.observations
    }
}

impl<T> Default for Unaggregated<T> {
    fn default() -> (empty: Self)
        ensures
            empty@ == Seq::<T>::empty(),
    {
        Unaggregated { observations: Vec::new() }
    }
}

impl<T> WellFormed for Unaggregated<T> {
    open spec fn wf(&self) -> bool {
        true
    }
}

impl<T> Observer<T> for Unaggregated<T> {
    open spec fn observations(&self) -> Seq<T> {
        self@
    }

    open spec fn room(count: nat) -> bool {
        true
    }

    fn observe(&mut self, value: T) {
        Unaggregated::observe(self, value);
    }

    fn count(&self) -> (n: usize) {
        self.observations.len()
    }
}

impl<T> Monoid for Unaggregated<T> {
    type Model = Seq<T>;

    open spec fn model(&self) -> Seq<T> {
        self@
    }

    open spec fn init_model() -> Seq<T> {
        Seq::empty()
    }

    open spec fn unite_model(a: Seq<T>, b: Seq<T>) -> Seq<T> {
        a + b
    }

    open spec fn fits(a: Seq<T>, b: Seq<T>) -> bool {
        true
    }

    open spec fn alike(a: Seq<T>, b: Seq<T>) -> bool {
        a.to_multiset() == b.to_multiset()
    }

    fn init() -> (id: Self) {
        Unaggregated { observations: Vec::new() }
    }

    fn unite(self, rhs: Self) -> (both: Self) {
        let mut combined = self.observations;
        let mut rest = rhs.observations;
        combined.append(&mut rest);
        Unaggregated { observations: combined }
    }

    proof fn law_identity(a: Seq<T>) {
        assert(Seq::<T>::empty() + a =~= a);
        assert(a + Seq::<T>::empty() =~= a);
    }

    proof fn law_associative(a: Seq<T>, b: Seq<T>, c: Seq<T>) {
        assert((a + b) + c =~= a + (b + c));
    }

    proof fn law_commutative(a: Seq<T>, b: Seq<T>) {
        vstd::seq_lib::lemma_seq_union_to_multiset_commutative(a, b);
    }
}

impl Sampler for Unaggregated<usize> {
    /// The raw observations, as they were made.
    open spec fn shown(samples: Seq<usize>) -> Shape {
        Shape::Leaf(SampleModel::Samples(samples))
    }

    proof fn law_model(&self) {
    }

    proof fn law_concat(a: Seq<usize>, b: Seq<usize>) {
    }

    proof fn law_room(count: nat) {
    }

    fn to_value(&self) -> (value: MetricValue<Sample>) {
        samples(&self.observations)
    }
}

} // verus!
