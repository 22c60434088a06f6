//! Strategies for recording a stream of observations.

use vstd::prelude::*;
use crate::monoid::{Monoid, WellFormed};
use crate::value::{MetricValue, Sample, Shape, shape_of};

pub mod histogram;
pub mod unaggregated;

pub use histogram::{Hist, HistSummary, Ratio};
pub use unaggregated::Unaggregated;

verus! {

/// Something that records observations of type `T`, one at a time.
pub trait Observer<T = usize>: WellFormed {
    /// Everything observed so far, oldest first.
    spec fn observations(&self) -> Seq<T>;

    /// Whether an observer of this kind that holds `count` observations can
    /// take one more.
    spec fn room(count: nat) -> bool;

    /// Records one observation.
    fn observe(&mut self, value: T)
        requires
            old(self).wf(),
            Self::room(old(self).observations().len()),
        ensures
            final(self).wf(),
            final(self).observations() == old(self).observations().push(value),
    ;

    /// The number of observations made.
    fn count(&self) -> (n: usize)
        requires
            self.wf(),
        ensures
            n == self.observations().len(),
    ;
}


/// Whether an observer of kind `O` that holds `count` observations can take
/// `more` more.
pub open spec fn room_for<T, O: Observer<T>>(count: nat, more: nat) -> bool {
    forall|k: nat| count <= k < count + more ==> #[trigger] O::room(k)
}

/// Records each of `values`, in their order.
pub fn observe_all<O: Observer>(observer: &mut O, values: &Vec<usize>)
    requires
        old(observer).wf(),
        room_for::<usize, O>(old(observer).observations().len(), values@.len()),
    ensures
        final(observer).wf(),
        final(observer).observations() == old(observer).observations() + values@,
{
    let ghost before = observer.observations();
    let mut i: usize = 0;
    proof {
        assert(before + values@.take(0) =~= before);
    }
    while i < values.len()
        invariant
            i <= values@.len(),
            observer.wf(),
            observer.observations() == before + values@.take(i as int),
            room_for::<usize, O>(before.len(), values@.len()),
        decreases values@.len() - i,
    {
        proof {
            assert(O::room((before.len() + i) as nat));
            assert(before + values@.take(i + 1) =~= (before + values@.take(i as int)).push(
                values@[i as int],
            ));
        }
        observer.observe(values[i]);
        i += 1;
    }
    proof {
        assert(values@.take(values@.len() as int) =~= values@);
    }
}


/// Whether `observer` is ready to take each of `more`.
pub open spec fn ready<O: Observer>(observer: &O, more: Seq<usize>) -> bool {
    &&& observer.wf()
    &&& room_for::<usize, O>(observer.observations().len(), more.len())
}

/// Whether `after` holds what `before` held, and then `more`.
pub open spec fn grown<O: Observer>(before: &O, after: &O, more: Seq<usize>) -> bool {
    &&& after.wf()
    &&& after.observations() == before.observations() + more
}


/// An observer of numbers whose aggregate is the run of its observations,
/// and which can be reported.
pub trait Sampler: Observer + Monoid<Model = Seq<usize>> {
    /// What an observer that holds `samples` is reported as.
    spec fn shown(samples: Seq<usize>) -> Shape;

    /// The aggregate of an observer is the run of its observations.
    proof fn law_model(&self)
        requires
            self.wf(),
        ensures
            self.model() == self.observations(),
    ;

    /// Combining two observers puts their observations one after the other,
    /// and the identity holds none.
    proof fn law_concat(a: Seq<usize>, b: Seq<usize>)
        ensures
            Self::unite_model(a, b) == a + b,
            Self::init_model() == Seq::<usize>::empty(),
    ;

    /// An observer that holds fewer observations than can be counted has
    /// room for one more.
    proof fn law_room(count: nat)
        requires
            count < usize::MAX,
        ensures
            Self::room(count),
    ;

    /// The value that this observer is reported as.
    fn to_value(&self) -> (value: MetricValue<Sample>)
        requires
            self.wf(),
        ensures
            shape_of(value) == Self::shown(self.observations()),
    ;
}

/// An observer that holds `values`, and nothing else.
pub fn sampled<O: Sampler>(values: &Vec<usize>) -> (observer: O)
    ensures
        observer.wf(),
        observer.observations() == values@,
        observer.model() == values@,
{
    let mut observer = O::init();
    let n = values.len();
    proof {
        observer.law_model();
        O::law_concat(Seq::empty(), Seq::empty());
        assert forall|k: nat| 0 <= k < 0 + values@.len() implies #[trigger] O::room(k) by {
            O::law_room(k);
        }
        assert(Seq::<usize>::empty() + values@ =~= values@);
    }
    observe_all(&mut observer, values);
    proof {
        observer.law_model();
    }
    observer
}

} // verus!
