//! Aggregates that can be merged: an identity element and an associative
//! combine, so that partial results fold together in any grouping.

use vstd::prelude::*;

verus! {

/// A value with an internal invariant.
pub trait WellFormed {
    /// The invariant that constructors establish and methods keep.
    spec fn wf(&self) -> bool;
}

/// An aggregate with an identity and an associative combine.
///
/// Contracts speak of an aggregate through its `Model`. Two models that are
/// `alike` hold the same observations, possibly in another order.
pub trait Monoid: WellFormed + Sized {
    /// What an aggregate stands for.
    type Model;

    /// The model of this aggregate.
    spec fn model(&self) -> Self::Model;

    /// The model of the identity.
    spec fn init_model() -> Self::Model;

    /// The model of the combination of two aggregates.
    spec fn unite_model(a: Self::Model, b: Self::Model) -> Self::Model;

    /// Whether two aggregates are small enough to be combined.
    spec fn fits(a: Self::Model, b: Self::Model) -> bool;

    /// Equality up to the order in which observations were made.
    spec fn alike(a: Self::Model, b: Self::Model) -> bool;

    /// The identity element.
    fn init() -> (id: Self)
        ensures
            id.wf(),
            id.model() == Self::init_model(),
    ;

    /// Combines two aggregates.
    fn unite(self, rhs: Self) -> (both: Self)
        requires
            self.wf(),
            rhs.wf(),
            Self::fits(self.model(), rhs.model()),
        ensures
            both.wf(),
            both.model() == Self::unite_model(self.model(), rhs.model()),
    ;

    /// The identity, combined on either side, changes nothing.
    proof fn law_identity(a: Self::Model)
        ensures
            Self::unite_model(Self::init_model(), a) == a,
            Self::unite_model(a, Self::init_model()) == a,
    ;

    /// Combining is associative, and so is the room it needs.
    proof fn law_associative(a: Self::Model, b: Self::Model, c: Self::Model)
        ensures
            Self::unite_model(Self::unite_model(a, b), c) == Self::unite_model(
                a,
                Self::unite_model(b, c),
            ),
            (Self::fits(a, b) && Self::fits(Self::unite_model(a, b), c)) <==> (Self::fits(b, c)
                && Self::fits(a, Self::unite_model(b, c))),
    ;

    /// Combining in either order gives aggregates that are alike.
    proof fn law_commutative(a: Self::Model, b: Self::Model)
        ensures
            Self::fits(a, b) <==> Self::fits(b, a),
            Self::alike(Self::unite_model(a, b), Self::unite_model(b, a)),
    ;
}

/// The model of the left fold of `models` from the identity.
pub open spec fn reduce_model<M: Monoid>(models: Seq<M::Model>) -> M::Model
    decreases models.len(),
{
    if models.len() == 0 {
        M::init_model()
    } else {
        M::unite_model(reduce_model::<M>(models.drop_last()), models.last())
    }
}

/// Whether every step of the left fold of `models` has room.
pub open spec fn reducible<M: Monoid>(models: Seq<M::Model>) -> bool
    decreases models.len(),
{
    models.len() > 0 ==> reducible::<M>(models.drop_last()) && M::fits(
        reduce_model::<M>(models.drop_last()),
        models.last(),
    )
}

/// The models of a run of aggregates.
pub open spec fn models_of<M: Monoid>(items: Seq<M>) -> Seq<M::Model> {
    Seq::new(items.len(), |i: int| items[i].model())
}

/// Whether each aggregate of a run keeps its invariant.
pub open spec fn all_wf<M: Monoid>(items: Seq<M>) -> bool {
    forall|i: int| 0 <= i < items.len() ==> (#[trigger] items[i]).wf()
}

/// Folds a run of aggregates from the identity, left to right.
pub fn reduce<M: Monoid>(items: Vec<M>) -> (total: M)
    requires
        all_wf(items@),
        reducible::<M>(models_of(items@)),
    ensures
        total.wf(),
        total.model() == reduce_model::<M>(models_of(items@)),
{
    let ghost all = items@;
    let mut total = M::init();
    for item in iter: items
        invariant
            iter.seq() == all,
            all_wf(all),
            reducible::<M>(models_of(all)),
            total.wf(),
            total.model() == reduce_model::<M>(models_of(all).take(iter.index() as int)),
    {
        proof {
            let done = iter.index() as int;
            assert(item == all[done]);
            lemma_reducible_prefix::<M>(models_of(all), done + 1);
            assert(models_of(all).take(done + 1).drop_last() =~= models_of(all).take(done));
            assert(models_of(all).take(done + 1).last() == all[done].model());
        }
        total = total.unite(item);
    }
    proof {
        assert(models_of(all).take(all.len() as int) =~= models_of(all));
    }
    total
}

/// A prefix of a foldable run is foldable.
pub proof fn lemma_reducible_prefix<M: Monoid>(models: Seq<M::Model>, n: int)
    requires
        reducible::<M>(models),
        0 <= n <= models.len(),
    ensures
        reducible::<M>(models.take(n)),
    decreases models.len(),
{
    if n < models.len() {
        lemma_reducible_prefix::<M>(models.drop_last(), n);
        assert(models.drop_last().take(n) =~= models.take(n));
    } else {
        assert(models.take(n) =~= models);
    }
}

/// Folding two runs apart and combining the results gives what folding them
/// as one run gives: a reduction may be split at any point.
pub proof fn law_reduce_split<M: Monoid>(left: Seq<M::Model>, right: Seq<M::Model>)
    requires
        reducible::<M>(left),
        reducible::<M>(right),
        M::fits(reduce_model::<M>(left), reduce_model::<M>(right)),
    ensures
        reducible::<M>(left + right),
        reduce_model::<M>(left + right) == M::unite_model(
            reduce_model::<M>(left),
            reduce_model::<M>(right),
        ),
    decreases right.len(),
{
    if right.len() == 0 {
        assert(left + right =~= left);
        M::law_identity(reduce_model::<M>(left));
    } else {
        let head = right.drop_last();
        let last = right.last();
        M::law_associative(reduce_model::<M>(left), reduce_model::<M>(head), last);
        law_reduce_split::<M>(left, head);
        assert((left + right).drop_last() =~= left + head);
        assert((left + right).last() == last);
    }
}

/// Aggregates of a kind of which any two can be combined can be folded,
/// however many there are.
pub proof fn lemma_always_reducible<M: Monoid>(models: Seq<M::Model>)
    requires
        forall|a: M::Model, b: M::Model| #[trigger] M::fits(a, b),
    ensures
        reducible::<M>(models),
    decreases models.len(),
{
    if models.len() > 0 {
        lemma_always_reducible::<M>(models.drop_last());
    }
}

} // verus!
