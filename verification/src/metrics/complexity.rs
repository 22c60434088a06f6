//! The cognitive complexity of each function of a corpus.

use vstd::prelude::*;
use crate::collector::{CollectError, Family, VisitorCollector};
use crate::complexity::{Scope, State, checked_eval, score};
use crate::monoid::{Monoid, WellFormed};
use crate::observer::{Observer, Sampler, Unaggregated, grown, observe_all, ready, sampled};
use crate::registry::{Collector, MetricCollectorBox};
use crate::syntax::{ExprKind, ItemKind, Kind, MemberKind, Node};
use crate::value::{MetricValue, Sample, Shape, add_entry, shapes_of};
use crate::walk::{Prune, Visited, entering, is_callable, visit, visited};

verus! {

/// The functions that a column of scores takes.
#[derive(Clone, Copy, Debug, PartialEq, Eq, Structural)]
pub enum Callable {
    /// Free functions.
    ItemFn,
    /// Functions of `impl` blocks.
    ImplFn,
    /// Closures.
    Closure,
    /// All of these.
    Any,
}

/// Whether the column `which` takes a node of kind `kind`.
pub open spec fn takes(which: Callable, kind: Kind) -> bool {
    match which {
        Callable::ItemFn => kind matches Kind::Item(ItemKind::Fn { .. }),
        Callable::ImplFn => kind matches Kind::Member(MemberKind::ImplFn { .. }),
        Callable::Closure => kind matches Kind::Expr(ExprKind::Closure),
        Callable::Any => is_callable(kind),
    }
}

/// The scope at the top of a body: no nesting, no operator met.
pub open spec fn top() -> Scope {
    Scope { nesting: 0, prev: None }
}

/// The cognitive complexity of the function or closure `node`: the score of
/// its body, which is its last child, taken by itself.
pub open spec fn unit_score(node: Node) -> nat {
    if node.children@.len() > 0 {
        score(node.children@.last(), top())
    } else {
        0
    }
}

/// Whether the score of each function and closure of a walk is small enough
/// to be held.
pub open spec fn all_scorable(visits: Seq<Visited>) -> bool {
    forall|i: int|
        0 <= i < visits.len() && is_callable((#[trigger] visits[i]).node.kind) ==> unit_score(
            visits[i].node,
        ) <= u32::MAX
}

/// The scores of the functions and closures of a walk that the column
/// `which` takes, in the order of the walk.
pub open spec fn scores(which: Callable, visits: Seq<Visited>) -> Seq<usize>
    decreases visits.len(),
{
    if visits.len() == 0 {
        Seq::empty()
    } else if takes(which, visits.last().node.kind) {
        scores(which, visits.drop_last()).push(unit_score(visits.last().node) as usize)
    } else {
        scores(which, visits.drop_last())
    }
}

/// The scores of the functions and closures of the tree under `file` that
/// the column `which` takes, each where a reader meets it.
pub open spec fn scores_of(which: Callable, file: Node) -> Seq<usize> {
    scores(which, entering(file))
}

/// The scores of the functions and closures of a file, by column.
pub struct Scores {
    pub item_fn: Vec<usize>,
    pub impl_item_fn: Vec<usize>,
    pub closure: Vec<usize>,
    pub all_fn: Vec<usize>,
}

/// The cognitive complexity of the function or closure `node`; `None` where
/// it is too large for a score.
pub fn unit(node: &Node) -> (value: Option<u32>)
    ensures
        match value {
            Some(v) => v == unit_score(*node),
            None => unit_score(*node) > u32::MAX,
        },
{
    let n = node.children.len();
    if n == 0 {
        Some(0)
    } else {
        match checked_eval(&node.children[n - 1], State::new()) {
            Some(index) => Some(index.0),
            None => None,
        }
    }
}

/// The scores of the functions and closures of the tree under `file`, by
/// column; `None` where one of them is too large for a score.
pub fn scores_in(file: &Node) -> (found: Option<Scores>)
    ensures
        found is Some <==> all_scorable(entering(*file)),
        found is Some ==> {
            &&& found->0.item_fn@ == scores_of(Callable::ItemFn, *file)
            &&& found->0.impl_item_fn@ == scores_of(Callable::ImplFn, *file)
            &&& found->0.closure@ == scores_of(Callable::Closure, *file)
            &&& found->0.all_fn@ == scores_of(Callable::Any, *file)
        },
{
    let visits = visit(file, Prune::Nothing, false);
    let ghost all = visited(visits@);
    let mut item_fn: Vec<usize> = Vec::new();
    let mut impl_item_fn: Vec<usize> = Vec::new();
    let mut closure: Vec<usize> = Vec::new();
    let mut all_fn: Vec<usize> = Vec::new();
    let mut i: usize = 0;
    while i < visits.len()
        invariant
            i <= visits@.len(),
            all == visited(visits@),
            all == entering(*file),
            all_scorable(all.take(i as int)),
            item_fn@ == scores(Callable::ItemFn, all.take(i as int)),
            impl_item_fn@ == scores(Callable::ImplFn, all.take(i as int)),
            closure@ == scores(Callable::Closure, all.take(i as int)),
            all_fn@ == scores(Callable::Any, all.take(i as int)),
        decreases visits@.len() - i,
    {
        let node = visits[i].node;
        proof {
            assert(all.take(i + 1).drop_last() =~= all.take(i as int));
            assert(all.take(i + 1).last().node == *node);
        }
        let which = match &node.kind {
            Kind::Item(ItemKind::Fn { .. }) => Some(Callable::ItemFn),
            Kind::Member(MemberKind::ImplFn { .. }) => Some(Callable::ImplFn),
            Kind::Expr(ExprKind::Closure) => Some(Callable::Closure),
            _ => None,
        };
        match which {
            Some(which) => {
                let value = match unit(node) {
                    Some(value) => value as usize,
                    None => {
                        proof {
                            let at = all[i as int];
                            assert(at.node == *node);
                            assert(is_callable(at.node.kind));
                            assert(unit_score(at.node) > u32::MAX);
                            assert(!all_scorable(all));
                        }
                        return None;
                    },
                };
                match which {
                    Callable::ItemFn => item_fn.push(value),
                    Callable::ImplFn => impl_item_fn.push(value),
                    _ => closure.push(value),
                }
                all_fn.push(value);
            },
            None => {},
        }
        proof {
            assert forall|k: int|
                0 <= k < i + 1 && is_callable((#[trigger] all.take(i + 1)[k]).node.kind) implies unit_score(
                all.take(i + 1)[k].node,
            ) <= u32::MAX by {
                if k < i {
                    assert(all.take(i as int)[k] == all.take(i + 1)[k]);
                }
            }
        }
        i += 1;
    }
    proof {
        assert(all.take(visits@.len() as int) =~= all);
    }
    Some(Scores { item_fn, impl_item_fn, closure, all_fn })
}

/// The cognitive complexity of the functions of a corpus.
pub struct ComplexityStats<Obs = Unaggregated> {
    /// The score of each free function.
    pub item_fn: Obs,
    /// The score of each function of an `impl` block.
    pub impl_item_fn: Obs,
    /// The score of each closure.
    pub closure: Obs,
    /// The score of each of these.
    pub all_fn: Obs,
}

impl<Obs: WellFormed> WellFormed for ComplexityStats<Obs> {
    open spec fn wf(&self) -> bool {
        &&& self.item_fn.wf()
        &&& self.impl_item_fn.wf()
        &&& self.closure.wf()
        &&& self.all_fn.wf()
    }
}

impl<Obs: Observer> ComplexityStats<Obs> {
    /// Records the score of each function and closure of the tree under
    /// `file`, each where a reader meets it.
    pub fn visit_file(&mut self, file: &Node)
        requires
            old(self).wf(),
            all_scorable(entering(*file)),
            ready(&old(self).item_fn, scores_of(Callable::ItemFn, *file)),
            ready(&old(self).impl_item_fn, scores_of(Callable::ImplFn, *file)),
            ready(&old(self).closure, scores_of(Callable::Closure, *file)),
            ready(&old(self).all_fn, scores_of(Callable::Any, *file)),
        ensures
            final(self).wf(),
            grown(&old(self).item_fn, &final(self).item_fn, scores_of(Callable::ItemFn, *file)),
            grown(
                &old(self).impl_item_fn,
                &final(self).impl_item_fn,
                scores_of(Callable::ImplFn, *file),
            ),
            grown(&old(self).closure, &final(self).closure, scores_of(Callable::Closure, *file)),
            grown(&old(self).all_fn, &final(self).all_fn, scores_of(Callable::Any, *file)),
    {
        match scores_in(file) {
            Some(found) => {
                self.record(&found);
            },
            None => {},
        }
    }

    /// Records the scores of one file.
    pub fn record(&mut self, found: &Scores)
        requires
            old(self).wf(),
            ready(&old(self).item_fn, found.item_fn@),
            ready(&old(self).impl_item_fn, found.impl_item_fn@),
            ready(&old(self).closure, found.closure@),
            ready(&old(self).all_fn, found.all_fn@),
        ensures
            final(self).wf(),
            grown(&old(self).item_fn, &final(self).item_fn, found.item_fn@),
            grown(&old(self).impl_item_fn, &final(self).impl_item_fn, found.impl_item_fn@),
            grown(&old(self).closure, &final(self).closure, found.closure@),
            grown(&old(self).all_fn, &final(self).all_fn, found.all_fn@),
    {
        observe_all(&mut self.item_fn, &found.item_fn);
        observe_all(&mut self.impl_item_fn, &found.impl_item_fn);
        observe_all(&mut self.closure, &found.closure);
        observe_all(&mut self.all_fn, &found.all_fn);
    }
}

impl<T: Monoid> Monoid for ComplexityStats<T> {
    type Model = (T::Model, T::Model, T::Model, T::Model);

    open spec fn model(&self) -> Self::Model {
        (self.item_fn.model(), self.impl_item_fn.model(), self.closure.model(), self.all_fn.model())
    }

    open spec fn init_model() -> Self::Model {
        (T::init_model(), T::init_model(), T::init_model(), T::init_model())
    }

    open spec fn unite_model(a: Self::Model, b: Self::Model) -> Self::Model {
        (
            T::unite_model(a.0, b.0),
            T::unite_model(a.1, b.1),
            T::unite_model(a.2, b.2),
            T::unite_model(a.3, b.3),
        )
    }

    open spec fn fits(a: Self::Model, b: Self::Model) -> bool {
        &&& T::fits(a.0, b.0)
        &&& T::fits(a.1, b.1)
        &&& T::fits(a.2, b.2)
        &&& T::fits(a.3, b.3)
    }

    open spec fn alike(a: Self::Model, b: Self::Model) -> bool {
        &&& T::alike(a.0, b.0)
        &&& T::alike(a.1, b.1)
        &&& T::alike(a.2, b.2)
        &&& T::alike(a.3, b.3)
    }

    fn init() -> (id: Self) {
        ComplexityStats {
            item_fn: T::init(),
            impl_item_fn: T::init(),
            closure: T::init(),
            all_fn: T::init(),
        }
    }

    fn unite(self, rhs: Self) -> (both: Self) {
        ComplexityStats {
            item_fn: self.item_fn.unite(rhs.item_fn),
            impl_item_fn: self.impl_item_fn.unite(rhs.impl_item_fn),
            closure: self.closure.unite(rhs.closure),
            all_fn: self.all_fn.unite(rhs.all_fn),
        }
    }

    proof fn law_identity(a: Self::Model) {
        T::law_identity(a.0);
        T::law_identity(a.1);
        T::law_identity(a.2);
        T::law_identity(a.3);
    }

    proof fn law_associative(a: Self::Model, b: Self::Model, c: Self::Model) {
        T::law_associative(a.0, b.0, c.0);
        T::law_associative(a.1, b.1, c.1);
        T::law_associative(a.2, b.2, c.2);
        T::law_associative(a.3, b.3, c.3);
    }

    proof fn law_commutative(a: Self::Model, b: Self::Model) {
        T::law_commutative(a.0, b.0);
        T::law_commutative(a.1, b.1);
        T::law_commutative(a.2, b.2);
        T::law_commutative(a.3, b.3);
    }
}

impl<Obs: Sampler> Family for ComplexityStats<Obs> {
    open spec fn reason() -> CollectError {
        CollectError::TooLarge
    }

    open spec fn suits(file: Node) -> bool {
        all_scorable(entering(file))
    }

    open spec fn measured(file: Node) -> Self::Model {
        (
            scores_of(Callable::ItemFn, file),
            scores_of(Callable::ImplFn, file),
            scores_of(Callable::Closure, file),
            scores_of(Callable::Any, file),
        )
    }

    open spec fn shown(model: Self::Model) -> Shape {
        Shape::Object(
            seq![
                ("item_fn"@, Obs::shown(model.0)),
                ("impl_item_fn"@, Obs::shown(model.1)),
                ("closure"@, Obs::shown(model.2)),
                ("all_fn"@, Obs::shown(model.3)),
            ],
        )
    }

    fn collect(file: &Node) -> (metric: Result<Self, CollectError>) {
        match scores_in(file) {
            Some(found) => Ok(
                ComplexityStats {
                    item_fn: sampled(&found.item_fn),
                    impl_item_fn: sampled(&found.impl_item_fn),
                    closure: sampled(&found.closure),
                    all_fn: sampled(&found.all_fn),
                },
            ),
            None => Err(CollectError::TooLarge),
        }
    }

    fn to_value(&self) -> (value: MetricValue<Sample>) {
        let mut entries: Vec<(String, MetricValue<Sample>)> = Vec::new();
        proof {
            self.item_fn.law_model();
            self.impl_item_fn.law_model();
            self.closure.law_model();
            self.all_fn.law_model();
        }
        add_entry(&mut entries, "item_fn", self.item_fn.to_value());
        add_entry(&mut entries, "impl_item_fn", self.impl_item_fn.to_value());
        add_entry(&mut entries, "closure", self.closure.to_value());
        add_entry(&mut entries, "all_fn", self.all_fn.to_value());
        proof {
            assert(shapes_of(entries@) =~= Self::shown(self.model())->Object_0);
        }
        MetricValue::Object(entries)
    }
}

/// The collector of the cognitive complexity of functions.
pub fn make_collector() -> (collector: MetricCollectorBox)
    ensures
        collector.0 is Complexity,
        collector.name_text() == "complexity"@,
{
    MetricCollectorBox(Collector::Complexity(VisitorCollector::new("complexity")))
}

} // verus!
