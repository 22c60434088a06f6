//! How deeply the blocks of a function nest.

use vstd::prelude::*;
use crate::collector::{CollectError, Family, VisitorCollector};
use crate::measure::{blocks_among, has_block};
use crate::monoid::{Monoid, WellFormed};
use crate::observer::{Observer, Sampler, Unaggregated, grown, observe_all, ready, sampled};
use crate::registry::{Collector, MetricCollectorBox};
use crate::syntax::{ExprKind, ItemKind, Kind, MemberKind, Node};
use crate::value::{MetricValue, Sample, Shape};
use crate::walk::{
    Prune, Visited, blocks_in, inside, is_callable, leaving, lemma_backwards_is_leaving,
    lemma_blocks_bound, nests, visit, visit_under, visited, walk, walk_children, walk_under,
};

verus! {

/// The depth of the deepest block of a walk: how many blocks stand around
/// it, itself counted.
pub open spec fn deepest(visits: Seq<Visited>) -> nat
    decreases visits.len(),
{
    if visits.len() == 0 {
        0
    } else {
        let before = deepest(visits.drop_last());
        let here = if visits.last().node.kind is Block {
            visits.last().enclosing + 1
        } else {
            0
        };
        if here > before {
            here
        } else {
            before
        }
    }
}

/// Whether `node` is a closure whose body is no block: such a body counts as
/// if a block stood around it.
pub open spec fn bare_closure(node: Node) -> bool {
    &&& node.kind matches Kind::Expr(ExprKind::Closure)
    &&& !(node.children@.len() > 0 && node.children@.last().kind matches Kind::Expr(
        ExprKind::Block,
    ))
}

/// Whether the function or closure `node` has a block of its own: a body
/// that is a block, or, for a closure, a body that is no block and counts
/// as if a block stood around it.
pub open spec fn has_own_block(node: Node) -> bool {
    if node.kind matches Kind::Expr(ExprKind::Closure) {
        bare_closure(node) || blocks_among(node.children@.last().children@) > 0
    } else {
        blocks_among(node.children@) > 0
    }
}

/// Whether each function and closure of a walk has a block of its own.
pub open spec fn well_formed(visits: Seq<Visited>) -> bool {
    forall|i: int|
        0 <= i < visits.len() && is_callable((#[trigger] visits[i]).node.kind) ==> has_own_block(
            visits[i].node,
        )
}

/// The depth of the function or closure `node`: that of its deepest block,
/// the blocks of functions and closures inside it left out.
pub open spec fn depth_of(node: Node) -> nat {
    deepest(walk_under(node, Prune::Callables, false)) + if bare_closure(node) {
        1nat
    } else {
        0nat
    }
}

/// The depths of the functions and closures of a walk, in its order.
pub open spec fn depths(visits: Seq<Visited>) -> Seq<usize>
    decreases visits.len(),
{
    if visits.len() == 0 {
        Seq::empty()
    } else if is_callable(visits.last().node.kind) {
        depths(visits.drop_last()).push(depth_of(visits.last().node) as usize)
    } else {
        depths(visits.drop_last())
    }
}

/// The depths of the functions and closures of the tree under `file`, each
/// where a reader leaves it: an inner function comes before the one around
/// it.
pub open spec fn fn_depths(file: Node) -> Seq<usize> {
    depths(leaving(file))
}

proof fn lemma_deepest_step(visits: Seq<Visited>, i: int)
    requires
        nests(visits),
        0 <= i < visits.len(),
    ensures
        visits[i].enclosing <= blocks_in(visits.take(i)),
        blocks_in(visits.take(i + 1)) <= i + 1,
        blocks_in(visits.take(i + 1)) == blocks_in(visits.take(i)) + if visits[i].node.kind is Block {
            1nat
        } else {
            0nat
        },
        deepest(visits.take(i + 1)) == if visits[i].node.kind is Block && visits[i].enclosing + 1
            > deepest(visits.take(i)) {
            visits[i].enclosing + 1
        } else {
            deepest(visits.take(i))
        },
{
    reveal(nests);
    assert(visits.take(i + 1).drop_last() =~= visits.take(i));
    lemma_blocks_bound(visits.take(i + 1));
}

proof fn lemma_blocks_after_other(visits: Seq<Visited>)
    requires
        visits.len() > 0,
        !(visits[0].node.kind is Block),
    ensures
        blocks_in(visits) + 1 <= visits.len(),
    decreases visits.len(),
{
    if visits.len() > 1 {
        assert(visits.drop_last()[0] == visits[0]);
        lemma_blocks_after_other(visits.drop_last());
        lemma_blocks_bound(visits.drop_last());
    } else {
        assert(visits.last() == visits[0]);
        assert(blocks_in(visits.drop_last()) == 0);
    }
}

proof fn lemma_deepest_concat(a: Seq<Visited>, b: Seq<Visited>)
    ensures
        deepest(a + b) >= deepest(a),
        deepest(a + b) >= deepest(b),
    decreases b.len(),
{
    if b.len() == 0 {
        assert(a + b =~= a);
    } else {
        lemma_deepest_concat(a, b.drop_last());
        assert((a + b).drop_last() =~= a + b.drop_last());
    }
}

proof fn lemma_child_is_deep(node: Node, enclosing: nat, upto: nat, at: int)
    requires
        0 <= at < upto <= node.children@.len(),
    ensures
        deepest(walk_children(node, Prune::Callables, false, enclosing, upto)) >= deepest(
            walk(node.children@[at], Prune::Callables, false, enclosing),
        ),
    decreases upto,
{
    let before = walk_children(node, Prune::Callables, false, enclosing, (upto - 1) as nat);
    let child = node.children@[upto - 1];
    let here = walk(child, Prune::Callables, false, enclosing);
    lemma_deepest_concat(before, here);
    if at < upto - 1 {
        lemma_child_is_deep(node, enclosing, (upto - 1) as nat, at);
    }
}

proof fn lemma_block_is_deep(block: Node, enclosing: nat)
    requires
        block.kind is Block,
    ensures
        deepest(walk(block, Prune::Callables, false, enclosing)) >= enclosing + 1,
{
    let first = seq![Visited { node: block, enclosing }];
    assert(first.drop_last() =~= Seq::<Visited>::empty());
    assert(deepest(first.drop_last()) == 0);
    assert(first.last().node.kind is Block);
    assert(deepest(first) == enclosing + 1);
    lemma_deepest_concat(
        first,
        walk_children(
            block,
            Prune::Callables,
            false,
            inside(block, enclosing),
            block.children@.len(),
        ),
    );
}

/// What has a block among its children is of depth one at least.
proof fn lemma_block_child_is_deep(node: Node, enclosing: nat)
    requires
        blocks_among(node.children@) > 0,
    ensures
        deepest(
            walk_children(node, Prune::Callables, false, enclosing, node.children@.len()),
        ) >= 1,
{
    let at = lemma_some_block(node.children@);
    lemma_child_is_deep(node, enclosing, node.children@.len(), at);
    lemma_block_is_deep(node.children@[at], enclosing);
}

proof fn lemma_some_block(nodes: Seq<Node>) -> (at: int)
    requires
        blocks_among(nodes) > 0,
    ensures
        0 <= at < nodes.len(),
        nodes[at].kind is Block,
    decreases nodes.len(),
{
    if nodes.last().kind is Block {
        nodes.len() - 1
    } else {
        lemma_some_block(nodes.drop_last())
    }
}

/// A function or closure that has a block of its own is never of depth
/// zero.
pub proof fn law_depth_positive(node: Node)
    requires
        has_own_block(node),
    ensures
        depth_of(node) >= 1,
{
    let inner = inside(node, 0);
    let below = walk_children(node, Prune::Callables, false, inner, node.children@.len());
    lemma_deepest_concat(seq![Visited { node, enclosing: 0 }], below);
    if bare_closure(node) {
    } else if node.kind matches Kind::Expr(ExprKind::Closure) {
        let body = node.children@.last();
        lemma_child_is_deep(node, inner, node.children@.len(), node.children@.len() - 1);
        lemma_block_child_is_deep(body, inside(body, inner));
        lemma_deepest_concat(
            seq![Visited { node: body, enclosing: inner }],
            walk_children(
                body,
                Prune::Callables,
                false,
                inside(body, inner),
                body.children@.len(),
            ),
        );
    } else {
        lemma_block_child_is_deep(node, inner);
    }
}

/// Whether `node` is a free function, a function of an `impl` block or a
/// closure.
pub fn callable(node: &Node) -> (yes: bool)
    ensures
        yes == is_callable(node.kind),
{
    match &node.kind {
        Kind::Item(ItemKind::Fn { .. }) => true,
        Kind::Member(MemberKind::ImplFn { .. }) => true,
        Kind::Expr(ExprKind::Closure) => true,
        _ => false,
    }
}

/// Whether `node` is a closure whose body is no block.
fn is_bare_closure(node: &Node) -> (yes: bool)
    ensures
        yes == bare_closure(*node),
{
    match &node.kind {
        Kind::Expr(ExprKind::Closure) => {
            let n = node.children.len();
            if n == 0 {
                true
            } else {
                match &node.children[n - 1].kind {
                    Kind::Expr(ExprKind::Block) => false,
                    _ => true,
                }
            }
        },
        _ => false,
    }
}

/// Whether the function or closure `node` has a block of its own.
pub fn owns_block(node: &Node) -> (yes: bool)
    ensures
        yes == has_own_block(*node),
{
    match &node.kind {
        Kind::Expr(ExprKind::Closure) => {
            let n = node.children.len();
            if n == 0 {
                true
            } else {
                match &node.children[n - 1].kind {
                    Kind::Expr(ExprKind::Block) => has_block(&node.children[n - 1]),
                    _ => true,
                }
            }
        },
        _ => has_block(node),
    }
}

/// The depth of the function or closure `node`; it is one at least where
/// the node has a block of its own.
pub fn depth(node: &Node) -> (depth: usize)
    ensures
        depth == depth_of(*node),
        has_own_block(*node) ==> depth >= 1,
{
    proof {
        if has_own_block(*node) {
            law_depth_positive(*node);
        }
    }
    let visits = visit_under(node, Prune::Callables, false);
    let ghost all = visited(visits@);
    let mut deep: usize = 0;
    let mut i: usize = 0;
    while i < visits.len()
        invariant
            i <= visits@.len(),
            all == visited(visits@),
            nests(all),
            deep == deepest(all.take(i as int)),
            deep <= blocks_in(all.take(i as int)),
        decreases visits@.len() - i,
    {
        proof {
            lemma_deepest_step(all, i as int);
            assert(all[i as int] == visits@[i as int]@);
        }
        if let Kind::Block = &visits[i].node.kind {
            let here = visits[i].enclosing + 1;
            if here > deep {
                deep = here;
            }
        }
        i += 1;
    }
    proof {
        assert(all.take(visits@.len() as int) =~= all);
        lemma_blocks_bound(all);
    }
    if is_bare_closure(node) {
        proof {
            lemma_blocks_after_other(all);
        }
        deep + 1
    } else {
        deep
    }
}

/// The depths of the functions and closures of the tree under `file`, each
/// where a reader leaves it; `None` where one of them has no block of its
/// own, so that the tree is not well formed.
pub fn depths_in(file: &Node) -> (found: Option<Vec<usize>>)
    ensures
        found is Some <==> well_formed(leaving(*file)),
        found is Some ==> found->0@ == fn_depths(*file),
{
    let visits = visit(file, Prune::Nothing, true);
    let ghost order = visited(visits@).reverse();
    proof {
        lemma_backwards_is_leaving(*file, 0);
    }
    let n = visits.len();
    let mut found: Vec<usize> = Vec::new();
    let mut i: usize = 0;
    while i < n
        invariant
            i <= n,
            n == visits@.len(),
            order == visited(visits@).reverse(),
            order == leaving(*file),
            well_formed(order.take(i as int)),
            found@ == depths(order.take(i as int)),
        decreases n - i,
    {
        let node = visits[n - 1 - i].node;
        proof {
            assert(order.take(i + 1).drop_last() =~= order.take(i as int));
            assert(order.take(i + 1).last().node == *node);
            assert(order[i as int].node == *node);
        }
        if callable(node) {
            if !owns_block(node) {
                proof {
                    assert(is_callable(order[i as int].node.kind));
                    assert(!has_own_block(order[i as int].node));
                }
                return None;
            }
            found.push(depth(node));
        }
        proof {
            assert forall|k: int|
                0 <= k < i + 1 && is_callable(
                    (#[trigger] order.take(i + 1)[k]).node.kind,
                ) implies has_own_block(order.take(i + 1)[k].node) by {
                if k < i {
                    assert(order.take(i as int)[k] == order.take(i + 1)[k]);
                }
            }
        }
        i += 1;
    }
    proof {
        assert(order.take(n as int) =~= order);
    }
    Some(found)
}

/// The depths of the functions of a corpus.
pub struct VisitorAvgMethodDepth<Obs = Unaggregated> {
    /// The depth of each function and closure.
    pub observer: Obs,
}

impl<Obs: WellFormed> WellFormed for VisitorAvgMethodDepth<Obs> {
    open spec fn wf(&self) -> bool {
        self.observer.wf()
    }
}

impl<Obs: Observer> VisitorAvgMethodDepth<Obs> {
    /// Records the depths of the functions and closures of the tree under
    /// `file`.
    pub fn visit_file(&mut self, file: &Node)
        requires
            old(self).wf(),
            well_formed(leaving(*file)),
            ready(&old(self).observer, fn_depths(*file)),
        ensures
            final(self).wf(),
            grown(&old(self).observer, &final(self).observer, fn_depths(*file)),
    {
        match depths_in(file) {
            Some(found) => {
                observe_all(&mut self.observer, &found);
            },
            None => {},
        }
    }
}

impl<T: Monoid> Monoid for VisitorAvgMethodDepth<T> {
    type Model = (T::Model,);

    open spec fn model(&self) -> Self::Model {
        (self.observer.model(),)
    }

    open spec fn init_model() -> Self::Model {
        (T::init_model(),)
    }

    open spec fn unite_model(a: Self::Model, b: Self::Model) -> Self::Model {
        (T::unite_model(a.0, b.0),)
    }

    open spec fn fits(a: Self::Model, b: Self::Model) -> bool {
        &&& T::fits(a.0, b.0)
    }

    open spec fn alike(a: Self::Model, b: Self::Model) -> bool {
        &&& T::alike(a.0, b.0)
    }

    fn init() -> (id: Self) {
        VisitorAvgMethodDepth { observer: T::init() }
    }

    fn unite(self, rhs: Self) -> (both: Self) {
        VisitorAvgMethodDepth { observer: self.observer.unite(rhs.observer) }
    }

    proof fn law_identity(a: Self::Model) {
        T::law_identity(a.0);
    }

    proof fn law_associative(a: Self::Model, b: Self::Model, c: Self::Model) {
        T::law_associative(a.0, b.0, c.0);
    }

    proof fn law_commutative(a: Self::Model, b: Self::Model) {
        T::law_commutative(a.0, b.0);
    }
}

impl<Obs: Sampler> Family for VisitorAvgMethodDepth<Obs> {
    open spec fn reason() -> CollectError {
        CollectError::Malformed
    }

    open spec fn suits(file: Node) -> bool {
        well_formed(leaving(file))
    }

    open spec fn measured(file: Node) -> Self::Model {
        (fn_depths(file),)
    }

    open spec fn shown(model: Self::Model) -> Shape {
        Obs::shown(model.0)
    }

    fn collect(file: &Node) -> (metric: Result<Self, CollectError>) {
        match depths_in(file) {
            Some(found) => Ok(VisitorAvgMethodDepth { observer: sampled(&found) }),
            None => Err(CollectError::Malformed),
        }
    }

    fn to_value(&self) -> (value: MetricValue<Sample>) {
        proof {
            self.observer.law_model();
        }
        self.observer.to_value()
    }
}

/// The collector of the depth of functions.
pub fn make_collector() -> (collector: MetricCollectorBox)
    ensures
        collector.0 is FnDepth,
        collector.name_text() == "fn_depth"@,
{
    MetricCollectorBox(Collector::FnDepth(VisitorCollector::new("fn_depth")))
}

} // verus!
