//! Walking a syntax tree: the nodes of a tree in the order in which a reader
//! meets them, as a list that the metrics then go through.

use vstd::prelude::*;
use crate::syntax::{ExprKind, ItemKind, Kind, MemberKind, Node, size, size_all};

verus! {

/// Where a walk stops: it visits a node of these kinds and leaves out what is
/// under it.
#[derive(Clone, Copy, Debug, PartialEq, Eq, Structural)]
pub enum Prune {
    /// Nowhere.
    Nothing,
    /// At structs, enums, `impl` blocks and free functions.
    Definitions,
    /// At `impl` blocks.
    Impls,
    /// At free functions, functions of `impl` blocks and closures.
    Callables,
    /// At statements.
    Statements,
}

/// Whether a node of kind `kind` is a free function, a function of an `impl`
/// block or a closure.
pub open spec fn is_callable(kind: Kind) -> bool {
    kind matches Kind::Item(ItemKind::Fn { .. }) || kind matches Kind::Member(
        MemberKind::ImplFn { .. },
    ) || kind matches Kind::Expr(ExprKind::Closure)
}

/// Whether a walk that prunes by `prune` stops at a node of kind `kind`.
pub open spec fn stops(prune: Prune, kind: Kind) -> bool {
    match prune {
        Prune::Nothing => false,
        Prune::Definitions => kind matches Kind::Item(ItemKind::Struct { .. })
            || kind matches Kind::Item(ItemKind::Enum { .. }) || kind matches Kind::Item(
            ItemKind::Impl,
        ) || kind matches Kind::Item(ItemKind::Fn { .. }),
        Prune::Impls => kind matches Kind::Item(ItemKind::Impl),
        Prune::Callables => is_callable(kind),
        Prune::Statements => kind is Stmt,
    }
}

/// A node as a walk met it.
pub struct Visited {
    pub node: Node,
    /// How many blocks of the walk enclose the node.
    pub enclosing: nat,
}

/// The index of the child that a walk visits in place `place` among `count`.
pub open spec fn child_at(backwards: bool, count: nat, place: int) -> int {
    if backwards {
        count - 1 - place
    } else {
        place
    }
}

/// How many blocks enclose the children of `node`, where `enclosing` blocks
/// enclose `node`.
pub open spec fn inside(node: Node, enclosing: nat) -> nat {
    if node.kind is Block {
        enclosing + 1
    } else {
        enclosing
    }
}

/// The walk of the tree under `node`: the node, then the walks of its
/// children, last child first where `backwards`.
pub open spec fn walk(node: Node, prune: Prune, backwards: bool, enclosing: nat) -> Seq<Visited>
    decreases node, 1nat, 0nat,
{
    seq![Visited { node, enclosing }] + if stops(prune, node.kind) {
        Seq::empty()
    } else {
        walk_children(node, prune, backwards, inside(node, enclosing), node.children@.len())
    }
}

/// The walks of the first `upto` children that a walk of `node` visits, where
/// `enclosing` blocks enclose them.
pub open spec fn walk_children(
    node: Node,
    prune: Prune,
    backwards: bool,
    enclosing: nat,
    upto: nat,
) -> Seq<Visited>
    decreases node, 0nat, upto,
{
    if upto == 0 || upto > node.children@.len() {
        Seq::empty()
    } else {
        walk_children(node, prune, backwards, enclosing, (upto - 1) as nat) + walk(
            node.children@[child_at(backwards, node.children@.len(), upto - 1)],
            prune,
            backwards,
            enclosing,
        )
    }
}

/// The walk of the tree under `root` that does not stop at `root`, whatever
/// its kind.
pub open spec fn walk_under(root: Node, prune: Prune, backwards: bool) -> Seq<Visited> {
    seq![Visited { node: root, enclosing: 0 }] + walk_children(
        root,
        prune,
        backwards,
        inside(root, 0),
        root.children@.len(),
    )
}

/// How many nodes of a walk are blocks.
pub open spec fn blocks_in(visits: Seq<Visited>) -> nat
    decreases visits.len(),
{
    if visits.len() == 0 {
        0
    } else {
        blocks_in(visits.drop_last()) + if visits.last().node.kind is Block {
            1nat
        } else {
            0nat
        }
    }
}

/// Whether each node of a walk has no more blocks around it than the walk
/// met before it.
#[verifier::opaque]
pub open spec fn nests(visits: Seq<Visited>) -> bool {
    forall|i: int|
        0 <= i < visits.len() ==> (#[trigger] visits[i]).enclosing <= blocks_in(visits.take(i))
}

/// A walk holds no more blocks than nodes.
pub proof fn lemma_blocks_bound(visits: Seq<Visited>)
    ensures
        blocks_in(visits) <= visits.len(),
    decreases visits.len(),
{
    if visits.len() > 0 {
        lemma_blocks_bound(visits.drop_last());
    }
}

/// The nodes of the tree under `node` in the order in which a reader meets
/// them: each node before what is under it.
pub open spec fn entering(node: Node) -> Seq<Visited> {
    walk(node, Prune::Nothing, false, 0)
}

/// The nodes of the tree under `node` in the order in which a reader leaves
/// them: each node after what is under it.
pub open spec fn leaving(node: Node) -> Seq<Visited> {
    leaving_at(node, 0)
}

/// The nodes of the tree under `node`, each after what is under it, where
/// `enclosing` blocks enclose `node`.
pub open spec fn leaving_at(node: Node, enclosing: nat) -> Seq<Visited>
    decreases node, 1nat, 0nat,
{
    leaving_children(node, inside(node, enclosing), 0, node.children@.len()) + seq![
        Visited { node, enclosing },
    ]
}

/// The nodes of the trees under the children of `node` from `from` up to
/// `upto`, each after what is under it.
pub open spec fn leaving_children(node: Node, enclosing: nat, from: nat, upto: nat) -> Seq<Visited>
    decreases node, 0nat, upto,
{
    if upto <= from || upto > node.children@.len() {
        Seq::empty()
    } else {
        leaving_children(node, enclosing, from, (upto - 1) as nat) + leaving_at(
            node.children@[upto - 1],
            enclosing,
        )
    }
}

proof fn lemma_leaving_front(node: Node, enclosing: nat, from: nat, upto: nat)
    requires
        from < upto <= node.children@.len(),
    ensures
        leaving_children(node, enclosing, from, upto) == leaving_at(
            node.children@[from as int],
            enclosing,
        ) + leaving_children(node, enclosing, from + 1, upto),
    decreases upto,
{
    if upto == from + 1 {
        assert(leaving_children(node, enclosing, from, from) =~= Seq::<Visited>::empty());
        let one = leaving_at(node.children@[from as int], enclosing);
        assert(Seq::<Visited>::empty() + one =~= one + Seq::<Visited>::empty());
    } else {
        lemma_leaving_front(node, enclosing, from, (upto - 1) as nat);
        let first = leaving_at(node.children@[from as int], enclosing);
        let middle = leaving_children(node, enclosing, from + 1, (upto - 1) as nat);
        let last = leaving_at(node.children@[upto - 1], enclosing);
        assert((first + middle) + last =~= first + (middle + last));
    }
}

/// A walk that visits the last child first, read from its end, leaves each
/// node after what is under it.
pub proof fn lemma_backwards_is_leaving(node: Node, enclosing: nat)
    ensures
        walk(node, Prune::Nothing, true, enclosing).reverse() == leaving_at(node, enclosing),
    decreases node, 1nat, 0nat,
{
    let inner = inside(node, enclosing);
    let below = walk_children(node, Prune::Nothing, true, inner, node.children@.len());
    let here = seq![Visited { node, enclosing }];
    lemma_backwards_children(node, inner, node.children@.len());
    assert((here + below).reverse() =~= below.reverse() + here);
}

proof fn lemma_backwards_children(node: Node, enclosing: nat, upto: nat)
    requires
        upto <= node.children@.len(),
    ensures
        walk_children(node, Prune::Nothing, true, enclosing, upto).reverse() == leaving_children(
            node,
            enclosing,
            (node.children@.len() - upto) as nat,
            node.children@.len(),
        ),
    decreases node, 0nat, upto,
{
    let n = node.children@.len();
    if upto > 0 {
        let before = walk_children(node, Prune::Nothing, true, enclosing, (upto - 1) as nat);
        let child = node.children@[n - upto];
        let here = walk(child, Prune::Nothing, true, enclosing);
        lemma_backwards_children(node, enclosing, (upto - 1) as nat);
        lemma_backwards_is_leaving(child, enclosing);
        lemma_leaving_front(node, enclosing, (n - upto) as nat, n);
        assert((before + here).reverse() =~= here.reverse() + before.reverse());
    } else {
        assert(Seq::<Visited>::empty().reverse() =~= Seq::<Visited>::empty());
    }
}

/// A node of a walk, as the walk hands it out.
#[derive(Clone, Copy)]
pub struct Visit<'a> {
    pub node: &'a Node,
    /// How many blocks of the walk enclose the node.
    pub enclosing: usize,
}

impl<'a> View for Visit<'a> {
    type V = Visited;

    open spec fn view(&self) -> Visited {
        Visited { node: *self.node, enclosing: self.enclosing as nat }
    }
}

/// What a run of visits stands for.
pub open spec fn visited(visits: Seq<Visit>) -> Seq<Visited> {
    Seq::new(visits.len(), |i: int| visits[i]@)
}

/// The walks of the trees of `stack`, the last tree first.
spec fn pending_walk(stack: Seq<Visit>, prune: Prune, backwards: bool) -> Seq<Visited>
    decreases stack.len(),
{
    if stack.len() == 0 {
        Seq::empty()
    } else {
        walk(*stack.last().node, prune, backwards, stack.last().enclosing as nat) + pending_walk(
            stack.drop_last(),
            prune,
            backwards,
        )
    }
}

/// The number of nodes of the trees of `stack`.
spec fn pending_size(stack: Seq<Visit>) -> nat
    decreases stack.len(),
{
    if stack.len() == 0 {
        0
    } else {
        pending_size(stack.drop_last()) + size(*stack.last().node)
    }
}

proof fn lemma_pending_push(stack: Seq<Visit>, top: Visit, prune: Prune, backwards: bool)
    ensures
        pending_walk(stack.push(top), prune, backwards) == walk(
            *top.node,
            prune,
            backwards,
            top.enclosing as nat,
        ) + pending_walk(stack, prune, backwards),
        pending_size(stack.push(top)) == pending_size(stack) + size(*top.node),
{
    assert(stack.push(top).drop_last() =~= stack);
}

proof fn lemma_visited_push(visits: Seq<Visit>, next: Visit)
    ensures
        visited(visits.push(next)) == visited(visits) + seq![next@],
{
    assert(visited(visits.push(next)) =~= visited(visits) + seq![next@]);
}

/// The size of the children that a walk has yet to visit, when it has put
/// back all but the first `upto`.
spec fn unvisited_size(node: Node, backwards: bool, upto: nat) -> nat
    decreases upto,
{
    if upto == 0 || upto > node.children@.len() {
        0
    } else {
        unvisited_size(node, backwards, (upto - 1) as nat) + size(
            node.children@[child_at(backwards, node.children@.len(), upto - 1)],
        )
    }
}

proof fn lemma_size_forwards(nodes: Seq<Node>, node: Node, upto: nat)
    requires
        nodes == node.children@,
        upto <= nodes.len(),
    ensures
        unvisited_size(node, false, upto) == size_all(nodes.take(upto as int)),
    decreases upto,
{
    if upto > 0 {
        lemma_size_forwards(nodes, node, (upto - 1) as nat);
        assert(nodes.take(upto as int).drop_last() =~= nodes.take(upto - 1));
    }
}

proof fn lemma_size_skip(nodes: Seq<Node>, from: int)
    requires
        0 <= from < nodes.len(),
    ensures
        size_all(nodes.skip(from)) == size(nodes[from]) + size_all(nodes.skip(from + 1)),
    decreases nodes.len() - from,
{
    if from + 1 < nodes.len() {
        lemma_size_skip(nodes, from + 1);
        assert(nodes.skip(from).drop_last() =~= nodes.drop_last().skip(from));
        assert(nodes.skip(from + 1).drop_last() =~= nodes.drop_last().skip(from + 1));
        lemma_size_skip(nodes.drop_last(), from);
    } else {
        assert(nodes.skip(from).drop_last() =~= Seq::<Node>::empty());
        assert(nodes.skip(from + 1) =~= Seq::<Node>::empty());
    }
}

proof fn lemma_size_backwards(nodes: Seq<Node>, node: Node, upto: nat)
    requires
        nodes == node.children@,
        upto <= nodes.len(),
    ensures
        unvisited_size(node, true, upto) == size_all(nodes.skip(nodes.len() - upto)),
    decreases upto,
{
    if upto > 0 {
        lemma_size_backwards(nodes, node, (upto - 1) as nat);
        lemma_size_skip(nodes, nodes.len() - upto);
    } else {
        assert(nodes.skip(nodes.len() as int) =~= Seq::<Node>::empty());
    }
}

proof fn lemma_unvisited_all(node: Node, backwards: bool)
    ensures
        unvisited_size(node, backwards, node.children@.len()) == size_all(node.children@),
{
    let nodes = node.children@;
    if backwards {
        lemma_size_backwards(nodes, node, nodes.len());
        assert(nodes.skip(0) =~= nodes);
    } else {
        lemma_size_forwards(nodes, node, nodes.len());
        assert(nodes.take(nodes.len() as int) =~= nodes);
    }
}

/// Whether a walk that prunes by `prune` stops at `node`.
pub fn stops_at(prune: Prune, node: &Node) -> (stop: bool)
    ensures
        stop == stops(prune, node.kind),
{
    match prune {
        Prune::Nothing => false,
        Prune::Definitions => match &node.kind {
            Kind::Item(ItemKind::Struct { .. }) => true,
            Kind::Item(ItemKind::Enum { .. }) => true,
            Kind::Item(ItemKind::Impl) => true,
            Kind::Item(ItemKind::Fn { .. }) => true,
            _ => false,
        },
        Prune::Impls => match &node.kind {
            Kind::Item(ItemKind::Impl) => true,
            _ => false,
        },
        Prune::Callables => match &node.kind {
            Kind::Item(ItemKind::Fn { .. }) => true,
            Kind::Member(MemberKind::ImplFn { .. }) => true,
            Kind::Expr(ExprKind::Closure) => true,
            _ => false,
        },
        Prune::Statements => match &node.kind {
            Kind::Stmt(_) => true,
            _ => false,
        },
    }
}

/// Puts the children of `node` on `stack`, so that the one to visit first
/// comes off first.
fn put_children<'a>(
    stack: &mut Vec<Visit<'a>>,
    node: &'a Node,
    prune: Prune,
    backwards: bool,
    enclosing: usize,
)
    ensures
        pending_walk(final(stack)@, prune, backwards) == walk_children(
            *node,
            prune,
            backwards,
            enclosing as nat,
            node.children@.len(),
        ) + pending_walk(old(stack)@, prune, backwards),
        pending_size(final(stack)@) == pending_size(old(stack)@) + size_all(node.children@),
        final(stack)@.len() == old(stack)@.len() + node.children@.len(),
        forall|i: int| 0 <= i < old(stack)@.len() ==> final(stack)@[i] == old(stack)@[i],
        forall|i: int|
            old(stack)@.len() <= i < final(stack)@.len() ==> (#[trigger] final(stack)@[i]).enclosing
                == enclosing,
{
    let n = node.children.len();
    let mut placed: usize = n;
    let ghost base = stack@;
    proof {
        lemma_unvisited_all(*node, backwards);
        assert(walk_children(*node, prune, backwards, enclosing as nat, n as nat)
            + pending_walk(base, prune, backwards) =~= walk_children(
            *node,
            prune,
            backwards,
            enclosing as nat,
            n as nat,
        ) + (Seq::<Visited>::empty() + pending_walk(base, prune, backwards)));
    }
    while placed > 0
        invariant
            placed <= n,
            n == node.children@.len(),
            stack@.len() == base.len() + (n - placed),
            forall|i: int| 0 <= i < base.len() ==> stack@[i] == base[i],
            forall|i: int| base.len() <= i < stack@.len() ==> (#[trigger] stack@[i]).enclosing == enclosing,
            walk_children(*node, prune, backwards, enclosing as nat, placed as nat) + pending_walk(
                stack@,
                prune,
                backwards,
            ) == walk_children(*node, prune, backwards, enclosing as nat, n as nat) + pending_walk(
                base,
                prune,
                backwards,
            ),
            unvisited_size(*node, backwards, placed as nat) + pending_size(stack@)
                == unvisited_size(*node, backwards, n as nat) + pending_size(base),
        decreases placed,
    {
        placed -= 1;
        let index = if backwards {
            n - 1 - placed
        } else {
            placed
        };
        let child = Visit { node: &node.children[index], enclosing };
        proof {
            lemma_pending_push(stack@, child, prune, backwards);
            let before = walk_children(*node, prune, backwards, enclosing as nat, placed as nat);
            let here = walk(*child.node, prune, backwards, enclosing as nat);
            let rest = pending_walk(stack@, prune, backwards);
            assert((before + here) + rest =~= before + (here + rest));
        }
        stack.push(child);
    }
    proof {
        assert(Seq::<Visited>::empty() + pending_walk(stack@, prune, backwards) =~= pending_walk(
            stack@,
            prune,
            backwards,
        ));
    }
}

/// Walks what is on `stack` until nothing is left, and adds what it meets to
/// `out`.
fn run<'a>(stack: Vec<Visit<'a>>, out: Vec<Visit<'a>>, prune: Prune, backwards: bool) -> (all: Vec<
    Visit<'a>,
>)
    requires
        nests(visited(out@)),
        forall|i: int|
            0 <= i < stack@.len() ==> (#[trigger] stack@[i]).enclosing <= blocks_in(visited(out@)),
    ensures
        visited(all@) == visited(out@) + pending_walk(stack@, prune, backwards),
        nests(visited(all@)),
{
    let ghost target = visited(out@) + pending_walk(stack@, prune, backwards);
    let mut stack = stack;
    let mut out = out;
    while stack.len() > 0
        invariant
            visited(out@) + pending_walk(stack@, prune, backwards) == target,
            nests(visited(out@)),
            forall|i: int|
                0 <= i < stack@.len() ==> (#[trigger] stack@[i]).enclosing <= blocks_in(
                    visited(out@),
                ),
        decreases pending_size(stack@),
    {
        let ghost before = stack@;
        let top = stack.pop().unwrap();
        let node = top.node;
        let ghost rest = pending_walk(stack@, prune, backwards);
        let ghost done = visited(out@);
        proof {
            reveal(nests);
            assert(stack@ =~= before.drop_last());
            lemma_visited_push(out@, top);
            assert((done + seq![top@]).drop_last() =~= done);
            assert forall|i: int| 0 <= i < done.len() + 1 implies (#[trigger] (done + seq![
                top@,
            ])[i]).enclosing <= blocks_in((done + seq![top@]).take(i)) by {
                if i < done.len() {
                    assert((done + seq![top@]).take(i) =~= done.take(i));
                } else {
                    assert((done + seq![top@]).take(i) =~= done);
                }
            }
            lemma_blocks_bound(done + seq![top@]);
        }
        out.push(top);
        // No node has more blocks around it than the walk has met, and the
        // walk is no longer than a vector can be.
        let met = out.len();
        assert(top.enclosing <= met);
        if stops_at(prune, node) {
            proof {
                assert(seq![top@] + Seq::<Visited>::empty() =~= seq![top@]);
                assert((done + seq![top@]) + rest =~= done + (seq![top@] + rest));
            }
        } else {
            let inner = match &node.kind {
                Kind::Block => top.enclosing + 1,
                _ => top.enclosing,
            };
            proof {
                let below = walk_children(
                    *node,
                    prune,
                    backwards,
                    inner as nat,
                    node.children@.len(),
                );
                assert((done + seq![top@]) + (below + rest) =~= done + ((seq![top@] + below)
                    + rest));
            }
            put_children(&mut stack, node, prune, backwards, inner);
        }
    }
    proof {
        assert(visited(out@) + Seq::<Visited>::empty() =~= visited(out@));
    }
    out
}

/// The walk of the tree under `root`.
pub fn visit<'a>(root: &'a Node, prune: Prune, backwards: bool) -> (out: Vec<Visit<'a>>)
    ensures
        visited(out@) == walk(*root, prune, backwards, 0),
        nests(visited(out@)),
{
    let mut stack: Vec<Visit<'a>> = Vec::new();
    let out: Vec<Visit<'a>> = Vec::new();
    let first = Visit { node: root, enclosing: 0 };
    proof {
        reveal(nests);
        lemma_pending_push(stack@, first, prune, backwards);
        let all = walk(*root, prune, backwards, 0);
        assert(all + Seq::<Visited>::empty() =~= all);
        assert(visited(out@) + all =~= all);
    }
    stack.push(first);
    run(stack, out, prune, backwards)
}

/// The walk of the tree under `root` that does not stop at `root`, whatever
/// its kind.
pub fn visit_under<'a>(root: &'a Node, prune: Prune, backwards: bool) -> (out: Vec<Visit<'a>>)
    ensures
        visited(out@) == walk_under(*root, prune, backwards),
        nests(visited(out@)),
{
    let mut stack: Vec<Visit<'a>> = Vec::new();
    let mut out: Vec<Visit<'a>> = Vec::new();
    let first = Visit { node: root, enclosing: 0 };
    proof {
        reveal(nests);
        lemma_visited_push(out@, first);
        assert(visited(out@) + seq![first@] =~= seq![first@]);
        assert(seq![first@].drop_last() =~= Seq::<Visited>::empty());
        assert(seq![first@].take(0) =~= Seq::<Visited>::empty());
    }
    out.push(first);
    let inner = match &root.kind {
        Kind::Block => 1,
        _ => 0,
    };
    put_children(&mut stack, root, prune, backwards, inner);
    proof {
        let below = walk_children(*root, prune, backwards, inner as nat, root.children@.len());
        assert(below + Seq::<Visited>::empty() =~= below);
    }
    run(stack, out, prune, backwards)
}

} // verus!
