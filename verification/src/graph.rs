//! Undirected graphs on the nodes `0..n`, and the number of their connected
//! components.

use vstd::prelude::*;

verus! {

/// An undirected graph: for each node, the nodes that it is linked to.
pub struct Graph {
    neighbours: Vec<Vec<usize>>,
}

/// Whether `path` leads from node to node of a graph with these links.
pub open spec fn is_path(links: Seq<Seq<usize>>, path: Seq<usize>) -> bool {
    &&& path.len() > 0
    &&& forall|k: int| 0 <= k < path.len() ==> (#[trigger] path[k]) < links.len()
    &&& forall|k: int|
        0 <= k < path.len() - 1 ==> links[(#[trigger] path[k]) as int].contains(path[k + 1])
}

/// Whether a path leads from `a` to `b`.
pub open spec fn joined(links: Seq<Seq<usize>>, a: usize, b: usize) -> bool {
    exists|path: Seq<usize>| #[trigger] is_path(links, path) && path[0] == a && path.last() == b
}

/// Whether `node` is the lowest node of its component.
pub open spec fn is_lowest(links: Seq<Seq<usize>>, node: usize) -> bool {
    forall|other: usize| other < node ==> !#[trigger] joined(links, other, node)
}

/// How many nodes below `bound` are the lowest of their component.
pub open spec fn lowest_below(links: Seq<Seq<usize>>, bound: usize) -> nat
    decreases bound,
{
    if bound == 0 {
        0
    } else {
        lowest_below(links, (bound - 1) as usize) + if is_lowest(links, (bound - 1) as usize) {
            1nat
        } else {
            0nat
        }
    }
}

/// Whether the links are between nodes of the graph, and go both ways.
pub open spec fn symmetric(links: Seq<Seq<usize>>) -> bool {
    &&& forall|a: int, k: int|
        0 <= a < links.len() && 0 <= k < links[a].len() ==> (#[trigger] links[a][k]) < links.len()
    &&& forall|a: usize, b: usize|
        a < links.len() && b < links.len() && #[trigger] links[a as int].contains(b)
            ==> links[b as int].contains(a)
}

/// The links of a graph without links on `n` nodes.
pub open spec fn no_links(n: nat) -> Seq<Seq<usize>> {
    Seq::new(n, |i: int| Seq::<usize>::empty())
}

/// The links `links`, and one more between `a` and `b`.
pub open spec fn with_link(links: Seq<Seq<usize>>, a: usize, b: usize) -> Seq<Seq<usize>> {
    let first = links.update(a as int, links[a as int].push(b));
    first.update(b as int, first[b as int].push(a))
}

/// What one more link adds: itself, in both directions, and nothing else.
pub proof fn lemma_with_link(links: Seq<Seq<usize>>, a: usize, b: usize, x: usize, y: usize)
    requires
        a < links.len(),
        b < links.len(),
        x < links.len(),
    ensures
        with_link(links, a, b).len() == links.len(),
        with_link(links, a, b)[x as int].contains(y) <==> (links[x as int].contains(y) || (x == a
            && y == b) || (x == b && y == a)),
{
    let first = links.update(a as int, links[a as int].push(b));
    let after = with_link(links, a, b);
    let row = links[x as int];
    if after[x as int].contains(y) {
        let k = choose|k: int| 0 <= k < after[x as int].len() && after[x as int][k] == y;
        if k < row.len() {
            assert(row[k] == y);
        }
    }
    if row.contains(y) {
        let k = choose|k: int| 0 <= k < row.len() && row[k] == y;
        assert(after[x as int][k] == y);
    }
    if x == a && y == b {
        if a == b {
            assert(after[x as int][row.len() as int] == y);
        } else {
            assert(after[x as int][row.len() as int] == y);
        }
    }
    if x == b && y == a {
        assert(after[x as int][after[x as int].len() - 1] == y);
    }
}

impl View for Graph {
    type V = Seq<Seq<usize>>;

    closed spec fn view(&self) -> Seq<Seq<usize>> {
        Seq::new(self.neighbours@.len(), |i: int| self.neighbours@[i]@)
    }
}

/// Whether `node` is joined to a node below `bound`.
spec fn anchored(links: Seq<Seq<usize>>, node: usize, bound: int) -> bool {
    exists|low: usize| low < bound && #[trigger] joined(links, low, node)
}

/// Whether `seen` holds, with each of its nodes, the nodes linked to it; but
/// for the nodes of `open` and for `busy`, whose links are still to follow.
spec fn closed_but(
    links: Seq<Seq<usize>>,
    seen: Seq<bool>,
    open: Seq<usize>,
    busy: Option<usize>,
) -> bool {
    forall|a: usize, k: int|
        a < links.len() && 0 <= k < links[a as int].len() && seen[a as int] && !seen[(
        #[trigger] links[a as int][k]) as int] ==> open.contains(a) || busy == Some(a)
}

/// How many nodes are not seen.
spec fn unseen(seen: Seq<bool>) -> nat
    decreases seen.len(),
{
    if seen.len() == 0 {
        0
    } else {
        unseen(seen.drop_last()) + if seen.last() {
            0nat
        } else {
            1nat
        }
    }
}

proof fn lemma_unseen_update(seen: Seq<bool>, at: int)
    requires
        0 <= at < seen.len(),
        !seen[at],
    ensures
        unseen(seen.update(at, true)) + 1 == unseen(seen),
    decreases seen.len(),
{
    if at == seen.len() - 1 {
        assert(seen.update(at, true).drop_last() =~= seen.drop_last());
    } else {
        lemma_unseen_update(seen.drop_last(), at);
        assert(seen.update(at, true).drop_last() =~= seen.drop_last().update(at, true));
    }
}

/// Each node is joined to itself.
pub proof fn lemma_joined_self(links: Seq<Seq<usize>>, a: usize)
    requires
        a < links.len(),
    ensures
        joined(links, a, a),
{
    let path = seq![a];
    assert(is_path(links, path));
    assert(path[0] == a && path.last() == a);
}

/// A path goes on along a link.
pub proof fn lemma_joined_step(links: Seq<Seq<usize>>, a: usize, b: usize, c: usize)
    requires
        joined(links, a, b),
        c < links.len(),
        links[b as int].contains(c),
    ensures
        joined(links, a, c),
{
    let path = choose|path: Seq<usize>| #[trigger]
        is_path(links, path) && path[0] == a && path.last() == b;
    let longer = path.push(c);
    assert forall|k: int| 0 <= k < longer.len() - 1 implies links[(
    #[trigger] longer[k]) as int].contains(longer[k + 1]) by {
        if k < path.len() - 1 {
            assert(longer[k] == path[k]);
            assert(longer[k + 1] == path[k + 1]);
        }
    }
    assert forall|k: int| 0 <= k < longer.len() implies (#[trigger] longer[k]) < links.len() by {
        if k < path.len() {
            assert(longer[k] == path[k]);
        }
    }
    assert(is_path(links, longer));
    assert(longer[0] == a && longer.last() == c);
}

/// A set of nodes that holds, with each node, the nodes linked to it, holds
/// the end of each path that starts in it.
proof fn lemma_closed_path(links: Seq<Seq<usize>>, seen: Seq<bool>, path: Seq<usize>)
    requires
        seen.len() == links.len(),
        closed_but(links, seen, Seq::empty(), None),
        is_path(links, path),
        seen[path[0] as int],
    ensures
        seen[path.last() as int],
    decreases path.len(),
{
    if path.len() > 1 {
        let front = path.drop_last();
        assert forall|k: int| 0 <= k < front.len() - 1 implies links[(
        #[trigger] front[k]) as int].contains(front[k + 1]) by {
            assert(front[k] == path[k]);
            assert(front[k + 1] == path[k + 1]);
        }
        assert forall|k: int| 0 <= k < front.len() implies (#[trigger] front[k]) < links.len() by {
            assert(front[k] == path[k]);
        }
        assert(is_path(links, front));
        lemma_closed_path(links, seen, front);
        let a = front.last();
        let b = path.last();
        assert(a == path[path.len() - 2]);
        assert(links[path[path.len() - 2] as int].contains(path[path.len() - 2 + 1]));
        let k = choose|k: int| 0 <= k < links[a as int].len() && links[a as int][k] == b;
        if !seen[b as int] {
            assert(!seen[links[a as int][k] as int]);
            assert(Seq::<usize>::empty().contains(a) || None::<usize> == Some(a));
        }
    }
}

/// Whether `path` leads from node to node of the graph on `n` nodes in which
/// `linked` tells which nodes are linked.
pub open spec fn leads(n: nat, linked: spec_fn(usize, usize) -> bool, path: Seq<usize>) -> bool {
    &&& path.len() > 0
    &&& forall|k: int| 0 <= k < path.len() ==> (#[trigger] path[k]) < n
    &&& forall|k: int| 0 <= k < path.len() - 1 ==> linked(#[trigger] path[k], path[k + 1])
}

/// Whether a path leads from `a` to `b`.
pub open spec fn connected(n: nat, linked: spec_fn(usize, usize) -> bool, a: usize, b: usize) -> bool {
    exists|path: Seq<usize>| #[trigger] leads(n, linked, path) && path[0] == a && path.last() == b
}

/// Whether no node below `node` is connected to it.
pub open spec fn is_least(n: nat, linked: spec_fn(usize, usize) -> bool, node: usize) -> bool {
    forall|other: usize| other < node ==> !#[trigger] connected(n, linked, other, node)
}

/// The number of connected components among the nodes below `bound`, each
/// counted at its lowest node.
pub open spec fn components_below(
    n: nat,
    linked: spec_fn(usize, usize) -> bool,
    bound: usize,
) -> nat
    decreases bound,
{
    if bound == 0 {
        0
    } else {
        components_below(n, linked, (bound - 1) as usize) + if is_least(
            n,
            linked,
            (bound - 1) as usize,
        ) {
            1nat
        } else {
            0nat
        }
    }
}

/// Whether `links` holds the links that `linked` tells of, and no others.
pub open spec fn represents(links: Seq<Seq<usize>>, linked: spec_fn(usize, usize) -> bool) -> bool {
    forall|a: usize, b: usize|
        a < links.len() && b < links.len() ==> (#[trigger] links[a as int].contains(b) <==> linked(
            a,
            b,
        ))
}

proof fn lemma_same_paths(
    links: Seq<Seq<usize>>,
    linked: spec_fn(usize, usize) -> bool,
    path: Seq<usize>,
)
    requires
        represents(links, linked),
    ensures
        is_path(links, path) <==> leads(links.len(), linked, path),
{
    if is_path(links, path) {
        assert forall|k: int| 0 <= k < path.len() - 1 implies linked(
            #[trigger] path[k],
            path[k + 1],
        ) by {
            assert(path[k + 1] < links.len());
            assert(links[path[k] as int].contains(path[k + 1]));
        }
    }
    if leads(links.len(), linked, path) {
        assert forall|k: int| 0 <= k < path.len() - 1 implies links[(
        #[trigger] path[k]) as int].contains(path[k + 1]) by {
            assert(path[k + 1] < links.len());
            assert(linked(path[k], path[k + 1]));
        }
    }
}

proof fn lemma_same_joined(
    links: Seq<Seq<usize>>,
    linked: spec_fn(usize, usize) -> bool,
    a: usize,
    b: usize,
)
    requires
        represents(links, linked),
    ensures
        joined(links, a, b) <==> connected(links.len(), linked, a, b),
{
    if joined(links, a, b) {
        let path = choose|path: Seq<usize>| #[trigger]
            is_path(links, path) && path[0] == a && path.last() == b;
        lemma_same_paths(links, linked, path);
        assert(leads(links.len(), linked, path) && path[0] == a && path.last() == b);
    }
    if connected(links.len(), linked, a, b) {
        let path = choose|path: Seq<usize>| #[trigger]
            leads(links.len(), linked, path) && path[0] == a && path.last() == b;
        lemma_same_paths(links, linked, path);
        assert(is_path(links, path) && path[0] == a && path.last() == b);
    }
}

/// Links that hold what a relation tells of have the components of that
/// relation.
pub proof fn lemma_same_components(
    links: Seq<Seq<usize>>,
    linked: spec_fn(usize, usize) -> bool,
    bound: usize,
)
    requires
        represents(links, linked),
    ensures
        lowest_below(links, bound) == components_below(links.len(), linked, bound),
    decreases bound,
{
    if bound > 0 {
        let node = (bound - 1) as usize;
        lemma_same_components(links, linked, node);
        assert forall|other: usize| other < node implies (#[trigger] joined(links, other, node)
            <==> connected(links.len(), linked, other, node)) by {
            lemma_same_joined(links, linked, other, node);
        }
        if is_lowest(links, node) {
            assert forall|other: usize| other < node implies !#[trigger] connected(
                links.len(),
                linked,
                other,
                node,
            ) by {
                assert(!joined(links, other, node));
            }
        }
        if is_least(links.len(), linked, node) {
            assert forall|other: usize| other < node implies !#[trigger] joined(
                links,
                other,
                node,
            ) by {
                assert(!connected(links.len(), linked, other, node));
            }
        }
    }
}

impl Graph {
    /// Whether the links are between nodes of the graph, and go both ways.
    pub open spec fn wf(&self) -> bool {
        symmetric(self@)
    }

    /// The number of connected components.
    pub open spec fn components(&self) -> nat {
        lowest_below(self@, self@.len() as usize)
    }

    /// A graph on `n` nodes without links.
    pub fn new(n: usize) -> (graph: Graph)
        ensures
            graph.wf(),
            graph@ == no_links(n as nat),
    {
        let mut neighbours: Vec<Vec<usize>> = Vec::new();
        let mut i: usize = 0;
        while i < n
            invariant
                i <= n,
                neighbours@.len() == i,
                forall|k: int| 0 <= k < i ==> (#[trigger] neighbours@[k])@ == Seq::<usize>::empty(),
            decreases n - i,
        {
            neighbours.push(Vec::new());
            i += 1;
        }
        let graph = Graph { neighbours };
        proof {
            assert(graph@ =~= no_links(n as nat));
        }
        graph
    }

    /// The number of nodes.
    pub fn len(&self) -> (n: usize)
        ensures
            n == self@.len(),
    {
        self.neighbours.len()
    }

    /// Links `a` and `b`.
    pub fn link(&mut self, a: usize, b: usize)
        requires
            old(self).wf(),
            a < old(self)@.len(),
            b < old(self)@.len(),
        ensures
            final(self).wf(),
            final(self)@ == with_link(old(self)@, a, b),
    {
        let ghost before = self@;
        self.neighbours[a].push(b);
        let ghost middle = self@;
        self.neighbours[b].push(a);
        proof {
            let after = with_link(before, a, b);
            assert(middle =~= before.update(a as int, before[a as int].push(b)));
            assert(self@ =~= after);
            assert forall|x: int, k: int|
                0 <= x < after.len() && 0 <= k < after[x].len() implies (#[trigger] after[x][k])
                < after.len() by {
                if k < before[x].len() {
                    assert(after[x][k] == before[x][k]);
                }
            }
            assert forall|x: usize, y: usize|
                x < after.len() && y < after.len() && #[trigger] after[x as int].contains(
                    y,
                ) implies after[y as int].contains(x) by {
                let k = choose|k: int| 0 <= k < after[x as int].len() && after[x as int][k] == y;
                if k < before[x as int].len() {
                    assert(before[x as int][k] == y);
                    assert(before[x as int].contains(y));
                    assert(before[y as int].contains(x));
                    let j = choose|j: int|
                        0 <= j < before[y as int].len() && before[y as int][j] == x;
                    assert(after[y as int][j] == x);
                } else if x == a && y == b {
                    assert(after[b as int][after[b as int].len() - 1] == a);
                } else {
                    if a == b {
                        assert(after[a as int][after[a as int].len() - 1] == a);
                    } else {
                        assert(after[a as int][after[a as int].len() - 1] == b);
                    }
                }
            }
        }
    }

    /// Whether `a` and `b` are linked.
    pub fn linked(&self, a: usize, b: usize) -> (yes: bool)
        requires
            a < self@.len(),
        ensures
            yes == self@[a as int].contains(b),
    {
        let row = &self.neighbours[a];
        let mut k: usize = 0;
        while k < row.len()
            invariant
                k <= row@.len(),
                row@ == self@[a as int],
                forall|j: int| 0 <= j < k ==> row@[j] != b,
            decreases row@.len() - k,
        {
            if row[k] == b {
                return true;
            }
            k += 1;
        }
        false
    }

    /// Marks each node that is joined to `start`.
    fn spread(&self, seen: &mut Vec<bool>, start: usize)
        requires
            self.wf(),
            old(seen)@.len() == self@.len(),
            start < self@.len(),
            !old(seen)@[start as int],
            closed_but(self@, old(seen)@, Seq::empty(), None),
            forall|a: usize| a < self@.len() && old(seen)@[a as int] ==> anchored(self@, a, start as int),
        ensures
            final(seen)@.len() == self@.len(),
            final(seen)@[start as int],
            forall|a: int| 0 <= a < self@.len() && old(seen)@[a] ==> final(seen)@[a],
            closed_but(self@, final(seen)@, Seq::empty(), None),
            forall|a: usize|
                a < self@.len() && final(seen)@[a as int] ==> anchored(
                    self@,
                    a,
                    start + 1,
                ),
    {
        let ghost links = self@;
        let ghost before = seen@;
        let mut open: Vec<usize> = Vec::new();
        seen.set(start, true);
        open.push(start);
        proof {
            lemma_joined_self(links, start);
            assert(open@[0] == start);
            assert forall|a: usize, k: int|
                a < links.len() && 0 <= k < links[a as int].len() && seen@[a as int] && !seen@[(
                #[trigger] links[a as int][k]) as int] implies open@.contains(a) || None::<usize>
                == Some(a) by {
                if a != start {
                    assert(before[a as int]);
                    assert(!before[links[a as int][k] as int]);
                    assert(Seq::<usize>::empty().contains(a) || None::<usize> == Some(a));
                }
            }
        }
        while open.len() > 0
            invariant
                self.wf(),
                links == self@,
                seen@.len() == links.len(),
                before.len() == links.len(),
                start < links.len(),
                seen@[start as int],
                forall|j: int|
                    0 <= j < open@.len() ==> (#[trigger] open@[j]) < links.len() && seen@[open@[j] as int]
                        && !before[open@[j] as int],
                forall|a: int| 0 <= a < links.len() && before[a] ==> seen@[a],
                forall|a: usize|
                    a < links.len() && seen@[a as int] && !before[a as int] ==> joined(
                        links,
                        start,
                        a,
                    ),
                closed_but(links, seen@, open@, None),
            decreases unseen(seen@), open@.len(),
        {
            let ghost open_before = open@;
            let node = open.pop().unwrap();
            let row = &self.neighbours[node];
            let mut k: usize = 0;
            let ghost seen_at_pop = seen@;
            proof {
                assert(node == open_before[open_before.len() - 1]);
                assert(row@ == links[node as int]);
                assert forall|a: usize, j: int|
                    a < links.len() && 0 <= j < links[a as int].len() && seen@[a as int] && !seen@[(
                    #[trigger] links[a as int][j]) as int] implies open@.contains(a) || Some(node)
                    == Some(a) by {
                    assert(open_before.contains(a) || None::<usize> == Some(a));
                    let at = choose|at: int| 0 <= at < open_before.len() && open_before[at] == a;
                    if at < open@.len() {
                        assert(open@[at] == a);
                    }
                }
            }
            while k < row.len()
                invariant
                    self.wf(),
                    links == self@,
                    row@ == links[node as int],
                    node < links.len(),
                    k <= row@.len(),
                    seen@.len() == links.len(),
                    before.len() == links.len(),
                    start < links.len(),
                    seen@[start as int],
                    seen@[node as int],
                    !before[node as int],
                    forall|j: int|
                        0 <= j < open@.len() ==> (#[trigger] open@[j]) < links.len() && seen@[open@[j] as int]
                            && !before[open@[j] as int],
                    forall|a: int| 0 <= a < links.len() && before[a] ==> seen@[a],
                    forall|a: usize|
                        a < links.len() && seen@[a as int] && !before[a as int] ==> joined(
                            links,
                            start,
                            a,
                        ),
                    forall|j: int| 0 <= j < k ==> seen@[(#[trigger] row@[j]) as int],
                    closed_but(links, seen@, open@, Some(node)),
                    unseen(seen@) <= unseen(seen_at_pop),
                    unseen(seen@) == unseen(seen_at_pop) ==> open@.len() + 1 == open_before.len(),
                decreases row@.len() - k,
            {
                let next = row[k];
                proof {
                    assert(links[node as int][k as int] == next);
                    assert(next < links.len());
                }
                if !seen[next] {
                    let ghost seen_here = seen@;
                    let ghost open_here = open@;
                    proof {
                        lemma_unseen_update(seen@, next as int);
                        assert(joined(links, start, node));
                        assert(links[node as int].contains(next));
                        lemma_joined_step(links, start, node, next);
                    }
                    seen.set(next, true);
                    open.push(next);
                    proof {
                        assert(open@[open@.len() - 1] == next);
                        assert forall|j: int| 0 <= j < open@.len() implies (#[trigger] open@[j])
                            < links.len() && seen@[open@[j] as int] && !before[open@[j] as int] by {
                            if j < open_here.len() {
                                assert(open@[j] == open_here[j]);
                            }
                        }
                        assert forall|a: usize, j: int|
                            a < links.len() && 0 <= j < links[a as int].len() && seen@[a as int]
                                && !seen@[(#[trigger] links[a as int][j]) as int] implies open@.contains(
                            a,
                        ) || Some(node) == Some(a) by {
                            if a == next {
                                assert(open@.contains(a));
                            } else {
                                assert(seen_here[a as int]);
                                assert(!seen_here[links[a as int][j] as int]);
                                assert(open_here.contains(a) || Some(node) == Some(a));
                                if open_here.contains(a) {
                                    let at = choose|at: int|
                                        0 <= at < open_here.len() && open_here[at] == a;
                                    assert(open@[at] == a);
                                }
                            }
                        }
                    }
                }
                k += 1;
            }
            proof {
                assert forall|a: usize, j: int|
                    a < links.len() && 0 <= j < links[a as int].len() && seen@[a as int] && !seen@[(
                    #[trigger] links[a as int][j]) as int] implies open@.contains(a)
                    || None::<usize> == Some(a) by {
                    if a == node {
                        assert(seen@[row@[j] as int]);
                    }
                }
            }
        }
        proof {
            assert forall|a: usize| a < links.len() && seen@[a as int] implies anchored(
                links,
                a,
                start + 1,
            ) by {
                if before[a as int] {
                    let low = choose|low: usize| low < start && #[trigger] joined(links, low, a);
                    assert(low < start + 1 && joined(links, low, a));
                } else {
                    assert(joined(links, start, a));
                }
            }
            assert forall|a: usize, j: int|
                a < links.len() && 0 <= j < links[a as int].len() && seen@[a as int] && !seen@[(
                #[trigger] links[a as int][j]) as int] implies Seq::<usize>::empty().contains(a)
                || None::<usize> == Some(a) by {
                assert(open@.contains(a) || None::<usize> == Some(a));
            }
        }
    }

    /// The number of connected components: one for each node in turn that no
    /// earlier node has reached, and with it all that it reaches are marked.
    pub fn num_components(&self) -> (count: usize)
        requires
            self.wf(),
        ensures
            count == self.components(),
    {
        let n = self.neighbours.len();
        let ghost links = self@;
        let mut seen: Vec<bool> = Vec::new();
        let mut i: usize = 0;
        while i < n
            invariant
                i <= n,
                seen@.len() == i,
                forall|k: int| 0 <= k < i ==> !seen@[k],
            decreases n - i,
        {
            seen.push(false);
            i += 1;
        }
        let mut count: usize = 0;
        let mut node: usize = 0;
        while node < n
            invariant
                self.wf(),
                links == self@,
                n == links.len(),
                node <= n,
                seen@.len() == n,
                count == lowest_below(links, node),
                count <= node,
                forall|a: int| 0 <= a < node ==> seen@[a],
                closed_but(links, seen@, Seq::empty(), None),
                forall|a: usize| a < n && seen@[a as int] ==> anchored(links, a, node as int),
            decreases n - node,
        {
            if seen[node] {
                proof {
                    assert(anchored(links, node, node as int));
                    let low = choose|low: usize| low < node && #[trigger] joined(links, low, node);
                    assert(!is_lowest(links, node));
                    assert forall|a: usize| a < n && seen@[a as int] implies anchored(
                        links,
                        a,
                        node + 1,
                    ) by {
                        let low = choose|low: usize| low < node && #[trigger] joined(links, low, a);
                        assert(low < node + 1 && joined(links, low, a));
                    }
                }
            } else {
                proof {
                    assert forall|other: usize| other < node implies !#[trigger] joined(
                        links,
                        other,
                        node,
                    ) by {
                        if joined(links, other, node) {
                            let path = choose|path: Seq<usize>| #[trigger]
                                is_path(links, path) && path[0] == other && path.last() == node;
                            lemma_closed_path(links, seen@, path);
                        }
                    }
                    assert(is_lowest(links, node));
                }
                count += 1;
                self.spread(&mut seen, node);
            }
            node += 1;
        }
        count
    }
}

} // verus!
