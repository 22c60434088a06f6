//! Lack of cohesion of methods: into how many groups the functions of an
//! `impl` block fall, when two functions belong together that use a common
//! field of `self` or of which one calls the other on `self`.

use vstd::prelude::*;
use crate::collector::{CollectError, Family, VisitorCollector};
use crate::graph::{Graph, components_below, lemma_same_components, lemma_with_link, represents};
use crate::monoid::{Monoid, WellFormed};
use crate::observer::{Observer, Sampler, Unaggregated, grown, observe_all, ready, sampled};
use crate::registry::{Collector, MetricCollectorBox};
use crate::syntax::{ExprKind, ItemKind, Kind, Member, MemberKind, Node};
use crate::value::{MetricValue, Sample, Shape};
use crate::walk::{Prune, Visited, entering, visit, visited, walk};

verus! {

/// What a `Member` stands for.
pub enum MemberName {
    Named(Seq<char>),
    Unnamed(u32),
}

/// What `member` stands for.
pub open spec fn name_of(member: Member) -> MemberName {
    match member {
        Member::Named(name) => MemberName::Named(name@),
        Member::Unnamed(index) => MemberName::Unnamed(index),
    }
}

/// Whether `node` is the bare word `self`.
pub open spec fn is_self(node: Node) -> bool {
    node.kind matches Kind::Expr(ExprKind::Path { plain_self }) && plain_self
}

/// Whether the first child of `node` is the bare word `self`.
pub open spec fn on_self(node: Node) -> bool {
    node.children@.len() > 0 && is_self(node.children@[0])
}

/// The field of `self` that `node` reads, if it is such an expression.
pub open spec fn self_field(node: Node) -> Option<MemberName> {
    match node.kind {
        Kind::Expr(ExprKind::Field(member)) => if on_self(node) {
            Some(name_of(member))
        } else {
            None
        },
        _ => None,
    }
}

/// The method that `node` calls on `self`, if it is such an expression.
pub open spec fn self_call(node: Node) -> Option<Seq<char>> {
    match node.kind {
        Kind::Expr(ExprKind::MethodCall(method)) => if on_self(node) {
            Some(method@)
        } else {
            None
        },
        _ => None,
    }
}

/// The fields of `self` that the nodes of a walk read.
pub open spec fn fields_met(visits: Seq<Visited>) -> Set<MemberName>
    decreases visits.len(),
{
    if visits.len() == 0 {
        Set::empty()
    } else {
        match self_field(visits.last().node) {
            Some(name) => fields_met(visits.drop_last()).insert(name),
            None => fields_met(visits.drop_last()),
        }
    }
}

/// The methods that the nodes of a walk call on `self`.
pub open spec fn calls_met(visits: Seq<Visited>) -> Set<Seq<char>>
    decreases visits.len(),
{
    if visits.len() == 0 {
        Set::empty()
    } else {
        match self_call(visits.last().node) {
            Some(name) => calls_met(visits.drop_last()).insert(name),
            None => calls_met(visits.drop_last()),
        }
    }
}

/// The fields of `self` that the function `func` reads, anywhere under it.
pub open spec fn fields_used(func: Node) -> Set<MemberName> {
    fields_met(entering(func))
}

/// The methods that the function `func` calls on `self`, anywhere under it.
pub open spec fn calls_made(func: Node) -> Set<Seq<char>> {
    calls_met(entering(func))
}

/// The name of the function `func`.
pub open spec fn fn_name(func: Node) -> Seq<char> {
    match func.kind {
        Kind::Member(MemberKind::ImplFn { name }) => name@,
        Kind::Member(MemberKind::TraitFn { name }) => name@,
        Kind::Item(ItemKind::Fn { name, .. }) => name@,
        _ => Seq::empty(),
    }
}

/// Whether two sets have an element in common.
pub open spec fn overlap<A>(a: Set<A>, b: Set<A>) -> bool {
    exists|x: A| a.contains(x) && b.contains(x)
}

/// Whether two functions use a common field of `self`.
pub open spec fn related_by_fields(a: Node, b: Node) -> bool {
    overlap(fields_used(a), fields_used(b))
}

/// Whether one of two functions calls the other on `self`.
pub open spec fn related_by_calls(a: Node, b: Node) -> bool {
    calls_made(a).contains(fn_name(b)) || calls_made(b).contains(fn_name(a))
}

/// Whether two functions belong together.
pub open spec fn related(a: Node, b: Node) -> bool {
    related_by_fields(a, b) || related_by_calls(a, b)
}

/// The functions among the members `members`, in their order.
pub open spec fn fns_among(members: Seq<Node>) -> Seq<Node>
    decreases members.len(),
{
    if members.len() == 0 {
        Seq::empty()
    } else if members.last().kind matches Kind::Member(MemberKind::ImplFn { .. }) {
        fns_among(members.drop_last()).push(members.last())
    } else {
        fns_among(members.drop_last())
    }
}

/// Which of the functions `fns` belong together, by their places.
pub open spec fn together(fns: Seq<Node>) -> spec_fn(usize, usize) -> bool {
    |a: usize, b: usize| a < fns.len() && b < fns.len() && a != b && related(fns[a as int], fns[b as int])
}

/// The number of groups into which the functions `fns` fall.
pub open spec fn groups(fns: Seq<Node>) -> nat {
    components_below(fns.len(), together(fns), fns.len() as usize)
}

/// The number of groups into which the functions of the `impl` block
/// `block` fall.
pub open spec fn lcom4(block: Node) -> nat {
    groups(fns_among(block.children@))
}

/// The number of groups into which the functions of `node` fall, where it
/// is an `impl` block that has a function.
pub open spec fn cohesion_at(node: Node) -> Option<usize> {
    if node.kind matches Kind::Item(ItemKind::Impl) && fns_among(node.children@).len() > 0 {
        Some(lcom4(node) as usize)
    } else {
        None
    }
}

/// For each `impl` block of a walk that has a function, the number of
/// groups into which its functions fall.
pub open spec fn cohesion(visits: Seq<Visited>) -> Seq<usize>
    decreases visits.len(),
{
    if visits.len() == 0 {
        Seq::empty()
    } else {
        match cohesion_at(visits.last().node) {
            Some(count) => cohesion(visits.drop_last()).push(count),
            None => cohesion(visits.drop_last()),
        }
    }
}

/// For each `impl` block of the tree under `file` that has a function, the
/// number of groups into which its functions fall. An `impl` block inside
/// another is left out.
pub open spec fn cohesion_of(file: Node) -> Seq<usize> {
    cohesion(walk(file, Prune::Impls, false, 0))
}

/// What a run of members stands for.
pub open spec fn names_of(members: Seq<&Member>) -> Set<MemberName>
    decreases members.len(),
{
    if members.len() == 0 {
        Set::empty()
    } else {
        names_of(members.drop_last()).insert(name_of(*members.last()))
    }
}

/// What a run of names stands for.
pub open spec fn texts_of(names: Seq<&String>) -> Set<Seq<char>>
    decreases names.len(),
{
    if names.len() == 0 {
        Set::empty()
    } else {
        texts_of(names.drop_last()).insert(names.last()@)
    }
}

proof fn lemma_names_push(members: Seq<&Member>, member: &Member)
    ensures
        names_of(members.push(member)) == names_of(members).insert(name_of(*member)),
{
    assert(members.push(member).drop_last() =~= members);
}

proof fn lemma_fields_step(visits: Seq<Visited>, i: int)
    requires
        0 <= i < visits.len(),
    ensures
        fields_met(visits.take(i + 1)) == match self_field(visits[i].node) {
            Some(name) => fields_met(visits.take(i)).insert(name),
            None => fields_met(visits.take(i)),
        },
{
    assert(visits.take(i + 1).drop_last() =~= visits.take(i));
}

proof fn lemma_calls_step(visits: Seq<Visited>, i: int)
    requires
        0 <= i < visits.len(),
    ensures
        calls_met(visits.take(i + 1)) == match self_call(visits[i].node) {
            Some(name) => calls_met(visits.take(i)).insert(name),
            None => calls_met(visits.take(i)),
        },
{
    assert(visits.take(i + 1).drop_last() =~= visits.take(i));
}

proof fn lemma_texts_push(names: Seq<&String>, name: &String)
    ensures
        texts_of(names.push(name)) == texts_of(names).insert(name@),
{
    assert(names.push(name).drop_last() =~= names);
}

proof fn lemma_names_contain(members: Seq<&Member>, name: MemberName)
    ensures
        names_of(members).contains(name) <==> exists|k: int|
            0 <= k < members.len() && name_of(*#[trigger] members[k]) == name,
    decreases members.len(),
{
    if members.len() > 0 {
        let front = members.drop_last();
        lemma_names_contain(front, name);
        if names_of(members).contains(name) {
            if name_of(*members.last()) == name {
                assert(name_of(*members[members.len() - 1]) == name);
            } else {
                let k = choose|k: int| 0 <= k < front.len() && name_of(*#[trigger] front[k]) == name;
                assert(name_of(*members[k]) == name);
            }
        }
        if exists|k: int| 0 <= k < members.len() && name_of(*#[trigger] members[k]) == name {
            let k = choose|k: int| 0 <= k < members.len() && name_of(*#[trigger] members[k]) == name;
            if k < front.len() {
                assert(name_of(*front[k]) == name);
            }
        }
    }
}

proof fn lemma_texts_contain(names: Seq<&String>, name: Seq<char>)
    ensures
        texts_of(names).contains(name) <==> exists|k: int|
            0 <= k < names.len() && (#[trigger] names[k])@ == name,
    decreases names.len(),
{
    if names.len() > 0 {
        let front = names.drop_last();
        lemma_texts_contain(front, name);
        if texts_of(names).contains(name) {
            if names.last()@ == name {
                assert(names[names.len() - 1]@ == name);
            } else {
                let k = choose|k: int| 0 <= k < front.len() && (#[trigger] front[k])@ == name;
                assert(names[k]@ == name);
            }
        }
        if exists|k: int| 0 <= k < names.len() && (#[trigger] names[k])@ == name {
            let k = choose|k: int| 0 <= k < names.len() && (#[trigger] names[k])@ == name;
            if k < front.len() {
                assert(front[k]@ == name);
            }
        }
    }
}

/// Whether two names are the same.
pub fn same_text(a: &String, b: &String) -> (same: bool)
    ensures
        same == (a@ == b@),
{
    *a == *b
}

/// Whether two members are the same.
pub fn same_member(a: &Member, b: &Member) -> (same: bool)
    ensures
        same == (name_of(*a) == name_of(*b)),
{
    match a {
        Member::Named(left) => match b {
            Member::Named(right) => same_text(left, right),
            Member::Unnamed(_) => false,
        },
        Member::Unnamed(left) => match b {
            Member::Named(_) => false,
            Member::Unnamed(right) => *left == *right,
        },
    }
}

/// Whether the first child of `node` is the bare word `self`.
pub fn is_on_self(node: &Node) -> (yes: bool)
    ensures
        yes == on_self(*node),
{
    if node.children.len() == 0 {
        false
    } else {
        match &node.children[0].kind {
            Kind::Expr(ExprKind::Path { plain_self }) => *plain_self,
            _ => false,
        }
    }
}

/// The fields of `self` that a function reads.
pub struct FieldSet<'a>(pub Vec<&'a Member>);

impl<'a> View for FieldSet<'a> {
    type V = Set<MemberName>;

    open spec fn view(&self) -> Set<MemberName> {
        names_of(self.0@)
    }
}

impl<'a> FieldSet<'a> {
    /// The fields of `self` that the function `func` reads.
    pub fn of(func: &'a Node) -> (fields: Self)
        ensures
            fields@ == fields_used(*func),
    {
        let visits = visit(func, Prune::Nothing, false);
        let ghost all = visited(visits@);
        let mut found: Vec<&'a Member> = Vec::new();
        let mut i: usize = 0;
        while i < visits.len()
            invariant
                i <= visits@.len(),
                all == visited(visits@),
                all == entering(*func),
                names_of(found@) == fields_met(all.take(i as int)),
            decreases visits@.len() - i,
        {
            let node = visits[i].node;
            proof {
                lemma_fields_step(all, i as int);
                assert(all[i as int].node == *node);
            }
            match &node.kind {
                Kind::Expr(ExprKind::Field(member)) => {
                    if is_on_self(node) {
                        proof {
                            lemma_names_push(found@, member);
                        }
                        found.push(member);
                    }
                },
                _ => {},
            }
            i += 1;
        }
        proof {
            assert(all.take(visits@.len() as int) =~= all);
        }
        FieldSet(found)
    }

    /// Whether this set and `other` have a field in common.
    pub fn intersects(&self, other: &FieldSet<'a>) -> (yes: bool)
        ensures
            yes == overlap(self@, other@),
    {
        let mut i: usize = 0;
        while i < self.0.len()
            invariant
                i <= self.0@.len(),
                forall|k: int, l: int|
                    0 <= k < i && 0 <= l < other.0@.len() ==> name_of(*#[trigger] self.0@[k])
                        != name_of(*#[trigger] other.0@[l]),
            decreases self.0@.len() - i,
        {
            let mut j: usize = 0;
            while j < other.0.len()
                invariant
                    i < self.0@.len(),
                    j <= other.0@.len(),
                    forall|l: int|
                        0 <= l < j ==> name_of(*self.0@[i as int]) != name_of(
                            *#[trigger] other.0@[l],
                        ),
                decreases other.0@.len() - j,
            {
                if same_member(self.0[i], other.0[j]) {
                    proof {
                        let name = name_of(*self.0@[i as int]);
                        lemma_names_contain(self.0@, name);
                        lemma_names_contain(other.0@, name);
                        assert(name_of(*other.0@[j as int]) == name);
                        assert(self@.contains(name) && other@.contains(name));
                    }
                    return true;
                }
                j += 1;
            }
            i += 1;
        }
        proof {
            assert forall|name: MemberName| !(self@.contains(name) && other@.contains(name)) by {
                lemma_names_contain(self.0@, name);
                lemma_names_contain(other.0@, name);
            }
        }
        false
    }
}

/// The methods that a function calls on `self`.
pub struct MethodCalls<'a>(pub Vec<&'a String>);

impl<'a> View for MethodCalls<'a> {
    type V = Set<Seq<char>>;

    open spec fn view(&self) -> Set<Seq<char>> {
        texts_of(self.0@)
    }
}

impl<'a> MethodCalls<'a> {
    /// The methods that the function `func` calls on `self`.
    pub fn of(func: &'a Node) -> (calls: Self)
        ensures
            calls@ == calls_made(*func),
    {
        let visits = visit(func, Prune::Nothing, false);
        let ghost all = visited(visits@);
        let mut found: Vec<&'a String> = Vec::new();
        let mut i: usize = 0;
        while i < visits.len()
            invariant
                i <= visits@.len(),
                all == visited(visits@),
                all == entering(*func),
                texts_of(found@) == calls_met(all.take(i as int)),
            decreases visits@.len() - i,
        {
            let node = visits[i].node;
            proof {
                lemma_calls_step(all, i as int);
                assert(all[i as int].node == *node);
            }
            match &node.kind {
                Kind::Expr(ExprKind::MethodCall(method)) => {
                    if is_on_self(node) {
                        proof {
                            lemma_texts_push(found@, method);
                        }
                        found.push(method);
                    }
                },
                _ => {},
            }
            i += 1;
        }
        proof {
            assert(all.take(visits@.len() as int) =~= all);
        }
        MethodCalls(found)
    }

    /// Whether a method of the name `name` is among these.
    pub fn contains(&self, name: &String) -> (yes: bool)
        ensures
            yes == self@.contains(name@),
    {
        let mut i: usize = 0;
        while i < self.0.len()
            invariant
                i <= self.0@.len(),
                forall|k: int| 0 <= k < i ==> (#[trigger] self.0@[k])@ != name@,
            decreases self.0@.len() - i,
        {
            if same_text(self.0[i], name) {
                proof {
                    lemma_texts_contain(self.0@, name@);
                    assert(self.0@[i as int]@ == name@);
                }
                return true;
            }
            i += 1;
        }
        proof {
            lemma_texts_contain(self.0@, name@);
        }
        false
    }
}


/// The nodes that a run of references points to.
pub open spec fn nodes_of(refs: Seq<&Node>) -> Seq<Node> {
    Seq::new(refs.len(), |i: int| *refs[i])
}

/// The functions of the `impl` block `block`, in their order.
pub fn member_fns<'a>(block: &'a Node) -> (fns: Vec<&'a Node>)
    ensures
        nodes_of(fns@) == fns_among(block.children@),
{
    let mut fns: Vec<&'a Node> = Vec::new();
    let n = block.children.len();
    let mut i: usize = 0;
    while i < n
        invariant
            i <= n,
            n == block.children@.len(),
            nodes_of(fns@) == fns_among(block.children@.take(i as int)),
        decreases n - i,
    {
        let member = &block.children[i];
        proof {
            assert(block.children@.take(i + 1).drop_last() =~= block.children@.take(i as int));
        }
        if let Kind::Member(MemberKind::ImplFn { .. }) = &member.kind {
            proof {
                assert(nodes_of(fns@.push(member)) =~= nodes_of(fns@).push(*member));
            }
            fns.push(member);
        }
        i += 1;
    }
    proof {
        assert(block.children@.take(n as int) =~= block.children@);
    }
    fns
}

/// For each function of an `impl` block, the fields of `self` that it reads.
pub struct FnFieldSet<'a> {
    pub field_usage: Vec<FieldSet<'a>>,
}

impl<'a> FnFieldSet<'a> {
    /// Whether this holds, for each of `fns` in its place, the fields that
    /// it reads.
    pub open spec fn describes(&self, fns: Seq<Node>) -> bool {
        &&& self.field_usage@.len() == fns.len()
        &&& forall|i: int|
            0 <= i < fns.len() ==> (#[trigger] self.field_usage@[i])@ == fields_used(fns[i])
    }

    /// The fields that each of `fns` reads.
    pub fn of(fns: &Vec<&'a Node>) -> (usage: Self)
        ensures
            usage.describes(nodes_of(fns@)),
    {
        let mut field_usage: Vec<FieldSet<'a>> = Vec::new();
        let mut i: usize = 0;
        while i < fns.len()
            invariant
                i <= fns@.len(),
                field_usage@.len() == i,
                forall|k: int|
                    0 <= k < i ==> (#[trigger] field_usage@[k])@ == fields_used(*fns@[k]),
            decreases fns@.len() - i,
        {
            field_usage.push(FieldSet::of(fns[i]));
            i += 1;
        }
        FnFieldSet { field_usage }
    }

    /// Whether the functions in the places `func1` and `func2` read a common
    /// field of `self`.
    pub fn related(&self, func1: usize, func2: usize) -> (yes: bool)
        requires
            func1 < self.field_usage@.len(),
            func2 < self.field_usage@.len(),
        ensures
            yes == overlap(self.field_usage@[func1 as int]@, self.field_usage@[func2 as int]@),
    {
        self.field_usage[func1].intersects(&self.field_usage[func2])
    }
}

/// The name of a function of an `impl` block, and the methods that it calls
/// on `self`.
pub struct Caller<'a> {
    pub name: Option<&'a String>,
    pub calls: MethodCalls<'a>,
}

/// For each function of an `impl` block, the methods that it calls on
/// `self`.
pub struct FnMethodCalls<'a>(pub Vec<Caller<'a>>);

/// Whether `caller` holds the name of `func` and the methods that it calls.
pub open spec fn caller_of(caller: Caller, func: Node) -> bool {
    &&& caller.calls@ == calls_made(func)
    &&& match caller.name {
        Some(name) => name@ == fn_name(func),
        None => !(func.kind matches Kind::Member(MemberKind::ImplFn { .. })),
    }
}

/// Whether `caller` calls the function that `callee` is about.
pub open spec fn calls_to(caller: Caller, callee: Caller) -> bool {
    match callee.name {
        Some(name) => caller.calls@.contains(name@),
        None => false,
    }
}

impl<'a> FnMethodCalls<'a> {
    /// Whether this holds, for each of `fns` in its place, its name and the
    /// methods that it calls.
    pub open spec fn describes(&self, fns: Seq<Node>) -> bool {
        &&& self.0@.len() == fns.len()
        &&& forall|i: int| 0 <= i < fns.len() ==> caller_of(#[trigger] self.0@[i], fns[i])
    }

    /// The name of each of `fns` and the methods that it calls.
    pub fn of(fns: &Vec<&'a Node>) -> (callers: Self)
        ensures
            callers.describes(nodes_of(fns@)),
    {
        let mut callers: Vec<Caller<'a>> = Vec::new();
        let mut i: usize = 0;
        while i < fns.len()
            invariant
                i <= fns@.len(),
                callers@.len() == i,
                forall|k: int| 0 <= k < i ==> caller_of(#[trigger] callers@[k], *fns@[k]),
            decreases fns@.len() - i,
        {
            let func = fns[i];
            let name = match &func.kind {
                Kind::Member(MemberKind::ImplFn { name }) => Some(name),
                _ => None,
            };
            callers.push(Caller { name, calls: MethodCalls::of(func) });
            i += 1;
        }
        FnMethodCalls(callers)
    }

    /// Whether one of the functions in the places `func1` and `func2` calls
    /// the other on `self`.
    pub fn related(&self, func1: usize, func2: usize) -> (yes: bool)
        requires
            func1 < self.0@.len(),
            func2 < self.0@.len(),
        ensures
            yes == (calls_to(self.0@[func1 as int], self.0@[func2 as int]) || calls_to(
                self.0@[func2 as int],
                self.0@[func1 as int],
            )),
    {
        let first = &self.0[func1];
        let second = &self.0[func2];
        let forth = match second.name {
            Some(name) => first.calls.contains(name),
            None => false,
        };
        if forth {
            return true;
        }
        match first.name {
            Some(name) => second.calls.contains(name),
            None => false,
        }
    }
}

proof fn lemma_fns_are_fns(members: Seq<Node>, i: int)
    requires
        0 <= i < fns_among(members).len(),
    ensures
        fns_among(members)[i].kind matches Kind::Member(MemberKind::ImplFn { .. }),
    decreases members.len(),
{
    if members.len() > 0 {
        if members.last().kind matches Kind::Member(MemberKind::ImplFn { .. }) {
            if i < fns_among(members.drop_last()).len() {
                lemma_fns_are_fns(members.drop_last(), i);
            }
        } else {
            lemma_fns_are_fns(members.drop_last(), i);
        }
    }
}

/// Whether the pair of places `low` and `high` comes before the pair `a`
/// and `b`, when the pairs are taken row by row.
spec fn earlier(low: usize, high: usize, a: usize, b: usize) -> bool {
    low < a || (low == a && high < b)
}

/// Whether `links` holds the links between those of `fns` that belong
/// together, as far as the pairs before `a` and `b` go.
spec fn linked_so_far(links: Seq<Seq<usize>>, fns: Seq<Node>, a: usize, b: usize) -> bool {
    forall|x: usize, y: usize|
        x < fns.len() && y < fns.len() ==> (#[trigger] links[x as int].contains(y) <==> x != y
            && related(fns[x as int], fns[y as int]) && if x < y {
            earlier(x, y, a, b)
        } else {
            earlier(y, x, a, b)
        })
}

/// The number of groups into which the functions of the `impl` block
/// `block` fall.
pub fn num_components(block: &Node) -> (count: usize)
    ensures
        count == lcom4(*block),
{
    let fns = member_fns(block);
    let ghost nodes = nodes_of(fns@);
    let fields = FnFieldSet::of(&fns);
    let calls = FnMethodCalls::of(&fns);
    let n = fns.len();
    let mut graph = Graph::new(n);
    let mut a: usize = 0;
    proof {
        assert forall|i: int| 0 <= i < nodes.len() implies (#[trigger] nodes[i]).kind matches Kind::Member(
            MemberKind::ImplFn { .. },
        ) by {
            lemma_fns_are_fns(block.children@, i);
        }
    }
    while a < n
        invariant
            a <= n,
            n == nodes.len(),
            nodes == nodes_of(fns@),
            fields.describes(nodes),
            calls.describes(nodes),
            forall|i: int|
                0 <= i < nodes.len() ==> (#[trigger] nodes[i]).kind matches Kind::Member(
                    MemberKind::ImplFn { .. },
                ),
            graph.wf(),
            graph@.len() == n,
            linked_so_far(graph@, nodes, a, 0),
        decreases n - a,
    {
        let mut b: usize = a + 1;
        proof {
            assert forall|x: usize, y: usize| x < n && y < n implies (
            #[trigger] graph@[x as int].contains(y) <==> x != y && related(
                nodes[x as int],
                nodes[y as int],
            ) && if x < y {
                earlier(x, y, a, (a + 1) as usize)
            } else {
                earlier(y, x, a, (a + 1) as usize)
            }) by {
                assert(graph@[x as int].contains(y) <==> x != y && related(
                    nodes[x as int],
                    nodes[y as int],
                ) && if x < y {
                    earlier(x, y, a, 0)
                } else {
                    earlier(y, x, a, 0)
                });
            }
        }
        while b < n
            invariant
                a < n,
                a < b <= n,
                n == nodes.len(),
                nodes == nodes_of(fns@),
                fields.describes(nodes),
                calls.describes(nodes),
                forall|i: int|
                    0 <= i < nodes.len() ==> (#[trigger] nodes[i]).kind matches Kind::Member(
                        MemberKind::ImplFn { .. },
                    ),
                graph.wf(),
                graph@.len() == n,
                linked_so_far(graph@, nodes, a, b),
            decreases n - b,
        {
            let by_fields = fields.related(a, b);
            let by_calls = calls.related(a, b);
            proof {
                assert(caller_of(calls.0@[a as int], nodes[a as int]));
                assert(caller_of(calls.0@[b as int], nodes[b as int]));
                assert(nodes[a as int].kind matches Kind::Member(MemberKind::ImplFn { .. }));
                assert(nodes[b as int].kind matches Kind::Member(MemberKind::ImplFn { .. }));
                assert(by_fields == related_by_fields(nodes[a as int], nodes[b as int]));
                assert(by_calls == related_by_calls(nodes[a as int], nodes[b as int]));
            }
            let ghost before = graph@;
            if by_fields || by_calls {
                graph.link(a, b);
                proof {
                    assert forall|x: usize, y: usize| x < n && y < n implies (
                    #[trigger] graph@[x as int].contains(y) <==> x != y && related(
                        nodes[x as int],
                        nodes[y as int],
                    ) && if x < y {
                        earlier(x, y, a, (b + 1) as usize)
                    } else {
                        earlier(y, x, a, (b + 1) as usize)
                    }) by {
                        lemma_with_link(before, a, b, x, y);
                        assert(before[x as int].contains(y) <==> x != y && related(
                            nodes[x as int],
                            nodes[y as int],
                        ) && if x < y {
                            earlier(x, y, a, b)
                        } else {
                            earlier(y, x, a, b)
                        });
                        lemma_related_symmetric(nodes[a as int], nodes[b as int]);
                    }
                }
            } else {
                proof {
                    lemma_related_symmetric(nodes[a as int], nodes[b as int]);
                    assert forall|x: usize, y: usize| x < n && y < n implies (
                    #[trigger] graph@[x as int].contains(y) <==> x != y && related(
                        nodes[x as int],
                        nodes[y as int],
                    ) && if x < y {
                        earlier(x, y, a, (b + 1) as usize)
                    } else {
                        earlier(y, x, a, (b + 1) as usize)
                    }) by {
                        assert(before[x as int].contains(y) <==> x != y && related(
                            nodes[x as int],
                            nodes[y as int],
                        ) && if x < y {
                            earlier(x, y, a, b)
                        } else {
                            earlier(y, x, a, b)
                        });
                    }
                }
            }
            b += 1;
        }
        proof {
            assert forall|x: usize, y: usize| x < n && y < n implies (
            #[trigger] graph@[x as int].contains(y) <==> x != y && related(
                nodes[x as int],
                nodes[y as int],
            ) && if x < y {
                earlier(x, y, (a + 1) as usize, 0)
            } else {
                earlier(y, x, (a + 1) as usize, 0)
            }) by {
                assert(graph@[x as int].contains(y) <==> x != y && related(
                    nodes[x as int],
                    nodes[y as int],
                ) && if x < y {
                    earlier(x, y, a, n)
                } else {
                    earlier(y, x, a, n)
                });
            }
        }
        a += 1;
    }
    proof {
        assert forall|x: usize, y: usize| x < graph@.len() && y < graph@.len() implies (
        #[trigger] graph@[x as int].contains(y) <==> together(nodes)(x, y)) by {
            assert(graph@[x as int].contains(y) <==> x != y && related(
                nodes[x as int],
                nodes[y as int],
            ) && if x < y {
                earlier(x, y, n, 0)
            } else {
                earlier(y, x, n, 0)
            });
        }
        assert(represents(graph@, together(nodes)));
        lemma_same_components(graph@, together(nodes), n);
    }
    graph.num_components()
}

/// Belonging together goes both ways.
pub proof fn lemma_related_symmetric(a: Node, b: Node)
    ensures
        related(a, b) == related(b, a),
{
    if related_by_fields(a, b) {
        let x = choose|x: MemberName| fields_used(a).contains(x) && fields_used(b).contains(x);
        assert(fields_used(b).contains(x) && fields_used(a).contains(x));
    }
    if related_by_fields(b, a) {
        let x = choose|x: MemberName| fields_used(b).contains(x) && fields_used(a).contains(x);
        assert(fields_used(a).contains(x) && fields_used(b).contains(x));
    }
}

/// The number of groups into which the functions of `node` fall, where it
/// is an `impl` block that has a function.
pub fn block_cohesion(node: &Node) -> (count: Option<usize>)
    ensures
        count == cohesion_at(*node),
{
    match &node.kind {
        Kind::Item(ItemKind::Impl) => {
            let fns = member_fns(node);
            if fns.len() > 0 {
                Some(num_components(node))
            } else {
                None
            }
        },
        _ => None,
    }
}

proof fn lemma_cohesion_step(visits: Seq<Visited>, i: int)
    requires
        0 <= i < visits.len(),
    ensures
        cohesion(visits.take(i + 1)) == match cohesion_at(visits[i].node) {
            Some(count) => cohesion(visits.take(i)).push(count),
            None => cohesion(visits.take(i)),
        },
{
    assert(visits.take(i + 1).drop_last() =~= visits.take(i));
}

/// For each `impl` block of the tree under `file` that has a function, the
/// number of groups into which its functions fall.
pub fn cohesion_in(file: &Node) -> (found: Vec<usize>)
    ensures
        found@ == cohesion_of(*file),
{
    let visits = visit(file, Prune::Impls, false);
    let ghost all = visited(visits@);
    let mut found: Vec<usize> = Vec::new();
    let mut i: usize = 0;
    while i < visits.len()
        invariant
            i <= visits@.len(),
            all == visited(visits@),
            found@ == cohesion(all.take(i as int)),
        decreases visits@.len() - i,
    {
        let node = visits[i].node;
        proof {
            lemma_cohesion_step(all, i as int);
            assert(all[i as int].node == *node);
        }
        match block_cohesion(node) {
            Some(count) => found.push(count),
            None => {},
        }
        i += 1;
    }
    proof {
        assert(all.take(visits@.len() as int) =~= all);
    }
    found
}

/// Lack of cohesion of methods, for each `impl` block.
pub struct ImplLcom4<Obs = Unaggregated>(pub Obs);

impl<Obs: WellFormed> WellFormed for ImplLcom4<Obs> {
    open spec fn wf(&self) -> bool {
        self.0.wf()
    }
}

impl<Obs: Observer> ImplLcom4<Obs> {
    /// Records, for each `impl` block of the tree under `file` that has a
    /// function, the number of groups into which its functions fall.
    pub fn visit_file(&mut self, file: &Node)
        requires
            old(self).wf(),
            ready(&old(self).0, cohesion_of(*file)),
        ensures
            final(self).wf(),
            grown(&old(self).0, &final(self).0, cohesion_of(*file)),
    {
        let found = cohesion_in(file);
        observe_all(&mut self.0, &found);
    }
}

impl<T: Monoid> Monoid for ImplLcom4<T> {
    type Model = (T::Model,);

    open spec fn model(&self) -> Self::Model {
        (self.0.model(),)
    }

    open spec fn init_model() -> Self::Model {
        (T::init_model(),)
    }

    open spec fn unite_model(a: Self::Model, b: Self::Model) -> Self::Model {
        (T::unite_model(a.0, b.0),)
    }

    open spec fn fits(a: Self::Model, b: Self::Model) -> bool {
        &&& T::fits(a.0, b.0)
    }

    open spec fn alike(a: Self::Model, b: Self::Model) -> bool {
        &&& T::alike(a.0, b.0)
    }

    fn init() -> (id: Self) {
        ImplLcom4(T::init())
    }

    fn unite(self, rhs: Self) -> (both: Self) {
        ImplLcom4(self.0.unite(rhs.0))
    }

    proof fn law_identity(a: Self::Model) {
        T::law_identity(a.0);
    }

    proof fn law_associative(a: Self::Model, b: Self::Model, c: Self::Model) {
        T::law_associative(a.0, b.0, c.0);
    }

    proof fn law_commutative(a: Self::Model, b: Self::Model) {
        T::law_commutative(a.0, b.0);
    }
}

impl<Obs: Sampler> Family for ImplLcom4<Obs> {
    open spec fn reason() -> CollectError {
        CollectError::TooLarge
    }

    open spec fn suits(file: Node) -> bool {
        true
    }

    open spec fn measured(file: Node) -> Self::Model {
        (cohesion_of(file),)
    }

    open spec fn shown(model: Self::Model) -> Shape {
        Obs::shown(model.0)
    }

    fn collect(file: &Node) -> (metric: Result<Self, CollectError>) {
        Ok(ImplLcom4(sampled(&cohesion_in(file))))
    }

    fn to_value(&self) -> (value: MetricValue<Sample>) {
        proof {
            self.0.law_model();
        }
        self.0.to_value()
    }
}

/// The collector of the lack of cohesion of methods.
pub fn make_collector() -> (collector: MetricCollectorBox)
    ensures
        collector.0 is Lcom4,
        collector.name_text() == "lcom4_per_impl_block"@,
{
    MetricCollectorBox(Collector::Lcom4(VisitorCollector::new("lcom4_per_impl_block")))
}

} // verus!
