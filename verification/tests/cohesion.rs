#![allow(dead_code)]

use ifcount::graph::Graph;
use ifcount::metrics::methods::{
    cohesion_in, member_fns, num_components, FieldSet, FnFieldSet, FnMethodCalls, MethodCalls,
};
use ifcount::metrics::ImplLcom4;
use ifcount::monoid::Monoid;
use ifcount::observer::{Hist, Ratio};
use ifcount::syntax::{
    BinOp, ExprKind, ItemKind, Kind, Member, MemberKind, Node, Param, StmtKind, TokenTree, UnOp,
};

fn file(items: Vec<Node>) -> Node {
    Node::new(Kind::File, items)
}

fn strukt(attrs: usize, fields: Vec<Node>) -> Node {
    Node::new(Kind::Item(ItemKind::Struct { attrs }), fields)
}

fn field(public: bool, attrs: usize) -> Node {
    Node::leaf(Kind::Field { public, attrs })
}

fn enumeration(attrs: usize, variants: Vec<Node>) -> Node {
    Node::new(Kind::Item(ItemKind::Enum { attrs }), variants)
}

fn variant(attrs: usize) -> Node {
    Node::leaf(Kind::Variant { attrs })
}

fn trait_def(generic_params: usize, supertraits: usize, members: Vec<Node>) -> Node {
    Node::new(Kind::Item(ItemKind::Trait { generic_params, supertraits }), members)
}

fn trait_fn(name: &str, mut params: Vec<Node>, default: Option<Node>) -> Node {
    params.extend(default);
    Node::new(Kind::Member(MemberKind::TraitFn { name: name.to_string() }), params)
}

fn assoc_type() -> Node {
    Node::leaf(Kind::Member(MemberKind::Type))
}

fn impl_block(members: Vec<Node>) -> Node {
    Node::new(Kind::Item(ItemKind::Impl), members)
}

fn impl_fn(name: &str, mut params: Vec<Node>, body: Node) -> Node {
    params.push(body);
    Node::new(Kind::Member(MemberKind::ImplFn { name: name.to_string() }), params)
}

fn item_fn(public: bool, name: &str, mut params: Vec<Node>, body: Node) -> Node {
    params.push(body);
    Node::new(Kind::Item(ItemKind::Fn { public, name: name.to_string() }), params)
}

fn other_item() -> Node {
    Node::leaf(Kind::Item(ItemKind::Other))
}

fn item_macro(tokens: usize) -> Node {
    Node::new(Kind::Item(ItemKind::Macro), vec![invocation(tokens)])
}

fn receiver(reference: bool, mutable: bool) -> Node {
    Node::leaf(Kind::Param(Param::Receiver { reference, mutable }))
}

fn typed(mut_ref: bool) -> Node {
    Node::leaf(Kind::Param(Param::Typed { mut_ref }))
}

fn block(stmts: Vec<Node>) -> Node {
    Node::new(Kind::Block, stmts)
}

fn local(init: Option<Node>, diverge: Option<Node>) -> Node {
    let mut children = Vec::new();
    children.extend(init);
    children.extend(diverge);
    Node::new(Kind::Stmt(StmtKind::Local), children)
}

fn stmt(inner: Node) -> Node {
    Node::new(Kind::Stmt(StmtKind::Expr), vec![inner])
}

fn stmt_item(item: Node) -> Node {
    Node::new(Kind::Stmt(StmtKind::Item), vec![item])
}

fn stmt_macro(tokens: usize) -> Node {
    Node::new(Kind::Stmt(StmtKind::Macro), vec![invocation(tokens)])
}

fn invocation(tokens: usize) -> Node {
    Node::leaf(Kind::Macro { tokens: vec![TokenTree::Token; tokens] })
}

fn expr(kind: ExprKind, children: Vec<Node>) -> Node {
    Node::new(Kind::Expr(kind), children)
}

fn lit() -> Node {
    expr(ExprKind::Lit, vec![])
}

fn path() -> Node {
    expr(ExprKind::Path { plain_self: false }, vec![])
}

fn self_path() -> Node {
    expr(ExprKind::Path { plain_self: true }, vec![])
}

fn macro_expr(tokens: usize) -> Node {
    expr(ExprKind::Macro, vec![invocation(tokens)])
}

fn call(func: Node, args: Vec<Node>) -> Node {
    let mut children = vec![func];
    children.extend(args);
    expr(ExprKind::Call, children)
}

fn method_call(receiver: Node, name: &str, args: Vec<Node>) -> Node {
    let mut children = vec![receiver];
    children.extend(args);
    expr(ExprKind::MethodCall(name.to_string()), children)
}

fn field_of(base: Node, name: &str) -> Node {
    expr(ExprKind::Field(Member::Named(name.to_string())), vec![base])
}

fn binary(op: BinOp, left: Node, right: Node) -> Node {
    expr(ExprKind::Binary(op), vec![left, right])
}

fn unary(op: UnOp, inner: Node) -> Node {
    expr(ExprKind::Unary(op), vec![inner])
}

fn block_expr(stmts: Vec<Node>) -> Node {
    expr(ExprKind::Block, vec![block(stmts)])
}

fn if_then(cond: Node, then: Vec<Node>) -> Node {
    expr(ExprKind::If, vec![cond, block(then)])
}

fn if_else(cond: Node, then: Vec<Node>, otherwise: Node) -> Node {
    expr(ExprKind::If, vec![cond, block(then), otherwise])
}

fn while_loop(cond: Node, body: Vec<Node>) -> Node {
    expr(ExprKind::While, vec![cond, block(body)])
}

fn for_loop(iterated: Node, body: Vec<Node>) -> Node {
    expr(ExprKind::ForLoop, vec![iterated, block(body)])
}

fn endless_loop(body: Vec<Node>) -> Node {
    expr(ExprKind::Loop, vec![block(body)])
}

fn closure(mut params: Vec<Node>, body: Node) -> Node {
    params.push(body);
    expr(ExprKind::Closure, params)
}

fn range(start: Node, end: Node) -> Node {
    expr(ExprKind::Range, vec![start, end])
}

fn bare_break() -> Node {
    expr(ExprKind::Break, vec![])
}


fn add(a: Node, b: Node) -> Node {
    binary(BinOp::Other, a, b)
}

/// impl Aboba {
///     fn hehe(&self) { self.a + self.b + self.aboba_call() }
///     fn haha(&mut self) { self.b + self.c + self.aboba_call() }
/// }
fn code_block() -> Node {
    let hehe = add(
        add(field_of(self_path(), "a"), field_of(self_path(), "b")),
        method_call(self_path(), "aboba_call", vec![]),
    );
    let haha = add(
        add(field_of(self_path(), "b"), field_of(self_path(), "c")),
        method_call(self_path(), "aboba_call", vec![]),
    );
    impl_block(vec![
        impl_fn("hehe", vec![receiver(true, false)], block(vec![stmt(hehe)])),
        impl_fn("haha", vec![receiver(true, true)], block(vec![stmt(haha)])),
    ])
}

/// fn yeya(self) { self.test() * self.zhizha().times(self.field.foo()) }
fn calls_fn() -> Node {
    let body = binary(
        BinOp::Other,
        method_call(self_path(), "test", vec![]),
        method_call(
            method_call(self_path(), "zhizha", vec![]),
            "times",
            vec![method_call(field_of(self_path(), "field"), "foo", vec![])],
        ),
    );
    item_fn(false, "yeya", vec![receiver(false, false)], block(vec![stmt(body)]))
}

fn field_intersection_of(block: &Node) -> Vec<Member> {
    let fns = member_fns(block);
    let usage = FnFieldSet::of(&fns);
    let sets = &usage.field_usage;
    let mut common: Vec<Member> = Vec::new();
    for member in sets[0].0.iter() {
        if sets.iter().all(|set| set.0.contains(member)) && !common.contains(*member) {
            common.push((*member).clone());
        }
    }
    common
}

fn method_calls_of(func: &Node) -> Vec<String> {
    let mut names: Vec<String> = MethodCalls::of(func).0.into_iter().cloned().collect();
    names.sort();
    names
}

#[test]
fn lack_of_cohesion_field_intersection() {
    let block = code_block();
    assert_eq!(field_intersection_of(&block), vec![Member::Named("b".to_string())]);
}

#[test]
fn lack_of_cohesion_method_calls() {
    assert_eq!(method_calls_of(&calls_fn()), vec!["test".to_string(), "zhizha".to_string()]);
}

#[test]
fn util_field_intersection() {
    let block = code_block();
    let fns = member_fns(&block);
    let first = FieldSet::of(fns[0]);
    let second = FieldSet::of(fns[1]);
    assert!(first.intersects(&second));
    assert_eq!(field_intersection_of(&block), vec![Member::Named("b".to_string())]);
}

#[test]
fn util_method_calls() {
    let func = calls_fn();
    let calls = MethodCalls::of(&func);
    assert!(calls.contains(&"zhizha".to_string()));
    assert!(calls.contains(&"test".to_string()));
    assert!(!calls.contains(&"times".to_string()));
    assert!(!calls.contains(&"foo".to_string()));
    assert_eq!(method_calls_of(&func), vec!["test".to_string(), "zhizha".to_string()]);
}

fn check(code: &Node, sum: u128, mode: usize) {
    let mut metric = ImplLcom4::<Hist<16>>::init();
    metric.visit_file(code);
    let summary = metric.0.describe();
    assert_eq!(summary.sum, sum);
    assert_eq!(summary.avg, Some(Ratio { num: sum, den: 1 }));
    assert_eq!(summary.mode, Some(mode));
}

#[test]
fn cohesive() {
    check(&file(vec![code_block()]), 1, 1);
}

#[test]
fn not_cohesive() {
    // impl Aboba { fn hehe(&self) { self.a }  fn haha(&mut self) { self.b } }
    let code = file(vec![impl_block(vec![
        impl_fn("hehe", vec![receiver(true, false)], block(vec![stmt(field_of(self_path(), "a"))])),
        impl_fn("haha", vec![receiver(true, true)], block(vec![stmt(field_of(self_path(), "b"))])),
    ])]);
    check(&code, 2, 2);
}

#[test]
fn a_call_on_self_joins_caller_and_callee() {
    // impl T { fn a(&self) { self.b() }  fn b(&self) {}  fn c(&self) { self.x }  fn d(&self) { other.x } }
    let block = impl_block(vec![
        impl_fn("a", vec![], block(vec![stmt(method_call(self_path(), "b", vec![]))])),
        impl_fn("b", vec![], block(vec![])),
        impl_fn("c", vec![], block(vec![stmt(field_of(self_path(), "x"))])),
        impl_fn("d", vec![], block(vec![stmt(field_of(path(), "x"))])),
    ]);
    let fns = member_fns(&block);
    let calls = FnMethodCalls::of(&fns);
    assert!(calls.related(0, 1));
    assert!(calls.related(1, 0));
    assert!(!calls.related(0, 2));
    let fields = FnFieldSet::of(&fns);
    assert!(!fields.related(2, 3));
    assert_eq!(num_components(&block), 3);
}

#[test]
fn a_block_without_functions_is_not_observed() {
    let code = file(vec![
        impl_block(vec![]),
        impl_block(vec![Node::leaf(Kind::Member(MemberKind::Type))]),
        impl_block(vec![impl_fn("only", vec![], block(vec![]))]),
    ]);
    assert_eq!(cohesion_in(&code), vec![1]);
}

#[test]
fn an_impl_block_inside_a_method_is_left_out() {
    let inner = impl_block(vec![impl_fn("x", vec![], block(vec![])), impl_fn("y", vec![], block(vec![]))]);
    let code = file(vec![
        impl_block(vec![impl_fn("outer", vec![], block(vec![stmt_item(inner)]))]),
        item_fn(
            false,
            "free",
            vec![],
            block(vec![stmt_item(impl_block(vec![
                impl_fn("p", vec![], block(vec![])),
                impl_fn("q", vec![], block(vec![])),
            ]))]),
        ),
    ]);
    assert_eq!(cohesion_in(&code), vec![1, 2]);
}

#[test]
fn components_of_a_graph() {
    let mut graph = Graph::new(6);
    assert_eq!(graph.num_components(), 6);
    graph.link(0, 3);
    graph.link(3, 5);
    graph.link(1, 2);
    assert!(graph.linked(3, 0));
    assert!(graph.linked(5, 3));
    assert!(!graph.linked(0, 5));
    assert_eq!(graph.len(), 6);
    // {0, 3, 5}, {1, 2}, {4}
    assert_eq!(graph.num_components(), 3);
    graph.link(4, 2);
    graph.link(5, 4);
    assert_eq!(graph.num_components(), 1);
    assert_eq!(Graph::new(0).num_components(), 0);
}
