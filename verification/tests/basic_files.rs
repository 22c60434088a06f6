#![allow(dead_code)]

use ifcount::metrics::{FileStats, Files};
use ifcount::monoid::Monoid;
use ifcount::observer::{Hist, Ratio, Unaggregated};
use ifcount::syntax::{
    BinOp, ExprKind, ItemKind, Kind, Member, MemberKind, Node, Param, StmtKind, TokenTree, UnOp,
};

fn file(items: Vec<Node>) -> Node {
    Node::new(Kind::File, items)
}

fn strukt(attrs: usize, fields: Vec<Node>) -> Node {
    Node::new(Kind::Item(ItemKind::Struct { attrs }), fields)
}

fn field(public: bool, attrs: usize) -> Node {
    Node::leaf(Kind::Field { public, attrs })
}

fn enumeration(attrs: usize, variants: Vec<Node>) -> Node {
    Node::new(Kind::Item(ItemKind::Enum { attrs }), variants)
}

fn variant(attrs: usize) -> Node {
    Node::leaf(Kind::Variant { attrs })
}

fn trait_def(generic_params: usize, supertraits: usize, members: Vec<Node>) -> Node {
    Node::new(Kind::Item(ItemKind::Trait { generic_params, supertraits }), members)
}

fn trait_fn(name: &str, mut params: Vec<Node>, default: Option<Node>) -> Node {
    params.extend(default);
    Node::new(Kind::Member(MemberKind::TraitFn { name: name.to_string() }), params)
}

fn assoc_type() -> Node {
    Node::leaf(Kind::Member(MemberKind::Type))
}

fn impl_block(members: Vec<Node>) -> Node {
    Node::new(Kind::Item(ItemKind::Impl), members)
}

fn impl_fn(name: &str, mut params: Vec<Node>, body: Node) -> Node {
    params.push(body);
    Node::new(Kind::Member(MemberKind::ImplFn { name: name.to_string() }), params)
}

fn item_fn(public: bool, name: &str, mut params: Vec<Node>, body: Node) -> Node {
    params.push(body);
    Node::new(Kind::Item(ItemKind::Fn { public, name: name.to_string() }), params)
}

fn other_item() -> Node {
    Node::leaf(Kind::Item(ItemKind::Other))
}

fn item_macro(tokens: usize) -> Node {
    Node::new(Kind::Item(ItemKind::Macro), vec![invocation(tokens)])
}

fn receiver(reference: bool, mutable: bool) -> Node {
    Node::leaf(Kind::Param(Param::Receiver { reference, mutable }))
}

fn typed(mut_ref: bool) -> Node {
    Node::leaf(Kind::Param(Param::Typed { mut_ref }))
}

fn block(stmts: Vec<Node>) -> Node {
    Node::new(Kind::Block, stmts)
}

fn local(init: Option<Node>, diverge: Option<Node>) -> Node {
    let mut children = Vec::new();
    children.extend(init);
    children.extend(diverge);
    Node::new(Kind::Stmt(StmtKind::Local), children)
}

fn stmt(inner: Node) -> Node {
    Node::new(Kind::Stmt(StmtKind::Expr), vec![inner])
}

fn stmt_item(item: Node) -> Node {
    Node::new(Kind::Stmt(StmtKind::Item), vec![item])
}

fn stmt_macro(tokens: usize) -> Node {
    Node::new(Kind::Stmt(StmtKind::Macro), vec![invocation(tokens)])
}

fn invocation(tokens: usize) -> Node {
    Node::leaf(Kind::Macro { tokens: vec![TokenTree::Token; tokens] })
}

fn expr(kind: ExprKind, children: Vec<Node>) -> Node {
    Node::new(Kind::Expr(kind), children)
}

fn lit() -> Node {
    expr(ExprKind::Lit, vec![])
}

fn path() -> Node {
    expr(ExprKind::Path { plain_self: false }, vec![])
}

fn self_path() -> Node {
    expr(ExprKind::Path { plain_self: true }, vec![])
}

fn macro_expr(tokens: usize) -> Node {
    expr(ExprKind::Macro, vec![invocation(tokens)])
}

fn call(func: Node, args: Vec<Node>) -> Node {
    let mut children = vec![func];
    children.extend(args);
    expr(ExprKind::Call, children)
}

fn method_call(receiver: Node, name: &str, args: Vec<Node>) -> Node {
    let mut children = vec![receiver];
    children.extend(args);
    expr(ExprKind::MethodCall(name.to_string()), children)
}

fn field_of(base: Node, name: &str) -> Node {
    expr(ExprKind::Field(Member::Named(name.to_string())), vec![base])
}

fn binary(op: BinOp, left: Node, right: Node) -> Node {
    expr(ExprKind::Binary(op), vec![left, right])
}

fn unary(op: UnOp, inner: Node) -> Node {
    expr(ExprKind::Unary(op), vec![inner])
}

fn block_expr(stmts: Vec<Node>) -> Node {
    expr(ExprKind::Block, vec![block(stmts)])
}

fn if_then(cond: Node, then: Vec<Node>) -> Node {
    expr(ExprKind::If, vec![cond, block(then)])
}

fn if_else(cond: Node, then: Vec<Node>, otherwise: Node) -> Node {
    expr(ExprKind::If, vec![cond, block(then), otherwise])
}

fn while_loop(cond: Node, body: Vec<Node>) -> Node {
    expr(ExprKind::While, vec![cond, block(body)])
}

fn for_loop(iterated: Node, body: Vec<Node>) -> Node {
    expr(ExprKind::ForLoop, vec![iterated, block(body)])
}

fn endless_loop(body: Vec<Node>) -> Node {
    expr(ExprKind::Loop, vec![block(body)])
}

fn closure(mut params: Vec<Node>, body: Node) -> Node {
    params.push(body);
    expr(ExprKind::Closure, params)
}

fn range(start: Node, end: Node) -> Node {
    expr(ExprKind::Range, vec![start, end])
}

fn bare_break() -> Node {
    expr(ExprKind::Break, vec![])
}


fn fixture() -> Node {
    // struct A;
    // #[derive(Debug)] struct Name { field: Type }
    // #[derive(Debug)] enum Name { Variant1, Variant2 }
    // impl Name {}
    // impl Name {}
    // pub fn pub_fn_1() {}  pub fn pub_fn_2() {}  pub fn pub_fn_3() {}
    file(vec![
        strukt(0, vec![]),
        strukt(1, vec![field(false, 0)]),
        enumeration(1, vec![variant(0), variant(0)]),
        impl_block(vec![]),
        impl_block(vec![]),
        item_fn(true, "pub_fn_1", vec![], block(vec![])),
        item_fn(true, "pub_fn_2", vec![], block(vec![])),
        item_fn(true, "pub_fn_3", vec![], block(vec![])),
    ])
}

#[test]
fn basic_files_count_file() {
    let code = fixture();
    let mut metric = Files::<Hist<64>>::init();
    metric.visit_file(&code);
    let summary = metric.struct_count.describe();
    assert_eq!(summary.sum, 2);
    assert_eq!(summary.avg, Some(Ratio { num: 2, den: 1 }));
    assert_eq!(summary.mode, Some(2));
    let summary = metric.enum_count.describe();
    assert_eq!(summary.sum, 1);
    assert_eq!(summary.avg, Some(Ratio { num: 1, den: 1 }));
    assert_eq!(summary.mode, Some(1));
    let summary = metric.impl_block_count.describe();
    assert_eq!(summary.sum, 2);
    assert_eq!(summary.avg, Some(Ratio { num: 2, den: 1 }));
    assert_eq!(summary.mode, Some(2));
    let summary = metric.pub_fn_count.describe();
    assert_eq!(summary.sum, 3);
    assert_eq!(summary.avg, Some(Ratio { num: 3, den: 1 }));
    assert_eq!(summary.mode, Some(3));
}

#[test]
fn per_file_counts_of_the_fixture() {
    let stats = FileStats::of(&fixture());
    assert_eq!(
        stats,
        FileStats {
            structs_count: 2,
            enums_count: 1,
            impls_count: 2,
            all_fns_count: 3,
            pub_fns_count: 3,
        }
    );
    let mut metric = Files::<Unaggregated>::init();
    metric.visit_file(&fixture());
    assert_eq!(metric.struct_count.values(), &vec![2]);
    assert_eq!(metric.enum_count.values(), &vec![1]);
    assert_eq!(metric.impl_block_count.values(), &vec![2]);
    assert_eq!(metric.pub_fn_count.values(), &vec![3]);
}

#[test]
fn definitions_inside_definitions_are_not_counted() {
    // fn private() { struct Inner; }   impl T { fn m() { enum E {} } }   mod m { struct S; pub fn f() {} }
    let code = file(vec![
        item_fn(false, "private", vec![], block(vec![stmt_item(strukt(0, vec![]))])),
        impl_block(vec![impl_fn(
            "m",
            vec![],
            block(vec![stmt_item(enumeration(0, vec![]))]),
        )]),
        Node::new(
            Kind::Item(ItemKind::Mod),
            vec![strukt(0, vec![]), item_fn(true, "f", vec![], block(vec![]))],
        ),
    ]);
    let stats = FileStats::of(&code);
    assert_eq!(
        stats,
        FileStats {
            structs_count: 1,
            enums_count: 0,
            impls_count: 1,
            all_fns_count: 2,
            pub_fns_count: 1,
        }
    );
}
