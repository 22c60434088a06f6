#![allow(dead_code)]

use ifcount::metrics::if_count::{count_ifs, sum_counts};
use ifcount::metrics::VisitorIfCount;
use ifcount::syntax::{
    BinOp, ExprKind, ItemKind, Kind, Member, MemberKind, Node, Param, StmtKind, TokenTree, UnOp,
};

fn file(items: Vec<Node>) -> Node {
    Node::new(Kind::File, items)
}

fn strukt(attrs: usize, fields: Vec<Node>) -> Node {
    Node::new(Kind::Item(ItemKind::Struct { attrs }), fields)
}

fn field(public: bool, attrs: usize) -> Node {
    Node::leaf(Kind::Field { public, attrs })
}

fn enumeration(attrs: usize, variants: Vec<Node>) -> Node {
    Node::new(Kind::Item(ItemKind::Enum { attrs }), variants)
}

fn variant(attrs: usize) -> Node {
    Node::leaf(Kind::Variant { attrs })
}

fn trait_def(generic_params: usize, supertraits: usize, members: Vec<Node>) -> Node {
    Node::new(Kind::Item(ItemKind::Trait { generic_params, supertraits }), members)
}

fn trait_fn(name: &str, mut params: Vec<Node>, default: Option<Node>) -> Node {
    params.extend(default);
    Node::new(Kind::Member(MemberKind::TraitFn { name: name.to_string() }), params)
}

fn assoc_type() -> Node {
    Node::leaf(Kind::Member(MemberKind::Type))
}

fn impl_block(members: Vec<Node>) -> Node {
    Node::new(Kind::Item(ItemKind::Impl), members)
}

fn impl_fn(name: &str, mut params: Vec<Node>, body: Node) -> Node {
    params.push(body);
    Node::new(Kind::Member(MemberKind::ImplFn { name: name.to_string() }), params)
}

fn item_fn(public: bool, name: &str, mut params: Vec<Node>, body: Node) -> Node {
    params.push(body);
    Node::new(Kind::Item(ItemKind::Fn { public, name: name.to_string() }), params)
}

fn other_item() -> Node {
    Node::leaf(Kind::Item(ItemKind::Other))
}

fn item_macro(tokens: usize) -> Node {
    Node::new(Kind::Item(ItemKind::Macro), vec![invocation(tokens)])
}

fn receiver(reference: bool, mutable: bool) -> Node {
    Node::leaf(Kind::Param(Param::Receiver { reference, mutable }))
}

fn typed(mut_ref: bool) -> Node {
    Node::leaf(Kind::Param(Param::Typed { mut_ref }))
}

fn block(stmts: Vec<Node>) -> Node {
    Node::new(Kind::Block, stmts)
}

fn local(init: Option<Node>, diverge: Option<Node>) -> Node {
    let mut children = Vec::new();
    children.extend(init);
    children.extend(diverge);
    Node::new(Kind::Stmt(StmtKind::Local), children)
}

fn stmt(inner: Node) -> Node {
    Node::new(Kind::Stmt(StmtKind::Expr), vec![inner])
}

fn stmt_item(item: Node) -> Node {
    Node::new(Kind::Stmt(StmtKind::Item), vec![item])
}

fn stmt_macro(tokens: usize) -> Node {
    Node::new(Kind::Stmt(StmtKind::Macro), vec![invocation(tokens)])
}

fn invocation(tokens: usize) -> Node {
    Node::leaf(Kind::Macro { tokens: vec![TokenTree::Token; tokens] })
}

fn expr(kind: ExprKind, children: Vec<Node>) -> Node {
    Node::new(Kind::Expr(kind), children)
}

fn lit() -> Node {
    expr(ExprKind::Lit, vec![])
}

fn path() -> Node {
    expr(ExprKind::Path { plain_self: false }, vec![])
}

fn self_path() -> Node {
    expr(ExprKind::Path { plain_self: true }, vec![])
}

fn macro_expr(tokens: usize) -> Node {
    expr(ExprKind::Macro, vec![invocation(tokens)])
}

fn call(func: Node, args: Vec<Node>) -> Node {
    let mut children = vec![func];
    children.extend(args);
    expr(ExprKind::Call, children)
}

fn method_call(receiver: Node, name: &str, args: Vec<Node>) -> Node {
    let mut children = vec![receiver];
    children.extend(args);
    expr(ExprKind::MethodCall(name.to_string()), children)
}

fn field_of(base: Node, name: &str) -> Node {
    expr(ExprKind::Field(Member::Named(name.to_string())), vec![base])
}

fn binary(op: BinOp, left: Node, right: Node) -> Node {
    expr(ExprKind::Binary(op), vec![left, right])
}

fn unary(op: UnOp, inner: Node) -> Node {
    expr(ExprKind::Unary(op), vec![inner])
}

fn block_expr(stmts: Vec<Node>) -> Node {
    expr(ExprKind::Block, vec![block(stmts)])
}

fn if_then(cond: Node, then: Vec<Node>) -> Node {
    expr(ExprKind::If, vec![cond, block(then)])
}

fn if_else(cond: Node, then: Vec<Node>, otherwise: Node) -> Node {
    expr(ExprKind::If, vec![cond, block(then), otherwise])
}

fn while_loop(cond: Node, body: Vec<Node>) -> Node {
    expr(ExprKind::While, vec![cond, block(body)])
}

fn for_loop(iterated: Node, body: Vec<Node>) -> Node {
    expr(ExprKind::ForLoop, vec![iterated, block(body)])
}

fn endless_loop(body: Vec<Node>) -> Node {
    expr(ExprKind::Loop, vec![block(body)])
}

fn closure(mut params: Vec<Node>, body: Node) -> Node {
    params.push(body);
    expr(ExprKind::Closure, params)
}

fn range(start: Node, end: Node) -> Node {
    expr(ExprKind::Range, vec![start, end])
}

fn bare_break() -> Node {
    expr(ExprKind::Break, vec![])
}


fn check(code: &Node, expect: u64) {
    let mut metric = VisitorIfCount::default();
    metric.visit_file(code);
    assert_eq!(metric.ifcount, expect);
}

#[test]
fn test_ifcount() {
    // fn foo() { let x = 1; let y = 2; let z = 3; }
    check(
        &file(vec![item_fn(
            false,
            "foo",
            vec![],
            block(vec![
                local(Some(lit()), None),
                local(Some(lit()), None),
                local(Some(lit()), None),
            ]),
        )]),
        0,
    );
    // fn foo() { || { if true {} } }
    check(
        &file(vec![item_fn(
            false,
            "foo",
            vec![],
            block(vec![stmt(closure(vec![], block_expr(vec![stmt(if_then(lit(), vec![]))])))]),
        )]),
        1,
    );
    // fn foo() { struct A; impl A { fn inner() { if false {} else if true {} else {} } } }
    let chain = if_else(lit(), vec![], if_else(lit(), vec![], block_expr(vec![])));
    check(
        &file(vec![item_fn(
            false,
            "foo",
            vec![],
            block(vec![
                stmt_item(strukt(0, vec![])),
                stmt_item(impl_block(vec![impl_fn("inner", vec![], block(vec![stmt(chain)]))])),
            ]),
        )]),
        2,
    );
    // the nested function of the depth test
    let inner = if_then(
        lit(),
        vec![
            stmt(while_loop(binary(BinOp::Other, lit(), lit()), vec![stmt_macro(1)])),
            stmt(endless_loop(vec![
                stmt_macro(1),
                stmt(if_then(lit(), vec![stmt(bare_break())])),
            ])),
        ],
    );
    let otherwise = block_expr(vec![stmt(for_loop(range(lit(), lit()), vec![stmt_macro(1)]))]);
    let outer = if_else(lit(), vec![stmt_macro(1), stmt(inner)], otherwise);
    check(&file(vec![item_fn(false, "foo", vec![], block(vec![stmt(outer)]))]), 3);
}

#[test]
fn counts_add_up_over_files() {
    let one = file(vec![item_fn(
        false,
        "f",
        vec![],
        block(vec![stmt(if_then(lit(), vec![]))]),
    )]);
    assert_eq!(count_ifs(&one), 1);
    assert_eq!(sum_counts(&vec![1, 0, 3, u64::MAX]), 4 + u64::MAX as u128);
    assert_eq!(sum_counts(&vec![]), 0);
    let mut metric = VisitorIfCount::default();
    metric.visit_file(&one);
    metric.visit_file(&one);
    assert_eq!(metric.ifcount, 2);
}
