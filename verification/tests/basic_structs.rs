#![allow(dead_code)]

use ifcount::metrics::Structs;
use ifcount::monoid::Monoid;
use ifcount::observer::Unaggregated;
use ifcount::syntax::{
    BinOp, ExprKind, ItemKind, Kind, Member, MemberKind, Node, Param, StmtKind, TokenTree, UnOp,
};

fn file(items: Vec<Node>) -> Node {
    Node::new(Kind::File, items)
}

fn strukt(attrs: usize, fields: Vec<Node>) -> Node {
    Node::new(Kind::Item(ItemKind::Struct { attrs }), fields)
}

fn field(public: bool, attrs: usize) -> Node {
    Node::leaf(Kind::Field { public, attrs })
}

fn enumeration(attrs: usize, variants: Vec<Node>) -> Node {
    Node::new(Kind::Item(ItemKind::Enum { attrs }), variants)
}

fn variant(attrs: usize) -> Node {
    Node::leaf(Kind::Variant { attrs })
}

fn trait_def(generic_params: usize, supertraits: usize, members: Vec<Node>) -> Node {
    Node::new(Kind::Item(ItemKind::Trait { generic_params, supertraits }), members)
}

fn trait_fn(name: &str, mut params: Vec<Node>, default: Option<Node>) -> Node {
    params.extend(default);
    Node::new(Kind::Member(MemberKind::TraitFn { name: name.to_string() }), params)
}

fn assoc_type() -> Node {
    Node::leaf(Kind::Member(MemberKind::Type))
}

fn impl_block(members: Vec<Node>) -> Node {
    Node::new(Kind::Item(ItemKind::Impl), members)
}

fn impl_fn(name: &str, mut params: Vec<Node>, body: Node) -> Node {
    params.push(body);
    Node::new(Kind::Member(MemberKind::ImplFn { name: name.to_string() }), params)
}

fn item_fn(public: bool, name: &str, mut params: Vec<Node>, body: Node) -> Node {
    params.push(body);
    Node::new(Kind::Item(ItemKind::Fn { public, name: name.to_string() }), params)
}

fn other_item() -> Node {
    Node::leaf(Kind::Item(ItemKind::Other))
}

fn item_macro(tokens: usize) -> Node {
    Node::new(Kind::Item(ItemKind::Macro), vec![invocation(tokens)])
}

fn receiver(reference: bool, mutable: bool) -> Node {
    Node::leaf(Kind::Param(Param::Receiver { reference, mutable }))
}

fn typed(mut_ref: bool) -> Node {
    Node::leaf(Kind::Param(Param::Typed { mut_ref }))
}

fn block(stmts: Vec<Node>) -> Node {
    Node::new(Kind::Block, stmts)
}

fn local(init: Option<Node>, diverge: Option<Node>) -> Node {
    let mut children = Vec::new();
    children.extend(init);
    children.extend(diverge);
    Node::new(Kind::Stmt(StmtKind::Local), children)
}

fn stmt(inner: Node) -> Node {
    Node::new(Kind::Stmt(StmtKind::Expr), vec![inner])
}

fn stmt_item(item: Node) -> Node {
    Node::new(Kind::Stmt(StmtKind::Item), vec![item])
}

fn stmt_macro(tokens: usize) -> Node {
    Node::new(Kind::Stmt(StmtKind::Macro), vec![invocation(tokens)])
}

fn invocation(tokens: usize) -> Node {
    Node::leaf(Kind::Macro { tokens: vec![TokenTree::Token; tokens] })
}

fn expr(kind: ExprKind, children: Vec<Node>) -> Node {
    Node::new(Kind::Expr(kind), children)
}

fn lit() -> Node {
    expr(ExprKind::Lit, vec![])
}

fn path() -> Node {
    expr(ExprKind::Path { plain_self: false }, vec![])
}

fn self_path() -> Node {
    expr(ExprKind::Path { plain_self: true }, vec![])
}

fn macro_expr(tokens: usize) -> Node {
    expr(ExprKind::Macro, vec![invocation(tokens)])
}

fn call(func: Node, args: Vec<Node>) -> Node {
    let mut children = vec![func];
    children.extend(args);
    expr(ExprKind::Call, children)
}

fn method_call(receiver: Node, name: &str, args: Vec<Node>) -> Node {
    let mut children = vec![receiver];
    children.extend(args);
    expr(ExprKind::MethodCall(name.to_string()), children)
}

fn field_of(base: Node, name: &str) -> Node {
    expr(ExprKind::Field(Member::Named(name.to_string())), vec![base])
}

fn binary(op: BinOp, left: Node, right: Node) -> Node {
    expr(ExprKind::Binary(op), vec![left, right])
}

fn unary(op: UnOp, inner: Node) -> Node {
    expr(ExprKind::Unary(op), vec![inner])
}

fn block_expr(stmts: Vec<Node>) -> Node {
    expr(ExprKind::Block, vec![block(stmts)])
}

fn if_then(cond: Node, then: Vec<Node>) -> Node {
    expr(ExprKind::If, vec![cond, block(then)])
}

fn if_else(cond: Node, then: Vec<Node>, otherwise: Node) -> Node {
    expr(ExprKind::If, vec![cond, block(then), otherwise])
}

fn while_loop(cond: Node, body: Vec<Node>) -> Node {
    expr(ExprKind::While, vec![cond, block(body)])
}

fn for_loop(iterated: Node, body: Vec<Node>) -> Node {
    expr(ExprKind::ForLoop, vec![iterated, block(body)])
}

fn endless_loop(body: Vec<Node>) -> Node {
    expr(ExprKind::Loop, vec![block(body)])
}

fn closure(mut params: Vec<Node>, body: Node) -> Node {
    params.push(body);
    expr(ExprKind::Closure, params)
}

fn range(start: Node, end: Node) -> Node {
    expr(ExprKind::Range, vec![start, end])
}

fn bare_break() -> Node {
    expr(ExprKind::Break, vec![])
}


fn check(
    code: &Node,
    fields: Vec<usize>,
    public_fields: Vec<usize>,
    attrs: Vec<usize>,
    field_attrs: Vec<usize>,
) {
    let mut metric = Structs::<Unaggregated>::init();
    metric.visit_file(code);
    assert_eq!(metric.fields_count.values(), &fields);
    assert_eq!(metric.public_fields_count.values(), &public_fields);
    assert_eq!(metric.attrs_count.values(), &attrs);
    assert_eq!(metric.field_attr_count.values(), &field_attrs);
}

#[test]
fn struct_metrics() {
    // #[derive(Debug)] struct Thing { u: i32 }
    // #[derive(Debug)] #[allow(dead_code)]
    // struct Thing2 { pub u: i32, pub v: u32, #[allow(dead_code)] z: () }
    let code = file(vec![
        strukt(1, vec![field(false, 0)]),
        strukt(2, vec![field(true, 0), field(true, 0), field(false, 1)]),
    ]);
    check(&code, vec![1, 3], vec![0, 2], vec![1, 2], vec![0, 0, 0, 1]);
}

#[test]
fn basic_structs_count_file() {
    // struct A;
    // #[derive(Debug)] struct Name { #[attr1] #[attr2] field: Type }
    // #[derive(Debug)] enum Name { Variant1, Variant2 }
    // struct Tuple(A);
    // pub struct Public { pub f1: Ty1, f2: Ty2, f3: Ty3 }
    // struct TupleWithPubs(pub i32, pub Box<Type>, String);
    let code = file(vec![
        strukt(0, vec![]),
        strukt(1, vec![field(false, 2)]),
        enumeration(1, vec![variant(0), variant(0)]),
        strukt(0, vec![field(false, 0)]),
        strukt(0, vec![field(true, 0), field(false, 0), field(false, 0)]),
        strukt(0, vec![field(true, 0), field(true, 0), field(false, 0)]),
    ]);
    check(
        &code,
        vec![0, 1, 1, 3, 3],
        vec![0, 0, 0, 1, 2],
        vec![0, 1, 0, 0, 0],
        vec![2, 0, 0, 0, 0, 0, 0, 0],
    );
}
