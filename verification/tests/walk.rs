#![allow(dead_code)]

use ifcount::measure::{
    child_attrs, count_children, has_block, has_mark, is_bodied, measure, of_sort, read, single,
    tally, Mark, Measure, Sort,
};
use ifcount::walk::{stops_at, visit, visit_under, Prune, Visit};
use ifcount::syntax::{
    BinOp, ExprKind, ItemKind, Kind, Member, MemberKind, Node, Param, StmtKind, TokenTree, UnOp,
};

fn file(items: Vec<Node>) -> Node {
    Node::new(Kind::File, items)
}

fn strukt(attrs: usize, fields: Vec<Node>) -> Node {
    Node::new(Kind::Item(ItemKind::Struct { attrs }), fields)
}

fn field(public: bool, attrs: usize) -> Node {
    Node::leaf(Kind::Field { public, attrs })
}

fn enumeration(attrs: usize, variants: Vec<Node>) -> Node {
    Node::new(Kind::Item(ItemKind::Enum { attrs }), variants)
}

fn variant(attrs: usize) -> Node {
    Node::leaf(Kind::Variant { attrs })
}

fn trait_def(generic_params: usize, supertraits: usize, members: Vec<Node>) -> Node {
    Node::new(Kind::Item(ItemKind::Trait { generic_params, supertraits }), members)
}

fn trait_fn(name: &str, mut params: Vec<Node>, default: Option<Node>) -> Node {
    params.extend(default);
    Node::new(Kind::Member(MemberKind::TraitFn { name: name.to_string() }), params)
}

fn assoc_type() -> Node {
    Node::leaf(Kind::Member(MemberKind::Type))
}

fn impl_block(members: Vec<Node>) -> Node {
    Node::new(Kind::Item(ItemKind::Impl), members)
}

fn impl_fn(name: &str, mut params: Vec<Node>, body: Node) -> Node {
    params.push(body);
    Node::new(Kind::Member(MemberKind::ImplFn { name: name.to_string() }), params)
}

fn item_fn(public: bool, name: &str, mut params: Vec<Node>, body: Node) -> Node {
    params.push(body);
    Node::new(Kind::Item(ItemKind::Fn { public, name: name.to_string() }), params)
}

fn other_item() -> Node {
    Node::leaf(Kind::Item(ItemKind::Other))
}

fn item_macro(tokens: usize) -> Node {
    Node::new(Kind::Item(ItemKind::Macro), vec![invocation(tokens)])
}

fn receiver(reference: bool, mutable: bool) -> Node {
    Node::leaf(Kind::Param(Param::Receiver { reference, mutable }))
}

fn typed(mut_ref: bool) -> Node {
    Node::leaf(Kind::Param(Param::Typed { mut_ref }))
}

fn block(stmts: Vec<Node>) -> Node {
    Node::new(Kind::Block, stmts)
}

fn local(init: Option<Node>, diverge: Option<Node>) -> Node {
    let mut children = Vec::new();
    children.extend(init);
    children.extend(diverge);
    Node::new(Kind::Stmt(StmtKind::Local), children)
}

fn stmt(inner: Node) -> Node {
    Node::new(Kind::Stmt(StmtKind::Expr), vec![inner])
}

fn stmt_item(item: Node) -> Node {
    Node::new(Kind::Stmt(StmtKind::Item), vec![item])
}

fn stmt_macro(tokens: usize) -> Node {
    Node::new(Kind::Stmt(StmtKind::Macro), vec![invocation(tokens)])
}

fn invocation(tokens: usize) -> Node {
    Node::leaf(Kind::Macro { tokens: vec![TokenTree::Token; tokens] })
}

fn expr(kind: ExprKind, children: Vec<Node>) -> Node {
    Node::new(Kind::Expr(kind), children)
}

fn lit() -> Node {
    expr(ExprKind::Lit, vec![])
}

fn path() -> Node {
    expr(ExprKind::Path { plain_self: false }, vec![])
}

fn self_path() -> Node {
    expr(ExprKind::Path { plain_self: true }, vec![])
}

fn macro_expr(tokens: usize) -> Node {
    expr(ExprKind::Macro, vec![invocation(tokens)])
}

fn call(func: Node, args: Vec<Node>) -> Node {
    let mut children = vec![func];
    children.extend(args);
    expr(ExprKind::Call, children)
}

fn method_call(receiver: Node, name: &str, args: Vec<Node>) -> Node {
    let mut children = vec![receiver];
    children.extend(args);
    expr(ExprKind::MethodCall(name.to_string()), children)
}

fn field_of(base: Node, name: &str) -> Node {
    expr(ExprKind::Field(Member::Named(name.to_string())), vec![base])
}

fn binary(op: BinOp, left: Node, right: Node) -> Node {
    expr(ExprKind::Binary(op), vec![left, right])
}

fn unary(op: UnOp, inner: Node) -> Node {
    expr(ExprKind::Unary(op), vec![inner])
}

fn block_expr(stmts: Vec<Node>) -> Node {
    expr(ExprKind::Block, vec![block(stmts)])
}

fn if_then(cond: Node, then: Vec<Node>) -> Node {
    expr(ExprKind::If, vec![cond, block(then)])
}

fn if_else(cond: Node, then: Vec<Node>, otherwise: Node) -> Node {
    expr(ExprKind::If, vec![cond, block(then), otherwise])
}

fn while_loop(cond: Node, body: Vec<Node>) -> Node {
    expr(ExprKind::While, vec![cond, block(body)])
}

fn for_loop(iterated: Node, body: Vec<Node>) -> Node {
    expr(ExprKind::ForLoop, vec![iterated, block(body)])
}

fn endless_loop(body: Vec<Node>) -> Node {
    expr(ExprKind::Loop, vec![block(body)])
}

fn closure(mut params: Vec<Node>, body: Node) -> Node {
    params.push(body);
    expr(ExprKind::Closure, params)
}

fn range(start: Node, end: Node) -> Node {
    expr(ExprKind::Range, vec![start, end])
}

fn bare_break() -> Node {
    expr(ExprKind::Break, vec![])
}


fn labels(visits: &[Visit]) -> Vec<String> {
    visits
        .iter()
        .map(|visit| {
            let name = match &visit.node.kind {
                Kind::File => "file".to_string(),
                Kind::Block => "block".to_string(),
                Kind::Item(ItemKind::Fn { name, .. }) => format!("fn {}", name),
                Kind::Item(ItemKind::Struct { .. }) => "struct".to_string(),
                Kind::Item(ItemKind::Impl) => "impl".to_string(),
                Kind::Member(MemberKind::ImplFn { name }) => format!("method {}", name),
                Kind::Stmt(_) => "stmt".to_string(),
                Kind::Expr(ExprKind::Closure) => "closure".to_string(),
                Kind::Expr(ExprKind::If) => "if".to_string(),
                Kind::Expr(_) => "expr".to_string(),
                _ => "other".to_string(),
            };
            format!("{}@{}", name, visit.enclosing)
        })
        .collect()
}

/// fn outer() { if c { || x } }   impl T { fn m() { struct S; } }
fn tree() -> Node {
    file(vec![
        item_fn(
            false,
            "outer",
            vec![],
            block(vec![stmt(if_then(path(), vec![stmt(closure(vec![], path()))]))]),
        ),
        impl_block(vec![impl_fn("m", vec![], block(vec![stmt_item(strukt(0, vec![]))]))]),
    ])
}

#[test]
fn a_walk_meets_each_node_before_what_is_under_it() {
    let tree = tree();
    assert_eq!(
        labels(&visit(&tree, Prune::Nothing, false)),
        vec![
            "file@0", "fn outer@0", "block@0", "stmt@1", "if@1", "expr@1", "block@1", "stmt@2",
            "closure@2", "expr@2", "impl@0", "method m@0", "block@0", "stmt@1", "struct@1",
        ]
    );
}

#[test]
fn a_walk_backwards_read_from_its_end_leaves_each_node_last() {
    let tree = tree();
    let mut walk = labels(&visit(&tree, Prune::Nothing, true));
    walk.reverse();
    assert_eq!(
        walk,
        vec![
            "expr@1", "expr@2", "closure@2", "stmt@2", "block@1", "if@1", "stmt@1", "block@0",
            "fn outer@0", "struct@1", "stmt@1", "block@0", "method m@0", "impl@0", "file@0",
        ]
    );
}

#[test]
fn a_walk_stops_where_it_is_told_to() {
    let tree = tree();
    assert_eq!(
        labels(&visit(&tree, Prune::Definitions, false)),
        vec!["file@0", "fn outer@0", "impl@0"]
    );
    assert_eq!(
        labels(&visit(&tree, Prune::Impls, false)),
        vec![
            "file@0", "fn outer@0", "block@0", "stmt@1", "if@1", "expr@1", "block@1", "stmt@2",
            "closure@2", "expr@2", "impl@0",
        ]
    );
    assert_eq!(
        labels(&visit(&tree, Prune::Callables, false)),
        vec!["file@0", "fn outer@0", "impl@0", "method m@0"]
    );
    assert_eq!(
        labels(&visit(&tree.children[0], Prune::Statements, false)),
        vec!["fn outer@0", "block@0", "stmt@1"]
    );
    // at the root too, unless the walk is under the root
    assert_eq!(labels(&visit(&tree.children[0], Prune::Callables, false)), vec!["fn outer@0"]);
    assert_eq!(
        labels(&visit_under(&tree.children[0], Prune::Callables, false)),
        vec!["fn outer@0", "block@0", "stmt@1", "if@1", "expr@1", "block@1", "stmt@2", "closure@2"]
    );
    assert!(stops_at(Prune::Statements, &stmt(lit())));
    assert!(!stops_at(Prune::Statements, &lit()));
    assert!(!stops_at(Prune::Nothing, &tree));
    // a block at the root encloses what is under it
    let nested = block(vec![stmt(lit())]);
    assert_eq!(labels(&visit_under(&nested, Prune::Nothing, false)), vec!["block@0", "stmt@1", "expr@1"]);
}

#[test]
fn marks_and_sorts_are_read_off_the_nodes() {
    let record = strukt(2, vec![field(true, 1), field(false, 0), field(true, 3)]);
    assert_eq!(count_children(&record, Mark::Field), 3);
    assert_eq!(count_children(&record, Mark::PublicField), 2);
    assert_eq!(count_children(&record, Mark::Variant), 0);
    assert_eq!(child_attrs(&record), vec![1, 0, 3]);
    assert!(has_mark(&field(true, 0), Mark::PublicField));
    assert!(!has_mark(&field(false, 0), Mark::PublicField));
    assert!(has_mark(&receiver(true, true), Mark::MutableParam));
    assert!(!has_mark(&receiver(true, false), Mark::MutableParam));
    assert!(!has_mark(&receiver(false, true), Mark::MutableParam));
    assert!(has_mark(&trait_fn("f", vec![], Some(block(vec![]))), Mark::DefaultFn));
    assert!(!has_mark(&trait_fn("f", vec![typed(true)], None), Mark::DefaultFn));
    assert!(has_mark(&trait_fn("f", vec![], None), Mark::TraitFn));
    assert!(has_mark(&assoc_type(), Mark::AssocType));
    assert!(has_block(&item_fn(false, "f", vec![typed(false)], block(vec![]))));
    assert!(!has_block(&record));
    assert!(is_bodied(&closure(vec![], lit())));
    assert!(is_bodied(&impl_fn("m", vec![], block(vec![]))));
    assert!(!is_bodied(&trait_fn("f", vec![], None)));
    assert!(of_sort(&record, Sort::Struct));
    assert!(of_sort(&item_fn(true, "f", vec![], block(vec![])), Sort::PublicFn));
    assert!(!of_sort(&item_fn(false, "f", vec![], block(vec![])), Sort::PublicFn));
    assert!(of_sort(&lit(), Sort::Expr));
    assert!(!of_sort(&stmt(lit()), Sort::Expr));
    assert_eq!(single(7), vec![7]);
}

#[test]
fn measures_are_gathered_in_the_order_of_the_walk() {
    let tree = file(vec![
        strukt(1, vec![field(true, 2)]),
        item_fn(false, "f", vec![typed(true)], block(vec![stmt_item(strukt(0, vec![]))])),
        item_macro(3),
    ]);
    let visits = visit(&tree, Prune::Nothing, false);
    assert_eq!(measure(Measure::StructFields, &visits), vec![1, 0]);
    assert_eq!(measure(Measure::StructAttrs, &visits), vec![1, 0]);
    assert_eq!(measure(Measure::StructFieldAttrs, &visits), vec![2]);
    assert_eq!(measure(Measure::MutableParams, &visits), vec![1]);
    assert_eq!(measure(Measure::MacroTokens, &visits), vec![3]);
    assert_eq!(measure(Measure::EnumVariants, &visits), Vec::<usize>::new());
    assert_eq!(tally(Sort::Struct, &visits), 2);
    assert_eq!(tally(Sort::If, &visits), 0);
    assert_eq!(read(Measure::StructPublicFields, &tree.children[0]), vec![1]);
    assert_eq!(read(Measure::StructPublicFields, &tree.children[1]), Vec::<usize>::new());
    assert_eq!(read(Measure::TraitFns, &trait_def(1, 2, vec![trait_fn("f", vec![], None)])), vec![1]);
    assert_eq!(read(Measure::TraitGenericParams, &trait_def(1, 2, vec![])), vec![1]);
    assert_eq!(read(Measure::TraitSupertraits, &trait_def(1, 2, vec![])), vec![2]);
}
