#![allow(dead_code)]

use ifcount::collector::{
    collect_files, collect_metric, CollectError, Family, File, FileAst, MetricCollector,
    VisitorCollector,
};
use ifcount::metrics::if_count::IfCountCollector;
use ifcount::metrics::{ComplexityStats, Files, Structs};
use ifcount::monoid::Monoid;
use ifcount::observer::{Hist, Unaggregated};
use ifcount::registry::{collect_file_metrics, collect_with, get_metric_collectors};
use ifcount::report::{count_metrics, flatten_metrics};
use ifcount::syntax::{
    BinOp, ExprKind, ItemKind, Kind, Member, MemberKind, Node, Param, StmtKind, TokenTree, UnOp,
};

fn file(items: Vec<Node>) -> Node {
    Node::new(Kind::File, items)
}

fn strukt(attrs: usize, fields: Vec<Node>) -> Node {
    Node::new(Kind::Item(ItemKind::Struct { attrs }), fields)
}

fn field(public: bool, attrs: usize) -> Node {
    Node::leaf(Kind::Field { public, attrs })
}

fn enumeration(attrs: usize, variants: Vec<Node>) -> Node {
    Node::new(Kind::Item(ItemKind::Enum { attrs }), variants)
}

fn variant(attrs: usize) -> Node {
    Node::leaf(Kind::Variant { attrs })
}

fn trait_def(generic_params: usize, supertraits: usize, members: Vec<Node>) -> Node {
    Node::new(Kind::Item(ItemKind::Trait { generic_params, supertraits }), members)
}

fn trait_fn(name: &str, mut params: Vec<Node>, default: Option<Node>) -> Node {
    params.extend(default);
    Node::new(Kind::Member(MemberKind::TraitFn { name: name.to_string() }), params)
}

fn assoc_type() -> Node {
    Node::leaf(Kind::Member(MemberKind::Type))
}

fn impl_block(members: Vec<Node>) -> Node {
    Node::new(Kind::Item(ItemKind::Impl), members)
}

fn impl_fn(name: &str, mut params: Vec<Node>, body: Node) -> Node {
    params.push(body);
    Node::new(Kind::Member(MemberKind::ImplFn { name: name.to_string() }), params)
}

fn item_fn(public: bool, name: &str, mut params: Vec<Node>, body: Node) -> Node {
    params.push(body);
    Node::new(Kind::Item(ItemKind::Fn { public, name: name.to_string() }), params)
}

fn other_item() -> Node {
    Node::leaf(Kind::Item(ItemKind::Other))
}

fn item_macro(tokens: usize) -> Node {
    Node::new(Kind::Item(ItemKind::Macro), vec![invocation(tokens)])
}

fn receiver(reference: bool, mutable: bool) -> Node {
    Node::leaf(Kind::Param(Param::Receiver { reference, mutable }))
}

fn typed(mut_ref: bool) -> Node {
    Node::leaf(Kind::Param(Param::Typed { mut_ref }))
}

fn block(stmts: Vec<Node>) -> Node {
    Node::new(Kind::Block, stmts)
}

fn local(init: Option<Node>, diverge: Option<Node>) -> Node {
    let mut children = Vec::new();
    children.extend(init);
    children.extend(diverge);
    Node::new(Kind::Stmt(StmtKind::Local), children)
}

fn stmt(inner: Node) -> Node {
    Node::new(Kind::Stmt(StmtKind::Expr), vec![inner])
}

fn stmt_item(item: Node) -> Node {
    Node::new(Kind::Stmt(StmtKind::Item), vec![item])
}

fn stmt_macro(tokens: usize) -> Node {
    Node::new(Kind::Stmt(StmtKind::Macro), vec![invocation(tokens)])
}

fn invocation(tokens: usize) -> Node {
    Node::leaf(Kind::Macro { tokens: vec![TokenTree::Token; tokens] })
}

fn expr(kind: ExprKind, children: Vec<Node>) -> Node {
    Node::new(Kind::Expr(kind), children)
}

fn lit() -> Node {
    expr(ExprKind::Lit, vec![])
}

fn path() -> Node {
    expr(ExprKind::Path { plain_self: false }, vec![])
}

fn self_path() -> Node {
    expr(ExprKind::Path { plain_self: true }, vec![])
}

fn macro_expr(tokens: usize) -> Node {
    expr(ExprKind::Macro, vec![invocation(tokens)])
}

fn call(func: Node, args: Vec<Node>) -> Node {
    let mut children = vec![func];
    children.extend(args);
    expr(ExprKind::Call, children)
}

fn method_call(receiver: Node, name: &str, args: Vec<Node>) -> Node {
    let mut children = vec![receiver];
    children.extend(args);
    expr(ExprKind::MethodCall(name.to_string()), children)
}

fn field_of(base: Node, name: &str) -> Node {
    expr(ExprKind::Field(Member::Named(name.to_string())), vec![base])
}

fn binary(op: BinOp, left: Node, right: Node) -> Node {
    expr(ExprKind::Binary(op), vec![left, right])
}

fn unary(op: UnOp, inner: Node) -> Node {
    expr(ExprKind::Unary(op), vec![inner])
}

fn block_expr(stmts: Vec<Node>) -> Node {
    expr(ExprKind::Block, vec![block(stmts)])
}

fn if_then(cond: Node, then: Vec<Node>) -> Node {
    expr(ExprKind::If, vec![cond, block(then)])
}

fn if_else(cond: Node, then: Vec<Node>, otherwise: Node) -> Node {
    expr(ExprKind::If, vec![cond, block(then), otherwise])
}

fn while_loop(cond: Node, body: Vec<Node>) -> Node {
    expr(ExprKind::While, vec![cond, block(body)])
}

fn for_loop(iterated: Node, body: Vec<Node>) -> Node {
    expr(ExprKind::ForLoop, vec![iterated, block(body)])
}

fn endless_loop(body: Vec<Node>) -> Node {
    expr(ExprKind::Loop, vec![block(body)])
}

fn closure(mut params: Vec<Node>, body: Node) -> Node {
    params.push(body);
    expr(ExprKind::Closure, params)
}

fn range(start: Node, end: Node) -> Node {
    expr(ExprKind::Range, vec![start, end])
}

fn bare_break() -> Node {
    expr(ExprKind::Break, vec![])
}


fn source(path: &str, items: Vec<Node>) -> FileAst {
    File { path: path.to_string(), content: file(items) }
}

/// struct A { pub x: u8 }
/// impl A { fn get(&self) -> u8 { if self.x > 0 { self.x } else { 0 } }  fn put(&mut self) { self.x = 1; } }
fn first() -> FileAst {
    let get = if_else(
        binary(BinOp::Other, field_of(self_path(), "x"), lit()),
        vec![stmt(field_of(self_path(), "x"))],
        block_expr(vec![stmt(lit())]),
    );
    let put = expr(ExprKind::Assign, vec![field_of(self_path(), "x"), lit()]);
    source(
        "src/a.rs",
        vec![
            strukt(0, vec![field(true, 0)]),
            impl_block(vec![
                impl_fn("get", vec![receiver(true, false)], block(vec![stmt(get)])),
                impl_fn("put", vec![receiver(true, true)], block(vec![stmt(put)])),
            ]),
        ],
    )
}

/// pub fn run(list: &mut Vec<u8>) { for x in list { if x && y || z { m!(a b) } } }
fn second() -> FileAst {
    let cond = binary(BinOp::Or, binary(BinOp::And, path(), path()), path());
    let body = for_loop(path(), vec![stmt(if_then(cond, vec![stmt(macro_expr(2))]))]);
    source("src/b.rs", vec![item_fn(true, "run", vec![typed(true)], block(vec![stmt(body)]))])
}

fn show(value: &ifcount::value::MetricValue<ifcount::value::Sample>) -> String {
    format!("{:?}", value)
}

#[test]
fn the_registry_has_its_collectors_in_order() {
    let names: Vec<&str> = get_metric_collectors().iter().map(|c| c.name()).collect();
    assert_eq!(
        names,
        vec![
            "fn_depth",
            "if_count",
            "fn_arg_count",
            "structs",
            "enums",
            "trait_def",
            "complexity",
            "statement_size",
            "per_file",
            "lcom4_per_impl_block",
            "macro",
        ]
    );
}

#[test]
fn a_corpus_is_reported_collector_by_collector() {
    let files = vec![first(), second()];
    let metrics = collect_file_metrics(&files).unwrap();
    let shown: Vec<(String, String)> =
        metrics.iter().map(|(name, value)| (name.clone(), show(value))).collect();
    let expect = vec![
        ("fn_depth", "Leaf(Samples([2, 1, 3]))"),
        ("if_count", "Leaf(Number(2))"),
        ("fn_arg_count", r#"Object([("mutable", Leaf(Samples([0, 1, 1])))])"#),
        (
            "structs",
            concat_structs(),
        ),
        (
            "enums",
            r#"Object([("variant_count", Leaf(Samples([]))), ("attr_count", Leaf(Samples([]))), ("variant_attr_count", Leaf(Samples([])))])"#,
        ),
        (
            "trait_def",
            r#"Object([("generic_param_count", Leaf(Samples([]))), ("supertrait_count", Leaf(Samples([]))), ("default_fn_count", Leaf(Samples([]))), ("all_fn_count", Leaf(Samples([]))), ("assoc_type_count", Leaf(Samples([])))])"#,
        ),
        (
            "complexity",
            r#"Object([("item_fn", Leaf(Samples([5]))), ("impl_item_fn", Leaf(Samples([2, 0]))), ("closure", Leaf(Samples([]))), ("all_fn", Leaf(Samples([2, 0, 5])))])"#,
        ),
        ("statement_size", "Leaf(Samples([2, 1, 6, 4, 1, 6, 2]))"),
        (
            "per_file",
            r#"Object([("struct_count", Leaf(Samples([1, 0]))), ("enum_count", Leaf(Samples([0, 0]))), ("impl_block_count", Leaf(Samples([1, 0]))), ("pub_fn_count", Leaf(Samples([0, 1])))])"#,
        ),
        ("lcom4_per_impl_block", "Leaf(Samples([1]))"),
        (
            "macro",
            r#"Object([("argument_size", Leaf(Samples([2]))), ("count_per_file", Leaf(Samples([0, 1])))])"#,
        ),
    ];
    for ((name, value), (want_name, want_value)) in shown.iter().zip(expect.iter()) {
        assert_eq!(name, want_name);
        assert_eq!(value, want_value, "{}", name);
    }
    assert_eq!(shown.len(), expect.len());
    // 1 + 1 + 1 + 4 + 3 + 5 + 4 + 1 + 4 + 1 + 2
    assert_eq!(count_metrics(&metrics), 27);
    assert_eq!(flatten_metrics(&metrics).len(), 27);
}

fn concat_structs() -> &'static str {
    r#"Object([("fields_count", Leaf(Samples([1]))), ("public_fields_count", Leaf(Samples([1]))), ("attrs_count", Leaf(Samples([0]))), ("field_attr_count", Leaf(Samples([0])))])"#
}

#[test]
fn files_one_by_one_and_then_combined_give_what_all_at_once_give() {
    let collector: VisitorCollector<Structs<Unaggregated>> = VisitorCollector::new("structs");
    let files = vec![first(), second(), first()];
    // each file by itself, as workers would take them
    let apart: Vec<Structs<Unaggregated>> =
        files.iter().map(|file| collector.collect_file(file).unwrap()).collect();
    let total = collector.aggregate_metrics(apart);
    let together = collect_metric(&collector, &files).unwrap();
    assert_eq!(show(&collector.to_value(&total)), show(&together));
    // split in two and combined
    let left = collector.aggregate_metrics(collect_files(&collector, &files[..1].to_vec_of()).unwrap());
    let right = collector.aggregate_metrics(collect_files(&collector, &files[1..].to_vec_of()).unwrap());
    assert_eq!(show(&left.unite(right).to_value()), show(&together));
}

trait ToVecOf {
    fn to_vec_of(&self) -> Vec<FileAst>;
}

impl ToVecOf for [FileAst] {
    fn to_vec_of(&self) -> Vec<FileAst> {
        self.iter()
            .map(|file| match file.path.as_str() {
                "src/a.rs" => first(),
                _ => second(),
            })
            .collect()
    }
}

#[test]
fn a_family_reports_with_either_observer() {
    let stats = Files::<Hist<8>>::collect(&first().content).unwrap();
    assert_eq!(
        show(&stats.to_value()),
        r#"Object([("struct_count", Object([("sum", Leaf(Number(1))), ("avg", Leaf(Ratio(1, 1))), ("mode", Leaf(Number(1)))])), ("enum_count", Object([("sum", Leaf(Number(0))), ("avg", Leaf(Ratio(0, 1))), ("mode", Leaf(Number(0)))])), ("impl_block_count", Object([("sum", Leaf(Number(1))), ("avg", Leaf(Ratio(1, 1))), ("mode", Leaf(Number(1)))])), ("pub_fn_count", Object([("sum", Leaf(Number(0))), ("avg", Leaf(Ratio(0, 1))), ("mode", Leaf(Number(0)))]))])"#
    );
    let empty = Files::<Hist<8>>::init();
    assert_eq!(
        show(&empty.struct_count.to_value_of()),
        r#"Object([("sum", Leaf(Number(0))), ("avg", Leaf(Null)), ("mode", Leaf(Null))])"#
    );
}

trait ToValueOf {
    fn to_value_of(&self) -> ifcount::value::MetricValue<ifcount::value::Sample>;
}

impl<const N: usize> ToValueOf for Hist<N> {
    fn to_value_of(&self) -> ifcount::value::MetricValue<ifcount::value::Sample> {
        ifcount::observer::Sampler::to_value(self)
    }
}

#[test]
fn the_if_count_adds_up() {
    let collector = IfCountCollector;
    assert_eq!(collector.name(), "if_count");
    let files = vec![first(), second(), first()];
    assert_eq!(show(&collect_metric(&collector, &files).unwrap()), "Leaf(Number(3))");
    let none: Vec<FileAst> = vec![];
    assert_eq!(show(&collect_metric(&collector, &none).unwrap()), "Leaf(Number(0))");
}

#[test]
fn a_function_without_a_body_is_an_error() {
    let headless = Node::new(
        Kind::Item(ItemKind::Fn { public: true, name: "f".to_string() }),
        vec![typed(true)],
    );
    let files = vec![first(), source("bad.rs", vec![headless])];
    assert_eq!(collect_file_metrics(&files).err(), Some(CollectError::Malformed));
    // the other collectors take the file as it is
    let structs: VisitorCollector<Structs<Unaggregated>> = VisitorCollector::new("structs");
    assert!(collect_metric(&structs, &files).is_ok());
    let depths = ifcount::metrics::fn_depth::make_collector();
    assert_eq!(depths.collect_metric(&files).err(), Some(CollectError::Malformed));
    assert_eq!(depths.name(), "fn_depth");
}

#[test]
fn a_score_that_is_too_large_is_an_error() {
    // `if` inside `if`, 92682 deep: 1 + 2 + .. + 92682 is more than a score holds
    let mut tree = if_then(lit(), vec![]);
    for _ in 0..92_681 {
        tree = if_then(lit(), vec![stmt(tree)]);
    }
    let huge = source("huge.rs", vec![item_fn(false, "f", vec![], block(vec![stmt(tree)]))]);
    assert_eq!(
        ComplexityStats::<Unaggregated>::collect(&huge.content).err(),
        Some(CollectError::TooLarge)
    );
    let files = vec![first(), huge];
    assert_eq!(collect_file_metrics(&files).err(), Some(CollectError::TooLarge));
    let collectors = get_metric_collectors();
    assert_eq!(collect_with(&collectors, &files).err(), Some(CollectError::TooLarge));
    // take the tree apart from the top, so that dropping it does not recurse
    let mut rest: Vec<Node> = files.into_iter().map(|file| file.content).collect();
    while let Some(mut node) = rest.pop() {
        rest.append(&mut node.children);
    }
}
