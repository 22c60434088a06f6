//! The syntax tree that the metrics read: a tree of nodes, each with a kind
//! and its children.
//!
//! The children that a kind names come first, in the order in which it names
//! them. Types, patterns and attributes of a node, which matter only for what
//! stands in them, follow as children of their own kinds.

use vstd::prelude::*;
use crate::span::DelimSpan;

verus! {

/// A unary operator.
#[derive(Clone, Copy, Debug, PartialEq, Eq)]
pub enum UnOp {
    /// `*`
    Deref,
    /// `!`
    Not,
    /// `-`
    Neg,
}

/// A binary operator, as far as the metrics tell them apart.
#[derive(Clone, Copy, Debug, PartialEq, Eq)]
pub enum BinOp {
    /// `&&`
    And,
    /// `||`
    Or,
    /// Any other binary operator.
    Other,
}

/// A field of a value, by name or by position.
#[derive(Clone, Debug, PartialEq, Eq)]
pub enum Member {
    Named(String),
    Unnamed(u32),
}

/// A tree of tokens, as a macro invocation holds them.
#[derive(Clone, Debug)]
pub enum TokenTree {
    /// A delimited group.
    Group(DelimSpan),
    /// A single token.
    Token,
}

/// A parameter of a function or of a closure.
#[derive(Clone, Copy, Debug, PartialEq, Eq)]
pub enum Param {
    /// `self`, `mut self`, `&self` or `&mut self`.
    Receiver { reference: bool, mutable: bool },
    /// A pattern with a type; `mut_ref` where the type is `&mut _`.
    Typed { mut_ref: bool },
    /// A reference pattern without a type: `&x` or `&mut x`.
    Reference { mutable: bool },
    /// Any other pattern without a type.
    Other,
}

/// An expression.
#[derive(Clone, Debug)]
pub enum ExprKind {
    /// `[a, b]`: the elements.
    Array,
    /// `a = b`: target, value.
    Assign,
    /// `async { .. }`: the block.
    Async,
    /// `a.await`: the awaited expression.
    Await,
    /// `a + b`: left, right.
    Binary(BinOp),
    /// `{ .. }`: the block.
    Block,
    /// `break` or `break a`: the value, if any.
    Break,
    /// `f(a, b)`: the function, then the arguments.
    Call,
    /// `a as T`: the expression.
    Cast,
    /// `|a, b| c`: the parameters, then the body.
    Closure,
    /// `const { .. }`: the block.
    Const,
    /// `continue`.
    Continue,
    /// `a.b`: the base.
    Field(Member),
    /// `for p in a { .. }`: the iterated expression, the body.
    ForLoop,
    /// An expression in invisible delimiters: the expression.
    Group,
    /// `if a { .. } else ..`: condition, block, then the `else` expression if
    /// there is one.
    If,
    /// `a[b]`: the indexed expression, the index.
    Index,
    /// `_`.
    Infer,
    /// `let p = a`: the expression.
    Let,
    /// A literal.
    Lit,
    /// `loop { .. }`: the body.
    Loop,
    /// `m!(..)`: the macro invocation.
    Macro,
    /// `match a { .. }`: the scrutinee, then the arms.
    Match,
    /// `a.m(b)`: the receiver, then the arguments.
    MethodCall(String),
    /// `(a)`: the expression.
    Paren,
    /// A path; `plain_self` where it is the bare word `self`.
    Path { plain_self: bool },
    /// `a..b`: the bounds that are there.
    Range,
    /// `&a`: the expression.
    Reference,
    /// `[a; n]`: the element, the length.
    Repeat,
    /// `return` or `return a`: the value, if any.
    Return,
    /// `S { a: b, ..c }`: the field values, then the rest if there is one.
    Struct,
    /// `a?`: the expression.
    Try,
    /// `try { .. }`: the block.
    TryBlock,
    /// `(a, b)`: the elements.
    Tuple,
    /// `!a`: the operand.
    Unary(UnOp),
    /// `unsafe { .. }`: the block.
    Unsafe,
    /// Tokens that no other kind takes.
    Verbatim,
    /// `while a { .. }`: condition, body.
    While,
    /// `yield` or `yield a`: the value, if any.
    Yield,
}

/// A statement.
#[derive(Clone, Copy, Debug, PartialEq, Eq)]
pub enum StmtKind {
    /// `let p = a else { .. };`: the initializer if there is one, then the
    /// diverging branch if there is one.
    Local,
    /// An item in statement position: the item.
    Item,
    /// An expression, with or without a semicolon: the expression.
    Expr,
    /// A macro invocation in statement position: the invocation.
    Macro,
}

/// An item of a file, of a module or of a block.
#[derive(Clone, Debug)]
pub enum ItemKind {
    /// `const A: T = a;`: the value.
    Const,
    /// `enum E { .. }` with `attrs` attributes: the variants.
    Enum { attrs: usize },
    /// `fn f(..) { .. }`: the parameters, then the body.
    Fn { public: bool, name: String },
    /// `impl T { .. }`: the members.
    Impl,
    /// `m! { .. }`: the macro invocation.
    Macro,
    /// `mod m { .. }`: the items.
    Mod,
    /// `static A: T = a;`: the value.
    Static,
    /// `struct S { .. }` with `attrs` attributes: the fields.
    Struct { attrs: usize },
    /// `trait T<..>: .. { .. }`: the members.
    Trait { generic_params: usize, supertraits: usize },
    /// Any other item.
    Other,
}

/// A member of a trait or of an `impl` block.
#[derive(Clone, Debug)]
pub enum MemberKind {
    /// A function of an `impl` block: the parameters, then the body.
    ImplFn { name: String },
    /// A function of a trait: the parameters, then the default body if there
    /// is one.
    TraitFn { name: String },
    /// An associated type.
    Type,
    /// An associated constant: the value, if any.
    Const,
    /// A macro invocation: the invocation.
    Macro,
    /// Any other member.
    Other,
}

/// What a node is.
#[derive(Clone, Debug)]
pub enum Kind {
    /// A source file: its items.
    File,
    Item(ItemKind),
    Member(MemberKind),
    /// A field of a struct or of a variant, with `attrs` attributes.
    Field { public: bool, attrs: usize },
    /// A variant of an enum, with `attrs` attributes: its fields, then its
    /// discriminant if it has one.
    Variant { attrs: usize },
    /// A parameter.
    Param(Param),
    /// `{ .. }`: the statements.
    Block,
    Stmt(StmtKind),
    Expr(ExprKind),
    /// An arm of a `match`: the guard if `guarded`, then the body.
    Arm { guarded: bool },
    /// A macro invocation and the token trees handed to it.
    Macro { tokens: Vec<TokenTree> },
    /// A type: the expressions and macro invocations that stand in it.
    Type,
    /// A pattern: the expressions and macro invocations that stand in it.
    Pat,
    /// An attribute: the expression that it holds, if any.
    Attribute,
}

/// A node of a syntax tree.
#[derive(Debug)]
pub struct Node {
    pub kind: Kind,
    pub children: Vec<Node>,
}

impl Node {
    /// A node of `kind` with `children`.
    pub fn new(kind: Kind, children: Vec<Node>) -> (node: Node)
        ensures
            node.kind == kind,
            node.children == children,
    {
        Node { kind, children }
    }

    /// A node of `kind` without children.
    pub fn leaf(kind: Kind) -> (node: Node)
        ensures
            node.kind == kind,
            node.children@.len() == 0,
    {
        Node { kind, children: Vec::new() }
    }

}

/// The number of nodes of the tree under `node`, `node` included.
pub open spec fn size(node: Node) -> nat
    decreases node, 1nat,
{
    1 + size_all(node.children@)
}

/// The number of nodes of the trees under `nodes`.
pub open spec fn size_all(nodes: Seq<Node>) -> nat
    decreases nodes, 0nat,
{
    if nodes.len() == 0 {
        0
    } else {
        size_all(nodes.drop_last()) + size(nodes.last())
    }
}

} // verus!
