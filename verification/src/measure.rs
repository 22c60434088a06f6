//! The plain counts: what a metric reads off a node and its children.

use vstd::prelude::*;
use crate::syntax::{ExprKind, ItemKind, Kind, MemberKind, Node, Param};
use crate::walk::{Visit, Visited, visited};

verus! {

/// A property that a node may have.
#[derive(Clone, Copy, Debug, PartialEq, Eq, Structural)]
pub enum Mark {
    /// It is a field.
    Field,
    /// It is a public field.
    PublicField,
    /// It is a variant.
    Variant,
    /// It is a function of a trait.
    TraitFn,
    /// It is a function of a trait with a default body.
    DefaultFn,
    /// It is an associated type.
    AssocType,
    /// It is a parameter through which the callee can change what the caller
    /// holds: `&mut self`, or one whose type or pattern is `&mut`.
    MutableParam,
}

/// How many of `nodes` are blocks.
pub open spec fn blocks_among(nodes: Seq<Node>) -> nat
    decreases nodes.len(),
{
    if nodes.len() == 0 {
        0
    } else {
        blocks_among(nodes.drop_last()) + if nodes.last().kind is Block {
            1nat
        } else {
            0nat
        }
    }
}

/// Whether `node` has the property `mark`.
pub open spec fn has(node: Node, mark: Mark) -> bool {
    match mark {
        Mark::Field => node.kind is Field,
        Mark::PublicField => node.kind matches Kind::Field { public, .. } && public,
        Mark::Variant => node.kind is Variant,
        Mark::TraitFn => node.kind matches Kind::Member(MemberKind::TraitFn { .. }),
        Mark::DefaultFn => node.kind matches Kind::Member(MemberKind::TraitFn { .. })
            && blocks_among(node.children@) > 0,
        Mark::AssocType => node.kind matches Kind::Member(MemberKind::Type),
        Mark::MutableParam => match node.kind {
            Kind::Param(Param::Receiver { reference, mutable }) => reference && mutable,
            Kind::Param(Param::Typed { mut_ref }) => mut_ref,
            Kind::Param(Param::Reference { mutable }) => mutable,
            _ => false,
        },
    }
}

/// How many of `nodes` have the property `mark`.
pub open spec fn count_with(nodes: Seq<Node>, mark: Mark) -> nat
    decreases nodes.len(),
{
    if nodes.len() == 0 {
        0
    } else {
        count_with(nodes.drop_last(), mark) + if has(nodes.last(), mark) {
            1nat
        } else {
            0nat
        }
    }
}

/// The number of attributes of a field or of a variant.
pub open spec fn attrs_of(node: Node) -> Option<usize> {
    match node.kind {
        Kind::Field { attrs, .. } => Some(attrs),
        Kind::Variant { attrs } => Some(attrs),
        _ => None,
    }
}

/// The numbers of attributes of the fields and variants among `nodes`, in
/// their order.
pub open spec fn attrs_among(nodes: Seq<Node>) -> Seq<usize>
    decreases nodes.len(),
{
    if nodes.len() == 0 {
        Seq::empty()
    } else {
        match attrs_of(nodes.last()) {
            Some(attrs) => attrs_among(nodes.drop_last()).push(attrs),
            None => attrs_among(nodes.drop_last()),
        }
    }
}

/// Whether `node` has a block among its children.
pub fn has_block(node: &Node) -> (yes: bool)
    ensures
        yes == (blocks_among(node.children@) > 0),
{
    let mut i: usize = 0;
    let n = node.children.len();
    while i < n
        invariant
            i <= n,
            n == node.children@.len(),
            blocks_among(node.children@.take(i as int)) == 0,
        decreases n - i,
    {
        proof {
            assert(node.children@.take(i + 1).drop_last() =~= node.children@.take(i as int));
        }
        if let Kind::Block = &node.children[i].kind {
            proof {
                lemma_blocks_grow(node.children@, i + 1);
            }
            return true;
        }
        i += 1;
    }
    proof {
        assert(node.children@.take(n as int) =~= node.children@);
    }
    false
}

proof fn lemma_blocks_grow(nodes: Seq<Node>, upto: int)
    requires
        0 <= upto <= nodes.len(),
    ensures
        blocks_among(nodes.take(upto)) <= blocks_among(nodes),
    decreases nodes.len(),
{
    if upto < nodes.len() {
        lemma_blocks_grow(nodes.drop_last(), upto);
        assert(nodes.drop_last().take(upto) =~= nodes.take(upto));
    } else {
        assert(nodes.take(upto) =~= nodes);
    }
}

/// Whether `node` has the property `mark`.
pub fn has_mark(node: &Node, mark: Mark) -> (yes: bool)
    ensures
        yes == has(*node, mark),
{
    match mark {
        Mark::Field => match &node.kind {
            Kind::Field { .. } => true,
            _ => false,
        },
        Mark::PublicField => match &node.kind {
            Kind::Field { public, .. } => *public,
            _ => false,
        },
        Mark::Variant => match &node.kind {
            Kind::Variant { .. } => true,
            _ => false,
        },
        Mark::TraitFn => match &node.kind {
            Kind::Member(MemberKind::TraitFn { .. }) => true,
            _ => false,
        },
        Mark::DefaultFn => match &node.kind {
            Kind::Member(MemberKind::TraitFn { .. }) => has_block(node),
            _ => false,
        },
        Mark::AssocType => match &node.kind {
            Kind::Member(MemberKind::Type) => true,
            _ => false,
        },
        Mark::MutableParam => match &node.kind {
            Kind::Param(Param::Receiver { reference, mutable }) => *reference && *mutable,
            Kind::Param(Param::Typed { mut_ref }) => *mut_ref,
            Kind::Param(Param::Reference { mutable }) => *mutable,
            _ => false,
        },
    }
}

/// How many children of `node` have the property `mark`.
pub fn count_children(node: &Node, mark: Mark) -> (count: usize)
    ensures
        count == count_with(node.children@, mark),
{
    let mut count: usize = 0;
    let mut i: usize = 0;
    let n = node.children.len();
    while i < n
        invariant
            i <= n,
            n == node.children@.len(),
            count == count_with(node.children@.take(i as int), mark),
            count <= i,
        decreases n - i,
    {
        proof {
            assert(node.children@.take(i + 1).drop_last() =~= node.children@.take(i as int));
        }
        if has_mark(&node.children[i], mark) {
            count += 1;
        }
        i += 1;
    }
    proof {
        assert(node.children@.take(n as int) =~= node.children@);
    }
    count
}

/// The numbers of attributes of the fields and variants among the children
/// of `node`, in their order.
pub fn child_attrs(node: &Node) -> (attrs: Vec<usize>)
    ensures
        attrs@ == attrs_among(node.children@),
{
    let mut attrs: Vec<usize> = Vec::new();
    let mut i: usize = 0;
    let n = node.children.len();
    while i < n
        invariant
            i <= n,
            n == node.children@.len(),
            attrs@ == attrs_among(node.children@.take(i as int)),
        decreases n - i,
    {
        proof {
            assert(node.children@.take(i + 1).drop_last() =~= node.children@.take(i as int));
        }
        match &node.children[i].kind {
            Kind::Field { attrs: count, .. } => attrs.push(*count),
            Kind::Variant { attrs: count } => attrs.push(*count),
            _ => {},
        }
        i += 1;
    }
    proof {
        assert(node.children@.take(n as int) =~= node.children@);
    }
    attrs
}


/// What a metric reads off a node.
#[derive(Clone, Copy, Debug, PartialEq, Eq, Structural)]
pub enum Measure {
    /// Of a struct, the number of its fields.
    StructFields,
    /// Of a struct, the number of its public fields.
    StructPublicFields,
    /// Of a struct, the number of its attributes.
    StructAttrs,
    /// Of a struct, the number of attributes of each of its fields.
    StructFieldAttrs,
    /// Of an enum, the number of its variants.
    EnumVariants,
    /// Of an enum, the number of its attributes.
    EnumAttrs,
    /// Of an enum, the number of attributes of each of its variants.
    EnumVariantAttrs,
    /// Of a trait, the number of its generic parameters.
    TraitGenericParams,
    /// Of a trait, the number of its supertraits.
    TraitSupertraits,
    /// Of a trait, the number of its functions with a default body.
    TraitDefaultFns,
    /// Of a trait, the number of its functions.
    TraitFns,
    /// Of a trait, the number of its associated types.
    TraitAssocTypes,
    /// Of a function with a body and of a closure, the number of its
    /// parameters that are mutable references.
    MutableParams,
    /// Of a macro invocation, the number of token trees handed to it.
    MacroTokens,
}

/// Whether `node` is a function with a body or a closure.
pub open spec fn has_body(node: Node) -> bool {
    ||| node.kind matches Kind::Item(ItemKind::Fn { .. })
    ||| node.kind matches Kind::Member(MemberKind::ImplFn { .. })
    ||| node.kind matches Kind::Expr(ExprKind::Closure)
    ||| has(node, Mark::DefaultFn)
}

/// What `measure` reads off `node`: nothing where the node is not of the
/// kind that it measures.
pub open spec fn reading(measure: Measure, node: Node) -> Seq<usize> {
    match measure {
        Measure::StructFields => match node.kind {
            Kind::Item(ItemKind::Struct { .. }) => seq![
                count_with(node.children@, Mark::Field) as usize,
            ],
            _ => Seq::empty(),
        },
        Measure::StructPublicFields => match node.kind {
            Kind::Item(ItemKind::Struct { .. }) => seq![
                count_with(node.children@, Mark::PublicField) as usize,
            ],
            _ => Seq::empty(),
        },
        Measure::StructAttrs => match node.kind {
            Kind::Item(ItemKind::Struct { attrs }) => seq![attrs],
            _ => Seq::empty(),
        },
        Measure::StructFieldAttrs => match node.kind {
            Kind::Item(ItemKind::Struct { .. }) => attrs_among(node.children@),
            _ => Seq::empty(),
        },
        Measure::EnumVariants => match node.kind {
            Kind::Item(ItemKind::Enum { .. }) => seq![
                count_with(node.children@, Mark::Variant) as usize,
            ],
            _ => Seq::empty(),
        },
        Measure::EnumAttrs => match node.kind {
            Kind::Item(ItemKind::Enum { attrs }) => seq![attrs],
            _ => Seq::empty(),
        },
        Measure::EnumVariantAttrs => match node.kind {
            Kind::Item(ItemKind::Enum { .. }) => attrs_among(node.children@),
            _ => Seq::empty(),
        },
        Measure::TraitGenericParams => match node.kind {
            Kind::Item(ItemKind::Trait { generic_params, .. }) => seq![generic_params],
            _ => Seq::empty(),
        },
        Measure::TraitSupertraits => match node.kind {
            Kind::Item(ItemKind::Trait { supertraits, .. }) => seq![supertraits],
            _ => Seq::empty(),
        },
        Measure::TraitDefaultFns => match node.kind {
            Kind::Item(ItemKind::Trait { .. }) => seq![
                count_with(node.children@, Mark::DefaultFn) as usize,
            ],
            _ => Seq::empty(),
        },
        Measure::TraitFns => match node.kind {
            Kind::Item(ItemKind::Trait { .. }) => seq![
                count_with(node.children@, Mark::TraitFn) as usize,
            ],
            _ => Seq::empty(),
        },
        Measure::TraitAssocTypes => match node.kind {
            Kind::Item(ItemKind::Trait { .. }) => seq![
                count_with(node.children@, Mark::AssocType) as usize,
            ],
            _ => Seq::empty(),
        },
        Measure::MutableParams => if has_body(node) {
            seq![count_with(node.children@, Mark::MutableParam) as usize]
        } else {
            Seq::empty()
        },
        Measure::MacroTokens => match node.kind {
            Kind::Macro { tokens } => seq![tokens@.len() as usize],
            _ => Seq::empty(),
        },
    }
}

/// What `measure` reads off the nodes of a walk, in the order of the walk.
pub open spec fn gather(measure: Measure, visits: Seq<Visited>) -> Seq<usize>
    decreases visits.len(),
{
    if visits.len() == 0 {
        Seq::empty()
    } else {
        gather(measure, visits.drop_last()) + reading(measure, visits.last().node)
    }
}

/// Whether `node` is a function with a body or a closure.
pub fn is_bodied(node: &Node) -> (yes: bool)
    ensures
        yes == has_body(*node),
{
    match &node.kind {
        Kind::Item(ItemKind::Fn { .. }) => true,
        Kind::Member(MemberKind::ImplFn { .. }) => true,
        Kind::Expr(ExprKind::Closure) => true,
        Kind::Member(MemberKind::TraitFn { .. }) => has_block(node),
        _ => false,
    }
}

/// A run of the one value `value`.
pub fn single(value: usize) -> (values: Vec<usize>)
    ensures
        values@ == seq![value],
{
    let mut values: Vec<usize> = Vec::new();
    values.push(value);
    values
}

/// What `measure` reads off `node`.
pub fn read(measure: Measure, node: &Node) -> (values: Vec<usize>)
    ensures
        values@ == reading(measure, *node),
{
    match measure {
        Measure::StructFields => match &node.kind {
            Kind::Item(ItemKind::Struct { .. }) => single(count_children(node, Mark::Field)),
            _ => Vec::new(),
        },
        Measure::StructPublicFields => match &node.kind {
            Kind::Item(ItemKind::Struct { .. }) => single(
                count_children(node, Mark::PublicField),
            ),
            _ => Vec::new(),
        },
        Measure::StructAttrs => match &node.kind {
            Kind::Item(ItemKind::Struct { attrs }) => single(*attrs),
            _ => Vec::new(),
        },
        Measure::StructFieldAttrs => match &node.kind {
            Kind::Item(ItemKind::Struct { .. }) => child_attrs(node),
            _ => Vec::new(),
        },
        Measure::EnumVariants => match &node.kind {
            Kind::Item(ItemKind::Enum { .. }) => single(count_children(node, Mark::Variant)),
            _ => Vec::new(),
        },
        Measure::EnumAttrs => match &node.kind {
            Kind::Item(ItemKind::Enum { attrs }) => single(*attrs),
            _ => Vec::new(),
        },
        Measure::EnumVariantAttrs => match &node.kind {
            Kind::Item(ItemKind::Enum { .. }) => child_attrs(node),
            _ => Vec::new(),
        },
        Measure::TraitGenericParams => match &node.kind {
            Kind::Item(ItemKind::Trait { generic_params, .. }) => single(*generic_params),
            _ => Vec::new(),
        },
        Measure::TraitSupertraits => match &node.kind {
            Kind::Item(ItemKind::Trait { supertraits, .. }) => single(*supertraits),
            _ => Vec::new(),
        },
        Measure::TraitDefaultFns => match &node.kind {
            Kind::Item(ItemKind::Trait { .. }) => single(count_children(node, Mark::DefaultFn)),
            _ => Vec::new(),
        },
        Measure::TraitFns => match &node.kind {
            Kind::Item(ItemKind::Trait { .. }) => single(count_children(node, Mark::TraitFn)),
            _ => Vec::new(),
        },
        Measure::TraitAssocTypes => match &node.kind {
            Kind::Item(ItemKind::Trait { .. }) => single(count_children(node, Mark::AssocType)),
            _ => Vec::new(),
        },
        Measure::MutableParams => if is_bodied(node) {
            single(count_children(node, Mark::MutableParam))
        } else {
            Vec::new()
        },
        Measure::MacroTokens => match &node.kind {
            Kind::Macro { tokens } => single(tokens.len()),
            _ => Vec::new(),
        },
    }
}

/// What `what` reads off the nodes of `visits`, in their order.
pub fn measure(what: Measure, visits: &Vec<Visit>) -> (values: Vec<usize>)
    ensures
        values@ == gather(what, visited(visits@)),
{
    let mut values: Vec<usize> = Vec::new();
    let mut i: usize = 0;
    let ghost all = visited(visits@);
    while i < visits.len()
        invariant
            i <= visits@.len(),
            all == visited(visits@),
            values@ == gather(what, all.take(i as int)),
        decreases visits@.len() - i,
    {
        let mut here = read(what, visits[i].node);
        proof {
            assert(all.take(i + 1).drop_last() =~= all.take(i as int));
            assert(all.take(i + 1).last() == visits@[i as int]@);
        }
        values.append(&mut here);
        i += 1;
    }
    proof {
        assert(all.take(visits@.len() as int) =~= all);
    }
    values
}


/// A sort of node that a metric counts.
#[derive(Clone, Copy, Debug, PartialEq, Eq, Structural)]
pub enum Sort {
    /// A struct.
    Struct,
    /// An enum.
    Enum,
    /// An `impl` block.
    Impl,
    /// A free function.
    Fn,
    /// A free function that is public.
    PublicFn,
    /// An `if`.
    If,
    /// An expression.
    Expr,
}

/// Whether `node` is of the sort `sort`.
pub open spec fn is_sort(node: Node, sort: Sort) -> bool {
    match sort {
        Sort::Struct => node.kind matches Kind::Item(ItemKind::Struct { .. }),
        Sort::Enum => node.kind matches Kind::Item(ItemKind::Enum { .. }),
        Sort::Impl => node.kind matches Kind::Item(ItemKind::Impl),
        Sort::Fn => node.kind matches Kind::Item(ItemKind::Fn { .. }),
        Sort::PublicFn => node.kind matches Kind::Item(ItemKind::Fn { public, .. }) && public,
        Sort::If => node.kind matches Kind::Expr(ExprKind::If),
        Sort::Expr => node.kind is Expr,
    }
}

/// How many nodes of a walk are of the sort `sort`.
pub open spec fn count_sort(sort: Sort, visits: Seq<Visited>) -> nat
    decreases visits.len(),
{
    if visits.len() == 0 {
        0
    } else {
        count_sort(sort, visits.drop_last()) + if is_sort(visits.last().node, sort) {
            1nat
        } else {
            0nat
        }
    }
}

/// Whether `node` is of the sort `sort`.
pub fn of_sort(node: &Node, sort: Sort) -> (yes: bool)
    ensures
        yes == is_sort(*node, sort),
{
    match sort {
        Sort::Struct => match &node.kind {
            Kind::Item(ItemKind::Struct { .. }) => true,
            _ => false,
        },
        Sort::Enum => match &node.kind {
            Kind::Item(ItemKind::Enum { .. }) => true,
            _ => false,
        },
        Sort::Impl => match &node.kind {
            Kind::Item(ItemKind::Impl) => true,
            _ => false,
        },
        Sort::Fn => match &node.kind {
            Kind::Item(ItemKind::Fn { .. }) => true,
            _ => false,
        },
        Sort::PublicFn => match &node.kind {
            Kind::Item(ItemKind::Fn { public, .. }) => *public,
            _ => false,
        },
        Sort::If => match &node.kind {
            Kind::Expr(ExprKind::If) => true,
            _ => false,
        },
        Sort::Expr => match &node.kind {
            Kind::Expr(_) => true,
            _ => false,
        },
    }
}

/// How many nodes of `visits` are of the sort `sort`.
pub fn tally(sort: Sort, visits: &Vec<Visit>) -> (count: usize)
    ensures
        count == count_sort(sort, visited(visits@)),
{
    let mut count: usize = 0;
    let mut i: usize = 0;
    let ghost all = visited(visits@);
    while i < visits.len()
        invariant
            i <= visits@.len(),
            all == visited(visits@),
            count == count_sort(sort, all.take(i as int)),
            count <= i,
        decreases visits@.len() - i,
    {
        proof {
            assert(all.take(i + 1).drop_last() =~= all.take(i as int));
            assert(all.take(i + 1).last() == visits@[i as int]@);
        }
        if of_sort(visits[i].node, sort) {
            count += 1;
        }
        i += 1;
    }
    proof {
        assert(all.take(visits@.len() as int) =~= all);
    }
    count
}

} // verus!
