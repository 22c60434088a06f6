//! Cognitive complexity: a score of a function's body that grows with each
//! branch, the more the deeper the branch is nested, and with each change of
//! logical operator within a condition.

use vstd::prelude::*;
use crate::syntax::{BinOp, ExprKind, ItemKind, Kind, Node, StmtKind, UnOp, size, size_all};

verus! {

/// A complexity score.
#[derive(Debug, Clone, Copy, PartialEq, Eq, Structural)]
pub struct Index(pub u32);

/// A logical operator.
#[derive(Debug, Clone, Copy, PartialEq, Eq, Structural)]
pub enum LogBoolOp {
    /// `!`
    Not,
    /// `&&`
    And,
    /// `||`
    Or,
}

/// Where a node stands while its tree is scored: how deeply it is nested,
/// and the logical operator met last on the way to it.
#[derive(Debug, Clone, Copy)]
pub struct State {
    nesting: u32,
    log_bool_op: Option<LogBoolOp>,
}

/// What a `State` stands for, with a nesting level that has no bound.
pub struct Scope {
    pub nesting: nat,
    pub prev: Option<LogBoolOp>,
}

impl Scope {
    /// This scope, one level deeper.
    pub open spec fn nested(self) -> Scope {
        Scope { nesting: self.nesting + 1, prev: self.prev }
    }

    /// This scope after the logical operator `op`.
    pub open spec fn after(self, op: LogBoolOp) -> Scope {
        Scope { nesting: self.nesting, prev: Some(op) }
    }

    /// What a branch costs here.
    pub open spec fn branch(self) -> nat {
        self.nesting + 1
    }
}

/// The logical operator that a unary operator is, if it is one.
pub open spec fn logical_unary(op: UnOp) -> Option<LogBoolOp> {
    match op {
        UnOp::Not => Some(LogBoolOp::Not),
        _ => None,
    }
}

/// The logical operator that a binary operator is, if it is one.
pub open spec fn logical_binary(op: BinOp) -> Option<LogBoolOp> {
    match op {
        BinOp::And => Some(LogBoolOp::And),
        BinOp::Or => Some(LogBoolOp::Or),
        BinOp::Other => None,
    }
}

/// What the logical operator `op` costs after `prev`: nothing where it
/// repeats the operator before it, else one.
pub open spec fn switch_cost(op: LogBoolOp, prev: Option<LogBoolOp>) -> nat {
    if prev == Some(op) {
        0
    } else {
        1
    }
}

/// What a node of kind `kind` with `children` children costs by itself.
pub open spec fn own_cost(kind: Kind, children: nat, scope: Scope) -> nat {
    match kind {
        Kind::Expr(ExprKind::If) => scope.branch() + if children >= 3 {
            1nat
        } else {
            0nat
        },
        Kind::Expr(ExprKind::Match) | Kind::Expr(ExprKind::ForLoop) | Kind::Expr(
            ExprKind::While,
        ) => scope.branch(),
        Kind::Arm { guarded } => if guarded {
            scope.branch()
        } else {
            0
        },
        Kind::Expr(ExprKind::Continue) => 1,
        Kind::Expr(ExprKind::Break) => if children == 0 {
            1
        } else {
            0
        },
        Kind::Expr(ExprKind::Binary(op)) => match logical_binary(op) {
            Some(current) => switch_cost(current, scope.prev),
            None => 0,
        },
        _ => 0,
    }
}

/// The scope in which child `i` of a node of kind `kind` is scored; `None`
/// where that child adds nothing to the score of the tree.
pub open spec fn child_scope(kind: Kind, i: int, scope: Scope) -> Option<Scope> {
    match kind {
        Kind::Block => Some(scope),
        Kind::Stmt(StmtKind::Local) => if i == 0 {
            Some(scope)
        } else {
            None
        },
        Kind::Stmt(StmtKind::Item) | Kind::Stmt(StmtKind::Expr) => Some(scope),
        Kind::Item(ItemKind::Const) | Kind::Item(ItemKind::Static) => Some(scope),
        Kind::Arm { guarded } => if guarded && i == 0 {
            Some(scope)
        } else {
            Some(scope.nested())
        },
        Kind::Expr(expr) => match expr {
            ExprKind::Unary(op) => match logical_unary(op) {
                Some(current) => Some(scope.after(current)),
                None => Some(scope),
            },
            ExprKind::Binary(op) => match logical_binary(op) {
                Some(current) => Some(scope.after(current)),
                None => Some(scope),
            },
            ExprKind::Async
            | ExprKind::Block
            | ExprKind::Loop
            | ExprKind::TryBlock
            | ExprKind::Unsafe => Some(
                scope.nested(),
            ),
            ExprKind::If | ExprKind::ForLoop | ExprKind::While => if i == 0 {
                Some(scope)
            } else {
                Some(scope.nested())
            },
            ExprKind::Macro
            | ExprKind::Const
            | ExprKind::Lit
            | ExprKind::Path { .. }
            | ExprKind::Infer
            | ExprKind::Verbatim
            | ExprKind::Continue => None,
            _ => Some(scope),
        },
        _ => None,
    }
}

/// The cognitive complexity of the tree under `node`, scored in `scope`.
pub open spec fn score(node: Node, scope: Scope) -> nat
    decreases node, 1nat, 0nat,
{
    own_cost(node.kind, node.children@.len(), scope) + score_children(
        node,
        scope,
        node.children@.len(),
    )
}

/// What the first `upto` children of `node` add to its score.
pub open spec fn score_children(node: Node, scope: Scope, upto: nat) -> nat
    decreases node, 0nat, upto,
{
    if upto == 0 || upto > node.children@.len() {
        0
    } else {
        score_children(node, scope, (upto - 1) as nat) + match child_scope(
            node.kind,
            upto - 1,
            scope,
        ) {
            Some(inner) => score(node.children@[upto - 1], inner),
            None => 0,
        }
    }
}

impl Index {
    /// The score that adds nothing.
    pub fn zero() -> (index: Self)
        ensures
            index.0 == 0,
    {
        Index(0)
    }

    /// The score of one flat point.
    pub fn one() -> (index: Self)
        ensures
            index.0 == 1,
    {
        Index(1)
    }

    /// The score of a branch in `state`: one, and one for each level of
    /// nesting.
    pub fn with_context(state: State) -> (index: Self)
        requires
            state@.nesting < u32::MAX,
        ensures
            index.0 == state@.branch(),
    {
        Index(state.nesting + 1)
    }

    /// The sum of two scores; `None` where it is too large for a score.
    pub fn checked_add(self, other: Self) -> (sum: Option<Self>)
        ensures
            match sum {
                Some(index) => index.0 == self.0 + other.0,
                None => self.0 + other.0 > u32::MAX,
            },
    {
        match self.0.checked_add(other.0) {
            Some(sum) => Some(Index(sum)),
            None => None,
        }
    }
}

impl LogBoolOp {
    /// The logical operator that `un_op` is, if it is one.
    pub fn from_un_op(un_op: UnOp) -> (op: Option<Self>)
        ensures
            op == logical_unary(un_op),
    {
        match un_op {
            UnOp::Not => Some(LogBoolOp::Not),
            _ => None,
        }
    }

    /// The logical operator that `bin_op` is, if it is one.
    pub fn from_bin_op(bin_op: &BinOp) -> (op: Option<Self>)
        ensures
            op == logical_binary(*bin_op),
    {
        match bin_op {
            BinOp::And => Some(LogBoolOp::And),
            BinOp::Or => Some(LogBoolOp::Or),
            BinOp::Other => None,
        }
    }

    /// What this operator costs after `prev`.
    pub fn eval_based_on_prev(self, prev: Option<Self>) -> (index: Index)
        ensures
            index.0 == switch_cost(self, prev),
    {
        match prev {
            Some(prev) => {
                if prev == self {
                    Index::zero()
                } else {
                    Index::one()
                }
            },
            None => Index::one(),
        }
    }
}

impl View for State {
    type V = Scope;

    closed spec fn view(&self) -> Scope {
        Scope { nesting: self.nesting as nat, prev: self.log_bool_op }
    }
}

impl State {
    /// The state at the top of a function's body.
    pub fn new() -> (state: Self)
        ensures
            state@ == (Scope { nesting: 0, prev: None }),
    {
        State { nesting: 0, log_bool_op: None }
    }

    /// The nesting level.
    pub fn nesting(&self) -> (nesting: u32)
        ensures
            nesting == self@.nesting,
    {
        self.nesting
    }

    /// This state, one level deeper.
    pub fn increase_nesting(self) -> (deeper: Self)
        requires
            self@.nesting < u32::MAX,
        ensures
            deeper@ == self@.nested(),
    {
        State { nesting: self.nesting + 1, log_bool_op: self.log_bool_op }
    }

    /// This state after the logical operator `op`.
    fn after(self, op: LogBoolOp) -> (next: Self)
        ensures
            next@ == self@.after(op),
            next.nesting == self.nesting,
    {
        State { nesting: self.nesting, log_bool_op: Some(op) }
    }

    /// Whether this state stands for `scope`, up to a nesting level that is
    /// too deep to be held: there the state holds the deepest level it can.
    spec fn tracks(self, scope: Scope) -> bool {
        &&& self.log_bool_op == scope.prev
        &&& (self.nesting == scope.nesting || (self.nesting == u32::MAX && scope.nesting
            >= u32::MAX))
    }

    /// This state, one level deeper where that level can be held.
    fn deeper(self, Ghost(scope): Ghost<Scope>) -> (next: Self)
        requires
            self.tracks(scope),
        ensures
            next.tracks(scope.nested()),
    {
        if self.nesting < u32::MAX {
            State { nesting: self.nesting + 1, log_bool_op: self.log_bool_op }
        } else {
            self
        }
    }
}

impl Default for State {
    fn default() -> (state: Self)
        ensures
            state@ == (Scope { nesting: 0, prev: None }),
    {
        State::new()
    }
}

/// A tree that is still to be scored, and the state to score it in.
struct Pending<'a> {
    node: &'a Node,
    state: State,
}

/// What the trees of `stack` add up to, each scored in its scope.
spec fn pending_score(stack: Seq<Pending>, scopes: Seq<Scope>) -> nat
    decreases stack.len(),
{
    if stack.len() == 0 || scopes.len() != stack.len() {
        0
    } else {
        pending_score(stack.drop_last(), scopes.drop_last()) + score(
            *stack.last().node,
            scopes.last(),
        )
    }
}

/// The number of nodes of the trees of `stack`.
spec fn pending_size(stack: Seq<Pending>) -> nat
    decreases stack.len(),
{
    if stack.len() == 0 {
        0
    } else {
        pending_size(stack.drop_last()) + size(*stack.last().node)
    }
}

/// Whether each state of `stack` tracks its scope.
spec fn all_track(stack: Seq<Pending>, scopes: Seq<Scope>) -> bool {
    &&& stack.len() == scopes.len()
    &&& forall|i: int| 0 <= i < stack.len() ==> (#[trigger] stack[i]).state.tracks(scopes[i])
}

/// What a branch costs in `state`; `None` where that is too much for a score.
fn branch_cost(state: State, Ghost(scope): Ghost<Scope>) -> (cost: Option<u32>)
    requires
        state.tracks(scope),
    ensures
        match cost {
            Some(c) => c == scope.branch(),
            None => scope.branch() > u32::MAX,
        },
{
    if state.nesting < u32::MAX {
        Some(state.nesting + 1)
    } else {
        None
    }
}

/// What `node` costs by itself in `state`; `None` where that is too much for
/// a score.
fn cost_of(node: &Node, state: State, Ghost(scope): Ghost<Scope>) -> (cost: Option<u32>)
    requires
        state.tracks(scope),
    ensures
        match cost {
            Some(c) => c == own_cost(node.kind, node.children@.len(), scope),
            None => own_cost(node.kind, node.children@.len(), scope) > u32::MAX,
        },
{
    match &node.kind {
        Kind::Expr(ExprKind::If) => {
            match branch_cost(state, Ghost(scope)) {
                Some(cost) => if node.children.len() >= 3 {
                    cost.checked_add(1)
                } else {
                    Some(cost)
                },
                None => None,
            }
        },
        Kind::Expr(ExprKind::Match) | Kind::Expr(ExprKind::ForLoop) | Kind::Expr(
            ExprKind::While,
        ) => branch_cost(state, Ghost(scope)),
        Kind::Arm { guarded } => if *guarded {
            branch_cost(state, Ghost(scope))
        } else {
            Some(0)
        },
        Kind::Expr(ExprKind::Continue) => Some(1),
        Kind::Expr(ExprKind::Break) => if node.children.len() == 0 {
            Some(1)
        } else {
            Some(0)
        },
        Kind::Expr(ExprKind::Binary(op)) => match LogBoolOp::from_bin_op(op) {
            Some(current) => Some(current.eval_based_on_prev(state.log_bool_op).0),
            None => Some(0),
        },
        _ => Some(0),
    }
}

/// The state in which child `i` of `node` is scored, if it is scored.
fn state_of_child(node: &Node, i: usize, state: State, Ghost(scope): Ghost<Scope>) -> (next:
    Option<State>)
    requires
        state.tracks(scope),
    ensures
        match next {
            Some(inner) => child_scope(node.kind, i as int, scope) is Some && inner.tracks(
                child_scope(node.kind, i as int, scope)->0,
            ),
            None => child_scope(node.kind, i as int, scope) is None,
        },
{
    match &node.kind {
        Kind::Block => Some(state),
        Kind::Stmt(StmtKind::Local) => if i == 0 {
            Some(state)
        } else {
            None
        },
        Kind::Stmt(StmtKind::Item) | Kind::Stmt(StmtKind::Expr) => Some(state),
        Kind::Item(ItemKind::Const) | Kind::Item(ItemKind::Static) => Some(state),
        Kind::Arm { guarded } => if *guarded && i == 0 {
            Some(state)
        } else {
            Some(state.deeper(Ghost(scope)))
        },
        Kind::Expr(expr) => match expr {
            ExprKind::Unary(op) => match LogBoolOp::from_un_op(*op) {
                Some(current) => Some(state.after(current)),
                None => Some(state),
            },
            ExprKind::Binary(op) => match LogBoolOp::from_bin_op(op) {
                Some(current) => Some(state.after(current)),
                None => Some(state),
            },
            ExprKind::Async
            | ExprKind::Block
            | ExprKind::Loop
            | ExprKind::TryBlock
            | ExprKind::Unsafe => Some(
                state.deeper(Ghost(scope)),
            ),
            ExprKind::If | ExprKind::ForLoop | ExprKind::While => if i == 0 {
                Some(state)
            } else {
                Some(state.deeper(Ghost(scope)))
            },
            ExprKind::Macro
            | ExprKind::Const
            | ExprKind::Lit
            | ExprKind::Path { .. }
            | ExprKind::Infer
            | ExprKind::Verbatim
            | ExprKind::Continue => None,
            _ => Some(state),
        },
        _ => None,
    }
}

proof fn lemma_pending_push(stack: Seq<Pending>, scopes: Seq<Scope>, top: Pending, scope: Scope)
    requires
        stack.len() == scopes.len(),
    ensures
        pending_score(stack.push(top), scopes.push(scope)) == pending_score(stack, scopes) + score(
            *top.node,
            scope,
        ),
        pending_size(stack.push(top)) == pending_size(stack) + size(*top.node),
{
    assert(stack.push(top).drop_last() =~= stack);
    assert(scopes.push(scope).drop_last() =~= scopes);
}

proof fn lemma_size_take(nodes: Seq<Node>, i: int)
    requires
        0 <= i < nodes.len(),
    ensures
        size_all(nodes.take(i + 1)) == size_all(nodes.take(i)) + size(nodes[i]),
{
    assert(nodes.take(i + 1).drop_last() =~= nodes.take(i));
}

/// The cognitive complexity of the tree under `root`, scored from `state`;
/// `None` where it is too large for a score.
///
/// The tree is walked with a stack of its own, so that a deeply nested tree
/// costs memory, not call depth.
pub fn checked_eval(root: &Node, state: State) -> (index: Option<Index>)
    ensures
        match index {
            Some(i) => i.0 == score(*root, state@),
            None => score(*root, state@) > u32::MAX,
        },
{
    let mut total: u32 = 0;
    let mut stack: Vec<Pending> = Vec::new();
    let ghost mut scopes: Seq<Scope> = Seq::empty();
    proof {
        lemma_pending_push(stack@, scopes, Pending { node: root, state }, state@);
        scopes = scopes.push(state@);
    }
    stack.push(Pending { node: root, state });
    while stack.len() > 0
        invariant
            all_track(stack@, scopes),
            total + pending_score(stack@, scopes) == score(*root, state@),
        decreases pending_size(stack@),
    {
        let ghost before = stack@;
        let top = stack.pop().unwrap();
        let node = top.node;
        let ghost scope = scopes.last();
        proof {
            scopes = scopes.drop_last();
            assert(stack@ =~= before.drop_last());
            assert(top.state.tracks(scope));
        }
        let own = match cost_of(node, top.state, Ghost(scope)) {
            Some(cost) => cost,
            None => {
                return None;
            },
        };
        total = match total.checked_add(own) {
            Some(sum) => sum,
            None => {
                return None;
            },
        };
        let n = node.children.len();
        let mut i: usize = n;
        proof {
            assert(node.children@.take(n as int) =~= node.children@);
        }
        while i > 0
            invariant
                i <= n,
                n == node.children@.len(),
                top.state.tracks(scope),
                all_track(stack@, scopes),
                total + pending_score(stack@, scopes) + score_children(*node, scope, i as nat)
                    == score(*root, state@),
                pending_size(stack@) + size_all(node.children@.take(i as int)) + 1 <= pending_size(
                    before,
                ),
            decreases i,
        {
            i -= 1;
            proof {
                lemma_size_take(node.children@, i as int);
            }
            match state_of_child(node, i, top.state, Ghost(scope)) {
                Some(inner) => {
                    let child = Pending { node: &node.children[i], state: inner };
                    proof {
                        let inner_scope = child_scope(node.kind, i as int, scope)->0;
                        lemma_pending_push(stack@, scopes, child, inner_scope);
                        scopes = scopes.push(inner_scope);
                    }
                    stack.push(child);
                },
                None => {},
            }
        }
    }
    Some(Index(total))
}

/// Whether the score of the tree under `node`, taken from `state`, is small
/// enough to be held.
pub open spec fn scorable(node: Node, state: State) -> bool {
    score(node, state@) <= u32::MAX
}

/// The cognitive complexity of the tree under `node`, scored from `state`.
pub fn eval(node: &Node, state: State) -> (index: Index)
    requires
        scorable(*node, state),
    ensures
        index.0 == score(*node, state@),
{
    match checked_eval(node, state) {
        Some(index) => index,
        None => Index::zero(),
    }
}

/// The cognitive complexity of an expression.
pub fn eval_expr(expr: &Node, state: State) -> (index: Index)
    requires
        scorable(*expr, state),
    ensures
        index.0 == score(*expr, state@),
{
    eval(expr, state)
}

/// The cognitive complexity of a block: that of its statements.
pub fn eval_block(block: &Node, state: State) -> (index: Index)
    requires
        scorable(*block, state),
    ensures
        index.0 == score(*block, state@),
{
    eval(block, state)
}

/// The cognitive complexity of a statement: that of the initializer of a
/// `let`, of a statement's expression, of an item in statement position.
pub fn eval_stmt(stmt: &Node, state: State) -> (index: Index)
    requires
        scorable(*stmt, state),
    ensures
        index.0 == score(*stmt, state@),
{
    eval(stmt, state)
}

/// The cognitive complexity of an item: that of the value of a constant or
/// of a static, and nothing for any other item.
pub fn eval_item(item: &Node, state: State) -> (index: Index)
    requires
        scorable(*item, state),
    ensures
        index.0 == score(*item, state@),
{
    eval(item, state)
}

} // verus!
