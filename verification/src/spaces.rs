//! The spaces of a file, as an outside engine of numeric metrics reports
//! them: which of them are recorded, and at which granularity.

use vstd::prelude::*;

verus! {

/// The kind of a space.
#[derive(Clone, Copy, Debug, PartialEq, Eq, Structural)]
pub enum SpaceKind {
    Unknown,
    Function,
    Class,
    Struct,
    Trait,
    Impl,
    Unit,
    Namespace,
    Interface,
}

/// The granularity at which the metrics of a space are recorded.
#[derive(Clone, Copy, Debug, PartialEq, Eq, Structural)]
pub enum Granularity {
    Function,
    Struct,
    Trait,
    Impl,
}

/// Why the spaces of a file cannot be those of Rust code.
#[derive(Clone, Copy, Debug, PartialEq, Eq, Structural)]
pub enum SpaceError {
    /// A class, a namespace or an interface.
    ForeignKind,
    /// A space inside a struct.
    InsideStruct,
}

/// A space with its metrics and the spaces inside it.
#[derive(Debug)]
pub struct Space<M> {
    pub kind: SpaceKind,
    pub metrics: M,
    pub spaces: Vec<Space<M>>,
}

/// The metrics of a space, and the granularity at which they are recorded.
pub struct Recorded<M> {
    pub at: Granularity,
    pub metrics: M,
}

/// The granularity at which the metrics of a space of kind `kind` are
/// recorded; `None` where they are not recorded.
pub open spec fn granularity(kind: SpaceKind) -> Option<Granularity> {
    match kind {
        SpaceKind::Function => Some(Granularity::Function),
        SpaceKind::Struct => Some(Granularity::Struct),
        SpaceKind::Trait => Some(Granularity::Trait),
        SpaceKind::Impl => Some(Granularity::Impl),
        _ => None,
    }
}

/// What is wrong with a space of kind `kind` that holds `inner` spaces, if
/// anything is.
pub open spec fn fault(kind: SpaceKind, inner: nat) -> Option<SpaceError> {
    match kind {
        SpaceKind::Class | SpaceKind::Namespace | SpaceKind::Interface => Some(
            SpaceError::ForeignKind,
        ),
        SpaceKind::Struct => if inner > 0 {
            Some(SpaceError::InsideStruct)
        } else {
            None
        },
        _ => None,
    }
}

/// What `next` adds to what was recorded before it: nothing after an
/// error, and an error at once.
pub open spec fn then<M>(
    before: Result<Seq<Recorded<M>>, SpaceError>,
    next: Result<Seq<Recorded<M>>, SpaceError>,
) -> Result<Seq<Recorded<M>>, SpaceError> {
    match before {
        Ok(first) => match next {
            Ok(second) => Ok(first + second),
            Err(error) => Err(error),
        },
        Err(error) => Err(error),
    }
}

/// What is recorded of `space` and of the spaces inside it, each space
/// before those inside it; the first error that a reader meets, where there
/// is one.
pub open spec fn recorded<M>(space: Space<M>) -> Result<Seq<Recorded<M>>, SpaceError>
    decreases space, 1nat, 0nat,
{
    match fault(space.kind, space.spaces@.len()) {
        Some(error) => Err(error),
        None => then(
            Ok(
                match granularity(space.kind) {
                    Some(at) => seq![Recorded { at, metrics: space.metrics }],
                    None => Seq::empty(),
                },
            ),
            recorded_inside(space, 0, space.spaces@.len()),
        ),
    }
}

/// What is recorded of the spaces inside `space` from `from` up to `upto`.
pub open spec fn recorded_inside<M>(space: Space<M>, from: nat, upto: nat) -> Result<
    Seq<Recorded<M>>,
    SpaceError,
>
    decreases space, 0nat, upto,
{
    if upto <= from || upto > space.spaces@.len() {
        Ok(Seq::empty())
    } else {
        then(recorded_inside(space, from, (upto - 1) as nat), recorded(space.spaces@[upto - 1]))
    }
}

/// The metrics of a space, as `assign` hands them out.
pub struct Assigned<'a, M> {
    pub at: Granularity,
    pub metrics: &'a M,
}

impl<'a, M> View for Assigned<'a, M> {
    type V = Recorded<M>;

    open spec fn view(&self) -> Recorded<M> {
        Recorded { at: self.at, metrics: *self.metrics }
    }
}

/// What a run of assigned metrics stands for.
pub open spec fn assigned<M>(out: Seq<Assigned<M>>) -> Seq<Recorded<M>> {
    Seq::new(out.len(), |i: int| out[i]@)
}

/// The number of spaces of the tree under `space`, itself counted.
pub open spec fn extent<M>(space: Space<M>) -> nat
    decreases space, 1nat, 0nat,
{
    1 + extent_inside(space, space.spaces@.len())
}

/// The number of spaces of the trees under the first `upto` spaces inside
/// `space`.
pub open spec fn extent_inside<M>(space: Space<M>, upto: nat) -> nat
    decreases space, 0nat, upto,
{
    if upto == 0 || upto > space.spaces@.len() {
        0
    } else {
        extent_inside(space, (upto - 1) as nat) + extent(space.spaces@[upto - 1])
    }
}

/// What is recorded of the spaces of `stack`, the last space first.
spec fn pending<M>(stack: Seq<&Space<M>>) -> Result<Seq<Recorded<M>>, SpaceError>
    decreases stack.len(),
{
    if stack.len() == 0 {
        Ok(Seq::empty())
    } else {
        then(recorded(*stack.last()), pending(stack.drop_last()))
    }
}

/// The number of spaces of the trees of `stack`.
spec fn pending_extent<M>(stack: Seq<&Space<M>>) -> nat
    decreases stack.len(),
{
    if stack.len() == 0 {
        0
    } else {
        pending_extent(stack.drop_last()) + extent(*stack.last())
    }
}

proof fn lemma_then_associative<M>(
    a: Result<Seq<Recorded<M>>, SpaceError>,
    b: Result<Seq<Recorded<M>>, SpaceError>,
    c: Result<Seq<Recorded<M>>, SpaceError>,
)
    ensures
        then(then(a, b), c) == then(a, then(b, c)),
{
    if a is Ok && b is Ok && c is Ok {
        assert((a->Ok_0 + b->Ok_0) + c->Ok_0 =~= a->Ok_0 + (b->Ok_0 + c->Ok_0));
    }
}

proof fn lemma_then_empty<M>(a: Result<Seq<Recorded<M>>, SpaceError>)
    ensures
        then(a, Ok(Seq::empty())) == a,
        then(Ok(Seq::empty()), a) == a,
{
    if a is Ok {
        assert(a->Ok_0 + Seq::<Recorded<M>>::empty() =~= a->Ok_0);
        assert(Seq::<Recorded<M>>::empty() + a->Ok_0 =~= a->Ok_0);
    }
}

proof fn lemma_inside_front<M>(space: Space<M>, from: nat, upto: nat)
    requires
        from < upto <= space.spaces@.len(),
    ensures
        recorded_inside(space, from, upto) == then(
            recorded(space.spaces@[from as int]),
            recorded_inside(space, from + 1, upto),
        ),
    decreases upto,
{
    if upto == from + 1 {
        lemma_then_empty(recorded(space.spaces@[from as int]));
    } else {
        lemma_inside_front(space, from, (upto - 1) as nat);
        lemma_then_associative(
            recorded(space.spaces@[from as int]),
            recorded_inside(space, from + 1, (upto - 1) as nat),
            recorded(space.spaces@[upto - 1]),
        );
    }
}

proof fn lemma_pending_push<M>(stack: Seq<&Space<M>>, top: &Space<M>)
    ensures
        pending(stack.push(top)) == then(recorded(*top), pending(stack)),
        pending_extent(stack.push(top)) == pending_extent(stack) + extent(*top),
{
    assert(stack.push(top).drop_last() =~= stack);
}

/// Puts the spaces inside `space` on `stack`, so that the first comes off
/// first.
fn put_inside<'a, M>(stack: &mut Vec<&'a Space<M>>, space: &'a Space<M>)
    ensures
        pending(final(stack)@) == then(
            recorded_inside(*space, 0, space.spaces@.len()),
            pending(old(stack)@),
        ),
        pending_extent(final(stack)@) == pending_extent(old(stack)@) + extent_inside(
            *space,
            space.spaces@.len(),
        ),
{
    let ghost base = stack@;
    let n = space.spaces.len();
    let mut placed: usize = n;
    proof {
        lemma_then_empty(pending(base));
    }
    while placed > 0
        invariant
            placed <= n,
            n == space.spaces@.len(),
            pending(stack@) == then(recorded_inside(*space, placed as nat, n as nat), pending(base)),
            extent_inside(*space, placed as nat) + pending_extent(stack@) == extent_inside(
                *space,
                n as nat,
            ) + pending_extent(base),
        decreases placed,
    {
        placed -= 1;
        let inner = &space.spaces[placed];
        proof {
            lemma_pending_push(stack@, inner);
            lemma_inside_front(*space, placed as nat, n as nat);
            lemma_then_associative(
                recorded(*inner),
                recorded_inside(*space, (placed + 1) as nat, n as nat),
                pending(base),
            );
        }
        stack.push(inner);
    }
}

/// The metrics of `space` and of the spaces inside it, each with the
/// granularity at which it is recorded, each space before those inside it.
/// The metrics of a unit and of a space of unknown kind are not recorded.
///
/// The first error that a reader meets, where the spaces are not those of
/// Rust code: a class, a namespace or an interface, or a space inside a
/// struct.
pub fn assign<'a, M>(space: &'a Space<M>) -> (out: Result<Vec<Assigned<'a, M>>, SpaceError>)
    ensures
        match out {
            Ok(found) => recorded(*space) == Ok::<_, SpaceError>(assigned(found@)),
            Err(error) => recorded(*space) == Err::<Seq<Recorded<M>>, _>(error),
        },
{
    let mut stack: Vec<&'a Space<M>> = Vec::new();
    let mut out: Vec<Assigned<'a, M>> = Vec::new();
    let ghost target = recorded(*space);
    proof {
        lemma_pending_push(stack@, space);
        lemma_then_empty(recorded(*space));
        assert(assigned(out@) =~= Seq::<Recorded<M>>::empty());
    }
    stack.push(space);
    while stack.len() > 0
        invariant
            target == recorded(*space),
            then(Ok(assigned(out@)), pending(stack@)) == target,
        decreases pending_extent(stack@),
    {
        let ghost before = stack@;
        let ghost done = assigned(out@);
        let top = stack.pop().unwrap();
        let ghost rest = pending(stack@);
        proof {
            assert(stack@ =~= before.drop_last());
        }
        let at = match top.kind {
            SpaceKind::Class | SpaceKind::Namespace | SpaceKind::Interface => {
                return Err(SpaceError::ForeignKind);
            },
            SpaceKind::Struct => {
                if top.spaces.len() > 0 {
                    return Err(SpaceError::InsideStruct);
                }
                Some(Granularity::Struct)
            },
            SpaceKind::Function => Some(Granularity::Function),
            SpaceKind::Trait => Some(Granularity::Trait),
            SpaceKind::Impl => Some(Granularity::Impl),
            SpaceKind::Unknown | SpaceKind::Unit => None,
        };
        let ghost own = match granularity(top.kind) {
            Some(at) => seq![Recorded { at, metrics: top.metrics }],
            None => Seq::empty(),
        };
        match at {
            Some(at) => {
                let next = Assigned { at, metrics: &top.metrics };
                proof {
                    assert(assigned(out@.push(next)) =~= done + own);
                }
                out.push(next);
            },
            None => {
                proof {
                    assert(done + own =~= done);
                }
            },
        }
        proof {
            let inside = recorded_inside(*top, 0, top.spaces@.len());
            lemma_then_associative(Ok(own), inside, rest);
            lemma_then_associative(Ok(done), Ok(own), then(inside, rest));
        }
        put_inside(&mut stack, top);
    }
    proof {
        lemma_then_empty(Ok::<_, SpaceError>(assigned(out@)));
    }
    Ok(out)
}

/// Whether the kind of `space` and of each space inside it is known.
pub open spec fn known<M>(space: Space<M>) -> bool
    decreases space, 1nat, 0nat,
{
    !(space.kind is Unknown) && known_inside(space, space.spaces@.len())
}

/// Whether the kinds of the trees under the first `upto` spaces inside
/// `space` are known.
pub open spec fn known_inside<M>(space: Space<M>, upto: nat) -> bool
    decreases space, 0nat, upto,
{
    if upto == 0 || upto > space.spaces@.len() {
        true
    } else {
        known_inside(space, (upto - 1) as nat) && known(space.spaces@[upto - 1])
    }
}

/// Whether the kinds of the trees of `stack` are known.
spec fn pending_known<M>(stack: Seq<&Space<M>>) -> bool
    decreases stack.len(),
{
    if stack.len() == 0 {
        true
    } else {
        pending_known(stack.drop_last()) && known(*stack.last())
    }
}

/// Whether the kind of `space` and of each space inside it is known: the
/// engine could make sense of the whole file.
pub fn valid_space<M>(space: &Space<M>) -> (valid: bool)
    ensures
        valid == known(*space),
{
    let mut stack: Vec<&Space<M>> = Vec::new();
    proof {
        assert(stack@.push(space).drop_last() =~= stack@);
        assert(pending_known(stack@));
        assert(pending_known(stack@.push(space)) == known(*space));
    }
    stack.push(space);
    while stack.len() > 0
        invariant
            pending_known(stack@) == known(*space),
        decreases pending_extent(stack@),
    {
        let ghost before = stack@;
        let top = stack.pop().unwrap();
        proof {
            assert(stack@ =~= before.drop_last());
        }
        if let SpaceKind::Unknown = top.kind {
            return false;
        }
        let n = top.spaces.len();
        let mut i: usize = 0;
        let ghost base = stack@;
        while i < n
            invariant
                i <= n,
                n == top.spaces@.len(),
                pending_known(stack@) == (pending_known(base) && known_inside(*top, i as nat)),
                pending_extent(stack@) == pending_extent(base) + extent_inside(*top, i as nat),
            decreases n - i,
        {
            let inner = &top.spaces[i];
            proof {
                assert(stack@.push(inner).drop_last() =~= stack@);
            }
            stack.push(inner);
            i += 1;
        }
    }
    true
}

} // verus!
