//! The values of a report: a tree of named groups with the metrics at its
//! leaves, which can be counted, and flattened into dotted paths.

use vstd::prelude::*;
use vstd::string::*;

verus! {

/// A value of a report: a metric, or a group of named values.
#[derive(Debug)]
pub enum MetricValue<L> {
    /// A single metric: a number, an absent value, or a list of samples.
    Leaf(L),
    /// A group of named values.
    Object(Vec<(String, MetricValue<L>)>),
}

/// Whether the entries `entries` hold one of the name `key`.
pub open spec fn has_key<L>(entries: Seq<(String, MetricValue<L>)>, key: Seq<char>) -> bool {
    exists|i: int| 0 <= i < entries.len() && (#[trigger] entries[i]).0@ == key
}

/// The names by which the summary of a histogram is known.
pub open spec fn summary_keys() -> (Seq<char>, Seq<char>, Seq<char>) {
    (seq!['a', 'v', 'g'], seq!['m', 'o', 'd', 'e'], seq!['s', 'u', 'm'])
}

/// Whether a group with the entries `entries` is the summary of a
/// histogram: such a group is one metric.
pub open spec fn is_summary<L>(entries: Seq<(String, MetricValue<L>)>) -> bool {
    &&& has_key(entries, summary_keys().0)
    &&& has_key(entries, summary_keys().1)
    &&& has_key(entries, summary_keys().2)
}

/// Whether `value` is one metric: a leaf, or the summary of a histogram.
pub open spec fn is_metric<L>(value: MetricValue<L>) -> bool {
    match value {
        MetricValue::Leaf(_) => true,
        MetricValue::Object(entries) => is_summary(entries@),
    }
}

/// The number of metrics of `value`.
pub open spec fn metrics_in<L>(value: MetricValue<L>) -> nat
    decreases value, 1nat, 0nat,
{
    match value {
        MetricValue::Leaf(_) => 1,
        MetricValue::Object(entries) => if is_summary(entries@) {
            1
        } else {
            metrics_among(value, entries@.len())
        },
    }
}

/// The number of metrics of the first `upto` entries of the group `group`.
pub open spec fn metrics_among<L>(group: MetricValue<L>, upto: nat) -> nat
    decreases group, 0nat, upto,
{
    match group {
        MetricValue::Leaf(_) => 0,
        MetricValue::Object(entries) => if upto == 0 || upto > entries@.len() {
            0
        } else {
            metrics_among(group, (upto - 1) as nat) + metrics_in(entries@[upto - 1].1)
        },
    }
}

/// The path of the entry `name` of the group at `path`.
pub open spec fn dotted(path: Seq<char>, name: Seq<char>) -> Seq<char> {
    path + seq!['.'] + name
}

/// A metric and the path that leads to it.
pub struct Found<L> {
    pub path: Seq<char>,
    pub value: MetricValue<L>,
}

/// The metrics of `value`, which stands at `path`, each with its path, in
/// the order of the entries.
pub open spec fn flat<L>(path: Seq<char>, value: MetricValue<L>) -> Seq<Found<L>>
    decreases value, 1nat, 0nat,
{
    match value {
        MetricValue::Leaf(_) => seq![Found { path, value }],
        MetricValue::Object(entries) => if is_summary(entries@) {
            seq![Found { path, value }]
        } else {
            flat_among(path, value, entries@.len())
        },
    }
}

/// The metrics of the first `upto` entries of the group `group`, which
/// stands at `path`.
pub open spec fn flat_among<L>(path: Seq<char>, group: MetricValue<L>, upto: nat) -> Seq<Found<L>>
    decreases group, 0nat, upto,
{
    match group {
        MetricValue::Leaf(_) => Seq::empty(),
        MetricValue::Object(entries) => if upto == 0 || upto > entries@.len() {
            Seq::empty()
        } else {
            flat_among(path, group, (upto - 1) as nat) + flat(
                dotted(path, entries@[upto - 1].0@),
                entries@[upto - 1].1,
            )
        },
    }
}

/// A flattened value holds one entry for each metric of the value.
pub proof fn law_flat_counts<L>(path: Seq<char>, value: MetricValue<L>)
    ensures
        flat(path, value).len() == metrics_in(value),
    decreases value, 1nat, 0nat,
{
    match value {
        MetricValue::Leaf(_) => {},
        MetricValue::Object(entries) => {
            if !is_summary(entries@) {
                law_flat_counts_among(path, value, entries@.len());
            }
        },
    }
}

/// A flattened group holds one entry for each metric of its entries.
pub proof fn law_flat_counts_among<L>(path: Seq<char>, group: MetricValue<L>, upto: nat)
    ensures
        flat_among(path, group, upto).len() == metrics_among(group, upto),
    decreases group, 0nat, upto,
{
    match group {
        MetricValue::Leaf(_) => {},
        MetricValue::Object(entries) => {
            if !(upto == 0 || upto > entries@.len()) {
                law_flat_counts_among(path, group, (upto - 1) as nat);
                law_flat_counts(dotted(path, entries@[upto - 1].0@), entries@[upto - 1].1);
            }
        },
    }
}

/// Each entry of a flattened value is one metric.
pub proof fn law_flat_holds_metrics<L>(path: Seq<char>, value: MetricValue<L>, i: int)
    requires
        0 <= i < flat(path, value).len(),
    ensures
        is_metric(flat(path, value)[i].value),
        metrics_in(flat(path, value)[i].value) == 1,
    decreases value, 1nat, 0nat,
{
    match value {
        MetricValue::Leaf(_) => {},
        MetricValue::Object(entries) => {
            if !is_summary(entries@) {
                law_flat_holds_metrics_among(path, value, entries@.len(), i);
            }
        },
    }
}

/// Each entry of a flattened group is one metric.
pub proof fn law_flat_holds_metrics_among<L>(
    path: Seq<char>,
    group: MetricValue<L>,
    upto: nat,
    i: int,
)
    requires
        0 <= i < flat_among(path, group, upto).len(),
    ensures
        is_metric(flat_among(path, group, upto)[i].value),
        metrics_in(flat_among(path, group, upto)[i].value) == 1,
    decreases group, 0nat, upto,
{
    match group {
        MetricValue::Leaf(_) => {},
        MetricValue::Object(entries) => {
            if !(upto == 0 || upto > entries@.len()) {
                let before = flat_among(path, group, (upto - 1) as nat);
                if i < before.len() {
                    law_flat_holds_metrics_among(path, group, (upto - 1) as nat, i);
                } else {
                    law_flat_holds_metrics(
                        dotted(path, entries@[upto - 1].0@),
                        entries@[upto - 1].1,
                        i - before.len(),
                    );
                }
            }
        },
    }
}


/// The number of values of the tree under `value`, itself counted.
pub open spec fn weight<L>(value: MetricValue<L>) -> nat
    decreases value, 1nat, 0nat,
{
    match value {
        MetricValue::Leaf(_) => 1,
        MetricValue::Object(entries) => 1 + weight_among(value, entries@.len()),
    }
}

/// The number of values of the trees under the first `upto` entries of the
/// group `group`.
pub open spec fn weight_among<L>(group: MetricValue<L>, upto: nat) -> nat
    decreases group, 0nat, upto,
{
    match group {
        MetricValue::Leaf(_) => 0,
        MetricValue::Object(entries) => if upto == 0 || upto > entries@.len() {
            0
        } else {
            weight_among(group, (upto - 1) as nat) + weight(entries@[upto - 1].1)
        },
    }
}

/// A metric of a report, and the path that leads to it.
pub struct Entry<'a, L> {
    pub path: String,
    pub value: &'a MetricValue<L>,
}

impl<'a, L> View for Entry<'a, L> {
    type V = Found<L>;

    open spec fn view(&self) -> Found<L> {
        Found { path: self.path@, value: *self.value }
    }
}

/// What a run of entries stands for.
pub open spec fn found<L>(entries: Seq<Entry<L>>) -> Seq<Found<L>> {
    Seq::new(entries.len(), |i: int| entries[i]@)
}

/// The metrics of the values of `stack`, the last value first.
spec fn pending_flat<L>(stack: Seq<Entry<L>>) -> Seq<Found<L>>
    decreases stack.len(),
{
    if stack.len() == 0 {
        Seq::empty()
    } else {
        flat(stack.last().path@, *stack.last().value) + pending_flat(stack.drop_last())
    }
}

/// The number of values of the trees of `stack`.
spec fn pending_weight<L>(stack: Seq<Entry<L>>) -> nat
    decreases stack.len(),
{
    if stack.len() == 0 {
        0
    } else {
        pending_weight(stack.drop_last()) + weight(*stack.last().value)
    }
}

proof fn lemma_pending_push<L>(stack: Seq<Entry<L>>, top: Entry<L>)
    ensures
        pending_flat(stack.push(top)) == flat(top.path@, *top.value) + pending_flat(stack),
        pending_weight(stack.push(top)) == pending_weight(stack) + weight(*top.value),
{
    assert(stack.push(top).drop_last() =~= stack);
}

proof fn lemma_found_push<L>(entries: Seq<Entry<L>>, next: Entry<L>)
    ensures
        found(entries.push(next)) == found(entries) + seq![next@],
{
    assert(found(entries.push(next)) =~= found(entries) + seq![next@]);
}

/// Whether two names are the same.
fn same_name(a: &String, b: &String) -> (same: bool)
    ensures
        same == (a@ == b@),
{
    *a == *b
}

/// Whether the entries `entries` hold one of the name `key`.
pub fn holds<L>(entries: &Vec<(String, MetricValue<L>)>, key: &String) -> (yes: bool)
    ensures
        yes == has_key(entries@, key@),
{
    let mut i: usize = 0;
    while i < entries.len()
        invariant
            i <= entries@.len(),
            forall|k: int| 0 <= k < i ==> (#[trigger] entries@[k]).0@ != key@,
        decreases entries@.len() - i,
    {
        if same_name(&entries[i].0, key) {
            return true;
        }
        i += 1;
    }
    false
}

/// Whether a group with the entries `entries` is the summary of a
/// histogram.
pub fn summarises<L>(entries: &Vec<(String, MetricValue<L>)>) -> (yes: bool)
    ensures
        yes == is_summary(entries@),
{
    proof {
        reveal_strlit("avg");
        reveal_strlit("mode");
        reveal_strlit("sum");
        assert("avg"@ =~= summary_keys().0);
        assert("mode"@ =~= summary_keys().1);
        assert("sum"@ =~= summary_keys().2);
    }
    let avg = String::from_str("avg");
    let mode = String::from_str("mode");
    let sum = String::from_str("sum");
    holds(entries, &avg) && holds(entries, &mode) && holds(entries, &sum)
}

/// The path of the entry `name` of the group at `path`.
pub fn join(path: &String, name: &String) -> (joined: String)
    ensures
        joined@ == dotted(path@, name@),
{
    proof {
        reveal_strlit(".");
        assert("."@ =~= seq!['.']);
    }
    let mut joined = path.clone();
    joined.append(".");
    joined.append(name.as_str());
    joined
}

/// Puts the entries of the group `group`, which stands at `path`, on
/// `stack`, so that the first comes off first.
fn put_entries<'a, L>(stack: &mut Vec<Entry<'a, L>>, path: &String, group: &'a MetricValue<L>)
    requires
        *group is Object,
    ensures
        pending_flat(final(stack)@) == flat_among(path@, *group, group->Object_0@.len())
            + pending_flat(old(stack)@),
        pending_weight(final(stack)@) == pending_weight(old(stack)@) + weight_among(
            *group,
            group->Object_0@.len(),
        ),
{
    let ghost base = stack@;
    match group {
        MetricValue::Leaf(_) => {},
        MetricValue::Object(entries) => {
            let n = entries.len();
            let mut placed: usize = n;
            while placed > 0
                invariant
                    placed <= n,
                    n == entries@.len(),
                    *group == MetricValue::Object(*entries),
                    flat_among(path@, *group, placed as nat) + pending_flat(stack@) == flat_among(
                        path@,
                        *group,
                        n as nat,
                    ) + pending_flat(base),
                    weight_among(*group, placed as nat) + pending_weight(stack@) == weight_among(
                        *group,
                        n as nat,
                    ) + pending_weight(base),
                decreases placed,
            {
                placed -= 1;
                let entry = Entry {
                    path: join(path, &entries[placed].0),
                    value: &entries[placed].1,
                };
                proof {
                    lemma_pending_push(stack@, entry);
                    let before = flat_among(path@, *group, placed as nat);
                    let here = flat(entry.path@, *entry.value);
                    let rest = pending_flat(stack@);
                    assert((before + here) + rest =~= before + (here + rest));
                }
                stack.push(entry);
            }
            proof {
                assert(Seq::<Found<L>>::empty() + pending_flat(stack@) =~= pending_flat(stack@));
            }
        },
    }
}

/// Flattens what is on `stack`, and adds the metrics to `out`.
fn drain<'a, L>(stack: Vec<Entry<'a, L>>, out: Vec<Entry<'a, L>>) -> (all: Vec<Entry<'a, L>>)
    ensures
        found(all@) == found(out@) + pending_flat(stack@),
{
    let ghost target = found(out@) + pending_flat(stack@);
    let mut stack = stack;
    let mut out = out;
    while stack.len() > 0
        invariant
            found(out@) + pending_flat(stack@) == target,
        decreases pending_weight(stack@),
    {
        let ghost before = stack@;
        let top = stack.pop().unwrap();
        let ghost rest = pending_flat(stack@);
        let ghost done = found(out@);
        proof {
            assert(stack@ =~= before.drop_last());
        }
        match top.value {
            MetricValue::Leaf(_) => {
                proof {
                    lemma_found_push(out@, top);
                    assert((done + seq![top@]) + rest =~= done + (seq![top@] + rest));
                }
                out.push(top);
            },
            MetricValue::Object(entries) => {
                if summarises(entries) {
                    proof {
                        lemma_found_push(out@, top);
                        assert((done + seq![top@]) + rest =~= done + (seq![top@] + rest));
                    }
                    out.push(top);
                } else {
                    proof {
                        let below = flat_among(top.path@, *top.value, entries@.len());
                        assert(done + (below + rest) =~= done + below + rest);
                    }
                    put_entries(&mut stack, &top.path, top.value);
                }
            },
        }
    }
    proof {
        assert(found(out@) + Seq::<Found<L>>::empty() =~= found(out@));
    }
    out
}

/// The metrics of `value`, which stands at `path`, each with its path.
pub fn flatten_value<'a, L>(path: String, value: &'a MetricValue<L>) -> (entries: Vec<Entry<'a, L>>)
    ensures
        found(entries@) == flat(path@, *value),
{
    let mut stack: Vec<Entry<'a, L>> = Vec::new();
    let out: Vec<Entry<'a, L>> = Vec::new();
    let first = Entry { path, value };
    proof {
        lemma_pending_push(stack@, first);
        let all = flat(path@, *value);
        assert(all + Seq::<Found<L>>::empty() =~= all);
        assert(found(out@) + all =~= all);
    }
    stack.push(first);
    drain(stack, out)
}

/// The number of metrics of `value`: a leaf is one, the summary of a
/// histogram is one, and any other group has those of its entries.
pub fn count_submetrics<L>(value: &MetricValue<L>) -> (count: usize)
    ensures
        count == metrics_in(*value),
{
    let entries = flatten_value(String::new(), value);
    proof {
        law_flat_counts(Seq::<char>::empty(), *value);
        assert(found(entries@).len() == entries@.len());
    }
    entries.len()
}


/// A metric as the library reports it.
#[derive(Debug)]
pub enum Sample {
    /// No value: the mean or the mode of a histogram that has none.
    Null,
    /// A count or a total.
    Number(u128),
    /// A quotient of two integers, kept exact: numerator, denominator.
    Ratio(u128, u64),
    /// Raw observations.
    Samples(Vec<usize>),
}

/// What a `Sample` stands for.
pub enum SampleModel {
    Null,
    Number(nat),
    Ratio(nat, nat),
    Samples(Seq<usize>),
}

impl View for Sample {
    type V = SampleModel;

    open spec fn view(&self) -> SampleModel {
        match self {
            Sample::Null => SampleModel::Null,
            Sample::Number(n) => SampleModel::Number(*n as nat),
            Sample::Ratio(num, den) => SampleModel::Ratio(*num as nat, *den as nat),
            Sample::Samples(values) => SampleModel::Samples(values@),
        }
    }
}

/// What a value of a report stands for.
pub enum Shape {
    Leaf(SampleModel),
    Object(Seq<(Seq<char>, Shape)>),
}

/// What `value` stands for.
pub open spec fn shape_of(value: MetricValue<Sample>) -> Shape
    decreases value,
{
    match value {
        MetricValue::Leaf(sample) => Shape::Leaf(sample@),
        MetricValue::Object(entries) => Shape::Object(shapes_of(entries@)),
    }
}

/// What the entries `entries` stand for.
pub open spec fn shapes_of(entries: Seq<(String, MetricValue<Sample>)>) -> Seq<(Seq<char>, Shape)>
    decreases entries,
{
    if entries.len() == 0 {
        Seq::empty()
    } else {
        shapes_of(entries.drop_last()).push((entries.last().0@, shape_of(entries.last().1)))
    }
}

/// Adds the entry `name` with the value `value` to `entries`.
pub fn add_entry(
    entries: &mut Vec<(String, MetricValue<Sample>)>,
    name: &str,
    value: MetricValue<Sample>,
)
    ensures
        shapes_of(final(entries)@) == shapes_of(old(entries)@).push((name@, shape_of(value))),
{
    let key = String::from_str(name);
    proof {
        assert(entries@.push((key, value)).drop_last() =~= entries@);
    }
    entries.push((key, value));
}

/// The value that stands for the raw observations `values`.
pub fn samples(values: &Vec<usize>) -> (value: MetricValue<Sample>)
    ensures
        shape_of(value) == Shape::Leaf(SampleModel::Samples(values@)),
{
    let mut copy: Vec<usize> = Vec::new();
    let mut i: usize = 0;
    while i < values.len()
        invariant
            i <= values@.len(),
            copy@ == values@.take(i as int),
        decreases values@.len() - i,
    {
        copy.push(values[i]);
        proof {
            assert(values@.take(i + 1) =~= values@.take(i as int).push(values@[i as int]));
        }
        i += 1;
    }
    proof {
        assert(values@.take(values@.len() as int) =~= values@);
    }
    MetricValue::Leaf(Sample::Samples(copy))
}

} // verus!
