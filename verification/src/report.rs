//! The metrics of a report, counted and flattened: from the values that the
//! collectors report under their names to one entry for each metric, under
//! its dotted path.

use vstd::prelude::*;
use vstd::string::*;
use crate::pathmap::{PathMap, distinct, last_at};
use crate::value::{
    Entry, Found, MetricValue, flat, flatten_value, found, is_metric, law_flat_counts,
    law_flat_holds_metrics, metrics_in,
};

verus! {

/// The number of metrics of the values `metrics`.
pub open spec fn metrics_all<L>(metrics: Seq<(String, MetricValue<L>)>) -> nat
    decreases metrics.len(),
{
    if metrics.len() == 0 {
        0
    } else {
        metrics_all(metrics.drop_last()) + metrics_in(metrics.last().1)
    }
}

/// The metrics of the values `metrics`, each with its path, which starts
/// with the name of the value that holds it.
pub open spec fn flat_all<L>(metrics: Seq<(String, MetricValue<L>)>) -> Seq<Found<L>>
    decreases metrics.len(),
{
    if metrics.len() == 0 {
        Seq::empty()
    } else {
        flat_all(metrics.drop_last()) + flat(metrics.last().0@, metrics.last().1)
    }
}

/// The number of metrics of the values of `entries`.
pub open spec fn counted<L>(entries: Seq<Found<L>>) -> nat
    decreases entries.len(),
{
    if entries.len() == 0 {
        0
    } else {
        counted(entries.drop_last()) + metrics_in(entries.last().value)
    }
}

/// Whether each of `entries` holds one metric.
pub open spec fn all_metrics<L>(entries: Seq<Found<L>>) -> bool {
    forall|i: int| 0 <= i < entries.len() ==> is_metric((#[trigger] entries[i]).value)
}

/// The flattened values hold one entry for each metric of the values.
pub proof fn law_flat_all_counts<L>(metrics: Seq<(String, MetricValue<L>)>)
    ensures
        flat_all(metrics).len() == metrics_all(metrics),
        all_metrics(flat_all(metrics)),
    decreases metrics.len(),
{
    if metrics.len() > 0 {
        law_flat_all_counts(metrics.drop_last());
        law_flat_counts(metrics.last().0@, metrics.last().1);
        let front = flat_all(metrics.drop_last());
        let here = flat(metrics.last().0@, metrics.last().1);
        assert forall|i: int| 0 <= i < (front + here).len() implies is_metric(
            (#[trigger] (front + here)[i]).value,
        ) by {
            if i >= front.len() {
                law_flat_holds_metrics(metrics.last().0@, metrics.last().1, i - front.len());
            } else {
                assert(is_metric(front[i].value));
            }
        }
    }
}

/// Entries that hold one metric each hold as many metrics as there are
/// entries.
pub proof fn law_counted<L>(entries: Seq<Found<L>>)
    requires
        all_metrics(entries),
    ensures
        counted(entries) == entries.len(),
    decreases entries.len(),
{
    if entries.len() > 0 {
        let front = entries.drop_last();
        assert forall|i: int| 0 <= i < front.len() implies is_metric(
            (#[trigger] front[i]).value,
        ) by {
            assert(front[i] == entries[i]);
        }
        law_counted(front);
        let last = entries[entries.len() - 1];
        assert(is_metric(last.value));
    }
}

/// The metrics of `metrics`, each with its path, in the order of the
/// values and of their entries.
pub fn flatten_entries<'a, L>(metrics: &'a Vec<(String, MetricValue<L>)>) -> (entries: Vec<
    Entry<'a, L>,
>)
    ensures
        found(entries@) == flat_all(metrics@),
{
    let mut entries: Vec<Entry<'a, L>> = Vec::new();
    let mut i: usize = 0;
    proof {
        assert(found(entries@) =~= flat_all(metrics@.take(0)));
    }
    while i < metrics.len()
        invariant
            i <= metrics@.len(),
            found(entries@) == flat_all(metrics@.take(i as int)),
        decreases metrics@.len() - i,
    {
        let mut here = flatten_value(metrics[i].0.clone(), &metrics[i].1);
        proof {
            assert(metrics@.take(i + 1).drop_last() =~= metrics@.take(i as int));
            assert(found(entries@ + here@) =~= found(entries@) + found(here@));
        }
        entries.append(&mut here);
        i += 1;
    }
    proof {
        assert(metrics@.take(metrics@.len() as int) =~= metrics@);
    }
    entries
}

/// The number of metrics of `metrics`: the summary of a histogram is one.
pub fn count_metrics<L>(metrics: &Vec<(String, MetricValue<L>)>) -> (count: usize)
    ensures
        count == metrics_all(metrics@),
{
    let entries = flatten_entries(metrics);
    proof {
        law_flat_all_counts(metrics@);
        assert(found(entries@).len() == entries@.len());
    }
    entries.len()
}

/// The metrics of `metrics` by their dotted paths, in the order of the
/// paths. Where two metrics have the same path, the map holds the later.
///
/// Where no two metrics have the same path, the map holds as many metrics
/// as the values do: counting after flattening gives what counting before
/// gives.
pub fn flatten_metrics<'a, L>(metrics: &'a Vec<(String, MetricValue<L>)>) -> (map: PathMap<'a, L>)
    ensures
        map.wf(),
        forall|path: Seq<char>| map.value_at(path) == last_at(flat_all(metrics@), path),
        all_metrics(map@),
        counted(map@) == map@.len(),
        distinct(flat_all(metrics@)) ==> map@.len() == metrics_all(metrics@),
        distinct(flat_all(metrics@)) ==> counted(map@) == metrics_all(metrics@),
{
    let entries = flatten_entries(metrics);
    let ghost all = flat_all(metrics@);
    let map = PathMap::from_entries(entries);
    proof {
        law_flat_all_counts(metrics@);
        assert forall|k: int| 0 <= k < map@.len() implies is_metric((#[trigger] map@[k]).value) by {
            let j = choose|j: int| 0 <= j < all.len() && all[j] == map@[k];
            assert(is_metric(all[j].value));
        }
        law_counted(map@);
    }
    map
}

/// The values `metrics` with their names.
pub open spec fn named<L>(metrics: Seq<(String, MetricValue<L>)>) -> Seq<Found<L>> {
    Seq::new(metrics.len(), |i: int| Found { path: metrics[i].0@, value: metrics[i].1 })
}

/// The values of a report by their names, in the order of the names: the
/// one map that the values of all collectors are merged into. Where two
/// values have the same name, the map holds the later.
pub fn by_name<'a, L>(metrics: &'a Vec<(String, MetricValue<L>)>) -> (map: PathMap<'a, L>)
    ensures
        map.wf(),
        forall|name: Seq<char>| map.value_at(name) == last_at(named(metrics@), name),
        distinct(named(metrics@)) ==> map@.len() == metrics@.len(),
{
    let mut entries: Vec<Entry<'a, L>> = Vec::new();
    let mut i: usize = 0;
    while i < metrics.len()
        invariant
            i <= metrics@.len(),
            found(entries@) == named(metrics@).take(i as int),
        decreases metrics@.len() - i,
    {
        let entry = Entry { path: metrics[i].0.clone(), value: &metrics[i].1 };
        proof {
            let all = named(metrics@);
            assert(entry@ == all[i as int]);
            assert(found(entries@.push(entry)) =~= found(entries@).push(entry@));
            assert(all.take(i + 1) =~= all.take(i as int).push(all[i as int]));
        }
        entries.push(entry);
        i += 1;
    }
    proof {
        assert(named(metrics@).take(metrics@.len() as int) =~= named(metrics@));
    }
    PathMap::from_entries(entries)
}

} // verus!
