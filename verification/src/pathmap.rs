//! A map from paths to the values of a report, kept in the order of its
//! paths.

use vstd::prelude::*;
use vstd::string::*;
use vstd::utf8::{encode_utf8, encode_utf8_decode_utf8};
use crate::value::{Entry, Found, MetricValue, found};

verus! {

/// Whether the bytes `a` come before the bytes `b` in a dictionary.
pub open spec fn before(a: Seq<u8>, b: Seq<u8>) -> bool
    decreases a.len(),
{
    if b.len() == 0 {
        false
    } else if a.len() == 0 {
        true
    } else if a[0] != b[0] {
        a[0] < b[0]
    } else {
        before(a.skip(1), b.skip(1))
    }
}

/// The bytes by which a path is ordered.
pub open spec fn key(path: Seq<char>) -> Seq<u8> {
    encode_utf8(path)
}

/// Two paths with the same bytes are the same path.
pub proof fn lemma_key_is_path(a: Seq<char>, b: Seq<char>)
    requires
        key(a) == key(b),
    ensures
        a == b,
{
    encode_utf8_decode_utf8(a);
    encode_utf8_decode_utf8(b);
}

/// Nothing comes before itself.
pub proof fn lemma_before_irreflexive(a: Seq<u8>)
    ensures
        !before(a, a),
    decreases a.len(),
{
    if a.len() > 0 {
        lemma_before_irreflexive(a.skip(1));
    }
}

/// What comes before something that comes before a third comes before the
/// third.
pub proof fn lemma_before_transitive(a: Seq<u8>, b: Seq<u8>, c: Seq<u8>)
    requires
        before(a, b),
        before(b, c),
    ensures
        before(a, c),
    decreases a.len(),
{
    if a.len() > 0 && a[0] == b[0] && b[0] == c[0] {
        lemma_before_transitive(a.skip(1), b.skip(1), c.skip(1));
    }
}

/// Runs of bytes that agree up to `upto` are ordered as what follows.
proof fn lemma_before_skip(a: Seq<u8>, b: Seq<u8>, upto: int)
    requires
        0 <= upto <= a.len(),
        upto <= b.len(),
        a.take(upto) == b.take(upto),
    ensures
        before(a, b) == before(a.skip(upto), b.skip(upto)),
    decreases upto,
{
    if upto > 0 {
        assert(a[0] == a.take(upto)[0]);
        assert(b[0] == b.take(upto)[0]);
        assert(a.skip(1).take(upto - 1) =~= a.take(upto).skip(1));
        assert(b.skip(1).take(upto - 1) =~= b.take(upto).skip(1));
        lemma_before_skip(a.skip(1), b.skip(1), upto - 1);
        assert(a.skip(1).skip(upto - 1) =~= a.skip(upto));
        assert(b.skip(1).skip(upto - 1) =~= b.skip(upto));
    } else {
        assert(a.skip(0) =~= a);
        assert(b.skip(0) =~= b);
    }
}

/// How two paths stand to each other.
#[derive(Clone, Copy, Debug, PartialEq, Eq, Structural)]
pub enum Rank {
    Before,
    Same,
    After,
}

/// How the path `a` stands to the path `b`.
pub fn rank(a: &str, b: &str) -> (rank: Rank)
    ensures
        match rank {
            Rank::Before => before(key(a@), key(b@)),
            Rank::Same => a@ == b@,
            Rank::After => before(key(b@), key(a@)),
        },
{
    let left = a.as_bytes();
    let right = b.as_bytes();
    let mut i: usize = 0;
    while i < left.len() && i < right.len()
        invariant
            i <= left@.len(),
            i <= right@.len(),
            left@ == key(a@),
            right@ == key(b@),
            left@.take(i as int) == right@.take(i as int),
        decreases left@.len() - i,
    {
        proof {
            lemma_before_skip(left@, right@, i as int);
            lemma_before_skip(right@, left@, i as int);
        }
        if left[i] < right[i] {
            return Rank::Before;
        }
        if left[i] > right[i] {
            return Rank::After;
        }
        proof {
            assert(left@.take(i + 1) =~= left@.take(i as int).push(left@[i as int]));
            assert(right@.take(i + 1) =~= right@.take(i as int).push(right@[i as int]));
        }
        i += 1;
    }
    proof {
        lemma_before_skip(left@, right@, i as int);
        lemma_before_skip(right@, left@, i as int);
    }
    if i < right.len() {
        Rank::Before
    } else if i < left.len() {
        Rank::After
    } else {
        proof {
            assert(left@.take(i as int) =~= left@);
            assert(right@.take(i as int) =~= right@);
            lemma_key_is_path(a@, b@);
        }
        Rank::Same
    }
}

/// Whether the paths of `entries` ascend, none twice.
pub open spec fn ordered<L>(entries: Seq<Found<L>>) -> bool {
    forall|i: int, j: int|
        0 <= i < j < entries.len() ==> before(
            key(#[trigger] entries[i].path),
            key(#[trigger] entries[j].path),
        )
}

/// Whether `entries` holds an entry at `path`.
pub open spec fn has_path<L>(entries: Seq<Found<L>>, path: Seq<char>) -> bool {
    exists|i: int| 0 <= i < entries.len() && (#[trigger] entries[i]).path == path
}

/// The value that the last entry of `entries` at `path` holds.
pub open spec fn last_at<L>(entries: Seq<Found<L>>, path: Seq<char>) -> Option<MetricValue<L>>
    decreases entries.len(),
{
    if entries.len() == 0 {
        None
    } else if entries.last().path == path {
        Some(entries.last().value)
    } else {
        last_at(entries.drop_last(), path)
    }
}

/// Whether no two of `entries` have the same path.
pub open spec fn distinct<L>(entries: Seq<Found<L>>) -> bool {
    forall|i: int, j: int|
        0 <= i < j < entries.len() ==> (#[trigger] entries[i]).path != (#[trigger] entries[j]).path
}

/// The metrics of a report by their paths, in the order of the paths.
pub struct PathMap<'a, L> {
    entries: Vec<Entry<'a, L>>,
}

impl<'a, L> View for PathMap<'a, L> {
    type V = Seq<Found<L>>;

    closed spec fn view(&self) -> Seq<Found<L>> {
        found(self.entries@)
    }
}

proof fn lemma_ordered_is_distinct<L>(entries: Seq<Found<L>>)
    requires
        ordered(entries),
    ensures
        distinct(entries),
{
    assert forall|i: int, j: int| 0 <= i < j < entries.len() implies (#[trigger] entries[i]).path
        != (#[trigger] entries[j]).path by {
        lemma_before_irreflexive(key(entries[i].path));
    }
}

/// In an ordered map, the entry at a path is the last one at that path.
pub proof fn lemma_last_at_ordered<L>(entries: Seq<Found<L>>, at: int)
    requires
        ordered(entries),
        0 <= at < entries.len(),
    ensures
        last_at(entries, entries[at].path) == Some(entries[at].value),
    decreases entries.len(),
{
    lemma_ordered_is_distinct(entries);
    if at < entries.len() - 1 {
        let front = entries.drop_last();
        assert(entries[at].path != entries[entries.len() - 1].path);
        assert forall|i: int, j: int| 0 <= i < j < front.len() implies before(
            key(#[trigger] front[i].path),
            key(#[trigger] front[j].path),
        ) by {
            assert(front[i] == entries[i]);
            assert(front[j] == entries[j]);
        }
        lemma_last_at_ordered(front, at);
    }
}

/// A path has a last entry where it has an entry.
pub proof fn lemma_last_at_none<L>(entries: Seq<Found<L>>, path: Seq<char>)
    ensures
        last_at(entries, path) is Some <==> has_path(entries, path),
    decreases entries.len(),
{
    if entries.len() > 0 {
        let front = entries.drop_last();
        lemma_last_at_none(front, path);
        if has_path(entries, path) && entries.last().path != path {
            let i = choose|i: int| 0 <= i < entries.len() && (#[trigger] entries[i]).path == path;
            assert(front[i].path == path);
        }
        if has_path(front, path) {
            let i = choose|i: int| 0 <= i < front.len() && (#[trigger] front[i]).path == path;
            assert(entries[i].path == path);
        }
        if entries.last().path == path {
            assert(entries[entries.len() - 1].path == path);
        }
    }
}

impl<'a, L> PathMap<'a, L> {
    /// Whether the paths ascend, none twice.
    pub open spec fn wf(&self) -> bool {
        ordered(self@)
    }

    /// The value at `path`, if there is one.
    pub open spec fn value_at(&self, path: Seq<char>) -> Option<MetricValue<L>> {
        last_at(self@, path)
    }

    /// A map without entries.
    pub fn new() -> (map: Self)
        ensures
            map.wf(),
            map@.len() == 0,
    {
        PathMap { entries: Vec::new() }
    }

    /// The number of entries.
    pub fn len(&self) -> (n: usize)
        ensures
            n == self@.len(),
    {
        self.entries.len()
    }

    /// The entries, in the order of their paths.
    pub fn entries(&self) -> (entries: &Vec<Entry<'a, L>>)
        ensures
            found(entries@) == self@,
    {
        &self.entries
    }

    /// Puts `entry` into the map, in place of the entry at its path if
    /// there is one.
    pub fn insert(&mut self, entry: Entry<'a, L>)
        requires
            old(self).wf(),
        ensures
            final(self).wf(),
            final(self).value_at(entry.path@) == Some(*entry.value),
            forall|path: Seq<char>|
                path != entry.path@ ==> final(self).value_at(path) == old(self).value_at(path),
            final(self)@.len() == old(self)@.len() + if has_path(old(self)@, entry.path@) {
                0int
            } else {
                1int
            },
    {
        let ghost before_all = self@;
        let ghost new = entry@;
        let mut at: usize = 0;
        let mut stop: Option<Rank> = None;
        while at < self.entries.len() && stop.is_none()
            invariant
                at <= self.entries@.len(),
                self@ == before_all,
                before_all == found(self.entries@),
                new == entry@,
                forall|k: int|
                    0 <= k < at ==> before(key((#[trigger] before_all[k]).path), key(new.path)),
                match stop {
                    None => true,
                    Some(Rank::Same) => at < before_all.len() && before_all[at as int].path
                        == new.path,
                    Some(_) => at < before_all.len() && before(
                        key(new.path),
                        key(before_all[at as int].path),
                    ),
                },
            decreases self.entries@.len() - at, if stop is None { 1int } else { 0int },
        {
            proof {
                assert(before_all[at as int] == self.entries@[at as int]@);
            }
            match rank(self.entries[at].path.as_str(), entry.path.as_str()) {
                Rank::Before => {
                    at += 1;
                },
                Rank::Same => {
                    stop = Some(Rank::Same);
                },
                Rank::After => {
                    stop = Some(Rank::After);
                },
            }
        }
        let same = match stop {
            Some(Rank::Same) => true,
            _ => false,
        };
        if same {
            proof {
                assert(before_all[at as int].path == new.path);
            }
            self.entries.set(at, entry);
            proof {
                let after = self@;
                assert(after =~= before_all.update(at as int, new));
                assert forall|i: int, j: int| 0 <= i < j < after.len() implies before(
                    key(#[trigger] after[i].path),
                    key(#[trigger] after[j].path),
                ) by {
                    assert(after[i].path == before_all[i].path);
                    assert(after[j].path == before_all[j].path);
                }
                lemma_last_at_ordered(after, at as int);
                assert forall|path: Seq<char>| path != new.path implies last_at(after, path)
                    == last_at(before_all, path) by {
                    lemma_at_path_update(before_all, at as int, new, path);
                    lemma_same_elsewhere(before_all, after, path);
                }
                assert(has_path(before_all, new.path));
            }
        } else {
            proof {
                assert forall|j: int| at <= j < before_all.len() implies before(
                    key(new.path),
                    key((#[trigger] before_all[j]).path),
                ) by {
                    let here = key(before_all[at as int].path);
                    assert(stop is Some);
                    assert(before(key(new.path), here));
                    if j > at {
                        assert(before(
                            key(before_all[at as int].path),
                            key(before_all[j].path),
                        ));
                        lemma_before_transitive(key(new.path), here, key(before_all[j].path));
                    }
                }
            }
            self.entries.insert(at, entry);
            proof {
                let after = self@;
                assert(after =~= before_all.insert(at as int, new));
                assert forall|i: int, j: int| 0 <= i < j < after.len() implies before(
                    key(#[trigger] after[i].path),
                    key(#[trigger] after[j].path),
                ) by {
                    if i < at && j > at {
                        assert(after[i] == before_all[i]);
                        assert(after[j] == before_all[j - 1]);
                        lemma_before_transitive(
                            key(after[i].path),
                            key(new.path),
                            key(after[j].path),
                        );
                    } else if i < at && j == at {
                        assert(after[i] == before_all[i]);
                    } else if i < at {
                        assert(after[i] == before_all[i]);
                        assert(after[j] == before_all[j]);
                    } else if i == at {
                        assert(after[j] == before_all[j - 1]);
                    } else {
                        assert(after[i] == before_all[i - 1]);
                        assert(after[j] == before_all[j - 1]);
                    }
                }
                lemma_last_at_ordered(after, at as int);
                assert(!has_path(before_all, new.path)) by {
                    if has_path(before_all, new.path) {
                        let k = choose|k: int|
                            0 <= k < before_all.len() && (#[trigger] before_all[k]).path
                                == new.path;
                        lemma_before_irreflexive(key(new.path));
                    }
                }
                assert forall|path: Seq<char>| path != new.path implies last_at(after, path)
                    == last_at(before_all, path) by {
                    lemma_at_path_insert(before_all, at as int, new, path);
                    lemma_same_elsewhere(before_all, after, path);
                }
            }
        }
    }
}

/// Two runs of entries that hold the same entries at `path`, in the same
/// order, have the same last entry there.
proof fn lemma_same_elsewhere<L>(a: Seq<Found<L>>, b: Seq<Found<L>>, path: Seq<char>)
    requires
        at_path(a, path) == at_path(b, path),
    ensures
        last_at(a, path) == last_at(b, path),
{
    lemma_last_at_filtered(a, path);
    lemma_last_at_filtered(b, path);
}

/// The values of the entries of `entries` at `path`, in their order.
spec fn at_path<L>(entries: Seq<Found<L>>, path: Seq<char>) -> Seq<MetricValue<L>>
    decreases entries.len(),
{
    if entries.len() == 0 {
        Seq::empty()
    } else if entries.last().path == path {
        at_path(entries.drop_last(), path).push(entries.last().value)
    } else {
        at_path(entries.drop_last(), path)
    }
}

proof fn lemma_at_path_update<L>(entries: Seq<Found<L>>, at: int, new: Found<L>, path: Seq<char>)
    requires
        0 <= at < entries.len(),
        entries[at].path != path,
        new.path != path,
    ensures
        at_path(entries.update(at, new), path) == at_path(entries, path),
    decreases entries.len(),
{
    if at == entries.len() - 1 {
        assert(entries.update(at, new).drop_last() =~= entries.drop_last());
    } else {
        assert(entries.update(at, new).drop_last() =~= entries.drop_last().update(at, new));
        lemma_at_path_update(entries.drop_last(), at, new, path);
    }
}

proof fn lemma_at_path_insert<L>(entries: Seq<Found<L>>, at: int, new: Found<L>, path: Seq<char>)
    requires
        0 <= at <= entries.len(),
        new.path != path,
    ensures
        at_path(entries.insert(at, new), path) == at_path(entries, path),
    decreases entries.len(),
{
    if at == entries.len() {
        assert(entries.insert(at, new).drop_last() =~= entries);
    } else {
        assert(entries.insert(at, new).drop_last() =~= entries.drop_last().insert(at, new));
        assert(entries.insert(at, new).last() == entries.last());
        lemma_at_path_insert(entries.drop_last(), at, new, path);
    }
}

proof fn lemma_last_at_filtered<L>(entries: Seq<Found<L>>, path: Seq<char>)
    ensures
        last_at(entries, path) == if at_path(entries, path).len() == 0 {
            None
        } else {
            Some(at_path(entries, path).last())
        },
    decreases entries.len(),
{
    if entries.len() > 0 {
        lemma_last_at_filtered(entries.drop_last(), path);
    }
}

/// The last entry at a path is one of the entries.
proof fn lemma_last_at_is_entry<L>(entries: Seq<Found<L>>, path: Seq<char>)
    requires
        last_at(entries, path) is Some,
    ensures
        exists|i: int|
            0 <= i < entries.len() && (#[trigger] entries[i]).path == path && entries[i].value
                == last_at(entries, path)->0,
    decreases entries.len(),
{
    if entries.len() > 0 {
        if entries.last().path == path {
            assert(entries[entries.len() - 1].path == path);
        } else {
            lemma_last_at_is_entry(entries.drop_last(), path);
            let i = choose|i: int|
                0 <= i < entries.drop_last().len() && (#[trigger] entries.drop_last()[i]).path
                    == path && entries.drop_last()[i].value == last_at(
                    entries.drop_last(),
                    path,
                )->0;
            assert(entries[i] == entries.drop_last()[i]);
        }
    }
}

impl<'a, L> PathMap<'a, L> {
    /// The map of `entries`, each put in after those before it: where two
    /// entries have the same path, the map holds the later.
    pub fn from_entries(entries: Vec<Entry<'a, L>>) -> (map: Self)
        ensures
            map.wf(),
            forall|path: Seq<char>| map.value_at(path) == last_at(found(entries@), path),
            forall|k: int|
                0 <= k < map@.len() ==> exists|j: int|
                    0 <= j < entries@.len() && found(entries@)[j] == #[trigger] map@[k],
            distinct(found(entries@)) ==> map@.len() == entries@.len(),
    {
        let ghost all = found(entries@);
        let mut map: PathMap<'a, L> = PathMap::new();
        proof {
            assert(all.take(0) =~= Seq::<Found<L>>::empty());
        }
        for entry in iter: entries
            invariant
                found(iter.seq()) == all,
                map.wf(),
                forall|path: Seq<char>|
                    #[trigger] map.value_at(path) == last_at(all.take(iter.index() as int), path),
                distinct(all) ==> map@.len() == iter.index(),
        {
            let ghost i = iter.index() as int;
            let ghost before = map@;
            proof {
                assert(entry@ == all[i]);
                assert(all.take(i + 1).drop_last() =~= all.take(i));
                if distinct(all) {
                    lemma_last_at_none(before, entry.path@);
                    lemma_last_at_none(all.take(i), entry.path@);
                    assert(map.value_at(entry.path@) == last_at(all.take(i), entry.path@));
                    if has_path(all.take(i), entry.path@) {
                        let k = choose|k: int|
                            0 <= k < i && (#[trigger] all.take(i)[k]).path == entry.path@;
                        assert(all[k].path == all[i].path);
                    }
                    assert(!has_path(before, entry.path@));
                }
            }
            map.insert(entry);
            proof {
                assert forall|path: Seq<char>| map.value_at(path) == last_at(
                    all.take(i + 1),
                    path,
                ) by {
                    if path != entry.path@ {
                        assert(last_at(before, path) == last_at(all.take(i), path));
                    }
                }
            }
        }
        proof {
            assert(all.take(all.len() as int) =~= all);
            assert forall|k: int| 0 <= k < map@.len() implies exists|j: int|
                0 <= j < all.len() && all[j] == #[trigger] map@[k] by {
                lemma_last_at_ordered(map@, k);
                assert(map.value_at(map@[k].path) == last_at(all, map@[k].path));
                lemma_last_at_is_entry(all, map@[k].path);
                let j = choose|j: int|
                    0 <= j < all.len() && (#[trigger] all[j]).path == map@[k].path
                        && all[j].value == last_at(all, map@[k].path)->0;
                assert(all[j] == map@[k]);
            }
        }
        map
    }
}

} // verus!
