//! A map from texts to values that keeps its keys in order.
use crate::chars;
use crate::text;
use vstd::prelude::*;

verus! {

/// A map whose keys are texts, kept in increasing order, each at most once.
pub struct SortedMap<V> {
    entries: Vec<(Vec<char>, V)>,
}

/// The keys of a list of entries.
spec fn keys_of<V>(entries: Seq<(Vec<char>, V)>) -> Seq<Seq<char>> {
    entries.map_values(|e: (Vec<char>, V)| e.0@)
}

/// What a list of entries maps each of its keys to.
spec fn map_of<V: View>(entries: Seq<(Vec<char>, V)>) -> Map<Seq<char>, V::V> {
    Map::new(
        |k: Seq<char>| keys_of(entries).contains(k),
        |k: Seq<char>| entries[keys_of(entries).index_of(k)].1@,
    )
}

impl<V: View> View for SortedMap<V> {
    type V = Map<Seq<char>, V::V>;

    closed spec fn view(&self) -> Map<Seq<char>, V::V> {
        map_of(self.entries@)
    }
}

/// Where a key stands in an increasing list of entries, the map holds its value.
proof fn lemma_at<V: View>(entries: Seq<(Vec<char>, V)>, i: int)
    requires
        text::increasing(keys_of(entries)),
        0 <= i < entries.len(),
    ensures
        map_of(entries).contains_key(entries[i].0@),
        map_of(entries)[entries[i].0@] == entries[i].1@,
{
    let ks = keys_of(entries);
    assert(ks[i] == entries[i].0@);
    assert(ks.contains(ks[i]));
    let j = ks.index_of(ks[i]);
    if j < i {
        assert(text::lt(ks[j], ks[i]));
        text::lemma_lt_irreflexive(ks[i]);
    } else if i < j {
        assert(text::lt(ks[i], ks[j]));
        text::lemma_lt_irreflexive(ks[i]);
    }
}

/// The keys of an increasing list of entries are those of its map, in order.
proof fn lemma_order<V: View>(entries: Seq<(Vec<char>, V)>)
    requires
        text::increasing(keys_of(entries)),
    ensures
        text::in_order(map_of(entries).dom()) == keys_of(entries),
{
    text::lemma_in_order_is(keys_of(entries), map_of(entries).dom());
}

impl<V> SortedMap<V> {
    #[verifier::type_invariant]
    spec fn well_formed(&self) -> bool {
        text::increasing(keys_of(self.entries@))
    }
}

impl<V: View> SortedMap<V> {
    /// The keys in order.
    pub open spec fn order(&self) -> Seq<Seq<char>> {
        text::in_order(self@.dom())
    }

    /// An empty map.
    pub fn new() -> (r: Self)
        ensures
            r@ == Map::<Seq<char>, V::V>::empty(),
    {
        let r = SortedMap { entries: Vec::new() };
        proof {
            assert(r@ =~= Map::<Seq<char>, V::V>::empty());
        }
        r
    }

    /// The number of keys. The order holds each key of the map.
    pub fn len(&self) -> (r: usize)
        ensures
            r == self.order().len(),
            text::is_order(self.order(), self@.dom()),
    {
        proof {
            use_type_invariant(self);
            lemma_order(self.entries@);
        }
        self.entries.len()
    }

    /// The key at a place in the order.
    pub fn key_at(&self, i: usize) -> (r: &Vec<char>)
        requires
            i < self.order().len(),
        ensures
            r@ == self.order()[i as int],
    {
        proof {
            use_type_invariant(self);
            lemma_order(self.entries@);
        }
        &self.entries[i].0
    }

    /// The value of the key at a place in the order.
    pub fn value_at(&self, i: usize) -> (r: &V)
        requires
            i < self.order().len(),
        ensures
            self@.contains_key(self.order()[i as int]),
            r@ == self@[self.order()[i as int]],
    {
        proof {
            use_type_invariant(self);
            lemma_order(self.entries@);
            lemma_at(self.entries@, i as int);
        }
        &self.entries[i].1
    }

    /// The number of keys before `key`.
    fn rank(&self, key: &[char]) -> (r: usize)
        ensures
            r <= self.entries@.len(),
            forall|k: int|
                0 <= k < r ==> text::lt(#[trigger] keys_of(self.entries@)[k], key@),
            forall|k: int|
                r <= k < self.entries@.len() ==> !text::lt(
                    #[trigger] keys_of(self.entries@)[k],
                    key@,
                ),
    {
        proof {
            use_type_invariant(self);
        }
        let ghost ks = keys_of(self.entries@);
        let mut lo: usize = 0;
        let mut hi: usize = self.entries.len();
        while lo < hi
            invariant
                lo <= hi <= self.entries@.len(),
                ks == keys_of(self.entries@),
                text::increasing(ks),
                forall|k: int| 0 <= k < lo ==> text::lt(#[trigger] ks[k], key@),
                forall|k: int| hi <= k < self.entries@.len() ==> !text::lt(#[trigger] ks[k], key@),
            decreases hi - lo,
        {
            let mid: usize = lo + (hi - lo) / 2;
            if chars::lt(&self.entries[mid].0, key) {
                proof {
                    assert(ks[mid as int] == self.entries@[mid as int].0@);
                    assert forall|k: int| 0 <= k < mid + 1 implies text::lt(
                        #[trigger] ks[k],
                        key@,
                    ) by {
                        if k < mid {
                            text::lemma_lt_transitive(ks[k], ks[mid as int], key@);
                        }
                    }
                }
                lo = mid + 1;
            } else {
                proof {
                    assert(ks[mid as int] == self.entries@[mid as int].0@);
                    assert forall|k: int| mid <= k < self.entries@.len() implies !text::lt(
                        #[trigger] ks[k],
                        key@,
                    ) by {
                        if mid < k && text::lt(ks[k], key@) {
                            text::lemma_lt_transitive(ks[mid as int], ks[k], key@);
                        }
                    }
                }
                hi = mid;
            }
        }
        lo
    }

    /// The value of a key, where the map has it.
    pub fn get(&self, key: &[char]) -> (r: Option<&V>)
        ensures
            match r {
                Some(v) => self@.contains_key(key@) && v@ == self@[key@],
                None => !self@.contains_key(key@),
            },
    {
        let i: usize = self.rank(key);
        proof {
            use_type_invariant(self);
        }
        if i < self.entries.len() && chars::same(&self.entries[i].0, key) {
            proof {
                lemma_at(self.entries@, i as int);
            }
            Some(&self.entries[i].1)
        } else {
            proof {
                self.lemma_absent(key@, i as int);
            }
            None
        }
    }

    /// A key that is not at its rank is not in the map.
    proof fn lemma_absent(&self, key: Seq<char>, r: int)
        requires
            text::increasing(keys_of(self.entries@)),
            0 <= r <= self.entries@.len(),
            forall|k: int| 0 <= k < r ==> text::lt(#[trigger] keys_of(self.entries@)[k], key),
            r < self.entries@.len() ==> !text::lt(keys_of(self.entries@)[r], key),
            r < self.entries@.len() ==> self.entries@[r].0@ != key,
        ensures
            !self@.contains_key(key),
            forall|k: int|
                r <= k < self.entries@.len() ==> text::lt(key, #[trigger] keys_of(self.entries@)[k]),
    {
        let ks = keys_of(self.entries@);
        text::lemma_lt_irreflexive(key);
        assert forall|k: int| r <= k < self.entries@.len() implies text::lt(
            key,
            #[trigger] ks[k],
        ) by {
            text::lemma_lt_total(ks[r], key);
            assert(ks[r] == self.entries@[r].0@);
            if r < k {
                text::lemma_lt_transitive(key, ks[r], ks[k]);
            }
        }
    }

    /// Gives a key a value, in place of any that it had.
    pub fn insert(&mut self, key: Vec<char>, value: V)
        ensures
            final(self)@ == old(self)@.insert(key@, value@),
    {
        let i: usize = self.rank(&key);
        proof {
            use_type_invariant(&*self);
        }
        let ghost before = self.entries@;
        let found: bool = i < self.entries.len() && chars::same(&self.entries[i].0, &key);
        proof {
            if !found {
                self.lemma_absent(key@, i as int);
            }
        }
        let mut entries: Vec<(Vec<char>, V)> = Vec::new();
        std::mem::swap(&mut entries, &mut self.entries);
        if found {
            let _ = entries.remove(i);
        }
        let ghost rest = entries@;
        entries.insert(i, (key, value));
        proof {
            lemma_inserted(before, rest, found, i as int, key, value);
            assert(entries@ == rest.insert(i as int, (key, value)));
        }
        self.entries = entries;
    }

    /// Takes a key and its value out of the map.
    pub fn remove(&mut self, key: &[char]) -> (r: Option<V>)
        ensures
            final(self)@ == old(self)@.remove(key@),
            match r {
                Some(v) => old(self)@.contains_key(key@) && v@ == old(self)@[key@],
                None => !old(self)@.contains_key(key@),
            },
    {
        let i: usize = self.rank(key);
        proof {
            use_type_invariant(&*self);
        }
        let ghost before = self.entries@;
        if i < self.entries.len() && chars::same(&self.entries[i].0, key) {
            let mut entries: Vec<(Vec<char>, V)> = Vec::new();
            std::mem::swap(&mut entries, &mut self.entries);
            let (_, value) = entries.remove(i);
            proof {
                lemma_at(before, i as int);
                lemma_removed(before, i as int);
                assert(entries@ == before.remove(i as int));
            }
            self.entries = entries;
            Some(value)
        } else {
            proof {
                self.lemma_absent(key@, i as int);
                assert(self@ =~= self@.remove(key@));
            }
            None
        }
    }
}

impl<V: View> SortedMap<V> {
    /// The keys, in order, with their values.
    pub fn into_entries(self) -> (r: Vec<(Vec<char>, V)>)
        ensures
            r@.len() == self.order().len(),
            forall|i: int|
                0 <= i < r@.len() ==> {
                    &&& (#[trigger] r@[i]).0@ == self.order()[i]
                    &&& self@.contains_key(self.order()[i])
                    &&& r@[i].1@ == self@[self.order()[i]]
                },
    {
        proof {
            use_type_invariant(&self);
            lemma_order(self.entries@);
            assert forall|i: int| 0 <= i < self.entries@.len() implies {
                &&& (#[trigger] self.entries@[i]).0@ == self.order()[i]
                &&& self@.contains_key(self.order()[i])
                &&& self.entries@[i].1@ == self@[self.order()[i]]
            } by {
                lemma_at(self.entries@, i);
            }
        }
        self.entries
    }
}

/// Taking one entry out of an increasing list takes its key out of the map.
proof fn lemma_removed<V: View>(entries: Seq<(Vec<char>, V)>, i: int)
    requires
        text::increasing(keys_of(entries)),
        0 <= i < entries.len(),
    ensures
        text::increasing(keys_of(entries.remove(i))),
        map_of(entries.remove(i)) == map_of(entries).remove(entries[i].0@),
{
    let ks = keys_of(entries);
    let after = entries.remove(i);
    let ls = keys_of(after);
    assert(ls =~= ks.remove(i));
    let key = entries[i].0@;
    assert forall|k: Seq<char>| ls.contains(k) <==> ks.contains(k) && k != key by {
        if ls.contains(k) {
            let j = choose|j: int| 0 <= j < ls.len() && ls[j] == k;
            let m = if j < i {
                j
            } else {
                j + 1
            };
            assert(ks[m] == k);
            assert(ks[i] == key);
            text::lemma_lt_irreflexive(key);
            if m < i {
                assert(text::lt(ks[m], ks[i]));
            } else {
                assert(text::lt(ks[i], ks[m]));
            }
        }
        if ks.contains(k) && k != key {
            let j = choose|j: int| 0 <= j < ks.len() && ks[j] == k;
            let m = if j < i {
                j
            } else {
                j - 1
            };
            assert(ls[m] == k);
        }
    }
    assert forall|k: Seq<char>| ls.contains(k) implies map_of(after)[k] == map_of(entries)[k] by {
        let j = choose|j: int| 0 <= j < ls.len() && ls[j] == k;
        let m = if j < i {
            j
        } else {
            j + 1
        };
        lemma_at(after, j);
        lemma_at(entries, m);
        assert(ks[m] == k);
    }
    assert(map_of(after) =~= map_of(entries).remove(key));
}

/// Putting an entry at its place in an increasing list puts its key into the map.
proof fn lemma_inserted<V: View>(
    before: Seq<(Vec<char>, V)>,
    rest: Seq<(Vec<char>, V)>,
    found: bool,
    i: int,
    key: Vec<char>,
    value: V,
)
    requires
        text::increasing(keys_of(before)),
        0 <= i <= before.len(),
        forall|k: int| 0 <= k < i ==> text::lt(#[trigger] keys_of(before)[k], key@),
        found ==> i < before.len() && before[i].0@ == key@ && rest == before.remove(i),
        !found ==> rest == before && forall|k: int|
            i <= k < before.len() ==> text::lt(key@, #[trigger] keys_of(before)[k]),
    ensures
        text::increasing(keys_of(rest.insert(i, (key, value)))),
        map_of(rest.insert(i, (key, value))) == map_of(before).insert(key@, value@),
{
    let ks = keys_of(before);
    let rs = keys_of(rest);
    if found {
        lemma_removed(before, i);
        assert(rs =~= ks.remove(i));
        assert(ks[i] == key@);
    }
    assert forall|k: int| 0 <= k < i implies text::lt(#[trigger] rs[k], key@) by {
        assert(rs[k] == ks[k]);
    }
    assert forall|k: int| i <= k < rs.len() implies text::lt(key@, #[trigger] rs[k]) by {
        if found {
            assert(rs[k] == ks[k + 1]);
            assert(text::lt(ks[i], ks[k + 1]));
        } else {
            assert(rs[k] == ks[k]);
        }
    }
    let after = rest.insert(i, (key, value));
    let ls = keys_of(after);
    assert(ls =~= rs.insert(i, key@));
    assert(text::increasing(ls)) by {
        assert forall|a: int, b: int| 0 <= a < b < ls.len() implies text::lt(
            #[trigger] ls[a],
            #[trigger] ls[b],
        ) by {
            if a < i && b > i {
                assert(text::lt(rs[a], rs[b - 1]));
            } else if a < i && b < i {
                assert(text::lt(rs[a], rs[b]));
            } else if a > i {
                assert(text::lt(rs[a - 1], rs[b - 1]));
            }
        }
    }
    assert forall|k: Seq<char>| ls.contains(k) <==> rs.contains(k) || k == key@ by {
        if ls.contains(k) {
            let j = choose|j: int| 0 <= j < ls.len() && ls[j] == k;
            if j < i {
                assert(rs[j] == k);
            } else if j > i {
                assert(rs[j - 1] == k);
            }
        }
        if rs.contains(k) {
            let j = choose|j: int| 0 <= j < rs.len() && rs[j] == k;
            if j < i {
                assert(ls[j] == k);
            } else {
                assert(ls[j + 1] == k);
            }
        }
        assert(ls[i] == key@);
    }
    assert forall|k: Seq<char>| rs.contains(k) && k != key@ implies map_of(after)[k] == map_of(
        rest,
    )[k] by {
        let j = choose|j: int| 0 <= j < rs.len() && rs[j] == k;
        lemma_at(rest, j);
        if j < i {
            lemma_at(after, j);
            assert(after[j] == rest[j]);
        } else {
            lemma_at(after, j + 1);
            assert(after[j + 1] == rest[j]);
        }
    }
    lemma_at(after, i);
    assert(map_of(after) =~= map_of(rest).insert(key@, value@));
    if found {
        assert(map_of(before).remove(key@).insert(key@, value@) =~= map_of(before).insert(
            key@,
            value@,
        ));
    }
}

} // verus!
