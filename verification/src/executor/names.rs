//! Names, and finite maps.

use std::collections::HashMap;
use vstd::prelude::*;

verus! {

broadcast use vstd::std_specs::hash::group_hash_axioms;

/// A name that the symbol table knows by this number.
pub type Name = u32;

/// Values that can be copied out from behind a reference without any change.
pub trait Dup: Sized {
    fn dup(&self) -> (r: Self)
        ensures
            r == *self,
    ;
}

/// Values that tables can be keyed by.
pub trait Key: Dup {
    fn same(&self, other: &Self) -> (r: bool)
        ensures
            r == (*self == *other),
    ;
}

/// A finite map from names to values.
pub struct NameMap<V> {
    map: HashMap<Name, V>,
}

impl<V> View for NameMap<V> {
    type V = Map<Name, V>;

    closed spec fn view(&self) -> Map<Name, V> {
        self.map@
    }
}

impl<V> NameMap<V> {
    pub fn new() -> (r: Self)
        ensures
            r@ == Map::<Name, V>::empty(),
    {
        NameMap { map: HashMap::new() }
    }

    pub fn get(&self, name: Name) -> (r: Option<&V>)
        ensures
            match r {
                Some(v) => self@.dom().contains(name) && self@[name] == *v,
                None => !self@.dom().contains(name),
            },
    {
        self.map.get(&name)
    }

    pub fn contains_key(&self, name: Name) -> (r: bool)
        ensures
            r == self@.dom().contains(name),
    {
        self.map.contains_key(&name)
    }

    pub fn insert(&mut self, name: Name, v: V)
        ensures
            final(self)@ == old(self)@.insert(name, v),
    {
        self.map.insert(name, v);
    }
}

impl<V: Dup> NameMap<V> {
    /// Inserts every entry of another map.
    pub fn extend(&mut self, other: &Self)
        ensures
            final(self)@ == old(self)@.union_prefer_right(other@),
    {
        let ghost before = self@;
        for entry in it: other.map.iter()
            invariant
                it.seq() == vstd::std_specs::iter::IteratorSpec::remaining(
                    &vstd::std_specs::hash::spec_hash_map_iter(&other.map),
                ),
                forall|j: int|
                    0 <= j < it.index() ==> self@.contains_key(*(#[trigger] it.seq()[j]).0)
                        && self@[*it.seq()[j].0] == *it.seq()[j].1,
                forall|k: Name| #[trigger]
                    self@.contains_key(k) ==> before.contains_key(k) || other@.contains_key(k),
                forall|k: Name| #[trigger] before.contains_key(k) ==> self@.contains_key(k),
                forall|k: Name| #[trigger]
                    before.contains_key(k) && !other@.contains_key(k) ==> self@[k] == before[k],
        {
            let (name, v) = entry;
            assert(other.map@.contains_key(*it.seq()[it.index()].0));
            assert(*it.seq()[it.index()].0 == *name);
            let ghost so_far = self@;
            self.map.insert(*name, v.dup());
            assert forall|k: Name| #[trigger] self@.contains_key(k) implies before.contains_key(k)
                || other@.contains_key(k) by {
                if k != *name {
                    assert(so_far.contains_key(k));
                }
            }
        }
        assert(self@ =~= before.union_prefer_right(other@));
    }

    /// A copy of the whole map.
    pub fn copy(&self) -> (r: Self)
        ensures
            r@ == self@,
    {
        let mut r = NameMap::new();
        r.extend(self);
        assert(Map::<Name, V>::empty().union_prefer_right(self@) =~= self@);
        r
    }
}

/// A finite map whose entries have an order.
pub struct Table<K, V> {
    entries: Vec<(K, V)>,
}

/// The map that a sequence of entries stands for. The first entry for a name
/// counts.
spec fn of_entries<K, V>(entries: Seq<(K, V)>) -> Map<K, V>
    decreases entries.len(),
{
    if entries.len() == 0 {
        Map::empty()
    } else {
        of_entries(entries.drop_first()).insert(entries[0].0, entries[0].1)
    }
}

/// The position of the first entry for a name decides what the map holds.
proof fn lemma_found<K, V>(entries: Seq<(K, V)>, i: int)
    requires
        0 <= i < entries.len(),
        forall|j: int| 0 <= j < i ==> (#[trigger] entries[j]).0 != entries[i].0,
    ensures
        of_entries(entries).dom().contains(entries[i].0),
        of_entries(entries)[entries[i].0] == entries[i].1,
    decreases entries.len(),
{
    if i > 0 {
        let rest = entries.drop_first();
        assert(entries[0].0 != entries[i].0);
        assert forall|j: int| 0 <= j < i - 1 implies (#[trigger] rest[j]).0 != rest[i - 1].0 by {
            assert(entries[j + 1].0 != entries[i].0);
        }
        lemma_found(rest, i - 1);
    }
}

/// A name that no entry has is not in the map.
proof fn lemma_not_found<K, V>(entries: Seq<(K, V)>, k: K)
    requires
        forall|j: int| 0 <= j < entries.len() ==> (#[trigger] entries[j]).0 != k,
    ensures
        !of_entries(entries).dom().contains(k),
    decreases entries.len(),
{
    if entries.len() > 0 {
        let rest = entries.drop_first();
        assert(entries[0].0 != k);
        assert forall|j: int| 0 <= j < rest.len() implies (#[trigger] rest[j]).0 != k by {
            assert(entries[j + 1].0 != k);
        }
        lemma_not_found(rest, k);
    }
}

/// The names in the map are those of the entries.
proof fn lemma_domain<K, V>(entries: Seq<(K, V)>, k: K)
    ensures
        of_entries(entries).dom().contains(k) <==> exists|j: int|
            0 <= j < entries.len() && (#[trigger] entries[j]).0 == k,
    decreases entries.len(),
{
    if entries.len() > 0 {
        let rest = entries.drop_first();
        lemma_domain(rest, k);
        if exists|j: int| 0 <= j < rest.len() && (#[trigger] rest[j]).0 == k {
            let j = choose|j: int| 0 <= j < rest.len() && (#[trigger] rest[j]).0 == k;
            assert(entries[j + 1].0 == k);
        }
        if exists|j: int| 0 <= j < entries.len() && (#[trigger] entries[j]).0 == k {
            let j = choose|j: int| 0 <= j < entries.len() && (#[trigger] entries[j]).0 == k;
            if j > 0 {
                assert(rest[j - 1].0 == k);
            }
        }
    }
}

/// Replacing the value of the first entry for a name, or adding an entry at
/// the end for a name that has none, inserts into the map.
proof fn lemma_update<K, V>(before: Seq<(K, V)>, after: Seq<(K, V)>, i: int, k: K, v: V)
    requires
        0 <= i <= before.len(),
        forall|j: int| 0 <= j < i ==> (#[trigger] before[j]).0 != k,
        i < before.len() ==> before[i].0 == k && after == before.update(i, (k, v)),
        i == before.len() ==> after == before.push((k, v)),
    ensures
        of_entries(after) == of_entries(before).insert(k, v),
    decreases before.len(),
{
    if before.len() == 0 {
        assert(after.drop_first() =~= before);
        assert(of_entries(after) =~= of_entries(before).insert(k, v));
    } else if i == 0 {
        assert(after.drop_first() =~= before.drop_first());
        assert(of_entries(after) =~= of_entries(before).insert(k, v));
    } else {
        let rest = before.drop_first();
        assert(before[0].0 != k);
        assert forall|j: int| 0 <= j < i - 1 implies (#[trigger] rest[j]).0 != k by {
            assert(before[j + 1].0 != k);
        }
        assert(i < before.len() ==> after.drop_first() =~= rest.update(i - 1, (k, v)));
        assert(i == before.len() ==> after.drop_first() =~= rest.push((k, v)));
        lemma_update(rest, after.drop_first(), i - 1, k, v);
        assert(of_entries(after) =~= of_entries(before).insert(k, v));
    }
}

impl<K, V> View for Table<K, V> {
    type V = Map<K, V>;

    closed spec fn view(&self) -> Map<K, V> {
        of_entries(self.entries@)
    }
}

impl<K, V> Table<K, V> {
    /// The order in which the keys are kept.
    pub closed spec fn order(&self) -> Seq<K> {
        Seq::new(self.entries@.len(), |i: int| self.entries@[i].0)
    }
}

impl<K: Key, V> Table<K, V> {
    pub fn new() -> (r: Self)
        ensures
            r@ == Map::<K, V>::empty(),
    {
        Table { entries: Vec::new() }
    }

    /// The position of the first entry for a name, or the number of entries.
    fn find(&self, k: &K) -> (i: usize)
        ensures
            i <= self.entries@.len(),
            forall|j: int| 0 <= j < i ==> (#[trigger] self.entries@[j]).0 != *k,
            i < self.entries@.len() ==> self.entries@[i as int].0 == *k,
    {
        let mut i: usize = 0;
        while i < self.entries.len()
            invariant
                i <= self.entries@.len(),
                forall|j: int| 0 <= j < i ==> (#[trigger] self.entries@[j]).0 != *k,
            decreases self.entries@.len() - i,
        {
            if self.entries[i].0.same(k) {
                return i;
            }
            i = i + 1;
        }
        i
    }

    pub fn get(&self, k: K) -> (r: Option<&V>)
        ensures
            match r {
                Some(v) => self@.dom().contains(k) && self@[k] == *v,
                None => !self@.dom().contains(k),
            },
    {
        let i = self.find(&k);
        if i < self.entries.len() {
            proof {
                lemma_found(self.entries@, i as int);
            }
            Some(&self.entries[i].1)
        } else {
            proof {
                lemma_not_found(self.entries@, k);
            }
            None
        }
    }

    pub fn contains_key(&self, k: K) -> (r: bool)
        ensures
            r == self@.dom().contains(k),
    {
        self.get(k).is_some()
    }

    /// The keys that the map holds something for, in the order in which they
    /// are kept.
    pub fn keys(&self) -> (r: Vec<K>)
        ensures
            r@ == self.order(),
            forall|k: K| #[trigger] r@.contains(k) <==> self@.dom().contains(k),
    {
        let mut keys: Vec<K> = Vec::new();
        let mut i: usize = 0;
        while i < self.entries.len()
            invariant
                i <= self.entries@.len(),
                keys@.len() == i,
                forall|j: int| 0 <= j < i ==> #[trigger] keys@[j] == self.entries@[j].0,
            decreases self.entries@.len() - i,
        {
            keys.push(self.entries[i].0.dup());
            i = i + 1;
        }
        assert forall|k: K| #[trigger] keys@.contains(k) <==> self@.dom().contains(k) by {
            lemma_domain(self.entries@, k);
            if keys@.contains(k) {
                let j = choose|j: int| 0 <= j < keys@.len() && keys@[j] == k;
                assert(self.entries@[j].0 == k);
            }
            if self@.dom().contains(k) {
                let j = choose|j: int|
                    0 <= j < self.entries@.len() && (#[trigger] self.entries@[j]).0 == k;
                assert(keys@[j] == k);
            }
        }
        assert(keys@ =~= self.order());
        keys
    }

    pub fn insert(&mut self, k: K, v: V)
        ensures
            final(self)@ == old(self)@.insert(k, v),
    {
        let i = self.find(&k);
        let ghost before = self.entries@;
        if i < self.entries.len() {
            self.entries.set(i, (k, v));
        } else {
            self.entries.push((k, v));
        }
        proof {
            lemma_update(before, self.entries@, i as int, k, v);
        }
    }
}

/// An earlier entry counts for more than a later one.
proof fn lemma_prepend<K, V>(entries: Seq<(K, V)>, i: int, m: Map<K, V>)
    requires
        0 <= i < entries.len(),
    ensures
        m.union_prefer_right(of_entries(entries.skip(i + 1))).insert(entries[i].0, entries[i].1)
            == m.union_prefer_right(of_entries(entries.skip(i))),
{
    assert(entries.skip(i).drop_first() =~= entries.skip(i + 1));
    assert(m.union_prefer_right(of_entries(entries.skip(i + 1))).insert(
        entries[i].0,
        entries[i].1,
    ) =~= m.union_prefer_right(of_entries(entries.skip(i))));
}

impl<K: Key, V: Dup> Table<K, V> {
    /// Inserts every entry of another map.
    pub fn extend(&mut self, other: &Self)
        ensures
            final(self)@ == old(self)@.union_prefer_right(other@),
    {
        let ghost m = self@;
        let n = other.entries.len();
        let mut i: usize = n;
        assert(other.entries@.skip(n as int) =~= seq![]);
        assert(m.union_prefer_right(of_entries(Seq::<(K, V)>::empty())) =~= m);
        while i > 0
            invariant
                n == other.entries@.len(),
                i <= n,
                self@ == m.union_prefer_right(of_entries(other.entries@.skip(i as int))),
            decreases i,
        {
            i = i - 1;
            let entry = &other.entries[i];
            self.insert(entry.0.dup(), entry.1.dup());
            proof {
                lemma_prepend(other.entries@, i as int, m);
            }
        }
        assert(other.entries@.skip(0) =~= other.entries@);
    }

    /// A copy of the whole map.
    pub fn copy(&self) -> (r: Self)
        ensures
            r@ == self@,
    {
        let mut r = Table::new();
        r.extend(self);
        assert(Map::<K, V>::empty().union_prefer_right(self@) =~= self@);
        r
    }
}

} // verus!
