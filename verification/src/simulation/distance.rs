use vstd::prelude::*;

use crate::buildings::EntryPoint;

verus! {

/// A directed pair of buildings: from `start` to `finish`.
#[derive(Debug, Clone, Copy, PartialEq, Eq, Hash, Structural)]
pub struct DistanceKey {
    pub start_building_id: u32,
    pub finish_building_id: u32,
}

impl DistanceKey {
    pub fn new(start_building_id: u32, finish_building_id: u32) -> (r: DistanceKey)
        ensures
            r == (DistanceKey { start_building_id, finish_building_id }),
    {
        DistanceKey { start_building_id, finish_building_id }
    }
}

/// The walking distance between the entries of two buildings, if any.
#[derive(Debug, Clone, Copy, PartialEq, Eq, Structural)]
pub struct BuildingDistance {
    pub key: DistanceKey,
    pub start_entry: Option<EntryPoint>,
    pub finish_entry: Option<EntryPoint>,
    pub distance_cells: Option<u32>,
}

impl BuildingDistance {
    pub fn reachable(&self) -> (r: bool)
        ensures
            r == self.distance_cells is Some,
    {
        self.distance_cells.is_some()
    }
}

/// The first entry with key `k`.
pub open spec fn lookup_in(s: Seq<BuildingDistance>, k: DistanceKey) -> Option<BuildingDistance>
    decreases s.len(),
{
    if s.len() == 0 {
        None
    } else if s[0].key == k {
        Some(s[0])
    } else {
        lookup_in(s.drop_first(), k)
    }
}

/// Looking a key up after appending an entry.
pub proof fn lemma_lookup_push(s: Seq<BuildingDistance>, v: BuildingDistance, k: DistanceKey)
    ensures
        lookup_in(s.push(v), k) == (if lookup_in(s, k) is Some {
            lookup_in(s, k)
        } else if v.key == k {
            Some(v)
        } else {
            None
        }),
    decreases s.len(),
{
    if s.len() > 0 {
        assert(s.push(v)[0] == s[0]);
        assert(s.push(v).drop_first() =~= s.drop_first().push(v));
        lemma_lookup_push(s.drop_first(), v, k);
    } else {
        assert(s.push(v)[0] == v);
        assert(s.push(v).drop_first() =~= Seq::<BuildingDistance>::empty());
        assert(lookup_in(Seq::<BuildingDistance>::empty(), k) is None);
    }
}

/// A found entry carries the key it was found under and is in the list.
pub proof fn lemma_lookup_found(s: Seq<BuildingDistance>, k: DistanceKey)
    ensures
        lookup_in(s, k) is Some ==> lookup_in(s, k).unwrap().key == k && s.contains(lookup_in(s, k).unwrap()),
        lookup_in(s, k) is None <==> forall|i: int| 0 <= i < s.len() ==> (#[trigger] s[i]).key != k,
    decreases s.len(),
{
    if s.len() > 0 {
        lemma_lookup_found(s.drop_first(), k);
        if s[0].key != k {
            if lookup_in(s, k) is Some {
                let v = lookup_in(s, k).unwrap();
                let i = choose|i: int| 0 <= i < s.drop_first().len() && s.drop_first()[i] == v;
                assert(s[i + 1] == v);
            }
            assert forall|i: int| 0 <= i < s.len() && (#[trigger] s[i]).key == k implies lookup_in(s.drop_first(), k) is Some by {
                if i > 0 {
                    assert(s.drop_first()[i - 1] == s[i]);
                }
            }
        } else {
            assert(s[0] == s[0]);
        }
    }
}

/// Looking a key up after overwriting the entry at the first position that
/// holds the same key.
pub proof fn lemma_lookup_update(s: Seq<BuildingDistance>, i: int, v: BuildingDistance, k: DistanceKey)
    requires
        0 <= i < s.len(),
        s[i].key == v.key,
        forall|j: int| 0 <= j < i ==> (#[trigger] s[j]).key != v.key,
    ensures
        lookup_in(s.update(i, v), k) == (if k == v.key {
            Some(v)
        } else {
            lookup_in(s, k)
        }),
    decreases s.len(),
{
    let u = s.update(i, v);
    assert(u[0] == if i == 0 { v } else { s[0] });
    if i > 0 {
        assert(u.drop_first() =~= s.drop_first().update(i - 1, v));
        assert forall|j: int| 0 <= j < i - 1 implies (#[trigger] s.drop_first()[j]).key != v.key by {
            assert(s.drop_first()[j] == s[j + 1]);
        }
        lemma_lookup_update(s.drop_first(), i - 1, v, k);
        assert(s[0].key != v.key);
    } else {
        assert(u.drop_first() =~= s.drop_first());
    }
}

/// Directed building-to-building distances, keyed by their building pair.
#[derive(Debug, Clone)]
pub struct DistanceTable {
    entries: Vec<BuildingDistance>,
}

impl View for DistanceTable {
    type V = Map<DistanceKey, BuildingDistance>;

    open spec fn view(&self) -> Map<DistanceKey, BuildingDistance> {
        Map::new(|k: DistanceKey| self.lookup(k) is Some, |k: DistanceKey| self.lookup(k)->0)
    }
}

impl DistanceTable {
    pub closed spec fn entries_spec(&self) -> Seq<BuildingDistance> {
        self.entries@
    }

    /// The distance recorded for `k`.
    pub open spec fn lookup(&self, k: DistanceKey) -> Option<BuildingDistance> {
        lookup_in(self.entries_spec(), k)
    }

    /// No key is recorded twice, so the entry count is the key count.
    pub open spec fn keys_distinct(&self) -> bool {
        forall|i: int, j: int|
            0 <= i < j < self.entries_spec().len() ==> (#[trigger] self.entries_spec()[i]).key != (#[trigger] self.entries_spec()[j]).key
    }

    /// Every recorded value is stored under its own key.
    pub proof fn lemma_values_keyed(&self, k: DistanceKey)
        ensures
            self@.contains_key(k) ==> self@[k].key == k,
            self@.contains_key(k) <==> exists|i: int| 0 <= i < self.entries_spec().len() && (#[trigger] self.entries_spec()[i]).key == k,
    {
        lemma_lookup_found(self.entries_spec(), k);
        if !self@.contains_key(k) {
            assert(lookup_in(self.entries_spec(), k) is None);
        }
    }

    pub fn new() -> (r: DistanceTable)
        ensures
            r@ == Map::<DistanceKey, BuildingDistance>::empty(),
            r.entries_spec().len() == 0,
            r.keys_distinct(),
    {
        let r = DistanceTable { entries: Vec::new() };
        assert(r@ =~= Map::<DistanceKey, BuildingDistance>::empty());
        r
    }

    /// Number of recorded entries.
    pub fn len(&self) -> (r: usize)
        ensures
            r == self.entries_spec().len(),
    {
        self.entries.len()
    }

    pub fn is_empty(&self) -> (r: bool)
        ensures
            r == (self.entries_spec().len() == 0),
            r <==> self@ == Map::<DistanceKey, BuildingDistance>::empty(),
    {
        proof {
            if self.entries@.len() == 0 {
                assert(self@ =~= Map::<DistanceKey, BuildingDistance>::empty());
            } else {
                let k = self.entries@[0].key;
                assert(lookup_in(self.entries@, k) == Some(self.entries@[0]));
                assert(self@.contains_key(k));
            }
        }
        self.entries.len() == 0
    }

    /// Position of the first entry with `key`.
    fn position(&self, key: &DistanceKey) -> (r: Option<usize>)
        ensures
            match r {
                Some(i) => i < self.entries@.len() && self.entries@[i as int].key == *key && forall|j: int|
                    0 <= j < i ==> (#[trigger] self.entries@[j]).key != *key,
                None => forall|j: int| 0 <= j < self.entries@.len() ==> (#[trigger] self.entries@[j]).key != *key,
            },
    {
        let mut i: usize = 0;
        while i < self.entries.len()
            invariant
                i <= self.entries@.len(),
                forall|j: int| 0 <= j < i ==> (#[trigger] self.entries@[j]).key != *key,
            decreases self.entries@.len() - i,
        {
            if self.entries[i].key == *key {
                return Some(i);
            }
            i = i + 1;
        }
        None
    }

    pub fn get(&self, key: &DistanceKey) -> (r: Option<&BuildingDistance>)
        ensures
            r == (if self@.contains_key(*key) {
                Some(&self@[*key])
            } else {
                None::<&BuildingDistance>
            }),
    {
        let ghost s = self.entries@;
        proof {
            lemma_lookup_found(s, *key);
        }
        match self.position(key) {
            Some(i) => {
                proof {
                    assert(s.subrange(0, i as int).len() == i);
                    lemma_lookup_first(s, *key, i as int);
                }
                Some(&self.entries[i])
            },
            None => None,
        }
    }

    pub fn contains_key(&self, key: &DistanceKey) -> (r: bool)
        ensures
            r == self@.contains_key(*key),
    {
        self.get(key).is_some()
    }

    pub fn clear(&mut self)
        ensures
            final(self)@ == Map::<DistanceKey, BuildingDistance>::empty(),
            final(self).entries_spec().len() == 0,
            final(self).keys_distinct(),
    {
        self.entries.clear();
        assert(self@ =~= Map::<DistanceKey, BuildingDistance>::empty());
    }

    /// Records `value` under its key, replacing an earlier value.
    pub fn insert(&mut self, value: BuildingDistance)
        ensures
            final(self)@ == old(self)@.insert(value.key, value),
            old(self).keys_distinct() ==> final(self).keys_distinct(),
            final(self).entries_spec().len() == old(self).entries_spec().len() + (if old(self)@.contains_key(value.key) {
                0int
            } else {
                1int
            }),
    {
        let ghost before = self.entries@;
        proof {
            lemma_lookup_found(before, value.key);
        }
        match self.position(&value.key) {
            Some(i) => {
                self.entries.set(i, value);
                proof {
                    assert forall|k: DistanceKey| #[trigger] lookup_in(self.entries@, k) == (if k == value.key {
                        Some(value)
                    } else {
                        lookup_in(before, k)
                    }) by {
                        lemma_lookup_update(before, i as int, value, k);
                    }
                    assert(self@ =~= old(self)@.insert(value.key, value));
                }
            },
            None => {
                self.entries.push(value);
                proof {
                    assert forall|k: DistanceKey| #[trigger] lookup_in(self.entries@, k) == (if k == value.key {
                        Some(value)
                    } else {
                        lookup_in(before, k)
                    }) by {
                        lemma_lookup_push(before, value, k);
                    }
                    assert(self@ =~= old(self)@.insert(value.key, value));
                }
            },
        }
    }

    /// Every recorded value, in recording order.
    pub fn values(&self) -> (r: Vec<BuildingDistance>)
        ensures
            r@ == self.entries_spec(),
    {
        let mut r: Vec<BuildingDistance> = Vec::new();
        let mut i: usize = 0;
        while i < self.entries.len()
            invariant
                i <= self.entries@.len(),
                r@ =~= self.entries@.subrange(0, i as int),
            decreases self.entries@.len() - i,
        {
            r.push(self.entries[i]);
            i = i + 1;
        }
        assert(self.entries@.subrange(0, i as int) =~= self.entries@);
        r
    }
}

/// The first entry with a key is the one looked up.
pub proof fn lemma_lookup_first(s: Seq<BuildingDistance>, k: DistanceKey, i: int)
    requires
        0 <= i < s.len(),
        s[i].key == k,
        forall|j: int| 0 <= j < i ==> (#[trigger] s[j]).key != k,
    ensures
        lookup_in(s, k) == Some(s[i]),
    decreases s.len(),
{
    if i > 0 {
        assert forall|j: int| 0 <= j < i - 1 implies (#[trigger] s.drop_first()[j]).key != k by {
            assert(s.drop_first()[j] == s[j + 1]);
        }
        lemma_lookup_first(s.drop_first(), k, i - 1);
        assert(s[0].key != k);
    }
}

} // verus!
