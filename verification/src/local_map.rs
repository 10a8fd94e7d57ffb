//! Components for managing request-local data: a typed map keyed by
//! per-key identifiers.
//!
//! Because entries borrow nothing, an [`Entry`] owns the map while it is
//! open and hands it back when it is consumed.

use vstd::prelude::*;

verus! {

/// A key for request-local data stored in a `LocalMap`.  Two keys with
/// one identifier address the same slot; the type parameter ties the
/// key to the type of the value stored under it.
#[derive(Debug)]
pub struct LocalKey<T> {
    pub id: u64,
    pub marker: core::marker::PhantomData<T>,
}

impl<T> LocalKey<T> {
    /// A key with the given identifier.
    pub fn new(id: u64) -> (r: Self)
        ensures
            r.id == id,
    {
        LocalKey { id, marker: core::marker::PhantomData }
    }

    /// The identifier of the slot this key addresses.
    pub fn type_id(&self) -> (r: u64)
        ensures
            r == self.id,
    {
        self.id
    }
}

/// The mathematical content of a map: later entries of the list win.
pub open spec fn map_of<T>(entries: Seq<(u64, T)>) -> Map<u64, T>
    decreases entries.len(),
{
    if entries.len() == 0 {
        Map::<u64, T>::empty()
    } else {
        map_of(entries.drop_last()).insert(entries.last().0, entries.last().1)
    }
}

/// A typed map storing request-local data.
#[derive(Debug)]
pub struct LocalMap<T> {
    pub entries: Vec<(u64, T)>,
}

impl<T> LocalMap<T> {
    /// The map's content.
    pub open spec fn view_map(&self) -> Map<u64, T> {
        map_of(self.entries@)
    }

    /// No key is stored twice.
    pub open spec fn wf(&self) -> bool {
        forall|i: int, j: int|
            0 <= i < j < self.entries@.len() ==> (#[trigger] self.entries@[i]).0 != (
            #[trigger] self.entries@[j]).0
    }

    /// An empty map.
    pub fn new() -> (r: Self)
        ensures
            r.wf(),
            r.view_map() == Map::<u64, T>::empty(),
    {
        LocalMap { entries: Vec::new() }
    }

    fn position(&self, id: u64) -> (r: Option<usize>)
        requires
            self.wf(),
        ensures
            match r {
                Option::Some(i) => i < self.entries@.len() && self.entries@[i as int].0
                    == id,
                Option::None => !self.view_map().dom().contains(id) && forall|j: int|
                    0 <= j < self.entries@.len() ==> (#[trigger] self.entries@[j]).0 != id,
            },
    {
        let mut i: usize = 0;
        while i < self.entries.len()
            invariant
                i <= self.entries@.len(),
                forall|j: int| 0 <= j < i ==> (#[trigger] self.entries@[j]).0 != id,
            decreases self.entries@.len() - i,
        {
            if self.entries[i].0 == id {
                return Some(i);
            }
            i += 1;
        }
        proof {
            lemma_map_of_misses(self.entries@, id);
        }
        None
    }

    /// Returns a shared reference to the value stored under the key.
    pub fn get(&self, key: &LocalKey<T>) -> (r: Option<&T>)
        requires
            self.wf(),
        ensures
            match r {
                Option::Some(v) => self.view_map().dom().contains(key.id)
                    && self.view_map()[key.id] == *v,
                Option::None => !self.view_map().dom().contains(key.id),
            },
    {
        match self.position(key.id) {
            Some(i) => {
                proof {
                    lemma_map_of_hit(self.entries@, i as int);
                }
                Some(&self.entries[i].1)
            },
            None => None,
        }
    }

    /// Returns `true` if the map contains a value for the key.
    pub fn contains_key(&self, key: &LocalKey<T>) -> (r: bool)
        requires
            self.wf(),
        ensures
            r == self.view_map().dom().contains(key.id),
    {
        match self.position(key.id) {
            Some(i) => {
                proof {
                    lemma_map_of_hit(self.entries@, i as int);
                }
                true
            },
            None => false,
        }
    }

    /// Stores a value under the key, returning the value it replaces.
    pub fn insert(&mut self, key: &LocalKey<T>, value: T) -> (r: Option<T>)
        requires
            old(self).wf(),
        ensures
            final(self).wf(),
            final(self).view_map() == old(self).view_map().insert(key.id, value),
            match r {
                Option::Some(v) => old(self).view_map().dom().contains(key.id) && old(
                    self,
                ).view_map()[key.id] == v,
                Option::None => !old(self).view_map().dom().contains(key.id),
            },
    {
        match self.position(key.id) {
            Some(i) => {
                proof {
                    lemma_map_of_hit(self.entries@, i as int);
                }
                let old_pair = self.entries.remove(i);
                self.entries.push((key.id, value));
                proof {
                    lemma_map_of_remove(old(self).entries@, i as int);
                    let shrunk = old(self).entries@.remove(i as int);
                    assert(self.entries@ =~= shrunk.push((key.id, value)));
                    assert(self.entries@.drop_last() =~= shrunk);
                    assert forall|j: int| 0 <= j < shrunk.len() implies (
                    #[trigger] shrunk[j]).0 != key.id by {
                        if j < i {
                            assert(shrunk[j] == old(self).entries@[j]);
                        } else {
                            assert(shrunk[j] == old(self).entries@[j + 1]);
                        }
                    }
                    assert forall|p: int, q: int|
                        0 <= p < q < self.entries@.len() implies (
                    #[trigger] self.entries@[p]).0 != (#[trigger] self.entries@[q]).0 by {
                        if q < self.entries@.len() - 1 {
                            let p0: int = if p < i { p } else { p + 1 };
                            let q0: int = if q < i { q } else { q + 1 };
                            assert(self.entries@[p] == old(self).entries@[p0]);
                            assert(self.entries@[q] == old(self).entries@[q0]);
                        }
                    }
                    assert(final(self).view_map() =~= old(self).view_map().insert(
                        key.id,
                        value,
                    ));
                }
                Some(old_pair.1)
            },
            None => {
                self.entries.push((key.id, value));
                proof {
                    assert(self.entries@.drop_last() =~= old(self).entries@);
                    lemma_map_of_misses(old(self).entries@, key.id);
                    assert forall|p: int, q: int|
                        0 <= p < q < self.entries@.len() implies (
                    #[trigger] self.entries@[p]).0 != (#[trigger] self.entries@[q]).0 by {
                        if q == self.entries@.len() - 1 {
                            assert(self.entries@[p] == old(self).entries@[p]);
                        }
                    }
                }
                None
            },
        }
    }

    /// Removes the value stored under the key and returns it.
    pub fn remove(&mut self, key: &LocalKey<T>) -> (r: Option<T>)
        requires
            old(self).wf(),
        ensures
            final(self).wf(),
            final(self).view_map() == old(self).view_map().remove(key.id),
            match r {
                Option::Some(v) => old(self).view_map().dom().contains(key.id) && old(
                    self,
                ).view_map()[key.id] == v,
                Option::None => !old(self).view_map().dom().contains(key.id),
            },
    {
        match self.position(key.id) {
            Some(i) => {
                proof {
                    lemma_map_of_hit(self.entries@, i as int);
                    lemma_map_of_remove(self.entries@, i as int);
                }
                let pair = self.entries.remove(i);
                proof {
                    assert(final(self).view_map() =~= old(self).view_map().remove(key.id));
                }
                Some(pair.1)
            },
            None => {
                proof {
                    assert(final(self).view_map() =~= old(self).view_map().remove(key.id));
                }
                None
            },
        }
    }

    /// Opens the slot under the key for in-place manipulation.  The
    /// entry owns the map and hands it back when consumed.
    pub fn entry(self, key: &LocalKey<T>) -> (r: Entry<T>)
        requires
            self.wf(),
        ensures
            match r {
                Entry::Occupied(e) => self.view_map().dom().contains(key.id) && e.map
                    == self && e.key == key.id && e.wf(),
                Entry::Vacant(e) => !self.view_map().dom().contains(key.id) && e.map
                    == self && e.key == key.id && e.wf(),
            },
    {
        match self.position(key.id) {
            Some(i) => {
                proof {
                    lemma_map_of_hit(self.entries@, i as int);
                }
                Entry::Occupied(OccupiedEntry { map: self, key: key.id, at: i })
            },
            None => Entry::Vacant(VacantEntry { map: self, key: key.id }),
        }
    }
}

/// The last entry of the list decides the key's value.
proof fn lemma_map_of_hit<T>(entries: Seq<(u64, T)>, i: int)
    requires
        0 <= i < entries.len(),
        forall|p: int, q: int|
            0 <= p < q < entries.len() ==> (#[trigger] entries[p]).0 != (
            #[trigger] entries[q]).0,
    ensures
        map_of(entries).dom().contains(entries[i].0),
        map_of(entries)[entries[i].0] == entries[i].1,
    decreases entries.len(),
{
    if i < entries.len() - 1 {
        lemma_map_of_hit(entries.drop_last(), i);
    }
}

/// A key listed nowhere is not in the map.
proof fn lemma_map_of_misses<T>(entries: Seq<(u64, T)>, id: u64)
    requires
        forall|j: int| 0 <= j < entries.len() ==> (#[trigger] entries[j]).0 != id,
    ensures
        !map_of(entries).dom().contains(id),
    decreases entries.len(),
{
    if entries.len() > 0 {
        lemma_map_of_misses(entries.drop_last(), id);
    }
}

/// Dropping position `i` removes exactly its key.
proof fn lemma_map_of_remove<T>(entries: Seq<(u64, T)>, i: int)
    requires
        0 <= i < entries.len(),
        forall|p: int, q: int|
            0 <= p < q < entries.len() ==> (#[trigger] entries[p]).0 != (
            #[trigger] entries[q]).0,
    ensures
        map_of(entries.remove(i)) == map_of(entries).remove(entries[i].0),
    decreases entries.len(),
{
    if i == entries.len() - 1 {
        assert(entries.remove(i) =~= entries.drop_last());
        lemma_map_of_misses(entries.drop_last(), entries[i].0);
        assert(map_of(entries.drop_last()) =~= map_of(entries).remove(entries[i].0));
    } else {
        lemma_map_of_remove(entries.drop_last(), i);
        assert(entries.remove(i).drop_last() =~= entries.drop_last().remove(i));
        assert(entries.remove(i).last() == entries.last());
        assert(map_of(entries.remove(i)) =~= map_of(entries).remove(entries[i].0));
    }
}

/// A view into a single slot of a `LocalMap`.
#[derive(Debug)]
pub enum Entry<T> {
    /// An occupied slot.
    Occupied(OccupiedEntry<T>),
    /// A vacant slot.
    Vacant(VacantEntry<T>),
}

/// An occupied slot: the map, the key and where the key sits.
#[derive(Debug)]
pub struct OccupiedEntry<T> {
    pub map: LocalMap<T>,
    pub key: u64,
    pub at: usize,
}

impl<T> OccupiedEntry<T> {
    pub open spec fn wf(&self) -> bool {
        &&& self.map.wf()
        &&& (self.at as int) < self.map.entries@.len()
        &&& self.map.entries@[self.at as int].0 == self.key
        &&& self.map.view_map().dom().contains(self.key)
    }

    /// The stored value.
    pub fn get(&self) -> (r: &T)
        requires
            self.wf(),
        ensures
            self.map.view_map()[self.key] == *r,
    {
        proof {
            lemma_map_of_hit(self.map.entries@, self.at as int);
        }
        &self.map.entries[self.at].1
    }

    /// Replaces the stored value, returning the previous one.
    pub fn insert(&mut self, value: T) -> (r: T)
        requires
            old(self).wf(),
        ensures
            final(self).wf(),
            final(self).key == old(self).key,
            r == old(self).map.view_map()[old(self).key],
            final(self).map.view_map() == old(self).map.view_map().insert(
                old(self).key,
                value,
            ),
    {
        proof {
            lemma_map_of_hit(self.map.entries@, self.at as int);
            lemma_map_of_remove(self.map.entries@, self.at as int);
        }
        let key = self.map.entries[self.at].0;
        let old_pair = self.map.entries.remove(self.at);
        self.map.entries.push((key, value));
        let n = self.map.entries.len();
        self.at = n - 1;
        proof {
            assert(self.map.entries@.drop_last() =~= old(self).map.entries@.remove(
                old(self).at as int,
            ));
            assert(final(self).map.view_map() =~= old(self).map.view_map().insert(
                old(self).key,
                value,
            ));
        }
        old_pair.1
    }

    /// Takes the stored value out, handing back the value and the map
    /// without it.
    pub fn remove(self) -> (r: (T, LocalMap<T>))
        requires
            self.wf(),
        ensures
            r.0 == self.map.view_map()[self.key],
            r.1.wf(),
            r.1.view_map() == self.map.view_map().remove(self.key),
    {
        proof {
            lemma_map_of_hit(self.map.entries@, self.at as int);
            lemma_map_of_remove(self.map.entries@, self.at as int);
        }
        let OccupiedEntry { mut map, key: _, at } = self;
        let pair = map.entries.remove(at);
        (pair.1, map)
    }
}

/// A vacant slot: the map and the key that is not in it.
#[derive(Debug)]
pub struct VacantEntry<T> {
    pub map: LocalMap<T>,
    pub key: u64,
}

impl<T> VacantEntry<T> {
    pub open spec fn wf(&self) -> bool {
        &&& self.map.wf()
        &&& !self.map.view_map().dom().contains(self.key)
    }

    /// Fills the slot, handing back the map with the value in it.
    pub fn insert(self, value: T) -> (r: LocalMap<T>)
        requires
            self.wf(),
        ensures
            r.wf(),
            r.view_map() == self.map.view_map().insert(self.key, value),
            r.entries@ == self.map.entries@.push((self.key, value)),
    {
        let VacantEntry { mut map, key } = self;
        proof {
            assert forall|j: int| 0 <= j < map.entries@.len() implies (
            #[trigger] map.entries@[j]).0 != key by {
                if map.entries@[j].0 == key {
                    lemma_map_of_hit(map.entries@, j);
                }
            }
        }
        map.entries.push((key, value));
        proof {
            assert(map.entries@.drop_last() =~= self.map.entries@);
            assert forall|p: int, q: int|
                0 <= p < q < map.entries@.len() implies (#[trigger] map.entries@[p]).0 != (
            #[trigger] map.entries@[q]).0 by {
                if q == map.entries@.len() - 1 {
                    assert(map.entries@[p] == self.map.entries@[p]);
                }
            }
        }
        map
    }
}

impl<T> Entry<T> {
    /// Fills a vacant slot with the default; hands the map back either
    /// way.
    pub fn or_insert(self, default: T) -> (r: LocalMap<T>)
        requires
            self matches Entry::Occupied(e) ==> e.wf(),
            self matches Entry::Vacant(e) ==> e.wf(),
        ensures
            match self {
                Entry::Occupied(e) => r == e.map,
                Entry::Vacant(e) => r.wf() && r.view_map() == e.map.view_map().insert(
                    e.key,
                    default,
                ),
            },
    {
        match self {
            Entry::Occupied(e) => e.map,
            Entry::Vacant(e) => e.insert(default),
        }
    }

    /// Fills a vacant slot with what the closure produces; the closure
    /// runs only then.
    pub fn or_insert_with<D: FnOnce() -> T>(self, default: D) -> (r: LocalMap<T>)
        requires
            self matches Entry::Occupied(e) ==> e.wf(),
            self matches Entry::Vacant(e) ==> e.wf(),
            self is Vacant ==> default.requires(()),
        ensures
            match self {
                Entry::Occupied(e) => r == e.map,
                Entry::Vacant(e) => r.wf() && exists|v: T|
                    #[trigger] default.ensures((), v) && r.view_map() == e.map.view_map()
                        .insert(e.key, v),
            },
    {
        match self {
            Entry::Occupied(e) => e.map,
            Entry::Vacant(e) => {
                let v = default();
                e.insert(v)
            },
        }
    }

    /// Rewrites the stored value in place when the slot is occupied; a
    /// vacant slot stays vacant and the closure never runs.
    pub fn and_modify<D: FnOnce(T) -> T>(self, f: D) -> (r: Entry<T>)
        requires
            self matches Entry::Occupied(e) ==> e.wf(),
            self matches Entry::Vacant(e) ==> e.wf(),
            self matches Entry::Occupied(e) ==> f.requires(
                (e.map.view_map()[e.key],),
            ),
        ensures
            match self {
                Entry::Occupied(e) => r matches Entry::Occupied(e2) && e2.wf() && e2.key
                    == e.key && exists|v: T|
                    #[trigger] f.ensures((e.map.view_map()[e.key],), v)
                        && e2.map.view_map() == e.map.view_map().insert(e.key, v),
                Entry::Vacant(e) => r == Entry::Vacant(e),
            },
    {
        match self {
            Entry::Occupied(e) => {
                let key_id = e.key;
                let (v, map) = e.remove();
                let v2 = f(v);
                let vac = VacantEntry { map, key: key_id };
                let filled = vac.insert(v2);
                let n = filled.entries.len();
                proof {
                    assert(filled.view_map() =~= e.map.view_map().insert(e.key, v2));
                    assert(filled.entries@.last().0 == e.key);
                }
                Entry::Occupied(OccupiedEntry { map: filled, key: key_id, at: n - 1 })
            },
            Entry::Vacant(e) => Entry::Vacant(e),
        }
    }
}

} // verus!
