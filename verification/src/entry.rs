//! Entries of a mapping: a key looked up once, to read, change, insert or remove what is there.
use crate::mapping::{lemma_entries_swap_remove, lemma_entries_update, Mapping};
use crate::spanned::Spanned;
use crate::value::{find_key, lemma_find_key_bounds, spanned_model, Value};
use vstd::prelude::*;

verus! {

/// Entry for an existing key-value pair or a vacant location to insert one.
pub enum Entry<'a> {
    /// Existing slot with an equal key.
    Occupied(OccupiedEntry<'a>),
    /// Vacant slot (no equal key in the map).
    Vacant(VacantEntry<'a>),
}

/// A view into an occupied entry of a [`Mapping`]: the mapping and the position of the key
/// that was looked up.
pub struct OccupiedEntry<'a> {
    pub map: &'a mut Mapping,
    pub index: usize,
}

/// A view into a vacant entry of a [`Mapping`]: the mapping, which holds no key equal to `key`,
/// and the key to insert.
pub struct VacantEntry<'a> {
    pub map: &'a mut Mapping,
    pub key: Spanned<Value>,
}

impl Mapping {
    /// Looks `k` up once. Where an equal key is there, the entry is occupied at its position
    /// (and `k` itself is dropped); otherwise it is vacant and holds `k`.
    pub fn entry<'a>(&'a mut self, k: Spanned<Value>) -> (r: Entry<'a>)
        ensures
            match r {
                Entry::Occupied(o) => {
                    &&& find_key(old(self)@, k.inner@, 0) == Some(o.index as int)
                    &&& o.index < old(self)@.len()
                    &&& *o.map == *old(self)
                    &&& *final(self) == *final(o.map)
                },
                Entry::Vacant(v) => {
                    &&& find_key(old(self)@, k.inner@, 0) is None
                    &&& v.key == k
                    &&& *v.map == *old(self)
                    &&& *final(self) == *final(v.map)
                },
            },
    {
        proof {
            lemma_find_key_bounds(self@, k.inner@, 0);
        }
        match self.position_of(&k.inner) {
            Some(j) => Entry::Occupied(OccupiedEntry { map: self, index: j }),
            None => Entry::Vacant(VacantEntry { map: self, key: k }),
        }
    }
}

impl<'a> OccupiedEntry<'a> {
    /// The key in the entry: the one that the mapping already held.
    pub fn key(&self) -> (r: &Spanned<Value>)
        requires
            self.index < self.map@.len(),
        ensures
            *r == old(self.map).0@[self.index as int].0,
    {
        &self.map.0[self.index].0
    }

    /// The value in the entry.
    pub fn get(&self) -> (r: &Spanned<Value>)
        requires
            self.index < self.map@.len(),
        ensures
            *r == old(self.map).0@[self.index as int].1,
    {
        &self.map.0[self.index].1
    }

    /// The value in the entry, to change in place.
    pub fn get_mut(&mut self) -> (r: &mut Spanned<Value>)
        requires
            old(self).index < old(self).map@.len(),
        ensures
            *r == old(self).map.0@[old(self).index as int].1,
            final(self).index == old(self).index,
            *final(final(self).map) == *final(old(self).map),
            final(self).map.0@ == old(self).map.0@.update(
                old(self).index as int,
                (old(self).map.0@[old(self).index as int].0, *final(r)),
            ),
    {
        &mut self.map.0[self.index].1
    }

    /// The entry as a reference to its value, which lives as long as the mapping's borrow.
    pub fn into_mut(self) -> (r: &'a mut Spanned<Value>)
        requires
            self.index < old(self.map)@.len(),
        ensures
            *r == old(self.map).0@[self.index as int].1,
            final(self.map).0@ == old(self.map).0@.update(
                self.index as int,
                (old(self.map).0@[self.index as int].0, *final(r)),
            ),
    {
        &mut self.map.0[self.index].1
    }

    /// Sets the value of the entry, keeping its key, and hands back the old value.
    pub fn insert(&mut self, value: Spanned<Value>) -> (r: Spanned<Value>)
        requires
            old(self).index < old(self).map@.len(),
        ensures
            r == old(self).map.0@[old(self).index as int].1,
            final(self).index == old(self).index,
            *final(final(self).map) == *final(old(self).map),
            final(self).map@ == old(self).map@.update(
                old(self).index as int,
                (old(self).map@[old(self).index as int].0, spanned_model(value)),
            ),
    {
        let mut value = value;
        let ghost before = self.map.0@;
        std::mem::swap(&mut self.map.0[self.index].1, &mut value);
        proof {
            lemma_entries_update(before, self.index as int, self.map.0@[self.index as int]);
        }
        value
    }

    /// Takes the entry out of the mapping, moving the last entry into its place, and hands back
    /// its value.
    pub fn remove(self) -> (r: Spanned<Value>)
        requires
            self.index < old(self.map)@.len(),
        ensures
            spanned_model(r) == old(self.map)@[self.index as int].1,
            final(self.map)@ == old(self.map)@.update(self.index as int, old(self.map)@.last()).drop_last(),
    {
        let (_k, v) = self.remove_entry();
        v
    }

    /// Takes the entry out of the mapping, moving the last entry into its place, and hands back
    /// its key and value.
    pub fn remove_entry(self) -> (r: (Spanned<Value>, Spanned<Value>))
        requires
            self.index < old(self.map)@.len(),
        ensures
            (spanned_model(r.0), spanned_model(r.1)) == old(self.map)@[self.index as int],
            final(self.map)@ == old(self.map)@.update(self.index as int, old(self.map)@.last()).drop_last(),
    {
        proof {
            lemma_entries_swap_remove(self.map.0@, self.index as int);
        }
        self.map.0.swap_remove(self.index)
    }
}

impl<'a> VacantEntry<'a> {
    /// The key that inserting through the entry would use.
    pub fn key(&self) -> (r: &Spanned<Value>)
        ensures
            *r == self.key,
    {
        &self.key
    }

    /// Gives the key back, leaving the mapping as it was.
    pub fn into_key(self) -> (r: Spanned<Value>)
        ensures
            r == self.key,
            *final(self.map) == *old(self.map),
    {
        self.key
    }

    /// Inserts the key with `value` at the end of the mapping, and gives a reference to the
    /// value, which lives as long as the mapping's borrow.
    pub fn insert(self, value: Spanned<Value>) -> (r: &'a mut Spanned<Value>)
        ensures
            *r == value,
            final(self.map).0@ == old(self.map).0@.push((self.key, *final(r))),
    {
        self.map.0.push((self.key, value));
        let n = self.map.0.len();
        &mut self.map.0[n - 1].1
    }
}

/// Whether an entry points at a key of its mapping: a vacant entry always does, an occupied one
/// where its position is inside the mapping.
pub open spec fn entry_in_bounds(e: &Entry) -> bool {
    match e {
        Entry::Occupied(o) => o.index < o.map@.len(),
        Entry::Vacant(_) => true,
    }
}

impl<'a> Entry<'a> {
    /// The key of the entry: the mapping's own where it is occupied, the one looked up where it
    /// is vacant.
    pub fn key(&self) -> (r: &Spanned<Value>)
        requires
            entry_in_bounds(self),
        ensures
            match self {
                Entry::Occupied(o) => *r == (*o.map).0@[o.index as int].0,
                Entry::Vacant(v) => *r == v.key,
            },
    {
        match self {
            Entry::Occupied(o) => o.key(),
            Entry::Vacant(v) => v.key(),
        }
    }

    /// The value of the entry, with `default` inserted first where it is vacant.
    pub fn or_insert(self, default: Spanned<Value>) -> (r: &'a mut Spanned<Value>)
        requires
            entry_in_bounds(&self),
        ensures
            match self {
                Entry::Occupied(o) => {
                    &&& *r == (*o.map).0@[o.index as int].1
                    &&& final(o.map).0@ == (*o.map).0@.update(
                        o.index as int,
                        ((*o.map).0@[o.index as int].0, *final(r)),
                    )
                },
                Entry::Vacant(v) => {
                    &&& *r == default
                    &&& final(v.map).0@ == (*v.map).0@.push((v.key, *final(r)))
                },
            },
    {
        match self {
            Entry::Occupied(o) => o.into_mut(),
            Entry::Vacant(v) => v.insert(default),
        }
    }

    /// The value of the entry, with what `default` makes inserted first where it is vacant;
    /// `default` is called only then.
    pub fn or_insert_with<F: FnOnce() -> Spanned<Value>>(self, default: F) -> (r: &'a mut Spanned<Value>)
        requires
            entry_in_bounds(&self),
            default.requires(()),
        ensures
            match self {
                Entry::Occupied(o) => {
                    &&& *r == (*o.map).0@[o.index as int].1
                    &&& final(o.map).0@ == (*o.map).0@.update(
                        o.index as int,
                        ((*o.map).0@[o.index as int].0, *final(r)),
                    )
                },
                Entry::Vacant(v) => {
                    &&& default.ensures((), *r)
                    &&& final(v.map).0@ == (*v.map).0@.push((v.key, *final(r)))
                },
            },
    {
        match self {
            Entry::Occupied(o) => o.into_mut(),
            Entry::Vacant(v) => v.insert(default()),
        }
    }

    /// Changes the value of an occupied entry in place with `f` before anything is inserted; a
    /// vacant entry is handed back as it is.
    pub fn and_modify<F: FnOnce(&mut Spanned<Value>)>(self, f: F) -> (r: Self)
        requires
            entry_in_bounds(&self),
            forall|x: &mut Spanned<Value>| #[trigger] f.requires((x,)),
        ensures
            entry_in_bounds(&r),
            match (self, r) {
                (Entry::Occupied(o), Entry::Occupied(o2)) => {
                    &&& o2.index == o.index
                    &&& *final(o2.map) == *final(o.map)
                    &&& exists|x: &mut Spanned<Value>|
                        {
                            &&& *x == (*o.map).0@[o.index as int].1
                            &&& #[trigger] f.ensures((x,), ())
                            &&& o2.map.0@ == (*o.map).0@.update(
                                o.index as int,
                                ((*o.map).0@[o.index as int].0, *final(x)),
                            )
                        }
                },
                (Entry::Vacant(v), Entry::Vacant(v2)) => {
                    &&& v2.key == v.key
                    &&& *v2.map == *v.map
                    &&& *final(v2.map) == *final(v.map)
                },
                _ => false,
            },
    {
        match self {
            Entry::Occupied(o) => {
                let mut o = o;
                f(o.get_mut());
                Entry::Occupied(o)
            },
            Entry::Vacant(v) => Entry::Vacant(v),
        }
    }
}

} // verus!
