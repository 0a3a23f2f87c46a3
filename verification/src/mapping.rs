//! YAML mappings: key-value pairs in insertion order, looked up by YAML equality of keys.
use crate::spanned::Spanned;
use crate::value::{
    entries_model, find_key, lemma_find_key_bounds, lemma_find_key_first, lemma_find_key_none, spanned_model, value_eq,
    Value, ValueModel,
};
use vstd::prelude::*;

verus! {

/// A YAML mapping: its entries in insertion order. A key is looked up by YAML equality
/// ([`value_eq`]); inserting a key that is already there keeps the old key and its place and
/// replaces its value, so no two keys of a mapping built by insertion are equal.
#[derive(Debug)]
pub struct Mapping(pub Vec<(Spanned<Value>, Spanned<Value>)>);

/// The model of a mapping entry.
pub type EntryModel = (Spanned<ValueModel>, Spanned<ValueModel>);

impl View for Mapping {
    type V = Seq<EntryModel>;

    open spec fn view(&self) -> Seq<EntryModel> {
        entries_model(self.0@)
    }
}

/// Inserting `(k, v)` into entries: where a key equal to `k` is found, its value becomes `v` and
/// the key stays; otherwise the pair goes at the end.
pub open spec fn insert_model(e: Seq<EntryModel>, k: Spanned<ValueModel>, v: Spanned<ValueModel>) -> Seq<EntryModel> {
    match find_key(e, k.inner, 0) {
        Some(j) => e.update(j, (e[j].0, v)),
        None => e.push((k, v)),
    }
}

/// The entries of a mapping built by inserting the given pairs in order into an empty one.
pub open spec fn collect_model(pairs: Seq<EntryModel>) -> Seq<EntryModel>
    decreases pairs.len(),
{
    if pairs.len() == 0 {
        Seq::empty()
    } else {
        insert_model(collect_model(pairs.drop_last()), pairs.last().0, pairs.last().1)
    }
}

/// Inserting `(k, v)` only where no key equal to `k` is there yet.
pub open spec fn insert_if_absent_model(e: Seq<EntryModel>, k: Spanned<ValueModel>, v: Spanned<ValueModel>) -> Seq<EntryModel> {
    match find_key(e, k.inner, 0) {
        Some(j) => e,
        None => e.push((k, v)),
    }
}

/// A key type that a mapping can be looked up by: a value, a spanned value, or a string, which
/// finds only a string key with the same characters.
pub trait Index: crate::private::Sealed {
    /// Whether a key of a mapping is the one that this index looks for.
    spec fn matches_key(&self, key: ValueModel) -> bool;

    /// Exec form of [`Index::matches_key`].
    fn is_key(&self, key: &Value) -> (r: bool)
        ensures
            r == self.matches_key(key@),
    ;
}

impl Index for Value {
    open spec fn matches_key(&self, key: ValueModel) -> bool {
        value_eq(self@, key)
    }

    fn is_key(&self, key: &Value) -> (r: bool) {
        self.equals(key)
    }
}

impl Index for Spanned<Value> {
    open spec fn matches_key(&self, key: ValueModel) -> bool {
        value_eq(self.inner@, key)
    }

    fn is_key(&self, key: &Value) -> (r: bool) {
        self.inner.equals(key)
    }
}

impl Index for str {
    open spec fn matches_key(&self, key: ValueModel) -> bool {
        key matches ValueModel::String(s) && s == self@
    }

    fn is_key(&self, key: &Value) -> (r: bool) {
        match key {
            Value::String(s) => {
                let a = crate::text::chars_of(s.as_str());
                crate::text::chars_equal_str(&a, self)
            },
            _ => false,
        }
    }
}

impl Index for String {
    open spec fn matches_key(&self, key: ValueModel) -> bool {
        key matches ValueModel::String(s) && s == self@
    }

    fn is_key(&self, key: &Value) -> (r: bool) {
        self.as_str().is_key(key)
    }
}

impl<'a, T: ?Sized + Index> Index for &'a T {
    open spec fn matches_key(&self, key: ValueModel) -> bool {
        (**self).matches_key(key)
    }

    fn is_key(&self, key: &Value) -> (r: bool) {
        (**self).is_key(key)
    }
}

/// The first index `j >= from` of `e` whose key the index looks for.
pub open spec fn find_index<I: Index + ?Sized>(e: Seq<EntryModel>, index: &I, from: int) -> Option<int>
    decreases e.len() - from,
{
    if from < 0 || from >= e.len() {
        None
    } else if index.matches_key(e[from].0.inner) {
        Some(from)
    } else {
        find_index(e, index, from + 1)
    }
}

proof fn lemma_find_index_first<I: Index + ?Sized>(e: Seq<EntryModel>, index: &I, from: int, j: int)
    requires
        0 <= from <= j < e.len(),
        forall|t: int| from <= t < j ==> !index.matches_key(#[trigger] e[t].0.inner),
        index.matches_key(e[j].0.inner),
    ensures
        find_index(e, index, from) == Some(j),
    decreases j - from,
{
    if from < j {
        lemma_find_index_first(e, index, from + 1, j);
    }
}

proof fn lemma_find_index_none<I: Index + ?Sized>(e: Seq<EntryModel>, index: &I, from: int)
    requires
        0 <= from <= e.len(),
        forall|t: int| from <= t < e.len() ==> !index.matches_key(#[trigger] e[t].0.inner),
    ensures
        find_index(e, index, from) is None,
    decreases e.len() - from,
{
    if from < e.len() {
        lemma_find_index_none(e, index, from + 1);
    }
}

pub proof fn lemma_find_index_bounds<I: Index + ?Sized>(e: Seq<EntryModel>, index: &I, from: int)
    ensures
        find_index(e, index, from) matches Some(j) ==> 0 <= from <= j < e.len() && index.matches_key(e[j].0.inner),
    decreases e.len() - from,
{
    if 0 <= from < e.len() && !index.matches_key(e[from].0.inner) {
        lemma_find_index_bounds(e, index, from + 1);
    }
}

/// Updating one entry of a vector of entries updates its model.
pub proof fn lemma_entries_update(v: Seq<(Spanned<Value>, Spanned<Value>)>, j: int, x: (Spanned<Value>, Spanned<Value>))
    requires
        0 <= j < v.len(),
    ensures
        entries_model(v.update(j, x)) == entries_model(v).update(j, (spanned_model(x.0), spanned_model(x.1))),
{
    assert(entries_model(v.update(j, x)) =~= entries_model(v).update(j, (spanned_model(x.0), spanned_model(x.1))));
}

/// Appending an entry to a vector of entries appends its model.
proof fn lemma_entries_push(v: Seq<(Spanned<Value>, Spanned<Value>)>, x: (Spanned<Value>, Spanned<Value>))
    ensures
        entries_model(v.push(x)) == entries_model(v).push((spanned_model(x.0), spanned_model(x.1))),
{
    assert(entries_model(v.push(x)) =~= entries_model(v).push((spanned_model(x.0), spanned_model(x.1))));
}

/// `after` holds, in order, the keys of the entries of `before` at the strictly increasing
/// indices `idx`.
pub open spec fn kept_in_order(after: Seq<EntryModel>, before: Seq<EntryModel>, idx: Seq<int>) -> bool {
    &&& idx.len() == after.len()
    &&& forall|t: int, u: int| 0 <= t < u < idx.len() ==> #[trigger] idx[t] < #[trigger] idx[u]
    &&& forall|t: int| 0 <= t < idx.len() ==> 0 <= #[trigger] idx[t] < before.len() && after[t].0 == before[idx[t]].0
}

/// A strictly increasing sequence of indices below `n` has at most `n` elements.
proof fn lemma_increasing_bounded(idx: Seq<int>, n: int)
    requires
        0 <= n,
        forall|t: int, u: int| 0 <= t < u < idx.len() ==> #[trigger] idx[t] < #[trigger] idx[u],
        forall|t: int| 0 <= t < idx.len() ==> 0 <= #[trigger] idx[t] < n,
    ensures
        idx.len() <= n,
    decreases idx.len(),
{
    if idx.len() > 0 {
        let rest = idx.drop_last();
        assert forall|t: int| 0 <= t < rest.len() implies 0 <= #[trigger] rest[t] < idx.last() by {
            assert(rest[t] == idx[t]);
            assert(idx[t] < idx[idx.len() - 1]);
        }
        assert forall|t: int, u: int| 0 <= t < u < rest.len() implies #[trigger] rest[t] < #[trigger] rest[u] by {
            assert(rest[t] == idx[t] && rest[u] == idx[u]);
        }
        assert(idx.last() == idx[idx.len() - 1]);
        assert(0 <= idx[idx.len() - 1] < n);
        lemma_increasing_bounded(rest, idx.last());
    }
}

impl Mapping {
    /// Creates an empty YAML map.
    pub fn new() -> (m: Mapping)
        ensures
            m@ == Seq::<EntryModel>::empty(),
    {
        let m = Mapping(Vec::new());
        assert(m@ =~= Seq::<EntryModel>::empty());
        m
    }

    /// Creates an empty YAML map with room for `capacity` entries.
    pub fn with_capacity(capacity: usize) -> (m: Mapping)
        ensures
            m@ == Seq::<EntryModel>::empty(),
    {
        let m = Mapping(Vec::with_capacity(capacity));
        assert(m@ =~= Seq::<EntryModel>::empty());
        m
    }

    /// Reserves room for at least `additional` more entries; the entries do not change.
    pub fn reserve(&mut self, additional: usize)
        ensures
            final(self)@ == old(self)@,
    {
        self.0.reserve(additional);
    }

    /// Keeps the entries for which `keep`, given the key and the value (which it may change),
    /// answers `true`, in their order, and drops the others. Which entries stay is `keep`'s to
    /// decide; what stays are entries of the map under their own keys, in the order they had.
    pub fn retain<F>(&mut self, keep: F)
        where
            F: FnMut(&Spanned<Value>, &mut Spanned<Value>) -> bool,
        requires
            forall|k: &Spanned<Value>, v: &mut Spanned<Value>| #[trigger] call_requires(keep, (k, v)),
        ensures
            final(self)@.len() <= old(self)@.len(),
            exists|idx: Seq<int>| #[trigger] kept_in_order(final(self)@, old(self)@, idx),
            (forall|k: &Spanned<Value>, v: &mut Spanned<Value>, b: bool| #[trigger] call_ensures(keep, (k, v), b) ==> b)
                ==> final(self)@.len() == old(self)@.len(),
            (forall|k: &Spanned<Value>, v: &mut Spanned<Value>, b: bool| #[trigger] call_ensures(keep, (k, v), b) ==> !b)
                ==> final(self)@.len() == 0,
    {
        let mut f = keep;
        let ghost before = self@;
        let mut entries: Vec<(Spanned<Value>, Spanned<Value>)> = Vec::new();
        std::mem::swap(&mut entries, &mut self.0);
        let ghost all = entries@;
        proof {
            assert(self@ =~= Seq::<EntryModel>::empty());
        }
        let ghost mut idx: Seq<int> = Seq::empty();
        for entry in it: entries
            invariant
                f == keep,
                forall|k: &Spanned<Value>, v: &mut Spanned<Value>| #[trigger] call_requires(keep, (k, v)),
                it.seq() == all,
                entries_model(all) == before,
                idx.len() == self@.len(),
                forall|t: int, u: int| 0 <= t < u < idx.len() ==> #[trigger] idx[t] < #[trigger] idx[u],
                forall|t: int| 0 <= t < idx.len() ==> 0 <= #[trigger] idx[t] < it.index() && self@[t].0 == before[idx[t]].0,
                (forall|k: &Spanned<Value>, v: &mut Spanned<Value>, b: bool| #[trigger] call_ensures(keep, (k, v), b) ==> b)
                    ==> self@.len() == it.index(),
                (forall|k: &Spanned<Value>, v: &mut Spanned<Value>, b: bool| #[trigger] call_ensures(keep, (k, v), b) ==> !b)
                    ==> self@.len() == 0,
        {
            let ghost i = it.index() as int;
            let ghost prior = self.0@;
            let (k, mut v) = entry;
            proof {
                assert(before[i].0 == spanned_model(k));
            }
            if f(&k, &mut v) {
                self.0.push((k, v));
                proof {
                    lemma_entries_push(prior, (k, v));
                    idx = idx.push(i);
                }
            }
        }
        proof {
            assert(self@.len() <= before.len()) by {
                if self@.len() > before.len() {
                    lemma_increasing_bounded(idx, before.len() as int);
                }
            }
            assert(kept_in_order(self@, before, idx));
        }
    }

    /// The number of entries.
    pub fn len(&self) -> (n: usize)
        ensures
            n == self@.len(),
    {
        self.0.len()
    }

    /// Whether the map has no entries.
    pub fn is_empty(&self) -> (r: bool)
        ensures
            r == (self@.len() == 0),
    {
        self.0.len() == 0
    }

    /// Removes every entry.
    pub fn clear(&mut self)
        ensures
            final(self)@ == Seq::<EntryModel>::empty(),
    {
        self.0.clear();
        assert(self@ =~= Seq::<EntryModel>::empty());
    }

    /// The position of the first key that equals `key` (see [`find_key`]).
    pub fn position_of(&self, key: &Value) -> (r: Option<usize>)
        ensures
            r matches Some(j) ==> find_key(self@, key@, 0) == Some(j as int),
            r is None ==> find_key(self@, key@, 0) is None,
    {
        let mut j: usize = 0;
        while j < self.0.len()
            invariant
                j <= self.0@.len(),
                forall|t: int| 0 <= t < j ==> !value_eq(key@, #[trigger] self@[t].0.inner),
            decreases self.0.len() - j,
        {
            if key.equals(&self.0[j].0.inner) {
                proof {
                    lemma_find_key_first(self@, key@, 0, j as int);
                }
                return Some(j);
            }
            j = j + 1;
        }
        proof {
            lemma_find_key_none(self@, key@, 0);
        }
        None
    }

    /// The position of the first key that `index` looks for (see [`find_index`]).
    pub fn position<I: Index + ?Sized>(&self, index: &I) -> (r: Option<usize>)
        ensures
            r matches Some(j) ==> find_index(self@, index, 0) == Some(j as int),
            r is None ==> find_index(self@, index, 0) is None,
    {
        let mut j: usize = 0;
        while j < self.0.len()
            invariant
                j <= self.0@.len(),
                forall|t: int| 0 <= t < j ==> !index.matches_key(#[trigger] self@[t].0.inner),
            decreases self.0.len() - j,
        {
            if index.is_key(&self.0[j].0.inner) {
                proof {
                    lemma_find_index_first(self@, index, 0, j as int);
                }
                return Some(j);
            }
            j = j + 1;
        }
        proof {
            lemma_find_index_none(self@, index, 0);
        }
        None
    }

    /// Inserts a key-value pair. Where an equal key is already there, it keeps its place and its
    /// old value is handed back; otherwise the pair goes at the end.
    pub fn insert(&mut self, k: Spanned<Value>, v: Spanned<Value>) -> (r: Option<Spanned<Value>>)
        ensures
            final(self)@ == insert_model(old(self)@, spanned_model(k), spanned_model(v)),
            match find_key(old(self)@, k.inner@, 0) {
                Some(j) => r matches Some(o) && spanned_model(o) == old(self)@[j].1,
                None => r is None,
            },
    {
        match self.position_of(&k.inner) {
            Some(j) => {
                let mut v = v;
                let ghost before = self.0@;
                let ghost newv = spanned_model(v);
                proof {
                    lemma_find_key_bounds(self@, k.inner@, 0);
                }
                std::mem::swap(&mut self.0[j].1, &mut v);
                proof {
                    assert(self.0@ == before.update(j as int, (before[j as int].0, self.0@[j as int].1)));
                    lemma_entries_update(before, j as int, self.0@[j as int]);
                }
                Some(v)
            },
            None => {
                let ghost before = self.0@;
                self.0.push((k, v));
                proof {
                    lemma_entries_push(before, self.0@.last());
                }
                None
            },
        }
    }
}

impl Mapping {
    /// Inserts the pair only where no key equal to `k` is there yet; says whether it did.
    pub fn insert_if_absent(&mut self, k: Spanned<Value>, v: Spanned<Value>) -> (inserted: bool)
        ensures
            final(self)@ == insert_if_absent_model(old(self)@, spanned_model(k), spanned_model(v)),
            inserted == (find_key(old(self)@, k.inner@, 0) is None),
    {
        match self.position_of(&k.inner) {
            Some(_) => false,
            None => {
                let ghost before = self.0@;
                self.0.push((k, v));
                proof {
                    lemma_entries_push(before, self.0@.last());
                }
                true
            },
        }
    }
}

impl Mapping {
    /// Whether the map has a key that `index` looks for.
    pub fn contains_key<I: Index>(&self, index: I) -> (r: bool)
        ensures
            r == (find_index(self@, &index, 0) is Some),
    {
        self.position(&index).is_some()
    }

    /// The value under the key that `index` looks for.
    pub fn get<I: Index>(&self, index: I) -> (r: Option<&Spanned<Value>>)
        ensures
            match find_index(self@, &index, 0) {
                Some(j) => r matches Some(x) && spanned_model(*x) == self@[j].1,
                None => r is None,
            },
    {
        match self.position(&index) {
            Some(j) => {
                proof {
                    lemma_find_index_bounds(self@, &index, 0);
                }
                Some(&self.0[j].1)
            },
            None => None,
        }
    }

    /// Removes the entry under the key that `index` looks for, moving the last entry into its
    /// place, and hands back its key and value.
    pub fn swap_remove_entry<I: Index>(&mut self, index: I) -> (r: Option<(Spanned<Value>, Spanned<Value>)>)
        ensures
            match find_index(old(self)@, &index, 0) {
                Some(j) => {
                    &&& r matches Some(p) && (spanned_model(p.0), spanned_model(p.1)) == old(self)@[j]
                    &&& final(self)@ == old(self)@.update(j, old(self)@.last()).drop_last()
                },
                None => r is None && final(self)@ == old(self)@,
            },
    {
        match self.position(&index) {
            Some(j) => {
                proof {
                    lemma_find_index_bounds(self@, &index, 0);
                    lemma_entries_swap_remove(self.0@, j as int);
                }
                Some(self.0.swap_remove(j))
            },
            None => None,
        }
    }

    /// Removes the value under the key that `index` looks for, moving the last entry into its
    /// place.
    pub fn swap_remove<I: Index>(&mut self, index: I) -> (r: Option<Spanned<Value>>)
        ensures
            match find_index(old(self)@, &index, 0) {
                Some(j) => {
                    &&& r matches Some(v) && spanned_model(v) == old(self)@[j].1
                    &&& final(self)@ == old(self)@.update(j, old(self)@.last()).drop_last()
                },
                None => r is None && final(self)@ == old(self)@,
            },
    {
        match self.swap_remove_entry(index) {
            Some((_k, v)) => Some(v),
            None => None,
        }
    }

    /// Removes the value under the key that `index` looks for; the same as
    /// [`Mapping::swap_remove`].
    pub fn remove<I: Index>(&mut self, index: I) -> (r: Option<Spanned<Value>>)
        ensures
            match find_index(old(self)@, &index, 0) {
                Some(j) => {
                    &&& r matches Some(v) && spanned_model(v) == old(self)@[j].1
                    &&& final(self)@ == old(self)@.update(j, old(self)@.last()).drop_last()
                },
                None => r is None && final(self)@ == old(self)@,
            },
    {
        self.swap_remove(index)
    }

    /// Removes the entry under the key that `index` looks for; the same as
    /// [`Mapping::swap_remove_entry`].
    pub fn remove_entry<I: Index>(&mut self, index: I) -> (r: Option<(Spanned<Value>, Spanned<Value>)>)
        ensures
            match find_index(old(self)@, &index, 0) {
                Some(j) => {
                    &&& r matches Some(p) && (spanned_model(p.0), spanned_model(p.1)) == old(self)@[j]
                    &&& final(self)@ == old(self)@.update(j, old(self)@.last()).drop_last()
                },
                None => r is None && final(self)@ == old(self)@,
            },
    {
        self.swap_remove_entry(index)
    }

    /// Removes the entry under the key that `index` looks for, shifting the entries after it
    /// down, and hands back its key and value.
    pub fn shift_remove_entry<I: Index>(&mut self, index: I) -> (r: Option<(Spanned<Value>, Spanned<Value>)>)
        ensures
            match find_index(old(self)@, &index, 0) {
                Some(j) => {
                    &&& r matches Some(p) && (spanned_model(p.0), spanned_model(p.1)) == old(self)@[j]
                    &&& final(self)@ == old(self)@.remove(j)
                },
                None => r is None && final(self)@ == old(self)@,
            },
    {
        match self.position(&index) {
            Some(j) => {
                proof {
                    lemma_find_index_bounds(self@, &index, 0);
                }
                let ghost before = self.0@;
                let p = self.0.remove(j);
                proof {
                    assert(self@ =~= entries_model(before).remove(j as int));
                }
                Some(p)
            },
            None => None,
        }
    }

    /// Removes the value under the key that `index` looks for, shifting the entries after it
    /// down.
    pub fn shift_remove<I: Index>(&mut self, index: I) -> (r: Option<Spanned<Value>>)
        ensures
            match find_index(old(self)@, &index, 0) {
                Some(j) => {
                    &&& r matches Some(v) && spanned_model(v) == old(self)@[j].1
                    &&& final(self)@ == old(self)@.remove(j)
                },
                None => r is None && final(self)@ == old(self)@,
            },
    {
        match self.shift_remove_entry(index) {
            Some((_k, v)) => Some(v),
            None => None,
        }
    }

    /// The entries in order, by reference.
    pub fn iter(&self) -> (r: Vec<(&Spanned<Value>, &Spanned<Value>)>)
        ensures
            r@.len() == self@.len(),
            forall|i: int| 0 <= i < r@.len() ==> (spanned_model(*r@[i].0), spanned_model(*r@[i].1)) == #[trigger] self@[i],
    {
        let mut out: Vec<(&Spanned<Value>, &Spanned<Value>)> = Vec::new();
        let mut i: usize = 0;
        while i < self.0.len()
            invariant
                i <= self.0@.len(),
                out@.len() == i,
                forall|t: int| 0 <= t < i ==> (spanned_model(*out@[t].0), spanned_model(*out@[t].1)) == #[trigger] self@[t],
            decreases self.0.len() - i,
        {
            let e = &self.0[i];
            out.push((&e.0, &e.1));
            i = i + 1;
        }
        out
    }

    /// The keys in order, by reference.
    pub fn keys(&self) -> (r: Vec<&Spanned<Value>>)
        ensures
            r@.len() == self@.len(),
            forall|i: int| 0 <= i < r@.len() ==> spanned_model(*r@[i]) == #[trigger] self@[i].0,
    {
        let mut out: Vec<&Spanned<Value>> = Vec::new();
        let mut i: usize = 0;
        while i < self.0.len()
            invariant
                i <= self.0@.len(),
                out@.len() == i,
                forall|t: int| 0 <= t < i ==> spanned_model(*out@[t]) == #[trigger] self@[t].0,
            decreases self.0.len() - i,
        {
            out.push(&self.0[i].0);
            i = i + 1;
        }
        out
    }

    /// The values in order, by reference.
    pub fn values(&self) -> (r: Vec<&Spanned<Value>>)
        ensures
            r@.len() == self@.len(),
            forall|i: int| 0 <= i < r@.len() ==> spanned_model(*r@[i]) == #[trigger] self@[i].1,
    {
        let mut out: Vec<&Spanned<Value>> = Vec::new();
        let mut i: usize = 0;
        while i < self.0.len()
            invariant
                i <= self.0@.len(),
                out@.len() == i,
                forall|t: int| 0 <= t < i ==> spanned_model(*out@[t]) == #[trigger] self@[t].1,
            decreases self.0.len() - i,
        {
            out.push(&self.0[i].1);
            i = i + 1;
        }
        out
    }

    /// The keys in order.
    pub fn into_keys(self) -> (r: Vec<Spanned<Value>>)
        ensures
            r@.len() == self@.len(),
            forall|i: int| 0 <= i < r@.len() ==> spanned_model(r@[i]) == #[trigger] self@[i].0,
    {
        let ghost m = self@;
        let mut out: Vec<Spanned<Value>> = Vec::new();
        for e in it: self.0
            invariant
                entries_model(it.seq()) == m,
                out@.len() == it.index(),
                forall|t: int| 0 <= t < out@.len() ==> spanned_model(out@[t]) == #[trigger] m[t].0,
        {
            proof {
                assert(m[it.index() as int].0 == spanned_model(e.0));
            }
            out.push(e.0);
        }
        out
    }

    /// The values in order.
    pub fn into_values(self) -> (r: Vec<Spanned<Value>>)
        ensures
            r@.len() == self@.len(),
            forall|i: int| 0 <= i < r@.len() ==> spanned_model(r@[i]) == #[trigger] self@[i].1,
    {
        let ghost m = self@;
        let mut out: Vec<Spanned<Value>> = Vec::new();
        for e in it: self.0
            invariant
                entries_model(it.seq()) == m,
                out@.len() == it.index(),
                forall|t: int| 0 <= t < out@.len() ==> spanned_model(out@[t]) == #[trigger] m[t].1,
        {
            proof {
                assert(m[it.index() as int].1 == spanned_model(e.1));
            }
            out.push(e.1);
        }
        out
    }
}

/// Removing entry `j` of a vector by moving the last one into its place does the same to its
/// entries' models.
pub proof fn lemma_entries_swap_remove(v: Seq<(Spanned<Value>, Spanned<Value>)>, j: int)
    requires
        0 <= j < v.len(),
    ensures
        entries_model(v.update(j, v.last()).drop_last()) == entries_model(v).update(j, entries_model(v).last()).drop_last(),
{
    assert(entries_model(v.update(j, v.last()).drop_last()) =~= entries_model(v).update(j, entries_model(v).last()).drop_last());
}

/// The entries of a prefix of a vector are the prefix of its entries.
proof fn lemma_entries_take(v: Seq<(Spanned<Value>, Spanned<Value>)>, i: int)
    requires
        0 <= i <= v.len(),
    ensures
        entries_model(v.take(i)) == entries_model(v).take(i),
{
    assert(entries_model(v.take(i)) =~= entries_model(v).take(i));
}

impl Mapping {
    /// A mapping built by inserting the pairs in order into an empty one (see [`Mapping::insert`]).
    pub fn from_entries(entries: Vec<(Spanned<Value>, Spanned<Value>)>) -> (m: Mapping)
        ensures
            m@ == collect_model(entries_model(entries@)),
    {
        let ghost all = entries@;
        let mut m = Mapping::new();
        for e in it: entries
            invariant
                it.seq() == all,
                m@ == collect_model(entries_model(all).take(it.index() as int)),
        {
            let ghost i = it.index() as int;
            proof {
                lemma_entries_take(all, i + 1);
                lemma_entries_take(all, i);
                assert(entries_model(all).take(i + 1).drop_last() =~= entries_model(all).take(i));
            }
            let (k, v) = e;
            m.insert(k, v);
        }
        proof {
            assert(entries_model(all).take(all.len() as int) =~= entries_model(all));
        }
        m
    }
}

} // verus!

verus! {

/// Calls `Vec::capacity`: the number of entries the vector holds room for, which is never less
/// than its length. Nothing more is claimed, since the allocator decides it.
#[verifier::external_body]
fn vec_capacity<T>(v: &Vec<T>) -> (r: usize)
    ensures
        r >= v@.len(),
{
    v.capacity()
}

/// Calls `Vec::shrink_to_fit`, which gives back spare room and leaves the elements as they are.
#[verifier::external_body]
fn vec_shrink_to_fit<T>(v: &mut Vec<T>)
    ensures
        final(v)@ == old(v)@,
{
    v.shrink_to_fit();
}

impl Default for Mapping {
    fn default() -> (m: Mapping)
        ensures
            m@ == Seq::<EntryModel>::empty(),
    {
        Mapping::new()
    }
}

impl Mapping {
    /// The number of entries the map holds room for without growing; never less than its
    /// length.
    pub fn capacity(&self) -> (r: usize)
        ensures
            r >= self@.len(),
    {
        vec_capacity(&self.0)
    }

    /// Gives back spare room; the entries do not change.
    pub fn shrink_to_fit(&mut self)
        ensures
            final(self)@ == old(self)@,
    {
        vec_shrink_to_fit(&mut self.0);
    }

    /// Inserts the pairs in order (see [`Mapping::insert`]).
    pub fn extend(&mut self, entries: Vec<(Spanned<Value>, Spanned<Value>)>)
        ensures
            final(self)@ == extend_model(old(self)@, entries_model(entries@)),
    {
        let ghost all = entries_model(entries@);
        let ghost start = self@;
        for e in it: entries
            invariant
                entries_model(it.seq()) == all,
                self@ == extend_model(start, all.take(it.index() as int)),
        {
            let ghost i = it.index() as int;
            proof {
                assert(all.take(i + 1).drop_last() =~= all.take(i));
                assert(all[i] == (spanned_model(e.0), spanned_model(e.1)));
            }
            let (k, v) = e;
            self.insert(k, v);
        }
        proof {
            assert(all.take(all.len() as int) =~= all);
        }
    }

    /// The entries in order.
    pub fn into_entries(self) -> (r: Vec<(Spanned<Value>, Spanned<Value>)>)
        ensures
            entries_model(r@) == self@,
    {
        self.0
    }
}

/// Inserting the pairs, in order, into the entries `e`.
pub open spec fn extend_model(e: Seq<EntryModel>, pairs: Seq<EntryModel>) -> Seq<EntryModel>
    decreases pairs.len(),
{
    if pairs.len() == 0 {
        e
    } else {
        insert_model(extend_model(e, pairs.drop_last()), pairs.last().0, pairs.last().1)
    }
}

} // verus!
