//! Merging `<<` keys into the surrounding mapping, as described in
//! <https://yaml.org/type/merge.html>.
use crate::error::MergeError;
use crate::mapping::{insert_if_absent_model, EntryModel, Mapping};
use crate::spanned::Spanned;
use crate::tag::TaggedValue;
use crate::text::chars_equal;
use crate::value::{find_key, lemma_find_key_bounds, lemma_find_key_first, value_eq, entries_model, items_model, lemma_mapping_model, lemma_sequence_model, spanned_model, Value, ValueModel};
use vstd::prelude::*;

verus! {

/// The merge key `<<`.
pub open spec fn merge_key() -> ValueModel {
    ValueModel::String(seq!['<', '<'])
}

/// The first index of `e` from `from` on whose key is the merge key.
pub open spec fn find_merge_key(e: Seq<EntryModel>, from: int) -> Option<int>
    decreases e.len() - from,
{
    if from < 0 || from >= e.len() {
        None
    } else if e[from].0.inner == merge_key() {
        Some(from)
    } else {
        find_merge_key(e, from + 1)
    }
}

/// Removing entry `j` by moving the last entry into its place.
pub open spec fn swap_remove_model<A>(e: Seq<A>, j: int) -> Seq<A> {
    e.update(j, e.last()).drop_last()
}

/// Inserting the entries of `src`, in order, wherever their keys are not there yet.
pub open spec fn merge_entries_model(e: Seq<EntryModel>, src: Seq<EntryModel>) -> Seq<EntryModel>
    decreases src.len(),
{
    if src.len() == 0 {
        e
    } else {
        insert_if_absent_model(merge_entries_model(e, src.drop_last()), src.last().0, src.last().1)
    }
}

/// Merging the elements of a merge sequence from index `t` on: each must be a mapping, whose
/// entries are merged in; any other element stops the merge with its error.
pub open spec fn merge_sequence_model(e: Seq<EntryModel>, items: Seq<Spanned<ValueModel>>, t: int) -> (Seq<EntryModel>, Option<MergeError>)
    decreases items.len() - t,
{
    if t < 0 || t >= items.len() {
        (e, None)
    } else {
        match items[t].inner {
            ValueModel::Mapping(m) => merge_sequence_model(merge_entries_model(e, m), items, t + 1),
            ValueModel::Sequence(_) => (e, Some(MergeError::SequenceInMergeElement)),
            ValueModel::Tagged(_, _) => (e, Some(MergeError::TaggedInMerge)),
            _ => (e, Some(MergeError::ScalarInMergeElement)),
        }
    }
}

/// Merging the `<<` key of a mapping's entries: it is removed (the last entry takes its place);
/// a mapping under it is merged in, a sequence of mappings is merged in element by element, and
/// anything else is an error.
pub open spec fn merge_keys_model(e: Seq<EntryModel>) -> (Seq<EntryModel>, Option<MergeError>) {
    match find_merge_key(e, 0) {
        None => (e, None),
        Some(j) => {
            let rest = swap_remove_model(e, j);
            match e[j].1.inner {
                ValueModel::Mapping(m) => (merge_entries_model(rest, m), None),
                ValueModel::Sequence(items) => merge_sequence_model(rest, items, 0),
                ValueModel::Tagged(_, _) => (rest, Some(MergeError::TaggedInMerge)),
                _ => (rest, Some(MergeError::ScalarInMergeElement)),
            }
        },
    }
}

/// The nesting depth of a value: scalars have depth 0, a container one more than its deepest
/// element (mapping keys do not count).
pub open spec fn depth(v: ValueModel) -> nat
    decreases v, 0nat,
{
    match v {
        ValueModel::Sequence(items) => 1 + items_depth(items, items.len() as int),
        ValueModel::Mapping(e) => 1 + values_depth(e, e.len() as int),
        ValueModel::Tagged(_, b) => 1 + depth(b.inner),
        _ => 0,
    }
}

/// The greatest depth among the first `k` items.
pub open spec fn items_depth(items: Seq<Spanned<ValueModel>>, k: int) -> nat
    decreases items, k,
{
    if k <= 0 || k > items.len() {
        0
    } else {
        let d = depth(items[k - 1].inner);
        let rest = items_depth(items, k - 1);
        if d > rest {
            d
        } else {
            rest
        }
    }
}

/// The greatest depth among the values of the first `k` entries.
pub open spec fn values_depth(e: Seq<EntryModel>, k: int) -> nat
    decreases e, k,
{
    if k <= 0 || k > e.len() {
        0
    } else {
        let d = depth(e[k - 1].1.inner);
        let rest = values_depth(e, k - 1);
        if d > rest {
            d
        } else {
            rest
        }
    }
}

/// Merging a value and everything below it, depth first: at a mapping the `<<` key is merged
/// first, then its values are merged from the last to the first; the items of a sequence from
/// the last to the first; the value under a tag. The first error stops everything, leaving what
/// was merged so far. `fuel` bounds the depth that is visited.
pub open spec fn merge_value(v: ValueModel, fuel: nat) -> (ValueModel, Option<MergeError>)
    decreases fuel, 0int,
{
    if fuel == 0 {
        (v, None)
    } else {
        match v {
            ValueModel::Mapping(e) => {
                let (e1, err) = merge_keys_model(e);
                match err {
                    Some(x) => (ValueModel::Mapping(e1), Some(x)),
                    None => {
                        let (e2, err2) = merge_values_model(e1, e1.len() as int, (fuel - 1) as nat);
                        (ValueModel::Mapping(e2), err2)
                    },
                }
            },
            ValueModel::Sequence(items) => {
                let (i2, err) = merge_items_model(items, items.len() as int, (fuel - 1) as nat);
                (ValueModel::Sequence(i2), err)
            },
            ValueModel::Tagged(t, b) => {
                let (w, err) = merge_value(b.inner, (fuel - 1) as nat);
                (ValueModel::Tagged(t, Box::new(Spanned { span: b.span, inner: w })), err)
            },
            _ => (v, None),
        }
    }
}

/// Merging the values of the first `k` entries, from the last to the first.
pub open spec fn merge_values_model(e: Seq<EntryModel>, k: int, fuel: nat) -> (Seq<EntryModel>, Option<MergeError>)
    decreases fuel, k + 1,
{
    if k <= 0 || k > e.len() {
        (e, None)
    } else {
        let (w, err) = merge_value(e[k - 1].1.inner, fuel);
        let e1 = e.update(k - 1, (e[k - 1].0, Spanned { span: e[k - 1].1.span, inner: w }));
        match err {
            Some(x) => (e1, Some(x)),
            None => merge_values_model(e1, k - 1, fuel),
        }
    }
}

/// Merging the first `k` items of a sequence, from the last to the first.
pub open spec fn merge_items_model(items: Seq<Spanned<ValueModel>>, k: int, fuel: nat) -> (Seq<Spanned<ValueModel>>, Option<MergeError>)
    decreases fuel, k + 1,
{
    if k <= 0 || k > items.len() {
        (items, None)
    } else {
        let (w, err) = merge_value(items[k - 1].inner, fuel);
        let i1 = items.update(k - 1, Spanned { span: items[k - 1].span, inner: w });
        match err {
            Some(x) => (i1, Some(x)),
            None => merge_items_model(i1, k - 1, fuel),
        }
    }
}

/// Merging a whole value: [`merge_value`] with its depth as the bound.
pub open spec fn merged(v: ValueModel) -> (ValueModel, Option<MergeError>) {
    merge_value(v, depth(v))
}

} // verus!

verus! {

/// The error of a merge outcome.
pub open spec fn merge_outcome(r: Result<(), MergeError>) -> Option<MergeError> {
    match r {
        Ok(_) => None,
        Err(e) => Some(e),
    }
}

/// Whether a value is the merge key `<<`.
fn is_merge_key(v: &Value) -> (r: bool)
    ensures
        r == (v@ == merge_key()),
{
    match v {
        Value::String(s) => {
            let c = crate::text::chars_of(s.as_str());
            let k = vec!['<', '<'];
            assert(k@ =~= seq!['<', '<']);
            chars_equal(&c, &k)
        },
        _ => false,
    }
}

/// The position of the merge key in a mapping (see [`find_merge_key`]).
fn merge_key_position(m: &Mapping) -> (r: Option<usize>)
    ensures
        r matches Some(j) ==> find_merge_key(m@, 0) == Some(j as int),
        r is None ==> find_merge_key(m@, 0) is None,
{
    let mut j: usize = 0;
    while j < m.0.len()
        invariant
            j <= m.0@.len(),
            find_merge_key(m@, 0) == find_merge_key(m@, j as int),
        decreases m.0.len() - j,
    {
        if is_merge_key(&m.0[j].0.inner) {
            return Some(j);
        }
        j = j + 1;
    }
    None
}

/// Merges the entries of `src` into `m` (see [`merge_entries_model`]).
fn merge_entries(m: &mut Mapping, src: Mapping)
    ensures
        final(m)@ == merge_entries_model(old(m)@, src@),
{
    let ghost all = src@;
    let ghost start = m@;
    proof {
        assert(all.take(0) =~= Seq::<EntryModel>::empty());
    }
    for e in it: src.0
        invariant
            entries_model(it.seq()) == all,
            m@ == merge_entries_model(start, all.take(it.index() as int)),
    {
        let ghost i = it.index() as int;
        proof {
            assert(all.take(i + 1).drop_last() =~= all.take(i));
            assert(all[i] == (spanned_model(e.0), spanned_model(e.1)));
        }
        let (k, v) = e;
        m.insert_if_absent(k, v);
    }
    proof {
        assert(all.take(all.len() as int) =~= all);
    }
}

/// Merges the elements of a merge sequence into `m` (see [`merge_sequence_model`]).
fn merge_sequence(m: &mut Mapping, items: Vec<Spanned<Value>>) -> (r: Result<(), MergeError>)
    ensures
        (final(m)@, merge_outcome(r)) == merge_sequence_model(old(m)@, items_model(items@), 0),
{
    let ghost all = items_model(items@);
    let ghost total = merge_sequence_model(m@, all, 0);
    for item in it: items
        invariant
            items_model(it.seq()) == all,
            all == items_model(items@),
            total == merge_sequence_model(old(m)@, all, 0),
            total == merge_sequence_model(m@, all, it.index() as int),
    {
        let ghost i = it.index() as int;
        proof {
            assert(all[i] == spanned_model(item));
            assert(0 <= i < all.len());
        }
        match item.inner {
            Value::Mapping(src) => {
                proof {
                    lemma_mapping_model(src);
                }
                merge_entries(m, src);
            },
            Value::Sequence(s) => {
                proof {
                    lemma_sequence_model(s);
                    assert(all[i].inner is Sequence);
                    assert(merge_sequence_model(m@, all, i) == (m@, Some(MergeError::SequenceInMergeElement)));
                }
                return Err(MergeError::SequenceInMergeElement);
            },
            Value::Tagged(t) => {
                proof {
                    assert(all[i].inner is Tagged);
                    assert(merge_sequence_model(m@, all, i) == (m@, Some(MergeError::TaggedInMerge)));
                }
                return Err(MergeError::TaggedInMerge);
            },
            other => {
                proof {
                    assert(!(all[i].inner is Mapping) && !(all[i].inner is Sequence) && !(all[i].inner is Tagged));
                    assert(merge_sequence_model(m@, all, i) == (m@, Some(MergeError::ScalarInMergeElement)));
                }
                return Err(MergeError::ScalarInMergeElement);
            },
        }
    }
    Ok(())
}

/// Merges the `<<` key of `m` (see [`merge_keys_model`]).
fn merge_keys(m: &mut Mapping) -> (r: Result<(), MergeError>)
    ensures
        (final(m)@, merge_outcome(r)) == merge_keys_model(old(m)@),
{
    match merge_key_position(m) {
        None => Ok(()),
        Some(j) => {
            proof {
                lemma_find_merge_key_bounds(m@, 0);
                crate::mapping::lemma_entries_swap_remove(m.0@, j as int);
            }
            let (_key, value) = m.0.swap_remove(j);
            match value.inner {
                Value::Mapping(src) => {
                    proof {
                        lemma_mapping_model(src);
                    }
                    merge_entries(m, src);
                    Ok(())
                },
                Value::Sequence(items) => {
                    proof {
                        lemma_sequence_model(items);
                    }
                    merge_sequence(m, items)
                },
                Value::Tagged(_) => Err(MergeError::TaggedInMerge),
                _ => Err(MergeError::ScalarInMergeElement),
            }
        },
    }
}

/// What [`find_merge_key`] finds is an index at or after `from`.
proof fn lemma_find_merge_key_bounds(e: Seq<EntryModel>, from: int)
    ensures
        find_merge_key(e, from) matches Some(j) ==> 0 <= from <= j < e.len() && e[j].0.inner == merge_key(),
    decreases e.len() - from,
{
    if 0 <= from < e.len() && e[from].0.inner != merge_key() {
        lemma_find_merge_key_bounds(e, from + 1);
    }
}

} // verus!

verus! {

/// Every value of the entries has depth at most `d`.
pub open spec fn values_within(e: Seq<EntryModel>, d: nat) -> bool {
    forall|i: int| 0 <= i < e.len() ==> depth(#[trigger] e[i].1.inner) <= d
}

/// Every item has depth at most `d`.
pub open spec fn items_within(items: Seq<Spanned<ValueModel>>, d: nat) -> bool {
    forall|i: int| 0 <= i < items.len() ==> depth(#[trigger] items[i].inner) <= d
}

/// No value among the first `k` entries is deeper than [`values_depth`] says.
pub proof fn lemma_values_depth(e: Seq<EntryModel>, k: int)
    requires
        0 <= k <= e.len(),
    ensures
        forall|i: int| 0 <= i < k ==> depth(#[trigger] e[i].1.inner) <= values_depth(e, k),
    decreases k,
{
    if k > 0 {
        lemma_values_depth(e, k - 1);
    }
}

/// No item among the first `k` is deeper than [`items_depth`] says.
pub proof fn lemma_items_depth(items: Seq<Spanned<ValueModel>>, k: int)
    requires
        0 <= k <= items.len(),
    ensures
        forall|i: int| 0 <= i < k ==> depth(#[trigger] items[i].inner) <= items_depth(items, k),
    decreases k,
{
    if k > 0 {
        lemma_items_depth(items, k - 1);
    }
}

/// The values of a mapping are shallower than the mapping.
pub proof fn lemma_mapping_within(e: Seq<EntryModel>, d: nat)
    requires
        depth(ValueModel::Mapping(e)) <= d + 1,
    ensures
        values_within(e, d),
{
    lemma_values_depth(e, e.len() as int);
}

/// The items of a sequence are shallower than the sequence.
pub proof fn lemma_sequence_within(items: Seq<Spanned<ValueModel>>, d: nat)
    requires
        depth(ValueModel::Sequence(items)) <= d + 1,
    ensures
        items_within(items, d),
{
    lemma_items_depth(items, items.len() as int);
}

proof fn lemma_merge_entries_within(e: Seq<EntryModel>, src: Seq<EntryModel>, d: nat)
    requires
        values_within(e, d),
        values_within(src, d),
    ensures
        values_within(merge_entries_model(e, src), d),
    decreases src.len(),
{
    if src.len() > 0 {
        let s2 = src.drop_last();
        assert forall|i: int| 0 <= i < s2.len() implies depth(#[trigger] s2[i].1.inner) <= d by {
            assert(s2[i] == src[i]);
        }
        lemma_merge_entries_within(e, s2, d);
        assert(depth(src.last().1.inner) <= d) by {
            assert(src.last() == src[src.len() - 1]);
        }
    }
}

proof fn lemma_merge_sequence_within(e: Seq<EntryModel>, items: Seq<Spanned<ValueModel>>, t: int, d: nat)
    requires
        values_within(e, d),
        items_within(items, d + 1),
    ensures
        values_within(merge_sequence_model(e, items, t).0, d),
    decreases items.len() - t,
{
    if 0 <= t < items.len() {
        assert(depth(items[t].inner) <= d + 1);
        if let ValueModel::Mapping(m) = items[t].inner {
            lemma_mapping_within(m, d);
            lemma_merge_entries_within(e, m, d);
            lemma_merge_sequence_within(merge_entries_model(e, m), items, t + 1, d);
        }
    }
}

proof fn lemma_merge_keys_within(e: Seq<EntryModel>, d: nat)
    requires
        values_within(e, d),
    ensures
        values_within(merge_keys_model(e).0, d),
{
    lemma_find_merge_key_bounds(e, 0);
    if let Some(j) = find_merge_key(e, 0) {
        let rest = swap_remove_model(e, j);
        assert(values_within(rest, d)) by {
            assert forall|i: int| 0 <= i < rest.len() implies depth(#[trigger] rest[i].1.inner) <= d by {
                if i == j {
                    assert(rest[i] == e[e.len() - 1]);
                } else {
                    assert(rest[i] == e[i]);
                }
            }
        }
        assert(depth(e[j].1.inner) <= d);
        match e[j].1.inner {
            ValueModel::Mapping(m) => {
                if d > 0 {
                    lemma_mapping_within(m, (d - 1) as nat);
                }
                assert(values_within(m, d)) by {
                    lemma_values_depth(m, m.len() as int);
                }
                lemma_merge_entries_within(rest, m, d);
            },
            ValueModel::Sequence(items) => {
                assert(items_within(items, d + 1)) by {
                    lemma_items_depth(items, items.len() as int);
                }
                lemma_merge_sequence_within(rest, items, 0, d);
            },
            _ => {},
        }
    }
}

/// Merges the values of the first `k` entries of `m`, from the last to the first (see
/// [`merge_values_model`]).
#[verifier::loop_isolation(false)]
fn merge_values(m: &mut Mapping, Ghost(fuel): Ghost<nat>) -> (r: Result<(), MergeError>)
    requires
        values_within(old(m)@, fuel),
    ensures
        (final(m)@, merge_outcome(r)) == merge_values_model(old(m)@, old(m)@.len() as int, fuel),
    decreases 2 * fuel + 1,
{
    let ghost total = merge_values_model(m@, m@.len() as int, fuel);
    let mut k = m.0.len();
    while k > 0
        invariant
            k <= m.0@.len(),
            total == merge_values_model(m@, k as int, fuel),
            forall|i: int| 0 <= i < k ==> depth(#[trigger] m@[i].1.inner) <= fuel,
        decreases k,
    {
        let ghost before = m.0@;
        let ghost e = m@;
        assert(depth(e[k - 1].1.inner) <= fuel);
        let mut v = Value::Null;
        std::mem::swap(&mut m.0[k - 1].1.inner, &mut v);
        let (w, r) = merge_owned(v, Ghost(fuel));
        let mut w = w;
        std::mem::swap(&mut m.0[k - 1].1.inner, &mut w);
        proof {
            assert(m.0@ == before.update(k - 1, (before[k - 1].0, Spanned { span: before[k - 1].1.span, inner: m.0@[k - 1].1.inner })));
            crate::mapping::lemma_entries_update(before, k - 1, m.0@[k - 1]);
            assert(m@ == e.update(k - 1, (e[k - 1].0, Spanned { span: e[k - 1].1.span, inner: m.0@[k - 1].1.inner@ })));
            assert forall|i: int| 0 <= i < k - 1 implies depth(#[trigger] m@[i].1.inner) <= fuel by {
                assert(m@[i] == e[i]);
            }
        }
        match r {
            Err(x) => {
                return Err(x);
            },
            Ok(()) => {},
        }
        k = k - 1;
    }
    Ok(())
}

/// Merges the first `k` items of a sequence, from the last to the first (see
/// [`merge_items_model`]).
#[verifier::loop_isolation(false)]
fn merge_items(items: &mut Vec<Spanned<Value>>, Ghost(fuel): Ghost<nat>) -> (r: Result<(), MergeError>)
    requires
        items_within(items_model(old(items)@), fuel),
    ensures
        (items_model(final(items)@), merge_outcome(r)) == merge_items_model(items_model(old(items)@), old(items)@.len() as int, fuel),
    decreases 2 * fuel + 1,
{
    let ghost total = merge_items_model(items_model(items@), items@.len() as int, fuel);
    let mut k = items.len();
    while k > 0
        invariant
            k <= items@.len(),
            total == merge_items_model(items_model(items@), k as int, fuel),
            forall|i: int| 0 <= i < k ==> depth(#[trigger] items_model(items@)[i].inner) <= fuel,
        decreases k,
    {
        let ghost before = items@;
        let ghost e = items_model(items@);
        assert(depth(e[k - 1].inner) <= fuel);
        let mut v = Value::Null;
        std::mem::swap(&mut items[k - 1].inner, &mut v);
        let (w, r) = merge_owned(v, Ghost(fuel));
        let mut w = w;
        std::mem::swap(&mut items[k - 1].inner, &mut w);
        proof {
            assert(items@ == before.update(k - 1, Spanned { span: before[k - 1].span, inner: items@[k - 1].inner }));
            assert(items_model(items@) =~= e.update(k - 1, Spanned { span: e[k - 1].span, inner: items@[k - 1].inner@ }));
            assert forall|i: int| 0 <= i < k - 1 implies depth(#[trigger] items_model(items@)[i].inner) <= fuel by {
                assert(items_model(items@)[i] == e[i]);
            }
        }
        match r {
            Err(x) => {
                return Err(x);
            },
            Ok(()) => {},
        }
        k = k - 1;
    }
    Ok(())
}

/// Merges a value and everything below it (see [`merge_value`]).
fn merge_owned(v: Value, Ghost(fuel): Ghost<nat>) -> (r: (Value, Result<(), MergeError>))
    requires
        depth(v@) <= fuel,
    ensures
        (r.0@, merge_outcome(r.1)) == merge_value(v@, fuel),
    decreases 2 * fuel,
{
    let ghost vm = v@;
    match v {
        Value::Mapping(m) => {
            let mut m = m;
            proof {
                lemma_mapping_model(m);
                lemma_mapping_within(m@, (fuel - 1) as nat);
            }
            let ghost e0 = m@;
            match merge_keys(&mut m) {
                Err(x) => {
                    proof {
                        lemma_mapping_model(m);
                    }
                    return (Value::Mapping(m), Err(x));
                },
                Ok(()) => {},
            }
            proof {
                lemma_merge_keys_within(e0, (fuel - 1) as nat);
            }
            let r = merge_values(&mut m, Ghost((fuel - 1) as nat));
            proof {
                lemma_mapping_model(m);
            }
            (Value::Mapping(m), r)
        },
        Value::Sequence(items) => {
            let mut items = items;
            proof {
                lemma_sequence_model(items);
                lemma_sequence_within(items_model(items@), (fuel - 1) as nat);
            }
            let r = merge_items(&mut items, Ghost((fuel - 1) as nat));
            proof {
                lemma_sequence_model(items);
            }
            (Value::Sequence(items), r)
        },
        Value::Tagged(b) => {
            let TaggedValue { tag, value } = *b;
            let Spanned { span, inner } = value;
            let (w, r) = merge_owned(inner, Ghost((fuel - 1) as nat));
            (Value::Tagged(Box::new(TaggedValue { tag, value: Spanned { span, inner: w } })), r)
        },
        other => (other, Ok(())),
    }
}

impl Value {
    /// Merges `<<` keys into the surrounding mappings, everywhere in the value (see [`merged`]).
    /// On an error, what was merged before it stays merged.
    pub fn apply_merge(&mut self) -> (r: Result<(), MergeError>)
        ensures
            (final(self)@, merge_outcome(r)) == merged(old(self)@),
    {
        let mut v = Value::Null;
        std::mem::swap(self, &mut v);
        let ghost d = depth(v@);
        let (w, r) = merge_owned(v, Ghost(d));
        *self = w;
        r
    }
}

} // verus!

verus! {

/// What a `<<` key may hold for merging to take it whole and leave no `<<` key behind: a
/// mapping, or a sequence of mappings, with no `<<` key anywhere in them.
pub open spec fn clean_source(v: ValueModel) -> bool {
    match v {
        ValueModel::Mapping(_) => no_merge_keys(v),
        ValueModel::Sequence(items) => forall|i: int|
            0 <= i < items.len() ==> (#[trigger] items[i].inner) is Mapping && no_merge_keys(items[i].inner),
        _ => false,
    }
}

/// No mapping in the value, at any depth and under tags too, has a `<<` key.
pub open spec fn no_merge_keys(v: ValueModel) -> bool
    decreases v,
{
    match v {
        ValueModel::Sequence(xs) => forall|i: int| 0 <= i < xs.len() ==> no_merge_keys(#[trigger] xs[i].inner),
        ValueModel::Mapping(xs) => find_merge_key(xs, 0) is None && forall|i: int|
            0 <= i < xs.len() ==> no_merge_keys(#[trigger] xs[i].1.inner),
        ValueModel::Tagged(_, b) => no_merge_keys(b.inner),
        _ => true,
    }
}

/// Every mapping in the value, at any depth and under tags too, has at most one `<<` key, and
/// what that key holds is a [`clean_source`].
pub open spec fn mergeable(v: ValueModel) -> bool
    decreases v,
{
    match v {
        ValueModel::Sequence(xs) => forall|i: int| 0 <= i < xs.len() ==> mergeable(#[trigger] xs[i].inner),
        ValueModel::Mapping(e) => (match find_merge_key(e, 0) {
            Some(j) => find_merge_key(e, j + 1) is None && clean_source(e[j].1.inner),
            None => true,
        }) && forall|i: int| 0 <= i < e.len() ==> mergeable(#[trigger] e[i].1.inner),
        ValueModel::Tagged(_, b) => mergeable(b.inner),
        _ => true,
    }
}

/// No key of the entries is `<<`, and every value is mergeable and of depth at most `d`.
pub open spec fn entries_ready(e: Seq<EntryModel>, d: nat) -> bool {
    forall|i: int|
        0 <= i < e.len() ==> (#[trigger] e[i]).0.inner != merge_key() && mergeable(e[i].1.inner) && depth(e[i].1.inner) <= d
}

proof fn lemma_find_merge_key_none(e: Seq<EntryModel>, from: int)
    requires
        0 <= from,
        forall|t: int| from <= t < e.len() ==> (#[trigger] e[t]).0.inner != merge_key(),
    ensures
        find_merge_key(e, from) is None,
    decreases e.len() - from,
{
    if from < e.len() {
        lemma_find_merge_key_none(e, from + 1);
    }
}

proof fn lemma_find_merge_key_first(e: Seq<EntryModel>, from: int, t: int)
    requires
        0 <= from <= t < e.len(),
        find_merge_key(e, from) matches Some(j) && t < j || find_merge_key(e, from) is None,
    ensures
        e[t].0.inner != merge_key(),
    decreases t - from,
{
    if from < t {
        if e[from].0.inner != merge_key() {
            lemma_find_merge_key_first(e, from + 1, t);
        }
    }
}

/// A value with no `<<` key is mergeable.
proof fn lemma_clean_is_mergeable(v: ValueModel)
    requires
        no_merge_keys(v),
    ensures
        mergeable(v),
    decreases v,
{
    match v {
        ValueModel::Sequence(xs) => {
            assert forall|i: int| 0 <= i < xs.len() implies mergeable(#[trigger] xs[i].inner) by {
                lemma_clean_is_mergeable(xs[i].inner);
            }
        },
        ValueModel::Mapping(e) => {
            assert forall|i: int| 0 <= i < e.len() implies mergeable(#[trigger] e[i].1.inner) by {
                lemma_clean_is_mergeable(e[i].1.inner);
            }
        },
        ValueModel::Tagged(_, b) => {
            lemma_clean_is_mergeable(b.inner);
        },
        _ => {},
    }
}

/// Merging the entries of a mapping with no `<<` key and clean values into ready entries keeps
/// them ready.
proof fn lemma_merge_entries_ready(e: Seq<EntryModel>, src: Seq<EntryModel>, d: nat)
    requires
        entries_ready(e, d),
        find_merge_key(src, 0) is None,
        forall|i: int| 0 <= i < src.len() ==> no_merge_keys(#[trigger] src[i].1.inner) && depth(src[i].1.inner) <= d,
    ensures
        entries_ready(merge_entries_model(e, src), d),
    decreases src.len(),
{
    if src.len() > 0 {
        let s2 = src.drop_last();
        assert forall|t: int| 0 <= t < s2.len() implies (#[trigger] s2[t]).0.inner != merge_key() by {
            assert(s2[t] == src[t]);
            lemma_find_merge_key_first(src, 0, t);
        }
        lemma_find_merge_key_none(s2, 0);
        assert forall|i: int| 0 <= i < s2.len() implies no_merge_keys(#[trigger] s2[i].1.inner) && depth(s2[i].1.inner) <= d by {
            assert(s2[i] == src[i]);
        }
        lemma_merge_entries_ready(e, s2, d);
        let last = src.last();
        assert(last == src[src.len() - 1]);
        lemma_find_merge_key_first(src, 0, src.len() - 1);
        lemma_clean_is_mergeable(last.1.inner);
        let m = merge_entries_model(e, s2);
        let m2 = merge_entries_model(e, src);
        assert forall|i: int| 0 <= i < m2.len() implies (#[trigger] m2[i]).0.inner != merge_key() && mergeable(m2[i].1.inner)
            && depth(m2[i].1.inner) <= d by {
            if i < m.len() {
                assert(m2[i] == m[i]);
            }
        }
    }
}

proof fn lemma_merge_sequence_ready(e: Seq<EntryModel>, items: Seq<Spanned<ValueModel>>, t: int, d: nat)
    requires
        0 <= t,
        entries_ready(e, d),
        forall|i: int|
            0 <= i < items.len() ==> (#[trigger] items[i].inner) is Mapping && no_merge_keys(items[i].inner) && depth(
                items[i].inner,
            ) <= d + 1,
    ensures
        merge_sequence_model(e, items, t).1 is None,
        entries_ready(merge_sequence_model(e, items, t).0, d),
    decreases items.len() - t,
{
    if t < items.len() {
        assert(items[t].inner is Mapping && no_merge_keys(items[t].inner) && depth(items[t].inner) <= d + 1);
        if let ValueModel::Mapping(m) = items[t].inner {
            lemma_mapping_within(m, d);
            lemma_merge_entries_ready(e, m, d);
            lemma_merge_sequence_ready(merge_entries_model(e, m), items, t + 1, d);
        }
    }
}

/// Merging the `<<` key of a mergeable mapping succeeds and leaves ready entries.
proof fn lemma_merge_keys_ready(e: Seq<EntryModel>, d: nat)
    requires
        mergeable(ValueModel::Mapping(e)),
        values_within(e, d),
    ensures
        merge_keys_model(e).1 is None,
        entries_ready(merge_keys_model(e).0, d),
{
    lemma_find_merge_key_bounds(e, 0);
    match find_merge_key(e, 0) {
        None => {
            assert forall|i: int| 0 <= i < e.len() implies (#[trigger] e[i]).0.inner != merge_key() && mergeable(e[i].1.inner)
                && depth(e[i].1.inner) <= d by {
                lemma_find_merge_key_first(e, 0, i);
            }
        },
        Some(j) => {
            let rest = swap_remove_model(e, j);
            assert forall|i: int| 0 <= i < e.len() && i != j implies (#[trigger] e[i]).0.inner != merge_key() by {
                if i < j {
                    lemma_find_merge_key_first(e, 0, i);
                } else {
                    lemma_find_merge_key_first(e, j + 1, i);
                }
            }
            assert(entries_ready(rest, d)) by {
                assert forall|i: int| 0 <= i < rest.len() implies (#[trigger] rest[i]).0.inner != merge_key() && mergeable(
                    rest[i].1.inner,
                ) && depth(rest[i].1.inner) <= d by {
                    if i == j {
                        assert(rest[i] == e[e.len() - 1]);
                        assert(e[e.len() - 1].0.inner != merge_key());
                    } else {
                        assert(rest[i] == e[i]);
                        assert(e[i].0.inner != merge_key());
                    }
                }
            }
            assert(depth(e[j].1.inner) <= d);
            assert(clean_source(e[j].1.inner));
            match e[j].1.inner {
                ValueModel::Mapping(m) => {
                    if d > 0 {
                        lemma_mapping_within(m, (d - 1) as nat);
                    }
                    lemma_values_depth(m, m.len() as int);
                    lemma_merge_entries_ready(rest, m, d);
                },
                ValueModel::Sequence(items) => {
                    lemma_items_depth(items, items.len() as int);
                    lemma_merge_sequence_ready(rest, items, 0, d);
                },
                _ => {},
            }
        },
    }
}

proof fn lemma_merge_value_clean(v: ValueModel, fuel: nat)
    requires
        mergeable(v),
        depth(v) <= fuel,
    ensures
        merge_value(v, fuel).1 is None,
        no_merge_keys(merge_value(v, fuel).0),
    decreases fuel, 0int,
{
    if fuel > 0 {
        match v {
            ValueModel::Mapping(e) => {
                lemma_mapping_within(e, (fuel - 1) as nat);
                lemma_merge_keys_ready(e, (fuel - 1) as nat);
                let e1 = merge_keys_model(e).0;
                lemma_merge_values_clean(e1, e1.len() as int, (fuel - 1) as nat);
                let e2 = merge_values_model(e1, e1.len() as int, (fuel - 1) as nat).0;
                assert forall|t: int| 0 <= t < e2.len() implies (#[trigger] e2[t]).0.inner != merge_key() by {
                    assert(e2[t].0 == e1[t].0);
                    assert(e1[t].0.inner != merge_key());
                }
                lemma_find_merge_key_none(e2, 0);
            },
            ValueModel::Sequence(items) => {
                lemma_sequence_within(items, (fuel - 1) as nat);
                lemma_merge_items_clean(items, items.len() as int, (fuel - 1) as nat);
            },
            ValueModel::Tagged(_, b) => {
                lemma_merge_value_clean(b.inner, (fuel - 1) as nat);
            },
            _ => {},
        }
    }
}

proof fn lemma_merge_values_clean(e: Seq<EntryModel>, k: int, fuel: nat)
    requires
        0 <= k <= e.len(),
        forall|i: int| 0 <= i < k ==> mergeable(#[trigger] e[i].1.inner) && depth(e[i].1.inner) <= fuel,
    ensures
        ({
            let (e2, err) = merge_values_model(e, k, fuel);
            &&& err is None
            &&& e2.len() == e.len()
            &&& forall|i: int| 0 <= i < e.len() ==> (#[trigger] e2[i]).0 == e[i].0
            &&& forall|i: int| 0 <= i < k ==> no_merge_keys(#[trigger] e2[i].1.inner)
            &&& forall|i: int| k <= i < e.len() ==> #[trigger] e2[i] == e[i]
        }),
    decreases fuel, k + 1,
{
    if k > 0 {
        assert(mergeable(e[k - 1].1.inner) && depth(e[k - 1].1.inner) <= fuel);
        lemma_merge_value_clean(e[k - 1].1.inner, fuel);
        let w = merge_value(e[k - 1].1.inner, fuel).0;
        let e1 = e.update(k - 1, (e[k - 1].0, Spanned { span: e[k - 1].1.span, inner: w }));
        assert forall|i: int| 0 <= i < k - 1 implies mergeable(#[trigger] e1[i].1.inner) && depth(e1[i].1.inner) <= fuel by {
            assert(e1[i] == e[i]);
        }
        lemma_merge_values_clean(e1, k - 1, fuel);
        let e2 = merge_values_model(e1, k - 1, fuel).0;
        assert(e2[k - 1] == e1[k - 1]);
        assert forall|i: int| 0 <= i < e.len() implies (#[trigger] e2[i]).0 == e[i].0 by {
            assert(e2[i].0 == e1[i].0);
        }
        assert forall|i: int| 0 <= i < k implies no_merge_keys(#[trigger] e2[i].1.inner) by {
            if i == k - 1 {
                assert(e2[i] == e1[k - 1]);
            }
        }
        assert forall|i: int| k <= i < e.len() implies #[trigger] e2[i] == e[i] by {
            assert(e2[i] == e1[i]);
        }
    }
}

proof fn lemma_merge_items_clean(items: Seq<Spanned<ValueModel>>, k: int, fuel: nat)
    requires
        0 <= k <= items.len(),
        forall|i: int| 0 <= i < k ==> mergeable(#[trigger] items[i].inner) && depth(items[i].inner) <= fuel,
    ensures
        ({
            let (i2, err) = merge_items_model(items, k, fuel);
            &&& err is None
            &&& i2.len() == items.len()
            &&& forall|i: int| 0 <= i < k ==> no_merge_keys(#[trigger] i2[i].inner)
            &&& forall|i: int| k <= i < items.len() ==> #[trigger] i2[i] == items[i]
        }),
    decreases fuel, k + 1,
{
    if k > 0 {
        assert(mergeable(items[k - 1].inner) && depth(items[k - 1].inner) <= fuel);
        lemma_merge_value_clean(items[k - 1].inner, fuel);
        let w = merge_value(items[k - 1].inner, fuel).0;
        let i1 = items.update(k - 1, Spanned { span: items[k - 1].span, inner: w });
        assert forall|i: int| 0 <= i < k - 1 implies mergeable(#[trigger] i1[i].inner) && depth(i1[i].inner) <= fuel by {
            assert(i1[i] == items[i]);
        }
        lemma_merge_items_clean(i1, k - 1, fuel);
        let i2 = merge_items_model(i1, k - 1, fuel).0;
        assert(i2[k - 1] == i1[k - 1]);
        assert forall|i: int| 0 <= i < k implies no_merge_keys(#[trigger] i2[i].inner) by {
            if i == k - 1 {
                assert(i2[i] == i1[k - 1]);
            }
        }
        assert forall|i: int| k <= i < items.len() implies #[trigger] i2[i] == items[i] by {
            assert(i2[i] == i1[i]);
        }
    }
}

/// Merging a value in which every mapping, at any depth and under tags too, has at most one
/// `<<` key holding a mapping or a sequence of mappings without `<<` keys succeeds, and leaves
/// no `<<` key anywhere.
pub proof fn law_merge_leaves_no_merge_keys(v: ValueModel)
    requires
        mergeable(v),
    ensures
        merged(v).1 is None,
        no_merge_keys(merged(v).0),
{
    lemma_merge_value_clean(v, depth(v));
}

proof fn lemma_find_key_push(e: Seq<EntryModel>, x: EntryModel, k: ValueModel, from: int)
    requires
        0 <= from,
        find_key(e, k, from) is Some,
    ensures
        find_key(e.push(x), k, from) == find_key(e, k, from),
    decreases e.len() - from,
{
    if from < e.len() && !value_eq(k, e[from].0.inner) {
        assert(e.push(x)[from] == e[from]);
        lemma_find_key_push(e, x, k, from + 1);
    } else if from < e.len() {
        assert(e.push(x)[from] == e[from]);
    }
}

proof fn lemma_find_key_none_at(e: Seq<EntryModel>, k: ValueModel, from: int, t: int)
    requires
        0 <= from <= t < e.len(),
        find_key(e, k, from) is None,
    ensures
        !value_eq(k, e[t].0.inner),
    decreases t - from,
{
    if from < t {
        lemma_find_key_none_at(e, k, from + 1, t);
    }
}

/// Merging entries in keeps every entry that was there, unchanged and in place, so a key that
/// is there wins over the merged one; after it, every key of the source that equals itself is
/// found.
pub proof fn law_merge_keeps_present_entries(e: Seq<EntryModel>, src: Seq<EntryModel>)
    ensures
        merge_entries_model(e, src).len() >= e.len(),
        merge_entries_model(e, src).len() <= e.len() + src.len(),
        merge_entries_model(e, src).take(e.len() as int) == e,
        forall|i: int|
            0 <= i < src.len() && value_eq(#[trigger] src[i].0.inner, src[i].0.inner) ==> find_key(
                merge_entries_model(e, src),
                src[i].0.inner,
                0,
            ) is Some,
    decreases src.len(),
{
    if src.len() == 0 {
        assert(e.take(e.len() as int) =~= e);
    } else {
        let s2 = src.drop_last();
        law_merge_keeps_present_entries(e, s2);
        let m = merge_entries_model(e, s2);
        let last = src.last();
        let m2 = merge_entries_model(e, src);
        lemma_find_key_bounds(m, last.0.inner, 0);
        match find_key(m, last.0.inner, 0) {
            Some(_) => {
                assert(m2 == m);
            },
            None => {
                assert(m2 == m.push(last));
                assert(m2.take(e.len() as int) =~= m.take(e.len() as int));
            },
        }
        assert forall|i: int|
            0 <= i < src.len() && value_eq(#[trigger] src[i].0.inner, src[i].0.inner) implies find_key(m2, src[i].0.inner, 0) is Some by {
            if i < src.len() - 1 {
                assert(s2[i] == src[i]);
                assert(find_key(m, s2[i].0.inner, 0) is Some);
                if m2 != m {
                    lemma_find_key_push(m, last, src[i].0.inner, 0);
                }
            } else {
                assert(src[i] == last);
                if m2 != m {
                    assert forall|t: int| 0 <= t < m.len() implies !value_eq(last.0.inner, #[trigger] m2[t].0.inner) by {
                        lemma_find_key_none_at(m, last.0.inner, 0, t);
                        assert(m2[t] == m[t]);
                    }
                    lemma_find_key_first(m2, last.0.inner, 0, m.len() as int);
                }
            }
        }
    }
}

} // verus!
