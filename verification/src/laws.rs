//! Properties that hold of every input: of mappings, equality, number parsing, tags, merging,
//! ordering, and values written and read through the data model of serialization.
use crate::mapping::{collect_model, insert_model, EntryModel};
use crate::merge::{find_merge_key, merge_items_model, merge_value, merge_values_model, merged, no_merge_keys};
use crate::number::{
    canonical_float, float_is_nan, leading_zero_digits, n_eq, parse_number_spec, NAN_BITS, N,
};
use crate::access::{clear_items, clear_model, clear_spanned, cleared, unspan_entries};
use crate::equivalence::{law_value_eq_symmetric, law_value_eq_transitive};
use crate::mapping::find_index;
use crate::merge::{depth, lemma_sequence_within};
use crate::spanned::{Span, Spanned};
use crate::value::{lemma_find_key_none, Value};
use crate::tag::{check_all, check_verdict, nobang};
use crate::de::{read_back, read_entries, read_items, variant_spec, visit_spec, Request, VariantRequest, VisitModel};
use crate::ser::{
    dummy_model, entry_step, key_step, map_end, newtype_variant_model, value_step, written, written_entries, written_items,
    MaybeTagModel, SerializeMapModel,
};
use crate::value::{find_key, lemma_find_key_bounds, lemma_find_key_first, value_eq, ValueModel};
use vstd::prelude::*;

verus! {

/// No key of the entries equals an earlier key.
pub open spec fn keys_distinct(e: Seq<EntryModel>) -> bool {
    forall|i: int, t: int| 0 <= t < i < e.len() ==> !value_eq(#[trigger] e[i].0.inner, #[trigger] e[t].0.inner)
}

/// Every mapping in the value, at any depth, has distinct keys.
pub open spec fn well_keyed(v: ValueModel) -> bool
    decreases v,
{
    match v {
        ValueModel::Sequence(xs) => forall|i: int| 0 <= i < xs.len() ==> well_keyed(#[trigger] xs[i].inner),
        ValueModel::Mapping(xs) => keys_distinct(xs) && forall|i: int|
            0 <= i < xs.len() ==> well_keyed(#[trigger] xs[i].0.inner) && well_keyed(xs[i].1.inner),
        ValueModel::Tagged(_, b) => well_keyed(b.inner),
        _ => true,
    }
}

/// Inserting into entries with distinct keys keeps them distinct.
pub proof fn law_insert_keeps_keys_distinct(e: Seq<EntryModel>, k: Spanned<ValueModel>, v: Spanned<ValueModel>)
    requires
        keys_distinct(e),
    ensures
        keys_distinct(insert_model(e, k, v)),
{
    lemma_find_key_bounds(e, k.inner, 0);
    match find_key(e, k.inner, 0) {
        Some(j) => {
            let e1 = insert_model(e, k, v);
            assert forall|i: int, t: int| 0 <= t < i < e1.len() implies !value_eq(#[trigger] e1[i].0.inner, #[trigger] e1[t].0.inner) by {
                assert(e1[i].0 == e[i].0);
                assert(e1[t].0 == e[t].0);
            }
        },
        None => {
            let e1 = insert_model(e, k, v);
            assert forall|i: int, t: int| 0 <= t < i < e1.len() implies !value_eq(#[trigger] e1[i].0.inner, #[trigger] e1[t].0.inner) by {
                if i == e.len() {
                    lemma_find_key_none_all(e, k.inner, 0, t);
                } else {
                    assert(e1[i] == e[i]);
                    assert(e1[t] == e[t]);
                }
            }
        },
    }
}

/// Where [`find_key`] finds nothing from `from` on, no key from there on equals `k`.
proof fn lemma_find_key_none_all(e: Seq<EntryModel>, k: ValueModel, from: int, t: int)
    requires
        0 <= from <= t < e.len(),
        find_key(e, k, from) is None,
    ensures
        !value_eq(k, e[t].0.inner),
    decreases t - from,
{
    if from < t {
        lemma_find_key_none_all(e, k, from + 1, t);
    }
}

/// A mapping built by inserting pairs one after the other never holds two equal keys, whatever
/// the pairs were: a repeated key replaces the value of the first.
pub proof fn law_collected_keys_distinct(pairs: Seq<EntryModel>)
    ensures
        keys_distinct(collect_model(pairs)),
    decreases pairs.len(),
{
    if pairs.len() > 0 {
        law_collected_keys_distinct(pairs.drop_last());
        law_insert_keeps_keys_distinct(collect_model(pairs.drop_last()), pairs.last().0, pairs.last().1);
    }
}

/// Updating the value of an entry does not change what a key lookup finds.
proof fn lemma_find_key_value_update(e: Seq<EntryModel>, k: ValueModel, j: int, v: Spanned<ValueModel>, from: int)
    requires
        0 <= j < e.len(),
    ensures
        find_key(e.update(j, (e[j].0, v)), k, from) == find_key(e, k, from),
    decreases e.len() - from,
{
    if 0 <= from < e.len() {
        assert(e.update(j, (e[j].0, v))[from].0 == e[from].0);
        lemma_find_key_value_update(e, k, j, v, from + 1);
    }
}

/// Looking a key up right after inserting it gives the inserted value, for any key that equals
/// itself (see [`law_value_eq_reflexive`]).
pub proof fn law_get_after_insert(e: Seq<EntryModel>, k: Spanned<ValueModel>, v: Spanned<ValueModel>)
    requires
        value_eq(k.inner, k.inner),
    ensures
        find_key(insert_model(e, k, v), k.inner, 0) matches Some(j) && insert_model(e, k, v)[j].1 == v,
{
    lemma_find_key_bounds(e, k.inner, 0);
    match find_key(e, k.inner, 0) {
        Some(j) => {
            lemma_find_key_value_update(e, k.inner, j, v, 0);
        },
        None => {
            let e1 = e.push((k, v));
            assert forall|t: int| 0 <= t < e.len() implies !value_eq(k.inner, #[trigger] e1[t].0.inner) by {
                lemma_find_key_none_all(e, k.inner, 0, t);
            }
            lemma_find_key_first(e1, k.inner, 0, e.len() as int);
        },
    }
}

/// Equality of numbers is reflexive; in particular NaN equals NaN.
pub proof fn law_number_eq_reflexive(n: N)
    ensures
        n_eq(n, n),
{
}

/// Every value whose mappings have distinct keys equals itself.
pub proof fn law_value_eq_reflexive(v: ValueModel)
    requires
        well_keyed(v),
    ensures
        value_eq(v, v),
    decreases v,
{
    match v {
        ValueModel::Number(n) => {
            law_number_eq_reflexive(n);
        },
        ValueModel::Sequence(xs) => {
            assert forall|i: int| 0 <= i < xs.len() implies value_eq(#[trigger] xs[i].inner, xs[i].inner) by {
                assert(well_keyed(xs[i].inner));
                law_value_eq_reflexive(xs[i].inner);
            }
        },
        ValueModel::Mapping(xs) => {
            assert forall|i: int| 0 <= i < xs.len() implies match find_key(xs, #[trigger] xs[i].0.inner, 0) {
                Some(j) => value_eq(xs[i].1.inner, xs[j].1.inner),
                None => false,
            } by {
                assert(well_keyed(xs[i].0.inner) && well_keyed(xs[i].1.inner));
                law_value_eq_reflexive(xs[i].0.inner);
                law_value_eq_reflexive(xs[i].1.inner);
                assert forall|t: int| 0 <= t < i implies !value_eq(xs[i].0.inner, #[trigger] xs[t].0.inner) by {
                    assert(!value_eq(xs[i].0.inner, xs[t].0.inner));
                }
                lemma_find_key_first(xs, xs[i].0.inner, 0, i);
            }
        },
        ValueModel::Tagged(_, b) => {
            law_value_eq_reflexive(b.inner);
        },
        _ => {},
    }
}

/// Leading zeros followed by digits make a string, never a number (YAML 1.2), whatever the
/// float reading of the text.
pub proof fn law_leading_zeros_not_a_number(s: Seq<char>, reading: Option<u64>)
    requires
        leading_zero_digits(s),
    ensures
        parse_number_spec(s, reading) is None,
{
    let t = crate::number::unsigned_part(s);
    assert(crate::number::is_ascii_digit(t[1]));
    let unp = crate::text::strip_one(s, '+');
    if s.len() > 0 && s[0] == '+' {
        assert(unp == t);
    }
    if s.len() > 0 && s[0] == '-' {
        assert(!crate::text::has_prefix(s, seq!['-', '0', 'x']) && !crate::text::has_prefix(s, seq!['-', '0', 'o'])
            && !crate::text::has_prefix(s, seq!['-', '0', 'b'])) by {
            assert(s[2] == t[1]);
            assert(s.take(3)[2] == s[2]);
        }
    } else {
        assert(!crate::text::has_prefix(s, seq!['-', '0', 'x']) && !crate::text::has_prefix(s, seq!['-', '0', 'o'])
            && !crate::text::has_prefix(s, seq!['-', '0', 'b'])) by {
            if s.len() >= 3 {
                assert(s.take(3)[0] == s[0]);
            }
        }
    }
    if !crate::text::starts_with_sign(unp) {
        assert(unp == t);
        assert(!crate::text::has_prefix(unp, seq!['0', 'x']) && !crate::text::has_prefix(unp, seq!['0', 'o'])
            && !crate::text::has_prefix(unp, seq!['0', 'b'])) by {
            assert(unp.take(2)[1] == unp[1]);
        }
    }
}

/// The leading `!` of a tag is not significant: a tag text and the same text after a `!` are
/// the same tag.
pub proof fn law_tag_bang_insignificant(s: Seq<char>)
    requires
        s.len() > 0,
        s[0] != '!',
    ensures
        nobang(seq!['!'] + s) == nobang(s),
{
    assert((seq!['!'] + s).drop_first() =~= s);
}

/// YAML has one NaN: every NaN bit pattern is stored as the same one, and any two NaNs are
/// equal numbers.
pub proof fn law_one_nan(a: u64, b: u64)
    requires
        float_is_nan(a),
        float_is_nan(b),
    ensures
        canonical_float(a) == NAN_BITS,
        canonical_float(a) == canonical_float(b),
        n_eq(N::Float(a), N::Float(b)),
{
}

/// A rendering written as `!` and then one non-empty piece is a tag, and the tag is that piece.
pub proof fn law_bang_then_piece_is_tag(t: Seq<char>)
    requires
        t.len() > 0,
    ensures
        check_verdict(check_all(seq![seq!['!'], t])) == (true, t),
{
    let p = seq![seq!['!'], t];
    assert(p.drop_last() =~= seq![seq!['!']]);
    assert(p.last() == t);
    assert(seq![seq!['!']].drop_last() =~= Seq::<Seq<char>>::empty());
    assert(seq![seq!['!']].last() == seq!['!']);
    assert(check_all(Seq::<Seq<char>>::empty()) == crate::tag::CheckModel::Empty);
    assert(check_all(seq![seq!['!']]) == crate::tag::check_step(crate::tag::CheckModel::Empty, seq!['!']));
    assert(check_all(seq![seq!['!']]) == crate::tag::CheckModel::Bang);
}

proof fn lemma_merge_value_unchanged(v: ValueModel, fuel: nat)
    requires
        no_merge_keys(v),
    ensures
        merge_value(v, fuel) == (v, None::<crate::error::MergeError>),
    decreases fuel, 0int,
{
    if fuel > 0 {
        match v {
            ValueModel::Mapping(e) => {
                lemma_merge_values_unchanged(e, e.len() as int, (fuel - 1) as nat);
            },
            ValueModel::Sequence(items) => {
                lemma_merge_items_unchanged(items, items.len() as int, (fuel - 1) as nat);
            },
            ValueModel::Tagged(t, b) => {
                lemma_merge_value_unchanged(b.inner, (fuel - 1) as nat);
            },
            _ => {},
        }
    }
}

proof fn lemma_merge_values_unchanged(e: Seq<EntryModel>, k: int, fuel: nat)
    requires
        forall|i: int| 0 <= i < e.len() ==> no_merge_keys(#[trigger] e[i].1.inner),
    ensures
        merge_values_model(e, k, fuel) == (e, None::<crate::error::MergeError>),
    decreases fuel, k + 1,
{
    if 0 < k <= e.len() {
        assert(no_merge_keys(e[k - 1].1.inner));
        lemma_merge_value_unchanged(e[k - 1].1.inner, fuel);
        assert(e.update(k - 1, (e[k - 1].0, Spanned { span: e[k - 1].1.span, inner: e[k - 1].1.inner })) =~= e);
        lemma_merge_values_unchanged(e, k - 1, fuel);
    }
}

proof fn lemma_merge_items_unchanged(items: Seq<Spanned<ValueModel>>, k: int, fuel: nat)
    requires
        forall|i: int| 0 <= i < items.len() ==> no_merge_keys(#[trigger] items[i].inner),
    ensures
        merge_items_model(items, k, fuel) == (items, None::<crate::error::MergeError>),
    decreases fuel, k + 1,
{
    if 0 < k <= items.len() {
        assert(no_merge_keys(items[k - 1].inner));
        lemma_merge_value_unchanged(items[k - 1].inner, fuel);
        assert(items.update(k - 1, Spanned { span: items[k - 1].span, inner: items[k - 1].inner }) =~= items);
        lemma_merge_items_unchanged(items, k - 1, fuel);
    }
}

/// Merging a value that has no `<<` key anywhere changes nothing and succeeds.
pub proof fn law_merge_without_merge_keys(v: ValueModel)
    requires
        no_merge_keys(v),
    ensures
        merged(v) == (v, None::<crate::error::MergeError>),
{
    lemma_merge_value_unchanged(v, crate::merge::depth(v));
}

} // verus!

verus! {

/// `is_i64` holds exactly where `as_i64` gives a value, and that value is the number.
pub proof fn law_is_i64_as_i64(n: N)
    ensures
        crate::number::n_is_i64(n) <==> crate::number::n_as_i64(n) is Some,
        crate::number::n_as_i64(n) matches Some(i) ==> match n {
            N::PosInt(v) => i as int == v as int,
            N::NegInt(v) => i == v,
            N::Float(_) => false,
        },
{
}

/// `is_u64` holds exactly where `as_u64` gives a value, and that value is the number.
pub proof fn law_is_u64_as_u64(n: N)
    ensures
        (n is PosInt) <==> crate::number::n_as_u64(n) is Some,
        crate::number::n_as_u64(n) matches Some(u) ==> n == N::PosInt(u),
{
}

/// A number is a float exactly when it is neither an `i64` nor a `u64`.
pub proof fn law_is_f64_iff_not_integer(n: N)
    ensures
        (n is Float) <==> (!crate::number::n_is_i64(n) && !(n is PosInt)),
{
}

/// A float is exactly one of NaN, infinite and finite.
pub proof fn law_float_classes(b: u64)
    ensures
        crate::number::float_is_nan(b) ==> !crate::number::float_is_infinite(b) && !crate::number::float_is_finite(b),
        crate::number::float_is_infinite(b) ==> !crate::number::float_is_finite(b),
        crate::number::float_is_nan(b) || crate::number::float_is_infinite(b) || crate::number::float_is_finite(b),
{
}

} // verus!

verus! {

/// Every key and value of the entries is well keyed.
pub open spec fn entries_well_keyed(e: Seq<EntryModel>) -> bool {
    forall|i: int| 0 <= i < e.len() ==> well_keyed(#[trigger] e[i].0.inner) && well_keyed(e[i].1.inner)
}

/// Every item is well keyed.
pub open spec fn items_well_keyed(s: Seq<Spanned<ValueModel>>) -> bool {
    forall|i: int| 0 <= i < s.len() ==> well_keyed(#[trigger] s[i].inner)
}

proof fn lemma_collect_entries_well_keyed(pairs: Seq<EntryModel>)
    requires
        entries_well_keyed(pairs),
    ensures
        entries_well_keyed(collect_model(pairs)),
    decreases pairs.len(),
{
    if pairs.len() > 0 {
        let p = pairs.drop_last();
        assert forall|i: int| 0 <= i < p.len() implies well_keyed(#[trigger] p[i].0.inner) && well_keyed(p[i].1.inner) by {
            assert(p[i] == pairs[i]);
        }
        lemma_collect_entries_well_keyed(p);
        let e = collect_model(p);
        let last = pairs.last();
        assert(well_keyed(last.0.inner) && well_keyed(last.1.inner)) by {
            assert(last == pairs[pairs.len() - 1]);
        }
        lemma_find_key_bounds(e, last.0.inner, 0);
        let e1 = insert_model(e, last.0, last.1);
        assert forall|i: int| 0 <= i < e1.len() implies well_keyed(#[trigger] e1[i].0.inner) && well_keyed(e1[i].1.inner) by {
            if i < e.len() {
                assert(e1[i].0 == e[i].0);
            }
        }
    }
}

proof fn lemma_node_built_well_keyed(
    doc: crate::document::Document,
    n: crate::document::Node,
    path: Seq<char>,
    rl: nat,
    jump: nat,
    errs: Seq<crate::error::ParseErrorModel>,
)
    ensures
        crate::builder::node_built(doc, n, path, rl, jump, errs).result matches Ok(v) ==> well_keyed(v.inner),
    decreases 2 * rl, 0int,
{
    if rl > 0 {
        let span = n.spec_span();
        let inner: Option<Spanned<ValueModel>> = match n.data {
            crate::document::NodeData::Sequence { items } => {
                lemma_items_built_well_keyed(doc, items@, 0, path, (rl - 1) as nat, jump, errs, Seq::empty());
                let s = crate::builder::items_built(doc, items@, 0, path, (rl - 1) as nat, jump, errs, Seq::empty());
                match s.result {
                    Ok(v) => Some(Spanned { span, inner: ValueModel::Sequence(v) }),
                    Err(_) => None,
                }
            },
            crate::document::NodeData::Mapping { pairs } => {
                lemma_pairs_built_well_keyed(doc, pairs@, 0, path, (rl - 1) as nat, jump, errs, Seq::empty());
                let m = crate::builder::pairs_built(doc, pairs@, 0, path, (rl - 1) as nat, jump, errs, Seq::empty());
                match m.result {
                    Ok(entries) => {
                        law_collected_keys_distinct(entries);
                        lemma_collect_entries_well_keyed(entries);
                        Some(Spanned { span, inner: ValueModel::Mapping(collect_model(entries)) })
                    },
                    Err(_) => None,
                }
            },
            crate::document::NodeData::NoNode => Some(Spanned { span, inner: ValueModel::Null }),
            crate::document::NodeData::Scalar { value, style, float_reading } => Some(
                Spanned { span, inner: crate::builder::scalar_model(crate::builder::tag_of(n), value@, style, float_reading) },
            ),
        };
        if let Some(v) = inner {
            assert(well_keyed(v.inner));
            assert(well_keyed(crate::builder::wrap_tag(n, v).inner));
        }
    }
}

proof fn lemma_items_built_well_keyed(
    doc: crate::document::Document,
    items: Seq<i32>,
    k: int,
    path: Seq<char>,
    crl: nat,
    jump: nat,
    errs: Seq<crate::error::ParseErrorModel>,
    acc: Seq<Spanned<ValueModel>>,
)
    requires
        items_well_keyed(acc),
    ensures
        crate::builder::items_built(doc, items, k, path, crl, jump, errs, acc).result matches Ok(v) ==> items_well_keyed(v),
    decreases 2 * crl + 1, items.len() - k,
{
    if 0 <= k < items.len() && jump > 0 {
        let c = crate::builder::node_built(
            doc,
            doc.node_at(items[k]),
            crate::builder::item_path(path, k as nat),
            crate::builder::sat_sub1(crl),
            (jump - 1) as nat,
            errs,
        );
        lemma_node_built_well_keyed(
            doc,
            doc.node_at(items[k]),
            crate::builder::item_path(path, k as nat),
            crate::builder::sat_sub1(crl),
            (jump - 1) as nat,
            errs,
        );
        if let Ok(v) = c.result {
            let acc1 = acc.push(v);
            assert forall|i: int| 0 <= i < acc1.len() implies well_keyed(#[trigger] acc1[i].inner) by {
                if i < acc.len() {
                    assert(acc1[i] == acc[i]);
                }
            }
            lemma_items_built_well_keyed(doc, items, k + 1, path, crl, c.jump, c.errors, acc1);
        }
    }
}

#[verifier::spinoff_prover]
proof fn lemma_pairs_built_well_keyed(
    doc: crate::document::Document,
    pairs: Seq<crate::document::NodePair>,
    k: int,
    path: Seq<char>,
    crl: nat,
    jump: nat,
    errs: Seq<crate::error::ParseErrorModel>,
    acc: Seq<EntryModel>,
)
    requires
        entries_well_keyed(acc),
    ensures
        crate::builder::pairs_built(doc, pairs, k, path, crl, jump, errs, acc).result matches Ok(v) ==> entries_well_keyed(v),
    decreases 2 * crl + 1, pairs.len() - k,
{
    if 0 <= k < pairs.len() && jump > 0 {
        let child = crate::builder::sat_sub1(crl);
        let kb = crate::builder::node_built(doc, doc.node_at(pairs[k].key), path, child, (jump - 1) as nat, errs);
        lemma_node_built_well_keyed(doc, doc.node_at(pairs[k].key), path, child, (jump - 1) as nat, errs);
        if let Ok(key) = kb.result {
            if kb.jump > 0 {
                let vpath = crate::builder::value_path(path, key);
                let vb = crate::builder::node_built(doc, doc.node_at(pairs[k].value), vpath, child, (kb.jump - 1) as nat, kb.errors);
                lemma_node_built_well_keyed(doc, doc.node_at(pairs[k].value), vpath, child, (kb.jump - 1) as nat, kb.errors);
                if let Ok(val) = vb.result {
                    assert(well_keyed(key.inner));
                    assert(well_keyed(val.inner));
                    let acc1 = acc.push((key, val));
                    assert forall|i: int| 0 <= i < acc1.len() implies well_keyed(#[trigger] acc1[i].0.inner) && well_keyed(acc1[i].1.inner) by {
                        if i < acc.len() {
                            assert(acc1[i] == acc[i]);
                        } else {
                            assert(acc1[i] == (key, val));
                        }
                    }
                    assert(entries_well_keyed(acc1));
                    lemma_pairs_built_well_keyed(doc, pairs, k + 1, path, crl, vb.jump, vb.errors, acc1);
                }
            }
        }
    }
}

/// Every mapping in a value built from a document has distinct keys, at any depth: a key that a
/// document repeats is reported as an error instead, and its last value is kept.
pub proof fn law_built_values_well_keyed(
    b: crate::builder::Builder,
    doc: crate::document::Document,
    errs: Seq<crate::error::ParseErrorModel>,
)
    ensures
        crate::builder::document_built(b, doc, errs).result matches Ok(v) ==> well_keyed(v.inner),
{
    if doc.nodes@.len() > 0 {
        lemma_node_built_well_keyed(
            doc,
            doc.nodes@[0],
            Seq::empty(),
            b.max_recursion_depth as nat,
            crate::builder::initial_jump(b, doc),
            errs,
        );
    }
}

} // verus!

verus! {

/// Every text compares equal to itself.
pub proof fn law_text_rel_reflexive(a: Seq<char>)
    ensures
        crate::order::text_rel(a, a) == crate::order::Rel::Equal,
    decreases a.len(),
{
    if a.len() > 0 {
        law_text_rel_reflexive(a.drop_first());
    }
}

/// Every value compares equal to itself in the partial order of values, NaN included.
pub proof fn law_value_partial_reflexive(v: ValueModel)
    ensures
        crate::order::value_partial(v, v) == Some(crate::order::Rel::Equal),
    decreases v, 0int,
{
    match v {
        ValueModel::String(x) => {
            law_text_rel_reflexive(x);
        },
        ValueModel::Sequence(xs) => {
            lemma_items_partial_reflexive(xs, 0);
        },
        ValueModel::Mapping(xs) => {
            let ia = crate::order::sort_indices_model(crate::order::key_values(xs), xs.len() as int);
            crate::order::lemma_sort_indices_range(crate::order::key_values(xs), xs.len() as int);
            lemma_sorted_partial_reflexive(xs, ia, 0);
        },
        ValueModel::Tagged(t, b) => {
            law_text_rel_reflexive(nobang(t));
            law_value_partial_reflexive(b.inner);
        },
        _ => {},
    }
}

proof fn lemma_items_partial_reflexive(xs: Seq<Spanned<ValueModel>>, k: int)
    requires
        0 <= k,
    ensures
        crate::order::items_partial(xs, xs, k) == Some(crate::order::Rel::Equal),
    decreases xs, xs.len() - k,
{
    if k < xs.len() {
        law_value_partial_reflexive(xs[k].inner);
        lemma_items_partial_reflexive(xs, k + 1);
    }
}

proof fn lemma_sorted_partial_reflexive(xs: Seq<EntryModel>, ia: Seq<int>, k: int)
    requires
        0 <= k,
        ia.len() == xs.len(),
        forall|t: int| 0 <= t < ia.len() ==> 0 <= #[trigger] ia[t] < xs.len(),
    ensures
        crate::order::sorted_partial(xs, xs, ia, ia, k) == Some(crate::order::Rel::Equal),
    decreases xs, ia.len() - k,
{
    if k < ia.len() {
        assert(0 <= ia[k] < xs.len());
        law_value_partial_reflexive(xs[ia[k]].0.inner);
        law_value_partial_reflexive(xs[ia[k]].1.inner);
        lemma_sorted_partial_reflexive(xs, ia, k + 1);
    }
}

} // verus!

verus! {

/// In entries with distinct keys, after the entry that a text index finds is removed (the last
/// entry taking its place), the text finds nothing.
pub proof fn law_removed_text_key_is_gone(e: Seq<EntryModel>, key: &str)
    requires
        keys_distinct(e),
        crate::mapping::find_index(e, key, 0) is Some,
    ensures
        ({
            let j = crate::mapping::find_index(e, key, 0)->0;
            crate::mapping::find_index(e.update(j, e.last()).drop_last(), key, 0) is None
        }),
{
    let j = crate::mapping::find_index(e, key, 0)->0;
    crate::mapping::lemma_find_index_bounds(e, key, 0);
    let r = e.update(j, e.last()).drop_last();
    assert forall|t: int| 0 <= t < r.len() implies !crate::mapping::Index::matches_key(key, #[trigger] r[t].0.inner) by {
        let src = if t == j { e.len() - 1 } else { t };
        assert(r[t] == e[src]);
        assert(src != j);
        if crate::mapping::Index::matches_key(key, e[src].0.inner) {
            assert(value_eq(e[src].0.inner, e[j].0.inner));
            assert(value_eq(e[j].0.inner, e[src].0.inner));
            if src < j {
                assert(!value_eq(e[j].0.inner, e[src].0.inner));
            } else {
                assert(!value_eq(e[src].0.inner, e[j].0.inner));
            }
        }
    }
    lemma_find_index_none_all(r, key, 0);
}

proof fn lemma_find_index_none_all(e: Seq<EntryModel>, key: &str, from: int)
    requires
        0 <= from <= e.len(),
        forall|t: int| 0 <= t < e.len() ==> !crate::mapping::Index::matches_key(key, #[trigger] e[t].0.inner),
    ensures
        crate::mapping::find_index(e, key, from) is None,
    decreases e.len() - from,
{
    if from < e.len() {
        lemma_find_index_none_all(e, key, from + 1);
    }
}

} // verus!

verus! {

/// Building a node with earlier errors `errs` gives the same result and leaves as many visits
/// as building it with none, and its errors are `errs` followed by the errors it finds.
proof fn lemma_node_built_errors(
    doc: crate::document::Document,
    n: crate::document::Node,
    path: Seq<char>,
    rl: nat,
    jump: nat,
    errs: Seq<crate::error::ParseErrorModel>,
)
    ensures
        ({
            let a = crate::builder::node_built(doc, n, path, rl, jump, errs);
            let b = crate::builder::node_built(doc, n, path, rl, jump, Seq::empty());
            a.result == b.result && a.jump == b.jump && a.errors == errs + b.errors
        }),
    decreases 2 * rl, 0int,
{
    let e = Seq::<crate::error::ParseErrorModel>::empty();
    assert(errs + e =~= errs);
    if rl > 0 {
        match n.data {
            crate::document::NodeData::Sequence { items } => {
                lemma_items_built_errors(doc, items@, 0, path, (rl - 1) as nat, jump, errs, Seq::empty());
            },
            crate::document::NodeData::Mapping { pairs } => {
                lemma_pairs_built_errors(doc, pairs@, 0, path, (rl - 1) as nat, jump, errs, Seq::empty());
                let m = crate::builder::pairs_built(doc, pairs@, 0, path, (rl - 1) as nat, jump, errs, Seq::empty());
                let m0 = crate::builder::pairs_built(doc, pairs@, 0, path, (rl - 1) as nat, jump, e, Seq::empty());
                if let Ok(entries) = m.result {
                    let d = crate::builder::duplicate_errors(entries, path);
                    assert(m.errors + d =~= errs + (m0.errors + d));
                }
            },
            _ => {},
        }
    }
}

proof fn lemma_items_built_errors(
    doc: crate::document::Document,
    items: Seq<i32>,
    k: int,
    path: Seq<char>,
    crl: nat,
    jump: nat,
    errs: Seq<crate::error::ParseErrorModel>,
    acc: Seq<Spanned<ValueModel>>,
)
    ensures
        ({
            let a = crate::builder::items_built(doc, items, k, path, crl, jump, errs, acc);
            let b = crate::builder::items_built(doc, items, k, path, crl, jump, Seq::empty(), acc);
            a.result == b.result && a.jump == b.jump && a.errors == errs + b.errors
        }),
    decreases 2 * crl + 1, items.len() - k,
{
    let e = Seq::<crate::error::ParseErrorModel>::empty();
    assert(errs + e =~= errs);
    if 0 <= k < items.len() && jump > 0 {
        let child = doc.node_at(items[k]);
        let p = crate::builder::item_path(path, k as nat);
        let r = crate::builder::sat_sub1(crl);
        lemma_node_built_errors(doc, child, p, r, (jump - 1) as nat, errs);
        let c = crate::builder::node_built(doc, child, p, r, (jump - 1) as nat, errs);
        let c0 = crate::builder::node_built(doc, child, p, r, (jump - 1) as nat, e);
        if let Ok(v) = c.result {
            lemma_items_built_errors(doc, items, k + 1, path, crl, c.jump, c.errors, acc.push(v));
            lemma_items_built_errors(doc, items, k + 1, path, crl, c.jump, c0.errors, acc.push(v));
            let rest = crate::builder::items_built(doc, items, k + 1, path, crl, c.jump, e, acc.push(v));
            assert(c.errors + rest.errors =~= errs + (c0.errors + rest.errors));
        }
    }
}

proof fn lemma_pairs_built_errors(
    doc: crate::document::Document,
    pairs: Seq<crate::document::NodePair>,
    k: int,
    path: Seq<char>,
    crl: nat,
    jump: nat,
    errs: Seq<crate::error::ParseErrorModel>,
    acc: Seq<EntryModel>,
)
    ensures
        ({
            let a = crate::builder::pairs_built(doc, pairs, k, path, crl, jump, errs, acc);
            let b = crate::builder::pairs_built(doc, pairs, k, path, crl, jump, Seq::empty(), acc);
            a.result == b.result && a.jump == b.jump && a.errors == errs + b.errors
        }),
    decreases 2 * crl + 1, pairs.len() - k,
{
    let e = Seq::<crate::error::ParseErrorModel>::empty();
    assert(errs + e =~= errs);
    if 0 <= k < pairs.len() && jump > 0 {
        let r = crate::builder::sat_sub1(crl);
        let kn = doc.node_at(pairs[k].key);
        lemma_node_built_errors(doc, kn, path, r, (jump - 1) as nat, errs);
        let kb = crate::builder::node_built(doc, kn, path, r, (jump - 1) as nat, errs);
        let kb0 = crate::builder::node_built(doc, kn, path, r, (jump - 1) as nat, e);
        if let Ok(key) = kb.result {
            if kb.jump > 0 {
                let vn = doc.node_at(pairs[k].value);
                let vp = crate::builder::value_path(path, key);
                lemma_node_built_errors(doc, vn, vp, r, (kb.jump - 1) as nat, kb.errors);
                lemma_node_built_errors(doc, vn, vp, r, (kb.jump - 1) as nat, kb0.errors);
                let vb = crate::builder::node_built(doc, vn, vp, r, (kb.jump - 1) as nat, kb.errors);
                let vb0 = crate::builder::node_built(doc, vn, vp, r, (kb.jump - 1) as nat, kb0.errors);
                let vbe = crate::builder::node_built(doc, vn, vp, r, (kb.jump - 1) as nat, e);
                assert(vb.errors =~= errs + vb0.errors) by {
                    assert(kb.errors + vbe.errors =~= errs + (kb0.errors + vbe.errors));
                }
                if let Ok(val) = vb.result {
                    let acc1 = acc.push((key, val));
                    lemma_pairs_built_errors(doc, pairs, k + 1, path, crl, vb.jump, vb.errors, acc1);
                    lemma_pairs_built_errors(doc, pairs, k + 1, path, crl, vb.jump, vb0.errors, acc1);
                    let rest = crate::builder::pairs_built(doc, pairs, k + 1, path, crl, vb.jump, e, acc1);
                    assert(vb.errors + rest.errors =~= errs + (vb0.errors + rest.errors));
                }
            }
        }
    }
}

/// Building a document never reads or changes the errors found before: it gives the same value
/// whatever they are, and its errors are appended after them.
pub proof fn law_errors_are_appended(
    b: crate::builder::Builder,
    doc: crate::document::Document,
    errs: Seq<crate::error::ParseErrorModel>,
)
    ensures
        ({
            let x = crate::builder::document_built(b, doc, errs);
            let y = crate::builder::document_built(b, doc, Seq::empty());
            x.result == y.result && x.errors == errs + y.errors
        }),
{
    assert(errs + Seq::<crate::error::ParseErrorModel>::empty() =~= errs);
    if doc.nodes@.len() > 0 {
        lemma_node_built_errors(
            doc,
            doc.nodes@[0],
            Seq::empty(),
            b.max_recursion_depth as nat,
            crate::builder::initial_jump(b, doc),
            errs,
        );
    }
}

} // verus!

verus! {

/// The outcome of comparing the other way round.
pub open spec fn flip(r: crate::order::Rel) -> crate::order::Rel {
    match r {
        crate::order::Rel::Less => crate::order::Rel::Greater,
        crate::order::Rel::Equal => crate::order::Rel::Equal,
        crate::order::Rel::Greater => crate::order::Rel::Less,
    }
}

/// Comparing two texts the other way round flips the outcome.
pub proof fn law_text_rel_flips(a: Seq<char>, b: Seq<char>)
    ensures
        crate::order::text_rel(b, a) == flip(crate::order::text_rel(a, b)),
    decreases a.len(),
{
    if a.len() > 0 && b.len() > 0 && a[0] == b[0] {
        law_text_rel_flips(a.drop_first(), b.drop_first());
    }
}

/// Comparing two numbers the other way round in the total order flips the outcome.
pub proof fn law_n_total_flips(a: N, b: N)
    ensures
        crate::order::n_total(b, a) == flip(crate::order::n_total(a, b)),
{
}

/// Comparing two values the other way round in the total order flips the outcome.
pub proof fn law_value_total_flips(a: ValueModel, b: ValueModel)
    ensures
        crate::order::value_total(b, a) == flip(crate::order::value_total(a, b)),
    decreases a, 0int,
{
    if crate::order::kind_rank(a) == crate::order::kind_rank(b) {
        match (a, b) {
            (ValueModel::Number(x), ValueModel::Number(y)) => {
                law_n_total_flips(x, y);
            },
            (ValueModel::String(x), ValueModel::String(y)) => {
                law_text_rel_flips(x, y);
            },
            (ValueModel::Sequence(xs), ValueModel::Sequence(ys)) => {
                lemma_items_total_flips(xs, ys, 0);
            },
            (ValueModel::Mapping(xs), ValueModel::Mapping(ys)) => {
                lemma_entries_total_flips(xs, ys, 0);
            },
            (ValueModel::Tagged(t, v), ValueModel::Tagged(u, w)) => {
                law_text_rel_flips(nobang(t), nobang(u));
                law_value_total_flips(v.inner, w.inner);
            },
            _ => {},
        }
    }
}

proof fn lemma_items_total_flips(xs: Seq<Spanned<ValueModel>>, ys: Seq<Spanned<ValueModel>>, k: int)
    requires
        0 <= k,
    ensures
        crate::order::items_total(ys, xs, k) == flip(crate::order::items_total(xs, ys, k)),
    decreases xs, xs.len() - k,
{
    if k < xs.len() && k < ys.len() {
        law_value_total_flips(xs[k].inner, ys[k].inner);
        lemma_items_total_flips(xs, ys, k + 1);
    }
}

proof fn lemma_entries_total_flips(xs: Seq<EntryModel>, ys: Seq<EntryModel>, k: int)
    requires
        0 <= k,
    ensures
        crate::order::entries_total(ys, xs, k) == flip(crate::order::entries_total(xs, ys, k)),
    decreases xs, xs.len() - k,
{
    if k < xs.len() && k < ys.len() {
        law_value_total_flips(xs[k].0.inner, ys[k].0.inner);
        law_value_total_flips(xs[k].1.inner, ys[k].1.inner);
        lemma_entries_total_flips(xs, ys, k + 1);
    }
}

/// A tagged value written through the serializer comes back as a tagged value. It is written as
/// a map announced with one entry whose key renders as `!` and then the tag without its `!`; that
/// key is recognised as a tag, and the map ends as the value under that tag, with the empty span.
/// The tag that comes back equals the original as tags compare, unless the original without its
/// `!` still begins with `!`.
pub proof fn law_tagged_value_serializes_as_tagged(t: Seq<char>, v: ValueModel)
    requires
        t.len() > 0,
        !(nobang(t).len() > 1 && nobang(t)[0] == '!'),
    ensures
        ({
            let (is_tag, text) = check_verdict(check_all(seq![seq!['!'], nobang(t)]));
            &&& is_tag
            &&& nobang(text) == nobang(t)
            &&& map_end(entry_step(SerializeMapModel::CheckForTag, MaybeTagModel::Tag(text), v))
                == ValueModel::Tagged(text, Box::new(dummy_model(v)))
        }),
{
    law_bang_then_piece_is_tag(nobang(t));
}

/// An enum variant written by the serializer is read back by the deserializer as the same
/// variant with the same contents: a unit variant (written as its name), a newtype variant
/// (its value under its name as a tag), a tuple variant with at least one value (a sequence
/// under its name) and a struct variant (a mapping under its name); this for every name that
/// does not begin with `!`, which a tag would lose.
pub proof fn law_variants_read_back(name: Seq<char>, v: ValueModel)
    requires
        name.len() > 0,
        !(name.len() > 1 && name[0] == '!'),
    ensures
        visit_spec(ValueModel::String(name), Request::Enum) == VisitModel::Enum(name, None),
        variant_spec(None, VariantRequest::Unit) == VisitModel::Unit,
        visit_spec(newtype_variant_model(name, v), Request::Enum) == VisitModel::Enum(name, Some(v)),
        variant_spec(Some(v), VariantRequest::Newtype) == VisitModel::Newtype(v),
        match v {
            ValueModel::Sequence(xs) => xs.len() > 0 ==> variant_spec(Some(v), VariantRequest::Tuple)
                == VisitModel::Sequence(xs),
            ValueModel::Mapping(m) => variant_spec(Some(v), VariantRequest::Struct) == VisitModel::Mapping(m),
            _ => true,
        },
{
}

/// Scalars written by the serializer are read back as the same datum: a boolean, a number, a
/// string, and null as the unit value and as an absent optional value.
pub proof fn law_scalars_read_back(b: bool, n: N, s: Seq<char>)
    ensures
        visit_spec(ValueModel::Bool(b), Request::Bool) == VisitModel::Bool(b),
        visit_spec(ValueModel::Number(n), Request::Number) == VisitModel::Number(n),
        visit_spec(ValueModel::String(s), Request::Str) == VisitModel::String(s),
        visit_spec(ValueModel::Null, Request::Unit) == VisitModel::Unit,
        visit_spec(ValueModel::Null, Request::Option) == VisitModel::Absent,
{
}

/// Where a scalar, a sequence or a mapping is asked for, the tags around a value do not count:
/// the tagged value hands on what the value under the tag hands on.
pub proof fn law_tags_looked_through(t: Seq<char>, b: Spanned<ValueModel>, request: Request)
    requires
        request == Request::Bool || request == Request::Number || request == Request::Str || request
            == Request::Bytes || request == Request::Sequence || request == Request::Mapping,
    ensures
        visit_spec(ValueModel::Tagged(t, Box::new(b)), request) == visit_spec(b.inner, request),
{
}

/// Only the first entry of a map is looked at as a possible tag: after any key or entry the map
/// no longer checks for one, a key on its own always turns it into a mapping being built, and a
/// map being built as a mapping stays one and ends as a mapping.
pub proof fn law_only_first_entry_may_be_tag(
    st: SerializeMapModel,
    k: ValueModel,
    key: MaybeTagModel<ValueModel>,
    v: ValueModel,
)
    requires
        st is CheckForTag || key is NotTag,
    ensures
        !(entry_step(st, key, v) is CheckForTag),
        key_step(st, k) is Untagged,
        st is Untagged ==> entry_step(st, key, v) is Untagged && value_step(st, v) is Untagged && map_end(st) is Mapping,
{
}

/// The flip of an outcome that may be missing.
pub open spec fn flip_partial(r: Option<crate::order::Rel>) -> Option<crate::order::Rel> {
    match r {
        Some(x) => Some(flip(x)),
        None => None,
    }
}

/// Comparing two numbers the other way round in the partial order flips the outcome, and two
/// numbers are incomparable both ways or neither.
pub proof fn law_n_partial_flips(a: N, b: N)
    ensures
        crate::order::n_partial(b, a) == flip_partial(crate::order::n_partial(a, b)),
{
}

/// Comparing two values the other way round in the partial order flips the outcome, and two
/// values are incomparable both ways or neither.
pub proof fn law_value_partial_flips(a: ValueModel, b: ValueModel)
    ensures
        crate::order::value_partial(b, a) == flip_partial(crate::order::value_partial(a, b)),
    decreases a, 0int,
{
    if crate::order::kind_rank(a) == crate::order::kind_rank(b) {
        match (a, b) {
            (ValueModel::Number(x), ValueModel::Number(y)) => {
                law_n_partial_flips(x, y);
            },
            (ValueModel::String(x), ValueModel::String(y)) => {
                law_text_rel_flips(x, y);
            },
            (ValueModel::Sequence(xs), ValueModel::Sequence(ys)) => {
                lemma_items_partial_flips(xs, ys, 0);
            },
            (ValueModel::Mapping(xs), ValueModel::Mapping(ys)) => {
                lemma_sorted_partial_flips(
                    xs,
                    ys,
                    crate::order::sort_indices_model(crate::order::key_values(xs), xs.len() as int),
                    crate::order::sort_indices_model(crate::order::key_values(ys), ys.len() as int),
                    0,
                );
            },
            (ValueModel::Tagged(t, v), ValueModel::Tagged(u, w)) => {
                law_text_rel_flips(nobang(t), nobang(u));
                law_value_partial_flips(v.inner, w.inner);
            },
            _ => {},
        }
    }
}

proof fn lemma_items_partial_flips(xs: Seq<Spanned<ValueModel>>, ys: Seq<Spanned<ValueModel>>, k: int)
    requires
        0 <= k,
    ensures
        crate::order::items_partial(ys, xs, k) == flip_partial(crate::order::items_partial(xs, ys, k)),
    decreases xs, xs.len() - k,
{
    if k < xs.len() && k < ys.len() {
        law_value_partial_flips(xs[k].inner, ys[k].inner);
        lemma_items_partial_flips(xs, ys, k + 1);
    }
}

proof fn lemma_sorted_partial_flips(xs: Seq<EntryModel>, ys: Seq<EntryModel>, ia: Seq<int>, ib: Seq<int>, k: int)
    requires
        0 <= k,
    ensures
        crate::order::sorted_partial(ys, xs, ib, ia, k) == flip_partial(crate::order::sorted_partial(xs, ys, ia, ib, k)),
    decreases xs, ia.len() - k,
{
    if k < ia.len() && k < ib.len() && 0 <= ia[k] < xs.len() && 0 <= ib[k] < ys.len() {
        law_value_partial_flips(xs[ia[k]].0.inner, ys[ib[k]].0.inner);
        law_value_partial_flips(xs[ia[k]].1.inner, ys[ib[k]].1.inner);
        lemma_sorted_partial_flips(xs, ys, ia, ib, k + 1);
    }
}

/// Every key and value of the entries carries the empty span.
pub open spec fn entries_unspanned(e: Seq<EntryModel>) -> bool {
    forall|i: int| 0 <= i < e.len() ==> (#[trigger] e[i]).0.span == Span::spec_empty() && e[i].1.span == Span::spec_empty()
}

/// Entries with distinct keys are collected into themselves.
proof fn lemma_collect_distinct_is_identity(e: Seq<EntryModel>)
    requires
        keys_distinct(e),
    ensures
        collect_model(e) == e,
    decreases e.len(),
{
    if e.len() > 0 {
        let p = e.drop_last();
        assert forall|i: int, t: int| 0 <= t < i < p.len() implies !value_eq(#[trigger] p[i].0.inner, #[trigger] p[t].0.inner) by {
            assert(p[i] == e[i]);
            assert(p[t] == e[t]);
        }
        lemma_collect_distinct_is_identity(p);
        let last = e.last();
        assert forall|t: int| 0 <= t < p.len() implies !value_eq(last.0.inner, #[trigger] p[t].0.inner) by {
            assert(p[t] == e[t]);
            assert(!value_eq(e[e.len() - 1].0.inner, e[t].0.inner));
        }
        lemma_find_key_none(p, last.0.inner, 0);
        assert(p.push(last) =~= e);
    }
}

/// Taking the spans off entries leaves no span and keeps the keys distinct where they were.
proof fn lemma_unspan_entries(e: Seq<EntryModel>)
    ensures
        entries_unspanned(unspan_entries(e)),
        keys_distinct(e) ==> keys_distinct(unspan_entries(e)),
        entries_unspanned(e) ==> unspan_entries(e) == e,
{
    let u = unspan_entries(e);
    if keys_distinct(e) {
        assert forall|i: int, t: int| 0 <= t < i < u.len() implies !value_eq(#[trigger] u[i].0.inner, #[trigger] u[t].0.inner) by {
            assert(!value_eq(e[i].0.inner, e[t].0.inner));
        }
    }
    if entries_unspanned(e) {
        assert forall|i: int| 0 <= i < e.len() implies #[trigger] u[i] == e[i] by {
            assert(e[i].0.span == Span::spec_empty() && e[i].1.span == Span::spec_empty());
        }
        assert(u =~= e);
    }
}

/// Collecting entries that carry no span gives entries that carry none.
proof fn lemma_collect_unspanned(pairs: Seq<EntryModel>)
    requires
        entries_unspanned(pairs),
    ensures
        entries_unspanned(collect_model(pairs)),
    decreases pairs.len(),
{
    if pairs.len() > 0 {
        let p = pairs.drop_last();
        assert forall|i: int| 0 <= i < p.len() implies (#[trigger] p[i]).0.span == Span::spec_empty() && p[i].1.span == Span::spec_empty() by {
            assert(p[i] == pairs[i]);
        }
        lemma_collect_unspanned(p);
        let e = collect_model(p);
        let last = pairs.last();
        assert(last == pairs[pairs.len() - 1]);
        lemma_find_key_bounds(e, last.0.inner, 0);
        let e1 = insert_model(e, last.0, last.1);
        assert forall|i: int| 0 <= i < e1.len() implies (#[trigger] e1[i]).0.span == Span::spec_empty() && e1[i].1.span == Span::spec_empty() by {
            if i < e.len() {
                assert(e[i].0.span == Span::spec_empty());
            }
        }
    }
}

/// Clearing what was cleared changes nothing, at any fuel that covers the depths.
proof fn lemma_clear_twice(v: ValueModel, f: nat, g: nat)
    requires
        depth(v) <= f,
        depth(clear_model(v, f)) <= g,
    ensures
        clear_model(clear_model(v, f), g) == clear_model(v, f),
    decreases v,
{
    match v {
        ValueModel::Mapping(e) => {
            let u = unspan_entries(e);
            let c = collect_model(u);
            lemma_unspan_entries(e);
            lemma_collect_unspanned(u);
            law_collected_keys_distinct(u);
            lemma_unspan_entries(c);
            lemma_collect_distinct_is_identity(c);
        },
        ValueModel::Tagged(t, b) => {
            lemma_clear_twice(b.inner, (f - 1) as nat, (g - 1) as nat);
        },
        ValueModel::Sequence(items) => {
            lemma_sequence_within(items, (f - 1) as nat);
            let c = clear_items(items, (f - 1) as nat);
            lemma_sequence_within(c, (g - 1) as nat);
            assert forall|i: int| 0 <= i < c.len() implies #[trigger] clear_spanned(c[i], (g - 1) as nat) == c[i] by {
                assert(depth(items[i].inner) <= (f - 1) as nat);
                assert(depth(c[i].inner) <= (g - 1) as nat);
                lemma_clear_twice(items[i].inner, (f - 1) as nat, (g - 1) as nat);
            }
            assert forall|i: int| 0 <= i < c.len() implies #[trigger] clear_items(c, (g - 1) as nat)[i] == c[i] by {
                assert(clear_spanned(c[i], (g - 1) as nat) == c[i]);
            }
            assert(clear_items(c, (g - 1) as nat) =~= c);
        },
        _ => {},
    }
}

/// Clearing the spans of a value a second time changes nothing.
pub proof fn law_clearing_spans_is_idempotent(v: ValueModel)
    ensures
        cleared(cleared(v)) == cleared(v),
{
    lemma_clear_twice(v, depth(v), depth(cleared(v)));
}

/// A value whose mappings have distinct keys equals itself with its spans cleared, at any fuel
/// that covers its depth.
proof fn lemma_cleared_equals(v: ValueModel, f: nat)
    requires
        well_keyed(v),
        depth(v) <= f,
    ensures
        value_eq(clear_model(v, f), v),
    decreases v,
{
    match v {
        ValueModel::Number(n) => {
            law_number_eq_reflexive(n);
        },
        ValueModel::Mapping(e) => {
            let u = unspan_entries(e);
            lemma_unspan_entries(e);
            lemma_collect_distinct_is_identity(u);
            assert forall|i: int| 0 <= i < u.len() implies match find_key(e, #[trigger] u[i].0.inner, 0) {
                Some(j) => value_eq(u[i].1.inner, e[j].1.inner),
                None => false,
            } by {
                assert(well_keyed(e[i].0.inner) && well_keyed(e[i].1.inner));
                law_value_eq_reflexive(e[i].0.inner);
                law_value_eq_reflexive(e[i].1.inner);
                assert forall|t: int| 0 <= t < i implies !value_eq(e[i].0.inner, #[trigger] e[t].0.inner) by {
                    assert(!value_eq(e[i].0.inner, e[t].0.inner));
                }
                lemma_find_key_first(e, e[i].0.inner, 0, i);
            }
        },
        ValueModel::Tagged(t, b) => {
            lemma_cleared_equals(b.inner, (f - 1) as nat);
        },
        ValueModel::Sequence(items) => {
            lemma_sequence_within(items, (f - 1) as nat);
            let c = clear_items(items, (f - 1) as nat);
            assert forall|i: int| 0 <= i < c.len() implies value_eq(#[trigger] c[i].inner, items[i].inner) by {
                assert(well_keyed(items[i].inner));
                assert(depth(items[i].inner) <= (f - 1) as nat);
                lemma_cleared_equals(items[i].inner, (f - 1) as nat);
            }
        },
        _ => {},
    }
}

/// A value whose mappings have distinct keys (as every value built from a document has) equals
/// itself with its spans cleared.
pub proof fn law_cleared_value_equals_original(v: ValueModel)
    requires
        well_keyed(v),
    ensures
        value_eq(cleared(v), v),
{
    lemma_cleared_equals(v, depth(v));
}

/// Looking a mapping up by a text, by the string value of that text, or by that value with any
/// span finds the same entry.
pub proof fn law_lookups_by_text_agree(e: Seq<EntryModel>, key: &str, as_value: Value, as_spanned: Spanned<Value>)
    requires
        as_value@ == ValueModel::String(key@),
        as_spanned.inner@ == ValueModel::String(key@),
    ensures
        find_index(e, &as_value, 0) == find_index(e, key, 0),
        find_index(e, &as_spanned, 0) == find_index(e, key, 0),
{
    lemma_lookups_by_text_agree_from(e, key, as_value, as_spanned, 0);
}

proof fn lemma_lookups_by_text_agree_from(e: Seq<EntryModel>, key: &str, as_value: Value, as_spanned: Spanned<Value>, from: int)
    requires
        as_value@ == ValueModel::String(key@),
        as_spanned.inner@ == ValueModel::String(key@),
    ensures
        find_index(e, &as_value, from) == find_index(e, key, from),
        find_index(e, &as_spanned, from) == find_index(e, key, from),
    decreases e.len() - from,
{
    if 0 <= from < e.len() {
        lemma_lookups_by_text_agree_from(e, key, as_value, as_spanned, from + 1);
    }
}

/// Every number and tag of the value is one that writing keeps: no signed integer that is not
/// negative (writing makes it unsigned) and no tag whose text without its `!` still begins with
/// `!` (writing renders it with one `!`, which is then taken off).
pub open spec fn writable(v: ValueModel) -> bool
    decreases v,
{
    match v {
        ValueModel::Number(N::NegInt(i)) => i < 0,
        ValueModel::Sequence(xs) => forall|i: int| 0 <= i < xs.len() ==> writable(#[trigger] xs[i].inner),
        ValueModel::Mapping(e) => forall|i: int| 0 <= i < e.len() ==> writable(#[trigger] e[i].0.inner) && writable(e[i].1.inner),
        ValueModel::Tagged(t, b) => t.len() > 0 && !(nobang(t).len() > 1 && nobang(t)[0] == '!') && writable(b.inner),
        _ => true,
    }
}

proof fn lemma_written_items(items: Seq<Spanned<ValueModel>>, k: int)
    requires
        0 <= k <= items.len(),
    ensures
        written_items(items, k).len() == k,
        forall|j: int| 0 <= j < k ==> #[trigger] written_items(items, k)[j] == dummy_model(written(items[j].inner)),
    decreases k,
{
    if k > 0 {
        lemma_written_items(items, k - 1);
        assert forall|j: int| 0 <= j < k implies #[trigger] written_items(items, k)[j] == dummy_model(written(items[j].inner)) by {
            if j < k - 1 {
                assert(written_items(items, k)[j] == written_items(items, k - 1)[j]);
            }
        }
    }
}

/// The entries of a mapping, written.
pub open spec fn written_pairs(e: Seq<EntryModel>) -> Seq<EntryModel> {
    Seq::new(e.len(), |j: int| (dummy_model(written(e[j].0.inner)), dummy_model(written(e[j].1.inner))))
}

proof fn lemma_written_entries(e: Seq<EntryModel>, k: int)
    requires
        0 <= k <= e.len(),
        keys_distinct(written_pairs(e)),
    ensures
        written_entries(e, k) == (if e.len() == 1 && k == 0 {
            SerializeMapModel::CheckForTag
        } else {
            SerializeMapModel::Untagged(written_pairs(e).take(k), None)
        }),
    decreases k,
{
    let w = written_pairs(e);
    if k == 0 {
        assert(w.take(0) =~= Seq::<EntryModel>::empty());
    } else {
        lemma_written_entries(e, k - 1);
        let m = w.take(k - 1);
        let wk = written(e[k - 1].0.inner);
        assert(w[k - 1].0.inner == wk);
        if e.len() == 1 && k == 1 {
            assert(w.take(1) =~= seq![w[0]]);
        } else {
            assert forall|t: int| 0 <= t < m.len() implies !value_eq(wk, #[trigger] m[t].0.inner) by {
                assert(m[t] == w[t]);
                assert(!value_eq(w[k - 1].0.inner, w[t].0.inner));
            }
            lemma_find_key_none(m, wk, 0);
            assert(m.push(w[k - 1]) =~= w.take(k));
        }
    }
}

/// A value written through the serializer datum by datum and then read as a value equals the
/// original: a tagged value comes back tagged through its one-entry map, a mapping of one entry
/// whose key merely looks like a tag stays a mapping, and every number, string and nesting is
/// kept. This for values whose mappings have distinct keys and whose numbers and tags writing
/// keeps (see [`writable`]).
pub proof fn law_written_value_equals_original(v: ValueModel)
    requires
        well_keyed(v),
        writable(v),
    ensures
        value_eq(written(v), v),
        well_keyed(written(v)),
    decreases v,
{
    match v {
        ValueModel::Number(n) => {
            match n {
                N::Float(b) => {
                    if float_is_nan(b) {
                        assert(float_is_nan(NAN_BITS));
                    }
                },
                _ => {},
            }
        },
        ValueModel::Sequence(items) => {
            lemma_written_items(items, items.len() as int);
            let w = written_items(items, items.len() as int);
            assert forall|i: int| 0 <= i < items.len() implies value_eq(#[trigger] w[i].inner, items[i].inner) && well_keyed(w[i].inner) by {
                assert(w[i] == dummy_model(written(items[i].inner)));
                assert(well_keyed(items[i].inner) && writable(items[i].inner));
                law_written_value_equals_original(items[i].inner);
            }
            assert forall|i: int| 0 <= i < w.len() implies well_keyed(#[trigger] w[i].inner) by {
                assert(value_eq(w[i].inner, items[i].inner) && well_keyed(w[i].inner));
            }
        },
        ValueModel::Tagged(t, b) => {
            law_bang_then_piece_is_tag(nobang(t));
            law_written_value_equals_original(b.inner);
        },
        ValueModel::Mapping(e) => {
            let w = written_pairs(e);
            assert forall|i: int| 0 <= i < e.len() implies {
                &&& value_eq(written(#[trigger] e[i].0.inner), e[i].0.inner)
                &&& well_keyed(written(e[i].0.inner))
                &&& value_eq(written(e[i].1.inner), e[i].1.inner)
                &&& well_keyed(written(e[i].1.inner))
            } by {
                assert(well_keyed(e[i].0.inner) && well_keyed(e[i].1.inner));
                assert(writable(e[i].0.inner) && writable(e[i].1.inner));
                law_written_value_equals_original(e[i].0.inner);
                law_written_value_equals_original(e[i].1.inner);
            }
            assert forall|i: int, t: int| 0 <= t < i < w.len() implies !value_eq(#[trigger] w[i].0.inner, #[trigger] w[t].0.inner) by {
                let ki = e[i].0.inner;
                let kt = e[t].0.inner;
                let wi = written(ki);
                let wt = written(kt);
                assert(w[i].0.inner == wi && w[t].0.inner == wt);
                assert(value_eq(wi, ki) && well_keyed(wi) && well_keyed(ki));
                assert(value_eq(wt, kt) && well_keyed(wt) && well_keyed(kt));
                if value_eq(wi, wt) {
                    law_value_eq_symmetric(wi, ki);
                    law_value_eq_transitive(ki, wi, wt);
                    law_value_eq_transitive(ki, wt, kt);
                    assert(!value_eq(e[i].0.inner, e[t].0.inner));
                }
            }
            lemma_written_entries(e, e.len() as int);
            assert(w.take(e.len() as int) =~= w);
            assert forall|i: int| 0 <= i < w.len() implies match find_key(e, #[trigger] w[i].0.inner, 0) {
                Some(j) => value_eq(w[i].1.inner, e[j].1.inner),
                None => false,
            } by {
                let ki = e[i].0.inner;
                let wi = written(ki);
                assert(w[i].0.inner == wi && w[i].1.inner == written(e[i].1.inner));
                assert(value_eq(wi, ki) && well_keyed(wi) && well_keyed(ki));
                assert forall|t: int| 0 <= t < i implies !value_eq(wi, #[trigger] e[t].0.inner) by {
                    let kt = e[t].0.inner;
                    assert(well_keyed(kt));
                    if value_eq(wi, kt) {
                        law_value_eq_symmetric(wi, ki);
                        law_value_eq_transitive(ki, wi, kt);
                        assert(!value_eq(e[i].0.inner, e[t].0.inner));
                    }
                }
                lemma_find_key_first(e, wi, 0, i);
            }
            assert forall|i: int| 0 <= i < w.len() implies well_keyed(#[trigger] w[i].0.inner) && well_keyed(w[i].1.inner) by {
                assert(well_keyed(written(e[i].0.inner)) && well_keyed(written(e[i].1.inner)));
            }
        },
        _ => {},
    }
}

proof fn lemma_read_items(xs: Seq<Spanned<ValueModel>>, k: int)
    requires
        0 <= k <= xs.len(),
        forall|j: int| 0 <= j < xs.len() ==> read_back(#[trigger] xs[j].inner) is Some,
    ensures
        read_items(xs, k) matches Some(ys) && ys.len() == k && forall|j: int|
            0 <= j < k ==> #[trigger] ys[j] == dummy_model(read_back(xs[j].inner)->Some_0),
    decreases k,
{
    if k > 0 {
        lemma_read_items(xs, k - 1);
        assert(read_back(xs[k - 1].inner) is Some);
        let ys = read_items(xs, k - 1)->Some_0;
        let zs = read_items(xs, k)->Some_0;
        assert(zs == ys.push(dummy_model(read_back(xs[k - 1].inner)->Some_0)));
        assert forall|j: int| 0 <= j < k implies #[trigger] zs[j] == dummy_model(read_back(xs[j].inner)->Some_0) by {
            if j < k - 1 {
                assert(zs[j] == ys[j]);
            }
        }
    }
}

/// The entries of a mapping, read back.
pub open spec fn read_pairs(e: Seq<EntryModel>) -> Seq<EntryModel> {
    Seq::new(
        e.len(),
        |j: int| (dummy_model(read_back(e[j].0.inner)->Some_0), dummy_model(read_back(e[j].1.inner)->Some_0)),
    )
}

proof fn lemma_read_entries(e: Seq<EntryModel>, k: int)
    requires
        0 <= k <= e.len(),
        forall|j: int| 0 <= j < e.len() ==> read_back(#[trigger] e[j].0.inner) is Some && read_back(e[j].1.inner) is Some,
        keys_distinct(read_pairs(e)),
    ensures
        read_entries(e, k) == Some(read_pairs(e).take(k)),
    decreases k,
{
    let r = read_pairs(e);
    if k == 0 {
        assert(r.take(0) =~= Seq::<EntryModel>::empty());
    } else {
        lemma_read_entries(e, k - 1);
        let m = r.take(k - 1);
        assert(read_back(e[k - 1].0.inner) is Some && read_back(e[k - 1].1.inner) is Some);
        let key = read_back(e[k - 1].0.inner)->Some_0;
        assert(r[k - 1].0.inner == key);
        assert forall|t: int| 0 <= t < m.len() implies !value_eq(key, #[trigger] m[t].0.inner) by {
            assert(m[t] == r[t]);
            assert(!value_eq(r[k - 1].0.inner, r[t].0.inner));
        }
        lemma_find_key_none(m, key, 0);
        assert(m.push(r[k - 1]) =~= r.take(k));
    }
}

/// A value handed on as anything and read back by the reader of values comes back equal to
/// itself: a tagged value comes back tagged with its tag's text, a mapping with all its entries,
/// and every number, string and nesting is kept. This for values whose mappings have distinct
/// keys and whose numbers and tags writing keeps (see [`writable`]).
pub proof fn law_read_back_value_equals_original(v: ValueModel)
    requires
        well_keyed(v),
        writable(v),
    ensures
        read_back(v) matches Some(w) && value_eq(w, v) && well_keyed(w),
    decreases v,
{
    match v {
        ValueModel::Number(n) => {
            match n {
                N::Float(b) => {
                    if float_is_nan(b) {
                        assert(float_is_nan(NAN_BITS));
                    }
                },
                _ => {},
            }
        },
        ValueModel::Sequence(items) => {
            assert forall|i: int| 0 <= i < items.len() implies (read_back(#[trigger] items[i].inner) matches Some(w) && value_eq(w, items[i].inner) && well_keyed(w)) by {
                assert(well_keyed(items[i].inner) && writable(items[i].inner));
                law_read_back_value_equals_original(items[i].inner);
            }
            lemma_read_items(items, items.len() as int);
            let ys = read_items(items, items.len() as int)->Some_0;
            assert forall|i: int| 0 <= i < items.len() implies value_eq(#[trigger] ys[i].inner, items[i].inner) && well_keyed(ys[i].inner) by {
                assert(ys[i] == dummy_model(read_back(items[i].inner)->Some_0));
            }
            assert forall|i: int| 0 <= i < ys.len() implies well_keyed(#[trigger] ys[i].inner) by {
                assert(value_eq(ys[i].inner, items[i].inner) && well_keyed(ys[i].inner));
            }
        },
        ValueModel::Tagged(t, b) => {
            law_read_back_value_equals_original(b.inner);
        },
        ValueModel::Mapping(e) => {
            assert forall|i: int| 0 <= i < e.len() implies {
                &&& read_back(#[trigger] e[i].0.inner) matches Some(w) && value_eq(w, e[i].0.inner) && well_keyed(w)
                &&& read_back(e[i].1.inner) matches Some(w) && value_eq(w, e[i].1.inner) && well_keyed(w)
            } by {
                assert(well_keyed(e[i].0.inner) && well_keyed(e[i].1.inner));
                assert(writable(e[i].0.inner) && writable(e[i].1.inner));
                law_read_back_value_equals_original(e[i].0.inner);
                law_read_back_value_equals_original(e[i].1.inner);
            }
            let r = read_pairs(e);
            assert forall|i: int, t: int| 0 <= t < i < r.len() implies !value_eq(#[trigger] r[i].0.inner, #[trigger] r[t].0.inner) by {
                let ki = e[i].0.inner;
                let kt = e[t].0.inner;
                let wi = read_back(ki)->Some_0;
                let wt = read_back(kt)->Some_0;
                assert(r[i].0.inner == wi && r[t].0.inner == wt);
                assert(value_eq(wi, ki) && well_keyed(wi) && well_keyed(ki));
                assert(value_eq(wt, kt) && well_keyed(wt) && well_keyed(kt));
                if value_eq(wi, wt) {
                    law_value_eq_symmetric(wi, ki);
                    law_value_eq_transitive(ki, wi, wt);
                    law_value_eq_transitive(ki, wt, kt);
                    assert(!value_eq(e[i].0.inner, e[t].0.inner));
                }
            }
            lemma_read_entries(e, e.len() as int);
            assert(r.take(e.len() as int) =~= r);
            assert forall|i: int| 0 <= i < r.len() implies match find_key(e, #[trigger] r[i].0.inner, 0) {
                Some(j) => value_eq(r[i].1.inner, e[j].1.inner),
                None => false,
            } by {
                let ki = e[i].0.inner;
                let wi = read_back(ki)->Some_0;
                assert(r[i].0.inner == wi && r[i].1.inner == read_back(e[i].1.inner)->Some_0);
                assert(value_eq(wi, ki) && well_keyed(wi) && well_keyed(ki));
                assert forall|t: int| 0 <= t < i implies !value_eq(wi, #[trigger] e[t].0.inner) by {
                    let kt = e[t].0.inner;
                    assert(well_keyed(kt));
                    if value_eq(wi, kt) {
                        law_value_eq_symmetric(wi, ki);
                        law_value_eq_transitive(ki, wi, kt);
                        assert(!value_eq(e[i].0.inner, e[t].0.inner));
                    }
                }
                lemma_find_key_first(e, wi, 0, i);
            }
            assert forall|i: int| 0 <= i < r.len() implies well_keyed(#[trigger] r[i].0.inner) && well_keyed(r[i].1.inner) by {
                assert(r[i].0.inner == read_back(e[i].0.inner)->Some_0);
            }
        },
        _ => {},
    }
}

/// The number that an integer between `i64::MIN` and `u64::MAX` is held as: a negative one as a
/// signed integer, any other as an unsigned one.
pub open spec fn integer_number(a: int) -> N {
    if a < 0 {
        N::NegInt(a as i64)
    } else {
        N::PosInt(a as u64)
    }
}

/// Numbers that hold integers are ordered as the integers are, in the total order and in the
/// partial order alike, whichever representation each integer has, and are equal exactly when
/// the integers are.
pub proof fn law_integers_are_ordered_by_value(a: int, b: int)
    requires
        i64::MIN <= a <= u64::MAX,
        i64::MIN <= b <= u64::MAX,
    ensures
        (crate::order::n_total(integer_number(a), integer_number(b)) == crate::order::Rel::Less) == (a < b),
        (crate::order::n_total(integer_number(a), integer_number(b)) == crate::order::Rel::Equal) == (a == b),
        (crate::order::n_total(integer_number(a), integer_number(b)) == crate::order::Rel::Greater) == (a > b),
        crate::order::n_partial(integer_number(a), integer_number(b)) == Some(
            crate::order::n_total(integer_number(a), integer_number(b)),
        ),
        n_eq(integer_number(a), integer_number(b)) == (a == b),
{
}

/// A signed integer is held as the number of its value: the serializer's and the parser's
/// `i64` conversion gives [`integer_number`].
pub proof fn law_i64_is_held_by_value(i: i64)
    ensures
        crate::number::n_from_i64(i) == integer_number(i as int),
{
}

/// Two tagged values are equal only if their tags are, the leading `!` aside.
pub proof fn law_tagged_values_equal_only_with_equal_tags(t: Seq<char>, v: Spanned<ValueModel>, u: Seq<char>, w: Spanned<ValueModel>)
    ensures
        value_eq(ValueModel::Tagged(t, Box::new(v)), ValueModel::Tagged(u, Box::new(w))) ==> nobang(t) == nobang(u),
        value_eq(ValueModel::Tagged(t, Box::new(v)), ValueModel::Tagged(u, Box::new(w))) ==> value_eq(v.inner, w.inner),
{
}

/// A leading `+` does not change the float that a text denotes, where the text after it is not
/// signed itself; the NaN texts are the one exception, which are only NaN without a sign.
pub proof fn law_plus_does_not_change_a_float(s: Seq<char>, reading: Option<u64>)
    requires
        !crate::text::starts_with_sign(s),
        s != seq!['.', 'n', 'a', 'n'],
        s != seq!['.', 'N', 'a', 'N'],
        s != seq!['.', 'N', 'A', 'N'],
    ensures
        crate::number::parse_f64_spec(seq!['+'] + s, reading) == crate::number::parse_f64_spec(s, reading),
{
    let p = seq!['+'] + s;
    assert(p.drop_first() =~= s);
    assert(crate::text::strip_one(p, '+') == s);
    if s.len() > 0 {
        assert(p[1] == s[0]);
    }
}

/// A text that begins with a digit denotes the float that it reads as, where that reading is
/// finite.
pub proof fn law_finite_reading_is_the_float(s: Seq<char>, bits: u64)
    requires
        s.len() > 0,
        '0' <= s[0] <= '9',
        crate::number::float_is_finite(bits),
    ensures
        crate::number::parse_f64_spec(s, Some(bits)) == Some(bits),
{
    assert(crate::text::strip_one(s, '+') == s);
    assert(s != seq!['.', 'i', 'n', 'f'] && s != seq!['.', 'I', 'n', 'f'] && s != seq!['.', 'I', 'N', 'F']) by {
        if s.len() == 4 {
            assert(s[0] != '.');
        }
    }
    assert(s != seq!['-', '.', 'i', 'n', 'f'] && s != seq!['-', '.', 'I', 'n', 'f'] && s != seq!['-', '.', 'I', 'N', 'F']) by {
        if s.len() == 5 {
            assert(s[0] != '-');
        }
    }
    assert(s != seq!['.', 'n', 'a', 'n'] && s != seq!['.', 'N', 'a', 'N'] && s != seq!['.', 'N', 'A', 'N']) by {
        if s.len() == 4 {
            assert(s[0] != '.');
        }
    }
}

/// Equal values are of the same kind, and equal scalars hold the same datum: the same boolean,
/// equal numbers, the same text; equal sequences and mappings have as many elements.
pub proof fn law_equal_values_agree(a: ValueModel, b: ValueModel)
    ensures
        value_eq(a, b) ==> crate::access::kind_of(a) == crate::access::kind_of(b),
        value_eq(a, b) ==> match (a, b) {
            (ValueModel::Bool(x), ValueModel::Bool(y)) => x == y,
            (ValueModel::Number(x), ValueModel::Number(y)) => n_eq(x, y),
            (ValueModel::String(x), ValueModel::String(y)) => x == y,
            (ValueModel::Sequence(x), ValueModel::Sequence(y)) => x.len() == y.len(),
            (ValueModel::Mapping(x), ValueModel::Mapping(y)) => x.len() == y.len(),
            _ => true,
        },
{
}

} // verus!
