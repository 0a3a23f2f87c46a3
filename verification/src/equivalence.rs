//! YAML equality of values is an equivalence on values whose mappings have distinct keys.
use crate::laws::{keys_distinct, well_keyed};
use crate::mapping::EntryModel;
use crate::spanned::Spanned;
use crate::value::{find_key, lemma_find_key_bounds, lemma_find_key_first, value_eq, ValueModel};
use vstd::prelude::*;
use vstd::relations::injective_on;
use vstd::set_lib::{lemma_int_range, lemma_map_size, lemma_subset_equality, set_int_range};

verus! {

/// The height of a value: a scalar has height 0, and a sequence, a mapping or a tagged value one
/// more than the highest of its items, keys, values or tagged value.
pub open spec fn height(v: ValueModel) -> nat
    decreases v, 0nat,
{
    match v {
        ValueModel::Sequence(items) => 1 + items_height(items, items.len() as int),
        ValueModel::Mapping(e) => 1 + entries_height(e, e.len() as int),
        ValueModel::Tagged(_, b) => 1 + height(b.inner),
        _ => 0,
    }
}

/// The greatest height among the first `k` items.
pub open spec fn items_height(items: Seq<Spanned<ValueModel>>, k: int) -> nat
    decreases items, k,
{
    if k <= 0 || k > items.len() {
        0
    } else {
        let d = height(items[k - 1].inner);
        let rest = items_height(items, k - 1);
        if d > rest {
            d
        } else {
            rest
        }
    }
}

/// The greatest height among the keys and values of the first `k` entries.
pub open spec fn entries_height(e: Seq<EntryModel>, k: int) -> nat
    decreases e, k,
{
    if k <= 0 || k > e.len() {
        0
    } else {
        let dk = height(e[k - 1].0.inner);
        let dv = height(e[k - 1].1.inner);
        let rest = entries_height(e, k - 1);
        let d = if dk > dv {
            dk
        } else {
            dv
        };
        if d > rest {
            d
        } else {
            rest
        }
    }
}

proof fn lemma_items_height(items: Seq<Spanned<ValueModel>>, k: int)
    requires
        0 <= k <= items.len(),
    ensures
        forall|i: int| 0 <= i < k ==> height(#[trigger] items[i].inner) <= items_height(items, k),
    decreases k,
{
    if k > 0 {
        lemma_items_height(items, k - 1);
    }
}

proof fn lemma_entries_height(e: Seq<EntryModel>, k: int)
    requires
        0 <= k <= e.len(),
    ensures
        forall|i: int|
            0 <= i < k ==> height(#[trigger] e[i].0.inner) <= entries_height(e, k) && height(e[i].1.inner)
                <= entries_height(e, k),
    decreases k,
{
    if k > 0 {
        lemma_entries_height(e, k - 1);
    }
}

/// The items, keys, values and tagged value of a value are lower than it is, and have distinct
/// keys where it does.
proof fn lemma_children(v: ValueModel)
    requires
        well_keyed(v),
    ensures
        v matches ValueModel::Sequence(xs) ==> forall|i: int|
            0 <= i < xs.len() ==> height(#[trigger] xs[i].inner) < height(v) && well_keyed(xs[i].inner),
        v matches ValueModel::Mapping(e) ==> keys_distinct(e) && forall|i: int|
            0 <= i < e.len() ==> height(#[trigger] e[i].0.inner) < height(v) && height(e[i].1.inner) < height(v)
                && well_keyed(e[i].0.inner) && well_keyed(e[i].1.inner),
        v matches ValueModel::Tagged(_, b) ==> height(b.inner) < height(v) && well_keyed(b.inner),
{
    match v {
        ValueModel::Sequence(xs) => {
            lemma_items_height(xs, xs.len() as int);
            assert forall|i: int| 0 <= i < xs.len() implies height(#[trigger] xs[i].inner) < height(v) && well_keyed(
                xs[i].inner,
            ) by {}
        },
        ValueModel::Mapping(e) => {
            lemma_entries_height(e, e.len() as int);
            assert forall|i: int| 0 <= i < e.len() implies height(#[trigger] e[i].0.inner) < height(v) && height(
                e[i].1.inner,
            ) < height(v) && well_keyed(e[i].0.inner) && well_keyed(e[i].1.inner) by {}
        },
        _ => {},
    }
}

/// Equality of numbers is symmetric and transitive.
proof fn lemma_n_eq(x: crate::number::N, y: crate::number::N, z: crate::number::N)
    ensures
        crate::number::n_eq(x, y) ==> crate::number::n_eq(y, x),
        crate::number::n_eq(x, y) && crate::number::n_eq(y, z) ==> crate::number::n_eq(x, z),
{
}

/// Symmetry and transitivity for values of height at most `n`.
proof fn lemma_eq(n: nat, a: ValueModel, b: ValueModel, c: ValueModel)
    requires
        height(a) <= n,
        height(b) <= n,
        height(c) <= n,
        well_keyed(a),
        well_keyed(b),
        well_keyed(c),
    ensures
        value_eq(a, b) ==> value_eq(b, a),
        value_eq(a, b) && value_eq(b, c) ==> value_eq(a, c),
    decreases n, 1nat,
{
    lemma_children(a);
    lemma_children(b);
    lemma_children(c);
    if value_eq(a, b) {
        match a {
            ValueModel::Number(x) => {
                let y = b->Number_0;
                match c {
                    ValueModel::Number(z) => lemma_n_eq(x, y, z),
                    _ => lemma_n_eq(x, y, y),
                }
            },
            ValueModel::Sequence(xs) => {
                let ys = b->Sequence_0;
                assert forall|i: int| 0 <= i < ys.len() implies value_eq(#[trigger] ys[i].inner, xs[i].inner) by {
                    assert(value_eq(xs[i].inner, ys[i].inner));
                    lemma_eq((n - 1) as nat, xs[i].inner, ys[i].inner, xs[i].inner);
                }
                if value_eq(b, c) {
                    let zs = c->Sequence_0;
                    assert forall|i: int| 0 <= i < xs.len() implies value_eq(#[trigger] xs[i].inner, zs[i].inner) by {
                        assert(value_eq(xs[i].inner, ys[i].inner));
                        assert(value_eq(ys[i].inner, zs[i].inner));
                        lemma_eq((n - 1) as nat, xs[i].inner, ys[i].inner, zs[i].inner);
                    }
                }
            },
            ValueModel::Mapping(xs) => {
                let ys = b->Mapping_0;
                lemma_mapping_sym(n, xs, ys);
                if value_eq(b, c) {
                    let zs = c->Mapping_0;
                    assert(c == ValueModel::Mapping(zs));
                    assert forall|i: int| 0 <= i < zs.len() implies height(#[trigger] zs[i].0.inner) < n && height(
                        zs[i].1.inner,
                    ) < n && well_keyed(zs[i].0.inner) && well_keyed(zs[i].1.inner) by {
                        assert(height(zs[i].0.inner) < height(c));
                        assert(height(zs[i].1.inner) < height(c));
                    }
                    lemma_mapping_trans(n, xs, ys, zs);
                }
            },
            ValueModel::Tagged(t, x) => {
                let y = b->Tagged_1;
                lemma_eq((n - 1) as nat, x.inner, y.inner, x.inner);
                if value_eq(b, c) {
                    let z = c->Tagged_1;
                    lemma_eq((n - 1) as nat, x.inner, y.inner, z.inner);
                }
            },
            _ => {},
        }
    }
}

/// Symmetry for mappings with distinct keys whose keys and values are lower than `n`: each key
/// of the left is found at its own place of the right, so every place of the right is reached.
proof fn lemma_mapping_sym(n: nat, xs: Seq<EntryModel>, ys: Seq<EntryModel>)
    requires
        n > 0,
        keys_distinct(xs),
        keys_distinct(ys),
        forall|i: int|
            0 <= i < xs.len() ==> height(#[trigger] xs[i].0.inner) < n && height(xs[i].1.inner) < n
                && well_keyed(xs[i].0.inner) && well_keyed(xs[i].1.inner),
        forall|i: int|
            0 <= i < ys.len() ==> height(#[trigger] ys[i].0.inner) < n && height(ys[i].1.inner) < n
                && well_keyed(ys[i].0.inner) && well_keyed(ys[i].1.inner),
        value_eq(ValueModel::Mapping(xs), ValueModel::Mapping(ys)),
    ensures
        value_eq(ValueModel::Mapping(ys), ValueModel::Mapping(xs)),
    decreases n, 0nat,
{
    let len = xs.len();
    let m = (n - 1) as nat;
    let f = |i: int|
        match find_key(ys, xs[i].0.inner, 0) {
            Some(j) => j,
            None => 0,
        };
    assert forall|i: int| 0 <= i < len implies 0 <= #[trigger] f(i) < len && value_eq(xs[i].0.inner, ys[f(i)].0.inner)
        && value_eq(xs[i].1.inner, ys[f(i)].1.inner) by {
        lemma_find_key_bounds(ys, xs[i].0.inner, 0);
    }
    let dom = set_int_range(0, len as int);
    lemma_int_range(0, len as int);
    assert forall|i1: int, i2: int| dom.contains(i1) && dom.contains(i2) && #[trigger] f(i1) == #[trigger] f(i2) implies i1
        == i2 by {
        if i1 != i2 {
            let j = f(i1);
            lemma_eq(m, xs[i2].0.inner, ys[j].0.inner, xs[i2].0.inner);
            lemma_eq(m, xs[i1].0.inner, ys[j].0.inner, xs[i2].0.inner);
            lemma_eq(m, xs[i1].0.inner, xs[i2].0.inner, xs[i1].0.inner);
            if i1 < i2 {
                assert(!value_eq(xs[i2].0.inner, xs[i1].0.inner));
            } else {
                assert(!value_eq(xs[i1].0.inner, xs[i2].0.inner));
            }
        }
    }
    assert(injective_on(f, dom));
    let img = dom.map(f);
    lemma_map_size(dom, img, f);
    assert(img.subset_of(dom)) by {
        assert forall|j: int| img.contains(j) implies dom.contains(j) by {
            let i = choose|i: int| dom.contains(i) && j == f(i);
        }
    }
    lemma_subset_equality(img, dom);
    assert forall|j: int| 0 <= j < ys.len() implies match find_key(xs, #[trigger] ys[j].0.inner, 0) {
        Some(i) => value_eq(ys[j].1.inner, xs[i].1.inner),
        None => false,
    } by {
        assert(dom.contains(j));
        assert(img.contains(j));
        let i = choose|i: int| dom.contains(i) && j == f(i);
        lemma_eq(m, xs[i].0.inner, ys[j].0.inner, xs[i].0.inner);
        lemma_eq(m, xs[i].1.inner, ys[j].1.inner, xs[i].1.inner);
        assert forall|t: int| 0 <= t < i implies !value_eq(ys[j].0.inner, #[trigger] xs[t].0.inner) by {
            if value_eq(ys[j].0.inner, xs[t].0.inner) {
                lemma_eq(m, xs[i].0.inner, ys[j].0.inner, xs[t].0.inner);
                assert(!value_eq(xs[i].0.inner, xs[t].0.inner));
            }
        }
        lemma_find_key_first(xs, ys[j].0.inner, 0, i);
    }
}

/// Transitivity for mappings with distinct keys whose keys and values are lower than `n`.
proof fn lemma_mapping_trans(n: nat, xs: Seq<EntryModel>, ys: Seq<EntryModel>, zs: Seq<EntryModel>)
    requires
        n > 0,
        keys_distinct(xs),
        keys_distinct(ys),
        keys_distinct(zs),
        forall|i: int|
            0 <= i < xs.len() ==> height(#[trigger] xs[i].0.inner) < n && height(xs[i].1.inner) < n
                && well_keyed(xs[i].0.inner) && well_keyed(xs[i].1.inner),
        forall|i: int|
            0 <= i < ys.len() ==> height(#[trigger] ys[i].0.inner) < n && height(ys[i].1.inner) < n
                && well_keyed(ys[i].0.inner) && well_keyed(ys[i].1.inner),
        forall|i: int|
            0 <= i < zs.len() ==> height(#[trigger] zs[i].0.inner) < n && height(zs[i].1.inner) < n
                && well_keyed(zs[i].0.inner) && well_keyed(zs[i].1.inner),
        value_eq(ValueModel::Mapping(xs), ValueModel::Mapping(ys)),
        value_eq(ValueModel::Mapping(ys), ValueModel::Mapping(zs)),
    ensures
        value_eq(ValueModel::Mapping(xs), ValueModel::Mapping(zs)),
    decreases n, 0nat,
{
    let m = (n - 1) as nat;
    assert forall|i: int| 0 <= i < xs.len() implies match find_key(zs, #[trigger] xs[i].0.inner, 0) {
        Some(k) => value_eq(xs[i].1.inner, zs[k].1.inner),
        None => false,
    } by {
        lemma_find_key_bounds(ys, xs[i].0.inner, 0);
        let j = find_key(ys, xs[i].0.inner, 0)->Some_0;
        assert(value_eq(xs[i].1.inner, ys[j].1.inner));
        lemma_find_key_bounds(zs, ys[j].0.inner, 0);
        let k = find_key(zs, ys[j].0.inner, 0)->Some_0;
        assert(value_eq(ys[j].1.inner, zs[k].1.inner));
        lemma_eq(m, xs[i].0.inner, ys[j].0.inner, zs[k].0.inner);
        lemma_eq(m, xs[i].1.inner, ys[j].1.inner, zs[k].1.inner);
        assert forall|t: int| 0 <= t < k implies !value_eq(xs[i].0.inner, #[trigger] zs[t].0.inner) by {
            if value_eq(xs[i].0.inner, zs[t].0.inner) {
                lemma_eq(m, xs[i].0.inner, zs[t].0.inner, xs[i].0.inner);
                lemma_eq(m, zs[t].0.inner, xs[i].0.inner, zs[k].0.inner);
                lemma_eq(m, zs[t].0.inner, zs[k].0.inner, zs[t].0.inner);
                assert(!value_eq(zs[k].0.inner, zs[t].0.inner));
            }
        }
        lemma_find_key_first(zs, xs[i].0.inner, 0, k);
    }
}

/// YAML equality is symmetric on values whose mappings have distinct keys (as every value
/// built from a document has).
pub proof fn law_value_eq_symmetric(a: ValueModel, b: ValueModel)
    requires
        well_keyed(a),
        well_keyed(b),
        value_eq(a, b),
    ensures
        value_eq(b, a),
{
    let n = if height(a) > height(b) {
        height(a)
    } else {
        height(b)
    };
    lemma_eq(n, a, b, a);
}

/// YAML equality is transitive on values whose mappings have distinct keys; with reflexivity
/// (`law_value_eq_reflexive`) and symmetry it is an equivalence on them.
pub proof fn law_value_eq_transitive(a: ValueModel, b: ValueModel, c: ValueModel)
    requires
        well_keyed(a),
        well_keyed(b),
        well_keyed(c),
        value_eq(a, b),
        value_eq(b, c),
    ensures
        value_eq(a, c),
{
    let n1 = if height(a) > height(b) {
        height(a)
    } else {
        height(b)
    };
    let n = if n1 > height(c) {
        n1
    } else {
        height(c)
    };
    lemma_eq(n, a, b, c);
}

} // verus!
