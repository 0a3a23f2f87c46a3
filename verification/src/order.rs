//! Orders on numbers and values: a total order used to sort mapping keys, and the partial order
//! of values (numbers compare as numbers, mappings by their entries sorted by key).
use crate::mapping::{EntryModel, Mapping};
use crate::number::{bits_are_nan, float_is_nan, float_order_key, N};
use crate::spanned::Spanned;
use crate::tag::{nobang, nobang_chars};
use crate::text::chars_of;
use crate::value::{entries_model, items_model, lemma_mapping_model, lemma_sequence_model, Value, ValueModel};
use vstd::prelude::*;

verus! {

/// The outcome of comparing two things.
#[derive(Debug, Clone, Copy, PartialEq, Eq, Structural)]
pub enum Rel {
    Less,
    Equal,
    Greater,
}

/// Comparing two integers.
pub open spec fn rel_int(a: int, b: int) -> Rel {
    if a < b {
        Rel::Less
    } else if a == b {
        Rel::Equal
    } else {
        Rel::Greater
    }
}

/// Comparing two booleans: `false` comes first.
pub open spec fn rel_bool(a: bool, b: bool) -> Rel {
    rel_int(if a { 1 } else { 0 }, if b { 1 } else { 0 })
}

/// Comparing two texts character by character (by code point), a prefix first.
pub open spec fn text_rel(a: Seq<char>, b: Seq<char>) -> Rel
    decreases a.len(),
{
    if a.len() == 0 && b.len() == 0 {
        Rel::Equal
    } else if a.len() == 0 {
        Rel::Less
    } else if b.len() == 0 {
        Rel::Greater
    } else if a[0] != b[0] {
        if a[0] < b[0] {
            Rel::Less
        } else {
            Rel::Greater
        }
    } else {
        text_rel(a.drop_first(), b.drop_first())
    }
}

/// Comparing two non-NaN floats by the reals they stand for; nothing where one is NaN.
pub open spec fn float_rel(a: u64, b: u64) -> Option<Rel> {
    if float_is_nan(a) || float_is_nan(b) {
        None
    } else {
        Some(rel_int(float_order_key(a), float_order_key(b)))
    }
}

/// The total order of numbers: negative integers, then non-negative integers, then floats, with
/// NaN after every other float.
pub open spec fn n_total(a: N, b: N) -> Rel {
    match (a, b) {
        (N::PosInt(x), N::PosInt(y)) => rel_int(x as int, y as int),
        (N::NegInt(x), N::NegInt(y)) => rel_int(x as int, y as int),
        (N::NegInt(_), N::PosInt(_)) => Rel::Less,
        (N::PosInt(_), N::NegInt(_)) => Rel::Greater,
        (N::Float(x), N::Float(y)) => match float_rel(x, y) {
            Some(r) => r,
            None => if !float_is_nan(x) {
                Rel::Less
            } else if !float_is_nan(y) {
                Rel::Greater
            } else {
                Rel::Equal
            },
        },
        (_, N::Float(_)) => Rel::Less,
        (N::Float(_), _) => Rel::Greater,
    }
}

/// The partial order of numbers: floats compare as floats except that NaN equals NaN; other
/// pairs as in [`n_total`].
pub open spec fn n_partial(a: N, b: N) -> Option<Rel> {
    match (a, b) {
        (N::Float(x), N::Float(y)) => if float_is_nan(x) && float_is_nan(y) {
            Some(Rel::Equal)
        } else {
            float_rel(x, y)
        },
        _ => Some(n_total(a, b)),
    }
}

/// The position of a value's kind in the order of kinds.
pub open spec fn kind_rank(v: ValueModel) -> int {
    match v {
        ValueModel::Null => 0,
        ValueModel::Bool(_) => 1,
        ValueModel::Number(_) => 2,
        ValueModel::String(_) => 3,
        ValueModel::Sequence(_) => 4,
        ValueModel::Mapping(_) => 5,
        ValueModel::Tagged(_, _) => 6,
    }
}

/// The total order of values used to sort mapping keys: by kind first, then by contents;
/// sequences and mappings lexicographically, mapping entries in their order, key before value;
/// tagged values by tag, then value.
pub open spec fn value_total(a: ValueModel, b: ValueModel) -> Rel
    decreases a, 0int,
{
    if kind_rank(a) != kind_rank(b) {
        rel_int(kind_rank(a), kind_rank(b))
    } else {
        match (a, b) {
            (ValueModel::Bool(x), ValueModel::Bool(y)) => rel_bool(x, y),
            (ValueModel::Number(x), ValueModel::Number(y)) => n_total(x, y),
            (ValueModel::String(x), ValueModel::String(y)) => text_rel(x, y),
            (ValueModel::Sequence(xs), ValueModel::Sequence(ys)) => items_total(xs, ys, 0),
            (ValueModel::Mapping(xs), ValueModel::Mapping(ys)) => entries_total(xs, ys, 0),
            (ValueModel::Tagged(t, v), ValueModel::Tagged(u, w)) => match text_rel(nobang(t), nobang(u)) {
                Rel::Equal => value_total(v.inner, w.inner),
                r => r,
            },
            _ => Rel::Equal,
        }
    }
}

/// Comparing items from index `k` on in the total order; the shorter list first when one is a
/// prefix of the other.
pub open spec fn items_total(xs: Seq<Spanned<ValueModel>>, ys: Seq<Spanned<ValueModel>>, k: int) -> Rel
    decreases xs, xs.len() - k,
{
    if k < 0 || k >= xs.len() {
        if k >= ys.len() {
            Rel::Equal
        } else {
            Rel::Less
        }
    } else if k >= ys.len() {
        Rel::Greater
    } else {
        match value_total(xs[k].inner, ys[k].inner) {
            Rel::Equal => items_total(xs, ys, k + 1),
            r => r,
        }
    }
}

/// Comparing entries from index `k` on in the total order, key before value.
pub open spec fn entries_total(xs: Seq<EntryModel>, ys: Seq<EntryModel>, k: int) -> Rel
    decreases xs, xs.len() - k,
{
    if k < 0 || k >= xs.len() {
        if k >= ys.len() {
            Rel::Equal
        } else {
            Rel::Less
        }
    } else if k >= ys.len() {
        Rel::Greater
    } else {
        match value_total(xs[k].0.inner, ys[k].0.inner) {
            Rel::Equal => match value_total(xs[k].1.inner, ys[k].1.inner) {
                Rel::Equal => entries_total(xs, ys, k + 1),
                r => r,
            },
            r => r,
        }
    }
}

/// The first position from `p` on in `sorted` whose key is greater than key `i`, or the end.
pub open spec fn insert_position(keys: Seq<ValueModel>, sorted: Seq<int>, i: int, p: int) -> int
    decreases sorted.len() - p,
{
    if p < 0 || p >= sorted.len() {
        sorted.len() as int
    } else if value_total(keys[sorted[p]], keys[i]) == Rel::Greater {
        p
    } else {
        insert_position(keys, sorted, i, p + 1)
    }
}

/// The indices `0..n` of `keys` in stable sorted order by the total order: each index is
/// placed after every earlier index whose key is not greater.
pub open spec fn sort_indices_model(keys: Seq<ValueModel>, n: int) -> Seq<int>
    decreases n,
{
    if n <= 0 {
        Seq::empty()
    } else {
        let s = sort_indices_model(keys, n - 1);
        s.insert(insert_position(keys, s, n - 1, 0), n - 1)
    }
}

/// The keys of entries, as values.
pub open spec fn key_values(e: Seq<EntryModel>) -> Seq<ValueModel> {
    Seq::new(e.len(), |i: int| e[i].0.inner)
}

/// The partial order of values: by kind first; numbers as numbers; sequences lexicographically;
/// mappings by their entries sorted by key in the total order, compared lexicographically key
/// before value; tagged values by tag, then value.
pub open spec fn value_partial(a: ValueModel, b: ValueModel) -> Option<Rel>
    decreases a, 0int,
{
    if kind_rank(a) != kind_rank(b) {
        Some(rel_int(kind_rank(a), kind_rank(b)))
    } else {
        match (a, b) {
            (ValueModel::Bool(x), ValueModel::Bool(y)) => Some(rel_bool(x, y)),
            (ValueModel::Number(x), ValueModel::Number(y)) => n_partial(x, y),
            (ValueModel::String(x), ValueModel::String(y)) => Some(text_rel(x, y)),
            (ValueModel::Sequence(xs), ValueModel::Sequence(ys)) => items_partial(xs, ys, 0),
            (ValueModel::Mapping(xs), ValueModel::Mapping(ys)) => sorted_partial(
                xs,
                ys,
                sort_indices_model(key_values(xs), xs.len() as int),
                sort_indices_model(key_values(ys), ys.len() as int),
                0,
            ),
            (ValueModel::Tagged(t, v), ValueModel::Tagged(u, w)) => match text_rel(nobang(t), nobang(u)) {
                Rel::Equal => value_partial(v.inner, w.inner),
                r => Some(r),
            },
            _ => Some(Rel::Equal),
        }
    }
}

/// The partial order of mappings' entries: sorted by key in the total order, then compared
/// lexicographically, key before value.
pub open spec fn mapping_partial(xs: Seq<EntryModel>, ys: Seq<EntryModel>) -> Option<Rel> {
    sorted_partial(
        xs,
        ys,
        sort_indices_model(key_values(xs), xs.len() as int),
        sort_indices_model(key_values(ys), ys.len() as int),
        0,
    )
}

/// Comparing items from index `k` on in the partial order: the first pair that is not equal
/// decides; otherwise the lengths do.
pub open spec fn items_partial(xs: Seq<Spanned<ValueModel>>, ys: Seq<Spanned<ValueModel>>, k: int) -> Option<Rel>
    decreases xs, xs.len() - k,
{
    if k < 0 || k >= xs.len() || k >= ys.len() {
        Some(rel_int(xs.len() as int, ys.len() as int))
    } else {
        match value_partial(xs[k].inner, ys[k].inner) {
            Some(Rel::Equal) => items_partial(xs, ys, k + 1),
            r => r,
        }
    }
}

/// Comparing the entries of two mappings in the orders `ia` and `ib`, from position `k` on:
/// the first pair of entries that is not equal, key before value, decides; otherwise the
/// lengths do.
pub open spec fn sorted_partial(xs: Seq<EntryModel>, ys: Seq<EntryModel>, ia: Seq<int>, ib: Seq<int>, k: int) -> Option<Rel>
    decreases xs, ia.len() - k,
{
    if k < 0 || k >= ia.len() || k >= ib.len() {
        Some(rel_int(ia.len() as int, ib.len() as int))
    } else if !(0 <= ia[k] < xs.len() && 0 <= ib[k] < ys.len()) {
        None
    } else {
        match value_partial(xs[ia[k]].0.inner, ys[ib[k]].0.inner) {
            Some(Rel::Equal) => match value_partial(xs[ia[k]].1.inner, ys[ib[k]].1.inner) {
                Some(Rel::Equal) => sorted_partial(xs, ys, ia, ib, k + 1),
                r => r,
            },
            r => r,
        }
    }
}

/// Comparing two unsigned integers.
fn rel_u64(a: u64, b: u64) -> (r: Rel)
    ensures
        r == rel_int(a as int, b as int),
{
    if a < b {
        Rel::Less
    } else if a == b {
        Rel::Equal
    } else {
        Rel::Greater
    }
}

/// Comparing two signed integers.
fn rel_i128(a: i128, b: i128) -> (r: Rel)
    ensures
        r == rel_int(a as int, b as int),
{
    if a < b {
        Rel::Less
    } else if a == b {
        Rel::Equal
    } else {
        Rel::Greater
    }
}

/// The order key of a float's bit pattern (see [`float_order_key`]).
fn order_key(b: u64) -> (k: i128)
    ensures
        k as int == float_order_key(b),
{
    let m = (b % 0x8000_0000_0000_0000u64) as i128;
    if b >= 0x8000_0000_0000_0000u64 {
        -m
    } else {
        m
    }
}

/// Comparing two floats (see [`float_rel`]).
fn float_rel_exec(a: u64, b: u64) -> (r: Option<Rel>)
    ensures
        r == float_rel(a, b),
{
    if bits_are_nan(a) || bits_are_nan(b) {
        None
    } else {
        Some(rel_i128(order_key(a), order_key(b)))
    }
}

/// Comparing two texts (see [`text_rel`]).
pub fn text_rel_exec(a: &Vec<char>, b: &Vec<char>) -> (r: Rel)
    ensures
        r == text_rel(a@, b@),
{
    let mut i: usize = 0;
    assert(a@.skip(0) =~= a@);
    assert(b@.skip(0) =~= b@);
    while i < a.len() && i < b.len()
        invariant
            i <= a@.len(),
            i <= b@.len(),
            text_rel(a@, b@) == text_rel(a@.skip(i as int), b@.skip(i as int)),
        decreases a.len() - i,
    {
        if a[i] != b[i] {
            assert(a@.skip(i as int)[0] == a@[i as int]);
            assert(b@.skip(i as int)[0] == b@[i as int]);
            return if a[i] < b[i] {
                Rel::Less
            } else {
                Rel::Greater
            };
        }
        assert(a@.skip(i as int).drop_first() =~= a@.skip(i as int + 1));
        assert(b@.skip(i as int).drop_first() =~= b@.skip(i as int + 1));
        i = i + 1;
    }
    if i == a.len() && i == b.len() {
        Rel::Equal
    } else if i == a.len() {
        Rel::Less
    } else {
        Rel::Greater
    }
}

/// The total order of numbers (see [`n_total`]).
pub fn n_total_exec(a: N, b: N) -> (r: Rel)
    ensures
        r == n_total(a, b),
{
    match (a, b) {
        (N::PosInt(x), N::PosInt(y)) => rel_u64(x, y),
        (N::NegInt(x), N::NegInt(y)) => rel_i128(x as i128, y as i128),
        (N::NegInt(_), N::PosInt(_)) => Rel::Less,
        (N::PosInt(_), N::NegInt(_)) => Rel::Greater,
        (N::Float(x), N::Float(y)) => match float_rel_exec(x, y) {
            Some(r) => r,
            None => if !bits_are_nan(x) {
                Rel::Less
            } else if !bits_are_nan(y) {
                Rel::Greater
            } else {
                Rel::Equal
            },
        },
        (_, N::Float(_)) => Rel::Less,
        (N::Float(_), _) => Rel::Greater,
    }
}

/// The partial order of numbers (see [`n_partial`]).
pub fn n_partial_exec(a: N, b: N) -> (r: Option<Rel>)
    ensures
        r == n_partial(a, b),
{
    match (a, b) {
        (N::Float(x), N::Float(y)) => if bits_are_nan(x) && bits_are_nan(y) {
            Some(Rel::Equal)
        } else {
            float_rel_exec(x, y)
        },
        _ => Some(n_total_exec(a, b)),
    }
}

} // verus!

verus! {

/// The position of a value's kind in the order of kinds (see [`kind_rank`]).
fn rank(v: &Value) -> (r: u64)
    ensures
        r as int == kind_rank(v@),
{
    match v {
        Value::Null => 0,
        Value::Bool(_) => 1,
        Value::Number(_) => 2,
        Value::String(_) => 3,
        Value::Sequence(_) => 4,
        Value::Mapping(_) => 5,
        Value::Tagged(_) => 6,
    }
}

/// Comparing two booleans (see [`rel_bool`]).
fn rel_bool_exec(a: bool, b: bool) -> (r: Rel)
    ensures
        r == rel_bool(a, b),
{
    rel_u64(if a { 1 } else { 0 }, if b { 1 } else { 0 })
}

/// Comparing two tags without their leading `!`.
fn tag_rel(a: &String, b: &String) -> (r: Rel)
    ensures
        r == text_rel(nobang(a@), nobang(b@)),
{
    let x = nobang_chars(&chars_of(a.as_str()));
    let y = nobang_chars(&chars_of(b.as_str()));
    text_rel_exec(&x, &y)
}

/// The indices of a sequence of indices, as integers.
pub open spec fn index_model(v: Seq<usize>) -> Seq<int> {
    Seq::new(v.len(), |i: int| v[i] as int)
}

/// What [`insert_position`] finds lies between `p` and the end.
proof fn lemma_insert_position_bounds(keys: Seq<ValueModel>, sorted: Seq<int>, i: int, p: int)
    requires
        0 <= p <= sorted.len(),
    ensures
        p <= insert_position(keys, sorted, i, p) <= sorted.len(),
    decreases sorted.len() - p,
{
    if p < sorted.len() && value_total(keys[sorted[p]], keys[i]) != Rel::Greater {
        lemma_insert_position_bounds(keys, sorted, i, p + 1);
    }
}

/// The sorted indices of the first `n` keys are the numbers below `n`, each once.
pub proof fn lemma_sort_indices_range(keys: Seq<ValueModel>, n: int)
    requires
        0 <= n,
    ensures
        sort_indices_model(keys, n).len() == n,
        forall|t: int| 0 <= t < n ==> 0 <= #[trigger] sort_indices_model(keys, n)[t] < n,
    decreases n,
{
    if n > 0 {
        lemma_sort_indices_range(keys, n - 1);
        let s = sort_indices_model(keys, n - 1);
        lemma_insert_position_bounds(keys, s, n - 1, 0);
        let p = insert_position(keys, s, n - 1, 0);
        assert forall|t: int| 0 <= t < n implies 0 <= #[trigger] s.insert(p, n - 1)[t] < n by {
            if t < p {
                assert(s.insert(p, n - 1)[t] == s[t]);
            } else if t > p {
                assert(s.insert(p, n - 1)[t] == s[t - 1]);
            }
        }
    }
}

/// Sorts the indices of the entries by key in the total order, stably (see
/// [`sort_indices_model`]).
#[verifier::loop_isolation(false)]
fn sort_entry_indices(entries: &Vec<(Spanned<Value>, Spanned<Value>)>) -> (r: Vec<usize>)
    ensures
        index_model(r@) == sort_indices_model(key_values(entries_model(entries@)), entries@.len() as int),
{
    let ghost keys = key_values(entries_model(entries@));
    let mut sorted: Vec<usize> = Vec::new();
    let mut n: usize = 0;
    proof {
        assert(index_model(sorted@) =~= Seq::<int>::empty());
    }
    while n < entries.len()
        invariant
            n <= entries@.len(),
            keys == key_values(entries_model(entries@)),
            index_model(sorted@) == sort_indices_model(keys, n as int),
        decreases entries.len() - n,
    {
        let ghost s = index_model(sorted@);
        proof {
            lemma_sort_indices_range(keys, n as int);
        }
        let mut p: usize = 0;
        while p < sorted.len()
            invariant
                p <= sorted@.len(),
                n < entries@.len(),
                keys == key_values(entries_model(entries@)),
                s == index_model(sorted@),
                sorted@.len() == n,
                forall|t: int| 0 <= t < n ==> 0 <= #[trigger] s[t] < n,
                insert_position(keys, s, n as int, 0) == insert_position(keys, s, n as int, p as int),
            decreases sorted.len() - p,
        {
            let j = sorted[p];
            assert(s[p as int] == j as int);
            if entries[j].0.inner.total_rel(&entries[n].0.inner) == Rel::Greater {
                break;
            }
            p = p + 1;
        }
        proof {
            lemma_insert_position_bounds(keys, s, n as int, p as int);
        }
        sorted.insert(p, n);
        proof {
            assert(index_model(sorted@) =~= s.insert(p as int, n as int));
        }
        n = n + 1;
    }
    sorted
}

impl Value {
    /// The total order of values (see [`value_total`]).
    #[verifier::loop_isolation(false)]
    pub fn total_rel(&self, other: &Value) -> (r: Rel)
        ensures
            r == value_total(self@, other@),
        decreases self,
    {
        let ra = rank(self);
        let rb = rank(other);
        if ra != rb {
            return rel_u64(ra, rb);
        }
        match self {
            Value::Bool(x) => match other {
                Value::Bool(y) => rel_bool_exec(*x, *y),
                _ => Rel::Equal,
            },
            Value::Number(x) => match other {
                Value::Number(y) => n_total_exec(x.0, y.0),
                _ => Rel::Equal,
            },
            Value::String(x) => match other {
                Value::String(y) => text_rel_exec(&chars_of(x.as_str()), &chars_of(y.as_str())),
                _ => Rel::Equal,
            },
            Value::Sequence(xs) => match other {
                Value::Sequence(ys) => {
                    proof {
                        lemma_sequence_model(*xs);
                        lemma_sequence_model(*ys);
                    }
                    let ghost xm = items_model(xs@);
                    let ghost ym = items_model(ys@);
                    let mut k: usize = 0;
                    while k < xs.len() && k < ys.len()
                        invariant
                            k <= xs@.len(),
                            k <= ys@.len(),
                            xm == items_model(xs@),
                            ym == items_model(ys@),
                            items_total(xm, ym, 0) == items_total(xm, ym, k as int),
                        decreases xs.len() - k,
                    {
                        proof {
                            assert(decreases_to!(*self => *xs));
                            assert(decreases_to!(*xs => xs@));
                            assert(decreases_to!(xs@ => xs@[k as int]));
                            assert(decreases_to!(xs@[k as int] => xs@[k as int].inner));
                        }
                        let r = xs[k].inner.total_rel(&ys[k].inner);
                        if r != Rel::Equal {
                            return r;
                        }
                        k = k + 1;
                    }
                    if k == xs.len() {
                        if k == ys.len() {
                            Rel::Equal
                        } else {
                            Rel::Less
                        }
                    } else {
                        Rel::Greater
                    }
                },
                _ => Rel::Equal,
            },
            Value::Mapping(xm) => match other {
                Value::Mapping(ym) => {
                    proof {
                        lemma_mapping_model(*xm);
                        lemma_mapping_model(*ym);
                    }
                    let xs = &xm.0;
                    let ys = &ym.0;
                    let ghost xe = entries_model(xs@);
                    let ghost ye = entries_model(ys@);
                    let mut k: usize = 0;
                    while k < xs.len() && k < ys.len()
                        invariant
                            k <= xs@.len(),
                            k <= ys@.len(),
                            xe == entries_model(xs@),
                            ye == entries_model(ys@),
                            entries_total(xe, ye, 0) == entries_total(xe, ye, k as int),
                        decreases xs.len() - k,
                    {
                        proof {
                            assert(decreases_to!(*self => *xm));
                            assert(decreases_to!(*xm => xm.0));
                            assert(decreases_to!(xm.0 => xm.0@));
                            assert(decreases_to!(xm.0@ => xm.0@[k as int]));
                            assert(decreases_to!(xm.0@[k as int] => xm.0@[k as int].0));
                            assert(decreases_to!(xm.0@[k as int] => xm.0@[k as int].1));
                            assert(decreases_to!(xm.0@[k as int].0 => xm.0@[k as int].0.inner));
                            assert(decreases_to!(xm.0@[k as int].1 => xm.0@[k as int].1.inner));
                        }
                        let r = xs[k].0.inner.total_rel(&ys[k].0.inner);
                        if r != Rel::Equal {
                            return r;
                        }
                        let r = xs[k].1.inner.total_rel(&ys[k].1.inner);
                        if r != Rel::Equal {
                            return r;
                        }
                        k = k + 1;
                    }
                    if k == xs.len() {
                        if k == ys.len() {
                            Rel::Equal
                        } else {
                            Rel::Less
                        }
                    } else {
                        Rel::Greater
                    }
                },
                _ => Rel::Equal,
            },
            Value::Tagged(t) => match other {
                Value::Tagged(u) => {
                    let r = tag_rel(&t.tag.string, &u.tag.string);
                    if r == Rel::Equal {
                        t.value.inner.total_rel(&u.value.inner)
                    } else {
                        r
                    }
                },
                _ => Rel::Equal,
            },
            Value::Null => Rel::Equal,
        }
    }

    /// The partial order of values (see [`value_partial`]).
    #[verifier::loop_isolation(false)]
    pub fn partial_rel(&self, other: &Value) -> (r: Option<Rel>)
        ensures
            r == value_partial(self@, other@),
        decreases self,
    {
        let ra = rank(self);
        let rb = rank(other);
        if ra != rb {
            return Some(rel_u64(ra, rb));
        }
        match self {
            Value::Bool(x) => match other {
                Value::Bool(y) => Some(rel_bool_exec(*x, *y)),
                _ => Some(Rel::Equal),
            },
            Value::Number(x) => match other {
                Value::Number(y) => n_partial_exec(x.0, y.0),
                _ => Some(Rel::Equal),
            },
            Value::String(x) => match other {
                Value::String(y) => Some(text_rel_exec(&chars_of(x.as_str()), &chars_of(y.as_str()))),
                _ => Some(Rel::Equal),
            },
            Value::Sequence(xs) => match other {
                Value::Sequence(ys) => {
                    proof {
                        lemma_sequence_model(*xs);
                        lemma_sequence_model(*ys);
                    }
                    let ghost xm = items_model(xs@);
                    let ghost ym = items_model(ys@);
                    let mut k: usize = 0;
                    while k < xs.len() && k < ys.len()
                        invariant
                            k <= xs@.len(),
                            k <= ys@.len(),
                            xm == items_model(xs@),
                            ym == items_model(ys@),
                            items_partial(xm, ym, 0) == items_partial(xm, ym, k as int),
                        decreases xs.len() - k,
                    {
                        proof {
                            assert(decreases_to!(*self => *xs));
                            assert(decreases_to!(*xs => xs@));
                            assert(decreases_to!(xs@ => xs@[k as int]));
                            assert(decreases_to!(xs@[k as int] => xs@[k as int].inner));
                        }
                        let r = xs[k].inner.partial_rel(&ys[k].inner);
                        if r != Some(Rel::Equal) {
                            return r;
                        }
                        k = k + 1;
                    }
                    Some(rel_u64(xs.len() as u64, ys.len() as u64))
                },
                _ => Some(Rel::Equal),
            },
            Value::Mapping(xm) => match other {
                Value::Mapping(ym) => {
                    proof {
                        lemma_mapping_model(*xm);
                        lemma_mapping_model(*ym);
                    }
                    let xs = &xm.0;
                    let ys = &ym.0;
                    let ghost xe = entries_model(xs@);
                    let ghost ye = entries_model(ys@);
                    let ia = sort_entry_indices(xs);
                    let ib = sort_entry_indices(ys);
                    let ghost sa = index_model(ia@);
                    let ghost sb = index_model(ib@);
                    let mut k: usize = 0;
                    while k < ia.len() && k < ib.len()
                        invariant
                            k <= ia@.len(),
                            k <= ib@.len(),
                            xe == entries_model(xs@),
                            ye == entries_model(ys@),
                            sa == index_model(ia@),
                            sb == index_model(ib@),
                            sorted_partial(xe, ye, sa, sb, 0) == sorted_partial(xe, ye, sa, sb, k as int),
                        decreases ia.len() - k,
                    {
                        let i = ia[k];
                        let j = ib[k];
                        assert(sa[k as int] == i as int && sb[k as int] == j as int);
                        if i >= xs.len() || j >= ys.len() {
                            return None;
                        }
                        proof {
                            assert(decreases_to!(*self => *xm));
                            assert(decreases_to!(*xm => xm.0));
                            assert(decreases_to!(xm.0 => xm.0@));
                            assert(decreases_to!(xm.0@ => xm.0@[i as int]));
                            assert(decreases_to!(xm.0@[i as int] => xm.0@[i as int].0));
                            assert(decreases_to!(xm.0@[i as int] => xm.0@[i as int].1));
                            assert(decreases_to!(xm.0@[i as int].0 => xm.0@[i as int].0.inner));
                            assert(decreases_to!(xm.0@[i as int].1 => xm.0@[i as int].1.inner));
                        }
                        let r = xs[i].0.inner.partial_rel(&ys[j].0.inner);
                        if r != Some(Rel::Equal) {
                            return r;
                        }
                        let r = xs[i].1.inner.partial_rel(&ys[j].1.inner);
                        if r != Some(Rel::Equal) {
                            return r;
                        }
                        k = k + 1;
                    }
                    Some(rel_u64(ia.len() as u64, ib.len() as u64))
                },
                _ => Some(Rel::Equal),
            },
            Value::Tagged(t) => match other {
                Value::Tagged(u) => {
                    let r = tag_rel(&t.tag.string, &u.tag.string);
                    if r == Rel::Equal {
                        t.value.inner.partial_rel(&u.value.inner)
                    } else {
                        Some(r)
                    }
                },
                _ => Some(Rel::Equal),
            },
            Value::Null => Some(Rel::Equal),
        }
    }
}

impl Mapping {
    /// The partial order of mappings: their entries sorted by key in the total order, compared
    /// lexicographically key before value (see [`value_partial`]).
    #[verifier::loop_isolation(false)]
    pub fn partial_rel(&self, other: &Mapping) -> (r: Option<Rel>)
        ensures
            r == mapping_partial(self@, other@),
    {
        let xs = &self.0;
        let ys = &other.0;
        let ghost xe = entries_model(xs@);
        let ghost ye = entries_model(ys@);
        let ia = sort_entry_indices(xs);
        let ib = sort_entry_indices(ys);
        let ghost sa = index_model(ia@);
        let ghost sb = index_model(ib@);
        let mut k: usize = 0;
        while k < ia.len() && k < ib.len()
            invariant
                k <= ia@.len(),
                k <= ib@.len(),
                xe == entries_model(xs@),
                ye == entries_model(ys@),
                xs == &self.0,
                ys == &other.0,
                sa == index_model(ia@),
                sb == index_model(ib@),
                sorted_partial(xe, ye, sa, sb, 0) == sorted_partial(xe, ye, sa, sb, k as int),
            decreases ia.len() - k,
        {
            let i = ia[k];
            let j = ib[k];
            assert(sa[k as int] == i as int && sb[k as int] == j as int);
            if i >= xs.len() || j >= ys.len() {
                return None;
            }
            let r = xs[i].0.inner.partial_rel(&ys[j].0.inner);
            if r != Some(Rel::Equal) {
                return r;
            }
            let r = xs[i].1.inner.partial_rel(&ys[j].1.inner);
            if r != Some(Rel::Equal) {
                return r;
            }
            k = k + 1;
        }
        Some(rel_u64(ia.len() as u64, ib.len() as u64))
    }
}

} // verus!
