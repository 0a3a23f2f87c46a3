//! The YAML value tree.
use crate::mapping::Mapping;
use crate::number::{n_eq, Number, N};
use crate::spanned::Spanned;
use crate::tag::{nobang, TaggedValue};
use vstd::prelude::*;

verus! {

/// A YAML sequence.
pub type Sequence = Vec<Spanned<Value>>;

/// Any valid YAML value.
#[derive(Debug)]
pub enum Value {
    Null,
    Bool(bool),
    Number(Number),
    String(String),
    Sequence(Sequence),
    Mapping(Mapping),
    Tagged(Box<TaggedValue>),
}

/// The mathematical model of a [`Value`]: strings as character sequences, sequences and
/// mappings as sequences of spanned models.
pub enum ValueModel {
    Null,
    Bool(bool),
    Number(N),
    String(Seq<char>),
    Sequence(Seq<Spanned<ValueModel>>),
    Mapping(Seq<(Spanned<ValueModel>, Spanned<ValueModel>)>),
    Tagged(Seq<char>, Box<Spanned<ValueModel>>),
}

impl Value {
    /// The model of the value.
    pub open spec fn model(self) -> ValueModel
        decreases self,
    {
        match self {
            Value::Null => ValueModel::Null,
            Value::Bool(b) => ValueModel::Bool(b),
            Value::Number(n) => ValueModel::Number(n.0),
            Value::String(s) => ValueModel::String(s@),
            Value::Sequence(v) => ValueModel::Sequence(
                Seq::new(
                    v@.len(),
                    |i: int|
                        if 0 <= i < v@.len() {
                            Spanned { span: v@[i].span, inner: v@[i].inner.model() }
                        } else {
                            Spanned { span: v@[0].span, inner: ValueModel::Null }
                        },
                ),
            ),
            Value::Mapping(m) => ValueModel::Mapping(
                Seq::new(
                    m.0@.len(),
                    |i: int|
                        if 0 <= i < m.0@.len() {
                            (
                                Spanned { span: m.0@[i].0.span, inner: m.0@[i].0.inner.model() },
                                Spanned { span: m.0@[i].1.span, inner: m.0@[i].1.inner.model() },
                            )
                        } else {
                            (
                                Spanned { span: m.0@[0].0.span, inner: ValueModel::Null },
                                Spanned { span: m.0@[0].0.span, inner: ValueModel::Null },
                            )
                        },
                ),
            ),
            Value::Tagged(t) => ValueModel::Tagged(
                t.tag.string@,
                Box::new(Spanned { span: t.value.span, inner: t.value.inner.model() }),
            ),
        }
    }
}

impl View for Value {
    type V = ValueModel;

    open spec fn view(&self) -> ValueModel {
        self.model()
    }
}

/// The first index `j >= from` of `entries` whose key is YAML-equal to `key`, as a lookup by key
/// finds it.
pub open spec fn find_key(entries: Seq<(Spanned<ValueModel>, Spanned<ValueModel>)>, key: ValueModel, from: int) -> Option<int>
    decreases key, entries.len() - from,
{
    if from < 0 || from >= entries.len() {
        None
    } else if value_eq(key, entries[from].0.inner) {
        Some(from)
    } else {
        find_key(entries, key, from + 1)
    }
}

/// YAML equality of values: spans do not count, numbers compare as YAML numbers, tags without
/// their leading `!`, sequences element by element, and mappings regardless of order, each key
/// of the left looked up among the keys of the right.
pub open spec fn value_eq(a: ValueModel, b: ValueModel) -> bool
    decreases a, 0int,
{
    match a {
        ValueModel::Null => b is Null,
        ValueModel::Bool(x) => b matches ValueModel::Bool(y) && x == y,
        ValueModel::Number(x) => b matches ValueModel::Number(y) && n_eq(x, y),
        ValueModel::String(x) => b matches ValueModel::String(y) && x == y,
        ValueModel::Sequence(xs) => b matches ValueModel::Sequence(ys) && xs.len() == ys.len()
            && forall|i: int| 0 <= i < xs.len() ==> value_eq(#[trigger] xs[i].inner, ys[i].inner),
        ValueModel::Mapping(xs) => b matches ValueModel::Mapping(ys) && xs.len() == ys.len()
            && forall|i: int|
            0 <= i < xs.len() ==> match find_key(ys, #[trigger] xs[i].0.inner, 0) {
                Some(j) => value_eq(xs[i].1.inner, ys[j].1.inner),
                None => false,
            },
        ValueModel::Tagged(t, v) => b matches ValueModel::Tagged(u, w) && nobang(t) == nobang(u)
            && value_eq(v.inner, w.inner),
    }
}

/// [`find_key`] finds the first equal key at or after `from`.
pub proof fn lemma_find_key_first(
    e: Seq<(Spanned<ValueModel>, Spanned<ValueModel>)>,
    k: ValueModel,
    from: int,
    j: int,
)
    requires
        0 <= from <= j < e.len(),
        forall|t: int| from <= t < j ==> !value_eq(k, #[trigger] e[t].0.inner),
        value_eq(k, e[j].0.inner),
    ensures
        find_key(e, k, from) == Some(j),
    decreases j - from,
{
    if from < j {
        lemma_find_key_first(e, k, from + 1, j);
    }
}

/// [`find_key`] finds nothing where no key at or after `from` is equal.
pub proof fn lemma_find_key_none(e: Seq<(Spanned<ValueModel>, Spanned<ValueModel>)>, k: ValueModel, from: int)
    requires
        0 <= from <= e.len(),
        forall|t: int| from <= t < e.len() ==> !value_eq(k, #[trigger] e[t].0.inner),
    ensures
        find_key(e, k, from) is None,
    decreases e.len() - from,
{
    if from < e.len() {
        lemma_find_key_none(e, k, from + 1);
    }
}

/// What [`find_key`] finds is an index at or after `from` whose key equals `k`.
pub proof fn lemma_find_key_bounds(e: Seq<(Spanned<ValueModel>, Spanned<ValueModel>)>, k: ValueModel, from: int)
    ensures
        find_key(e, k, from) matches Some(j) ==> 0 <= from <= j < e.len() && value_eq(k, e[j].0.inner),
    decreases e.len() - from,
{
    if 0 <= from < e.len() && !value_eq(k, e[from].0.inner) {
        lemma_find_key_bounds(e, k, from + 1);
    }
}

/// The model of a spanned value.
pub open spec fn spanned_model(x: Spanned<Value>) -> Spanned<ValueModel> {
    Spanned { span: x.span, inner: x.inner@ }
}

/// The model of the entries of a mapping.
pub open spec fn entries_model(v: Seq<(Spanned<Value>, Spanned<Value>)>) -> Seq<(Spanned<ValueModel>, Spanned<ValueModel>)> {
    Seq::new(v.len(), |i: int| (spanned_model(v[i].0), spanned_model(v[i].1)))
}

/// The model of the items of a sequence.
pub open spec fn items_model(v: Seq<Spanned<Value>>) -> Seq<Spanned<ValueModel>> {
    Seq::new(v.len(), |i: int| spanned_model(v[i]))
}

/// The model of a sequence value is the sequence of its items' models.
pub proof fn lemma_sequence_model(v: Vec<Spanned<Value>>)
    ensures
        Value::Sequence(v)@ == ValueModel::Sequence(items_model(v@)),
{
    assert(items_model(v@) =~= match Value::Sequence(v)@ {
        ValueModel::Sequence(s) => s,
        _ => Seq::empty(),
    });
}

/// The model of a mapping value is the sequence of its entries' models.
pub proof fn lemma_mapping_model(m: Mapping)
    ensures
        Value::Mapping(m)@ == ValueModel::Mapping(entries_model(m.0@)),
{
    assert(entries_model(m.0@) =~= match Value::Mapping(m)@ {
        ValueModel::Mapping(s) => s,
        _ => Seq::empty(),
    });
}

impl Value {
    /// YAML equality of values (see [`value_eq`]).
    #[verifier::loop_isolation(false)]
    pub fn equals(&self, other: &Value) -> (r: bool)
        ensures
            r == value_eq(self@, other@),
        decreases self,
    {
        match self {
            Value::Null => match other {
                Value::Null => {
                    assert(value_eq(self@, other@));
                    true
                },
                _ => {
                    assert(!value_eq(self@, other@));
                    false
                },
            },
            Value::Bool(x) => match other {
                Value::Bool(y) => {
                    let r = *x == *y;
                    assert(r == value_eq(self@, other@));
                    r
                },
                _ => {
                    assert(!value_eq(self@, other@));
                    false
                },
            },
            Value::Number(x) => match other {
                Value::Number(y) => {
                    let r = x.equals(y);
                    assert(r == value_eq(self@, other@));
                    r
                },
                _ => {
                    assert(!value_eq(self@, other@));
                    false
                },
            },
            Value::String(x) => match other {
                Value::String(y) => {
                    let r = x.eq(y);
                    assert(r == value_eq(self@, other@));
                    r
                },
                _ => {
                    assert(!value_eq(self@, other@));
                    false
                },
            },
            Value::Sequence(xs) => match other {
            Value::Sequence(ys) => {
                proof {
                    lemma_sequence_model(*xs);
                    lemma_sequence_model(*ys);
                }
                let ghost xm = items_model(xs@);
                let ghost ym = items_model(ys@);
                if xs.len() != ys.len() {
                    return false;
                }
                let mut i: usize = 0;
                while i < xs.len()
                    invariant
                        i <= xs.len() == ys.len(),
                        xm == items_model(xs@),
                        ym == items_model(ys@),
                        forall|j: int| 0 <= j < i ==> value_eq(#[trigger] xm[j].inner, ym[j].inner),
                    decreases xs.len() - i,
                {
                    proof {
                        assert(decreases_to!(*self => *xs));
                        assert(decreases_to!(*xs => xs@));
                        assert(decreases_to!(xs@ => xs@[i as int]));
                        assert(decreases_to!(xs@[i as int] => xs@[i as int].inner));
                    }
                    if !xs[i].inner.equals(&ys[i].inner) {
                        assert(!value_eq(xm[i as int].inner, ym[i as int].inner));
                        return false;
                    }
                    i = i + 1;
                }
                assert(value_eq(self@, other@));
                true
            },
            _ => {
                assert(!value_eq(self@, other@));
                false
            },
            },
            Value::Mapping(xm) => match other {
                Value::Mapping(ym) => {
                    proof {
                        lemma_mapping_model(*xm);
                        lemma_mapping_model(*ym);
                        assert(decreases_to!(*self => *xm));
                    }
                    xm.equals(ym)
                },
                _ => {
                    assert(!value_eq(self@, other@));
                    false
                },
            },
            Value::Tagged(t) => match other {
                Value::Tagged(u) => {
                    let r = t.tag.equals(&u.tag) && t.value.inner.equals(&u.value.inner);
                    assert(r == value_eq(self@, other@));
                    r
                },
                _ => {
                    assert(!value_eq(self@, other@));
                    false
                },
            },
        }
    }
}

impl Mapping {
    /// YAML equality of mappings: as many entries, and each key of the left is found among the
    /// keys of the right with an equal value (see [`value_eq`]).
    #[verifier::loop_isolation(false)]
    pub fn equals(&self, other: &Mapping) -> (r: bool)
        ensures
            r == value_eq(Value::Mapping(*self)@, Value::Mapping(*other)@),
        decreases *self,
    {
        proof {
            lemma_mapping_model(*self);
            lemma_mapping_model(*other);
        }
        let xs = &self.0;
        let ys = &other.0;
        let ghost xe = entries_model(xs@);
        let ghost ye = entries_model(ys@);
        if xs.len() != ys.len() {
            return false;
        }
        let mut i: usize = 0;
        while i < xs.len()
            invariant
                i <= xs.len() == ys.len(),
                xe == entries_model(xs@),
                ye == entries_model(ys@),
                forall|t: int|
                    0 <= t < i ==> match find_key(ye, #[trigger] xe[t].0.inner, 0) {
                        Some(j) => value_eq(xe[t].1.inner, ye[j].1.inner),
                        None => false,
                    },
            decreases xs.len() - i,
        {
            let mut j: usize = 0;
            let mut found = false;
            proof {
                assert(decreases_to!(*self => self.0));
                assert(decreases_to!(self.0 => self.0@));
                assert(decreases_to!(self.0@ => self.0@[i as int]));
                assert(decreases_to!(self.0@[i as int] => self.0@[i as int].0));
                assert(decreases_to!(self.0@[i as int] => self.0@[i as int].1));
                assert(decreases_to!(self.0@[i as int].0 => self.0@[i as int].0.inner));
                assert(decreases_to!(self.0@[i as int].1 => self.0@[i as int].1.inner));
            }
            while j < ys.len()
                invariant
                    i < xs.len(),
                    j <= ys.len(),
                    !found,
                    xe == entries_model(xs@),
                    ye == entries_model(ys@),
                    forall|t: int| 0 <= t < j ==> !value_eq(xe[i as int].0.inner, #[trigger] ye[t].0.inner),
                decreases ys.len() - j,
            {
                if xs[i].0.inner.equals(&ys[j].0.inner) {
                    found = true;
                    break;
                }
                j = j + 1;
            }
            if !found {
                proof {
                    lemma_find_key_none(ye, xe[i as int].0.inner, 0);
                }
                return false;
            }
            proof {
                lemma_find_key_first(ye, xe[i as int].0.inner, 0, j as int);
            }
            if !xs[i].1.inner.equals(&ys[j].1.inner) {
                return false;
            }
            i = i + 1;
        }
        assert(value_eq(Value::Mapping(*self)@, Value::Mapping(*other)@));
        true
    }
}

impl Value {
    /// A deep copy of the value, with its spans.
    #[verifier::loop_isolation(false)]
    pub fn duplicate(&self) -> (r: Value)
        ensures
            r@ == self@,
        decreases self,
    {
        match self {
            Value::Null => Value::Null,
            Value::Bool(b) => Value::Bool(*b),
            Value::Number(n) => Value::Number(Number(n.0)),
            Value::String(s) => Value::String(s.clone()),
            Value::Sequence(xs) => {
                let mut out: Vec<Spanned<Value>> = Vec::new();
                let mut i: usize = 0;
                while i < xs.len()
                    invariant
                        i <= xs.len(),
                        out@.len() == i,
                        *self == Value::Sequence(*xs),
                        forall|j: int| 0 <= j < i ==> #[trigger] spanned_model(out@[j]) == spanned_model(xs@[j]),
                    decreases xs.len() - i,
                {
                    proof {
                        assert(decreases_to!(*self => *xs));
                        assert(decreases_to!(*xs => xs@));
                        assert(decreases_to!(xs@ => xs@[i as int]));
                        assert(decreases_to!(xs@[i as int] => xs@[i as int].inner));
                    }
                    let inner = xs[i].inner.duplicate();
                    out.push(Spanned { span: xs[i].span, inner });
                    i = i + 1;
                }
                proof {
                    lemma_sequence_model(*xs);
                    lemma_sequence_model(out);
                    assert(items_model(out@) =~= items_model(xs@));
                }
                Value::Sequence(out)
            },
            Value::Mapping(m) => {
                let r = m.duplicate_entries();
                proof {
                    lemma_mapping_model(*m);
                    lemma_mapping_model(r);
                }
                Value::Mapping(r)
            },
            Value::Tagged(t) => {
                let inner = t.value.inner.duplicate();
                Value::Tagged(
                    Box::new(
                        TaggedValue {
                            tag: t.tag.duplicate(),
                            value: Spanned { span: t.value.span, inner },
                        },
                    ),
                )
            },
        }
    }
}

impl Mapping {
    /// A deep copy of the mapping's entries.
    #[verifier::loop_isolation(false)]
    pub fn duplicate_entries(&self) -> (r: Mapping)
        ensures
            entries_model(r.0@) == entries_model(self.0@),
        decreases *self,
    {
        let xs = &self.0;
        let mut out: Vec<(Spanned<Value>, Spanned<Value>)> = Vec::new();
        let mut i: usize = 0;
        proof {
            assert(entries_model(out@) =~= entries_model(xs@).take(0));
        }
        while i < xs.len()
            invariant
                i <= xs.len(),
                xs == &self.0,
                entries_model(out@) == entries_model(xs@).take(i as int),
            decreases xs.len() - i,
        {
            proof {
                assert(decreases_to!(*self => self.0));
                assert(decreases_to!(self.0 => self.0@));
                assert(decreases_to!(self.0@ => self.0@[i as int]));
                assert(decreases_to!(self.0@[i as int] => self.0@[i as int].0));
                assert(decreases_to!(self.0@[i as int] => self.0@[i as int].1));
                assert(decreases_to!(self.0@[i as int].0 => self.0@[i as int].0.inner));
                assert(decreases_to!(self.0@[i as int].1 => self.0@[i as int].1.inner));
            }
            let k = xs[i].0.inner.duplicate();
            let v = xs[i].1.inner.duplicate();
            let ghost before = out@;
            out.push((Spanned { span: xs[i].0.span, inner: k }, Spanned { span: xs[i].1.span, inner: v }));
            proof {
                assert(entries_model(out@) =~= entries_model(xs@).take(i as int + 1));
            }
            i = i + 1;
        }
        assert(entries_model(xs@).take(xs@.len() as int) =~= entries_model(xs@));
        assert(entries_model(out@) =~= entries_model(xs@));
        Mapping(out)
    }
}

impl Clone for Value {
    fn clone(&self) -> (r: Value)
        ensures
            r@ == self@,
    {
        self.duplicate()
    }
}

impl Clone for Mapping {
    fn clone(&self) -> (r: Mapping)
        ensures
            entries_model(r.0@) == entries_model(self.0@),
    {
        self.duplicate_entries()
    }
}

impl Clone for TaggedValue {
    fn clone(&self) -> (r: TaggedValue)
        ensures
            r.tag@ == self.tag@,
            r.value.span == self.value.span,
            r.value.inner@ == self.value.inner@,
    {
        TaggedValue {
            tag: self.tag.duplicate(),
            value: Spanned { span: self.value.span, inner: self.value.inner.duplicate() },
        }
    }
}

impl PartialEq for Value {
    fn eq(&self, other: &Value) -> (r: bool) {
        self.equals(other)
    }
}

impl vstd::std_specs::cmp::PartialEqSpecImpl for Value {
    open spec fn obeys_eq_spec() -> bool {
        true
    }

    open spec fn eq_spec(&self, other: &Value) -> bool {
        value_eq(self@, other@)
    }
}

impl Eq for Value {}


} // verus!
