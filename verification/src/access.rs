//! Asking a value what it is: its kind, its scalar contents, and lookups in mappings; clearing
//! spans; looking through tags.
use crate::mapping::{find_index, Index, Mapping};
use crate::merge::{depth, lemma_sequence_within};
use crate::number::{Number, N};
use crate::spanned::{Span, Spanned};
use crate::tag::TaggedValue;
use crate::value::{items_model, lemma_mapping_model, lemma_sequence_model, spanned_model, Sequence, Value, ValueModel};
use vstd::prelude::*;

verus! {

/// The kind of a YAML value.
#[derive(Debug, Clone, Copy, PartialEq, Eq, PartialOrd, Ord, Hash, Structural)]
pub enum Kind {
    Null,
    Bool,
    Number,
    String,
    Sequence,
    Mapping,
    Tagged,
}

/// The kind of a value model.
pub open spec fn kind_of(v: ValueModel) -> Kind {
    match v {
        ValueModel::Null => Kind::Null,
        ValueModel::Bool(_) => Kind::Bool,
        ValueModel::Number(_) => Kind::Number,
        ValueModel::String(_) => Kind::String,
        ValueModel::Sequence(_) => Kind::Sequence,
        ValueModel::Mapping(_) => Kind::Mapping,
        ValueModel::Tagged(_, _) => Kind::Tagged,
    }
}

impl Default for Value {
    fn default() -> (v: Value)
        ensures
            v@ == ValueModel::Null,
    {
        Value::Null
    }
}

impl Value {
    /// The kind of the value.
    pub fn kind(&self) -> (k: Kind)
        ensures
            k == kind_of(self@),
    {
        match self {
            Value::Null => Kind::Null,
            Value::Number(_) => Kind::Number,
            Value::String(_) => Kind::String,
            Value::Sequence(_) => Kind::Sequence,
            Value::Mapping(_) => Kind::Mapping,
            Value::Tagged(_) => Kind::Tagged,
            Value::Bool(_) => Kind::Bool,
        }
    }

    /// Whether the value is null.
    pub fn is_null(&self) -> (r: bool)
        ensures
            r == (self@ is Null),
    {
        match self {
            Value::Null => true,
            _ => false,
        }
    }

    /// The items of a sequence.
    pub fn as_sequence(&self) -> (r: Option<&Sequence>)
        ensures
            match self {
                Value::Sequence(s) => r == Some(s),
                _ => r is None,
            },
    {
        match self {
            Value::Sequence(sequence) => Some(sequence),
            _ => None,
        }
    }

    /// Whether the value is a sequence.
    pub fn is_sequence(&self) -> (r: bool)
        ensures
            r == (self@ is Sequence),
    {
        self.as_sequence().is_some()
    }

    /// The mapping, if the value is one.
    pub fn as_mapping(&self) -> (r: Option<&Mapping>)
        ensures
            match self {
                Value::Mapping(m) => r == Some(m),
                _ => r is None,
            },
    {
        match self {
            Value::Mapping(mapping) => Some(mapping),
            _ => None,
        }
    }

    /// Whether the value is a mapping.
    pub fn is_mapping(&self) -> (r: bool)
        ensures
            r == (self@ is Mapping),
    {
        self.as_mapping().is_some()
    }

    /// The value under the key that `index` looks for, if the value is a mapping that has one.
    pub fn get<I: Index>(&self, index: I) -> (r: Option<&Spanned<Value>>)
        ensures
            match self {
                Value::Mapping(m) => match find_index(m@, &index, 0) {
                    Some(j) => r matches Some(x) && spanned_model(*x) == m@[j].1,
                    None => r is None,
                },
                _ => r is None,
            },
    {
        match self.as_mapping() {
            Some(map) => map.get(index),
            None => None,
        }
    }

    /// A copy of the value under the key that `index` looks for, or null with an empty span
    /// where there is none.
    pub fn get_or_null<I: Index>(&self, index: I) -> (r: Spanned<Value>)
        ensures
            match self {
                Value::Mapping(m) => match find_index(m@, &index, 0) {
                    Some(j) => spanned_model(r) == m@[j].1,
                    None => spanned_model(r) == (Spanned { span: Span::spec_empty(), inner: ValueModel::Null }),
                },
                _ => spanned_model(r) == (Spanned { span: Span::spec_empty(), inner: ValueModel::Null }),
            },
    {
        match self.get(index) {
            Some(v) => Spanned { span: v.span, inner: v.inner.duplicate() },
            None => Spanned::dummy(Value::Null),
        }
    }

    /// The boolean, if the value is one.
    pub fn as_bool(&self) -> (r: Option<bool>)
        ensures
            r == match self@ {
                ValueModel::Bool(b) => Some(b),
                _ => None::<bool>,
            },
    {
        match self {
            Value::Bool(boolean) => Some(*boolean),
            _ => None,
        }
    }

    /// Whether the value is a boolean.
    pub fn is_bool(&self) -> (r: bool)
        ensures
            r == (self@ is Bool),
    {
        self.as_bool().is_some()
    }

    /// The number as `u64`, if the value is a non-negative integer.
    pub fn as_u64(&self) -> (r: Option<u64>)
        ensures
            r == match self@ {
                ValueModel::Number(N::PosInt(u)) => Some(u),
                _ => None::<u64>,
            },
    {
        match self {
            Value::Number(number) => number.as_u64(),
            _ => None,
        }
    }

    /// Whether the value is a non-negative integer.
    pub fn is_u64(&self) -> (r: bool)
        ensures
            r == (self@ matches ValueModel::Number(N::PosInt(_))),
    {
        self.as_u64().is_some()
    }

    /// The number as `i64`, if the value is an integer in that range.
    pub fn as_i64(&self) -> (r: Option<i64>)
        ensures
            r == match self@ {
                ValueModel::Number(N::PosInt(u)) => if u <= i64::MAX {
                    Some(u as i64)
                } else {
                    None::<i64>
                },
                ValueModel::Number(N::NegInt(i)) => Some(i),
                _ => None::<i64>,
            },
    {
        match self {
            Value::Number(number) => number.as_i64(),
            _ => None,
        }
    }

    /// Whether the value is an integer in the range of `i64`.
    pub fn is_i64(&self) -> (r: bool)
        ensures
            r == match self@ {
                ValueModel::Number(N::PosInt(u)) => u <= i64::MAX,
                ValueModel::Number(N::NegInt(_)) => true,
                _ => false,
            },
    {
        self.as_i64().is_some()
    }

    /// Whether the value is a float (integers are not, though they convert to one).
    pub fn is_f64(&self) -> (r: bool)
        ensures
            r == (self@ matches ValueModel::Number(N::Float(_))),
    {
        match self {
            Value::Number(number) => number.is_f64(),
            _ => false,
        }
    }

    /// The string, if the value is one.
    pub fn as_str(&self) -> (r: Option<&str>)
        ensures
            match self@ {
                ValueModel::String(s) => r matches Some(t) && t@ == s,
                _ => r is None,
            },
    {
        match self {
            Value::String(scalar) => Some(scalar.as_str()),
            _ => None,
        }
    }

    /// Whether the value is a string.
    pub fn is_str(&self) -> (r: bool)
        ensures
            r == (self@ is String),
    {
        self.as_str().is_some()
    }

    /// The string, if the value is one.
    pub fn as_string(&self) -> (r: Option<&String>)
        ensures
            match self {
                Value::String(s) => r == Some(s),
                _ => r is None,
            },
    {
        match self {
            Value::String(scalar) => Some(scalar),
            _ => None,
        }
    }

    /// Whether the value is a string.
    pub fn is_string(&self) -> (r: bool)
        ensures
            r == (self@ is String),
    {
        self.as_string().is_some()
    }
}

/// A spanned value with its span cleared and its value's spans cleared.
pub open spec fn clear_spanned(s: Spanned<ValueModel>, fuel: nat) -> Spanned<ValueModel>
    decreases fuel, 1int,
{
    Spanned { span: Span::spec_empty(), inner: clear_model(s.inner, fuel) }
}

/// A value with its spans cleared: every item of a sequence and the value under a tag are
/// cleared all the way down; the keys and values of a mapping only get an empty span of their
/// own, and the entries are collected again as by insertion. `fuel` bounds the depth visited.
pub open spec fn clear_model(v: ValueModel, fuel: nat) -> ValueModel
    decreases fuel, 0int,
{
    if fuel == 0 {
        v
    } else {
        match v {
            ValueModel::Tagged(t, b) => ValueModel::Tagged(t, Box::new(clear_spanned(*b, (fuel - 1) as nat))),
            ValueModel::Mapping(e) => ValueModel::Mapping(crate::mapping::collect_model(unspan_entries(e))),
            ValueModel::Sequence(items) => ValueModel::Sequence(clear_items(items, (fuel - 1) as nat)),
            _ => v,
        }
    }
}

/// The entries with empty spans on their keys and values.
pub open spec fn unspan_entries(e: Seq<crate::mapping::EntryModel>) -> Seq<crate::mapping::EntryModel> {
    Seq::new(
        e.len(),
        |i: int|
            (
                Spanned { span: Span::spec_empty(), inner: e[i].0.inner },
                Spanned { span: Span::spec_empty(), inner: e[i].1.inner },
            ),
    )
}

/// The items with their spans cleared.
pub open spec fn clear_items(items: Seq<Spanned<ValueModel>>, fuel: nat) -> Seq<Spanned<ValueModel>>
    decreases fuel, 2int,
{
    Seq::new(items.len(), |i: int| clear_spanned(items[i], fuel))
}

/// A value with its spans cleared (see [`clear_model`]), with its depth as the bound.
pub open spec fn cleared(v: ValueModel) -> ValueModel {
    clear_model(v, depth(v))
}

/// Clears the spans of an owned value (see [`clear_model`]).
fn clear_owned(v: Value, Ghost(fuel): Ghost<nat>) -> (r: Value)
    requires
        depth(v@) <= fuel,
    ensures
        r@ == clear_model(v@, fuel),
    decreases fuel,
{
    match v {
        Value::Tagged(b) => {
            let TaggedValue { tag, value } = *b;
            let inner = clear_owned(value.inner, Ghost((fuel - 1) as nat));
            let r = Value::Tagged(Box::new(TaggedValue { tag, value: Spanned::dummy(inner) }));
            assert(r@ == clear_model(v@, fuel));
            r
        },
        Value::Mapping(m) => {
            proof {
                lemma_mapping_model(m);
            }
            let ghost e = m@;
            let mut out: Vec<(Spanned<Value>, Spanned<Value>)> = Vec::new();
            for entry in it: m.0
                invariant
                    crate::value::entries_model(it.seq()) == e,
                    out@.len() == it.index(),
                    forall|t: int| 0 <= t < out@.len() ==> #[trigger] crate::value::entries_model(out@)[t] == (
                        Spanned { span: Span::spec_empty(), inner: e[t].0.inner },
                        Spanned { span: Span::spec_empty(), inner: e[t].1.inner },
                    ),
            {
                let ghost before = out@;
                let (k, val) = entry;
                out.push((Spanned::dummy(k.inner), Spanned::dummy(val.inner)));
                proof {
                    assert forall|t: int| 0 <= t < out@.len() implies #[trigger] crate::value::entries_model(out@)[t] == (
                        Spanned { span: Span::spec_empty(), inner: e[t].0.inner },
                        Spanned { span: Span::spec_empty(), inner: e[t].1.inner },
                    ) by {
                        if t < before.len() {
                            assert(out@[t] == before[t]);
                            assert(crate::value::entries_model(before)[t] == crate::value::entries_model(out@)[t]);
                        }
                    }
                }
            }
            proof {
                assert(crate::value::entries_model(out@) =~= unspan_entries(e));
            }
            let m2 = Mapping::from_entries(out);
            proof {
                lemma_mapping_model(m2);
            }
            let r = Value::Mapping(m2);
            assert(r@ == clear_model(v@, fuel));
            r
        },
        Value::Sequence(items) => {
            proof {
                lemma_sequence_model(items);
                lemma_sequence_within(items_model(items@), (fuel - 1) as nat);
            }
            let ghost im = items_model(items@);
            let mut out: Vec<Spanned<Value>> = Vec::new();
            for item in it: items
                invariant
                    fuel > 0,
                    items_model(it.seq()) == im,
                    forall|t: int| 0 <= t < im.len() ==> depth(#[trigger] im[t].inner) <= (fuel - 1) as nat,
                    out@.len() == it.index(),
                    forall|t: int| 0 <= t < out@.len() ==> #[trigger] spanned_model(out@[t]) == clear_spanned(im[t], (fuel - 1) as nat),
            {
                let ghost i = it.index() as int;
                proof {
                    assert(im[i] == spanned_model(item));
                    assert(depth(im[i].inner) <= (fuel - 1) as nat);
                }
                let inner = clear_owned(item.inner, Ghost((fuel - 1) as nat));
                out.push(Spanned::dummy(inner));
            }
            proof {
                lemma_sequence_model(out);
                assert(items_model(out@) =~= clear_items(im, (fuel - 1) as nat));
            }
            let r = Value::Sequence(out);
            assert(r@ == clear_model(v@, fuel));
            r
        },
        other => other,
    }
}

impl Value {
    /// The value with its spans cleared (see [`cleared`]).
    pub fn cleared_spans(self) -> (r: Value)
        ensures
            r@ == cleared(self@),
    {
        let ghost d = depth(self@);
        clear_owned(self, Ghost(d))
    }

    /// Clears the spans of the value (see [`cleared`]).
    pub fn clear_spans(&mut self)
        ensures
            final(self)@ == cleared(old(self)@),
    {
        let mut v = Value::Null;
        std::mem::swap(self, &mut v);
        *self = v.cleared_spans();
    }
}

impl Spanned<Value> {
    /// The spanned value with its span and its value's spans cleared.
    pub fn cleared_spans(self) -> (r: Spanned<Value>)
        ensures
            r.span == Span::spec_empty(),
            r.inner@ == cleared(self.inner@),
    {
        Spanned::dummy(self.inner.cleared_spans())
    }

    /// Clears the span and the value's spans.
    pub fn clear_spans(&mut self)
        ensures
            final(self).span == Span::spec_empty(),
            final(self).inner@ == cleared(old(self).inner@),
    {
        self.span = Span::empty();
        self.inner.clear_spans();
    }
}

} // verus!

verus! {

impl Value {
    /// The boolean, for changing in place, if the value is one.
    pub fn as_bool_mut(&mut self) -> (r: Option<&mut bool>)
        ensures
            match *old(self) {
                Value::Bool(b) => r matches Some(x) && *x == b && *final(self) == Value::Bool(*final(x)),
                _ => r is None && *final(self) == *old(self),
            },
    {
        match self {
            Value::Bool(boolean) => Some(boolean),
            _ => None,
        }
    }
}

} // verus!

verus! {

impl Number {
    /// The integer, for changing in place, if the number is a non-negative integer.
    pub fn as_u64_mut(&mut self) -> (r: Option<&mut u64>)
        ensures
            match old(self).0 {
                N::PosInt(u) => r matches Some(x) && *x == u && final(self).0 == N::PosInt(*final(x)),
                _ => r is None && *final(self) == *old(self),
            },
    {
        match &mut self.0 {
            N::PosInt(n) => Some(n),
            _ => None,
        }
    }

    /// The integer, for changing in place, if the number is a negative integer.
    pub fn as_i64_mut(&mut self) -> (r: Option<&mut i64>)
        ensures
            match old(self).0 {
                N::NegInt(i) => r matches Some(x) && *x == i && final(self).0 == N::NegInt(*final(x)),
                _ => r is None && *final(self) == *old(self),
            },
    {
        match &mut self.0 {
            N::NegInt(n) => Some(n),
            _ => None,
        }
    }
}

impl Value {
    /// The items of a sequence, for changing in place.
    pub fn as_sequence_mut(&mut self) -> (r: Option<&mut Sequence>)
        ensures
            match *old(self) {
                Value::Sequence(s) => r matches Some(x) && *x == s && *final(self) == Value::Sequence(*final(x)),
                _ => r is None && *final(self) == *old(self),
            },
    {
        match self {
            Value::Sequence(sequence) => Some(sequence),
            _ => None,
        }
    }

    /// The mapping, for changing in place, if the value is one.
    pub fn as_mapping_mut(&mut self) -> (r: Option<&mut Mapping>)
        ensures
            match *old(self) {
                Value::Mapping(m) => r matches Some(x) && *x == m && *final(self) == Value::Mapping(*final(x)),
                _ => r is None && *final(self) == *old(self),
            },
    {
        match self {
            Value::Mapping(mapping) => Some(mapping),
            _ => None,
        }
    }

    /// The string, for changing in place, if the value is one.
    pub fn as_string_mut(&mut self) -> (r: Option<&mut String>)
        ensures
            match *old(self) {
                Value::String(s) => r matches Some(x) && *x == s && *final(self) == Value::String(*final(x)),
                _ => r is None && *final(self) == *old(self),
            },
    {
        match self {
            Value::String(scalar) => Some(scalar),
            _ => None,
        }
    }

    /// The integer, for changing in place, if the value is a non-negative integer.
    pub fn as_u64_mut(&mut self) -> (r: Option<&mut u64>)
        ensures
            match *old(self) {
                Value::Number(Number(N::PosInt(u))) => r matches Some(x) && *x == u && *final(self) == Value::Number(Number(N::PosInt(*final(x)))),
                _ => r is None && *final(self) == *old(self),
            },
    {
        match self {
            Value::Number(number) => number.as_u64_mut(),
            _ => None,
        }
    }

    /// The integer, for changing in place, if the value is a negative integer.
    pub fn as_i64_mut(&mut self) -> (r: Option<&mut i64>)
        ensures
            match *old(self) {
                Value::Number(Number(N::NegInt(i))) => r matches Some(x) && *x == i && *final(self) == Value::Number(Number(N::NegInt(*final(x)))),
                _ => r is None && *final(self) == *old(self),
            },
    {
        match self {
            Value::Number(number) => number.as_i64_mut(),
            _ => None,
        }
    }
}

/// The value under all the tags around it.
pub open spec fn untagged(v: Value) -> Value
    decreases v,
{
    match v {
        Value::Tagged(t) => untagged(t.value.inner),
        _ => v,
    }
}

/// The value with what is under all its tags replaced by `w`.
pub open spec fn replace_untagged(v: Value, w: Value) -> Value
    decreases v,
{
    match v {
        Value::Tagged(t) => Value::Tagged(
            Box::new(
                TaggedValue {
                    tag: t.tag,
                    value: Spanned { span: t.value.span, inner: replace_untagged(t.value.inner, w) },
                },
            ),
        ),
        _ => w,
    }
}

impl Value {
    /// The value under all the tags around it, for changing in place.
    pub fn untag_mut(&mut self) -> (r: &mut Value)
        ensures
            *r == untagged(*old(self)),
            *final(self) == replace_untagged(*old(self), *final(r)),
        decreases *old(self),
    {
        match self {
            Value::Tagged(tagged) => tagged.value.inner.untag_mut(),
            _ => self,
        }
    }
}

} // verus!

verus! {

/// The spanned value under all the tags around it.
pub open spec fn untagged_spanned(s: Spanned<Value>) -> Spanned<Value>
    decreases s.inner,
{
    match s.inner {
        Value::Tagged(t) => untagged_spanned(t.value),
        _ => s,
    }
}

/// The spanned value with what is under all its tags replaced by `w`.
pub open spec fn replace_untagged_spanned(s: Spanned<Value>, w: Spanned<Value>) -> Spanned<Value>
    decreases s.inner,
{
    match s.inner {
        Value::Tagged(t) => Spanned {
            span: s.span,
            inner: Value::Tagged(Box::new(TaggedValue { tag: t.tag, value: replace_untagged_spanned(t.value, w) })),
        },
        _ => w,
    }
}

impl Spanned<Value> {
    /// The spanned value under all the tags around it, for changing in place.
    pub fn untag_mut(&mut self) -> (r: &mut Spanned<Value>)
        ensures
            *r == untagged_spanned(*old(self)),
            *final(self) == replace_untagged_spanned(*old(self), *final(r)),
        decreases old(self).inner,
    {
        let is_tagged = match self.inner {
            Value::Tagged(_) => true,
            _ => false,
        };
        if is_tagged {
            match &mut self.inner {
                Value::Tagged(tagged) => tagged.value.untag_mut(),
                _ => vstd::pervasive::unreached(),
            }
        } else {
            self
        }
    }
}

impl Mapping {
    /// The value under the key that `index` looks for, for changing in place.
    pub fn get_mut<I: Index>(&mut self, index: I) -> (r: Option<&mut Spanned<Value>>)
        ensures
            match find_index(old(self)@, &index, 0) {
                Some(j) => r matches Some(x) && *x == old(self).0@[j].1 && final(self).0@ == old(self).0@.update(
                    j,
                    (old(self).0@[j].0, *final(x)),
                ),
                None => r is None && *final(self) == *old(self),
            },
    {
        match self.position(&index) {
            Some(j) => {
                proof {
                    crate::mapping::lemma_find_index_bounds(self@, &index, 0);
                }
                Some(&mut self.0[j].1)
            },
            None => None,
        }
    }
}

impl Value {
    /// The value under the key that `index` looks for, for changing in place, if the value is
    /// a mapping that has one.
    pub fn get_mut<I: Index>(&mut self, index: I) -> (r: Option<&mut Spanned<Value>>)
        ensures
            match *old(self) {
                Value::Mapping(m) => match find_index(m@, &index, 0) {
                    Some(j) => r matches Some(x) && *x == m.0@[j].1 && (*final(self) matches Value::Mapping(m2)
                        && m2.0@ == m.0@.update(j, (m.0@[j].0, *final(x)))),
                    None => r is None && *final(self) == *old(self),
                },
                _ => r is None && *final(self) == *old(self),
            },
    {
        match self {
            Value::Mapping(mapping) => mapping.get_mut(index),
            _ => None,
        }
    }
}

} // verus!
