//! A serializer whose output is a [`Value`]: how each datum of the serialization data model
//! becomes a value, and the builders of sequences, maps, structs and enum variants, which take
//! their parts as values already built.
use crate::error::SerdeError;
use crate::mapping::{insert_model, EntryModel, Mapping};
use crate::number::{n_from_i64, Number, N};
use crate::spanned::{Span, Spanned};
use crate::tag::{nobang, MaybeTag, Tag, TaggedValue};
use crate::text::decimal;
use crate::value::{items_model, lemma_mapping_model, lemma_sequence_model, spanned_model, Sequence, Value, ValueModel};
use vstd::prelude::*;

verus! {

/// The model of a value given the empty span.
pub open spec fn dummy_model(v: ValueModel) -> Spanned<ValueModel> {
    Spanned { span: Span::spec_empty(), inner: v }
}

/// The decimal text of an integer, with `-` before a negative one.
pub open spec fn int_text(i: int) -> Seq<char> {
    if i < 0 {
        seq!['-'] + decimal((-i) as nat)
    } else {
        decimal(i as nat)
    }
}

/// How a signed 128-bit integer becomes a value: an unsigned number where it fits in `u64`, a
/// signed one where it fits in `i64`, and its decimal text otherwise.
pub open spec fn i128_model(v: i128) -> ValueModel {
    if 0 <= v <= u64::MAX {
        ValueModel::Number(N::PosInt(v as u64))
    } else if i64::MIN <= v <= i64::MAX {
        ValueModel::Number(n_from_i64(v as i64))
    } else {
        ValueModel::String(int_text(v as int))
    }
}

/// How an unsigned 128-bit integer becomes a value: a number where it fits in `u64`, its
/// decimal text otherwise.
pub open spec fn u128_model(v: u128) -> ValueModel {
    if v <= u64::MAX {
        ValueModel::Number(N::PosInt(v as u64))
    } else {
        ValueModel::String(decimal(v as nat))
    }
}

/// The model of a byte string: a sequence of unsigned numbers.
pub open spec fn bytes_model(b: Seq<u8>) -> ValueModel {
    ValueModel::Sequence(Seq::new(b.len(), |i: int| dummy_model(ValueModel::Number(N::PosInt(b[i] as u64)))))
}

/// A variant with a value, written as that value under the variant's name as a tag.
pub open spec fn newtype_variant_model(variant: Seq<char>, v: ValueModel) -> ValueModel {
    ValueModel::Tagged(variant, Box::new(dummy_model(v)))
}

/// Serializer whose output is a [`Value`].
pub struct Serializer;

impl Serializer {
    /// A boolean.
    pub fn serialize_bool(self, v: bool) -> (r: Value)
        ensures
            r@ == ValueModel::Bool(v),
    {
        Value::Bool(v)
    }

    /// A signed integer.
    pub fn serialize_i64(self, v: i64) -> (r: Value)
        ensures
            r@ == ValueModel::Number(n_from_i64(v)),
    {
        Value::Number(Number::from_i64(v))
    }

    /// An unsigned integer.
    pub fn serialize_u64(self, v: u64) -> (r: Value)
        ensures
            r@ == ValueModel::Number(N::PosInt(v)),
    {
        Value::Number(Number::from_u64(v))
    }

    /// A signed 128-bit integer (see [`i128_model`]).
    pub fn serialize_i128(self, v: i128) -> (r: Value)
        ensures
            r@ == i128_model(v),
    {
        if 0 <= v && v <= 0xffff_ffff_ffff_ffffi128 {
            Serializer.serialize_u64(v as u64)
        } else if -0x8000_0000_0000_0000i128 <= v && v <= 0x7fff_ffff_ffff_ffffi128 {
            Serializer.serialize_i64(v as i64)
        } else {
            let mut out = String::new();
            let magnitude: u128 = if v == i128::MIN {
                0x8000_0000_0000_0000_0000_0000_0000_0000u128
            } else if v < 0 {
                (-v) as u128
            } else {
                v as u128
            };
            if v < 0 {
                crate::text::push_char(&mut out, '-');
            }
            crate::text::push_decimal_u128(&mut out, magnitude);
            assert(out@ == int_text(v as int));
            Value::String(out)
        }
    }

    /// An unsigned 128-bit integer (see [`u128_model`]).
    pub fn serialize_u128(self, v: u128) -> (r: Value)
        ensures
            r@ == u128_model(v),
    {
        if v <= 0xffff_ffff_ffff_ffffu128 {
            Serializer.serialize_u64(v as u64)
        } else {
            let mut out = String::new();
            crate::text::push_decimal_u128(&mut out, v);
            assert(out@ =~= decimal(v as nat));
            Value::String(out)
        }
    }

    /// A character, as a one-character string.
    pub fn serialize_char(self, c: char) -> (r: Value)
        ensures
            r@ == ValueModel::String(seq![c]),
    {
        let mut out = String::new();
        crate::text::push_char(&mut out, c);
        assert(out@ =~= seq![c]);
        Value::String(out)
    }

    /// A string.
    pub fn serialize_str(self, s: &str) -> (r: Value)
        ensures
            r@ == ValueModel::String(s@),
    {
        Value::String(s.to_owned())
    }

    /// A byte string, as a sequence of numbers.
    pub fn serialize_bytes(self, b: &[u8]) -> (r: Value)
        ensures
            r@ == bytes_model(b@),
    {
        let mut out: Sequence = Vec::new();
        let mut i: usize = 0;
        while i < b.len()
            invariant
                i <= b@.len(),
                out@.len() == i,
                forall|j: int|
                    0 <= j < i ==> #[trigger] spanned_model(out@[j]) == dummy_model(ValueModel::Number(N::PosInt(b@[j] as u64))),
            decreases b.len() - i,
        {
            let x = Spanned::dummy(Value::Number(Number::from_u64(b[i] as u64)));
            out.push(x);
            i = i + 1;
        }
        proof {
            assert(items_model(out@) =~= Seq::new(b@.len(), |j: int| dummy_model(ValueModel::Number(N::PosInt(b@[j] as u64)))));
            lemma_sequence_model(out);
        }
        Value::Sequence(out)
    }

    /// The unit value, `None` and a unit struct: null.
    pub fn serialize_unit(self) -> (r: Value)
        ensures
            r@ == ValueModel::Null,
    {
        Value::Null
    }

    /// A variant without data: its name as a string.
    pub fn serialize_unit_variant(self, variant: &str) -> (r: Value)
        ensures
            r@ == ValueModel::String(variant@),
    {
        Value::String(variant.to_owned())
    }

    /// Whether a variant can be written as a tag: a variant without a name cannot, and that is
    /// known before its value is serialized.
    pub fn check_variant(self, variant: &str) -> (r: Result<(), SerdeError>)
        ensures
            r is Ok <==> variant@.len() > 0,
            r matches Err(e) ==> e is EmptyTag,
    {
        if variant.is_empty() {
            Err(SerdeError::EmptyTag)
        } else {
            Ok(())
        }
    }

    /// A variant with one value, given as what serializing the value gave: the value tagged with
    /// the variant's name. A variant without a name has no tag to be written with, whatever the
    /// value; otherwise an error of the value is the error.
    pub fn serialize_newtype_variant(self, variant: &str, value: Result<Value, SerdeError>) -> (r: Result<Value, SerdeError>)
        ensures
            variant@.len() == 0 ==> (r matches Err(e) && e is EmptyTag),
            variant@.len() > 0 ==> match value {
                Ok(v) => r matches Ok(w) && w@ == newtype_variant_model(variant@, v@),
                Err(e) => r == Err::<Value, SerdeError>(e),
            },
    {
        if variant.is_empty() {
            return Err(SerdeError::EmptyTag);
        }
        match value {
            Ok(value) => Ok(Value::Tagged(Box::new(TaggedValue { tag: Tag::new(variant), value: Spanned::dummy(value) }))),
            Err(e) => Err(e),
        }
    }

    /// Starts a sequence, a tuple or a tuple struct.
    pub fn serialize_seq(self, len: Option<usize>) -> (r: SerializeArray)
        ensures
            r@ == Seq::<Spanned<ValueModel>>::empty(),
    {
        let sequence = match len {
            None => Vec::new(),
            Some(n) => Vec::with_capacity(n),
        };
        let r = SerializeArray { sequence };
        assert(r@ =~= Seq::<Spanned<ValueModel>>::empty());
        r
    }

    /// Starts a variant with a tuple of values; the variant needs a name.
    pub fn serialize_tuple_variant(self, variant: &str, len: usize) -> (r: Result<SerializeTupleVariant, SerdeError>)
        ensures
            match r {
                Ok(s) => variant@.len() > 0 && s@ == (variant@, Seq::<Spanned<ValueModel>>::empty()),
                Err(e) => variant@.len() == 0 && e is EmptyTag,
            },
    {
        if variant.is_empty() {
            return Err(SerdeError::EmptyTag);
        }
        let r = SerializeTupleVariant { tag: Tag::new(variant), sequence: Vec::with_capacity(len) };
        assert(r@.1 =~= Seq::<Spanned<ValueModel>>::empty());
        Ok(r)
    }

    /// Starts a map. A map announced with exactly one entry may turn out to be a tagged value.
    pub fn serialize_map(self, len: Option<usize>) -> (r: SerializeMap)
        ensures
            len == Some(1usize) ==> r@ == SerializeMapModel::CheckForTag,
            len != Some(1usize) ==> r@ == SerializeMapModel::Untagged(Seq::empty(), None),
    {
        if len == Some(1usize) {
            SerializeMap::CheckForTag
        } else {
            SerializeMap::Untagged { mapping: Mapping::new(), next_key: None }
        }
    }

    /// Starts a struct, written as a mapping from field names to values.
    pub fn serialize_struct(self) -> (r: SerializeStruct)
        ensures
            r@ == Seq::<EntryModel>::empty(),
    {
        SerializeStruct { mapping: Mapping::new() }
    }

    /// Starts a variant with named fields; the variant needs a name.
    pub fn serialize_struct_variant(self, variant: &str) -> (r: Result<SerializeStructVariant, SerdeError>)
        ensures
            match r {
                Ok(s) => variant@.len() > 0 && s@ == (variant@, Seq::<EntryModel>::empty()),
                Err(e) => variant@.len() == 0 && e is EmptyTag,
            },
    {
        if variant.is_empty() {
            return Err(SerdeError::EmptyTag);
        }
        Ok(SerializeStructVariant { tag: Tag::new(variant), mapping: Mapping::new() })
    }
}

/// A sequence being built.
pub struct SerializeArray {
    sequence: Sequence,
}

impl View for SerializeArray {
    type V = Seq<Spanned<ValueModel>>;

    closed spec fn view(&self) -> Seq<Spanned<ValueModel>> {
        items_model(self.sequence@)
    }
}

impl SerializeArray {
    /// Appends an element.
    pub fn serialize_element(&mut self, elem: Value)
        ensures
            final(self)@ == old(self)@.push(dummy_model(elem@)),
    {
        self.sequence.push(Spanned::dummy(elem));
        assert(self@ =~= old(self)@.push(dummy_model(elem@)));
    }

    /// The sequence of the elements.
    pub fn end(self) -> (r: Value)
        ensures
            r@ == ValueModel::Sequence(self@),
    {
        proof {
            lemma_sequence_model(self.sequence);
        }
        Value::Sequence(self.sequence)
    }
}

/// A variant with a tuple of values being built.
pub struct SerializeTupleVariant {
    tag: Tag,
    sequence: Sequence,
}

impl View for SerializeTupleVariant {
    type V = (Seq<char>, Seq<Spanned<ValueModel>>);

    closed spec fn view(&self) -> (Seq<char>, Seq<Spanned<ValueModel>>) {
        (self.tag@, items_model(self.sequence@))
    }
}

impl SerializeTupleVariant {
    /// Appends a value of the tuple.
    pub fn serialize_field(&mut self, v: Value)
        ensures
            final(self)@ == (old(self)@.0, old(self)@.1.push(dummy_model(v@))),
    {
        self.sequence.push(Spanned::dummy(v));
        assert(self@.1 =~= old(self)@.1.push(dummy_model(v@)));
    }

    /// The sequence of the values, tagged with the variant's name.
    pub fn end(self) -> (r: Value)
        ensures
            r@ == newtype_variant_model(self@.0, ValueModel::Sequence(self@.1)),
    {
        proof {
            lemma_sequence_model(self.sequence);
        }
        Value::Tagged(Box::new(TaggedValue { tag: self.tag, value: Spanned::dummy(Value::Sequence(self.sequence)) }))
    }
}

/// A map being built. A map announced with one entry starts by checking whether its key is a
/// tag: if it is, the map is the tagged value; a further key turns it back into a mapping whose
/// first key is the tag's text.
pub enum SerializeMap {
    CheckForTag,
    Tagged(TaggedValue),
    Untagged { mapping: Mapping, next_key: Option<Value> },
}

/// The model of [`SerializeMap`].
pub enum SerializeMapModel {
    CheckForTag,
    Tagged(Seq<char>, Spanned<ValueModel>),
    Untagged(Seq<EntryModel>, Option<ValueModel>),
}

impl View for SerializeMap {
    type V = SerializeMapModel;

    open spec fn view(&self) -> SerializeMapModel {
        match self {
            SerializeMap::CheckForTag => SerializeMapModel::CheckForTag,
            SerializeMap::Tagged(t) => SerializeMapModel::Tagged(t.tag@, spanned_model(t.value)),
            SerializeMap::Untagged { mapping, next_key } => SerializeMapModel::Untagged(
                mapping@,
                match next_key {
                    Some(k) => Some(k@),
                    None => None,
                },
            ),
        }
    }
}

/// The model of a key that may be a tag.
pub enum MaybeTagModel<T> {
    Tag(Seq<char>),
    NotTag(T),
}

impl<T: View> View for MaybeTag<T> {
    type V = MaybeTagModel<T::V>;

    open spec fn view(&self) -> MaybeTagModel<T::V> {
        match self {
            MaybeTag::Tag(s) => MaybeTagModel::Tag(s@),
            MaybeTag::NotTag(t) => MaybeTagModel::NotTag(t@),
        }
    }
}

/// The entry that a tag becomes when its map gets a second key: the tag's text as a string key.
pub open spec fn tag_entry(t: Seq<char>, v: Spanned<ValueModel>) -> EntryModel {
    (dummy_model(ValueModel::String(seq!['!'] + nobang(t))), v)
}

/// A key arriving on its own.
pub open spec fn key_step(st: SerializeMapModel, k: ValueModel) -> SerializeMapModel {
    match st {
        SerializeMapModel::CheckForTag => SerializeMapModel::Untagged(Seq::empty(), Some(k)),
        SerializeMapModel::Tagged(t, v) => SerializeMapModel::Untagged(seq![tag_entry(t, v)], Some(k)),
        SerializeMapModel::Untagged(m, _) => SerializeMapModel::Untagged(m, Some(k)),
    }
}

/// The value of the waiting key arriving.
pub open spec fn value_step(st: SerializeMapModel, v: ValueModel) -> SerializeMapModel {
    match st {
        SerializeMapModel::Untagged(m, Some(k)) => SerializeMapModel::Untagged(
            insert_model(m, dummy_model(k), dummy_model(v)),
            None,
        ),
        _ => st,
    }
}

/// A key and its value arriving together. Only the first entry of a map announced with one
/// entry is looked at as a possible tag.
pub open spec fn entry_step(st: SerializeMapModel, k: MaybeTagModel<ValueModel>, v: ValueModel) -> SerializeMapModel {
    match (st, k) {
        (SerializeMapModel::CheckForTag, MaybeTagModel::Tag(t)) => SerializeMapModel::Tagged(t, dummy_model(v)),
        (SerializeMapModel::CheckForTag, MaybeTagModel::NotTag(k)) => SerializeMapModel::Untagged(
            seq![(dummy_model(k), dummy_model(v))],
            None,
        ),
        (SerializeMapModel::Tagged(t, tv), MaybeTagModel::NotTag(k)) => SerializeMapModel::Untagged(
            insert_model(seq![tag_entry(t, tv)], dummy_model(k), dummy_model(v)),
            None,
        ),
        (SerializeMapModel::Untagged(m, nk), MaybeTagModel::NotTag(k)) => SerializeMapModel::Untagged(
            insert_model(m, dummy_model(k), dummy_model(v)),
            nk,
        ),
        _ => st,
    }
}

/// The value that a map ends as.
pub open spec fn map_end(st: SerializeMapModel) -> ValueModel {
    match st {
        SerializeMapModel::CheckForTag => ValueModel::Mapping(Seq::empty()),
        SerializeMapModel::Tagged(t, v) => ValueModel::Tagged(t, Box::new(v)),
        SerializeMapModel::Untagged(m, _) => ValueModel::Mapping(m),
    }
}

/// A mapping holding one entry.
fn single_entry_mapping(k: Spanned<Value>, v: Spanned<Value>) -> (m: Mapping)
    ensures
        m@ == seq![(spanned_model(k), spanned_model(v))],
{
    let mut m = Mapping::new();
    m.insert(k, v);
    assert(m@ =~= seq![(spanned_model(k), spanned_model(v))]);
    m
}

impl SerializeMap {
    /// Whether the map is still to check its first key for a tag; the key of the next entry is
    /// then to be given as a [`MaybeTag`].
    pub fn checks_for_tag(&self) -> (r: bool)
        ensures
            r == (self@ is CheckForTag),
    {
        match self {
            SerializeMap::CheckForTag => true,
            _ => false,
        }
    }

    /// The key of the next entry (see [`key_step`]).
    pub fn serialize_key(&mut self, key: Value)
        ensures
            final(self)@ == key_step(old(self)@, key@),
    {
        let mut st = SerializeMap::CheckForTag;
        std::mem::swap(self, &mut st);
        *self = match st {
            SerializeMap::CheckForTag => SerializeMap::Untagged { mapping: Mapping::new(), next_key: Some(key) },
            SerializeMap::Tagged(tagged) => {
                let text = tagged.tag.to_text();
                let mapping = single_entry_mapping(Spanned::dummy(Value::String(text)), tagged.value);
                SerializeMap::Untagged { mapping, next_key: Some(key) }
            },
            SerializeMap::Untagged { mapping, next_key } => SerializeMap::Untagged { mapping, next_key: Some(key) },
        };
    }

    /// The value of the key given last (see [`value_step`]).
    pub fn serialize_value(&mut self, value: Value)
        requires
            old(self)@ matches SerializeMapModel::Untagged(_, Some(_)),
        ensures
            final(self)@ == value_step(old(self)@, value@),
    {
        let mut st = SerializeMap::CheckForTag;
        std::mem::swap(self, &mut st);
        match st {
            SerializeMap::Untagged { mapping, next_key } => {
                let mut mapping = mapping;
                match next_key {
                    Some(k) => {
                        mapping.insert(Spanned::dummy(k), Spanned::dummy(value));
                    },
                    None => {},
                }
                *self = SerializeMap::Untagged { mapping, next_key: None };
            },
            _ => {},
        }
    }

    /// A key and its value (see [`entry_step`]). The key is a [`MaybeTag`] only while the map
    /// checks for a tag, and a tag is never empty.
    pub fn serialize_entry(&mut self, key: MaybeTag<Value>, value: Value)
        requires
            old(self)@ is CheckForTag || key is NotTag,
            key matches MaybeTag::Tag(s) ==> s@.len() > 0,
        ensures
            final(self)@ == entry_step(old(self)@, key@, value@),
    {
        let mut st = SerializeMap::CheckForTag;
        std::mem::swap(self, &mut st);
        match st {
            SerializeMap::CheckForTag => {
                *self = match key {
                    MaybeTag::Tag(string) => SerializeMap::Tagged(
                        TaggedValue { tag: Tag::from_string(string), value: Spanned::dummy(value) },
                    ),
                    MaybeTag::NotTag(k) => SerializeMap::Untagged {
                        mapping: single_entry_mapping(Spanned::dummy(k), Spanned::dummy(value)),
                        next_key: None,
                    },
                };
            },
            SerializeMap::Tagged(tagged) => {
                match key {
                    MaybeTag::NotTag(k) => {
                        let text = tagged.tag.to_text();
                        let mut mapping = single_entry_mapping(Spanned::dummy(Value::String(text)), tagged.value);
                        mapping.insert(Spanned::dummy(k), Spanned::dummy(value));
                        *self = SerializeMap::Untagged { mapping, next_key: None };
                    },
                    MaybeTag::Tag(_) => {
                        *self = SerializeMap::Tagged(tagged);
                    },
                }
            },
            SerializeMap::Untagged { mapping, next_key } => {
                match key {
                    MaybeTag::NotTag(k) => {
                        let mut mapping = mapping;
                        mapping.insert(Spanned::dummy(k), Spanned::dummy(value));
                        *self = SerializeMap::Untagged { mapping, next_key };
                    },
                    MaybeTag::Tag(_) => {
                        *self = SerializeMap::Untagged { mapping, next_key };
                    },
                }
            },
        }
    }

    /// The value that the map ends as (see [`map_end`]).
    pub fn end(self) -> (r: Value)
        ensures
            r@ == map_end(self@),
    {
        match self {
            SerializeMap::CheckForTag => {
                let m = Mapping::new();
                proof {
                    lemma_mapping_model(m);
                }
                Value::Mapping(m)
            },
            SerializeMap::Tagged(tagged) => Value::Tagged(Box::new(tagged)),
            SerializeMap::Untagged { mapping, next_key } => {
                proof {
                    lemma_mapping_model(mapping);
                }
                Value::Mapping(mapping)
            },
        }
    }
}

/// A struct being built: a mapping from field names to values.
pub struct SerializeStruct {
    mapping: Mapping,
}

impl View for SerializeStruct {
    type V = Seq<EntryModel>;

    closed spec fn view(&self) -> Seq<EntryModel> {
        self.mapping@
    }
}

/// The entry of a named field.
pub open spec fn field_entry(key: Seq<char>, v: ValueModel) -> (Spanned<ValueModel>, Spanned<ValueModel>) {
    (dummy_model(ValueModel::String(key)), dummy_model(v))
}

impl SerializeStruct {
    /// Inserts a field under its name.
    pub fn serialize_field(&mut self, key: &str, value: Value)
        ensures
            final(self)@ == insert_model(old(self)@, field_entry(key@, value@).0, field_entry(key@, value@).1),
    {
        self.mapping.insert(Spanned::dummy(Value::String(key.to_owned())), Spanned::dummy(value));
    }

    /// The mapping of the fields.
    pub fn end(self) -> (r: Value)
        ensures
            r@ == ValueModel::Mapping(self@),
    {
        proof {
            lemma_mapping_model(self.mapping);
        }
        Value::Mapping(self.mapping)
    }
}

/// A variant with named fields being built.
pub struct SerializeStructVariant {
    tag: Tag,
    mapping: Mapping,
}

impl View for SerializeStructVariant {
    type V = (Seq<char>, Seq<EntryModel>);

    closed spec fn view(&self) -> (Seq<char>, Seq<EntryModel>) {
        (self.tag@, self.mapping@)
    }
}

impl SerializeStructVariant {
    /// Inserts a field under its name.
    pub fn serialize_field(&mut self, key: &str, value: Value)
        ensures
            final(self)@ == (
                old(self)@.0,
                insert_model(old(self)@.1, field_entry(key@, value@).0, field_entry(key@, value@).1),
            ),
    {
        self.mapping.insert(Spanned::dummy(Value::String(key.to_owned())), Spanned::dummy(value));
    }

    /// The mapping of the fields, tagged with the variant's name.
    pub fn end(self) -> (r: Value)
        ensures
            r@ == newtype_variant_model(self@.0, ValueModel::Mapping(self@.1)),
    {
        proof {
            lemma_mapping_model(self.mapping);
        }
        Value::Tagged(Box::new(TaggedValue { tag: self.tag, value: Spanned::dummy(Value::Mapping(self.mapping)) }))
    }
}

/// What writing a number gives: an unsigned integer as itself, a signed one through
/// [`Serializer::serialize_i64`], a float through its bit pattern, every NaN made the one NaN.
pub open spec fn written_number(n: N) -> N {
    match n {
        N::PosInt(u) => N::PosInt(u),
        N::NegInt(i) => n_from_i64(i),
        N::Float(b) => N::Float(crate::number::canonical_float(b)),
    }
}

/// The key that a tag is written under: its rendering, `!` and the tag without its `!`, as the
/// map's key checker reads it.
pub open spec fn written_tag_key(t: Seq<char>) -> MaybeTagModel<ValueModel> {
    let (is_tag, text) = crate::tag::check_verdict(crate::tag::check_all(seq![seq!['!'], nobang(t)]));
    if is_tag {
        MaybeTagModel::Tag(text)
    } else {
        MaybeTagModel::NotTag(ValueModel::String(text))
    }
}

/// What writing a value through the serializer datum by datum gives: scalars through their own
/// steps, a sequence element by element, a mapping as a map announced with its length whose
/// entries arrive one by one with their keys written as values, and a tagged value as a map
/// announced with one entry whose key is the tag's rendering.
pub open spec fn written(v: ValueModel) -> ValueModel
    decreases v, 0nat,
{
    match v {
        ValueModel::Null => ValueModel::Null,
        ValueModel::Bool(b) => ValueModel::Bool(b),
        ValueModel::String(s) => ValueModel::String(s),
        ValueModel::Number(n) => ValueModel::Number(written_number(n)),
        ValueModel::Sequence(items) => ValueModel::Sequence(written_items(items, items.len() as int)),
        ValueModel::Mapping(e) => map_end(written_entries(e, e.len() as int)),
        ValueModel::Tagged(t, b) => map_end(entry_step(SerializeMapModel::CheckForTag, written_tag_key(t), written(b.inner))),
    }
}

/// The first `k` items written, each with the empty span.
pub open spec fn written_items(items: Seq<Spanned<ValueModel>>, k: int) -> Seq<Spanned<ValueModel>>
    decreases items, k,
{
    if k <= 0 || k > items.len() {
        Seq::empty()
    } else {
        written_items(items, k - 1).push(dummy_model(written(items[k - 1].inner)))
    }
}

/// The map that the first `k` entries, written one by one, leave: a map of one entry starts by
/// checking for a tag, any other starts as a mapping.
pub open spec fn written_entries(e: Seq<EntryModel>, k: int) -> SerializeMapModel
    decreases e, k,
{
    if k <= 0 || k > e.len() {
        if e.len() == 1 {
            SerializeMapModel::CheckForTag
        } else {
            SerializeMapModel::Untagged(Seq::empty(), None)
        }
    } else {
        entry_step(written_entries(e, k - 1), MaybeTagModel::NotTag(written(e[k - 1].0.inner)), written(e[k - 1].1.inner))
    }
}

} // verus!
