//! Reading values through the data model of deserialization: what a value hands on for each kind
//! of datum that it is asked for, and what the contents of an enum variant hand on.
use crate::mapping::{EntryModel, Mapping};
use crate::number::{Number, N};
use crate::spanned::Spanned;
use crate::tag::{nobang, untag_model};
use crate::value::{items_model, Sequence, Value, ValueModel};
use vstd::prelude::*;

verus! {

/// What a value is asked for. The integer and float kinds are all [`Request::Number`]; a
/// character, a string and an identifier are [`Request::Str`]; a tuple and a tuple struct are
/// [`Request::Sequence`]; a struct is [`Request::Mapping`]; a unit struct is [`Request::Unit`].
#[derive(Clone, Copy, Debug, PartialEq, Eq, Structural)]
pub enum Request {
    Any,
    Bool,
    Number,
    Str,
    Bytes,
    Option,
    Unit,
    NewtypeStruct,
    Sequence,
    Mapping,
    Enum,
    IgnoredAny,
}

/// What the contents of an enum variant are asked for.
#[derive(Clone, Copy, Debug, PartialEq, Eq, Structural)]
pub enum VariantRequest {
    Unit,
    Newtype,
    Tuple,
    Struct,
}

/// What a value was found to be where it did not fit. A float is held by its bit pattern.
#[derive(Debug)]
pub enum Unexpected {
    Unit,
    Bool(bool),
    Unsigned(u64),
    Signed(i64),
    Float(u64),
    Str(String),
    Sequence,
    Mapping,
    Enum,
    UnitVariant,
}

/// What was expected instead: what the visitor says it expects, or one of the library's own
/// expectations.
#[derive(Clone, Copy, Debug, PartialEq, Eq, Structural)]
pub enum Expected {
    Visitor,
    TaggedEnum,
    NewtypeVariant,
    TupleVariant,
    StructVariant,
}

/// What a value hands on.
#[derive(Debug)]
pub enum Visit {
    /// The unit value.
    Unit,
    Bool(bool),
    Number(Number),
    String(String),
    /// A sequence; each element is handed on without its span.
    Sequence(Sequence),
    /// A mapping; each key and value is handed on without its span.
    Mapping(Mapping),
    /// An enum: the variant's name and, where it has any, its contents.
    Enum(String, Option<Value>),
    /// An absent optional value.
    Absent,
    /// A present optional value.
    Present(Value),
    /// The contents of a newtype struct.
    Newtype(Value),
    /// A type error.
    Invalid(Unexpected, Expected),
}

/// The model of [`Unexpected`].
pub enum UnexpectedModel {
    Unit,
    Bool(bool),
    Unsigned(u64),
    Signed(i64),
    Float(u64),
    Str(Seq<char>),
    Sequence,
    Mapping,
    Enum,
    UnitVariant,
}

/// The model of [`Visit`].
pub enum VisitModel {
    Unit,
    Bool(bool),
    Number(N),
    String(Seq<char>),
    Sequence(Seq<Spanned<ValueModel>>),
    Mapping(Seq<EntryModel>),
    Enum(Seq<char>, Option<ValueModel>),
    Absent,
    Present(ValueModel),
    Newtype(ValueModel),
    Invalid(UnexpectedModel, Expected),
}

impl View for Unexpected {
    type V = UnexpectedModel;

    open spec fn view(&self) -> UnexpectedModel {
        match self {
            Unexpected::Unit => UnexpectedModel::Unit,
            Unexpected::Bool(b) => UnexpectedModel::Bool(*b),
            Unexpected::Unsigned(u) => UnexpectedModel::Unsigned(*u),
            Unexpected::Signed(i) => UnexpectedModel::Signed(*i),
            Unexpected::Float(f) => UnexpectedModel::Float(*f),
            Unexpected::Str(s) => UnexpectedModel::Str(s@),
            Unexpected::Sequence => UnexpectedModel::Sequence,
            Unexpected::Mapping => UnexpectedModel::Mapping,
            Unexpected::Enum => UnexpectedModel::Enum,
            Unexpected::UnitVariant => UnexpectedModel::UnitVariant,
        }
    }
}

impl View for Visit {
    type V = VisitModel;

    open spec fn view(&self) -> VisitModel {
        match self {
            Visit::Unit => VisitModel::Unit,
            Visit::Bool(b) => VisitModel::Bool(*b),
            Visit::Number(n) => VisitModel::Number(n@),
            Visit::String(s) => VisitModel::String(s@),
            Visit::Sequence(v) => VisitModel::Sequence(items_model(v@)),
            Visit::Mapping(m) => VisitModel::Mapping(m@),
            Visit::Enum(s, c) => VisitModel::Enum(
                s@,
                match c {
                    Some(v) => Some(v@),
                    None => None,
                },
            ),
            Visit::Absent => VisitModel::Absent,
            Visit::Present(v) => VisitModel::Present(v@),
            Visit::Newtype(v) => VisitModel::Newtype(v@),
            Visit::Invalid(u, e) => VisitModel::Invalid(u@, *e),
        }
    }
}

/// What a value is, for an error message.
pub open spec fn unexpected_model(v: ValueModel) -> UnexpectedModel {
    match v {
        ValueModel::Null => UnexpectedModel::Unit,
        ValueModel::Bool(b) => UnexpectedModel::Bool(b),
        ValueModel::Number(N::PosInt(u)) => UnexpectedModel::Unsigned(u),
        ValueModel::Number(N::NegInt(i)) => UnexpectedModel::Signed(i),
        ValueModel::Number(N::Float(f)) => UnexpectedModel::Float(f),
        ValueModel::String(s) => UnexpectedModel::Str(s),
        ValueModel::Sequence(_) => UnexpectedModel::Sequence,
        ValueModel::Mapping(_) => UnexpectedModel::Mapping,
        ValueModel::Tagged(_, _) => UnexpectedModel::Enum,
    }
}

/// A type error about `v` against what the visitor expects.
pub open spec fn invalid(v: ValueModel) -> VisitModel {
    VisitModel::Invalid(unexpected_model(v), Expected::Visitor)
}

/// What a value hands on when asked for `request`. A tagged value is an enum whose variant is
/// the tag without its `!`; where a scalar, a sequence or a mapping is asked for, the tags
/// around the value are looked through; null reads as an empty sequence or mapping; and a
/// string is a variant without contents.
pub open spec fn visit_spec(v: ValueModel, request: Request) -> VisitModel {
    match request {
        Request::Any => match v {
            ValueModel::Null => VisitModel::Unit,
            ValueModel::Bool(b) => VisitModel::Bool(b),
            ValueModel::Number(n) => VisitModel::Number(n),
            ValueModel::String(s) => VisitModel::String(s),
            ValueModel::Sequence(xs) => VisitModel::Sequence(xs),
            ValueModel::Mapping(m) => VisitModel::Mapping(m),
            ValueModel::Tagged(t, b) => VisitModel::Enum(nobang(t), Some(b.inner)),
        },
        Request::Bool => match untag_model(v) {
            ValueModel::Bool(b) => VisitModel::Bool(b),
            o => invalid(o),
        },
        Request::Number => match untag_model(v) {
            ValueModel::Number(n) => VisitModel::Number(n),
            o => invalid(o),
        },
        Request::Str => match untag_model(v) {
            ValueModel::String(s) => VisitModel::String(s),
            o => invalid(o),
        },
        Request::Bytes => match untag_model(v) {
            ValueModel::String(s) => VisitModel::String(s),
            ValueModel::Sequence(xs) => VisitModel::Sequence(xs),
            o => invalid(o),
        },
        Request::Option => match v {
            ValueModel::Null => VisitModel::Absent,
            _ => VisitModel::Present(v),
        },
        Request::Unit => match v {
            ValueModel::Null => VisitModel::Unit,
            _ => invalid(v),
        },
        Request::NewtypeStruct => VisitModel::Newtype(v),
        Request::Sequence => match untag_model(v) {
            ValueModel::Sequence(xs) => VisitModel::Sequence(xs),
            ValueModel::Null => VisitModel::Sequence(Seq::empty()),
            o => invalid(o),
        },
        Request::Mapping => match untag_model(v) {
            ValueModel::Mapping(m) => VisitModel::Mapping(m),
            ValueModel::Null => VisitModel::Mapping(Seq::empty()),
            o => invalid(o),
        },
        Request::Enum => match v {
            ValueModel::Tagged(t, b) => VisitModel::Enum(nobang(t), Some(b.inner)),
            ValueModel::String(s) => VisitModel::Enum(s, None),
            _ => VisitModel::Invalid(unexpected_model(v), Expected::TaggedEnum),
        },
        Request::IgnoredAny => VisitModel::Unit,
    }
}

/// What the contents of a variant hand on when asked for `request`. A variant without contents
/// is only a unit variant; a unit variant with contents needs them to be null; a tuple variant
/// needs a sequence (an empty one reads as the unit value) and a struct variant a mapping.
pub open spec fn variant_spec(contents: Option<ValueModel>, request: VariantRequest) -> VisitModel {
    match contents {
        None => match request {
            VariantRequest::Unit => VisitModel::Unit,
            VariantRequest::Newtype => VisitModel::Invalid(UnexpectedModel::UnitVariant, Expected::NewtypeVariant),
            VariantRequest::Tuple => VisitModel::Invalid(UnexpectedModel::UnitVariant, Expected::TupleVariant),
            VariantRequest::Struct => VisitModel::Invalid(UnexpectedModel::UnitVariant, Expected::StructVariant),
        },
        Some(v) => match request {
            VariantRequest::Unit => match v {
                ValueModel::Null => VisitModel::Unit,
                _ => invalid(v),
            },
            VariantRequest::Newtype => VisitModel::Newtype(v),
            VariantRequest::Tuple => match v {
                ValueModel::Sequence(xs) => if xs.len() == 0 {
                    VisitModel::Unit
                } else {
                    VisitModel::Sequence(xs)
                },
                _ => VisitModel::Invalid(unexpected_model(v), Expected::TupleVariant),
            },
            VariantRequest::Struct => match v {
                ValueModel::Mapping(m) => VisitModel::Mapping(m),
                _ => VisitModel::Invalid(unexpected_model(v), Expected::StructVariant),
            },
        },
    }
}

impl Value {
    /// What the value is, for an error message (see [`unexpected_model`]).
    pub fn unexpected(&self) -> (r: Unexpected)
        ensures
            r@ == unexpected_model(self@),
    {
        match self {
            Value::Null => Unexpected::Unit,
            Value::Bool(b) => Unexpected::Bool(*b),
            Value::Number(n) => match n.0 {
                N::PosInt(u) => Unexpected::Unsigned(u),
                N::NegInt(i) => Unexpected::Signed(i),
                N::Float(f) => Unexpected::Float(f),
            },
            Value::String(s) => Unexpected::Str(s.clone()),
            Value::Sequence(_) => Unexpected::Sequence,
            Value::Mapping(_) => Unexpected::Mapping,
            Value::Tagged(_) => Unexpected::Enum,
        }
    }

    /// What the value hands on when asked for `request` (see [`visit_spec`]).
    pub fn into_visit(self, request: Request) -> (r: Visit)
        ensures
            r@ == visit_spec(self@, request),
    {
        match request {
            Request::Any => match self {
                Value::Null => Visit::Unit,
                Value::Bool(b) => Visit::Bool(b),
                Value::Number(n) => Visit::Number(n),
                Value::String(s) => Visit::String(s),
                Value::Sequence(xs) => {
                    proof {
                        crate::value::lemma_sequence_model(xs);
                    }
                    Visit::Sequence(xs)
                },
                Value::Mapping(m) => {
                    proof {
                        crate::value::lemma_mapping_model(m);
                    }
                    Visit::Mapping(m)
                },
                Value::Tagged(t) => enum_of_tagged(*t),
            },
            Request::Bool => {
                let v = self.untag();
                match v {
                    Value::Bool(b) => Visit::Bool(b),
                    o => Visit::Invalid(o.unexpected(), Expected::Visitor),
                }
            },
            Request::Number => {
                let v = self.untag();
                match v {
                    Value::Number(n) => Visit::Number(n),
                    o => Visit::Invalid(o.unexpected(), Expected::Visitor),
                }
            },
            Request::Str => {
                let v = self.untag();
                match v {
                    Value::String(s) => Visit::String(s),
                    o => Visit::Invalid(o.unexpected(), Expected::Visitor),
                }
            },
            Request::Bytes => {
                let v = self.untag();
                match v {
                    Value::String(s) => Visit::String(s),
                    Value::Sequence(xs) => {
                        proof {
                            crate::value::lemma_sequence_model(xs);
                        }
                        Visit::Sequence(xs)
                    },
                    o => Visit::Invalid(o.unexpected(), Expected::Visitor),
                }
            },
            Request::Option => match self {
                Value::Null => Visit::Absent,
                v => Visit::Present(v),
            },
            Request::Unit => match self {
                Value::Null => Visit::Unit,
                v => Visit::Invalid(v.unexpected(), Expected::Visitor),
            },
            Request::NewtypeStruct => Visit::Newtype(self),
            Request::Sequence => {
                let v = self.untag();
                match v {
                    Value::Sequence(xs) => {
                        proof {
                            crate::value::lemma_sequence_model(xs);
                        }
                        Visit::Sequence(xs)
                    },
                    Value::Null => {
                        let xs: Sequence = Vec::new();
                        assert(items_model(xs@) =~= Seq::<Spanned<ValueModel>>::empty());
                        Visit::Sequence(xs)
                    },
                    o => Visit::Invalid(o.unexpected(), Expected::Visitor),
                }
            },
            Request::Mapping => {
                let v = self.untag();
                match v {
                    Value::Mapping(m) => {
                        proof {
                            crate::value::lemma_mapping_model(m);
                        }
                        Visit::Mapping(m)
                    },
                    Value::Null => Visit::Mapping(Mapping::new()),
                    o => Visit::Invalid(o.unexpected(), Expected::Visitor),
                }
            },
            Request::Enum => match self {
                Value::Tagged(t) => enum_of_tagged(*t),
                Value::String(s) => Visit::Enum(s, None),
                v => Visit::Invalid(v.unexpected(), Expected::TaggedEnum),
            },
            Request::IgnoredAny => Visit::Unit,
        }
    }
}

/// A tagged value as an enum: the tag without its `!` names the variant, and the value under
/// it, without its span, is the contents.
fn enum_of_tagged(t: crate::tag::TaggedValue) -> (r: Visit)
    ensures
        r@ == VisitModel::Enum(nobang(t.tag@), Some(t.value.inner@)),
{
    let a = crate::text::chars_of(t.tag.string.as_str());
    let b = crate::tag::nobang_chars(&a);
    let name = chars_into_string(&b);
    Visit::Enum(name, Some(t.value.inner))
}

/// A string of the given characters.
fn chars_into_string(c: &Vec<char>) -> (s: String)
    ensures
        s@ == c@,
{
    let mut s = String::new();
    let mut i: usize = 0;
    while i < c.len()
        invariant
            i <= c@.len(),
            s@ == c@.take(i as int),
        decreases c.len() - i,
    {
        crate::text::push_char(&mut s, c[i]);
        assert(c@.take(i as int + 1) =~= c@.take(i as int).push(c@[i as int]));
        i = i + 1;
    }
    assert(c@.take(c@.len() as int) =~= c@);
    s
}

/// What the contents of a variant hand on when asked for `request` (see [`variant_spec`]).
pub fn variant_visit(contents: Option<Value>, request: VariantRequest) -> (r: Visit)
    ensures
        r@ == variant_spec(
            match contents {
                Some(v) => Some(v@),
                None => None,
            },
            request,
        ),
{
    match contents {
        None => match request {
            VariantRequest::Unit => Visit::Unit,
            VariantRequest::Newtype => Visit::Invalid(Unexpected::UnitVariant, Expected::NewtypeVariant),
            VariantRequest::Tuple => Visit::Invalid(Unexpected::UnitVariant, Expected::TupleVariant),
            VariantRequest::Struct => Visit::Invalid(Unexpected::UnitVariant, Expected::StructVariant),
        },
        Some(v) => match request {
            VariantRequest::Unit => match v {
                Value::Null => Visit::Unit,
                o => Visit::Invalid(o.unexpected(), Expected::Visitor),
            },
            VariantRequest::Newtype => Visit::Newtype(v),
            VariantRequest::Tuple => match v {
                Value::Sequence(xs) => {
                    proof {
                        crate::value::lemma_sequence_model(xs);
                    }
                    if xs.len() == 0 {
                        Visit::Unit
                    } else {
                        Visit::Sequence(xs)
                    }
                },
                o => Visit::Invalid(o.unexpected(), Expected::TupleVariant),
            },
            VariantRequest::Struct => match v {
                Value::Mapping(m) => {
                    proof {
                        crate::value::lemma_mapping_model(m);
                    }
                    Visit::Mapping(m)
                },
                o => Visit::Invalid(o.unexpected(), Expected::StructVariant),
            },
        },
    }
}

/// What the reader of values reads back from what a value hands on when asked for anything
/// (see [`visit_spec`] with [`Request::Any`]): scalars as they come, numbers as the
/// serializer's number steps give them, a sequence item by item, a mapping entry by entry,
/// failing on a key read twice, and an enum (a tagged value) as the tagged contents, failing
/// on an empty tag. Nothing where reading fails.
pub open spec fn read_back(v: ValueModel) -> Option<ValueModel>
    decreases v, 0nat,
{
    match v {
        ValueModel::Null => Some(ValueModel::Null),
        ValueModel::Bool(b) => Some(ValueModel::Bool(b)),
        ValueModel::Number(n) => Some(ValueModel::Number(crate::ser::written_number(n))),
        ValueModel::String(s) => Some(ValueModel::String(s)),
        ValueModel::Sequence(xs) => match read_items(xs, xs.len() as int) {
            Some(ys) => Some(ValueModel::Sequence(ys)),
            None => None,
        },
        ValueModel::Mapping(e) => match read_entries(e, e.len() as int) {
            Some(m) => Some(ValueModel::Mapping(m)),
            None => None,
        },
        ValueModel::Tagged(t, b) => if nobang(t).len() == 0 {
            None
        } else {
            match read_back(b.inner) {
                Some(c) => Some(ValueModel::Tagged(nobang(t), Box::new(crate::ser::dummy_model(c)))),
                None => None,
            }
        },
    }
}

/// The first `k` items read back, each with the empty span.
pub open spec fn read_items(xs: Seq<Spanned<ValueModel>>, k: int) -> Option<Seq<Spanned<ValueModel>>>
    decreases xs, k,
{
    if k <= 0 || k > xs.len() {
        Some(Seq::empty())
    } else {
        match (read_items(xs, k - 1), read_back(xs[k - 1].inner)) {
            (Some(ys), Some(y)) => Some(ys.push(crate::ser::dummy_model(y))),
            _ => None,
        }
    }
}

/// The mapping that reading the first `k` entries builds: each key is read, refused if the
/// mapping already holds an equal one, and inserted with its value read.
pub open spec fn read_entries(e: Seq<EntryModel>, k: int) -> Option<Seq<EntryModel>>
    decreases e, k,
{
    if k <= 0 || k > e.len() {
        Some(Seq::empty())
    } else {
        match (read_entries(e, k - 1), read_back(e[k - 1].0.inner)) {
            (Some(m), Some(key)) => if crate::value::find_key(m, key, 0) is Some {
                None
            } else {
                match read_back(e[k - 1].1.inner) {
                    Some(value) => Some(
                        crate::mapping::insert_model(m, crate::ser::dummy_model(key), crate::ser::dummy_model(value)),
                    ),
                    None => None,
                }
            },
            _ => None,
        }
    }
}

} // verus!
