use yaml_spanned::de::{variant_visit, Expected, Request, Unexpected, VariantRequest, Visit};
use yaml_spanned::error::SerdeError;
use yaml_spanned::mapping::Mapping;
use yaml_spanned::number::{Number, N};
use yaml_spanned::ser::{SerializeMap, Serializer};
use yaml_spanned::spanned::Spanned;
use yaml_spanned::tag::{check_for_tag, MaybeTag, Tag, TaggedValue};
use yaml_spanned::value::Value;

fn string(x: &str) -> Value {
    Value::String(x.to_string())
}

fn tagged(tag: &str, v: Value) -> Value {
    Value::Tagged(Box::new(TaggedValue::new(Tag::new(tag), Spanned::dummy(v))))
}

#[test]
fn serializer_scalars() {
    assert!(Serializer.serialize_bool(true) == Value::Bool(true));
    assert!(matches!(Serializer.serialize_i64(-3), Value::Number(Number(N::NegInt(-3)))));
    assert!(matches!(Serializer.serialize_i64(3), Value::Number(Number(N::PosInt(3)))));
    assert!(matches!(Serializer.serialize_u64(u64::MAX), Value::Number(Number(N::PosInt(u64::MAX)))));
    assert!(Serializer.serialize_char('x') == string("x"));
    assert!(Serializer.serialize_str("hello") == string("hello"));
    assert!(Serializer.serialize_unit() == Value::Null);
    assert!(Serializer.serialize_unit_variant("Red") == string("Red"));
}

#[test]
fn serializer_128_bit_integers() {
    assert!(matches!(Serializer.serialize_i128(256), Value::Number(Number(N::PosInt(256)))));
    assert!(matches!(Serializer.serialize_i128(-256), Value::Number(Number(N::NegInt(-256)))));
    assert!(matches!(
        Serializer.serialize_i128(i128::from(u64::MAX)),
        Value::Number(Number(N::PosInt(u64::MAX)))
    ));
    assert!(Serializer.serialize_i128(i128::from(u64::MAX) + 1) == string("18446744073709551616"));
    assert!(Serializer.serialize_i128(i128::from(i64::MIN) - 1) == string("-9223372036854775809"));
    assert!(Serializer.serialize_i128(i128::MIN) == string("-170141183460469231731687303715884105728"));
    assert!(matches!(Serializer.serialize_u128(7), Value::Number(Number(N::PosInt(7)))));
    assert!(Serializer.serialize_u128(u128::MAX) == string("340282366920938463463374607431768211455"));
}

#[test]
fn serializer_bytes_are_a_sequence_of_numbers() {
    let v = Serializer.serialize_bytes(&[1u8, 255u8]);
    match v {
        Value::Sequence(items) => {
            assert_eq!(items.len(), 2);
            assert!(matches!(items[0].inner, Value::Number(Number(N::PosInt(1)))));
            assert!(matches!(items[1].inner, Value::Number(Number(N::PosInt(255)))));
        }
        _ => panic!("expected a sequence"),
    }
}

#[test]
fn serializer_newtype_variant_is_tagged() {
    let v = Serializer.serialize_newtype_variant("Some", Ok(Value::from(5i64))).unwrap();
    assert!(v == tagged("Some", Value::from(5i64)));
    assert!(matches!(
        Serializer.serialize_newtype_variant("", Ok(Value::Null)),
        Err(SerdeError::EmptyTag)
    ));
}

#[test]
fn empty_variant_name_fails_before_its_value() {
    let failed: Result<Value, SerdeError> = Err(SerdeError::Custom("value failed".to_string(), None));
    assert!(matches!(Serializer.serialize_newtype_variant("", failed), Err(SerdeError::EmptyTag)));
    let failed: Result<Value, SerdeError> = Err(SerdeError::Custom("value failed".to_string(), None));
    assert!(matches!(
        Serializer.serialize_newtype_variant("V", failed),
        Err(SerdeError::Custom(m, None)) if m == "value failed"
    ));
}

#[test]
fn serializer_sequences_and_variants() {
    let mut seq = Serializer.serialize_seq(Some(2));
    seq.serialize_element(Value::from(1i64));
    seq.serialize_element(string("a"));
    let v = seq.end();
    assert!(v == Value::Sequence(vec![Spanned::dummy(Value::from(1i64)), Spanned::dummy(string("a"))]));

    let mut tv = Serializer.serialize_tuple_variant("Pair", 2).ok().unwrap();
    tv.serialize_field(Value::from(1i64));
    tv.serialize_field(Value::from(2i64));
    let v = tv.end();
    let expected = tagged(
        "Pair",
        Value::Sequence(vec![Spanned::dummy(Value::from(1i64)), Spanned::dummy(Value::from(2i64))]),
    );
    assert!(v == expected);
    assert!(matches!(Serializer.serialize_tuple_variant("", 0), Err(SerdeError::EmptyTag)));

    let mut sv = Serializer.serialize_struct_variant("Point").ok().unwrap();
    sv.serialize_field("x", Value::from(1i64));
    sv.serialize_field("y", Value::from(2i64));
    sv.serialize_field("x", Value::from(3i64));
    let v = sv.end();
    let mut m = Mapping::new();
    m.insert(Spanned::dummy(string("x")), Spanned::dummy(Value::from(3i64)));
    m.insert(Spanned::dummy(string("y")), Spanned::dummy(Value::from(2i64)));
    assert!(v == tagged("Point", Value::Mapping(m)));
    assert!(matches!(Serializer.serialize_struct_variant(""), Err(SerdeError::EmptyTag)));

    let mut st = Serializer.serialize_struct();
    st.serialize_field("name", string("n"));
    let v = st.end();
    let mut m = Mapping::new();
    m.insert(Spanned::dummy(string("name")), Spanned::dummy(string("n")));
    assert!(v == Value::Mapping(m));
}

#[test]
fn serializer_map_of_one_tag_entry_is_a_tagged_value() {
    let mut map = Serializer.serialize_map(Some(1));
    assert!(map.checks_for_tag());
    let key = check_for_tag(&vec!["!".to_string(), "Thing".to_string()]);
    assert!(matches!(&key, MaybeTag::Tag(t) if t.as_str() == "Thing"));
    map.serialize_entry(
        match key {
            MaybeTag::Tag(t) => MaybeTag::Tag(t),
            MaybeTag::NotTag(t) => MaybeTag::NotTag(Value::String(t)),
        },
        Value::from(1i64),
    );
    assert!(!map.checks_for_tag());
    let v = map.end();
    assert!(v == tagged("Thing", Value::from(1i64)));
    match v {
        Value::Tagged(t) => assert_eq!(t.tag.string, "Thing"),
        _ => panic!("expected a tagged value"),
    }
}

#[test]
fn serializer_tagged_map_with_second_key_becomes_mapping() {
    let mut map = Serializer.serialize_map(Some(1));
    map.serialize_entry(MaybeTag::Tag("Thing".to_string()), Value::from(1i64));
    map.serialize_entry(MaybeTag::NotTag(string("k")), string("v"));
    let v = map.end();
    let mut m = Mapping::new();
    m.insert(Spanned::dummy(string("!Thing")), Spanned::dummy(Value::from(1i64)));
    m.insert(Spanned::dummy(string("k")), Spanned::dummy(string("v")));
    assert!(v == Value::Mapping(m));

    let mut map = Serializer.serialize_map(Some(1));
    map.serialize_entry(MaybeTag::Tag("!Thing".to_string()), Value::Null);
    map.serialize_key(string("k"));
    map.serialize_value(string("v"));
    let v = map.end();
    let mut m = Mapping::new();
    m.insert(Spanned::dummy(string("!Thing")), Spanned::dummy(Value::Null));
    m.insert(Spanned::dummy(string("k")), Spanned::dummy(string("v")));
    assert!(v == Value::Mapping(m));
}

#[test]
fn serializer_untagged_maps() {
    let map = Serializer.serialize_map(None);
    assert!(!map.checks_for_tag());
    assert!(map.end() == Value::Mapping(Mapping::new()));
    assert!(Serializer.serialize_map(Some(1)).end() == Value::Mapping(Mapping::new()));

    let mut map = Serializer.serialize_map(Some(2));
    map.serialize_key(string("a"));
    assert!(matches!(&map, SerializeMap::Untagged { next_key: Some(_), .. }));
    map.serialize_value(Value::from(1i64));
    assert!(matches!(&map, SerializeMap::Untagged { next_key: None, .. }));
    map.serialize_entry(MaybeTag::NotTag(string("b")), Value::from(2i64));
    map.serialize_entry(MaybeTag::NotTag(string("a")), Value::from(3i64));
    let mut m = Mapping::new();
    m.insert(Spanned::dummy(string("a")), Spanned::dummy(Value::from(3i64)));
    m.insert(Spanned::dummy(string("b")), Spanned::dummy(Value::from(2i64)));
    assert!(map.end() == Value::Mapping(m));

    let mut map = Serializer.serialize_map(Some(1));
    map.serialize_entry(MaybeTag::NotTag(string("k")), Value::Null);
    let mut m = Mapping::new();
    m.insert(Spanned::dummy(string("k")), Spanned::dummy(Value::Null));
    assert!(map.end() == Value::Mapping(m));
}

#[test]
fn law_tagged_value_serializes_as_tagged_on_values() {
    for tag in ["Thing", "!Thing", "!"] {
        let t = Tag::new(tag);
        let text = t.to_text();
        let rest: String = text.chars().skip(1).collect();
        let key = check_for_tag(&vec!["!".to_string(), rest]);
        let mut map = Serializer.serialize_map(Some(1));
        match key {
            MaybeTag::Tag(s) => map.serialize_entry(MaybeTag::Tag(s), string("v")),
            MaybeTag::NotTag(_) => panic!("a rendered tag is a tag"),
        }
        match map.end() {
            Value::Tagged(back) => {
                assert!(back.tag == t);
                assert!(back.value.inner == string("v"));
            }
            _ => panic!("expected a tagged value"),
        }
    }
}

#[test]
fn deserializer_any() {
    assert!(matches!(Value::Null.into_visit(Request::Any), Visit::Unit));
    assert!(matches!(Value::Bool(true).into_visit(Request::Any), Visit::Bool(true)));
    assert!(matches!(Value::from(-1i64).into_visit(Request::Any), Visit::Number(Number(N::NegInt(-1)))));
    assert!(matches!(string("s").into_visit(Request::Any), Visit::String(s) if s == "s"));
    match tagged("!Thing", Value::from(1i64)).into_visit(Request::Any) {
        Visit::Enum(name, Some(v)) => {
            assert_eq!(name, "Thing");
            assert!(v == Value::from(1i64));
        }
        _ => panic!("expected an enum"),
    }
    assert!(matches!(Value::Null.into_visit(Request::IgnoredAny), Visit::Unit));
}

#[test]
fn deserializer_looks_through_tags_for_scalars() {
    let v = tagged("T", Value::Bool(false));
    assert!(matches!(v.into_visit(Request::Bool), Visit::Bool(false)));
    let v = tagged("T", tagged("U", string("x")));
    assert!(matches!(v.into_visit(Request::Str), Visit::String(s) if s == "x"));
    let v = tagged("T", Value::from(3u64));
    assert!(matches!(v.into_visit(Request::Number), Visit::Number(Number(N::PosInt(3)))));
}

#[test]
fn deserializer_type_errors() {
    match string("x").into_visit(Request::Bool) {
        Visit::Invalid(Unexpected::Str(s), Expected::Visitor) => assert_eq!(s, "x"),
        _ => panic!("expected a type error"),
    }
    assert!(matches!(
        Value::Number(Number::from_f64_bits(1.5f64.to_bits())).into_visit(Request::Bool),
        Visit::Invalid(Unexpected::Float(b), Expected::Visitor) if b == 1.5f64.to_bits()
    ));
    assert!(matches!(
        Value::Bool(true).into_visit(Request::Enum),
        Visit::Invalid(Unexpected::Bool(true), Expected::TaggedEnum)
    ));
    assert!(matches!(
        tagged("T", Value::Null).into_visit(Request::Unit),
        Visit::Invalid(Unexpected::Enum, Expected::Visitor)
    ));
    assert!(matches!(
        Value::Sequence(vec![]).into_visit(Request::Mapping),
        Visit::Invalid(Unexpected::Sequence, Expected::Visitor)
    ));
    assert!(matches!(
        Value::Mapping(Mapping::new()).into_visit(Request::Sequence),
        Visit::Invalid(Unexpected::Mapping, Expected::Visitor)
    ));
}

#[test]
fn deserializer_null_is_empty_collection_and_absent_option() {
    assert!(matches!(Value::Null.into_visit(Request::Sequence), Visit::Sequence(v) if v.is_empty()));
    assert!(matches!(Value::Null.into_visit(Request::Mapping), Visit::Mapping(m) if m.len() == 0));
    assert!(matches!(Value::Null.into_visit(Request::Option), Visit::Absent));
    assert!(matches!(Value::Null.into_visit(Request::Unit), Visit::Unit));
    assert!(matches!(Value::Bool(true).into_visit(Request::Option), Visit::Present(Value::Bool(true))));
    assert!(matches!(Value::Bool(true).into_visit(Request::NewtypeStruct), Visit::Newtype(Value::Bool(true))));
    assert!(matches!(string("b").into_visit(Request::Bytes), Visit::String(s) if s == "b"));
}

#[test]
fn deserializer_enum_from_string_and_tag() {
    match string("Red").into_visit(Request::Enum) {
        Visit::Enum(name, None) => assert_eq!(name, "Red"),
        _ => panic!("expected a unit variant"),
    }
    match tagged("Some", Value::from(2i64)).into_visit(Request::Enum) {
        Visit::Enum(name, Some(v)) => {
            assert_eq!(name, "Some");
            assert!(v == Value::from(2i64));
        }
        _ => panic!("expected a newtype variant"),
    }
}

#[test]
fn variant_contents() {
    assert!(matches!(variant_visit(None, VariantRequest::Unit), Visit::Unit));
    assert!(matches!(
        variant_visit(None, VariantRequest::Newtype),
        Visit::Invalid(Unexpected::UnitVariant, Expected::NewtypeVariant)
    ));
    assert!(matches!(
        variant_visit(None, VariantRequest::Tuple),
        Visit::Invalid(Unexpected::UnitVariant, Expected::TupleVariant)
    ));
    assert!(matches!(
        variant_visit(None, VariantRequest::Struct),
        Visit::Invalid(Unexpected::UnitVariant, Expected::StructVariant)
    ));
    assert!(matches!(variant_visit(Some(Value::Null), VariantRequest::Unit), Visit::Unit));
    assert!(matches!(
        variant_visit(Some(Value::Bool(true)), VariantRequest::Unit),
        Visit::Invalid(Unexpected::Bool(true), Expected::Visitor)
    ));
    assert!(matches!(variant_visit(Some(Value::Null), VariantRequest::Newtype), Visit::Newtype(Value::Null)));
    assert!(matches!(variant_visit(Some(Value::Sequence(vec![])), VariantRequest::Tuple), Visit::Unit));
    assert!(matches!(
        variant_visit(Some(Value::Sequence(vec![Spanned::dummy(Value::Null)])), VariantRequest::Tuple),
        Visit::Sequence(v) if v.len() == 1
    ));
    assert!(matches!(
        variant_visit(Some(Value::Null), VariantRequest::Tuple),
        Visit::Invalid(Unexpected::Unit, Expected::TupleVariant)
    ));
    assert!(matches!(
        variant_visit(Some(Value::Mapping(Mapping::new())), VariantRequest::Struct),
        Visit::Mapping(_)
    ));
    assert!(matches!(
        variant_visit(Some(string("x")), VariantRequest::Struct),
        Visit::Invalid(Unexpected::Str(_), Expected::StructVariant)
    ));
}

#[test]
fn law_variants_read_back_on_values() {
    match Serializer.serialize_unit_variant("Red").into_visit(Request::Enum) {
        Visit::Enum(name, None) => assert_eq!(name, "Red"),
        _ => panic!("expected a unit variant"),
    }
    let written = Serializer.serialize_newtype_variant("Wrap", Ok(string("x"))).unwrap();
    match written.into_visit(Request::Enum) {
        Visit::Enum(name, contents) => {
            assert_eq!(name, "Wrap");
            assert!(matches!(variant_visit(contents, VariantRequest::Newtype), Visit::Newtype(v) if v == string("x")));
        }
        _ => panic!("expected a newtype variant"),
    }
    let mut tv = Serializer.serialize_tuple_variant("Pair", 1).ok().unwrap();
    tv.serialize_field(Value::Bool(true));
    match tv.end().into_visit(Request::Enum) {
        Visit::Enum(name, contents) => {
            assert_eq!(name, "Pair");
            assert!(matches!(variant_visit(contents, VariantRequest::Tuple), Visit::Sequence(v) if v.len() == 1));
        }
        _ => panic!("expected a tuple variant"),
    }
}

#[test]
fn law_scalars_read_back_on_values() {
    assert!(matches!(Serializer.serialize_bool(false).into_visit(Request::Bool), Visit::Bool(false)));
    assert!(matches!(
        Serializer.serialize_i64(-9).into_visit(Request::Number),
        Visit::Number(Number(N::NegInt(-9)))
    ));
    assert!(matches!(Serializer.serialize_str("q").into_visit(Request::Str), Visit::String(s) if s == "q"));
    assert!(matches!(Serializer.serialize_unit().into_visit(Request::Option), Visit::Absent));
}

#[test]
fn value_unexpected_kinds() {
    assert!(matches!(Value::Null.unexpected(), Unexpected::Unit));
    assert!(matches!(Value::from(5u64).unexpected(), Unexpected::Unsigned(5)));
    assert!(matches!(Value::from(-5i64).unexpected(), Unexpected::Signed(-5)));
    assert!(matches!(tagged("T", Value::Null).unexpected(), Unexpected::Enum));
}

#[test]
fn law_only_first_entry_may_be_tag_on_values() {
    let mut map = Serializer.serialize_map(Some(1));
    map.serialize_key(string("k"));
    assert!(!map.checks_for_tag());
    assert!(matches!(&map, SerializeMap::Untagged { .. }));
    map.serialize_value(Value::Null);
    assert!(matches!(&map, SerializeMap::Untagged { next_key: None, .. }));
    assert!(matches!(map.end(), Value::Mapping(_)));

    let mut map = Serializer.serialize_map(Some(1));
    map.serialize_entry(MaybeTag::Tag("T".to_string()), Value::Null);
    assert!(!map.checks_for_tag());
    map.serialize_key(string("k"));
    assert!(matches!(&map, SerializeMap::Untagged { .. }));
}

#[test]
fn a_one_entry_map_with_a_bang_string_key_stays_a_mapping() {
    let mut map = Serializer.serialize_map(Some(1));
    map.serialize_entry(MaybeTag::NotTag(Value::String("!x".to_string())), Value::from(1i64));
    let written = map.end();
    assert!(written.is_mapping());
    assert!(written.get("!x").unwrap().inner == Value::from(1i64));

    let mut map = Serializer.serialize_map(Some(1));
    let key = match check_for_tag(&Tag::new("x").pieces()) {
        MaybeTag::Tag(t) => MaybeTag::Tag(t),
        MaybeTag::NotTag(t) => MaybeTag::NotTag(Value::String(t)),
    };
    map.serialize_entry(key, Value::from(1i64));
    let written = map.end();
    assert!(written == Value::Tagged(Box::new(TaggedValue::new(Tag::new("x"), Spanned::dummy(Value::from(1i64))))));
}
