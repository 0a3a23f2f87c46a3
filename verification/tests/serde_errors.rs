//! Type errors of reading values as data: what the deserializer decides, and the message that
//! serde composes from that decision and from what the visitor expects.

use yaml_spanned::builder::Builder;
use yaml_spanned::de::{variant_visit, Expected, Request, Unexpected, VariantRequest, Visit};
use yaml_spanned::document::NodeData;
use yaml_spanned::load::{load_document, strict};
use yaml_spanned::value::Value;

fn read(yaml: &str) -> Value {
    let loaded = load_document(yaml).map(|mut d| {
        for node in d.nodes.iter_mut() {
            if let NodeData::Scalar { value, float_reading, .. } = &mut node.data {
                let text = value.strip_prefix('+').unwrap_or(value);
                *float_reading = text.parse::<f64>().ok().map(f64::to_bits);
            }
        }
        assert!(d.is_well_formed());
        d
    });
    strict(Builder::default().build_loaded(loaded)).unwrap().cleared_spans().into_inner()
}

/// The message of a type error, as serde writes it; `visitor` is what the visitor expects.
fn message(visit: &Visit, visitor: &str) -> String {
    let (found, expected) = match visit {
        Visit::Invalid(found, expected) => (found, expected),
        _ => panic!("expected a type error"),
    };
    let found = match found {
        Unexpected::Unit => "unit value".to_string(),
        Unexpected::Bool(b) => format!("boolean `{b}`"),
        Unexpected::Unsigned(u) => format!("integer `{u}`"),
        Unexpected::Signed(i) => format!("integer `{i}`"),
        Unexpected::Float(bits) => format!("floating point `{}`", f64::from_bits(*bits)),
        Unexpected::Str(s) => format!("string {s:?}"),
        Unexpected::Sequence => "sequence".to_string(),
        Unexpected::Mapping => "map".to_string(),
        Unexpected::Enum => "enum".to_string(),
        Unexpected::UnitVariant => "unit variant".to_string(),
    };
    let expected = match expected {
        Expected::Visitor => visitor,
        Expected::TaggedEnum => "a Value::Tagged enum",
        Expected::NewtypeVariant => "newtype variant",
        Expected::TupleVariant => "tuple variant",
        Expected::StructVariant => "struct variant",
    };
    format!("invalid type: {found}, expected {expected}")
}

fn entries(v: Value) -> Vec<(String, Value)> {
    match v.into_visit(Request::Mapping) {
        Visit::Mapping(m) => m
            .into_entries()
            .into_iter()
            .map(|(k, v)| match k.inner.into_visit(Request::Str) {
                Visit::String(s) => (s, v.inner),
                _ => panic!("expected a string key"),
            })
            .collect(),
        _ => panic!("expected a mapping"),
    }
}

fn newtype_contents(v: Value) -> (String, Value) {
    match v.into_visit(Request::Enum) {
        Visit::Enum(name, contents) => match variant_visit(contents, VariantRequest::Newtype) {
            Visit::Newtype(inner) => (name, inner),
            _ => panic!("expected a newtype variant"),
        },
        _ => panic!("expected an enum"),
    }
}

#[test]
fn test_incorrect_type() {
    let value = read("---\nstr\n");
    let visit = value.into_visit(Request::Number);
    assert_eq!(message(&visit, "i16"), r#"invalid type: string "str", expected i16"#);
}

#[test]
fn test_incorrect_nested_type() {
    let value = read("b:\n  - !C\n    d: fase\n");
    let b = entries(value).remove(0).1;
    let item = match b.into_visit(Request::Sequence) {
        Visit::Sequence(items) => items.into_iter().next().unwrap().inner,
        _ => panic!("expected a sequence"),
    };
    let (variant, c) = newtype_contents(item);
    assert_eq!(variant, "C");
    let d = entries(c).remove(0).1;
    let visit = d.into_visit(Request::Bool);
    assert_eq!(message(&visit, "a boolean"), r#"invalid type: string "fase", expected a boolean"#);
}

#[test]
fn test_missing_field() {
    let value = read("---\nv: true\n");
    let fields = entries(value);
    assert!(fields.iter().any(|(k, _)| k == "v"));
    assert!(!fields.iter().any(|(k, _)| k == "w"));
}

#[test]
fn test_deserialize_nested_enum() {
    let (variant, inner) = newtype_contents(read("---\n!Inner []\n"));
    assert_eq!(variant, "Inner");
    let visit = inner.into_visit(Request::Enum);
    assert_eq!(message(&visit, ""), "invalid type: sequence, expected a Value::Tagged enum");

    let (variant, _) = newtype_contents(read("---\n!Variant []\n"));
    assert_eq!(variant, "Variant");
    assert_ne!(variant, "Inner");

    let (variant, inner) = newtype_contents(read("---\n!Inner !Variant []\n"));
    assert_eq!(variant, "Inner");
    let visit = inner.into_visit(Request::Enum);
    assert_eq!(message(&visit, ""), "invalid type: unit value, expected a Value::Tagged enum");
}

#[test]
fn test_variant_not_a_seq() {
    let (variant, inner) = newtype_contents(read("---\n!V\nvalue: 0\n"));
    assert_eq!(variant, "V");
    let visit = inner.into_visit(Request::Number);
    assert_eq!(message(&visit, "usize"), "invalid type: map, expected usize");
}

#[test]
fn test_struct_from_sequence() {
    let visit = read("[0, 0]\n").into_visit(Request::Mapping);
    assert_eq!(message(&visit, "struct Struct"), "invalid type: sequence, expected struct Struct");
}

#[test]
fn test_bad_bool() {
    let visit = read("---\n!!bool str\n").into_visit(Request::Bool);
    assert_eq!(message(&visit, "a boolean"), r#"invalid type: string "str", expected a boolean"#);
}

#[test]
fn test_bad_int() {
    let visit = read("---\n!!int str\n").into_visit(Request::Number);
    assert_eq!(message(&visit, "i64"), r#"invalid type: string "str", expected i64"#);
}

#[test]
fn test_bad_float() {
    let visit = read("---\n!!float str\n").into_visit(Request::Number);
    assert_eq!(message(&visit, "f64"), r#"invalid type: string "str", expected f64"#);
}

#[test]
fn test_bad_null() {
    let visit = read("---\n!!null str\n").into_visit(Request::Unit);
    assert_eq!(message(&visit, "unit"), r#"invalid type: string "str", expected unit"#);
}

#[test]
fn test_short_tuple() {
    match read("---\n[0, 0]\n").into_visit(Request::Sequence) {
        Visit::Sequence(items) => assert_eq!(items.len(), 2),
        _ => panic!("expected a sequence"),
    }
}

#[test]
fn test_long_tuple() {
    match read("---\n[0, 0, 0]\n").into_visit(Request::Sequence) {
        Visit::Sequence(items) => assert_eq!(items.len(), 3),
        _ => panic!("expected a sequence"),
    }
}

#[test]
fn test_invalid_scalar_type() {
    let x = entries(read("x: ''\n")).remove(0).1;
    let visit = x.into_visit(Request::Sequence);
    assert_eq!(
        message(&visit, "an array of length 1"),
        r#"invalid type: string "", expected an array of length 1"#
    );
}
