//! Values read from YAML text, written by the serializer and read back by the deserializer, with
//! the calls that serde's derived impls make spelled out by hand.

use yaml_spanned::builder::Builder;
use yaml_spanned::de::{variant_visit, Request, VariantRequest, Visit};
use yaml_spanned::document::NodeData;
use yaml_spanned::load::{load_document, strict};
use yaml_spanned::mapping::Mapping;
use yaml_spanned::number::{Number, N};
use yaml_spanned::ser::Serializer;
use yaml_spanned::spanned::Spanned;
use yaml_spanned::tag::{MaybeTag, Tag, TaggedValue};
use yaml_spanned::value::Value;

fn read(yaml: &str) -> Value {
    let loaded = load_document(yaml).map(|mut d| {
        for node in d.nodes.iter_mut() {
            if let NodeData::Scalar { value, float_reading, .. } = &mut node.data {
                let text = value.strip_prefix('+').unwrap_or(value);
                *float_reading = text.parse::<f64>().ok().map(f64::to_bits);
            }
        }
        assert!(d.is_well_formed());
        d
    });
    strict(Builder::default().build_loaded(loaded)).unwrap().cleared_spans().into_inner()
}

fn sv(v: Value) -> Spanned<Value> {
    Spanned::dummy(v)
}

fn string(x: &str) -> Value {
    Value::String(x.to_string())
}

fn float(x: f64) -> Value {
    Value::Number(Number::from_f64_bits(x.to_bits()))
}

fn mapping(entries: Vec<(Value, Value)>) -> Value {
    Value::Mapping(Mapping::from_entries(entries.into_iter().map(|(k, v)| (sv(k), sv(v))).collect()))
}

fn sequence(items: Vec<Value>) -> Value {
    Value::Sequence(items.into_iter().map(sv).collect())
}

fn tagged(tag: &str, v: Value) -> Value {
    Value::Tagged(Box::new(TaggedValue::new(Tag::new(tag), sv(v))))
}

/// A struct as serde writes it: a struct builder with its fields in order.
fn ser_struct(fields: Vec<(&str, Value)>) -> Value {
    let mut st = Serializer.serialize_struct();
    for (name, value) in fields {
        st.serialize_field(name, value);
    }
    st.end()
}

/// A sequence as serde writes it.
fn ser_seq(items: Vec<Value>) -> Value {
    let mut seq = Serializer.serialize_seq(Some(items.len()));
    for item in items {
        seq.serialize_element(item);
    }
    seq.end()
}

/// A map as serde writes it: announced with its length, then its entries, none of whose keys is
/// written as a rendering, so none is a tag.
fn ser_map(entries: Vec<(Value, Value)>) -> Value {
    let mut map = Serializer.serialize_map(Some(entries.len()));
    for (k, v) in entries {
        map.serialize_entry(MaybeTag::NotTag(k), v);
    }
    map.end()
}

fn de_u64(v: Value) -> u64 {
    match v.into_visit(Request::Number) {
        Visit::Number(Number(N::PosInt(u))) => u,
        _ => panic!("expected an unsigned integer"),
    }
}

fn de_i64(v: Value) -> i64 {
    match v.into_visit(Request::Number) {
        Visit::Number(Number(N::PosInt(u))) => i64::try_from(u).unwrap(),
        Visit::Number(Number(N::NegInt(i))) => i,
        _ => panic!("expected an integer"),
    }
}

fn de_f64(v: Value) -> f64 {
    match v.into_visit(Request::Number) {
        Visit::Number(Number(N::PosInt(u))) => u as f64,
        Visit::Number(Number(N::NegInt(i))) => i as f64,
        Visit::Number(Number(N::Float(bits))) => f64::from_bits(bits),
        _ => panic!("expected a number"),
    }
}

fn de_bool(v: Value) -> bool {
    match v.into_visit(Request::Bool) {
        Visit::Bool(b) => b,
        _ => panic!("expected a boolean"),
    }
}

fn de_string(v: Value) -> String {
    match v.into_visit(Request::Str) {
        Visit::String(s) => s,
        _ => panic!("expected a string"),
    }
}

fn de_seq(v: Value) -> Vec<Value> {
    match v.into_visit(Request::Sequence) {
        Visit::Sequence(items) => items.into_iter().map(|i| i.inner).collect(),
        _ => panic!("expected a sequence"),
    }
}

fn de_map(v: Value) -> Vec<(Value, Value)> {
    match v.into_visit(Request::Mapping) {
        Visit::Mapping(m) => m.into_entries().into_iter().map(|(k, v)| (k.inner, v.inner)).collect(),
        _ => panic!("expected a mapping"),
    }
}

/// The fields of a struct by name, as a derived visitor reads them.
fn de_struct(v: Value) -> Vec<(String, Value)> {
    de_map(v).into_iter().map(|(k, v)| (de_string(k), v)).collect()
}

fn field(fields: &[(String, Value)], name: &str) -> Value {
    fields.iter().find(|(k, _)| k == name).map(|(_, v)| v.clone()).unwrap()
}

fn de_enum(v: Value) -> (String, Option<Value>) {
    match v.into_visit(Request::Enum) {
        Visit::Enum(name, contents) => (name, contents),
        _ => panic!("expected an enum"),
    }
}

#[test]
fn test_int() {
    let value = Value::from(256i64);
    assert!(read("256") == value);
    assert_eq!(de_i64(value.clone()), 256);
    assert!(Serializer.serialize_i64(256) == value);
}

#[test]
fn test_int_max_u64() {
    let value = Value::from(u64::MAX);
    assert!(read("18446744073709551615") == value);
    assert_eq!(de_u64(value.clone()), u64::MAX);
    assert!(Serializer.serialize_u64(u64::MAX) == value);
}

#[test]
fn test_int_min_i64() {
    let value = Value::from(i64::MIN);
    assert!(read("-9223372036854775808") == value);
    assert_eq!(de_i64(value.clone()), i64::MIN);
    assert!(Serializer.serialize_i64(i64::MIN) == value);
}

#[test]
fn test_int_max_i64() {
    let value = Value::from(i64::MAX);
    assert!(read("9223372036854775807") == value);
    assert_eq!(de_i64(value.clone()), i64::MAX);
    assert!(Serializer.serialize_i64(i64::MAX) == value);
}

#[test]
fn test_float() {
    for (yaml, x) in [("25.6", 25.6f64), ("25.", 25.0), (".inf", f64::INFINITY), ("-.inf", f64::NEG_INFINITY)] {
        let value = float(x);
        assert!(read(yaml) == value);
        assert_eq!(de_f64(value.clone()), x);
        assert!(Value::Number(Number::from_f64_bits(x.to_bits())) == value);
    }
    assert!(de_f64(read(".nan\n")).is_nan());
}

#[test]
fn test_float32() {
    for (yaml, x) in [("25.5", 25.5f32), (".inf", f32::INFINITY), ("-.inf", f32::NEG_INFINITY)] {
        let value = float(f64::from(x));
        assert!(read(yaml) == value);
        assert_eq!(de_f64(value) as f32, x);
    }
    assert!((de_f64(read(".nan")) as f32).is_nan());
}

#[test]
fn de_test_nan() {
    let x = de_f64(read(".nan")) as f32;
    assert!(x.is_nan() && x.is_sign_positive());
}

#[test]
fn test_vec() {
    let value = sequence(vec![Value::from(1u64), Value::from(2u64), Value::from(3u64)]);
    assert!(read("- 1\n- 2\n- 3\n") == value);
    let thing: Vec<u64> = de_seq(value.clone()).into_iter().map(de_u64).collect();
    assert_eq!(thing, vec![1, 2, 3]);
    assert!(ser_seq(thing.into_iter().map(|x| Serializer.serialize_u64(x)).collect()) == value);
}

#[test]
fn test_map() {
    let value = mapping(vec![(string("x"), Value::from(1u64)), (string("y"), Value::from(2u64))]);
    assert!(read("x: 1\ny: 2\n") == value);
    let thing: Vec<(String, u64)> = de_map(value.clone()).into_iter().map(|(k, v)| (de_string(k), de_u64(v))).collect();
    assert_eq!(thing, vec![("x".to_string(), 1), ("y".to_string(), 2)]);
    let written = ser_map(
        thing.into_iter().map(|(k, v)| (Serializer.serialize_str(&k), Serializer.serialize_u64(v))).collect(),
    );
    assert!(written == value);
}

#[test]
fn test_basic_struct() {
    let value = mapping(vec![
        (string("x"), Value::from(-4i64)),
        (string("y"), string("hi\tquoted")),
        (string("z"), Value::Bool(true)),
    ]);
    assert!(read("x: -4\ny: \"hi\\tquoted\"\nz: true\n") == value);
    let fields = de_struct(value.clone());
    let (x, y, z) = (de_i64(field(&fields, "x")), de_string(field(&fields, "y")), de_bool(field(&fields, "z")));
    assert_eq!((x, y.as_str(), z), (-4, "hi\tquoted", true));
    let written = ser_struct(vec![
        ("x", Serializer.serialize_i64(x)),
        ("y", Serializer.serialize_str(&y)),
        ("z", Serializer.serialize_bool(z)),
    ]);
    assert!(written == value);
}

#[test]
fn test_string_escapes() {
    let cases = [
        ("ascii\n", "ascii"),
        (
            "\"\\0\\a\\b\\t\\n\\v\\f\\r\\e\\\"\\\\\\N\\L\\P\"\n",
            "\0\u{7}\u{8}\t\n\u{b}\u{c}\r\u{1b}\"\\\u{85}\u{2028}\u{2029}",
        ),
        ("\"\\x1F\\uFEFF\"\n", "\u{1f}\u{feff}"),
        ("\u{1f389}\n", "\u{1f389}"),
    ];
    for (yaml, text) in cases {
        let value = string(text);
        assert!(read(yaml) == value);
        assert_eq!(de_string(value.clone()), text);
        assert!(Serializer.serialize_str(text) == value);
    }
}

#[test]
fn test_multiline_string() {
    let value = mapping(vec![
        (string("trailing_newline"), string("aaa\nbbb\n")),
        (string("no_trailing_newline"), string("aaa\nbbb")),
    ]);
    assert!(read("trailing_newline: |\n  aaa\n  bbb\nno_trailing_newline: |-\n  aaa\n  bbb\n") == value);
    let fields = de_struct(value.clone());
    let a = de_string(field(&fields, "trailing_newline"));
    let b = de_string(field(&fields, "no_trailing_newline"));
    let written = ser_struct(vec![
        ("trailing_newline", Serializer.serialize_str(&a)),
        ("no_trailing_newline", Serializer.serialize_str(&b)),
    ]);
    assert!(written == value);
}

#[test]
fn test_strings_needing_quote() {
    let value = mapping(vec![
        (string("boolean"), string("true")),
        (string("integer"), string("1")),
        (string("void"), string("null")),
        (string("leading_zeros"), string("007")),
    ]);
    assert!(read("boolean: 'true'\ninteger: '1'\nvoid: 'null'\nleading_zeros: '007'\n") == value);
    let fields = de_struct(value.clone());
    let names = ["boolean", "integer", "void", "leading_zeros"];
    let written = ser_struct(names.iter().map(|n| (*n, Serializer.serialize_str(&de_string(field(&fields, n))))).collect());
    assert!(written == value);
}

#[test]
fn test_nested_vec() {
    let value = sequence(vec![
        sequence(vec![Value::from(1u64), Value::from(2u64), Value::from(3u64)]),
        sequence(vec![Value::from(4u64), Value::from(5u64), Value::from(6u64)]),
    ]);
    assert!(read("- - 1\n  - 2\n  - 3\n- - 4\n  - 5\n  - 6\n") == value);
    let thing: Vec<Vec<u64>> =
        de_seq(value.clone()).into_iter().map(|inner| de_seq(inner).into_iter().map(de_u64).collect()).collect();
    assert_eq!(thing, vec![vec![1, 2, 3], vec![4, 5, 6]]);
    let written = ser_seq(
        thing
            .into_iter()
            .map(|inner| ser_seq(inner.into_iter().map(|x| Serializer.serialize_u64(x)).collect()))
            .collect(),
    );
    assert!(written == value);
}

#[test]
fn test_nested_struct() {
    let value = mapping(vec![(string("inner"), mapping(vec![(string("v"), Value::from(512u64))]))]);
    assert!(read("inner:\n  v: 512\n") == value);
    let outer = de_struct(value.clone());
    let inner = de_struct(field(&outer, "inner"));
    let v = de_u64(field(&inner, "v"));
    assert_eq!(v, 512);
    let written = ser_struct(vec![("inner", ser_struct(vec![("v", Serializer.serialize_u64(v))]))]);
    assert!(written == value);
}

#[test]
fn test_nested_enum() {
    let value = tagged("!Inner", string("Unit"));
    assert!(read("!Inner Unit\n") == value);
    let (outer, contents) = de_enum(value.clone());
    assert_eq!(outer, "Inner");
    let inner_value = match variant_visit(contents, VariantRequest::Newtype) {
        Visit::Newtype(v) => v,
        _ => panic!("expected a newtype variant"),
    };
    let (inner, inner_contents) = de_enum(inner_value);
    assert_eq!(inner, "Unit");
    assert!(matches!(variant_visit(inner_contents, VariantRequest::Unit), Visit::Unit));
    let written = Serializer.serialize_newtype_variant("Inner", Ok(Serializer.serialize_unit_variant("Unit"))).unwrap();
    assert!(written == value);
}

#[test]
fn ser_test_option() {
    let value = sequence(vec![Value::from(1u64), Value::Null, Value::from(3u64)]);
    assert!(read("- 1\n- null\n- 3\n") == value);
    let thing: Vec<Option<u64>> = de_seq(value.clone())
        .into_iter()
        .map(|v| match v.into_visit(Request::Option) {
            Visit::Absent => None,
            Visit::Present(v) => Some(de_u64(v)),
            _ => panic!("expected an option"),
        })
        .collect();
    assert_eq!(thing, vec![Some(1), None, Some(3)]);
    let written = ser_seq(
        thing
            .into_iter()
            .map(|x| match x {
                Some(x) => Serializer.serialize_u64(x),
                None => Serializer.serialize_unit(),
            })
            .collect(),
    );
    assert!(written == value);
}

#[test]
fn test_unit() {
    let value = sequence(vec![Value::Null, Value::Null]);
    assert!(read("- null\n- null\n") == value);
    for item in de_seq(value.clone()) {
        assert!(matches!(item.into_visit(Request::Unit), Visit::Unit));
    }
    assert!(ser_seq(vec![Serializer.serialize_unit(), Serializer.serialize_unit()]) == value);
}

#[test]
fn test_unit_struct() {
    assert!(read("null\n") == Value::Null);
    assert!(matches!(Value::Null.into_visit(Request::Unit), Visit::Unit));
    assert!(Serializer.serialize_unit() == Value::Null);
}

#[test]
fn test_unit_variant() {
    let value = string("First");
    assert!(read("First\n") == value);
    let (name, contents) = de_enum(value.clone());
    assert_eq!(name, "First");
    assert!(matches!(variant_visit(contents, VariantRequest::Unit), Visit::Unit));
    assert!(Serializer.serialize_unit_variant("First") == value);
}

#[test]
fn test_newtype_struct() {
    let value = mapping(vec![(string("v"), Value::from(1u64))]);
    assert!(read("v: 1\n") == value);
    let inner = match value.clone().into_visit(Request::NewtypeStruct) {
        Visit::Newtype(v) => v,
        _ => panic!("expected a newtype struct"),
    };
    let v = de_u64(field(&de_struct(inner), "v"));
    assert_eq!(v, 1);
    assert!(ser_struct(vec![("v", Serializer.serialize_u64(v))]) == value);
}

#[test]
fn test_newtype_variant() {
    let value = tagged("!Size", Value::from(127u64));
    assert!(read("!Size 127\n") == value);
    let (name, contents) = de_enum(value.clone());
    assert_eq!(name, "Size");
    let size = match variant_visit(contents, VariantRequest::Newtype) {
        Visit::Newtype(v) => de_u64(v),
        _ => panic!("expected a newtype variant"),
    };
    assert_eq!(size, 127);
    let written = Serializer.serialize_newtype_variant("Size", Ok(Serializer.serialize_u64(size))).unwrap();
    assert!(written == value);
}

#[test]
fn test_tuple_variant() {
    let value = tagged("!Rgb", sequence(vec![Value::from(32u64), Value::from(64u64), Value::from(96u64)]));
    assert!(read("!Rgb\n- 32\n- 64\n- 96\n") == value);
    let (name, contents) = de_enum(value.clone());
    assert_eq!(name, "Rgb");
    let rgb: Vec<u64> = match variant_visit(contents, VariantRequest::Tuple) {
        Visit::Sequence(items) => items.into_iter().map(|i| de_u64(i.inner)).collect(),
        _ => panic!("expected a tuple variant"),
    };
    assert_eq!(rgb, vec![32, 64, 96]);
    let mut tv = Serializer.serialize_tuple_variant("Rgb", 3).ok().unwrap();
    for c in rgb {
        tv.serialize_field(Serializer.serialize_u64(c));
    }
    assert!(tv.end() == value);
}

#[test]
fn test_struct_variant() {
    let color = mapping(vec![
        (string("r"), Value::from(32u64)),
        (string("g"), Value::from(64u64)),
        (string("b"), Value::from(96u64)),
    ]);
    let value = tagged("!Color", color);
    assert!(read("!Color\nr: 32\ng: 64\nb: 96\n") == value);
    let (name, contents) = de_enum(value.clone());
    assert_eq!(name, "Color");
    let fields: Vec<(String, u64)> = match variant_visit(contents, VariantRequest::Struct) {
        Visit::Mapping(m) => m.into_entries().into_iter().map(|(k, v)| (de_string(k.inner), de_u64(v.inner))).collect(),
        _ => panic!("expected a struct variant"),
    };
    assert_eq!(fields, vec![("r".to_string(), 32), ("g".to_string(), 64), ("b".to_string(), 96)]);
    let mut sv = Serializer.serialize_struct_variant("Color").ok().unwrap();
    for (k, v) in fields {
        sv.serialize_field(&k, Serializer.serialize_u64(v));
    }
    assert!(sv.end() == value);
}

#[test]
fn test_tagged_map_value() {
    let value = mapping(vec![(
        string("profile"),
        tagged("!ClassValidator", mapping(vec![(string("class_name"), string("ApplicationConfig"))])),
    )]);
    assert!(read("profile: !ClassValidator\n    class_name: ApplicationConfig\n") == value);
    let bindings = de_struct(value.clone());
    let (name, contents) = de_enum(field(&bindings, "profile"));
    assert_eq!(name, "ClassValidator");
    let class_name = match variant_visit(contents, VariantRequest::Struct) {
        Visit::Mapping(m) => de_string(m.into_entries().remove(0).1.inner),
        _ => panic!("expected a struct variant"),
    };
    assert_eq!(class_name, "ApplicationConfig");
    let mut sv = Serializer.serialize_struct_variant("ClassValidator").ok().unwrap();
    sv.serialize_field("class_name", Serializer.serialize_str(&class_name));
    assert!(ser_struct(vec![("profile", sv.end())]) == value);
}

#[test]
fn test_value() {
    let config = sequence(vec![
        Value::Null,
        Value::Bool(true),
        Value::from(65535u64),
        float(0.54321),
        string("s"),
        Value::Mapping(Mapping::new()),
    ]);
    let value = mapping(vec![(string("type"), string("primary")), (string("config"), config.clone())]);
    assert!(read("type: primary\nconfig:\n- null\n- true\n- 65535\n- 0.54321\n- s\n- {}\n") == value);
    let fields = de_struct(value.clone());
    let typ = de_string(field(&fields, "type"));
    assert_eq!(typ, "primary");
    assert!(field(&fields, "config") == config);
    let written_config = ser_seq(vec![
        Serializer.serialize_unit(),
        Serializer.serialize_bool(true),
        Serializer.serialize_u64(65535),
        float(0.54321),
        Serializer.serialize_str("s"),
        ser_map(vec![]),
    ]);
    assert!(ser_struct(vec![("type", Serializer.serialize_str(&typ)), ("config", written_config)]) == value);
}

#[test]
fn ser_test_mapping() {
    let sub = mapping(vec![(string("a"), string("foo")), (string("b"), string("bar"))]);
    let value = mapping(vec![(string("substructure"), sub.clone())]);
    assert!(read("substructure:\n  a: foo\n  b: bar\n") == value);
    let fields = de_struct(value.clone());
    let entries = de_map(field(&fields, "substructure"));
    assert_eq!(entries.len(), 2);
    assert!(ser_struct(vec![("substructure", ser_map(entries))]) == value);
}

#[test]
fn test_long_string() {
    let text: String = std::iter::repeat(["word", " "]).flatten().take(69).collect();
    let value = mapping(vec![(string("string"), string(&text))]);
    let yaml = format!("string: {}\n", text);
    assert!(read(&yaml) == value);
    let fields = de_struct(value.clone());
    let s = de_string(field(&fields, "string"));
    assert_eq!(s, text);
    assert!(ser_struct(vec![("string", Serializer.serialize_str(&s))]) == value);
}
