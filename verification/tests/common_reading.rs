use yaml_spanned::builder::Builder;
use yaml_spanned::de::{Expected, Request, Unexpected, Visit};
use yaml_spanned::document::{Document, NodeData};
use yaml_spanned::error::{Error, LimitExceeded, ParseError};
use yaml_spanned::load::{load_document, load_documents, strict, strict_all};
use yaml_spanned::mapping::Mapping;
use yaml_spanned::number::{Number, N};
use yaml_spanned::spanned::Spanned;
use yaml_spanned::tag::{Tag, TaggedValue};
use yaml_spanned::value::Value;

fn annotate(doc: &mut Document) {
    for node in doc.nodes.iter_mut() {
        if let NodeData::Scalar { value, float_reading, .. } = &mut node.data {
            let text = value.strip_prefix('+').unwrap_or(value);
            *float_reading = text.parse::<f64>().ok().map(f64::to_bits);
        }
    }
}

fn lossy(yaml: &str) -> Result<(Spanned<Value>, Vec<ParseError>), Error> {
    let loaded = load_document(yaml).map(|mut d| {
        annotate(&mut d);
        assert!(d.is_well_formed());
        d
    });
    Builder::default().build_loaded(loaded)
}

fn read(yaml: &str) -> Result<Spanned<Value>, Error> {
    strict(lossy(yaml))
}

fn read_all(yaml: &str) -> Result<Vec<Spanned<Value>>, Error> {
    let (mut docs, failure) = load_documents(yaml);
    for d in docs.iter_mut() {
        annotate(d);
        assert!(d.is_well_formed());
    }
    strict_all(Builder::default().build_all_loaded(docs, failure))
}

fn s(x: &str) -> Spanned<Value> {
    Spanned::dummy(Value::String(x.to_string()))
}

fn i(x: i64) -> Spanned<Value> {
    Spanned::dummy(Value::from(x))
}

fn f(x: f64) -> Spanned<Value> {
    Spanned::dummy(Value::Number(Number::from_f64_bits(x.to_bits())))
}

fn null() -> Spanned<Value> {
    Spanned::dummy(Value::Null)
}

fn b(x: bool) -> Spanned<Value> {
    Spanned::dummy(Value::Bool(x))
}

fn map(entries: Vec<(Spanned<Value>, Spanned<Value>)>) -> Value {
    Value::Mapping(Mapping::from_entries(entries))
}

fn seq(items: Vec<Spanned<Value>>) -> Value {
    Value::Sequence(items)
}

fn tagged(tag: &str, v: Value) -> Spanned<Value> {
    Spanned::dummy(Value::from(TaggedValue::new(Tag::new(tag), Spanned::dummy(v))))
}

fn yaml_error_text(e: Error) -> String {
    match e {
        Error::YAML(y) => y.to_string(),
        Error::LimitExceeded(l) => l.message().to_string(),
        Error::Parse(_) => "parse error".to_string(),
    }
}

fn render_number(n: &Number) -> String {
    match n.0 {
        N::PosInt(u) => u.to_string(),
        N::NegInt(i) => i.to_string(),
        N::Float(bits) => {
            let x = f64::from_bits(bits);
            if x.is_nan() {
                ".nan".to_string()
            } else if x.is_infinite() {
                if x < 0.0 { "-.inf".to_string() } else { ".inf".to_string() }
            } else {
                ryu::Buffer::new().format_finite(x).to_string()
            }
        }
    }
}

#[test]
fn test_empty_string() {
    let value = read("empty:\ntilde: ~\n").unwrap();
    assert!(value.cleared_spans().into_inner() == map(vec![(s("empty"), null()), (s("tilde"), null())]));
}

#[test]
fn test_enum_representations() {
    let yaml = "- Unit\n- 'Unit'\n- !Unit\n- !Unit ~\n- !Unit null\n- !Tuple [0, 0]\n- !Tuple\n  - 0\n  - 0\n- !Struct {x: 0, y: 0}\n- !Struct\n  x: 0\n  y: 0\n- !String '...'\n- !String ...\n- !Number 0\n";
    let value = read(yaml).unwrap();
    let expected = seq(vec![
        s("Unit"),
        s("Unit"),
        tagged("Unit", Value::Null),
        tagged("Unit", Value::Null),
        tagged("Unit", Value::Null),
        tagged("Tuple", seq(vec![i(0), i(0)])),
        tagged("Tuple", seq(vec![i(0), i(0)])),
        tagged("Struct", map(vec![(s("x"), i(0)), (s("y"), i(0))])),
        tagged("Struct", map(vec![(s("x"), i(0)), (s("y"), i(0))])),
        tagged("String", Value::String("...".to_string())),
        tagged("String", Value::String("...".to_string())),
        tagged("Number", Value::from(0i64)),
    ]);
    assert!(value.cleared_spans().into_inner() == expected);

    let value = read("- !String\n").unwrap();
    assert!(value.cleared_spans().into_inner() == seq(vec![tagged("String", Value::Null)]));
}

#[test]
fn test_enum_alias() {
    let yaml = "aref:\n  &aref\n  A\nbref:\n  &bref\n  !B\n    - 1\n    - 2\n\na: *aref\nb: *bref\n";
    let value = read(yaml).unwrap();
    let expected = map(vec![
        (s("aref"), s("A")),
        (s("bref"), tagged("B", seq(vec![i(1), i(2)]))),
        (s("a"), s("A")),
        (s("b"), tagged("B", seq(vec![i(1), i(2)]))),
    ]);
    assert!(value.cleared_spans().into_inner() == expected);
}

#[test]
fn test_option_alias() {
    let yaml = "none_f:\n  &none_f\n  ~\nnone_s:\n  &none_s\n  ~\nnone_b:\n  &none_b\n  ~\n\nsome_f:\n  &some_f\n  1.0\nsome_s:\n  &some_s\n  x\nsome_b:\n  &some_b\n  true\n\na: *none_f\nb: *none_s\nc: *none_b\nd: *some_f\ne: *some_s\nf: *some_b\n";
    let value = read(yaml).unwrap();
    let expected = map(vec![
        (s("none_f"), null()),
        (s("none_s"), null()),
        (s("none_b"), null()),
        (s("some_f"), f(1.0)),
        (s("some_s"), s("x")),
        (s("some_b"), b(true)),
        (s("a"), null()),
        (s("b"), null()),
        (s("c"), null()),
        (s("d"), f(1.0)),
        (s("e"), s("x")),
        (s("f"), b(true)),
    ]);
    assert!(value.cleared_spans().into_inner() == expected);
}

#[test]
fn value_test_option() {
    let value = read("b:\nc: true\n").unwrap();
    assert!(value.cleared_spans().into_inner() == map(vec![(s("b"), null()), (s("c"), b(true))]));
}

#[test]
fn test_alias() {
    let value = read("first:\n  &alias\n  1\nsecond:\n  *alias\nthird: 3\n").unwrap();
    let expected = map(vec![(s("first"), i(1)), (s("second"), i(1)), (s("third"), i(3))]);
    assert!(value.cleared_spans().into_inner() == expected);
}

#[test]
fn test_borrowed() {
    let value = read("- plain nonàscii\n- 'single quoted'\n- \"double quoted\"\n").unwrap();
    let expected = seq(vec![s("plain nonàscii"), s("single quoted"), s("double quoted")]);
    assert!(value.cleared_spans().into_inner() == expected);
}

#[test]
fn test_merge() {
    let yaml = "---\n- &CENTER { x: 1, y: 2 }\n- &LEFT { x: 0, y: 2 }\n- &BIG { r: 10 }\n- &SMALL { r: 1 }\n\n# All the following maps are equal:\n\n- # Explicit keys\n  x: 1\n  y: 2\n  r: 10\n  label: center/big\n\n- # Merge one map\n  << : *CENTER\n  r: 10\n  label: center/big\n\n- # Merge multiple maps\n  << : [ *CENTER, *BIG ]\n  label: center/big\n\n- # Override\n  << : [ *BIG, *LEFT, *SMALL ]\n  x: 1\n  label: center/big\n";
    let mut value = read(yaml).unwrap();
    value.inner.apply_merge().unwrap();
    let items = value.inner.as_sequence().unwrap();
    for k in 5..=7 {
        assert!(items[4] == items[k]);
    }
}

#[test]
fn test_two_documents() {
    let values: Vec<Value> = read_all("---\n0\n---\n1\n")
        .unwrap()
        .into_iter()
        .map(|doc| doc.cleared_spans().into_inner())
        .collect();
    assert_eq!(values.len(), 2);
    assert!(values[0] == Value::from(0i64));
    assert!(values[1] == Value::from(1i64));
}

#[test]
fn mapping_test_mapping() {
    let value = read("substructure:\n  a: 'foo'\n  b: 'bar'\n").unwrap();
    let expected = map(vec![(
        s("substructure"),
        Spanned::dummy(map(vec![(s("a"), s("foo")), (s("b"), s("bar"))])),
    )]);
    assert!(value.cleared_spans().into_inner() == expected);
}

#[test]
fn test_is_i64() {
    let v = read("a: 64\nb: 9223372036854775817\nc: 256.0\n").unwrap();
    assert_eq!(v.inner.get("a").unwrap().inner.as_i64(), Some(64));
    assert_eq!(v.inner.get("b").unwrap().inner.as_i64(), None);
    assert_eq!(v.inner.get("c").unwrap().inner.as_i64(), None);
}

#[test]
fn test_parse_number() {
    let reading = |t: &str| t.strip_prefix('+').unwrap_or(t).parse::<f64>().ok().map(f64::to_bits);
    let n = Number::from_str_with("111", reading("111")).unwrap();
    assert!(n.equals(&Number::from_i64(111)));
    let n = Number::from_str_with("-111", reading("-111")).unwrap();
    assert!(n.equals(&Number::from_i64(-111)));
    let n = Number::from_str_with("-1.1", reading("-1.1")).unwrap();
    assert!(n.equals(&Number::from_f64_bits((-1.1f64).to_bits())));
    let n = Number::from_str_with(".nan", reading(".nan")).unwrap();
    assert!(n.equals(&Number::from_f64_bits(f64::NAN.to_bits())));
    assert!(f64::from_bits(n.as_f64_bits().unwrap()).is_sign_positive());
    let n = Number::from_str_with(".inf", reading(".inf")).unwrap();
    assert!(n.equals(&Number::from_f64_bits(f64::INFINITY.to_bits())));
    let n = Number::from_str_with("-.inf", reading("-.inf")).unwrap();
    assert!(n.equals(&Number::from_f64_bits(f64::NEG_INFINITY.to_bits())));
    match Number::from_str_with("null", reading("null")) {
        Err(yaml_spanned::error::InvalidNumberError::UnknownFormat(t)) => assert_eq!(t, "null"),
        _ => panic!("expected an unknown format"),
    }
    match Number::from_str_with(" 1 ", reading(" 1 ")) {
        Err(yaml_spanned::error::InvalidNumberError::UnknownFormat(t)) => assert_eq!(t, " 1 "),
        _ => panic!("expected an unknown format"),
    }
    let e = Number::from_str_with("null", reading("null")).err().unwrap();
    assert_eq!(e.message(), r#"unknown number format "null""#);
    let e = Number::from_str_with(" 1 ", reading(" 1 ")).err().unwrap();
    assert_eq!(e.message(), r#"unknown number format " 1 ""#);
}

#[test]
fn unknown_number_message_escapes_as_debug_does() {
    let e = Number::from_str_with("a\"b\n", None).err().unwrap();
    assert_eq!(e.message(), r#"unknown number format "a\"b\n""#);
}

#[test]
fn test_numbers() {
    let cases = [
        ("0xF0", "240"),
        ("+0xF0", "240"),
        ("-0xF0", "-240"),
        ("0o70", "56"),
        ("+0o70", "56"),
        ("-0o70", "-56"),
        ("0b10", "2"),
        ("+0b10", "2"),
        ("-0b10", "-2"),
        ("127", "127"),
        ("+127", "127"),
        ("-127", "-127"),
        (".inf", ".inf"),
        (".Inf", ".inf"),
        (".INF", ".inf"),
        ("-.inf", "-.inf"),
        ("-.Inf", "-.inf"),
        ("-.INF", "-.inf"),
        (".nan", ".nan"),
        (".NaN", ".nan"),
        (".NAN", ".nan"),
        ("0.1", "0.1"),
    ];
    for &(yaml, expected) in &cases {
        let value = read(yaml).unwrap().into_inner();
        match value {
            Value::Number(number) => assert_eq!(render_number(&number), expected),
            _ => panic!("expected number. input={:?}", yaml),
        }
    }
    let cases = [
        "0127", "+0127", "-0127", "++.inf", "+-.inf", "++1", "+-1", "-+1", "--1", "0x+1", "0x-1",
        "-0x+1", "-0x-1", "++0x1", "+-0x1", "-+0x1", "--0x1",
    ];
    for yaml in &cases {
        let value = read(yaml).unwrap().into_inner();
        match value {
            Value::String(string) => assert_eq!(string, *yaml),
            _ => panic!("expected string. input={:?}", yaml),
        }
    }
}

#[test]
fn test_number_alias_as_string() {
    let value = read("version: &a 1.10\nvalue: *a\n").unwrap();
    let expected = map(vec![(s("version"), f(1.10)), (s("value"), f(1.10))]);
    assert!(value.cleared_spans().into_inner() == expected);
}

#[test]
fn test_number_as_string() {
    let value = read("# Cannot be represented as u128\nvalue: 340282366920938463463374607431768211457\n").unwrap();
    let expected = map(vec![(s("value"), f(340282366920938463463374607431768211457f64))]);
    assert!(value.cleared_spans().into_inner() == expected);
}

#[test]
fn number_test_nan() {
    let pos_nan = read(".nan").unwrap();
    assert!(pos_nan.inner.is_f64());
    assert!(pos_nan == pos_nan);
    let neg_fake_nan = read("-.nan").unwrap();
    assert!(neg_fake_nan.inner.is_string());
    let significand_mask = 0xF_FFFF_FFFF_FFFFu64;
    let bits = (f64::NAN.copysign(1.0).to_bits() ^ significand_mask) | 1;
    let different_pos_nan = Value::Number(Number::from_f64_bits(f64::from_bits(bits).to_bits()));
    assert!(pos_nan.inner == different_pos_nan);
}

#[test]
fn test_digits() {
    let num_string = read("01").unwrap();
    assert!(num_string.inner.is_string());
}

#[test]
fn test_unknown_anchor() {
    let err = read("---\n*some\n").unwrap_err();
    assert_eq!(yaml_error_text(err), "Composer error: line 2 column 1: found undefined alias");
}

#[test]
fn test_ignored_unknown_anchor() {
    let err = read("b: [*a]\nc: ~\n").unwrap_err();
    assert_eq!(yaml_error_text(err), "Composer error: line 1 column 5: found undefined alias");
}

#[test]
fn test_bytes() {
    let err = read("...").unwrap_err();
    assert_eq!(
        yaml_error_text(err),
        "Parser error: line 1 column 1: did not find expected node content while parsing a block node (line 1 column 1)"
    );
}

#[test]
fn test_second_document_syntax_error() {
    let (mut docs, failure) = load_documents("---\n0\n---\n]\n");
    assert_eq!(docs.len(), 1);
    annotate(&mut docs[0]);
    let mut errors = Vec::new();
    let value = Builder::default().from_document(&docs[0], &mut errors).unwrap();
    assert!(value.cleared_spans().into_inner() == Value::from(0i64));
    assert_eq!(
        failure.unwrap().to_string(),
        "Parser error: line 4 column 1: did not find expected node content while parsing a block node (line 4 column 1)"
    );
}

#[test]
fn test_missing_enum_tag() {
    let value = read("\"V\": 16\n\"other\": 32\n").unwrap();
    let value = value.cleared_spans().into_inner();
    assert!(value == map(vec![(s("V"), i(16)), (s("other"), i(32))]));
    // Read as an enum, a mapping is "invalid type: map, expected a Value::Tagged enum".
    assert!(matches!(
        value.into_visit(Request::Enum),
        Visit::Invalid(Unexpected::Mapping, Expected::TaggedEnum)
    ));
}

#[test]
fn test_infinite_recursion_objects() {
    let err = read("&a {'x': *a}").unwrap_err();
    assert_eq!(yaml_error_text(err), "recursion limit exceeded");
}

#[test]
fn test_infinite_recursion_arrays() {
    let err = read("&a [0, *a]").unwrap_err();
    assert_eq!(yaml_error_text(err), "recursion limit exceeded");
}

#[test]
fn test_infinite_recursion_newtype() {
    let err = read("&a [*a]").unwrap_err();
    assert_eq!(yaml_error_text(err), "recursion limit exceeded");
}

#[test]
fn test_finite_recursion_objects() {
    let yaml = "{'x':".repeat(1_000) + &"}".repeat(1_000);
    let err = read(&yaml).unwrap_err();
    assert_eq!(yaml_error_text(err), "recursion limit exceeded");
}

#[test]
fn test_finite_recursion_arrays() {
    let yaml = "[0, ".repeat(1_000) + &"]".repeat(1_000);
    let err = read(&yaml).unwrap_err();
    assert_eq!(yaml_error_text(err), "recursion limit exceeded");
}

#[test]
fn test_billion_laughs() {
    let yaml = "a: &a ~\nb: &b [*a,*a,*a,*a,*a,*a,*a,*a,*a]\nc: &c [*b,*b,*b,*b,*b,*b,*b,*b,*b]\nd: &d [*c,*c,*c,*c,*c,*c,*c,*c,*c]\ne: &e [*d,*d,*d,*d,*d,*d,*d,*d,*d]\nf: &f [*e,*e,*e,*e,*e,*e,*e,*e,*e]\ng: &g [*f,*f,*f,*f,*f,*f,*f,*f,*f]\nh: &h [*g,*g,*g,*g,*g,*g,*g,*g,*g]\ni: &i [*h,*h,*h,*h,*h,*h,*h,*h,*h]\n";
    let err = read(yaml).unwrap_err();
    assert_eq!(yaml_error_text(err), "repetition limit exceeded");
}

fn duplicate_key(yaml: &str) -> (Value, String, usize, String) {
    match read(yaml).unwrap_err() {
        Error::Parse(errors) => {
            assert_eq!(errors.len(), 1);
            match errors.into_iter().next().unwrap() {
                ParseError::DuplicateKey(d) => {
                    let message = d.message().unwrap();
                    (d.key, d.path, d.occurrences.len(), message)
                }
                _ => panic!("expected a duplicate key"),
            }
        }
        _ => panic!("expected parse errors"),
    }
}

#[test]
fn test_duplicate_keys() {
    let (key, path, n, message) = duplicate_key("---\nthing: true\nthing: false\n");
    assert!(key == Value::String("thing".to_string()));
    assert_eq!(path, "");
    assert_eq!(n, 2);
    assert_eq!(message, "duplicate key `.thing`");

    let (key, path, _, message) = duplicate_key("---\nnull: true\n~: false\n");
    assert!(key == Value::Null);
    assert_eq!(path, "");
    assert_eq!(message, "duplicate key `.NULL`");

    let (key, path, _, message) = duplicate_key("---\n99: true\n99: false\n");
    assert!(key == Value::from(99i64));
    assert_eq!(path, "");
    assert_eq!(message, "duplicate key `.99`");

    let (key, path, _, message) = duplicate_key("---\n{}: true\n{}: false\n");
    assert!(key == Value::Mapping(Mapping::new()));
    assert_eq!(path, "");
    assert_eq!(message, "duplicate key `.{}`");
}

#[test]
fn test_limit_messages() {
    assert_eq!(LimitExceeded::RecursionLimitExceeded.message(), "recursion limit exceeded");
    assert_eq!(LimitExceeded::RepetitionLimitExceeded.message(), "repetition limit exceeded");
}

#[test]
fn merge_documented_example() {
    let config = "tasks:\n  build: &webpack_shared\n    command: webpack\n    args: build\n    inputs:\n      - 'src/**/*'\n  start:\n    <<: *webpack_shared\n    args: start\n";
    let mut value = read(config).unwrap();
    value.inner.apply_merge().unwrap();
    let start = &value.inner.get("tasks").unwrap().inner.get("start").unwrap().inner;
    assert_eq!(start.get("command").unwrap().inner.as_str(), Some("webpack"));
    assert_eq!(start.get("args").unwrap().inner.as_str(), Some("start"));
}

#[test]
fn number_accessors_documented() {
    let v = read("a: 64\nb: -64\nc: 256.0\nd: 9223372036854775817\n").unwrap().into_inner();
    assert!(v.get("a").unwrap().inner.is_u64());
    assert!(!v.get("b").unwrap().inner.is_u64());
    assert!(!v.get("c").unwrap().inner.is_u64());
    assert!(v.get("a").unwrap().inner.is_i64());
    assert!(!v.get("d").unwrap().inner.is_i64());
    assert!(v.get("c").unwrap().inner.is_f64());
    assert!(!v.get("b").unwrap().inner.is_f64());
    assert_eq!(v.get("b").unwrap().inner.as_i64(), Some(-64));
    assert_eq!(v.get("a").unwrap().inner.as_u64(), Some(64));
    match &v.get("c").unwrap().inner {
        Value::Number(n) => assert_eq!(n.as_f64_bits(), Some(256.0f64.to_bits())),
        _ => panic!("expected a number"),
    }
    let inf = read(".inf").unwrap().into_inner();
    match inf {
        Value::Number(n) => {
            assert!(n.is_infinite());
            assert!(!n.is_finite());
            assert!(!n.is_nan());
        }
        _ => panic!("expected a number"),
    }
}

#[test]
fn all_documents_errors_are_gathered() {
    match read_all("---\na: 1\na: 2\n---\nb: 1\nb: 2\n") {
        Err(Error::Parse(errors)) => assert_eq!(errors.len(), 2),
        _ => panic!("expected the errors of both documents"),
    }
    let lossy = lossy("a: 1\na: 2\n").unwrap();
    assert_eq!(lossy.1.len(), 1);
}

#[test]
fn test_tag_resolution() {
    let yaml = "- null\n- Null\n- NULL\n- ~\n-\n- true\n- True\n- TRUE\n- false\n- False\n- FALSE\n- y\n- Y\n- yes\n- Yes\n- YES\n- n\n- N\n- no\n- No\n- NO\n- on\n- On\n- ON\n- off\n- Off\n- OFF\n";
    let expected = seq(vec![
        null(),
        null(),
        null(),
        null(),
        null(),
        b(true),
        b(true),
        b(true),
        b(false),
        b(false),
        b(false),
        s("y"),
        s("Y"),
        s("yes"),
        s("Yes"),
        s("YES"),
        s("n"),
        s("N"),
        s("no"),
        s("No"),
        s("NO"),
        s("on"),
        s("On"),
        s("ON"),
        s("off"),
        s("Off"),
        s("OFF"),
    ]);
    assert!(read(yaml).unwrap().cleared_spans().into_inner() == expected);
}

#[test]
fn test_literal_quoted_number() {
    let yaml = "\"foo\": |-\n    7200\n";
    assert!(read(yaml).unwrap().cleared_spans().into_inner() == map(vec![(s("foo"), s("7200"))]));

    let yaml = "\"foo\": !!int |-\n    7200\n";
    assert!(read(yaml).unwrap().cleared_spans().into_inner() == map(vec![(s("foo"), i(7200))]));
}

#[test]
fn test_python_safe_dump() {
    let yaml = "\"foo\": !!int |-\n    7200\n";
    let value = read(yaml).unwrap().cleared_spans().into_inner();
    assert!(value == map(vec![(s("foo"), i(7200))]));
    assert_eq!(value.get("foo").and_then(|v| v.inner.as_u64()), Some(7200));
}

#[test]
fn test_empty_scalar() {
    let yaml = "thing:\n";
    assert!(read(yaml).unwrap().cleared_spans().into_inner() == map(vec![(s("thing"), null())]));
}

#[test]
fn test_no_required_fields() {
    for document in ["", "# comment\n"] {
        let deserialized = read(document).unwrap();
        assert!(deserialized.inner == Value::Null);
    }
}

#[test]
fn test_ignore_tag() {
    let yaml = "struc: !wat\n  x: 0\ntuple: !wat\n  - 0\n  - 0\nnewtype: !wat 0\nmap: !wat\n  x: 0\nvec: !wat\n  - 0\n";
    let expected = map(vec![
        (s("struc"), tagged("wat", map(vec![(s("x"), i(0))]))),
        (s("tuple"), tagged("wat", seq(vec![i(0), i(0)]))),
        (s("newtype"), tagged("wat", Value::from(0i64))),
        (s("map"), tagged("wat", map(vec![(s("x"), i(0))]))),
        (s("vec"), tagged("wat", seq(vec![i(0)]))),
    ]);
    assert!(read(yaml).unwrap().cleared_spans().into_inner() == expected);
}

#[test]
fn test_byte_order_mark() {
    let yaml = "\u{feff}- 0\n";
    assert!(read(yaml).unwrap().cleared_spans().into_inner() == seq(vec![i(0)]));
}

#[test]
fn test_default() {
    assert!(Value::default() == Value::Null);
}

#[test]
fn clearing_spans_twice_is_clearing_once() {
    let value = read("a: [1, {b: 2}]\nc: !t x\nd:\n  - e: [f]\n").unwrap();
    assert!(value.span != yaml_spanned::spanned::Span::empty());
    let once = value.clone().cleared_spans();
    let twice = once.clone().cleared_spans();
    assert_eq!(format!("{:?}", once), format!("{:?}", twice));
    assert!(once == value);
    assert!(once.span == yaml_spanned::spanned::Span::empty());
}

#[test]
fn lookups_by_text_value_and_spanned_value_agree() {
    let value = read("a: 1\nb: 2\n3: c\n").unwrap();
    let m = value.inner.as_mapping().unwrap();
    let span = value.span.clone();
    for key in ["a", "b", "3", "z"] {
        let by_text = m.get(key).map(|v| v.inner.clone());
        let as_value = Value::String(key.to_string());
        let by_value = m.get(&as_value).map(|v| v.inner.clone());
        let as_spanned = Spanned::new(span.clone(), Value::String(key.to_string()));
        let by_spanned = m.get(&as_spanned).map(|v| v.inner.clone());
        assert!(by_text == by_value && by_value == by_spanned);
        assert_eq!(m.contains_key(key), by_text.is_some());
        assert_eq!(m.contains_key(&as_value), by_text.is_some());
    }
    assert!(m.get("a").unwrap().inner == Value::from(1i64));
    assert!(m.get("3").is_none());
}

#[test]
fn documents_of_a_stream_in_order() {
    let (docs, failure) = load_documents("1\n---\n2\n---\n3\n");
    assert_eq!(docs.len(), 3);
    assert!(failure.is_none());
    let (docs, failure) = load_documents("");
    assert!(docs.is_empty() && failure.is_none());
    let first = load_document("").unwrap();
    assert!(first.nodes.is_empty());
}

#[test]
fn std_parse_error_messages_are_their_display_texts() {
    let e = "x".parse::<i64>().unwrap_err();
    let text = e.to_string();
    assert_eq!(yaml_spanned::error::InvalidNumberError::ParseInt(e).message(), text);
    let e = "x".parse::<f64>().unwrap_err();
    let text = e.to_string();
    assert_eq!(yaml_spanned::error::InvalidNumberError::ParseFloat(e).message(), text);
}
