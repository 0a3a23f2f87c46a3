use std::cmp::Ordering;
use yaml_spanned::access::Kind;
use yaml_spanned::builder::{parse_bool, parse_null, Builder};
use yaml_spanned::document::{Document, Mark, Node, NodeData, NodePair, ScalarStyle};
use yaml_spanned::error::{composer_labels, first_use_of_duplicate, LimitExceeded, MergeError, ParseError};
use yaml_spanned::mapping::Mapping;
use yaml_spanned::number::{Number, N};
use yaml_spanned::spanned::{Marker, Span, Spanned};
use yaml_spanned::tag::{check_for_tag, MaybeTag, Tag, TaggedValue};
use yaml_spanned::text::chars_of;
use yaml_spanned::value::Value;

fn s(x: &str) -> Spanned<Value> {
    Spanned::dummy(Value::String(x.to_string()))
}

fn i(x: i64) -> Spanned<Value> {
    Spanned::dummy(Value::from(x))
}

fn mark(index: u64, line: u64, column: u64) -> Mark {
    Mark { index, line, column }
}

fn scalar(text: &str, start: u64, end: u64) -> Node {
    Node {
        data: NodeData::Scalar { value: text.to_string(), style: ScalarStyle::Plain, float_reading: None },
        tag: None,
        start_mark: mark(start, 0, start),
        end_mark: mark(end, 0, end),
    }
}

#[test]
fn mapping_insert_keeps_first_key_and_position() {
    let mut m = Mapping::new();
    assert!(m.insert(s("a"), i(1)).is_none());
    assert!(m.insert(s("b"), i(2)).is_none());
    let old = m.insert(s("a"), i(3)).unwrap();
    assert!(old.inner == Value::from(1i64));
    assert_eq!(m.len(), 2);
    assert!(m.0[0].0.inner == Value::String("a".to_string()));
    assert!(m.get("a").unwrap().inner == Value::from(3i64));
    assert!(m.contains_key("b"));
    assert!(!m.contains_key("c"));
}

#[test]
fn mapping_remove_variants() {
    let mut m = Mapping::from_entries(vec![(s("a"), i(1)), (s("b"), i(2)), (s("c"), i(3))]);
    let v = m.swap_remove("a").unwrap();
    assert!(v.inner == Value::from(1i64));
    assert!(m.0[0].0.inner == Value::String("c".to_string()));
    assert_eq!(m.len(), 2);

    let mut m = Mapping::from_entries(vec![(s("a"), i(1)), (s("b"), i(2)), (s("c"), i(3))]);
    let (k, v) = m.shift_remove_entry("a").unwrap();
    assert!(k.inner == Value::String("a".to_string()));
    assert!(v.inner == Value::from(1i64));
    assert!(m.0[0].0.inner == Value::String("b".to_string()));
    assert!(m.remove("zzz").is_none());
    assert!(m.shift_remove("b").is_some());
    assert_eq!(m.len(), 1);
    m.clear();
    assert!(m.is_empty());
}

#[test]
fn mapping_from_entries_collapses_repeated_keys() {
    let m = Mapping::from_entries(vec![(s("x"), i(1)), (s("y"), i(2)), (s("x"), i(3))]);
    assert_eq!(m.len(), 2);
    assert!(m.get("x").unwrap().inner == Value::from(3i64));
    let keys = m.keys();
    assert!(keys[0].inner == Value::String("x".to_string()));
    let values = m.values();
    assert!(values[1].inner == Value::from(2i64));
    assert_eq!(m.iter().len(), 2);
}

#[test]
fn mapping_lookup_by_value_and_string() {
    let m = Mapping::from_entries(vec![(i(1), s("one")), (s("1"), s("text"))]);
    assert!(m.get(Value::from(1i64)).unwrap().inner == Value::String("one".to_string()));
    assert!(m.get("1").unwrap().inner == Value::String("text".to_string()));
    assert!(m.get(String::from("1")).is_some());
    assert!(m.get(&s("1")).is_some());
}

#[test]
fn mappings_equal_regardless_of_order() {
    let a = Mapping::from_entries(vec![(s("a"), i(1)), (s("b"), i(2))]);
    let b = Mapping::from_entries(vec![(s("b"), i(2)), (s("a"), i(1))]);
    let c = Mapping::from_entries(vec![(s("b"), i(2)), (s("a"), i(5))]);
    assert!(a == b);
    assert!(a != c);
    assert_eq!(a.partial_cmp(&b), Some(Ordering::Equal));
    assert_eq!(a.partial_cmp(&c), Some(Ordering::Less));
}

#[test]
fn merge_errors() {
    let mut v = Value::Mapping(Mapping::from_entries(vec![(s("<<"), i(1))]));
    assert_eq!(v.apply_merge(), Err(MergeError::ScalarInMergeElement));
    let mut v = Value::Mapping(Mapping::from_entries(vec![(
        s("<<"),
        Spanned::dummy(Value::Sequence(vec![Spanned::dummy(Value::Sequence(vec![]))])),
    )]));
    assert_eq!(v.apply_merge(), Err(MergeError::SequenceInMergeElement));
    let mut v = Value::Mapping(Mapping::from_entries(vec![(
        s("<<"),
        Spanned::dummy(Value::from(TaggedValue::new(Tag::new("t"), i(1)))),
    )]));
    assert_eq!(v.apply_merge(), Err(MergeError::TaggedInMerge));
    assert_eq!(MergeError::TaggedInMerge.message(), "cannot merge taggged value");
}

#[test]
fn merge_keeps_existing_keys_and_removes_merge_key() {
    let base = Mapping::from_entries(vec![(s("x"), i(1)), (s("y"), i(2))]);
    let mut v = Value::Mapping(Mapping::from_entries(vec![
        (s("<<"), Spanned::dummy(Value::Mapping(base))),
        (s("x"), i(10)),
    ]));
    assert_eq!(v.apply_merge(), Ok(()));
    let m = v.as_mapping().unwrap();
    assert_eq!(m.len(), 2);
    assert!(m.get("x").unwrap().inner == Value::from(10i64));
    assert!(m.get("y").unwrap().inner == Value::from(2i64));
    assert!(!m.contains_key("<<"));
}

#[test]
fn merge_without_merge_key_is_identity() {
    let before = Value::Sequence(vec![s("a"), Spanned::dummy(Value::Mapping(Mapping::from_entries(vec![(s("k"), i(1))])))]);
    let mut after = before.clone();
    assert_eq!(after.apply_merge(), Ok(()));
    assert!(after == before);
}

#[test]
fn value_kinds_and_accessors() {
    assert_eq!(Value::Null.kind(), Kind::Null);
    assert_eq!(Value::Bool(true).kind(), Kind::Bool);
    assert_eq!(Value::from(5i64).kind(), Kind::Number);
    assert_eq!(Value::String("x".into()).kind(), Kind::String);
    assert_eq!(Value::Sequence(vec![]).kind(), Kind::Sequence);
    assert_eq!(Value::Mapping(Mapping::new()).kind(), Kind::Mapping);
    assert!(Value::Null.is_null());
    assert_eq!(Value::Bool(false).as_bool(), Some(false));
    assert_eq!(Value::from(-3i64).as_i64(), Some(-3));
    assert_eq!(Value::from(-3i64).as_u64(), None);
    assert_eq!(Value::from(u64::MAX).as_i64(), None);
    assert!(Value::from(u64::MAX).is_u64());
    assert_eq!(Value::String("x".into()).as_str(), Some("x"));
    assert!(Value::Number(Number::from_f64_bits(1.5f64.to_bits())).is_f64());
    let m = Value::Mapping(Mapping::from_entries(vec![(s("k"), i(1))]));
    assert!(m.get("k").unwrap().inner == Value::from(1i64));
    assert!(m.get_or_null("missing").inner.is_null());
    assert!(Value::Null.get("k").is_none());
}

#[test]
fn clear_spans_empties_spans() {
    let span = Span { start: Some(Marker { byte_index: 1, line: 0, column: 1 }), end: None };
    let v = Spanned::new(span, Value::Sequence(vec![Spanned::new(span, Value::Null)]));
    let c = v.cleared_spans();
    assert_eq!(c.span, Span::empty());
    match c.inner {
        Value::Sequence(items) => assert_eq!(items[0].span, Span::empty()),
        _ => panic!("expected a sequence"),
    }
}

#[test]
fn untag_looks_through_tags() {
    let v = Value::from(TaggedValue::new(
        Tag::new("a"),
        Spanned::dummy(Value::from(TaggedValue::new(Tag::new("b"), i(7)))),
    ));
    assert!(*v.untag_ref() == Value::from(7i64));
    assert!(v.untag() == Value::from(7i64));
}

#[test]
fn tags_ignore_leading_bang() {
    assert!(Tag::new("!Thing") == Tag::new("Thing"));
    assert!(Tag::new("Thing").matches_str("!Thing"));
    assert_eq!(Tag::new("Thing").to_text(), "!Thing");
    assert_eq!(Tag::new("!Thing").to_text(), "!Thing");
    assert_eq!(Tag::new("a").partial_cmp(&Tag::new("!b")), Some(Ordering::Less));
}

#[test]
fn check_for_tag_pieces() {
    match check_for_tag(&vec!["!".to_string(), "Thing".to_string()]) {
        MaybeTag::Tag(t) => assert_eq!(t, "Thing"),
        MaybeTag::NotTag(_) => panic!("expected a tag"),
    }
    match check_for_tag(&vec!["!".to_string()]) {
        MaybeTag::NotTag(t) => assert_eq!(t, "!"),
        MaybeTag::Tag(_) => panic!("expected no tag"),
    }
    match check_for_tag(&vec!["!".to_string(), "a".to_string(), "b".to_string()]) {
        MaybeTag::NotTag(t) => assert_eq!(t, "ab"),
        MaybeTag::Tag(_) => panic!("expected no tag"),
    }
    match check_for_tag(&vec![]) {
        MaybeTag::NotTag(t) => assert_eq!(t, ""),
        MaybeTag::Tag(_) => panic!("expected no tag"),
    }
}

#[test]
fn scalar_words() {
    assert!(parse_null("~").is_some());
    assert!(parse_null("").is_some());
    assert!(parse_null("nul").is_none());
    assert_eq!(parse_bool("True"), Some(true));
    assert_eq!(parse_bool("FALSE"), Some(false));
    assert_eq!(parse_bool("yes"), None);
}

#[test]
fn number_texts() {
    assert_eq!(Number::from_u64(240).display_text().unwrap(), "240");
    assert_eq!(Number::from_i64(-240).display_text().unwrap(), "-240");
    assert_eq!(Number::from_i64(i64::MIN).display_text().unwrap(), "-9223372036854775808");
    assert_eq!(Number::from_f64_bits(f64::NAN.to_bits()).display_text().unwrap(), ".nan");
    assert_eq!(Number::from_f64_bits(f64::NEG_INFINITY.to_bits()).display_text().unwrap(), "-.inf");
    assert!(Number::from_f64_bits(0.5f64.to_bits()).display_text().is_none());
}

#[test]
fn number_order() {
    let neg = Number::from_i64(-1);
    let pos = Number::from_u64(1);
    let half = Number::from_f64_bits(0.5f64.to_bits());
    let nan = Number::from_f64_bits(f64::NAN.to_bits());
    assert_eq!(neg.partial_cmp(&pos), Some(Ordering::Less));
    assert_eq!(pos.partial_cmp(&half), Some(Ordering::Less));
    assert_eq!(nan.partial_cmp(&half), None);
    assert_eq!(nan.partial_cmp(&nan), Some(Ordering::Equal));
    assert!(nan == nan);
    let zero = Number::from_f64_bits(0.0f64.to_bits());
    let negzero = Number::from_f64_bits((-0.0f64).to_bits());
    assert!(zero == negzero);
}

#[test]
fn value_order() {
    assert_eq!(Value::Null.partial_cmp(&Value::Bool(false)), Some(Ordering::Less));
    assert_eq!(Value::String("a".into()).partial_cmp(&Value::String("b".into())), Some(Ordering::Less));
    assert_eq!(
        Value::Sequence(vec![i(1)]).partial_cmp(&Value::Sequence(vec![i(1), i(2)])),
        Some(Ordering::Less)
    );
    assert_eq!(Value::from(2i64).total_rel(&Value::from(1i64)), yaml_spanned::order::Rel::Greater);
}

#[test]
fn builder_duplicate_keys_are_reported() {
    // {a: 1, a: 2}
    let doc = Document {
        nodes: vec![
            Node {
                data: NodeData::Mapping {
                    pairs: vec![NodePair { key: 2, value: 3 }, NodePair { key: 4, value: 5 }],
                },
                tag: None,
                start_mark: mark(0, 0, 0),
                end_mark: mark(12, 0, 12),
            },
            scalar("a", 1, 2),
            scalar("1", 4, 5),
            scalar("a", 7, 8),
            scalar("2", 10, 11),
        ],
        start_mark: mark(0, 0, 0),
        end_mark: mark(12, 0, 12),
    };
    assert!(doc.is_well_formed());
    let mut errors = Vec::new();
    let value = Builder::default().from_document(&doc, &mut errors).unwrap();
    assert_eq!(errors.len(), 1);
    match &errors[0] {
        ParseError::DuplicateKey(d) => {
            assert!(d.key == Value::String("a".into()));
            assert_eq!(d.path, "");
            assert_eq!(d.occurrences, vec![1..2, 7..8]);
        }
        _ => panic!("expected a duplicate key"),
    }
    let m = value.inner.as_mapping().unwrap();
    assert_eq!(m.len(), 1);
    assert!(m.get("a").unwrap().inner == Value::from(2i64));
}

#[test]
fn builder_limits() {
    let doc = Document {
        nodes: vec![
            Node { data: NodeData::Sequence { items: vec![2, 2, 2] }, tag: None, start_mark: mark(0, 0, 0), end_mark: mark(9, 0, 9) },
            scalar("x", 1, 2),
        ],
        start_mark: mark(0, 0, 0),
        end_mark: mark(9, 0, 9),
    };
    let mut errors = Vec::new();
    let b = Builder { max_recursion_depth: 128, jump_limit: Some(2) };
    assert_eq!(b.from_document(&doc, &mut errors).unwrap_err(), LimitExceeded::RepetitionLimitExceeded);
    let b = Builder { max_recursion_depth: 1, jump_limit: None };
    assert_eq!(b.from_document(&doc, &mut errors).unwrap_err(), LimitExceeded::RecursionLimitExceeded);
    let b = Builder { max_recursion_depth: 3, jump_limit: None };
    let v = b.from_document(&doc, &mut errors).unwrap();
    assert_eq!(v.inner.as_sequence().unwrap().len(), 3);
}

#[test]
fn builder_paths_and_tags() {
    // [!x {k: v}] with a duplicate inside a nested mapping at path "[0]"
    let doc = Document {
        nodes: vec![
            Node { data: NodeData::Sequence { items: vec![2] }, tag: None, start_mark: mark(0, 0, 0), end_mark: mark(20, 0, 20) },
            Node {
                data: NodeData::Mapping { pairs: vec![NodePair { key: 3, value: 4 }, NodePair { key: 3, value: 4 }] },
                tag: Some("!x".to_string()),
                start_mark: mark(1, 0, 1),
                end_mark: mark(19, 0, 19),
            },
            scalar("k", 5, 6),
            scalar("v", 8, 9),
        ],
        start_mark: mark(0, 0, 0),
        end_mark: mark(20, 0, 20),
    };
    let mut errors = Vec::new();
    let v = Builder::default().from_document(&doc, &mut errors).unwrap();
    match &errors[0] {
        ParseError::DuplicateKey(d) => assert_eq!(d.path, "[0]"),
        _ => panic!("expected a duplicate key"),
    }
    let item = &v.inner.as_sequence().unwrap()[0];
    match &item.inner {
        Value::Tagged(t) => assert!(t.tag == Tag::new("x")),
        _ => panic!("expected a tagged value"),
    }
}

#[test]
fn empty_document_is_null_with_document_span() {
    let doc = Document { nodes: vec![], start_mark: mark(0, 0, 0), end_mark: mark(3, 1, 0) };
    let mut errors = Vec::new();
    let v = Builder::default().from_document(&doc, &mut errors).unwrap();
    assert!(v.inner.is_null());
    assert_eq!(v.span.end.unwrap().line, 1);
}

#[test]
fn int_tag_and_quoted_scalars() {
    let mut quoted = scalar("12", 0, 4);
    quoted.data = NodeData::Scalar { value: "12".into(), style: ScalarStyle::SingleQuoted, float_reading: None };
    let doc = Document { nodes: vec![quoted.clone()], start_mark: mark(0, 0, 0), end_mark: mark(4, 0, 4) };
    let mut errors = Vec::new();
    let v = Builder::default().from_document(&doc, &mut errors).unwrap();
    assert!(v.inner.is_string());
    quoted.tag = Some("tag:yaml.org,2002:int".into());
    let doc = Document { nodes: vec![quoted], start_mark: mark(0, 0, 0), end_mark: mark(4, 0, 4) };
    let v = Builder::default().from_document(&doc, &mut errors).unwrap();
    assert_eq!(v.inner.as_u64(), Some(12));
}

#[test]
fn text_helpers() {
    assert_eq!(chars_of("héllo"), vec!['h', 'é', 'l', 'l', 'o']);
    let n = Number::from(N::PosInt(3));
    assert!(Value::from(n) == Value::from(3u64));
}

#[test]
fn span_and_marker_texts() {
    let span = Span {
        start: Some(Marker { byte_index: 0, line: 0, column: 0 }),
        end: Some(Marker { byte_index: 40, line: 9, column: 12 }),
    };
    assert_eq!(span.to_text(), "L0:0 - L9:12");
    assert_eq!(Span::empty().to_text(), "? - ?");
    assert_eq!(Marker { byte_index: 3, line: 2, column: 7 }.to_text(), "2:7");
    assert_eq!(span.byte_range(), 0..40);
}

#[test]
fn mapping_capacity_and_extend() {
    let mut m = Mapping::with_capacity(8);
    assert!(m.capacity() >= m.len());
    m.extend(vec![(s("a"), i(1)), (s("b"), i(2)), (s("a"), i(3))]);
    assert_eq!(m.len(), 2);
    assert!(m.get("a").unwrap().inner == Value::from(3i64));
    m.shrink_to_fit();
    assert_eq!(m.len(), 2);
    let entries = m.into_entries();
    assert_eq!(entries.len(), 2);
}

#[test]
fn mutable_accessors() {
    let mut v = Value::from(5u64);
    *v.as_u64_mut().unwrap() = 6;
    assert_eq!(v.as_u64(), Some(6));
    let mut m = Value::Mapping(Mapping::from_entries(vec![(s("k"), i(1))]));
    m.get_mut("k").unwrap().inner = Value::Bool(true);
    assert_eq!(m.get("k").unwrap().inner.as_bool(), Some(true));
    let mut t = Value::from(TaggedValue::new(Tag::new("t"), i(1)));
    *t.untag_mut() = Value::Null;
    match &t {
        Value::Tagged(inner) => assert!(inner.value.inner.is_null()),
        _ => panic!("expected a tagged value"),
    }
    let mut st = Spanned::dummy(Value::from(TaggedValue::new(Tag::new("t"), i(1))));
    st.untag_mut().inner = Value::Bool(false);
    assert!(st.untag_ref().inner == Value::Bool(false));
}

#[test]
fn values_equal_and_compare_equal_to_themselves() {
    let nan = Spanned::dummy(Value::Number(Number::from_f64_bits(f64::NAN.to_bits())));
    let v = Value::Mapping(Mapping::from_entries(vec![
        (s("n"), nan),
        (s("seq"), Spanned::dummy(Value::Sequence(vec![i(1), s("x")]))),
    ]));
    assert!(v == v);
    assert_eq!(v.partial_cmp(&v), Some(Ordering::Equal));
}

#[test]
fn removed_key_is_gone() {
    let mut m = Mapping::from_entries(vec![(s("a"), i(1)), (s("b"), i(2)), (s("c"), i(3))]);
    assert!(m.remove("a").is_some());
    assert!(!m.contains_key("a"));
    assert!(m.contains_key("c"));
}

#[test]
fn builder_appends_errors_after_earlier_ones() {
    let doc = Document {
        nodes: vec![
            Node {
                data: NodeData::Mapping { pairs: vec![NodePair { key: 2, value: 2 }, NodePair { key: 2, value: 2 }] },
                tag: None,
                start_mark: mark(0, 0, 0),
                end_mark: mark(5, 0, 5),
            },
            scalar("k", 1, 2),
        ],
        start_mark: mark(0, 0, 0),
        end_mark: mark(5, 0, 5),
    };
    let mut fresh = Vec::new();
    let a = Builder::default().from_document(&doc, &mut fresh).unwrap();
    let mut earlier = Vec::new();
    Builder::default().from_document(&doc, &mut earlier).unwrap();
    assert_eq!(earlier.len(), 1);
    let b = Builder::default().from_document(&doc, &mut earlier).unwrap();
    assert_eq!(earlier.len(), 2);
    assert_eq!(fresh.len(), 1);
    assert!(a == b);
}

#[test]
fn total_order_flips() {
    let a = Value::String("apple".into());
    let b = Value::String("banana".into());
    assert_eq!(a.total_rel(&b), yaml_spanned::order::Rel::Less);
    assert_eq!(b.total_rel(&a), yaml_spanned::order::Rel::Greater);
    let x = Value::Number(Number::from_f64_bits(f64::NAN.to_bits()));
    let y = Value::Number(Number::from_f64_bits(1.0f64.to_bits()));
    assert_eq!(x.total_rel(&y), yaml_spanned::order::Rel::Greater);
    assert_eq!(y.total_rel(&x), yaml_spanned::order::Rel::Less);
}

#[test]
fn equality_is_symmetric_and_transitive_on_distinct_keys() {
    let mut a = Mapping::new();
    a.insert(s("x"), i(1));
    a.insert(s("y"), Spanned::dummy(Value::Number(Number::from_f64_bits(0.0f64.to_bits()))));
    let mut b = Mapping::new();
    b.insert(s("y"), Spanned::dummy(Value::Number(Number::from_f64_bits((-0.0f64).to_bits()))));
    b.insert(s("x"), i(1));
    let mut c = Mapping::new();
    c.insert(s("x"), i(1));
    c.insert(s("y"), Spanned::dummy(Value::Number(Number::from_f64_bits(0.0f64.to_bits()))));
    let (a, b, c) = (Value::Mapping(a), Value::Mapping(b), Value::Mapping(c));
    assert!(a.equals(&b) && b.equals(&a));
    assert!(b.equals(&c) && a.equals(&c) && c.equals(&a));

    let t1 = Value::Tagged(Box::new(TaggedValue::new(Tag::new("!T"), i(2))));
    let t2 = Value::Tagged(Box::new(TaggedValue::new(Tag::new("T"), i(2))));
    assert!(t1.equals(&t2) && t2.equals(&t1));
}

#[test]
fn equality_is_not_symmetric_with_repeated_keys() {
    let a = Value::Mapping(Mapping(vec![(s("k"), i(1)), (s("k"), i(1))]));
    let b = Value::Mapping(Mapping(vec![(s("k"), i(1)), (s("j"), i(2))]));
    assert!(a.equals(&b));
    assert!(!b.equals(&a));
}

#[test]
fn duplicate_key_diagnostic_points_at_next_to_last_occurrence() {
    assert_eq!(first_use_of_duplicate(&vec![0..1, 2..3]), (0..1, 0));
    assert_eq!(first_use_of_duplicate(&vec![0..1, 5..6, 9..10]), (5..6, 1));
}

#[test]
fn composer_error_diagnostic_labels() {
    let labels = composer_labels(Some("while parsing a block node"), Some(4), "did not find expected node content", Some(9));
    assert_eq!(labels.len(), 2);
    assert!(!labels[0].primary && labels[0].range == (4..4) && labels[0].message == "while parsing a block node");
    assert!(labels[1].primary && labels[1].range == (9..9) && labels[1].message == "did not find expected node content");
    let labels = composer_labels(None, Some(4), "found undefined alias", Some(9));
    assert_eq!(labels.len(), 1);
    assert!(labels[0].primary && labels[0].range == (9..9));
    let labels = composer_labels(Some("context"), None, "problem", None);
    assert!(labels.is_empty());
}

#[test]
fn composer_error_labels_of_an_undefined_alias() {
    let err = yaml_spanned::load::load_document("---\n*some\n").err().unwrap();
    let labels = yaml_spanned::error::composer_error_labels(&err);
    assert_eq!(labels.len(), 1);
    assert!(labels[0].primary);
    assert_eq!(labels[0].range, 4..4);
    assert_eq!(labels[0].message, "found undefined alias");
}

#[test]
fn bytes_that_are_not_utf8_are_a_composer_error() {
    let (documents, failure) = yaml_spanned::load::load_documents_from_bytes(&[b'a', b':', b' ', 0xff, b'\n']);
    assert!(documents.is_empty());
    assert!(failure.is_some());
    let (documents, failure) = yaml_spanned::load::load_documents_from_bytes(b"- 0\n");
    assert_eq!(documents.len(), 1);
    assert!(failure.is_none());
}

#[test]
fn partial_order_flips() {
    let nan = Value::Number(Number::from_f64_bits(f64::NAN.to_bits()));
    let one = Value::Number(Number::from_f64_bits(1.0f64.to_bits()));
    let pairs = vec![
        (Value::from(1i64), Value::from(2i64)),
        (one.clone(), nan.clone()),
        (nan.clone(), nan.clone()),
        (Value::String("a".into()), Value::Bool(true)),
        (
            Value::Sequence(vec![i(1), Spanned::dummy(nan.clone())]),
            Value::Sequence(vec![i(1), Spanned::dummy(one.clone())]),
        ),
        (
            Value::Mapping(Mapping::from_entries(vec![(s("b"), i(1)), (s("a"), i(2))])),
            Value::Mapping(Mapping::from_entries(vec![(s("a"), i(2)), (s("b"), i(3))])),
        ),
    ];
    for (a, b) in pairs {
        assert_eq!(a.partial_cmp(&b), b.partial_cmp(&a).map(Ordering::reverse));
    }
    assert_eq!(one.partial_cmp(&nan), None);
    assert_eq!(nan.partial_cmp(&nan), Some(Ordering::Equal));
}

#[test]
fn spanned_references_reach_the_inner_value() {
    let mut v = s("x");
    assert!(*AsRef::<Value>::as_ref(&v) == Value::String("x".to_string()));
    assert!(*std::ops::Deref::deref(&v) == Value::String("x".to_string()));
    *AsMut::<Value>::as_mut(&mut v) = Value::Null;
    assert!(v.inner == Value::Null);
    assert!(v.span == Span::empty());
}

#[test]
fn any_value_converts_into_a_spanned_one() {
    let n: Spanned<u32> = Spanned::from(5u32);
    assert_eq!(n.inner, 5);
    assert!(n.span == Span::empty());
    let v: Spanned<Value> = Value::Null.into();
    assert!(v.inner == Value::Null && v.span == Span::empty());
}

#[test]
fn a_tag_is_written_as_a_bang_and_its_name() {
    let t = Tag::new("!foo");
    let pieces = t.pieces();
    assert_eq!(pieces, vec!["!".to_string(), "foo".to_string()]);
    assert_eq!(Tag::new("foo").pieces(), pieces);
    match check_for_tag(&pieces) {
        MaybeTag::Tag(name) => assert_eq!(name, "foo"),
        MaybeTag::NotTag(_) => panic!("expected a tag"),
    }
}

#[test]
fn retain_keeps_chosen_entries_in_order() {
    let mut m = Mapping::from_entries(vec![(s("a"), i(1)), (s("b"), i(2)), (s("c"), i(3))]);
    m.retain(|k, v| {
        let keep = k.inner != Value::String("b".to_string());
        if keep {
            v.inner = Value::Null;
        }
        keep
    });
    assert_eq!(m.len(), 2);
    assert!(m.get("a").unwrap().inner == Value::Null);
    assert!(m.get("b").is_none());
    assert!(m.get("c").unwrap().inner == Value::Null);
    let keys: Vec<Value> = m.iter().into_iter().map(|(k, _)| k.inner.clone()).collect();
    assert!(keys[0] == Value::String("a".to_string()) && keys[1] == Value::String("c".to_string()));
    m.retain(|_, _| true);
    assert_eq!(m.len(), 2);
    m.retain(|_, _| false);
    assert_eq!(m.len(), 0);
}

#[test]
fn string_value_repr_renders_plainly() {
    assert_eq!(Value::Null.string_value_repr().unwrap(), "NULL");
    assert_eq!(Value::Bool(true).string_value_repr().unwrap(), "true");
    assert_eq!(Value::String("a b".to_string()).string_value_repr().unwrap(), "a b");
    assert_eq!(Value::from(-5i64).string_value_repr().unwrap(), "-5");
    let seq = Value::Sequence(vec![i(1), s("x")]);
    assert_eq!(seq.string_value_repr().unwrap(), "[1, x]");
    let m = Value::Mapping(Mapping::from_entries(vec![
        (s("k"), Spanned::dummy(Value::Sequence(vec![Spanned::dummy(Value::Bool(true))]))),
        (i(3), Spanned::dummy(Value::Null)),
    ]));
    assert_eq!(m.string_value_repr().unwrap(), r#"{"k": [true], 3: NULL}"#);
    let t = Value::Tagged(Box::new(TaggedValue::new(Tag::new("t"), i(7))));
    assert_eq!(t.string_value_repr().unwrap(), "7");
    assert!(Value::Number(Number::from_f64_bits(1.5f64.to_bits())).string_value_repr().is_none());
    let odd = Value::Mapping(Mapping::from_entries(vec![(Spanned::dummy(Value::Sequence(vec![])), i(1))]));
    assert!(odd.string_value_repr().is_none());
}

#[test]
fn spans_do_not_count_in_equality_of_any_spanned_type() {
    let a = Span { start: Some(Marker { byte_index: 1, line: 0, column: 1 }), end: None };
    let b = Span::empty();
    assert!(Spanned::new(a, 5u32) == Spanned::new(b, 5u32));
    assert!(Spanned::new(a, 5u32) != Spanned::new(a, 6u32));
}
