//! Building a value tree from a composed YAML document: scalars are typed, non-YAML tags are
//! kept, duplicate keys are reported, and the depth of nesting and the number of nodes visited
//! (aliases may repeat a subtree) are limited.
use crate::document::{node_well_formed, Document, Node, NodeData, NodePair, ScalarStyle};
use crate::error::{
    parse_error_model, parse_errors_model, DuplicateKeyError, LimitExceeded, ParseError,
    ParseErrorModel,
};
use crate::mapping::{collect_model, EntryModel, Mapping};
use crate::number::{parse_number_chars, parse_number_spec};
use crate::spanned::Spanned;
use crate::tag::{Tag, TaggedValue};
use crate::text::{chars_equal, chars_have_prefix, chars_of, decimal, has_prefix, push_char, push_decimal, push_str};
use crate::value::{entries_model, items_model, spanned_model, value_eq, Value, ValueModel};
use itertools::Itertools;
use vstd::prelude::*;

verus! {

/// Default maximum recursion depth while building a value.
pub const DEFAULT_MAX_RECURSION_DEPTH: usize = 128;

/// Builds value trees from composed documents.
#[derive(Debug, Clone, Copy)]
pub struct Builder {
    /// Maximum recursion depth while building.
    pub max_recursion_depth: usize,
    /// Maximum number of nodes visited while building; by default a hundred per node of the
    /// document.
    pub jump_limit: Option<usize>,
}

impl Default for Builder {
    fn default() -> (b: Builder)
        ensures
            b.max_recursion_depth == DEFAULT_MAX_RECURSION_DEPTH,
            b.jump_limit is None,
    {
        Builder { max_recursion_depth: DEFAULT_MAX_RECURSION_DEPTH, jump_limit: None }
    }
}

/// What building a part of a document gives: the result, the number of visits still allowed,
/// and the errors reported so far.
pub struct Built<T> {
    pub result: Result<T, LimitExceeded>,
    pub jump: nat,
    pub errors: Seq<ParseErrorModel>,
}

/// The text that every standard YAML tag begins with.
pub open spec fn yaml_tag_prefix() -> Seq<char> {
    seq!['t', 'a', 'g', ':', 'y', 'a', 'm', 'l', '.', 'o', 'r', 'g', ',', '2', '0', '0', '2', ':']
}

/// The standard tag of integers.
pub open spec fn int_tag() -> Seq<char> {
    yaml_tag_prefix() + seq!['i', 'n', 't']
}

/// Whether a plain scalar denotes null: `null`, `Null`, `NULL`, `~` or nothing.
pub open spec fn null_text(s: Seq<char>) -> bool {
    s == seq!['n', 'u', 'l', 'l'] || s == seq!['N', 'u', 'l', 'l'] || s == seq!['N', 'U', 'L', 'L']
        || s == seq!['~'] || s.len() == 0
}

/// The boolean that a plain scalar denotes, if any.
pub open spec fn bool_text(s: Seq<char>) -> Option<bool> {
    if s == seq!['t', 'r', 'u', 'e'] || s == seq!['T', 'r', 'u', 'e'] || s == seq!['T', 'R', 'U', 'E'] {
        Some(true)
    } else if s == seq!['f', 'a', 'l', 's', 'e'] || s == seq!['F', 'a', 'l', 's', 'e'] || s == seq![
        'F',
        'A',
        'L',
        'S',
        'E',
    ] {
        Some(false)
    } else {
        None
    }
}

/// The tag of a node as text.
pub open spec fn tag_of(n: Node) -> Option<Seq<char>> {
    match n.tag {
        Some(t) => Some(t@),
        None => None,
    }
}

/// The value of a scalar: a number where the integer tag asks for one and the text is one;
/// otherwise, for a plain scalar, null, a boolean, a number or a string, the first that the text
/// denotes; a quoted or block scalar is always a string.
pub open spec fn scalar_model(tag: Option<Seq<char>>, text: Seq<char>, style: ScalarStyle, reading: Option<u64>) -> ValueModel {
    if tag == Some(int_tag()) && parse_number_spec(text, reading) is Some {
        ValueModel::Number(parse_number_spec(text, reading)->0)
    } else if style is Plain || style is Any {
        if null_text(text) {
            ValueModel::Null
        } else if bool_text(text) is Some {
            ValueModel::Bool(bool_text(text)->0)
        } else if parse_number_spec(text, reading) is Some {
            ValueModel::Number(parse_number_spec(text, reading)->0)
        } else {
            ValueModel::String(text)
        }
    } else {
        ValueModel::String(text)
    }
}

/// A built node value under the node's tag: a tag that is not a standard YAML tag wraps the
/// value in a tagged value spanning the node.
pub open spec fn wrap_tag(n: Node, v: Spanned<ValueModel>) -> Spanned<ValueModel> {
    match n.tag {
        Some(t) => if has_prefix(t@, yaml_tag_prefix()) {
            v
        } else {
            Spanned { span: n.spec_span(), inner: ValueModel::Tagged(t@, Box::new(v)) }
        },
        None => v,
    }
}

/// `n - 1`, or 0 for 0.
pub open spec fn sat_sub1(n: nat) -> nat {
    if n == 0 {
        0
    } else {
        (n - 1) as nat
    }
}

/// The path of the item at index `k` of a sequence at `path`: `path[k]`.
pub open spec fn item_path(path: Seq<char>, k: nat) -> Seq<char> {
    path + seq!['['] + decimal(k) + seq![']']
}

/// The text of a key for paths: the string of a string key, nothing for other keys.
pub open spec fn key_text(key: Spanned<ValueModel>) -> Seq<char> {
    match key.inner {
        ValueModel::String(s) => s,
        _ => Seq::empty(),
    }
}

/// The path of the value under `key` of a mapping at `path`: `path.key`.
pub open spec fn value_path(path: Seq<char>, key: Spanned<ValueModel>) -> Seq<char> {
    path + seq!['.'] + key_text(key)
}

/// Building a node at `path` with recursion budget `rl` and visit budget `jump`, after the
/// errors `errs`. A budget of zero fails with the recursion limit; containers hand their
/// children a budget two lower (see [`items_built`] and [`pairs_built`]).
pub open spec fn node_built(doc: Document, n: Node, path: Seq<char>, rl: nat, jump: nat, errs: Seq<ParseErrorModel>) -> Built<Spanned<ValueModel>>
    decreases 2 * rl, 0int,
{
    if rl == 0 {
        Built { result: Err(LimitExceeded::RecursionLimitExceeded), jump, errors: errs }
    } else {
        let span = n.spec_span();
        let inner: Built<Spanned<ValueModel>> = match n.data {
            NodeData::NoNode => Built {
                result: Ok(Spanned { span, inner: ValueModel::Null }),
                jump,
                errors: errs,
            },
            NodeData::Scalar { value, style, float_reading } => Built {
                result: Ok(Spanned { span, inner: scalar_model(tag_of(n), value@, style, float_reading) }),
                jump,
                errors: errs,
            },
            NodeData::Sequence { items } => {
                let s = items_built(doc, items@, 0, path, (rl - 1) as nat, jump, errs, Seq::empty());
                Built {
                    result: match s.result {
                        Ok(v) => Ok(Spanned { span, inner: ValueModel::Sequence(v) }),
                        Err(e) => Err(e),
                    },
                    jump: s.jump,
                    errors: s.errors,
                }
            },
            NodeData::Mapping { pairs } => {
                let m = pairs_built(doc, pairs@, 0, path, (rl - 1) as nat, jump, errs, Seq::empty());
                match m.result {
                    Ok(entries) => Built {
                        result: Ok(Spanned { span, inner: ValueModel::Mapping(collect_model(entries)) }),
                        jump: m.jump,
                        errors: m.errors + duplicate_errors(entries, path),
                    },
                    Err(e) => Built { result: Err(e), jump: m.jump, errors: m.errors },
                }
            },
        };
        match inner.result {
            Ok(v) => Built { result: Ok(wrap_tag(n, v)), jump: inner.jump, errors: inner.errors },
            Err(e) => inner,
        }
    }
}

/// Building the items of a sequence from index `k` on, after the items `acc`. Each item costs
/// one visit; it fails with the repetition limit where none is left.
pub open spec fn items_built(doc: Document, items: Seq<i32>, k: int, path: Seq<char>, crl: nat, jump: nat, errs: Seq<ParseErrorModel>, acc: Seq<Spanned<ValueModel>>) -> Built<Seq<Spanned<ValueModel>>>
    decreases 2 * crl + 1, items.len() - k,
{
    if k < 0 || k >= items.len() {
        Built { result: Ok(acc), jump, errors: errs }
    } else if jump == 0 {
        Built { result: Err(LimitExceeded::RepetitionLimitExceeded), jump, errors: errs }
    } else {
        let c = node_built(doc, doc.node_at(items[k]), item_path(path, k as nat), sat_sub1(crl), (jump - 1) as nat, errs);
        match c.result {
            Ok(v) => items_built(doc, items, k + 1, path, crl, c.jump, c.errors, acc.push(v)),
            Err(e) => Built { result: Err(e), jump: c.jump, errors: c.errors },
        }
    }
}

/// Building the pairs of a mapping from index `k` on, after the entries `acc`. The key and the
/// value of a pair cost one visit each; the key is built at the mapping's path, the value at
/// the path extended by the key's text.
pub open spec fn pairs_built(doc: Document, pairs: Seq<NodePair>, k: int, path: Seq<char>, crl: nat, jump: nat, errs: Seq<ParseErrorModel>, acc: Seq<EntryModel>) -> Built<Seq<EntryModel>>
    decreases 2 * crl + 1, pairs.len() - k,
{
    if k < 0 || k >= pairs.len() {
        Built { result: Ok(acc), jump, errors: errs }
    } else if jump == 0 {
        Built { result: Err(LimitExceeded::RepetitionLimitExceeded), jump, errors: errs }
    } else {
        let kb = node_built(doc, doc.node_at(pairs[k].key), path, sat_sub1(crl), (jump - 1) as nat, errs);
        match kb.result {
            Err(e) => Built { result: Err(e), jump: kb.jump, errors: kb.errors },
            Ok(key) => if kb.jump == 0 {
                Built { result: Err(LimitExceeded::RepetitionLimitExceeded), jump: kb.jump, errors: kb.errors }
            } else {
                let vb = node_built(doc, doc.node_at(pairs[k].value), value_path(path, key), sat_sub1(crl), (kb.jump - 1) as nat, kb.errors);
                match vb.result {
                    Err(e) => Built { result: Err(e), jump: vb.jump, errors: vb.errors },
                    Ok(val) => pairs_built(doc, pairs, k + 1, path, crl, vb.jump, vb.errors, acc.push((key, val))),
                }
            },
        }
    }
}

/// The number of pairs of `s` whose first component is `c`.
pub open spec fn count_first(s: Seq<(usize, usize)>, c: usize) -> nat
    decreases s.len(),
{
    if s.len() == 0 {
        0
    } else {
        count_first(s.drop_last(), c) + if s.last().0 == c { 1nat } else { 0nat }
    }
}

/// The pairs of `s` whose first component occurs for the second time there, in order: each
/// first component that occurs more than once gives exactly its second occurrence.
pub open spec fn second_occurrences(s: Seq<(usize, usize)>) -> Seq<(usize, usize)>
    decreases s.len(),
{
    if s.len() == 0 {
        Seq::empty()
    } else if count_first(s.drop_last(), s.last().0) == 1 {
        second_occurrences(s.drop_last()).push(s.last())
    } else {
        second_occurrences(s.drop_last())
    }
}

/// The index of the first of `keys` before `i`, from `j` on, that equals key `i`; `i` itself if
/// there is none.
pub open spec fn first_equal_from(keys: Seq<Spanned<ValueModel>>, i: int, j: int) -> int
    decreases i - j,
{
    if j >= i {
        i
    } else if value_eq(keys[j].inner, keys[i].inner) {
        j
    } else {
        first_equal_from(keys, i, j + 1)
    }
}

/// Each key of a mapping under construction, paired with the index of the first key equal to
/// it: keys with the same first index are duplicates of each other.
pub open spec fn key_classes(keys: Seq<Spanned<ValueModel>>) -> Seq<(usize, usize)> {
    Seq::new(keys.len(), |i: int| (first_equal_from(keys, i, 0) as usize, i as usize))
}

/// The byte ranges of the keys that equal `k`, in order.
pub open spec fn occurrences(keys: Seq<Spanned<ValueModel>>, k: ValueModel) -> Seq<(usize, usize)>
    decreases keys.len(),
{
    if keys.len() == 0 {
        Seq::empty()
    } else if value_eq(keys.last().inner, k) {
        occurrences(keys.drop_last(), k).push(keys.last().span.spec_byte_range())
    } else {
        occurrences(keys.drop_last(), k)
    }
}

/// The keys of a list of entries.
pub open spec fn entry_keys(entries: Seq<EntryModel>) -> Seq<Spanned<ValueModel>> {
    Seq::new(entries.len(), |i: int| entries[i].0)
}

/// The duplicate-key errors of a mapping's entries at `path`: one for each key that occurs again,
/// in the order of their second occurrences, naming the second occurrence and the spans of all.
pub open spec fn duplicate_errors(entries: Seq<EntryModel>, path: Seq<char>) -> Seq<ParseErrorModel> {
    let keys = entry_keys(entries);
    let dups = second_occurrences(key_classes(keys));
    Seq::new(
        dups.len(),
        |d: int|
            ParseErrorModel::DuplicateKey {
                key: keys[dups[d].1 as int].inner,
                path,
                occurrences: occurrences(keys, keys[dups[d].1 as int].inner),
            },
    )
}

/// The number of visits a builder allows in a document: its limit, or a hundred per node
/// (capped at `usize::MAX`).
pub open spec fn initial_jump(b: Builder, doc: Document) -> nat {
    match b.jump_limit {
        Some(j) => j as nat,
        None => if doc.nodes@.len() * 100 <= usize::MAX {
            (doc.nodes@.len() * 100) as nat
        } else {
            usize::MAX as nat
        },
    }
}

/// Building a whole document: an empty document is null spanning the document; otherwise its
/// first node is built at the empty path with the builder's limits.
pub open spec fn document_built(b: Builder, doc: Document, errs: Seq<ParseErrorModel>) -> Built<Spanned<ValueModel>> {
    if doc.nodes@.len() == 0 {
        Built { result: Ok(Spanned { span: doc.spec_span(), inner: ValueModel::Null }), jump: 0, errors: errs }
    } else {
        node_built(doc, doc.nodes@[0], Seq::empty(), b.max_recursion_depth as nat, initial_jump(b, doc), errs)
    }
}

/// The model of a build result.
pub open spec fn result_model(r: Result<Spanned<Value>, LimitExceeded>) -> Result<Spanned<ValueModel>, LimitExceeded> {
    match r {
        Ok(v) => Ok(spanned_model(v)),
        Err(e) => Err(e),
    }
}

/// Whether a plain scalar denotes null (see [`null_text`]).
pub fn parse_null(scalar: &str) -> (r: Option<()>)
    ensures
        r is Some <==> null_text(scalar@),
{
    let s = chars_of(scalar);
    let a = vec!['n', 'u', 'l', 'l'];
    let b = vec!['N', 'u', 'l', 'l'];
    let c = vec!['N', 'U', 'L', 'L'];
    let d = vec!['~'];
    assert(a@ =~= seq!['n', 'u', 'l', 'l'] && b@ =~= seq!['N', 'u', 'l', 'l'] && c@ =~= seq!['N', 'U', 'L', 'L'] && d@ =~= seq!['~']);
    if chars_equal(&s, &a) || chars_equal(&s, &b) || chars_equal(&s, &c) || chars_equal(&s, &d) || s.len() == 0 {
        Some(())
    } else {
        None
    }
}

/// The boolean that a plain scalar denotes, if any (see [`bool_text`]).
pub fn parse_bool(scalar: &str) -> (r: Option<bool>)
    ensures
        r == bool_text(scalar@),
{
    let s = chars_of(scalar);
    if chars_equal(&s, &vec!['t', 'r', 'u', 'e']) || chars_equal(&s, &vec!['T', 'r', 'u', 'e'])
        || chars_equal(&s, &vec!['T', 'R', 'U', 'E']) {
        Some(true)
    } else if chars_equal(&s, &vec!['f', 'a', 'l', 's', 'e']) || chars_equal(
        &s,
        &vec!['F', 'a', 'l', 's', 'e'],
    ) || chars_equal(&s, &vec!['F', 'A', 'L', 'S', 'E']) {
        Some(false)
    } else {
        None
    }
}

/// The characters of [`yaml_tag_prefix`].
fn yaml_tag_prefix_chars() -> (v: Vec<char>)
    ensures
        v@ == yaml_tag_prefix(),
{
    let v = vec!['t', 'a', 'g', ':', 'y', 'a', 'm', 'l', '.', 'o', 'r', 'g', ',', '2', '0', '0', '2', ':'];
    assert(v@ =~= yaml_tag_prefix());
    v
}

/// Whether a tag is a standard YAML tag.
fn is_yaml_tag(t: &String) -> (r: bool)
    ensures
        r == has_prefix(t@, yaml_tag_prefix()),
{
    let c = chars_of(t.as_str());
    chars_have_prefix(&c, &yaml_tag_prefix_chars())
}

/// Whether a node's tag is the standard tag of integers.
fn is_int_tag(tag: &Option<String>) -> (r: bool)
    ensures
        r == (match tag {
            Some(t) => t@ == int_tag(),
            None => false,
        }),
{
    match tag {
        Some(t) => {
            let c = chars_of(t.as_str());
            let mut expected = yaml_tag_prefix_chars();
            expected.push('i');
            expected.push('n');
            expected.push('t');
            assert(expected@ =~= int_tag());
            chars_equal(&c, &expected)
        },
        None => false,
    }
}

/// The value of a scalar node (see [`scalar_model`]).
fn scalar_to_value(node: &Node, value: &String, style: ScalarStyle, reading: Option<u64>) -> (v: Value)
    ensures
        v@ == scalar_model(tag_of(*node), value@, style, reading),
{
    let text = chars_of(value.as_str());
    if is_int_tag(&node.tag) {
        if let Some(n) = parse_number_chars(&text, reading) {
            return Value::Number(n);
        }
    }
    match style {
        ScalarStyle::Plain | ScalarStyle::Any => {
            if parse_null(value.as_str()).is_some() {
                return Value::Null;
            }
            if let Some(b) = parse_bool(value.as_str()) {
                return Value::Bool(b);
            }
            if let Some(n) = parse_number_chars(&text, reading) {
                return Value::Number(n);
            }
            Value::String(value.clone())
        },
        _ => Value::String(value.clone()),
    }
}

/// A node's built value under the node's tag (see [`wrap_tag`]).
fn wrap_tag_exec(node: &Node, v: Spanned<Value>) -> (r: Spanned<Value>)
    requires
        node.tag matches Some(t) ==> t@.len() > 0,
    ensures
        spanned_model(r) == wrap_tag(*node, spanned_model(v)),
{
    match &node.tag {
        Some(t) => {
            if is_yaml_tag(t) {
                v
            } else {
                let tagged = TaggedValue { tag: Tag::from_string(t.clone()), value: v };
                Spanned::new(node.span(), Value::Tagged(Box::new(tagged)))
            }
        },
        None => v,
    }
}

/// Building a node (see [`node_built`]).
fn node_to_value(
    doc: &Document,
    node: &Node,
    path: &String,
    errors: &mut Vec<ParseError>,
    rl: usize,
    jump: &mut usize,
) -> (r: Result<Spanned<Value>, LimitExceeded>)
    requires
        doc.well_formed(),
        node_well_formed(*node, doc.nodes@.len() as int),
    ensures
        ({
            let out = node_built(*doc, *node, path@, rl as nat, *old(jump) as nat, parse_errors_model(old(errors)@));
            &&& result_model(r) == out.result
            &&& *final(jump) == out.jump
            &&& parse_errors_model(final(errors)@) == out.errors
        }),
    decreases 2 * rl,
{
    if rl == 0 {
        return Err(LimitExceeded::RecursionLimitExceeded);
    }
    let value = match &node.data {
        NodeData::NoNode => Ok(Spanned::new(node.span(), Value::Null)),
        NodeData::Scalar { value, style, float_reading } => {
            let v = scalar_to_value(node, value, *style, *float_reading);
            Ok(Spanned::new(node.span(), v))
        },
        NodeData::Sequence { items } => sequence_to_value(doc, node, items, path, errors, rl - 1, jump),
        NodeData::Mapping { pairs } => mapping_to_value(doc, node, pairs, path, errors, rl - 1, jump),
    };
    match value {
        Ok(v) => Ok(wrap_tag_exec(node, v)),
        Err(e) => Err(e),
    }
}

/// The items of a sequence, built one after the other (see [`items_built`]).
#[verifier::loop_isolation(false)]
fn sequence_to_value(
    doc: &Document,
    node: &Node,
    items: &Vec<i32>,
    path: &String,
    errors: &mut Vec<ParseError>,
    crl: usize,
    jump: &mut usize,
) -> (r: Result<Spanned<Value>, LimitExceeded>)
    requires
        doc.well_formed(),
        forall|k: int| 0 <= k < items@.len() ==> crate::document::node_ref_ok(#[trigger] items@[k], doc.nodes@.len() as int),
    ensures
        ({
            let s = items_built(*doc, items@, 0, path@, crl as nat, *old(jump) as nat, parse_errors_model(old(errors)@), Seq::empty());
            &&& result_model(r) == match s.result {
                Ok(v) => Ok(Spanned { span: node.spec_span(), inner: ValueModel::Sequence(v) }),
                Err(e) => Err(e),
            }
            &&& *final(jump) == s.jump
            &&& parse_errors_model(final(errors)@) == s.errors
        }),
    decreases 2 * crl + 1,
{
    let ghost total = items_built(*doc, items@, 0, path@, crl as nat, *jump as nat, parse_errors_model(errors@), Seq::empty());
    let mut out: Vec<Spanned<Value>> = Vec::new();
    let mut k: usize = 0;
    proof {
        assert(items_model(out@) =~= Seq::<Spanned<ValueModel>>::empty());
    }
    while k < items.len()
        invariant
            k <= items@.len(),
            total == items_built(*doc, items@, k as int, path@, crl as nat, *jump as nat, parse_errors_model(errors@), items_model(out@)),
        decreases items.len() - k,
    {
        if *jump == 0 {
            return Err(LimitExceeded::RepetitionLimitExceeded);
        }
        *jump = *jump - 1;
        let r = items[k];
        let child = &doc.nodes[(r - 1) as usize];
        let mut child_path = path.clone();
        push_char(&mut child_path, '[');
        push_decimal(&mut child_path, k);
        push_char(&mut child_path, ']');
        proof {
            assert(child_path@ =~= item_path(path@, k as nat));
        }
        let child_rl = if crl == 0 { 0 } else { crl - 1 };
        match node_to_value(doc, child, &child_path, errors, child_rl, jump) {
            Ok(v) => {
                let ghost before = out@;
                out.push(v);
                proof {
                    assert(items_model(out@) =~= items_model(before).push(spanned_model(v)));
                }
            },
            Err(e) => {
                return Err(e);
            },
        }
        k = k + 1;
    }
    proof {
        lemma_items_model_len(out@);
    }
    let v = Value::Sequence(out);
    proof {
        crate::value::lemma_sequence_model(out);
    }
    Ok(Spanned::new(node.span(), v))
}

/// The pairs of a mapping, built one after the other, then checked for duplicate keys and
/// collected into a mapping (see [`pairs_built`]).
#[verifier::loop_isolation(false)]
fn mapping_to_value(
    doc: &Document,
    node: &Node,
    pairs: &Vec<NodePair>,
    path: &String,
    errors: &mut Vec<ParseError>,
    crl: usize,
    jump: &mut usize,
) -> (r: Result<Spanned<Value>, LimitExceeded>)
    requires
        doc.well_formed(),
        forall|k: int| 0 <= k < pairs@.len() ==> crate::document::pair_ok(#[trigger] pairs@[k], doc.nodes@.len() as int),
    ensures
        ({
            let m = pairs_built(*doc, pairs@, 0, path@, crl as nat, *old(jump) as nat, parse_errors_model(old(errors)@), Seq::empty());
            &&& *final(jump) == m.jump
            &&& match m.result {
                Ok(entries) => {
                    &&& result_model(r) == Ok::<Spanned<ValueModel>, LimitExceeded>(Spanned { span: node.spec_span(), inner: ValueModel::Mapping(collect_model(entries)) })
                    &&& parse_errors_model(final(errors)@) == m.errors + duplicate_errors(entries, path@)
                },
                Err(e) => {
                    &&& result_model(r) == Err::<Spanned<ValueModel>, LimitExceeded>(e)
                    &&& parse_errors_model(final(errors)@) == m.errors
                },
            }
        }),
    decreases 2 * crl + 1,
{
    let ghost total = pairs_built(*doc, pairs@, 0, path@, crl as nat, *jump as nat, parse_errors_model(errors@), Seq::empty());
    let mut entries: Vec<(Spanned<Value>, Spanned<Value>)> = Vec::new();
    let mut k: usize = 0;
    proof {
        assert(entries_model(entries@) =~= Seq::<EntryModel>::empty());
    }
    let child_rl = if crl == 0 { 0 } else { crl - 1 };
    while k < pairs.len()
        invariant
            k <= pairs@.len(),
            child_rl as nat == sat_sub1(crl as nat),
            total == pairs_built(*doc, pairs@, k as int, path@, crl as nat, *jump as nat, parse_errors_model(errors@), entries_model(entries@)),
        decreases pairs.len() - k,
    {
        if *jump == 0 {
            return Err(LimitExceeded::RepetitionLimitExceeded);
        }
        *jump = *jump - 1;
        let p = pairs[k];
        assert(crate::document::pair_ok(pairs@[k as int], doc.nodes@.len() as int));
        let key_node = &doc.nodes[(p.key - 1) as usize];
        let key = match node_to_value(doc, key_node, path, errors, child_rl, jump) {
            Ok(v) => v,
            Err(e) => {
                return Err(e);
            },
        };
        if *jump == 0 {
            return Err(LimitExceeded::RepetitionLimitExceeded);
        }
        *jump = *jump - 1;
        let value_node = &doc.nodes[(p.value - 1) as usize];
        let mut value_path_text = path.clone();
        push_char(&mut value_path_text, '.');
        if let Value::String(s) = &key.inner {
            push_str(&mut value_path_text, s.as_str());
        }
        proof {
            assert(value_path_text@ =~= value_path(path@, spanned_model(key)));
        }
        let val = match node_to_value(doc, value_node, &value_path_text, errors, child_rl, jump) {
            Ok(v) => v,
            Err(e) => {
                return Err(e);
            },
        };
        let ghost before = entries@;
        entries.push((key, val));
        proof {
            assert(entries_model(entries@) =~= entries_model(before).push((spanned_model(key), spanned_model(val))));
        }
        k = k + 1;
    }
    duplicate_key_errors(&entries, path, errors);
    let m = Mapping::from_entries(entries);
    proof {
        crate::value::lemma_mapping_model(m);
    }
    Ok(Spanned::new(node.span(), Value::Mapping(m)))
}

/// Calls `Itertools::duplicates_by` on the pairs, keyed by their first component: it yields,
/// in order, each pair whose first component is met for the second time, and nothing for the
/// third time on.
#[verifier::external_body]
fn duplicate_pairs(pairs: &Vec<(usize, usize)>) -> (r: Vec<(usize, usize)>)
    ensures
        r@ == second_occurrences(pairs@),
{
    pairs.iter().copied().duplicates_by(|p| p.0).collect()
}

/// Every pair that [`second_occurrences`] gives is a pair of its input, so a bound on the second
/// components carries over.
proof fn lemma_second_occurrences_bound(s: Seq<(usize, usize)>, bound: int)
    requires
        forall|i: int| 0 <= i < s.len() ==> (#[trigger] s[i]).1 < bound,
    ensures
        forall|d: int| 0 <= d < second_occurrences(s).len() ==> (#[trigger] second_occurrences(s)[d]).1 < bound,
    decreases s.len(),
{
    if s.len() > 0 {
        let p = s.drop_last();
        assert forall|i: int| 0 <= i < p.len() implies (#[trigger] p[i]).1 < bound by {
            assert(p[i] == s[i]);
        }
        lemma_second_occurrences_bound(p, bound);
        assert(s.last() == s[s.len() - 1]);
        let so = second_occurrences(s);
        assert forall|d: int| 0 <= d < so.len() implies (#[trigger] so[d]).1 < bound by {
            if count_first(p, s.last().0) == 1 {
                assert(so == second_occurrences(p).push(s.last()));
            } else {
                assert(so == second_occurrences(p));
            }
        }
    }
}

/// The index of the first key before key `i` that equals it, or `i` (see [`first_equal_from`]).
fn first_equal_key(entries: &Vec<(Spanned<Value>, Spanned<Value>)>, i: usize) -> (c: usize)
    requires
        i < entries@.len(),
    ensures
        c as int == first_equal_from(entry_keys(entries_model(entries@)), i as int, 0),
{
    let ghost keys = entry_keys(entries_model(entries@));
    let mut j: usize = 0;
    while j < i
        invariant
            j <= i < entries@.len(),
            keys == entry_keys(entries_model(entries@)),
            first_equal_from(keys, i as int, 0) == first_equal_from(keys, i as int, j as int),
        decreases i - j,
    {
        if entries[j].0.inner.equals(&entries[i].0.inner) {
            return j;
        }
        j = j + 1;
    }
    i
}

/// The byte ranges of the keys that equal `key` (see [`occurrences`]).
fn occurrence_ranges(entries: &Vec<(Spanned<Value>, Spanned<Value>)>, key: &Value) -> (r: Vec<crate::error::ErrorSpan>)
    ensures
        Seq::new(r@.len(), |t: int| crate::error::range_model(r@[t])) == occurrences(entry_keys(entries_model(entries@)), key@),
{
    let ghost keys = entry_keys(entries_model(entries@));
    let mut out: Vec<crate::error::ErrorSpan> = Vec::new();
    let mut j: usize = 0;
    proof {
        assert(keys.take(0) =~= Seq::<Spanned<ValueModel>>::empty());
        assert(Seq::new(out@.len(), |t: int| crate::error::range_model(out@[t])) =~= occurrences(keys.take(0), key@));
    }
    while j < entries.len()
        invariant
            j <= entries@.len(),
            keys == entry_keys(entries_model(entries@)),
            Seq::new(out@.len(), |t: int| crate::error::range_model(out@[t])) == occurrences(keys.take(j as int), key@),
        decreases entries.len() - j,
    {
        proof {
            assert(keys.take(j as int + 1).drop_last() =~= keys.take(j as int));
        }
        if entries[j].0.inner.equals(key) {
            let ghost before = out@;
            out.push(entries[j].0.span.byte_range());
            proof {
                assert(Seq::new(out@.len(), |t: int| crate::error::range_model(out@[t])) =~= Seq::new(
                    before.len(),
                    |t: int| crate::error::range_model(before[t]),
                ).push(keys[j as int].span.spec_byte_range()));
            }
        }
        j = j + 1;
    }
    proof {
        assert(keys.take(entries@.len() as int) =~= keys);
    }
    out
}

/// Reports each key of the entries that occurs again (see [`duplicate_errors`]).
#[verifier::loop_isolation(false)]
fn duplicate_key_errors(entries: &Vec<(Spanned<Value>, Spanned<Value>)>, path: &String, errors: &mut Vec<ParseError>)
    ensures
        parse_errors_model(final(errors)@) == parse_errors_model(old(errors)@) + duplicate_errors(entries_model(entries@), path@),
{
    let ghost keys = entry_keys(entries_model(entries@));
    let ghost classes_model = key_classes(keys);
    let mut classes: Vec<(usize, usize)> = Vec::new();
    let mut i: usize = 0;
    while i < entries.len()
        invariant
            i <= entries@.len(),
            classes@ == classes_model.take(i as int),
        decreases entries.len() - i,
    {
        let c = first_equal_key(entries, i);
        classes.push((c, i));
        proof {
            assert(classes@ =~= classes_model.take(i as int + 1));
        }
        i = i + 1;
    }
    proof {
        assert(classes@ =~= classes_model);
        lemma_second_occurrences_bound(classes_model, entries@.len() as int);
    }
    let dups = duplicate_pairs(&classes);
    let ghost all = duplicate_errors(entries_model(entries@), path@);
    let ghost start = parse_errors_model(errors@);
    let mut d: usize = 0;
    while d < dups.len()
        invariant
            d <= dups@.len(),
            dups@ == second_occurrences(classes_model),
            all.len() == dups@.len(),
            parse_errors_model(errors@) == start + all.take(d as int),
        decreases dups.len() - d,
    {
        let idx = dups[d].1;
        assert((dups@[d as int]).1 < entries@.len());
        let key_value = &entries[idx].0.inner;
        let occ = occurrence_ranges(entries, key_value);
        let err = ParseError::DuplicateKey(
            DuplicateKeyError { key: key_value.duplicate(), path: path.clone(), occurrences: occ },
        );
        proof {
            assert(parse_error_model(err) == all[d as int]);
            crate::error::lemma_parse_errors_push(errors@, err);
        }
        errors.push(err);
        proof {
            assert(all.take(d as int + 1) =~= all.take(d as int).push(all[d as int]));
        }
        d = d + 1;
    }
    proof {
        assert(all.take(dups@.len() as int) =~= all);
    }
}

impl Builder {
    /// Builds the value of a document (see [`document_built`]). Errors that do not stop the
    /// build, such as duplicate keys, are appended to `errors`.
    pub fn from_document(&self, document: &Document, errors: &mut Vec<ParseError>) -> (r: Result<Spanned<Value>, LimitExceeded>)
        requires
            document.well_formed(),
        ensures
            ({
                let out = document_built(*self, *document, parse_errors_model(old(errors)@));
                &&& result_model(r) == out.result
                &&& parse_errors_model(final(errors)@) == out.errors
            }),
    {
        if document.nodes.len() == 0 {
            return Ok(Spanned::new(document.span(), Value::Null));
        }
        let len = document.nodes.len();
        let mut jump_limit: usize = match self.jump_limit {
            Some(j) => j,
            None => if len <= usize::MAX / 100 {
                len * 100
            } else {
                usize::MAX
            },
        };
        let path = String::new();
        proof {
            assert(path@ =~= Seq::<char>::empty());
        }
        node_to_value(document, &document.nodes[0], &path, errors, self.max_recursion_depth, &mut jump_limit)
    }
}

proof fn lemma_items_model_len(v: Seq<Spanned<Value>>)
    ensures
        items_model(v).len() == v.len(),
{
}

} // verus!
