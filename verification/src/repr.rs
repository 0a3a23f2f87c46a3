//! The plain rendering of a value that messages name it by: strings unquoted, numbers as YAML
//! writes them, sequences and mappings in brackets and braces, tags left out.
use crate::error::{debug_quote, debug_quoted};
use crate::mapping::EntryModel;
use crate::merge::{depth, lemma_mapping_within, lemma_sequence_within};
use crate::number::number_text;
use crate::spanned::Spanned;
use crate::value::{lemma_mapping_model, lemma_sequence_model, entries_model, items_model, Value, ValueModel};
use vstd::prelude::*;

verus! {

/// The text of a boolean.
pub open spec fn bool_text(b: bool) -> Seq<char> {
    if b {
        "true"@
    } else {
        "false"@
    }
}

/// How a key of a mapping is named in a rendering: null, a boolean or a number as for a value,
/// a string quoted as `Debug` quotes it. A finite float, a sequence, a mapping or a tagged
/// value as key has no such name here.
pub open spec fn key_repr(k: ValueModel) -> Option<Seq<char>> {
    match k {
        ValueModel::Null => Some("NULL"@),
        ValueModel::Bool(b) => Some(bool_text(b)),
        ValueModel::String(s) => Some(debug_quoted(s)),
        ValueModel::Number(n) => number_text(n),
        _ => None,
    }
}

/// The plain rendering of a value: `NULL`, the boolean, the string itself, the number as YAML
/// writes it, the items in brackets and the entries in braces, each separated by `, `, and a
/// tagged value as the value under the tag. Nothing where a finite float or a key without a
/// name (see [`key_repr`]) occurs.
pub open spec fn repr(v: ValueModel) -> Option<Seq<char>>
    decreases v, 0nat,
{
    match v {
        ValueModel::Null => Some("NULL"@),
        ValueModel::Bool(b) => Some(bool_text(b)),
        ValueModel::String(s) => Some(s),
        ValueModel::Number(n) => number_text(n),
        ValueModel::Sequence(items) => match items_repr(items, items.len() as int) {
            Some(t) => Some(seq!['['] + t + seq![']']),
            None => None,
        },
        ValueModel::Mapping(e) => match entries_repr(e, e.len() as int) {
            Some(t) => Some(seq!['{'] + t + seq!['}']),
            None => None,
        },
        ValueModel::Tagged(_, b) => repr(b.inner),
    }
}

/// The renderings of the first `k` items, separated by `, `.
pub open spec fn items_repr(items: Seq<Spanned<ValueModel>>, k: int) -> Option<Seq<char>>
    decreases items, k,
{
    if k <= 0 || k > items.len() {
        Some(Seq::empty())
    } else {
        match (items_repr(items, k - 1), repr(items[k - 1].inner)) {
            (Some(a), Some(b)) => Some(
                if k == 1 {
                    b
                } else {
                    a + ", "@ + b
                },
            ),
            _ => None,
        }
    }
}

/// The renderings of the first `k` entries, each as its key's name, `: ` and its value,
/// separated by `, `.
pub open spec fn entries_repr(e: Seq<EntryModel>, k: int) -> Option<Seq<char>>
    decreases e, k,
{
    if k <= 0 || k > e.len() {
        Some(Seq::empty())
    } else {
        match (entries_repr(e, k - 1), key_repr(e[k - 1].0.inner), repr(e[k - 1].1.inner)) {
            (Some(a), Some(kt), Some(vt)) => Some(
                if k == 1 {
                    kt + ": "@ + vt
                } else {
                    a + ", "@ + kt + ": "@ + vt
                },
            ),
            _ => None,
        }
    }
}

proof fn lemma_items_repr_none(items: Seq<Spanned<ValueModel>>, k: int, j: int)
    requires
        1 <= k <= j <= items.len(),
        items_repr(items, k) is None,
    ensures
        items_repr(items, j) is None,
    decreases j - k,
{
    if k < j {
        lemma_items_repr_none(items, k, j - 1);
    }
}

proof fn lemma_entries_repr_none(e: Seq<EntryModel>, k: int, j: int)
    requires
        1 <= k <= j <= e.len(),
        entries_repr(e, k) is None,
    ensures
        entries_repr(e, j) is None,
    decreases j - k,
{
    if k < j {
        lemma_entries_repr_none(e, k, j - 1);
    }
}

fn bool_string(b: bool) -> (r: String)
    ensures
        r@ == bool_text(b),
{
    if b {
        String::from_str("true")
    } else {
        String::from_str("false")
    }
}

/// The name of a key (see [`key_repr`]).
fn key_repr_of(k: &Value) -> (r: Option<String>)
    ensures
        match r {
            Some(t) => key_repr(k@) == Some(t@),
            None => key_repr(k@) is None,
        },
{
    match k {
        Value::Null => Some(String::from_str("NULL")),
        Value::Bool(b) => Some(bool_string(*b)),
        Value::String(s) => Some(debug_quote(s.as_str())),
        Value::Number(n) => n.display_text(),
        _ => None,
    }
}

/// The rendering of a value (see [`repr`]), with its depth as the bound.
fn repr_of(v: &Value, Ghost(fuel): Ghost<nat>) -> (r: Option<String>)
    requires
        depth(v@) <= fuel,
    ensures
        match r {
            Some(t) => repr(v@) == Some(t@),
            None => repr(v@) is None,
        },
    decreases fuel,
{
    match v {
        Value::Null => Some(String::from_str("NULL")),
        Value::Bool(b) => Some(bool_string(*b)),
        Value::String(s) => Some(s.clone()),
        Value::Number(n) => n.display_text(),
        Value::Tagged(t) => repr_of(&t.value.inner, Ghost((fuel - 1) as nat)),
        Value::Sequence(items) => {
            proof {
                lemma_sequence_model(*items);
                lemma_sequence_within(items_model(items@), (fuel - 1) as nat);
            }
            let ghost im = items_model(items@);
            let mut out = String::new();
            crate::text::push_char(&mut out, '[');
            let mut i: usize = 0;
            while i < items.len()
                invariant
                    fuel > 0,
                    i <= items@.len(),
                    im == items_model(items@),
                    v@ == ValueModel::Sequence(im),
                    forall|t: int| 0 <= t < im.len() ==> depth(#[trigger] im[t].inner) <= (fuel - 1) as nat,
                    items_repr(im, i as int) matches Some(t) && out@ == seq!['['] + t,
                decreases items.len() - i,
            {
                let item = &items[i];
                proof {
                    assert(im[i as int].inner == item.inner@);
                }
                match repr_of(&item.inner, Ghost((fuel - 1) as nat)) {
                    None => {
                        proof {
                            assert(repr(im[i as int].inner) is None);
                            assert(items_repr(im, i as int + 1) is None);
                            lemma_items_repr_none(im, i as int + 1, im.len() as int);
                            assert(v@ == ValueModel::Sequence(im));
                        }
                        return None;
                    },
                    Some(text) => {
                        if i > 0 {
                            crate::text::push_str(&mut out, ", ");
                        }
                        crate::text::push_str(&mut out, text.as_str());
                    },
                }
                i = i + 1;
            }
            crate::text::push_char(&mut out, ']');
            Some(out)
        },
        Value::Mapping(m) => {
            proof {
                lemma_mapping_model(*m);
                lemma_mapping_within(entries_model(m.0@), (fuel - 1) as nat);
            }
            let ghost e = entries_model(m.0@);
            let mut out = String::new();
            crate::text::push_char(&mut out, '{');
            let mut i: usize = 0;
            while i < m.0.len()
                invariant
                    fuel > 0,
                    i <= m.0@.len(),
                    e == entries_model(m.0@),
                    v@ == ValueModel::Mapping(e),
                    forall|t: int| 0 <= t < e.len() ==> depth(#[trigger] e[t].1.inner) <= (fuel - 1) as nat,
                    entries_repr(e, i as int) matches Some(t) && out@ == seq!['{'] + t,
                decreases m.0.len() - i,
            {
                let entry = &m.0[i];
                proof {
                    assert(e[i as int].0.inner == entry.0.inner@);
                    assert(e[i as int].1.inner == entry.1.inner@);
                }
                let key = key_repr_of(&entry.0.inner);
                let value = repr_of(&entry.1.inner, Ghost((fuel - 1) as nat));
                match (key, value) {
                    (Some(kt), Some(vt)) => {
                        if i > 0 {
                            crate::text::push_str(&mut out, ", ");
                        }
                        crate::text::push_str(&mut out, kt.as_str());
                        crate::text::push_str(&mut out, ": ");
                        crate::text::push_str(&mut out, vt.as_str());
                    },
                    _ => {
                        proof {
                            assert(key_repr(e[i as int].0.inner) is None || repr(e[i as int].1.inner) is None);
                            assert(entries_repr(e, i as int + 1) is None);
                            lemma_entries_repr_none(e, i as int + 1, e.len() as int);
                            assert(v@ == ValueModel::Mapping(e));
                        }
                        return None;
                    },
                }
                i = i + 1;
            }
            crate::text::push_char(&mut out, '}');
            Some(out)
        },
    }
}

impl crate::error::DuplicateKeyError {
    /// The message of the error: the path and the key's plain rendering (see [`repr`]) between
    /// backquotes; nothing where the key has no plain rendering.
    pub fn message(&self) -> (r: Option<String>)
        ensures
            match repr(self.key@) {
                Some(t) => r matches Some(m) && m@ == "duplicate key `"@ + self.path@ + "."@ + t + "`"@,
                None => r is None,
            },
    {
        match self.key.string_value_repr() {
            Some(key) => {
                let mut m = String::from_str("duplicate key `");
                crate::text::push_str(&mut m, self.path.as_str());
                crate::text::push_str(&mut m, ".");
                crate::text::push_str(&mut m, key.as_str());
                crate::text::push_str(&mut m, "`");
                Some(m)
            },
            None => None,
        }
    }
}

impl Value {
    /// The plain rendering that messages name the value by (see [`repr`]): nothing where the
    /// value holds a finite float or a key that has no name in it.
    pub fn string_value_repr(&self) -> (r: Option<String>)
        ensures
            match r {
                Some(t) => repr(self@) == Some(t@),
                None => repr(self@) is None,
            },
    {
        let ghost d = depth(self@);
        repr_of(self, Ghost(d))
    }
}

} // verus!
