//! YAML tags (`!Thing`) and tagged values.
use crate::spanned::Spanned;
use crate::value::Value;
use vstd::prelude::*;

verus! {

/// A representation of YAML's `!Tag` syntax, used for enums.
#[derive(Clone, Debug)]
pub struct Tag {
    pub string: String,
}

impl View for Tag {
    type V = Seq<char>;

    open spec fn view(&self) -> Seq<char> {
        self.string@
    }
}

/// A tag's text without its leading `!`, unless nothing would be left.
pub open spec fn nobang(s: Seq<char>) -> Seq<char> {
    if s.len() > 1 && s[0] == '!' {
        s.drop_first()
    } else {
        s
    }
}

/// A `Tag` together with the value that it tags.
#[derive(Debug)]
pub struct TaggedValue {
    pub tag: Tag,
    pub value: Spanned<Value>,
}

} // verus!

verus! {

impl Tag {
    /// Creates a tag. The leading `!` is not significant: `Tag::new("!Thing")` and
    /// `Tag::new("Thing")` are equal. There is no empty tag in YAML.
    pub fn new(string: &str) -> (t: Tag)
        requires
            string@.len() > 0,
        ensures
            t@ == string@,
    {
        Tag { string: string.to_owned() }
    }

    /// Creates a tag from an owned string; see [`Tag::new`].
    pub fn from_string(string: String) -> (t: Tag)
        requires
            string@.len() > 0,
        ensures
            t@ == string@,
    {
        Tag { string }
    }

    /// A copy of the tag.
    pub fn duplicate(&self) -> (t: Tag)
        ensures
            t@ == self@,
    {
        Tag { string: self.string.clone() }
    }

    /// Tag equality: the texts without their leading `!` are equal.
    pub fn equals(&self, other: &Tag) -> (r: bool)
        ensures
            r == (nobang(self@) == nobang(other@)),
    {
        let a = crate::text::chars_of(self.string.as_str());
        let b = crate::text::chars_of(other.string.as_str());
        let a = nobang_chars(&a);
        let b = nobang_chars(&b);
        crate::text::chars_equal(&a, &b)
    }
}

/// Exec form of [`nobang`].
pub fn nobang_chars(s: &Vec<char>) -> (r: Vec<char>)
    ensures
        r@ == nobang(s@),
{
    if s.len() > 1 && s[0] == '!' {
        let r = crate::text::chars_skip(s, 1);
        assert(r@ =~= s@.drop_first());
        r
    } else {
        let r = crate::text::chars_skip(s, 0);
        assert(r@ =~= s@);
        r
    }
}

} // verus!

verus! {

/// The value under all the tags around it.
pub open spec fn untag_model(v: crate::value::ValueModel) -> crate::value::ValueModel
    decreases v,
{
    match v {
        crate::value::ValueModel::Tagged(_, b) => untag_model(b.inner),
        _ => v,
    }
}

/// The spanned value under all the tags around it.
pub open spec fn untag_spanned_model(s: Spanned<crate::value::ValueModel>) -> Spanned<crate::value::ValueModel>
    decreases s.inner,
{
    match s.inner {
        crate::value::ValueModel::Tagged(_, b) => untag_spanned_model(*b),
        _ => s,
    }
}

impl Value {
    /// The value under all the tags around it.
    pub fn untag(self) -> (r: Value)
        ensures
            r@ == untag_model(self@),
    {
        let mut cur = self;
        loop
            invariant
                untag_model(cur@) == untag_model(self@),
            decreases crate::merge::depth(cur@),
        {
            match cur {
                Value::Tagged(tagged) => {
                    cur = tagged.value.inner;
                },
                other => {
                    return other;
                },
            }
        }
    }

    /// The value under all the tags around it, by reference.
    pub fn untag_ref(&self) -> (r: &Value)
        ensures
            r@ == untag_model(self@),
    {
        let mut cur = self;
        loop
            invariant
                untag_model(cur@) == untag_model(self@),
            decreases crate::merge::depth(cur@),
        {
            match cur {
                Value::Tagged(tagged) => {
                    cur = &tagged.value.inner;
                },
                _ => {
                    return cur;
                },
            }
        }
    }
}

impl Spanned<Value> {
    /// The spanned value under all the tags around it.
    pub fn untag(self) -> (r: Spanned<Value>)
        ensures
            crate::value::spanned_model(r) == untag_spanned_model(crate::value::spanned_model(self)),
    {
        let mut cur = self;
        loop
            invariant
                untag_spanned_model(crate::value::spanned_model(cur)) == untag_spanned_model(crate::value::spanned_model(self)),
            decreases crate::merge::depth(cur.inner@),
        {
            match cur.inner {
                Value::Tagged(tagged) => {
                    cur = tagged.value;
                },
                inner => {
                    return Spanned { span: cur.span, inner };
                },
            }
        }
    }

    /// The spanned value under all the tags around it, by reference.
    pub fn untag_ref(&self) -> (r: &Spanned<Value>)
        ensures
            crate::value::spanned_model(*r) == untag_spanned_model(crate::value::spanned_model(*self)),
    {
        let mut cur = self;
        loop
            invariant
                untag_spanned_model(crate::value::spanned_model(*cur)) == untag_spanned_model(crate::value::spanned_model(*self)),
            decreases crate::merge::depth(cur.inner@),
        {
            match &cur.inner {
                Value::Tagged(tagged) => {
                    cur = &tagged.value;
                },
                _ => {
                    return cur;
                },
            }
        }
    }
}

/// Tag equality: the texts without their leading `!` are equal.
impl PartialEq for Tag {
    fn eq(&self, other: &Tag) -> (r: bool) {
        self.equals(other)
    }
}

impl vstd::std_specs::cmp::PartialEqSpecImpl for Tag {
    open spec fn obeys_eq_spec() -> bool {
        true
    }

    open spec fn eq_spec(&self, other: &Tag) -> bool {
        nobang(self@) == nobang(other@)
    }
}

impl Eq for Tag {}

impl Tag {
    /// Whether the tag equals a text, either with or without its leading `!`.
    pub fn matches_str(&self, other: &str) -> (r: bool)
        ensures
            r == (nobang(self@) == nobang(other@)),
    {
        let a = crate::text::chars_of(self.string.as_str());
        let b = crate::text::chars_of(other);
        let a = nobang_chars(&a);
        let b = nobang_chars(&b);
        crate::text::chars_equal(&a, &b)
    }

    /// The pieces in which the tag is written out, one after the other: `!`, then the tag
    /// without its leading `!`.
    pub fn pieces(&self) -> (r: Vec<String>)
        ensures
            r@.len() == 2,
            r@[0]@ == seq!['!'],
            r@[1]@ == nobang(self@),
    {
        let a = crate::text::chars_of(self.string.as_str());
        let b = nobang_chars(&a);
        let mut bang = String::new();
        crate::text::push_char(&mut bang, '!');
        let mut name = String::new();
        let mut i: usize = 0;
        while i < b.len()
            invariant
                i <= b@.len(),
                name@ == b@.take(i as int),
            decreases b.len() - i,
        {
            crate::text::push_char(&mut name, b[i]);
            proof {
                assert(b@.take(i as int + 1) =~= b@.take(i as int).push(b@[i as int]));
            }
            i = i + 1;
        }
        proof {
            assert(b@.take(b@.len() as int) =~= b@);
        }
        let mut r: Vec<String> = Vec::new();
        r.push(bang);
        r.push(name);
        r
    }

    /// The text of the tag as YAML writes it: `!` and the tag without its leading `!`.
    pub fn to_text(&self) -> (r: String)
        ensures
            r@ == seq!['!'] + nobang(self@),
    {
        let a = crate::text::chars_of(self.string.as_str());
        let b = nobang_chars(&a);
        let mut out = String::new();
        crate::text::push_char(&mut out, '!');
        let mut i: usize = 0;
        while i < b.len()
            invariant
                i <= b@.len(),
                out@ == seq!['!'] + b@.take(i as int),
            decreases b.len() - i,
        {
            crate::text::push_char(&mut out, b[i]);
            proof {
                assert(b@.take(i as int + 1) =~= b@.take(i as int).push(b@[i as int]));
            }
            i = i + 1;
        }
        proof {
            assert(b@.take(b@.len() as int) =~= b@);
        }
        out
    }
}

impl TaggedValue {
    /// A tagged value.
    pub fn new(tag: Tag, value: Spanned<Value>) -> (t: TaggedValue)
        ensures
            t.tag == tag,
            t.value == value,
    {
        TaggedValue { tag, value }
    }
}

/// What a value's rendering turned out to be: a tag (`!` followed by one more piece) or other
/// text.
pub enum MaybeTag<T> {
    Tag(String),
    NotTag(T),
}

/// The state of recognising a tag in a rendering that arrives in pieces.
pub enum CheckForTag {
    Empty,
    Bang,
    Tag(String),
    NotTag(String),
}

/// The model of [`CheckForTag`].
pub enum CheckModel {
    Empty,
    Bang,
    Tag(Seq<char>),
    NotTag(Seq<char>),
}

impl View for CheckForTag {
    type V = CheckModel;

    open spec fn view(&self) -> CheckModel {
        match self {
            CheckForTag::Empty => CheckModel::Empty,
            CheckForTag::Bang => CheckModel::Bang,
            CheckForTag::Tag(s) => CheckModel::Tag(s@),
            CheckForTag::NotTag(s) => CheckModel::NotTag(s@),
        }
    }
}

/// One piece arriving: empty pieces change nothing; a lone `!` first means a tag may follow;
/// the piece after it is the tag; anything more makes it plain text.
pub open spec fn check_step(st: CheckModel, s: Seq<char>) -> CheckModel {
    if s.len() == 0 {
        st
    } else {
        match st {
            CheckModel::Empty => if s == seq!['!'] {
                CheckModel::Bang
            } else {
                CheckModel::NotTag(s)
            },
            CheckModel::Bang => CheckModel::Tag(s),
            CheckModel::Tag(t) => CheckModel::NotTag(t + s),
            CheckModel::NotTag(t) => CheckModel::NotTag(t + s),
        }
    }
}

/// The state after all the pieces, from the empty state.
pub open spec fn check_all(pieces: Seq<Seq<char>>) -> CheckModel
    decreases pieces.len(),
{
    if pieces.len() == 0 {
        CheckModel::Empty
    } else {
        check_step(check_all(pieces.drop_last()), pieces.last())
    }
}

/// The verdict of a final state: only a finished tag is a tag; a lone `!` is the text `!`.
pub open spec fn check_verdict(st: CheckModel) -> (bool, Seq<char>) {
    match st {
        CheckModel::Empty => (false, Seq::empty()),
        CheckModel::Bang => (false, seq!['!']),
        CheckModel::Tag(t) => (true, t),
        CheckModel::NotTag(t) => (false, t),
    }
}

impl CheckForTag {
    /// Takes one piece of the rendering (see [`check_step`]).
    pub fn write_str(&mut self, s: &str)
        ensures
            final(self)@ == check_step(old(self)@, s@),
    {
        if s.is_empty() {
            return;
        }
        let mut st = CheckForTag::Empty;
        std::mem::swap(self, &mut st);
        let next = match st {
            CheckForTag::Empty => {
                let c = crate::text::chars_of(s);
                let bang = vec!['!'];
                assert(bang@ =~= seq!['!']);
                if crate::text::chars_equal(&c, &bang) {
                    CheckForTag::Bang
                } else {
                    CheckForTag::NotTag(s.to_owned())
                }
            },
            CheckForTag::Bang => CheckForTag::Tag(s.to_owned()),
            CheckForTag::Tag(string) => {
                let mut string = string;
                crate::text::push_str(&mut string, s);
                CheckForTag::NotTag(string)
            },
            CheckForTag::NotTag(string) => {
                let mut string = string;
                crate::text::push_str(&mut string, s);
                CheckForTag::NotTag(string)
            },
        };
        *self = next;
    }
}

/// Whether a rendering, given as the pieces in which it was written, is a tag: exactly `!`
/// followed by one more non-empty piece (empty pieces do not count).
pub fn check_for_tag(pieces: &Vec<String>) -> (r: MaybeTag<String>)
    ensures
        ({
            let (is_tag, text) = check_verdict(check_all(Seq::new(pieces@.len(), |i: int| pieces@[i]@)));
            match r {
                MaybeTag::Tag(t) => is_tag && t@ == text,
                MaybeTag::NotTag(t) => !is_tag && t@ == text,
            }
        }),
{
    let ghost ps = Seq::new(pieces@.len(), |i: int| pieces@[i]@);
    let mut check = CheckForTag::Empty;
    let mut i: usize = 0;
    while i < pieces.len()
        invariant
            i <= pieces@.len(),
            ps == Seq::new(pieces@.len(), |i: int| pieces@[i]@),
            check@ == check_all(ps.take(i as int)),
        decreases pieces.len() - i,
    {
        proof {
            assert(ps.take(i as int + 1).drop_last() =~= ps.take(i as int));
        }
        check.write_str(pieces[i].as_str());
        i = i + 1;
    }
    proof {
        assert(ps.take(pieces@.len() as int) =~= ps);
    }
    match check {
        CheckForTag::Empty => MaybeTag::NotTag(String::new()),
        CheckForTag::Bang => {
            let mut s = String::new();
            crate::text::push_char(&mut s, '!');
            MaybeTag::NotTag(s)
        },
        CheckForTag::Tag(string) => MaybeTag::Tag(string),
        CheckForTag::NotTag(string) => MaybeTag::NotTag(string),
    }
}

} // verus!
