//! Source positions: markers, spans, and values that carry the span they came from.
use vstd::prelude::*;
use vstd::std_specs::cmp::{PartialEqSpec, PartialEqSpecImpl};

verus! {

/// A byte index into the source text.
pub type ByteIndex = usize;

/// Where a YAML node starts or ends: byte index, line and column, all zero-based.
#[derive(Copy, Clone, Debug, PartialEq, Eq, Hash, Structural)]
pub struct Marker {
    pub byte_index: ByteIndex,
    pub line: usize,
    pub column: usize,
}

impl Default for Marker {
    fn default() -> (m: Marker)
        ensures
            m == (Marker { byte_index: 0, line: 0, column: 0 }),
    {
        Marker { byte_index: 0, line: 0, column: 0 }
    }
}

/// The span of a YAML node: its start and end markers, where known.
#[derive(Copy, Clone, Debug, PartialEq, Eq, Hash, Structural)]
pub struct Span {
    pub start: Option<Marker>,
    pub end: Option<Marker>,
}

impl Default for Span {
    fn default() -> (s: Span)
        ensures
            s == Span::spec_empty(),
    {
        Span::empty()
    }
}

impl Span {
    /// The span that knows neither its start nor its end.
    pub open spec fn spec_empty() -> Span {
        Span { start: None, end: None }
    }

    /// The span that knows neither its start nor its end.
    #[verifier::when_used_as_spec(spec_empty)]
    pub fn empty() -> (s: Span)
        ensures
            s == Span::spec_empty(),
    {
        Span { start: None, end: None }
    }

    /// The byte range that the span covers; an unknown end point counts as byte 0.
    pub open spec fn spec_byte_range(self) -> (usize, usize) {
        (
            match self.start {
                Some(m) => m.byte_index,
                None => 0,
            },
            match self.end {
                Some(m) => m.byte_index,
                None => 0,
            },
        )
    }

    /// The byte range that the span covers; an unknown end point counts as byte 0.
    pub fn byte_range(&self) -> (r: std::ops::Range<usize>)
        ensures
            (r.start, r.end) == self.spec_byte_range(),
    {
        let start = match self.start {
            Some(m) => m.byte_index,
            None => Marker::default().byte_index,
        };
        let end = match self.end {
            Some(m) => m.byte_index,
            None => Marker::default().byte_index,
        };
        std::ops::Range { start, end }
    }
}

/// A value together with the span of source text that it came from.
#[derive(Clone, Debug)]
pub struct Spanned<T> {
    pub span: Span,
    pub inner: T,
}

impl<T: View> View for Spanned<T> {
    type V = Spanned<T::V>;

    open spec fn view(&self) -> Spanned<T::V> {
        Spanned { span: self.span, inner: self.inner@ }
    }
}

impl<T> Spanned<T> {
    /// Wraps a value with the given span.
    pub fn new(span: Span, inner: T) -> (s: Self)
        ensures
            s.span == span,
            s.inner == inner,
    {
        Spanned { span, inner }
    }

    /// Wraps a value with the empty span.
    pub fn dummy(inner: T) -> (s: Self)
        ensures
            s.span == Span::spec_empty(),
            s.inner == inner,
    {
        Spanned { span: Span::empty(), inner }
    }

    /// Gives back the wrapped value.
    pub fn into_inner(self) -> (t: T)
        ensures
            t == self.inner,
    {
        self.inner
    }

    /// The span associated with this value.
    pub fn span(&self) -> (s: &Span)
        ensures
            *s == self.span,
    {
        &self.span
    }
}

/// A marker that knows the name of its source, for display as `source:line:column`.
pub struct RenderedMarker<D> {
    source: D,
    line: usize,
    column: usize,
}

} // verus!

verus! {

/// The text of a marker: `line:column`.
pub open spec fn marker_text(m: Marker) -> Seq<char> {
    crate::text::decimal(m.line as nat) + seq![':'] + crate::text::decimal(m.column as nat)
}

/// The text of one end of a span: `L` and the marker's text, or `?` where it is unknown.
pub open spec fn span_end_text(m: Option<Marker>) -> Seq<char> {
    match m {
        Some(x) => seq!['L'] + marker_text(x),
        None => seq!['?'],
    }
}

/// The text of a span: its start and end, separated by ` - `.
pub open spec fn span_text(s: Span) -> Seq<char> {
    span_end_text(s.start) + seq![' ', '-', ' '] + span_end_text(s.end)
}

impl Marker {
    /// The text of the marker (see [`marker_text`]).
    pub fn to_text(&self) -> (r: String)
        ensures
            r@ == marker_text(*self),
    {
        let mut out = String::new();
        push_marker(&mut out, self);
        proof {
            assert(out@ =~= marker_text(*self));
        }
        out
    }
}

fn push_marker(out: &mut String, m: &Marker)
    ensures
        final(out)@ == old(out)@ + marker_text(*m),
{
    crate::text::push_decimal(out, m.line);
    crate::text::push_char(out, ':');
    crate::text::push_decimal(out, m.column);
    assert(final(out)@ =~= old(out)@ + marker_text(*m));
}

fn push_span_end(out: &mut String, m: &Option<Marker>)
    ensures
        final(out)@ == old(out)@ + span_end_text(*m),
{
    match m {
        Some(x) => {
            crate::text::push_char(out, 'L');
            push_marker(out, x);
            assert(final(out)@ =~= old(out)@ + span_end_text(*m));
        },
        None => {
            crate::text::push_char(out, '?');
            assert(final(out)@ =~= old(out)@ + span_end_text(*m));
        },
    }
}

impl Span {
    /// The text of the span (see [`span_text`]), as in `L0:0 - L9:0`.
    pub fn to_text(&self) -> (r: String)
        ensures
            r@ == span_text(*self),
    {
        let mut out = String::new();
        push_span_end(&mut out, &self.start);
        crate::text::push_char(&mut out, ' ');
        crate::text::push_char(&mut out, '-');
        crate::text::push_char(&mut out, ' ');
        push_span_end(&mut out, &self.end);
        proof {
            assert(out@ =~= span_text(*self));
        }
        out
    }
}

} // verus!

verus! {

impl<T: PartialEq> PartialEq for Spanned<T> {
    fn eq(&self, other: &Spanned<T>) -> (r: bool) {
        self.inner == other.inner
    }
}

impl<T: PartialEq> PartialEqSpecImpl for Spanned<T> {
    open spec fn obeys_eq_spec() -> bool {
        T::obeys_eq_spec()
    }

    open spec fn eq_spec(&self, other: &Spanned<T>) -> bool {
        self.inner.eq_spec(&other.inner)
    }
}

impl<T: Eq> Eq for Spanned<T> {}

/// Two spanned values are equal exactly when the values they wrap are, whatever their spans.
pub proof fn law_spans_do_not_count_in_equality<T: PartialEq>(x: T, y: T, sa: Span, sb: Span)
    ensures
        PartialEqSpec::eq_spec(&(Spanned { span: sa, inner: x }), &(Spanned { span: sb, inner: y })) == x.eq_spec(&y),
        <Spanned<T> as PartialEqSpec>::obeys_eq_spec() == <T as PartialEqSpec>::obeys_eq_spec(),
{
}

impl<T> From<T> for Spanned<T> {
    fn from(inner: T) -> (s: Spanned<T>) {
        Spanned::dummy(inner)
    }
}

impl<T> vstd::std_specs::convert::FromSpecImpl<T> for Spanned<T> {
    open spec fn obeys_from_spec() -> bool {
        true
    }

    open spec fn from_spec(inner: T) -> Spanned<T> {
        Spanned { span: Span::spec_empty(), inner }
    }
}

impl<T> AsRef<T> for Spanned<T> {
    fn as_ref(&self) -> (r: &T)
        ensures
            *r == self.inner,
    {
        &self.inner
    }
}

impl<T> AsMut<T> for Spanned<T> {
    fn as_mut(&mut self) -> (r: &mut T)
        ensures
            *r == old(self).inner,
            *final(self) == (Spanned { span: old(self).span, inner: *final(r) }),
    {
        &mut self.inner
    }
}

} // verus!

verus! {

impl<T> std::ops::Deref for Spanned<T> {
    type Target = T;

    fn deref(&self) -> (r: &T)
        ensures
            *r == self.inner,
    {
        &self.inner
    }
}

} // verus!
