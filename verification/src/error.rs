//! The errors of the library and their models.
use crate::value::{Value, ValueModel};
use libyaml_safer::Error as ComposerError;
use vstd::prelude::*;

verus! {

/// A byte range of the source text that an error points at.
pub type ErrorSpan = std::ops::Range<usize>;

/// A limit of the value builder that a document went past.
#[derive(Debug, Clone, Copy, PartialEq, Eq, Structural)]
pub enum LimitExceeded {
    RecursionLimitExceeded,
    RepetitionLimitExceeded,
}

impl LimitExceeded {
    /// The message of the error.
    pub fn message(&self) -> (r: &'static str)
        ensures
            match self {
                LimitExceeded::RecursionLimitExceeded => r@ == "recursion limit exceeded"@,
                LimitExceeded::RepetitionLimitExceeded => r@ == "repetition limit exceeded"@,
            },
    {
        match self {
            LimitExceeded::RecursionLimitExceeded => "recursion limit exceeded",
            LimitExceeded::RepetitionLimitExceeded => "repetition limit exceeded",
        }
    }
}

/// Why merging `<<` keys into a mapping failed.
#[derive(Debug, Clone, Copy, PartialEq, Eq, Structural)]
pub enum MergeError {
    SequenceInMergeElement,
    TaggedInMerge,
    ScalarInMergeElement,
}

impl MergeError {
    /// The message of the error.
    pub fn message(&self) -> (r: &'static str)
        ensures
            match self {
                MergeError::SequenceInMergeElement => r@ == "cannot merge sequence in element"@,
                MergeError::TaggedInMerge => r@ == "cannot merge taggged value"@,
                MergeError::ScalarInMergeElement => r@ == "cannot merge scalar in element"@,
            },
    {
        match self {
            MergeError::SequenceInMergeElement => "cannot merge sequence in element",
            MergeError::TaggedInMerge => "cannot merge taggged value",
            MergeError::ScalarInMergeElement => "cannot merge scalar in element",
        }
    }
}

/// A mapping key that is not a string where one was expected.
#[derive(Debug)]
pub struct InvalidKeyError {
    pub value: Value,
    pub span: ErrorSpan,
    pub path: String,
}

/// A key that occurs more than once in one mapping. `key` is the key at its second occurrence;
/// `occurrences` are the spans of every key of the mapping that equals it, in order.
#[derive(Debug)]
pub struct DuplicateKeyError {
    pub key: Value,
    pub path: String,
    pub occurrences: Vec<ErrorSpan>,
}

/// Where the diagnostic of a duplicate key points, and how many more times than twice the key
/// occurs: both of its labels point at the next-to-last occurrence. A duplicate key occurs at
/// least twice.
pub fn first_use_of_duplicate(occurrences: &Vec<ErrorSpan>) -> (r: (ErrorSpan, usize))
    requires
        occurrences@.len() >= 2,
    ensures
        r.0.start == occurrences@[occurrences@.len() - 2].start,
        r.0.end == occurrences@[occurrences@.len() - 2].end,
        r.1 == occurrences@.len() - 2,
{
    let n = occurrences.len();
    let at = &occurrences[n - 2];
    (std::ops::Range { start: at.start, end: at.end }, n - 2)
}

/// A label of a diagnostic: whether it is the primary one, the byte range that it points at,
/// and its message.
#[derive(Debug)]
pub struct DiagnosticLabel {
    pub primary: bool,
    pub range: ErrorSpan,
    pub message: String,
}

/// Whether a mark's index names a byte of the text, that is, fits in a `usize`.
pub open spec fn index_fits(index: Option<u64>) -> bool {
    index matches Some(i) && i <= usize::MAX
}

/// The text of an optional string slice.
pub open spec fn opt_text(o: Option<&str>) -> Option<Seq<char>> {
    match o {
        Some(t) => Some(t@),
        None => None,
    }
}

/// `r` are the labels of the diagnostic of a composer error, from what the error tells: its
/// context, as a secondary label at the context's mark, where both are known and the mark's
/// index fits; then its problem, as the primary label at the problem's mark, where that index
/// fits. Each label points at the empty range at its mark.
pub open spec fn labels_of(
    context: Option<Seq<char>>,
    context_index: Option<u64>,
    problem: Seq<char>,
    problem_index: Option<u64>,
    r: Seq<DiagnosticLabel>,
) -> bool {
    let with_context = context is Some && index_fits(context_index);
    let with_problem = index_fits(problem_index);
    &&& r.len() == (if with_context { 1int } else { 0int }) + (if with_problem { 1int } else { 0int })
    &&& with_context ==> {
        let l = r[0];
        &&& !l.primary
        &&& l.range.start == context_index->Some_0 && l.range.end == context_index->Some_0
        &&& l.message@ == context->Some_0
    }
    &&& with_problem ==> {
        let l = r[r.len() - 1];
        &&& l.primary
        &&& l.range.start == problem_index->Some_0 && l.range.end == problem_index->Some_0
        &&& l.message@ == problem
    }
}

/// The labels of the diagnostic of a composer error, from what the error tells (see
/// [`labels_of`]).
pub fn composer_labels(context: Option<&str>, context_index: Option<u64>, problem: &str, problem_index: Option<u64>) -> (r: Vec<
    DiagnosticLabel,
>)
    ensures
        labels_of(opt_text(context), context_index, problem@, problem_index, r@),
{
    let mut labels: Vec<DiagnosticLabel> = Vec::new();
    match (context, context_index) {
        (Some(text), Some(index)) => {
            if index <= usize::MAX as u64 {
                let at = index as usize;
                labels.push(DiagnosticLabel { primary: false, range: std::ops::Range { start: at, end: at }, message: text.to_owned() });
            }
        },
        _ => {},
    }
    match problem_index {
        Some(index) => {
            if index <= usize::MAX as u64 {
                let at = index as usize;
                labels.push(DiagnosticLabel { primary: true, range: std::ops::Range { start: at, end: at }, message: problem.to_owned() });
            }
        },
        None => {},
    }
    labels
}

/// What a composer error says the composer was doing, where it says so.
pub uninterp spec fn composer_error_context(err: ComposerError) -> Option<Seq<char>>;

/// The index of the mark of a composer error's context, where it has one.
pub uninterp spec fn composer_error_context_index(err: ComposerError) -> Option<u64>;

/// What a composer error says went wrong.
pub uninterp spec fn composer_error_problem(err: ComposerError) -> Seq<char>;

/// The index of the mark of a composer error's problem, where it has one.
pub uninterp spec fn composer_error_problem_index(err: ComposerError) -> Option<u64>;

/// Calls `libyaml_safer::Error::context`: the error's context text, where it has one.
#[verifier::external_body]
fn composer_context(err: &ComposerError) -> (r: Option<&'static str>)
    ensures
        opt_text(r) == composer_error_context(*err),
{
    err.context()
}

/// Calls `libyaml_safer::Error::context_mark` and takes the mark's index.
#[verifier::external_body]
fn composer_context_index(err: &ComposerError) -> (r: Option<u64>)
    ensures
        r == composer_error_context_index(*err),
{
    err.context_mark().map(|m| m.index)
}

/// Calls `libyaml_safer::Error::problem`: the error's problem text.
#[verifier::external_body]
fn composer_problem(err: &ComposerError) -> (r: &'static str)
    ensures
        r@ == composer_error_problem(*err),
{
    err.problem()
}

/// Calls `libyaml_safer::Error::problem_mark` and takes the mark's index.
#[verifier::external_body]
fn composer_problem_index(err: &ComposerError) -> (r: Option<u64>)
    ensures
        r == composer_error_problem_index(*err),
{
    err.problem_mark().map(|m| m.index)
}

/// The labels of the diagnostic of a composer error (see [`labels_of`]), from the error's
/// context and problem and the indices of their marks.
pub fn composer_error_labels(err: &ComposerError) -> (r: Vec<DiagnosticLabel>)
    ensures
        labels_of(
            composer_error_context(*err),
            composer_error_context_index(*err),
            composer_error_problem(*err),
            composer_error_problem_index(*err),
            r@,
        ),
{
    let context = composer_context(err);
    let context_index = composer_context_index(err);
    let problem = composer_problem(err);
    let problem_index = composer_problem_index(err);
    composer_labels(context, context_index, problem, problem_index)
}

/// A problem in a document that does not stop the value from being built.
#[derive(Debug)]
pub enum ParseError {
    InvalidKey(InvalidKeyError),
    DuplicateKey(DuplicateKeyError),
}

/// Why reading a document failed: the composer's error, a limit of the builder, or the
/// problems found in the document.
#[derive(Debug)]
pub enum Error {
    YAML(ComposerError),
    LimitExceeded(LimitExceeded),
    Parse(Vec<ParseError>),
}

#[verifier::external_type_specification]
#[verifier::external_body]
pub struct ExParseIntError(std::num::ParseIntError);

#[verifier::external_type_specification]
#[verifier::external_body]
pub struct ExParseFloatError(std::num::ParseFloatError);

#[verifier::external_type_specification]
#[verifier::external_body]
pub struct ExFromUtf8Error(std::string::FromUtf8Error);

/// Why a text is not a number.
#[derive(Debug)]
pub enum InvalidNumberError {
    UnknownFormat(String),
    ParseInt(std::num::ParseIntError),
    ParseFloat(std::num::ParseFloatError),
}

/// The text of `s` as `Debug` shows a string: quoted, with the characters that it escapes
/// escaped.
pub uninterp spec fn debug_quoted(s: Seq<char>) -> Seq<char>;

/// Whether every character of `s` is printable ASCII other than the quotes and the backslash:
/// characters that `char::escape_debug` hands back as they are.
pub open spec fn shown_unescaped(s: Seq<char>) -> bool {
    forall|i: int| 0 <= i < s.len() ==> ' ' <= #[trigger] s[i] <= '~' && s[i] != '"' && s[i] != '\\' && s[i] != '\''
}

/// Calls `<str as Debug>::fmt` through `format!`: the quoted string. Where every character is
/// one that `char::escape_debug` leaves as it is, the text is the string between double quotes.
#[verifier::external_body]
pub(crate) fn debug_quote(s: &str) -> (r: String)
    ensures
        r@ == debug_quoted(s@),
        shown_unescaped(s@) ==> r@ == seq!['"'] + s@ + seq!['"'],
{
    format!("{:?}", s)
}

/// The text that `Display` shows of an integer parse error.
pub uninterp spec fn int_error_message(e: std::num::ParseIntError) -> Seq<char>;

/// The text that `Display` shows of a float parse error.
pub uninterp spec fn float_error_message(e: std::num::ParseFloatError) -> Seq<char>;

/// Calls `<ParseIntError as Display>::fmt` through `format!`: the error's text.
#[verifier::external_body]
fn int_error_text(e: &std::num::ParseIntError) -> (r: String)
    ensures
        r@ == int_error_message(*e),
{
    format!("{}", e)
}

/// Calls `<ParseFloatError as Display>::fmt` through `format!`: the error's text.
#[verifier::external_body]
fn float_error_text(e: &std::num::ParseFloatError) -> (r: String)
    ensures
        r@ == float_error_message(*e),
{
    format!("{}", e)
}

impl InvalidNumberError {
    /// The message of the error: a text of unknown format is named as `Debug` shows it, and an
    /// error of the standard parsers gives the text that its `Display` shows.
    pub fn message(&self) -> (r: String)
        ensures
            match self {
                InvalidNumberError::UnknownFormat(s) => {
                    &&& r@ == "unknown number format "@ + debug_quoted(s@)
                    &&& shown_unescaped(s@) ==> r@ == "unknown number format "@ + seq!['"'] + s@ + seq!['"']
                },
                InvalidNumberError::ParseInt(e) => r@ == int_error_message(*e),
                InvalidNumberError::ParseFloat(e) => r@ == float_error_message(*e),
            },
    {
        match self {
            InvalidNumberError::UnknownFormat(s) => {
                let mut text = String::from_str("unknown number format ");
                let quoted = debug_quote(s.as_str());
                text.append(quoted.as_str());
                text
            },
            InvalidNumberError::ParseInt(e) => int_error_text(e),
            InvalidNumberError::ParseFloat(e) => float_error_text(e),
        }
    }
}

/// An invalid number, with where it was found.
#[derive(Debug)]
pub struct InvalidNumberErrorWithSpan {
    pub path: String,
    pub span: ErrorSpan,
    pub source: InvalidNumberError,
}

/// Why converting between values and other data failed.
#[derive(Debug)]
pub enum SerdeError {
    Custom(String, Option<()>),
    InvalidNumber(InvalidNumberError),
    FromUtf8(std::string::FromUtf8Error),
    EmptyTag,
}

/// The model of a [`ParseError`]: values by their models, strings as character sequences and
/// byte ranges as pairs.
pub enum ParseErrorModel {
    InvalidKey { value: ValueModel, span: (usize, usize), path: Seq<char> },
    DuplicateKey { key: ValueModel, path: Seq<char>, occurrences: Seq<(usize, usize)> },
}

/// The model of a byte range.
pub open spec fn range_model(r: ErrorSpan) -> (usize, usize) {
    (r.start, r.end)
}

/// The model of a parse error.
pub open spec fn parse_error_model(e: ParseError) -> ParseErrorModel {
    match e {
        ParseError::InvalidKey(k) => ParseErrorModel::InvalidKey {
            value: k.value@,
            span: range_model(k.span),
            path: k.path@,
        },
        ParseError::DuplicateKey(d) => ParseErrorModel::DuplicateKey {
            key: d.key@,
            path: d.path@,
            occurrences: Seq::new(d.occurrences@.len(), |i: int| range_model(d.occurrences@[i])),
        },
    }
}

/// The models of a list of parse errors.
pub open spec fn parse_errors_model(v: Seq<ParseError>) -> Seq<ParseErrorModel> {
    Seq::new(v.len(), |i: int| parse_error_model(v[i]))
}

/// Appending an error appends its model.
pub proof fn lemma_parse_errors_push(v: Seq<ParseError>, e: ParseError)
    ensures
        parse_errors_model(v.push(e)) == parse_errors_model(v).push(parse_error_model(e)),
{
    assert(parse_errors_model(v.push(e)) =~= parse_errors_model(v).push(parse_error_model(e)));
}

} // verus!
