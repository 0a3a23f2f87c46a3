//! Reading YAML text into composed documents with the `libyaml-safer` composer, and building the
//! value trees of a stream of documents.
use crate::builder::{document_built, Builder};
use crate::document::{Document, Mark, Node, NodeData, NodePair, ScalarStyle};
use crate::error::{parse_errors_model, Error, LimitExceeded, ParseError, ParseErrorModel};
use crate::spanned::Spanned;
use crate::value::{spanned_model, ValueModel};
use libyaml_safer::{
    Document as RawDocument, Error as ComposerError, Mark as RawMark, Node as RawNode,
    NodeData as RawNodeData, Parser as RawParser, ScalarStyle as RawScalarStyle,
};
use vstd::prelude::*;
use vstd::string::StringSliceAdditionalSpecFns;

verus! {

#[verifier::external_type_specification]
#[verifier::external_body]
pub struct ExComposerError(ComposerError);

#[verifier::external_type_specification]
#[verifier::external_body]
pub struct ExRawDocument(RawDocument);

#[verifier::external_type_specification]
#[verifier::external_body]
pub struct ExRawNode(RawNode);

#[verifier::external_type_specification]
#[verifier::external_body]
pub struct ExRawMark(RawMark);

#[verifier::external_type_specification]
#[verifier::external_body]
pub struct ExRawScalarStyle(RawScalarStyle);

#[verifier::external_type_specification]
#[verifier::external_body]
#[verifier::reject_recursive_types(R)]
pub struct ExParser<R>(RawParser<R>);

/// The bytes that a parser made by [`new_composer`] reads.
pub uninterp spec fn composer_input(p: RawParser<&mut &[u8]>) -> Seq<u8>;

/// How many documents a parser made by [`new_composer`] has loaded so far.
pub uninterp spec fn composer_loads(p: RawParser<&mut &[u8]>) -> nat;

/// What the load numbered `k` (from 0) of a parser that reads `input` gives: the document, with
/// no float readings yet, or nothing where that load fails. A document with no nodes is the end
/// of the stream.
pub uninterp spec fn composed(input: Seq<u8>, k: nat) -> Option<Document>;

/// Calls `RawParser::new` and then `RawParser::set_input_string`: a parser that reads the given
/// bytes and has loaded nothing. What the parser does to the slice it reads from is left
/// unsaid. This is the only way that the library makes a parser, so every parser that it loads
/// from has its input set.
#[verifier::external_body]
fn new_composer<'a>(input: &'a mut &'a [u8]) -> (p: RawParser<&'a mut &'a [u8]>)
    ensures
        composer_input(p) == old(input)@,
        composer_loads(p) == 0,
{
    let mut parser = RawParser::new();
    parser.set_input_string(input);
    parser
}

/// Calls `RawDocument::load` on a parser made by [`new_composer`] and converts what it gives:
/// the outcome of the parser's next load. Which error a failed load gives is left unsaid. Only
/// a parser none of whose loads has failed is loaded again.
#[verifier::external_body]
fn load_next<'a>(parser: &mut RawParser<&'a mut &'a [u8]>) -> (r: Result<Document, ComposerError>)
    requires
        forall|j: nat| j < composer_loads(*old(parser)) ==> (#[trigger] composed(composer_input(*old(parser)), j)) is Some,
    ensures
        composer_input(*final(parser)) == composer_input(*old(parser)),
        composer_loads(*final(parser)) == composer_loads(*old(parser)) + 1,
        match composed(composer_input(*old(parser)), composer_loads(*old(parser))) {
            Some(d) => r == Ok::<Document, ComposerError>(d),
            None => r is Err,
        },
{
    RawDocument::load(parser).map(document_model)
}

/// The load numbered `k` of the stream of `input` gives the empty document of the stream's end.
pub open spec fn composes_end(input: Seq<u8>, k: nat) -> bool {
    composed(input, k) matches Some(d) && d.nodes@.len() == 0
}

/// `docs` are the documents that the stream of `input` gives, in order, and `failed` tells
/// whether a failed load stopped it: loads stop at the end of the stream, at the first failed
/// load, or after `input.len() + 1` documents, more than a text of that length holds, as each
/// document takes bytes of its own.
pub open spec fn composed_stream(input: Seq<u8>, docs: Seq<Document>, failed: bool) -> bool {
    &&& docs.len() <= input.len() + 1
    &&& forall|i: int| 0 <= i < docs.len() ==> composed(input, i as nat) == Some(#[trigger] docs[i])
    &&& forall|i: int| 0 <= i < docs.len() ==> (#[trigger] docs[i]).nodes@.len() > 0
    &&& if failed {
        composed(input, docs.len()) is None
    } else {
        docs.len() == input.len() + 1 || composes_end(input, docs.len())
    }
}

/// Converts a composed document into the library's document, field by field, with no float
/// readings yet.
#[verifier::external_body]
fn document_model(d: RawDocument) -> Document {
    Document {
        nodes: d.nodes.into_iter().map(node_model).collect(),
        start_mark: mark_model(d.start_mark),
        end_mark: mark_model(d.end_mark),
    }
}

/// Converts a composed node into the library's node, field by field.
#[verifier::external_body]
fn node_model(n: RawNode) -> Node {
    let data = match n.data {
        RawNodeData::NoNode => NodeData::NoNode,
        RawNodeData::Scalar { value, style } => NodeData::Scalar { value, style: style_model(style), float_reading: None },
        RawNodeData::Sequence { items, .. } => NodeData::Sequence { items },
        RawNodeData::Mapping { pairs, .. } => NodeData::Mapping {
            pairs: pairs.into_iter().map(|p| NodePair { key: p.key, value: p.value }).collect(),
        },
    };
    Node { data, tag: n.tag, start_mark: mark_model(n.start_mark), end_mark: mark_model(n.end_mark) }
}

/// Converts a composer mark into the library's mark.
#[verifier::external_body]
fn mark_model(m: RawMark) -> Mark {
    Mark { index: m.index, line: m.line, column: m.column }
}

/// Converts a composer scalar style into the library's scalar style.
#[verifier::external_body]
fn style_model(s: RawScalarStyle) -> ScalarStyle {
    match s {
        RawScalarStyle::Plain => ScalarStyle::Plain,
        RawScalarStyle::SingleQuoted => ScalarStyle::SingleQuoted,
        RawScalarStyle::DoubleQuoted => ScalarStyle::DoubleQuoted,
        RawScalarStyle::Literal => ScalarStyle::Literal,
        RawScalarStyle::Folded => ScalarStyle::Folded,
        _ => ScalarStyle::Any,
    }
}

/// The first document of a YAML text, or the error that stopped the composer. A text with no
/// document gives an empty document.
pub fn load_document(input: &str) -> (r: Result<Document, ComposerError>)
    ensures
        match composed(input.spec_bytes(), 0) {
            Some(d) => r == Ok::<Document, ComposerError>(d),
            None => r is Err,
        },
{
    let mut bytes: &[u8] = input.as_bytes();
    let mut parser = new_composer(&mut bytes);
    load_next(&mut parser)
}

/// The documents of a YAML text in order, up to the end of the stream or up to the error that
/// stopped the composer, which is handed back beside them. Every document handed back has
/// nodes.
pub fn load_documents(input: &str) -> (r: (Vec<Document>, Option<ComposerError>))
    ensures
        composed_stream(input.spec_bytes(), r.0@, r.1 is Some),
{
    load_documents_from_bytes(input.as_bytes())
}

/// The documents of a YAML text given as bytes (see [`load_documents`]); bytes that are not
/// UTF-8 are the composer's error.
pub fn load_documents_from_bytes(input: &[u8]) -> (r: (Vec<Document>, Option<ComposerError>))
    ensures
        composed_stream(input@, r.0@, r.1 is Some),
{
    let mut bytes: &[u8] = input;
    let len = input.len();
    let mut parser = new_composer(&mut bytes);
    let mut documents: Vec<Document> = Vec::new();
    let mut remaining: usize = len;
    loop
        invariant
            len == input@.len(),
            composer_input(parser) == input@,
            composer_loads(parser) == documents@.len(),
            documents@.len() + remaining == len,
            forall|i: int| 0 <= i < documents@.len() ==> composed(input@, i as nat) == Some(#[trigger] documents@[i]),
            forall|i: int| 0 <= i < documents@.len() ==> (#[trigger] documents@[i]).nodes@.len() > 0,
        decreases remaining,
    {
        proof {
            assert forall|j: nat| j < composer_loads(parser) implies (#[trigger] composed(composer_input(parser), j)) is Some by {
                assert(composed(input@, j as int as nat) == Some(documents@[j as int]));
            }
        }
        let ghost before = documents@;
        match load_next(&mut parser) {
            Ok(document) => {
                if document.nodes.len() == 0 {
                    return (documents, None);
                }
                documents.push(document);
                proof {
                    assert forall|i: int| 0 <= i < documents@.len() implies composed(input@, i as nat) == Some(#[trigger] documents@[i]) by {
                        if i < before.len() {
                            assert(documents@[i] == before[i]);
                        }
                    }
                }
            },
            Err(err) => {
                return (documents, Some(err));
            },
        }
        if remaining == 0 {
            return (documents, None);
        }
        remaining = remaining - 1;
    }
}

/// The model of the values and errors of built documents.
pub open spec fn built_documents_model(v: Seq<(Spanned<crate::value::Value>, Vec<ParseError>)>) -> Seq<(Spanned<ValueModel>, Seq<ParseErrorModel>)> {
    Seq::new(v.len(), |i: int| (spanned_model(v[i].0), parse_errors_model(v[i].1@)))
}

/// Building documents one after the other, each with a fresh error list: the first limit that a
/// document goes past, or the values and errors of all.
pub open spec fn documents_built(b: Builder, docs: Seq<Document>) -> Result<Seq<(Spanned<ValueModel>, Seq<ParseErrorModel>)>, LimitExceeded>
    decreases docs.len(),
{
    if docs.len() == 0 {
        Ok(Seq::empty())
    } else {
        match documents_built(b, docs.drop_last()) {
            Err(e) => Err(e),
            Ok(prefix) => {
                let out = document_built(b, docs.last(), Seq::empty());
                match out.result {
                    Ok(v) => Ok(prefix.push((v, out.errors))),
                    Err(e) => Err(e),
                }
            },
        }
    }
}

impl Builder {
    /// The value of a loaded document and its errors; a composer error or a limit that the
    /// document goes past is the error.
    pub fn build_loaded(&self, loaded: Result<Document, ComposerError>) -> (r: Result<(Spanned<crate::value::Value>, Vec<ParseError>), Error>)
        requires
            loaded matches Ok(d) ==> d.well_formed(),
        ensures
            match loaded {
                Err(y) => r == Err::<(Spanned<crate::value::Value>, Vec<ParseError>), Error>(Error::YAML(y)),
                Ok(d) => {
                    let out = document_built(*self, d, Seq::empty());
                    match out.result {
                        Ok(v) => r matches Ok(p) && spanned_model(p.0) == v && parse_errors_model(p.1@) == out.errors,
                        Err(e) => r == Err::<(Spanned<crate::value::Value>, Vec<ParseError>), Error>(Error::LimitExceeded(e)),
                    }
                },
            },
    {
        match loaded {
            Err(y) => Err(Error::YAML(y)),
            Ok(document) => {
                let mut errors: Vec<ParseError> = Vec::new();
                proof {
                    assert(parse_errors_model(errors@) =~= Seq::<ParseErrorModel>::empty());
                }
                match self.from_document(&document, &mut errors) {
                    Ok(v) => Ok((v, errors)),
                    Err(e) => Err(Error::LimitExceeded(e)),
                }
            },
        }
    }

    /// The values and errors of loaded documents, in order; the first limit that a document goes
    /// past is the error, and otherwise the composer error that ended the stream, if any.
    pub fn build_all_loaded(&self, documents: Vec<Document>, failure: Option<ComposerError>) -> (r: Result<Vec<(Spanned<crate::value::Value>, Vec<ParseError>)>, Error>)
        requires
            forall|i: int| 0 <= i < documents@.len() ==> (#[trigger] documents@[i]).well_formed(),
        ensures
            match documents_built(*self, documents@) {
                Err(e) => r == Err::<Vec<(Spanned<crate::value::Value>, Vec<ParseError>)>, Error>(Error::LimitExceeded(e)),
                Ok(all) => match failure {
                    Some(y) => r == Err::<Vec<(Spanned<crate::value::Value>, Vec<ParseError>)>, Error>(Error::YAML(y)),
                    None => r matches Ok(v) && built_documents_model(v@) == all,
                },
            },
    {
        let ghost docs = documents@;
        let mut out: Vec<(Spanned<crate::value::Value>, Vec<ParseError>)> = Vec::new();
        proof {
            assert(docs.take(0) =~= Seq::<Document>::empty());
            assert(built_documents_model(out@) =~= Seq::<(Spanned<ValueModel>, Seq<ParseErrorModel>)>::empty());
        }
        for document in it: documents
            invariant
                it.seq() == docs,
                forall|i: int| 0 <= i < docs.len() ==> (#[trigger] docs[i]).well_formed(),
                documents_built(*self, docs.take(it.index() as int)) == Ok::<Seq<(Spanned<ValueModel>, Seq<ParseErrorModel>)>, LimitExceeded>(built_documents_model(out@)),
        {
            let ghost i = it.index() as int;
            proof {
                assert(docs.take(i + 1).drop_last() =~= docs.take(i));
                assert(docs.take(i + 1).last() == docs[i]);
            }
            let mut errors: Vec<ParseError> = Vec::new();
            proof {
                assert(parse_errors_model(errors@) =~= Seq::<ParseErrorModel>::empty());
            }
            match self.from_document(&document, &mut errors) {
                Ok(v) => {
                    let ghost before = out@;
                    out.push((v, errors));
                    proof {
                        assert(built_documents_model(out@) =~= built_documents_model(before).push(
                            (spanned_model(v), parse_errors_model(errors@)),
                        ));
                    }
                },
                Err(e) => {
                    proof {
                        lemma_documents_built_err(*self, docs, i + 1);
                    }
                    return Err(Error::LimitExceeded(e));
                },
            }
        }
        proof {
            assert(docs.take(docs.len() as int) =~= docs);
        }
        match failure {
            Some(y) => Err(Error::YAML(y)),
            None => Ok(out),
        }
    }
}

/// Once a prefix of the documents fails, so do all the documents.
proof fn lemma_documents_built_err(b: Builder, docs: Seq<Document>, n: int)
    requires
        0 <= n <= docs.len(),
        documents_built(b, docs.take(n)) is Err,
    ensures
        documents_built(b, docs) == documents_built(b, docs.take(n)),
    decreases docs.len() - n,
{
    if n < docs.len() {
        assert(docs.take(n + 1).drop_last() =~= docs.take(n));
        lemma_documents_built_err(b, docs, n + 1);
    } else {
        assert(docs.take(n) =~= docs);
    }
}

/// The value of a document whose build reported no errors; a document with errors gives them
/// all as the error.
pub fn strict(built: Result<(Spanned<crate::value::Value>, Vec<ParseError>), Error>) -> (r: Result<Spanned<crate::value::Value>, Error>)
    ensures
        match built {
            Err(e) => r == Err::<Spanned<crate::value::Value>, Error>(e),
            Ok(p) => if p.1@.len() == 0 {
                r == Ok::<Spanned<crate::value::Value>, Error>(p.0)
            } else {
                r == Err::<Spanned<crate::value::Value>, Error>(Error::Parse(p.1))
            },
        },
{
    match built {
        Err(e) => Err(e),
        Ok((value, errors)) => {
            if errors.len() == 0 {
                Ok(value)
            } else {
                Err(Error::Parse(errors))
            }
        },
    }
}

/// The values of documents whose builds reported no errors; otherwise the errors of all the
/// documents, in order, are the error.
pub fn strict_all(built: Result<Vec<(Spanned<crate::value::Value>, Vec<ParseError>)>, Error>) -> (r: Result<Vec<Spanned<crate::value::Value>>, Error>)
    ensures
        match built {
            Err(e) => r == Err::<Vec<Spanned<crate::value::Value>>, Error>(e),
            Ok(docs) => {
                let errs = docs@.map_values(|p: (Spanned<crate::value::Value>, Vec<ParseError>)| p.1@).flatten();
                if errs.len() == 0 {
                    r matches Ok(vs) && vs@ == docs@.map_values(|p: (Spanned<crate::value::Value>, Vec<ParseError>)| p.0)
                } else {
                    r matches Err(Error::Parse(es)) && es@ == errs
                }
            },
        },
{
    match built {
        Err(e) => Err(e),
        Ok(documents) => {
            let ghost docs = documents@;
            let mut values: Vec<Spanned<crate::value::Value>> = Vec::new();
            let mut errors: Vec<ParseError> = Vec::new();
            for document in it: documents
                invariant
                    it.seq() == docs,
                    values@ == docs.take(it.index() as int).map_values(|p: (Spanned<crate::value::Value>, Vec<ParseError>)| p.0),
                    errors@ == docs.take(it.index() as int).map_values(|p: (Spanned<crate::value::Value>, Vec<ParseError>)| p.1@).flatten(),
            {
                let ghost i = it.index() as int;
                let (value, mut errs) = document;
                proof {
                    let f = |p: (Spanned<crate::value::Value>, Vec<ParseError>)| p.1@;
                    assert(docs.take(i + 1).map_values(f) =~= docs.take(i).map_values(f).push(errs@));
                    docs.take(i).map_values(f).lemma_flatten_push(errs@);
                    assert(docs.take(i + 1).map_values(|p: (Spanned<crate::value::Value>, Vec<ParseError>)| p.0) =~= docs.take(i).map_values(|p: (Spanned<crate::value::Value>, Vec<ParseError>)| p.0).push(value));
                }
                values.push(value);
                errors.append(&mut errs);
            }
            proof {
                assert(docs.take(docs.len() as int) =~= docs);
            }
            if errors.len() == 0 {
                Ok(values)
            } else {
                Err(Error::Parse(errors))
            }
        },
    }
}

} // verus!
