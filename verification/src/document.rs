//! The node graph of one YAML document, as the YAML composer hands it over: nodes in a flat
//! list, containers referring to their children by one-based node index.
use crate::spanned::{Marker, Span};
use vstd::prelude::*;

verus! {

/// A position in the source text as the composer reports it.
#[derive(Copy, Clone, Debug, PartialEq, Eq, Structural)]
pub struct Mark {
    pub index: u64,
    pub line: u64,
    pub column: u64,
}

/// How a scalar was written.
#[derive(Copy, Clone, Debug, PartialEq, Eq, Structural)]
pub enum ScalarStyle {
    Any,
    Plain,
    SingleQuoted,
    DoubleQuoted,
    Literal,
    Folded,
}

/// One key-value pair of a mapping node, as one-based node indices.
#[derive(Copy, Clone, Debug, PartialEq, Eq, Structural)]
pub struct NodePair {
    pub key: i32,
    pub value: i32,
}

/// What a node holds.
#[derive(Clone, Debug)]
pub enum NodeData {
    NoNode,
    /// A scalar. `float_reading` is the bit pattern of the binary64 value that the text, without
    /// one leading `+`, denotes when read as a decimal float, if it denotes one.
    Scalar { value: String, style: ScalarStyle, float_reading: Option<u64> },
    Sequence { items: Vec<i32> },
    Mapping { pairs: Vec<NodePair> },
}

/// A node of the document graph.
#[derive(Clone, Debug)]
pub struct Node {
    pub data: NodeData,
    pub tag: Option<String>,
    pub start_mark: Mark,
    pub end_mark: Mark,
}

/// A composed YAML document. An empty node list marks the end of the stream.
#[derive(Clone, Debug)]
pub struct Document {
    pub nodes: Vec<Node>,
    pub start_mark: Mark,
    pub end_mark: Mark,
}

/// The marker of a mark, if its three numbers fit in `usize`.
pub open spec fn mark_marker(m: Mark) -> Option<Marker> {
    if m.index <= usize::MAX && m.line <= usize::MAX && m.column <= usize::MAX {
        Some(Marker { byte_index: m.index as usize, line: m.line as usize, column: m.column as usize })
    } else {
        None
    }
}

/// The span between two marks; an end point that does not fit in `usize` is unknown.
pub open spec fn marks_span(start: Mark, end: Mark) -> Span {
    Span { start: mark_marker(start), end: mark_marker(end) }
}

impl Mark {
    /// The marker of this mark, if its numbers fit in `usize` (see [`mark_marker`]).
    pub fn to_marker(&self) -> (r: Option<Marker>)
        ensures
            r == mark_marker(*self),
    {
        if self.index <= usize::MAX as u64 && self.line <= usize::MAX as u64 && self.column
            <= usize::MAX as u64 {
            Some(
                Marker {
                    byte_index: self.index as usize,
                    line: self.line as usize,
                    column: self.column as usize,
                },
            )
        } else {
            None
        }
    }
}

/// Whether `r` names a node of a document with `len` nodes.
pub open spec fn node_ref_ok(r: i32, len: int) -> bool {
    1 <= r <= len
}

/// Whether both references of a pair name nodes of a document with `len` nodes.
pub open spec fn pair_ok(p: NodePair, len: int) -> bool {
    node_ref_ok(p.key, len) && node_ref_ok(p.value, len)
}

/// A node whose references name nodes of a document with `len` nodes and whose tag, if any, is
/// not empty.
pub open spec fn node_well_formed(n: Node, len: int) -> bool {
    &&& (n.tag matches Some(t) ==> t@.len() > 0)
    &&& match n.data {
        NodeData::Sequence { items } => forall|k: int|
            0 <= k < items@.len() ==> node_ref_ok(#[trigger] items@[k], len),
        NodeData::Mapping { pairs } => forall|k: int|
            0 <= k < pairs@.len() ==> pair_ok(#[trigger] pairs@[k], len),
        _ => true,
    }
}

impl Node {
    /// The span of the node.
    pub open spec fn spec_span(self) -> Span {
        marks_span(self.start_mark, self.end_mark)
    }

    /// The span of the node.
    pub fn span(&self) -> (s: Span)
        ensures
            s == self.spec_span(),
    {
        Span { start: self.start_mark.to_marker(), end: self.end_mark.to_marker() }
    }
}

impl Document {
    /// Every reference between nodes names a node of the document, and no tag is empty.
    pub open spec fn well_formed(&self) -> bool {
        forall|i: int|
            0 <= i < self.nodes@.len() ==> node_well_formed(
                #[trigger] self.nodes@[i],
                self.nodes@.len() as int,
            )
    }

    /// The node that a one-based reference names.
    pub open spec fn node_at(&self, r: i32) -> Node {
        self.nodes@[r - 1]
    }

    /// The span of the whole document.
    pub open spec fn spec_span(&self) -> Span {
        marks_span(self.start_mark, self.end_mark)
    }

    /// The span of the whole document.
    pub fn span(&self) -> (s: Span)
        ensures
            s == self.spec_span(),
    {
        Span { start: self.start_mark.to_marker(), end: self.end_mark.to_marker() }
    }

    /// Whether the document is well formed (see [`Document::well_formed`]).
    pub fn is_well_formed(&self) -> (r: bool)
        ensures
            r == self.well_formed(),
    {
        let len = self.nodes.len();
        let mut i: usize = 0;
        while i < len
            invariant
                i <= len == self.nodes@.len(),
                forall|j: int| 0 <= j < i ==> node_well_formed(#[trigger] self.nodes@[j], len as int),
            decreases len - i,
        {
            if !node_is_well_formed(&self.nodes[i], len) {
                return false;
            }
            i = i + 1;
        }
        true
    }
}

/// Whether `r` names a node of a document with `len` nodes.
fn ref_is_ok(r: i32, len: usize) -> (b: bool)
    ensures
        b == node_ref_ok(r, len as int),
{
    1 <= r && (r as usize) <= len
}

/// Exec form of [`node_well_formed`].
#[verifier::loop_isolation(false)]
fn node_is_well_formed(node: &Node, len: usize) -> (r: bool)
    ensures
        r == node_well_formed(*node, len as int),
{
    let tag_ok = match &node.tag {
        Some(t) => !t.as_str().is_empty(),
        None => true,
    };
    if !tag_ok {
        return false;
    }
    match &node.data {
        NodeData::Sequence { items } => {
            let mut k: usize = 0;
            while k < items.len()
                invariant
                    k <= items@.len(),
                    forall|t: int| 0 <= t < k ==> node_ref_ok(#[trigger] items@[t], len as int),
                decreases items.len() - k,
            {
                let r = items[k];
                if !ref_is_ok(r, len) {
                    assert(!node_ref_ok(items@[k as int], len as int));
                    return false;
                }
                k = k + 1;
            }
            true
        },
        NodeData::Mapping { pairs } => {
            let mut k: usize = 0;
            while k < pairs.len()
                invariant
                    k <= pairs@.len(),
                    forall|t: int| 0 <= t < k ==> pair_ok(#[trigger] pairs@[t], len as int),
                decreases pairs.len() - k,
            {
                let p = pairs[k];
                assert(p == pairs@[k as int]);
                if !ref_is_ok(p.key, len) || !ref_is_ok(p.value, len) {
                    assert(!pair_ok(pairs@[k as int], len as int));
                    return false;
                }
                assert(pair_ok(pairs@[k as int], len as int));
                k = k + 1;
            }
            true
        },
        _ => true,
    }
}

} // verus!
