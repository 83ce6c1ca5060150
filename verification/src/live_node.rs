//! The node stream: a document as a flat sequence of nodes, in which open and
//! close markers delimit scopes and an index is the only address.

use vstd::prelude::*;
use crate::live_float::LiveFloat;
use crate::live_id::{LiveFileId, LiveId, LiveType};

verus! {

/// What a node holds: a scalar, or a marker that opens or closes a scope.
#[derive(Debug)]
pub enum LiveValue {
    /// No value.
    Null,
    Str(String),
    Bool(bool),
    Int(i64),
    Float(LiveFloat),
    Color(u32),
    Id(LiveId),
    /// The body of a function, kept as the stretch of source text that
    /// holds it, from the byte at `start` up to the byte at `end`.
    Dsl { start: u32, end: u32 },
    /// Opens an array; its elements follow, up to the matching `Close`.
    Array,
    /// Opens an object; its fields follow, up to the matching `Close`.
    Object,
    /// Opens an object made as a copy of the object named.
    Clone(LiveId),
    /// Opens an instance of a runtime type.
    Class { live_type: LiveType },
    /// Closes the scope that the nearest unclosed open marker began.
    Close,
}

impl LiveValue {
    pub open spec fn spec_is_open(&self) -> bool {
        self is Array || self is Object || self is Clone || self is Class
    }

    /// Whether the value opens a scope.
    #[verifier::when_used_as_spec(spec_is_open)]
    pub fn is_open(&self) -> (r: bool)
        ensures
            r == self.spec_is_open(),
    {
        match self {
            LiveValue::Array => true,
            LiveValue::Object => true,
            LiveValue::Clone(_) => true,
            LiveValue::Class { .. } => true,
            _ => false,
        }
    }

    pub open spec fn spec_is_close(&self) -> bool {
        self is Close
    }

    /// Whether the value closes a scope.
    #[verifier::when_used_as_spec(spec_is_close)]
    pub fn is_close(&self) -> (r: bool)
        ensures
            r == self.spec_is_close(),
    {
        match self {
            LiveValue::Close => true,
            _ => false,
        }
    }

    pub open spec fn spec_is_array(&self) -> bool {
        self is Array
    }

    /// Whether the value opens an array.
    #[verifier::when_used_as_spec(spec_is_array)]
    pub fn is_array(&self) -> (r: bool)
        ensures
            r == self.spec_is_array(),
    {
        match self {
            LiveValue::Array => true,
            _ => false,
        }
    }

    pub open spec fn spec_is_structy_type(&self) -> bool {
        self is Object || self is Clone || self is Class
    }

    /// Whether the value opens a scope of named fields.
    #[verifier::when_used_as_spec(spec_is_structy_type)]
    pub fn is_structy_type(&self) -> (r: bool)
        ensures
            r == self.spec_is_structy_type(),
    {
        match self {
            LiveValue::Object => true,
            LiveValue::Clone(_) => true,
            LiveValue::Class { .. } => true,
            _ => false,
        }
    }
}

/// Where a node came from in its source, and how it was written there.
#[derive(Clone, Copy, Debug, PartialEq, Eq, Structural)]
pub struct LiveNodeOrigin {
    pub file_id: LiveFileId,
    pub line: u32,
    pub column: u32,
    /// Set where the name was written with a prefix that marks it as an
    /// override of an instance, in place of a field of the object.
    pub has_prefix: bool,
}

impl LiveNodeOrigin {
    /// The origin of a node that no source holds.
    pub fn empty() -> (r: LiveNodeOrigin)
        ensures
            r == (LiveNodeOrigin { file_id: LiveFileId(0), line: 0, column: 0, has_prefix: false }),
    {
        LiveNodeOrigin { file_id: LiveFileId(0), line: 0, column: 0, has_prefix: false }
    }

    /// The origin of a node written at a place of a file.
    pub fn from_position(file_id: LiveFileId, line: u32, column: u32) -> (r: LiveNodeOrigin)
        ensures
            r == (LiveNodeOrigin { file_id, line, column, has_prefix: false }),
    {
        LiveNodeOrigin { file_id, line, column, has_prefix: false }
    }

    /// The same origin with the prefix mark set as given.
    pub fn with_node_has_prefix(self, has_prefix: bool) -> (r: LiveNodeOrigin)
        ensures
            r == (LiveNodeOrigin { has_prefix, ..self }),
    {
        LiveNodeOrigin { has_prefix, ..self }
    }

    pub open spec fn spec_node_has_prefix(&self) -> bool {
        self.has_prefix
    }

    /// Whether the name was written with the prefix of an instance override.
    #[verifier::when_used_as_spec(spec_node_has_prefix)]
    pub fn node_has_prefix(&self) -> (r: bool)
        ensures
            r == self.has_prefix,
    {
        self.has_prefix
    }
}

/// One node of a document.
#[derive(Debug)]
pub struct LiveNode {
    pub origin: LiveNodeOrigin,
    pub id: LiveId,
    pub value: LiveValue,
}

/// What a node value holds, as a mathematical value: a string is the
/// sequence of its characters.
pub enum LiveValueView {
    Null,
    Str(Seq<char>),
    Bool(bool),
    Int(i64),
    Float(LiveFloat),
    Color(u32),
    Id(LiveId),
    Dsl { start: u32, end: u32 },
    Array,
    Object,
    Clone(LiveId),
    Class { live_type: LiveType },
    Close,
}

impl View for LiveValue {
    type V = LiveValueView;

    open spec fn view(&self) -> LiveValueView {
        match self {
            LiveValue::Null => LiveValueView::Null,
            LiveValue::Str(s) => LiveValueView::Str(s@),
            LiveValue::Bool(v) => LiveValueView::Bool(*v),
            LiveValue::Int(v) => LiveValueView::Int(*v),
            LiveValue::Float(v) => LiveValueView::Float(*v),
            LiveValue::Color(v) => LiveValueView::Color(*v),
            LiveValue::Id(v) => LiveValueView::Id(*v),
            LiveValue::Dsl { start, end } => LiveValueView::Dsl { start: *start, end: *end },
            LiveValue::Array => LiveValueView::Array,
            LiveValue::Object => LiveValueView::Object,
            LiveValue::Clone(v) => LiveValueView::Clone(*v),
            LiveValue::Class { live_type } => LiveValueView::Class { live_type: *live_type },
            LiveValue::Close => LiveValueView::Close,
        }
    }
}

/// What a node holds, as a mathematical value.
pub struct LiveNodeView {
    pub origin: LiveNodeOrigin,
    pub id: LiveId,
    pub value: LiveValueView,
}

impl View for LiveNode {
    type V = LiveNodeView;

    open spec fn view(&self) -> LiveNodeView {
        LiveNodeView { origin: self.origin, id: self.id, value: self.value@ }
    }
}

/// What the nodes of a stream hold.
pub open spec fn nodes_view(nodes: Seq<LiveNode>) -> Seq<LiveNodeView> {
    Seq::new(nodes.len(), |i: int| nodes[i]@)
}

/// The index just past the value that starts at `index`: `index + 1` for a
/// scalar, the index after the matching close for an open marker. `None` where
/// no complete value starts there.
pub open spec fn node_end(nodes: Seq<LiveNode>, index: int) -> Option<int>
    decreases nodes.len() - index, 0nat,
{
    if index < 0 || index >= nodes.len() {
        None
    } else if nodes[index].value.is_close() {
        None
    } else if nodes[index].value.is_open() {
        scope_end(nodes, index + 1)
    } else {
        Some(index + 1)
    }
}

/// The index just past the close of the scope whose remaining children start
/// at `index`: complete values follow one another from `index` up to a close.
pub open spec fn scope_end(nodes: Seq<LiveNode>, index: int) -> Option<int>
    decreases nodes.len() - index, 1nat,
{
    if index < 0 || index >= nodes.len() {
        None
    } else if nodes[index].value.is_close() {
        Some(index + 1)
    } else {
        match node_end(nodes, index) {
            Some(next) => if index < next <= nodes.len() {
                scope_end(nodes, next)
            } else {
                None
            },
            None => None,
        }
    }
}

/// A value's end lies after its start and within the stream, a scope has at
/// least its two markers, and the node before the end of a scope is its close.
pub proof fn lemma_node_end_bounds(nodes: Seq<LiveNode>, index: int)
    ensures
        node_end(nodes, index) matches Some(end) ==> index < end <= nodes.len() && (
        nodes[index].value.is_open() ==> end >= index + 2 && nodes[end - 1].value.is_close()),
        scope_end(nodes, index) matches Some(end) ==> index < end <= nodes.len() && nodes[end
            - 1].value.is_close(),
    decreases nodes.len() - index,
{
    if 0 <= index < nodes.len() && !nodes[index].value.is_close() {
        if nodes[index].value.is_open() {
            lemma_node_end_bounds(nodes, index + 1);
        }
        match node_end(nodes, index) {
            Some(next) => {
                if index < next <= nodes.len() {
                    lemma_node_end_bounds(nodes, next);
                }
            },
            None => {},
        }
    }
}

} // verus!
