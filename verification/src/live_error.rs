//! The diagnostics that reconciliation records.

use vstd::prelude::*;
use crate::live_id::LiveId;
use crate::live_node::{LiveNode, LiveNodeOrigin};

verus! {

/// Why a node could not be applied.
#[derive(Clone, Copy, Debug, PartialEq, Eq, Structural)]
pub enum LiveErrorKind {
    /// The object has no field of the node's name.
    NoMatchingField,
    /// The target is an object, the node opens no object.
    WrongTypeForStruct,
    /// The node's value cannot be turned into a value of the target's kind.
    WrongValueType,
    /// The object that a pointer names has no fields.
    EmptyObject,
}

/// One diagnostic: what went wrong, and at which node.
#[derive(Clone, Copy, Debug, PartialEq, Eq, Structural)]
pub struct LiveError {
    pub kind: LiveErrorKind,
    /// The index of the node in its stream.
    pub index: usize,
    /// The name of the node.
    pub id: LiveId,
    pub origin: LiveNodeOrigin,
}

/// The diagnostic of a kind for the node at `index`.
pub open spec fn error_at(kind: LiveErrorKind, nodes: Seq<LiveNode>, index: int) -> LiveError {
    LiveError { kind, index: index as usize, id: nodes[index].id, origin: nodes[index].origin }
}

/// `after` holds all of `before`, in order, and then what came later.
pub open spec fn extends(after: Seq<LiveError>, before: Seq<LiveError>) -> bool {
    before.len() <= after.len() && after.subrange(0, before.len() as int) == before
}

pub proof fn lemma_extends_refl(a: Seq<LiveError>)
    ensures
        extends(a, a),
{
    assert(a.subrange(0, a.len() as int) =~= a);
}

pub proof fn lemma_extends_trans(c: Seq<LiveError>, b: Seq<LiveError>, a: Seq<LiveError>)
    requires
        extends(c, b),
        extends(b, a),
    ensures
        extends(c, a),
{
    assert(c.subrange(0, a.len() as int) =~= b.subrange(0, a.len() as int));
}

pub proof fn lemma_extends_add(a: Seq<LiveError>, added: Seq<LiveError>)
    ensures
        extends(a + added, a),
{
    assert((a + added).subrange(0, a.len() as int) =~= a);
}

} // verus!
