//! Live edits: a change of one value of a registered document, written into
//! the document in place, and the small document that carries the change to
//! the live objects.

use vstd::prelude::*;
use crate::event::{LiveEditEvent, LiveTokenId};
use crate::live_id::LiveId;
use crate::live_node::{node_end, scope_end, LiveNode, LiveNodeOrigin, LiveValue};
use crate::live_node_slice::is_document;
use crate::live_registry::{LivePtr, LiveRegistry};

verus! {

/// Why a value was not edited in place.
#[derive(Clone, Copy, Debug, PartialEq, Eq, Structural)]
pub enum LiveEditError {
    /// The pointer is stale: its document was registered anew.
    Stale,
    /// The edit changes the structure of the document, or a value inside an
    /// array: the document has to be registered anew.
    NeedsReparse,
}

/// The indices of the open markers of the scopes that the position `at` lies
/// in, outermost first: what a stack of open scopes holds after the nodes
/// before `at` were read.
pub open spec fn scope_stack(nodes: Seq<LiveNode>, at: int) -> Seq<int>
    decreases at,
{
    if at <= 0 || at > nodes.len() {
        Seq::empty()
    } else {
        let before = scope_stack(nodes, at - 1);
        if nodes[at - 1].value.is_open() {
            before.push(at - 1)
        } else if nodes[at - 1].value.is_close() && before.len() > 0 {
            before.drop_last()
        } else {
            before
        }
    }
}

/// Whether a value is a scalar: it neither opens nor closes a scope.
pub open spec fn is_scalar_value(value: LiveValue) -> bool {
    !value.is_open() && !value.is_close()
}

/// Whether the value at `index` can be edited in place: it is a scalar, and
/// so is the new value, and every scope that it lies in is an object.
pub open spec fn editable(nodes: Seq<LiveNode>, index: int, value: LiveValue) -> bool {
    &&& 0 <= index < nodes.len()
    &&& is_scalar_value(nodes[index].value)
    &&& is_scalar_value(value)
    &&& scope_stack(nodes, index).len() > 0
    &&& forall|k: int|
        0 <= k < scope_stack(nodes, index).len() ==> nodes[#[trigger] scope_stack(
            nodes,
            index,
        )[k]].value.is_structy_type()
}

/// The document that carries an edit of the value at `index`: the open
/// markers of the scopes that the value lies in, outermost first, then the
/// node with its new value, then one close for each scope.
pub open spec fn edit_delta(nodes: Seq<LiveNode>, index: int, value: LiveValue) -> Seq<LiveNode> {
    let stack = scope_stack(nodes, index);
    Seq::new(
        2 * stack.len() + 1,
        |i: int|
            if 0 <= i < stack.len() {
                nodes[stack[i]]
            } else if i == stack.len() {
                LiveNode { origin: nodes[index].origin, id: nodes[index].id, value }
            } else {
                LiveNode {
                    origin: LiveNodeOrigin {
                        file_id: crate::live_id::LiveFileId(0),
                        line: 0,
                        column: 0,
                        has_prefix: false,
                    },
                    id: LiveId(0),
                    value: LiveValue::Close,
                }
            },
    )
}

/// The indices of the open markers of the scopes that `index` lies in,
/// outermost first.
pub fn scopes_around(nodes: &[LiveNode], index: usize) -> (r: Vec<usize>)
    requires
        index <= nodes@.len(),
    ensures
        r@.map_values(|i: usize| i as int) == scope_stack(nodes@, index as int),
        forall|k: int| 0 <= k < r@.len() ==> r@[k] < index,
{
    let mut stack: Vec<usize> = Vec::new();
    let mut at: usize = 0;
    proof {
        assert(stack@.map_values(|i: usize| i as int) =~= scope_stack(nodes@, 0));
    }
    while at < index
        invariant
            at <= index <= nodes@.len(),
            stack@.map_values(|i: usize| i as int) == scope_stack(nodes@, at as int),
            forall|k: int| 0 <= k < stack@.len() ==> stack@[k] < at,
        decreases index - at,
    {
        let ghost before = stack@.map_values(|i: usize| i as int);
        if nodes[at].value.is_open() {
            stack.push(at);
            proof {
                assert(stack@.map_values(|i: usize| i as int) =~= before.push(at as int));
            }
        } else if nodes[at].value.is_close() {
            if stack.len() > 0 {
                stack.pop();
                proof {
                    assert(stack@.map_values(|i: usize| i as int) =~= before.drop_last());
                }
            }
        }
        at += 1;
    }
    stack
}

/// A stream made of open markers, one scalar, and as many closes as open
/// markers is one value: each open marker ends just past its close.
proof fn lemma_nested_ends(delta: Seq<LiveNode>, depth: int, k: int)
    requires
        0 <= k <= depth,
        delta.len() == 2 * depth + 1,
        forall|i: int| 0 <= i < depth ==> (#[trigger] delta[i]).value.is_open(),
        is_scalar_value(delta[depth].value),
        forall|i: int| depth < i <= 2 * depth ==> (#[trigger] delta[i]).value.is_close(),
    ensures
        node_end(delta, k) == Some(2 * depth - k + 1),
    decreases depth - k,
{
    if k < depth {
        lemma_nested_ends(delta, depth, k + 1);
        assert(delta[k].value.is_open());
        assert(delta[2 * depth - k].value.is_close());
        assert(scope_end(delta, 2 * depth - k) == Some(2 * depth - k + 1));
        if k + 1 < depth {
            assert(delta[k + 1].value.is_open());
        }
        assert(scope_end(delta, k + 1) == scope_end(delta, 2 * depth - k));
    }
}

/// Replacing one scalar of a stream by another moves no end of any value.
proof fn lemma_same_structure(a: Seq<LiveNode>, b: Seq<LiveNode>, at: int)
    requires
        a.len() == b.len(),
        forall|i: int|
            0 <= i < a.len() ==> (#[trigger] a[i]).value.is_open() == b[i].value.is_open() && a[i].value.is_close()
                == b[i].value.is_close(),
    ensures
        node_end(a, at) == node_end(b, at),
        scope_end(a, at) == scope_end(b, at),
    decreases a.len() - at, 1nat,
{
    if 0 <= at < a.len() {
        assert(a[at].value.is_open() == b[at].value.is_open());
        if a[at].value.is_close() {
        } else {
            if a[at].value.is_open() {
                lemma_same_structure(a, b, at + 1);
            }
            match node_end(a, at) {
                Some(next) => {
                    if at < next <= a.len() {
                        lemma_same_structure(a, b, next);
                    }
                },
                None => {},
            }
        }
    }
}

impl LiveRegistry {
    /// `after` is this registry with the value of node `index` of document
    /// `file` replaced by `value`, and nothing else changed: not the
    /// generation, so that every pointer stays as valid as it was.
    pub open spec fn edited(&self, file: int, index: int, value: LiveValue, after: &LiveRegistry) -> bool {
        &&& 0 <= file < self.live_files@.len()
        &&& after.live_files@.len() == self.live_files@.len()
        &&& after.main_module == self.main_module
        &&& forall|i: int|
            0 <= i < self.live_files@.len() && i != file ==> after.live_files@[i]
                == self.live_files@[i]
        &&& after.live_files@[file].module_id == self.live_files@[file].module_id
        &&& after.live_files@[file].generation == self.live_files@[file].generation
        &&& after.live_files@[file].nodes@ == self.live_files@[file].nodes@.update(
            index,
            LiveNode {
                origin: self.live_files@[file].nodes@[index].origin,
                id: self.live_files@[file].nodes@[index].id,
                value,
            },
        )
    }

    /// Writes a new value into the node that a pointer names, in place, and
    /// returns the event that carries the change to the live objects. The
    /// document keeps its generation. Only a scalar inside objects can be
    /// edited so, and only by a scalar: any other edit is refused, as is one
    /// through a stale pointer, and then nothing changes.
    #[verifier::loop_isolation(false)]
    pub fn live_edit(&mut self, live_ptr: LivePtr, token: LiveTokenId, value: LiveValue) -> (r: Result<
        LiveEditEvent,
        LiveEditError,
    >)
        requires
            old(self).wf(),
        ensures
            final(self).wf(),
            !old(self).generation_valid(live_ptr) ==> (r matches Err(e) && e == LiveEditError::Stale),
            old(self).generation_valid(live_ptr) && !editable(
                old(self).live_files@[live_ptr.file_id.to_index() as int].nodes@,
                live_ptr.index as int,
                value,
            ) ==> (r matches Err(e) && e == LiveEditError::NeedsReparse),
            r is Err ==> *final(self) == *old(self),
            old(self).generation_valid(live_ptr) && editable(
                old(self).live_files@[live_ptr.file_id.to_index() as int].nodes@,
                live_ptr.index as int,
                value,
            ) ==> {
                &&& old(self).edited(
                    live_ptr.file_id.to_index() as int,
                    live_ptr.index as int,
                    value,
                    final(self),
                )
                &&& r matches Ok(LiveEditEvent::Mutation { tokens, apply, live_ptrs })
                &&& tokens@ == seq![token]
                &&& live_ptrs@ == seq![live_ptr]
                &&& is_document(apply@)
                &&& apply@.len() == edit_delta(
                    old(self).live_files@[live_ptr.file_id.to_index() as int].nodes@,
                    live_ptr.index as int,
                    value,
                ).len()
                &&& forall|i: int|
                    0 <= i < apply@.len() ==> (#[trigger] apply@[i])@ == edit_delta(
                        old(self).live_files@[live_ptr.file_id.to_index() as int].nodes@,
                        live_ptr.index as int,
                        value,
                    )[i]@
            },
    {
        if !self.generation_valid(live_ptr) {
            return Err(LiveEditError::Stale);
        }
        let file: usize = live_ptr.file_id.to_index();
        let index: usize = live_ptr.index as usize;
        let ghost doc = self.live_files@[file as int].nodes@;
        let len: usize = self.live_files[file].nodes.len();
        if index >= len {
            return Err(LiveEditError::NeedsReparse);
        }
        if value.is_open() || value.is_close() {
            return Err(LiveEditError::NeedsReparse);
        }
        if self.live_files[file].nodes[index].value.is_open()
            || self.live_files[file].nodes[index].value.is_close() {
            return Err(LiveEditError::NeedsReparse);
        }
        let stack = scopes_around(self.live_files[file].nodes.as_slice(), index);
        let depth: usize = stack.len();
        if depth == 0 {
            return Err(LiveEditError::NeedsReparse);
        }
        let ghost spec_stack = scope_stack(doc, index as int);
        // the open markers of the scopes around the value
        let mut apply: Vec<LiveNode> = Vec::new();
        let mut k: usize = 0;
        while k < depth
            invariant
                k <= depth == stack@.len(),
                self.wf(),
                file < self.live_files@.len(),
                self.live_files@[file as int].nodes@ == doc,
                *self == *old(self),
                index < doc.len(),
                stack@.map_values(|i: usize| i as int) == spec_stack,
                spec_stack == scope_stack(doc, index as int),
                forall|j: int| 0 <= j < stack@.len() ==> stack@[j] < index,
                apply@.len() == k,
                forall|i: int|
                    0 <= i < k ==> (#[trigger] apply@[i])@ == doc[spec_stack[i]]@
                        && doc[spec_stack[i]].value.is_structy_type(),
            decreases depth - k,
        {
            let at: usize = stack[k];
            proof {
                assert(stack@.map_values(|i: usize| i as int)[k as int] == at);
            }
            let node = &self.live_files[file].nodes[at];
            proof {
                assert(*node == doc[at as int]);
                assert(spec_stack[k as int] == at);
            }
            let copy = match &node.value {
                LiveValue::Object => LiveValue::Object,
                LiveValue::Clone(id) => LiveValue::Clone(*id),
                LiveValue::Class { live_type } => LiveValue::Class { live_type: *live_type },
                _ => {
                    proof {
                        assert(!doc[scope_stack(doc, index as int)[k as int]].value.is_structy_type());
                    }
                    return Err(LiveEditError::NeedsReparse);
                },
            };
            let ghost before = apply@;
            apply.push(LiveNode { origin: node.origin, id: node.id, value: copy });
            proof {
                assert(apply@[k as int]@ == doc[spec_stack[k as int]]@);
                assert forall|i: int| 0 <= i < k + 1 implies (#[trigger] apply@[i])@
                    == doc[spec_stack[i]]@ && doc[spec_stack[i]].value.is_structy_type() by {
                    if i < k {
                        assert(apply@[i] == before[i]);
                    }
                }
            }
            k += 1;
        }
        let ghost delta = edit_delta(doc, index as int, value);
        proof {
            assert forall|j: int| 0 <= j < scope_stack(doc, index as int).len() implies doc[#[trigger] scope_stack(
                doc,
                index as int,
            )[j]].value.is_structy_type() by {
                assert(apply@[j]@ == doc[spec_stack[j]]@);
            }
            assert(editable(doc, index as int, value));
        }
        let origin = self.live_files[file].nodes[index].origin;
        let id = self.live_files[file].nodes[index].id;
        let (in_doc, in_delta) = clone_scalar(value);
        apply.push(LiveNode { origin, id, value: in_delta });
        let mut closes: usize = 0;
        while closes < depth
            invariant
                closes <= depth,
                depth == spec_stack.len(),
                apply@.len() == depth + 1 + closes,
                delta == edit_delta(doc, index as int, value),
                delta.len() == 2 * depth + 1,
                forall|i: int| 0 <= i < apply@.len() ==> (#[trigger] apply@[i])@ == delta[i]@,
            decreases depth - closes,
        {
            apply.push(
                LiveNode { origin: LiveNodeOrigin::empty(), id: LiveId(0), value: LiveValue::Close },
            );
            closes += 1;
        }
        proof {
            assert forall|i: int| 0 <= i < depth implies (#[trigger] apply@[i]).value.is_open() by {
                assert(apply@[i]@ == delta[i]@);
            }
            assert(apply@[depth as int]@ == delta[depth as int]@);
            assert forall|i: int| depth < i <= 2 * depth implies (#[trigger] apply@[i]).value.is_close() by {
                assert(apply@[i]@ == delta[i]@);
            }
            lemma_nested_ends(apply@, depth as int, 0);
            assert(apply@[0]@ == delta[0]@);
        }
        // the value itself, in place
        let ghost old_nodes = self.live_files@[file as int].nodes@;
        self.live_files[file].nodes[index].value = in_doc;
        proof {
            let new_nodes = self.live_files@[file as int].nodes@;
            assert(new_nodes =~= old_nodes.update(
                index as int,
                LiveNode { origin: old_nodes[index as int].origin, id: old_nodes[index as int].id, value },
            ));
            lemma_same_structure(old_nodes, new_nodes, 0);
            assert(is_document(new_nodes));
        }
        let mut tokens: Vec<LiveTokenId> = Vec::new();
        tokens.push(token);
        let mut live_ptrs: Vec<LivePtr> = Vec::new();
        live_ptrs.push(live_ptr);
        Ok(LiveEditEvent::Mutation { tokens, apply, live_ptrs })
    }
}

/// Two copies of a scalar value.
fn clone_scalar(value: LiveValue) -> (r: (LiveValue, LiveValue))
    requires
        is_scalar_value(value),
    ensures
        r.0 == value,
        r.1@ == value@,
{
    let copy = match &value {
        LiveValue::Null => LiveValue::Null,
        LiveValue::Str(s) => LiveValue::Str(s.clone()),
        LiveValue::Bool(v) => LiveValue::Bool(*v),
        LiveValue::Int(v) => LiveValue::Int(*v),
        LiveValue::Float(v) => LiveValue::Float(*v),
        LiveValue::Color(v) => LiveValue::Color(*v),
        LiveValue::Id(v) => LiveValue::Id(*v),
        LiveValue::Dsl { start, end } => LiveValue::Dsl { start: *start, end: *end },
        _ => LiveValue::Null,
    };
    (value, copy)
}

/// A live edit leaves every pointer as valid as it was: the document keeps
/// its generation.
pub proof fn lemma_edit_keeps_pointers(
    before: LiveRegistry,
    after: LiveRegistry,
    file: int,
    index: int,
    value: LiveValue,
    live_ptr: LivePtr,
)
    requires
        before.edited(file, index, value, &after),
    ensures
        after.generation_valid(live_ptr) == before.generation_valid(live_ptr),
{
    let at = live_ptr.file_id.to_index() as int;
    if at < before.live_files@.len() && at != file {
        assert(after.live_files@[at] == before.live_files@[at]);
    }
}

} // verus!
