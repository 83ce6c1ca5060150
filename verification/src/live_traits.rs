//! What an object implements to be made from a document and reconciled with
//! one: construction, application of a node range, and the hooks around it.

use vstd::prelude::*;
use vstd::string::StringSliceAdditionalSpecFns;
use crate::cx::{Cx, CxAction};
use crate::event::{Event, LiveEditEvent};
use crate::live_error::{
    error_at, extends, lemma_extends_add, lemma_extends_refl, lemma_extends_trans, LiveError,
    LiveErrorKind,
};
use crate::live_id::{module_id_of_bytes, LiveFileId, LiveId, LiveModuleId, LiveType};
use crate::live_node::{lemma_node_end_bounds, node_end, scope_end, LiveNode, LiveValue};
use crate::live_node_slice::{
    checked_skip_node, child_by_name, children_of, lemma_scope_step, named_sibling, siblings_from,
    skip_node,
};
use crate::live_registry::{LivePtr, LiveRegistry};

verus! {

/// Why a node range is applied.
#[derive(Clone, Copy, Debug, PartialEq, Eq, Structural)]
pub enum ApplyFrom {
    /// The object is made from a document.
    NewFromDoc { file_id: LiveFileId },
    /// The object's document was registered anew.
    UpdateFromDoc { file_id: LiveFileId },
    /// A live edit changed values of the object's document.
    LiveEdit,
    /// The object is made without a document.
    New,
    /// An animation writes the object's fields.
    Animate,
    /// The object's animation state is set up.
    StateInit,
    /// The caller applies a stream of its own.
    ApplyOver,
}

impl ApplyFrom {
    pub open spec fn spec_is_from_doc(&self) -> bool {
        self is NewFromDoc || self is UpdateFromDoc
    }

    /// Whether the nodes come from a registered document.
    #[verifier::when_used_as_spec(spec_is_from_doc)]
    pub fn is_from_doc(&self) -> (r: bool)
        ensures
            r == self.spec_is_from_doc(),
    {
        match self {
            Self::NewFromDoc { .. } => true,
            Self::UpdateFromDoc { .. } => true,
            _ => false,
        }
    }

    pub open spec fn spec_file_id(&self) -> Option<LiveFileId> {
        match self {
            Self::NewFromDoc { file_id } => Some(*file_id),
            Self::UpdateFromDoc { file_id } => Some(*file_id),
            _ => None,
        }
    }

    /// The document that the nodes come from, if they come from one.
    #[verifier::when_used_as_spec(spec_file_id)]
    pub fn file_id(&self) -> (r: Option<LiveFileId>)
        ensures
            r == self.spec_file_id(),
    {
        match self {
            Self::NewFromDoc { file_id } => Some(*file_id),
            Self::UpdateFromDoc { file_id } => Some(*file_id),
            _ => None,
        }
    }
}

/// How a field of a type takes part in reconciliation.
#[derive(Clone, Copy, Debug, PartialEq, Eq, Structural)]
pub enum LiveFieldKind {
    Calc,
    Live,
    LiveOption,
}

/// One field of a type.
pub struct LiveTypeField {
    pub id: LiveId,
    pub live_type_info: LiveTypeInfo,
    pub live_field_kind: LiveFieldKind,
}

/// What the registry is told of a type: its identifier, its name, the module
/// that declares it, and its fields.
pub struct LiveTypeInfo {
    pub live_type: LiveType,
    pub name: LiveId,
    pub module_id: LiveModuleId,
    pub fields: Vec<LiveTypeField>,
}

/// A piece of document source as it stands in a program: where it stands,
/// its text, and the types that it names.
pub struct LiveBody {
    pub file: String,
    pub module: String,
    pub line: usize,
    pub column: usize,
    pub code: String,
    pub live_type_infos: Vec<LiveTypeInfo>,
}

/// The diagnostics for a node that no field takes: none where the name is
/// capitalised or was written with a prefix, since such a node declares a
/// class or overrides an instance; else one.
pub open spec fn unknown_field_errors(nodes: Seq<LiveNode>, index: int) -> Seq<LiveError> {
    if !nodes[index].id.is_capitalised() && !nodes[index].origin.node_has_prefix() {
        seq![error_at(LiveErrorKind::NoMatchingField, nodes, index)]
    } else {
        Seq::empty()
    }
}

/// The hooks that reconciliation calls on an object.
///
/// Every hook may record diagnostics and never removes one. A hook that
/// returns an index returns the end of the value that it was handed.
pub trait LiveHook: Sized {
    /// Called for a node that no field of the object takes. As it stands it
    /// records the diagnostic for such a node, if one is due, and skips the node.
    fn apply_value_unknown(
        &mut self,
        cx: &mut Cx,
        _apply_from: ApplyFrom,
        index: usize,
        nodes: &[LiveNode],
    ) -> (next: usize)
        requires
            node_end(nodes@, index as int) is Some,
        ensures
            node_end(nodes@, index as int) == Some(next as int),
            extends(final(cx).apply_errors@, old(cx).apply_errors@),
        default_ensures
            *final(self) == *old(self),
            final(cx).errors_added(old(cx), unknown_field_errors(nodes@, index as int)),
    {
        proof {
            lemma_node_end_bounds(nodes@, index as int);
            lemma_extends_add(
                old(cx).apply_errors@,
                unknown_field_errors(nodes@, index as int),
            );
        }
        if !nodes[index].id.is_capitalised() && !nodes[index].origin.node_has_prefix() {
            cx.apply_error_no_matching_field(index, nodes);
        }
        skip_node(nodes, index)
    }

    /// Called for a node that stands for an instance of the object's own.
    /// As it stands it skips the node.
    fn apply_value_instance(
        &mut self,
        _cx: &mut Cx,
        _apply_from: ApplyFrom,
        index: usize,
        nodes: &[LiveNode],
    ) -> (next: usize)
        requires
            node_end(nodes@, index as int) is Some,
        ensures
            node_end(nodes@, index as int) == Some(next as int),
            extends(final(_cx).apply_errors@, old(_cx).apply_errors@),
        default_ensures
            *final(self) == *old(self),
            *final(_cx) == *old(_cx),
    {
        proof {
            lemma_extends_refl(old(_cx).apply_errors@);
        }
        skip_node(nodes, index)
    }

    /// Called before the fields are matched. Where it returns an index, the
    /// hook has taken the whole value, and reconciliation goes on behind it.
    fn before_apply(
        &mut self,
        _cx: &mut Cx,
        _apply_from: ApplyFrom,
        _index: usize,
        _nodes: &[LiveNode],
    ) -> (r: Option<usize>)
        requires
            node_end(_nodes@, _index as int) is Some,
        ensures
            r matches Some(next) ==> node_end(_nodes@, _index as int) == Some(next as int),
            extends(final(_cx).apply_errors@, old(_cx).apply_errors@),
        default_ensures
            r is None,
            *final(self) == *old(self),
            *final(_cx) == *old(_cx),
    {
        proof {
            lemma_extends_refl(old(_cx).apply_errors@);
        }
        None
    }

    /// Called once the whole value was applied. As it stands it does
    /// nothing.
    fn after_apply(
        &mut self,
        _cx: &mut Cx,
        _apply_from: ApplyFrom,
        _index: usize,
        _nodes: &[LiveNode],
    )
        requires
            node_end(_nodes@, _index as int) is Some,
        ensures
            extends(final(_cx).apply_errors@, old(_cx).apply_errors@),
        default_ensures
            *final(self) == *old(self),
            *final(_cx) == *old(_cx),
    {
        proof {
            lemma_extends_refl(old(_cx).apply_errors@);
        }
    }

    /// Called after `after_apply`: it calls `after_new_from_doc`, once,
    /// where the object was just made from a document, and does nothing
    /// else. For every other reason to apply, a live edit among them, it
    /// leaves the object and the context as they are.
    fn after_apply_from(&mut self, cx: &mut Cx, apply_from: ApplyFrom)
        ensures
            extends(final(cx).apply_errors@, old(cx).apply_errors@),
            match apply_from {
                ApplyFrom::NewFromDoc { .. } => exists|s: &mut Self, c: &mut Cx|
                    {
                        &&& *s == *old(self)
                        &&& *c == *old(cx)
                        &&& #[trigger] call_ensures(Self::after_new_from_doc, (s, c), ())
                        &&& *final(self) == *final(s)
                        &&& *final(cx) == *final(c)
                    },
                _ => *final(self) == *old(self) && *final(cx) == *old(cx),
            },
    {
        proof {
            lemma_extends_refl(old(cx).apply_errors@);
        }
        match apply_from {
            ApplyFrom::NewFromDoc { .. } => self.after_new_from_doc(cx),
            _ => (),
        }
    }

    /// Called once in the life of an object that is made from a document,
    /// and never when the object is reconciled later. As it stands it does
    /// nothing.
    fn after_new_from_doc(&mut self, _cx: &mut Cx)
        ensures
            extends(final(_cx).apply_errors@, old(_cx).apply_errors@),
        default_ensures
            *final(self) == *old(self),
            *final(_cx) == *old(_cx),
    {
        proof {
            lemma_extends_refl(old(_cx).apply_errors@);
        }
    }

    /// Called once an object is made, with or without a document. As it
    /// stands it does nothing.
    fn after_new(&mut self, _cx: &mut Cx)
        ensures
            extends(final(_cx).apply_errors@, old(_cx).apply_errors@),
        default_ensures
            *final(self) == *old(self),
            *final(_cx) == *old(_cx),
    {
        proof {
            lemma_extends_refl(old(_cx).apply_errors@);
        }
    }
}

/// Writing an object out as a node value.
pub trait ToLiveValue {
    fn to_live_value(&self) -> LiveValue;
}

/// Applying one child of an object's node range: an object hands the node to
/// the field of its name, or to `apply_value_unknown` where it has none.
pub trait LiveApplyValue {
    fn apply_value(
        &mut self,
        cx: &mut Cx,
        from: ApplyFrom,
        index: usize,
        nodes: &[LiveNode],
    ) -> (next: usize)
        requires
            node_end(nodes@, index as int) is Some,
        ensures
            node_end(nodes@, index as int) == Some(next as int),
            extends(final(cx).apply_errors@, old(cx).apply_errors@),
    ;
}

/// The document that a live edit event has for the object named `id`: why it
/// is applied, the index of the object's node, and the stream.
pub open spec fn live_edit_target(registry: &LiveRegistry, event: &Event, id: LiveId) -> Option<
    (ApplyFrom, int, Seq<LiveNode>),
> {
    match event {
        Event::LiveEdit(LiveEditEvent::ReparseDocument) => match registry.main_module {
            Some(file_id) => {
                let nodes = registry.live_files@[file_id.to_index() as int].nodes@;
                match named_sibling(nodes, 1, id) {
                    Some(index) => Some((ApplyFrom::UpdateFromDoc { file_id }, index, nodes)),
                    None => None,
                }
            },
            None => None,
        },
        Event::LiveEdit(LiveEditEvent::Mutation { apply, .. }) => match named_sibling(apply@, 1, id) {
            Some(index) => Some((ApplyFrom::LiveEdit, index, apply@)),
            None => None,
        },
        _ => None,
    }
}

/// What the platform is asked for before a live edit event is applied.
pub open spec fn live_edit_actions_before(event: &Event) -> Seq<CxAction> {
    match event {
        Event::LiveEdit(LiveEditEvent::ReparseDocument) => seq![CxAction::FlushDrawShaders],
        Event::LiveEdit(LiveEditEvent::Mutation { tokens, live_ptrs, .. }) => seq![
            CxAction::UpdateShaderTables { tokens: tokens@.len() as usize, live_ptrs: live_ptrs@.len() as usize },
        ],
        _ => Seq::empty(),
    }
}

/// What the platform is asked for after a live edit event was applied.
pub open spec fn live_edit_actions_after(event: &Event) -> Seq<CxAction> {
    match event {
        Event::LiveEdit(LiveEditEvent::ReparseDocument) => seq![CxAction::RedrawAll],
        _ => Seq::empty(),
    }
}

/// Reconciling an object with a node range.
pub trait LiveApply: LiveHook {
    /// What `apply` makes of the object and the context: it holds of the
    /// values before and after every call. A type says here what its
    /// `apply` does; as it stands, nothing is said.
    open spec fn applied(
        &self,
        cx: &Cx,
        from: ApplyFrom,
        index: int,
        nodes: Seq<LiveNode>,
        after: &Self,
        cx_after: &Cx,
    ) -> bool {
        true
    }

    /// Applies the value that starts at `index` to the object, and returns
    /// the index just past the value. What cannot be applied is recorded as
    /// a diagnostic and skipped.
    fn apply(&mut self, cx: &mut Cx, from: ApplyFrom, index: usize, nodes: &[LiveNode]) -> (next:
        usize)
        requires
            node_end(nodes@, index as int) is Some,
        ensures
            node_end(nodes@, index as int) == Some(next as int),
            extends(final(cx).apply_errors@, old(cx).apply_errors@),
            old(self).applied(old(cx), from, index as int, nodes@, final(self), final(cx)),
    ;

    /// Applies a stream of the caller's own from its first node.
    fn apply_over(&mut self, cx: &mut Cx, nodes: &[LiveNode])
        requires
            node_end(nodes@, 0) is Some,
        ensures
            extends(final(cx).apply_errors@, old(cx).apply_errors@),
            old(self).applied(old(cx), ApplyFrom::ApplyOver, 0, nodes@, final(self), final(cx)),
    {
        self.apply(cx, ApplyFrom::ApplyOver, 0, nodes);
    }

    /// Brings the object named `id` up to date with a live edit. After a
    /// reparse the object is applied from the main module, as updated from
    /// its document; after a mutation it is applied from the stream of the
    /// changed values, as a live edit. Where the document holds no object of
    /// that name, the object stays as it is. Other events change nothing.
    fn handle_live_edit_event(
        &mut self,
        cx: &mut Cx,
        registry: &LiveRegistry,
        event: &Event,
        id: LiveId,
    )
        requires
            registry.wf(),
            event.wf(),
        ensures
            extends(final(cx).apply_errors@, old(cx).apply_errors@),
            exists|c1: Cx, c2: Cx|
                {
                    &&& #[trigger] c1.actions_added(old(cx), live_edit_actions_before(event))
                    &&& match live_edit_target(registry, event, id) {
                        Some((from, index, nodes)) => old(self).applied(
                            &c1,
                            from,
                            index,
                            nodes,
                            final(self),
                            &c2,
                        ),
                        None => *final(self) == *old(self) && c2 == c1,
                    }
                    &&& #[trigger] final(cx).actions_added(&c2, live_edit_actions_after(event))
                },
    {
        match event {
            Event::LiveEdit(live_edit_event) => {
                match live_edit_event {
                    LiveEditEvent::ReparseDocument => {
                        cx.flush_draw_shaders();
                        let ghost c1 = *cx;
                        if let Some(file_id) = registry.main_module {
                            let file = registry.file_id_to_file(file_id);
                            let nodes = file.nodes.as_slice();
                            if let Some(index) = child_by_name(nodes, 0, id) {
                                self.apply(cx, ApplyFrom::UpdateFromDoc { file_id }, index, nodes);
                            }
                        }
                        let ghost c2 = *cx;
                        cx.redraw_all();
                        proof {
                            assert(c1.actions_added(old(cx), live_edit_actions_before(event)));
                            assert(cx.actions_added(&c2, live_edit_actions_after(event)));
                            lemma_extends_refl(c1.apply_errors@);
                            assert(extends(c2.apply_errors@, c1.apply_errors@));
                        }
                    },
                    LiveEditEvent::Mutation { tokens, apply, live_ptrs } => {
                        cx.update_shader_tables_with_live_edit(tokens.len(), live_ptrs.len());
                        let ghost c1 = *cx;
                        let nodes = apply.as_slice();
                        if let Some(index) = child_by_name(nodes, 0, id) {
                            self.apply(cx, ApplyFrom::LiveEdit, index, nodes);
                        }
                        let ghost c2 = *cx;
                        proof {
                            assert(c1.actions_added(old(cx), live_edit_actions_before(event)));
                            assert(cx.actions_added(&c2, live_edit_actions_after(event)));
                            lemma_extends_refl(c1.apply_errors@);
                            assert(extends(c2.apply_errors@, c1.apply_errors@));
                        }
                    },
                }
            },
            _ => {
                proof {
                    let c = *cx;
                    assert(c.actions_added(old(cx), live_edit_actions_before(event)));
                    assert(cx.actions_added(&c, live_edit_actions_after(event)));
                    lemma_extends_refl(cx.apply_errors@);
                }
            },
        }
    }
}

/// Applies the value that starts at `index` to a target, if a complete
/// value starts there. In a stream that is malformed at `index` nothing is
/// applied: the target and the context stay as they are, and `None` is
/// returned.
pub fn checked_apply<T: LiveApply>(
    target: &mut T,
    cx: &mut Cx,
    from: ApplyFrom,
    index: usize,
    nodes: &[LiveNode],
) -> (r: Option<usize>)
    ensures
        extends(final(cx).apply_errors@, old(cx).apply_errors@),
        match r {
            Some(next) => node_end(nodes@, index as int) == Some(next as int)
                && old(target).applied(
                old(cx),
                from,
                index as int,
                nodes@,
                final(target),
                final(cx),
            ),
            None => node_end(nodes@, index as int) is None && *final(target) == *old(target)
                && *final(cx) == *old(cx),
        },
{
    match checked_skip_node(nodes, index) {
        Some(_) => Some(target.apply(cx, from, index, nodes)),
        None => {
            proof {
                lemma_extends_refl(cx.apply_errors@);
            }
            None
        },
    }
}

/// Whether a pointer can be followed: it is valid, and a value starts at its
/// index.
pub open spec fn ptr_has_node(registry: &LiveRegistry, live_ptr: LivePtr) -> bool {
    registry.generation_valid(live_ptr) && node_end(
        registry.live_files@[live_ptr.file_id.to_index() as int].nodes@,
        live_ptr.index as int,
    ) is Some
}

/// The diagnostic for an object without fields: one, where the value at
/// `index` is no longer than an open marker and its close.
pub open spec fn empty_object_errors(nodes: Seq<LiveNode>, index: int) -> Seq<LiveError> {
    if node_end(nodes, index).unwrap() <= index + 2 {
        seq![error_at(LiveErrorKind::EmptyObject, nodes, index)]
    } else {
        Seq::empty()
    }
}

/// What `from_ptr_impl` makes of a target: with a stale pointer nothing, else
/// what applying the pointer's node as new from its document makes of it,
/// and then the diagnostic for an object without fields, if one is due.
pub open spec fn applied_from_ptr<T: LiveApply>(
    target: &T,
    cx: &Cx,
    registry: &LiveRegistry,
    live_ptr: LivePtr,
    after: &T,
    cx_after: &Cx,
) -> bool {
    let nodes = registry.live_files@[live_ptr.file_id.to_index() as int].nodes@;
    if ptr_has_node(registry, live_ptr) {
        exists|c: Cx| #[trigger]
            target.applied(
                cx,
                ApplyFrom::NewFromDoc { file_id: live_ptr.file_id },
                live_ptr.index as int,
                nodes,
                after,
                &c,
            ) && cx_after.errors_added(&c, empty_object_errors(nodes, live_ptr.index as int))
    } else {
        *after == *target && *cx_after == *cx
    }
}

/// Applies the node that a pointer names to a target, as new from the
/// pointer's document. A pointer that is stale, or at whose index no value
/// starts, changes nothing and records nothing.
pub fn from_ptr_impl<T: LiveApply>(
    target: &mut T,
    cx: &mut Cx,
    registry: &LiveRegistry,
    live_ptr: LivePtr,
)
    requires
        registry.wf(),
    ensures
        extends(final(cx).apply_errors@, old(cx).apply_errors@),
        applied_from_ptr(old(target), old(cx), registry, live_ptr, final(target), final(cx)),
{
    match registry.ptr_to_nodes(live_ptr) {
        Some(nodes) => {
            let index: usize = live_ptr.index as usize;
            proof {
                lemma_node_end_bounds(nodes@, index as int);
            }
            let next_index: usize = target.apply(
                cx,
                ApplyFrom::NewFromDoc { file_id: live_ptr.file_id },
                index,
                nodes,
            );
            let ghost c = *cx;
            if next_index - index <= 2 {
                cx.apply_error_empty_object(index, nodes);
            }
            proof {
                assert(cx.errors_added(&c, empty_object_errors(nodes@, index as int)));
                assert(ptr_has_node(registry, live_ptr));
                assert(old(target).applied(
                    old(cx),
                    ApplyFrom::NewFromDoc { file_id: live_ptr.file_id },
                    live_ptr.index as int,
                    nodes@,
                    target,
                    &c,
                ));
                assert(exists|c2: Cx| #[trigger]
                    old(target).applied(
                        old(cx),
                        ApplyFrom::NewFromDoc { file_id: live_ptr.file_id },
                        live_ptr.index as int,
                        nodes@,
                        target,
                        &c2,
                    ) && cx.errors_added(&c2, empty_object_errors(nodes@, live_ptr.index as int)));
                assert(applied_from_ptr(old(target), old(cx), registry, live_ptr, target, cx));
                lemma_extends_add(c.apply_errors@, empty_object_errors(nodes@, index as int));
                lemma_extends_trans(cx.apply_errors@, c.apply_errors@, old(cx).apply_errors@);
            }
        },
        None => {
            proof {
                lemma_extends_refl(cx.apply_errors@);
                assert(!ptr_has_node(registry, live_ptr));
            }
        },
    }
}

/// The object named `id` at the top of the document of a module: its
/// document, the index of its node, and the stream.
pub open spec fn module_target(registry: &LiveRegistry, module_id: LiveModuleId, id: LiveId)
    -> Option<(LiveFileId, int, Seq<LiveNode>)> {
    match registry.spec_module_id_to_file_id(module_id) {
        Some(file) => {
            let nodes = registry.live_files@[file].nodes@;
            match named_sibling(nodes, 1, id) {
                Some(index) => Some((LiveFileId(file as u16), index, nodes)),
                None => None,
            }
        },
        None => None,
    }
}

/// Making an object, bare or from a document.
pub trait LiveNew: LiveApply {
    /// What `new` makes, and what it makes of the context. A type says here
    /// what its `new` does; as it stands, nothing is said.
    open spec fn made(cx: &Cx, made: &Self, cx_after: &Cx) -> bool {
        true
    }

    /// A new object with the values that its type starts with.
    fn new(cx: &mut Cx) -> (r: Self)
        ensures
            Self::made(old(cx), &r, final(cx)),
            extends(final(cx).apply_errors@, old(cx).apply_errors@),
    ;

    /// Tells the context of the type, once, before objects are made.
    fn live_register(_cx: &mut Cx)
        ensures
            extends(final(_cx).apply_errors@, old(_cx).apply_errors@),
        default_ensures
            *final(_cx) == *old(_cx),
    {
        proof {
            lemma_extends_refl(old(_cx).apply_errors@);
        }
    }

    fn live_type_info(cx: &mut Cx) -> (r: LiveTypeInfo)
        ensures
            extends(final(cx).apply_errors@, old(cx).apply_errors@),
    ;

    /// A new object with the value at `index` applied to it.
    fn new_apply(cx: &mut Cx, from: ApplyFrom, index: usize, nodes: &[LiveNode]) -> (r: Self)
        requires
            node_end(nodes@, index as int) is Some,
        ensures
            extends(final(cx).apply_errors@, old(cx).apply_errors@),
            exists|o: Self, c: Cx| #[trigger]
                Self::made(old(cx), &o, &c) && o.applied(
                    &c,
                    from,
                    index as int,
                    nodes@,
                    &r,
                    final(cx),
                ),
    {
        let mut ret = Self::new(cx);
        let ghost o = ret;
        let ghost c = *cx;
        ret.apply(cx, from, index, nodes);
        proof {
            assert(Self::made(old(cx), &o, &c) && o.applied(
                &c,
                from,
                index as int,
                nodes@,
                &ret,
                cx,
            ));
            lemma_extends_trans(cx.apply_errors@, c.apply_errors@, old(cx).apply_errors@);
        }
        ret
    }

    /// A new object with the value at `index` applied to it; `index` moves
    /// past the value.
    fn new_apply_mut_index(cx: &mut Cx, from: ApplyFrom, index: &mut usize, nodes: &[LiveNode]) -> (r:
        Self)
        requires
            node_end(nodes@, *old(index) as int) is Some,
        ensures
            node_end(nodes@, *old(index) as int) == Some(*final(index) as int),
            extends(final(cx).apply_errors@, old(cx).apply_errors@),
            exists|o: Self, c: Cx| #[trigger]
                Self::made(old(cx), &o, &c) && o.applied(
                    &c,
                    from,
                    *old(index) as int,
                    nodes@,
                    &r,
                    final(cx),
                ),
    {
        let mut ret = Self::new(cx);
        let ghost o = ret;
        let ghost c = *cx;
        *index = ret.apply(cx, from, *index, nodes);
        proof {
            assert(Self::made(old(cx), &o, &c) && o.applied(
                &c,
                from,
                *old(index) as int,
                nodes@,
                &ret,
                cx,
            ));
            lemma_extends_trans(cx.apply_errors@, c.apply_errors@, old(cx).apply_errors@);
        }
        ret
    }

    /// A new object with the node that a pointer names applied to it. With
    /// no pointer, or a stale one, the object stays as `new` made it.
    fn new_from_ptr(cx: &mut Cx, registry: &LiveRegistry, live_ptr: Option<LivePtr>) -> (r: Self)
        requires
            registry.wf(),
        ensures
            extends(final(cx).apply_errors@, old(cx).apply_errors@),
            exists|o: Self, c: Cx| #[trigger]
                Self::made(old(cx), &o, &c) && match live_ptr {
                    Some(live_ptr) => applied_from_ptr(&o, &c, registry, live_ptr, &r, final(cx)),
                    None => r == o && *final(cx) == c,
                },
    {
        let mut ret = Self::new(cx);
        let ghost o = ret;
        let ghost c = *cx;
        if let Some(live_ptr) = live_ptr {
            from_ptr_impl(&mut ret, cx, registry, live_ptr);
        }
        proof {
            assert(Self::made(old(cx), &o, &c) && match live_ptr {
                Some(live_ptr) => applied_from_ptr(&o, &c, registry, live_ptr, &ret, cx),
                None => ret == o && *cx == c,
            });
            lemma_extends_refl(c.apply_errors@);
            lemma_extends_trans(cx.apply_errors@, c.apply_errors@, old(cx).apply_errors@);
        }
        ret
    }

    /// Makes the module named by `path` the main module, if it is registered,
    /// and makes the object named `id` of that module.
    fn new_as_main_module(cx: &mut Cx, registry: &mut LiveRegistry, path: &str, id: LiveId) -> (r:
        Option<Self>)
        requires
            old(registry).wf(),
        ensures
            final(registry).wf(),
            final(registry).live_files == old(registry).live_files,
            match old(registry).spec_module_id_to_file_id(module_id_of_bytes(path.spec_bytes())) {
                Some(file) => final(registry).main_module == Some(LiveFileId(file as u16)),
                None => final(registry).main_module == old(registry).main_module,
            },
            extends(final(cx).apply_errors@, old(cx).apply_errors@),
            match module_target(old(registry), module_id_of_bytes(path.spec_bytes()), id) {
                Some((file_id, index, nodes)) => r matches Some(made) && exists|o: Self, c: Cx|
                    #[trigger] Self::made(old(cx), &o, &c) && o.applied(
                        &c,
                        ApplyFrom::NewFromDoc { file_id },
                        index,
                        nodes,
                        &made,
                        final(cx),
                    ),
                None => r is None && *final(cx) == *old(cx),
            },
    {
        let module_id = LiveModuleId::from_str(path);
        registry.set_main_module(module_id);
        Self::new_from_module(cx, registry, path, id)
    }

    /// The object named `id` at the top of the document of the module named
    /// by `path`, made new and applied from that document; `None` where the
    /// module is not registered or has no such object.
    fn new_from_module(cx: &mut Cx, registry: &LiveRegistry, path: &str, id: LiveId) -> (r: Option<
        Self,
    >)
        requires
            registry.wf(),
        ensures
            extends(final(cx).apply_errors@, old(cx).apply_errors@),
            match module_target(registry, module_id_of_bytes(path.spec_bytes()), id) {
                Some((file_id, index, nodes)) => r matches Some(made) && exists|o: Self, c: Cx|
                    #[trigger] Self::made(old(cx), &o, &c) && o.applied(
                        &c,
                        ApplyFrom::NewFromDoc { file_id },
                        index,
                        nodes,
                        &made,
                        final(cx),
                    ),
                None => r is None && *final(cx) == *old(cx),
            },
    {
        let module_id = LiveModuleId::from_str(path);
        if let Some(file_id) = registry.module_id_to_file_id(module_id) {
            let file = registry.file_id_to_file(file_id);
            let nodes = file.nodes.as_slice();
            if let Some(index) = child_by_name(nodes, 0, id) {
                let mut ret = Self::new(cx);
                let ghost o = ret;
                let ghost c = *cx;
                ret.apply(cx, ApplyFrom::NewFromDoc { file_id }, index, nodes);
                proof {
                    assert(Self::made(old(cx), &o, &c) && o.applied(
                        &c,
                        ApplyFrom::NewFromDoc { file_id },
                        index as int,
                        nodes@,
                        &ret,
                        cx,
                    ));
                    lemma_extends_trans(cx.apply_errors@, c.apply_errors@, old(cx).apply_errors@);
                }
                return Some(ret);
            }
        }
        proof {
            lemma_extends_refl(cx.apply_errors@);
        }
        None
    }
}

/// Applies the value at `start_index` to an object, field by field, and
/// returns the index just past the value.
///
/// The object's `before_apply` is called first, and may take the whole
/// value: nothing else is called then. Else a value that opens no object is
/// recorded as a diagnostic and skipped. For a value that does, every child
/// is handed to the object's `apply_value`, in the order of the stream and
/// each on what the call before it left; then `after_apply` is called, and
/// then `after_apply_from`. What the object and the context are afterwards
/// is what these calls leave, and no others.
pub fn apply_struct<T: LiveApplyValue + LiveHook>(
    target: &mut T,
    cx: &mut Cx,
    apply_from: ApplyFrom,
    start_index: usize,
    nodes: &[LiveNode],
) -> (next: usize)
    requires
        node_end(nodes@, start_index as int) is Some,
    ensures
        node_end(nodes@, start_index as int) == Some(next as int),
        extends(final(cx).apply_errors@, old(cx).apply_errors@),
        exists|t: &mut T, c: &mut Cx, taken: Option<usize>|
            {
                &&& *t == *old(target)
                &&& *c == *old(cx)
                &&& #[trigger] call_ensures(
                    T::before_apply,
                    (t, c, apply_from, start_index, nodes),
                    taken,
                )
                &&& if taken is Some {
                    *final(target) == *final(t) && *final(cx) == *final(c)
                } else if !nodes@[start_index as int].value.is_structy_type() {
                    *final(target) == *final(t) && final(cx).errors_added(
                        final(c),
                        seq![error_at(LiveErrorKind::WrongTypeForStruct, nodes@, start_index as int)],
                    )
                } else {
                    exists|steps: Seq<(T, Cx)>, a: &mut T, ac: &mut Cx, f: &mut T, fc: &mut Cx|
                        {
                            let children = children_of(nodes@, start_index as int);
                            &&& #[trigger] steps.len() == children.len() + 1
                            &&& steps[0] == (*final(t), *final(c))
                            &&& forall|i: int|
                                #![trigger children[i]]
                                0 <= i < children.len() ==> exists|v: &mut T, vc: &mut Cx|
                                    {
                                        &&& (*v, *vc) == steps[i]
                                        &&& #[trigger] call_ensures(
                                            T::apply_value,
                                            (v, vc, apply_from, children[i] as usize, nodes),
                                            node_end(nodes@, children[i]).unwrap() as usize,
                                        )
                                        &&& (*final(v), *final(vc)) == steps[i + 1]
                                    }
                            &&& (*a, *ac) == steps.last()
                            &&& #[trigger] call_ensures(
                                T::after_apply,
                                (a, ac, apply_from, start_index, nodes),
                                (),
                            )
                            &&& *f == *final(a)
                            &&& *fc == *final(ac)
                            &&& #[trigger] call_ensures(T::after_apply_from, (f, fc, apply_from), ())
                            &&& *final(target) == *final(f)
                            &&& *final(cx) == *final(fc)
                        }
                }
            },
{
    let len: usize = nodes.len();
    proof {
        lemma_node_end_bounds(nodes@, start_index as int);
        lemma_node_end_bounds(nodes@, start_index + 1);
    }
    if let Some(next) = target.before_apply(cx, apply_from, start_index, nodes) {
        return next;
    }
    let ghost c0 = *cx;
    let ghost t0 = *target;
    if !nodes[start_index].value.is_structy_type() {
        cx.apply_error_wrong_type_for_struct(start_index, nodes);
        proof {
            lemma_extends_add(
                c0.apply_errors@,
                seq![error_at(LiveErrorKind::WrongTypeForStruct, nodes@, start_index as int)],
            );
            lemma_extends_trans(cx.apply_errors@, c0.apply_errors@, old(cx).apply_errors@);
        }
        return skip_node(nodes, start_index);
    }
    let mut index: usize = start_index + 1;
    let ghost children = children_of(nodes@, start_index as int);
    let ghost mut done: Seq<int> = Seq::empty();
    let ghost mut steps: Seq<(T, Cx)> = seq![(t0, c0)];
    while index < len && !nodes[index].value.is_close()
        invariant
            len == nodes@.len(),
            start_index < index < len,
            scope_end(nodes@, index as int) is Some,
            scope_end(nodes@, index as int) == node_end(nodes@, start_index as int),
            extends(cx.apply_errors@, old(cx).apply_errors@),
            done + siblings_from(nodes@, index as int) == children,
            steps.len() == done.len() + 1,
            steps[0] == (t0, c0),
            steps.last() == (*target, *cx),
            forall|i: int|
                #![trigger done[i]]
                0 <= i < done.len() ==> exists|v: &mut T, vc: &mut Cx|
                    {
                        &&& (*v, *vc) == steps[i]
                        &&& #[trigger] call_ensures(
                            T::apply_value,
                            (v, vc, apply_from, done[i] as usize, nodes),
                            node_end(nodes@, done[i]).unwrap() as usize,
                        )
                        &&& (*final(v), *final(vc)) == steps[i + 1]
                    },
        decreases len - index,
    {
        proof {
            lemma_scope_step(nodes@, index as int);
            lemma_node_end_bounds(nodes@, node_end(nodes@, index as int).unwrap());
        }
        let ghost c = *cx;
        let ghost at = index as int;
        let ghost steps_before = steps;
        let ghost done_before = done;
        index = target.apply_value(cx, apply_from, index, nodes);
        proof {
            lemma_extends_trans(cx.apply_errors@, c.apply_errors@, old(cx).apply_errors@);
            assert(siblings_from(nodes@, at) == seq![at] + siblings_from(nodes@, index as int));
            assert((done + seq![at]) + siblings_from(nodes@, index as int) =~= done + (seq![at]
                + siblings_from(nodes@, index as int)));
            done = done + seq![at];
            steps = steps.push((*target, *cx));
            assert forall|i: int| #![trigger done[i]] 0 <= i < done.len() implies exists|
                v: &mut T,
                vc: &mut Cx,
            |
                {
                    &&& (*v, *vc) == steps[i]
                    &&& #[trigger] call_ensures(
                        T::apply_value,
                        (v, vc, apply_from, done[i] as usize, nodes),
                        node_end(nodes@, done[i]).unwrap() as usize,
                    )
                    &&& (*final(v), *final(vc)) == steps[i + 1]
                } by {
                if i < done_before.len() {
                    assert(done[i] == done_before[i]);
                    assert(steps[i] == steps_before[i]);
                    assert(steps[i + 1] == steps_before[i + 1]);
                } else {
                    assert(done[i] == at);
                    assert(steps[i] == steps_before.last());
                    assert(steps[i + 1] == (*target, *cx));
                    assert(node_end(nodes@, at).unwrap() as usize == index);
                    assert(exists|v: &mut T, vc: &mut Cx|
                        {
                            &&& (*v, *vc) == steps_before.last()
                            &&& #[trigger] call_ensures(
                                T::apply_value,
                                (v, vc, apply_from, at as usize, nodes),
                                index,
                            )
                            &&& (*final(v), *final(vc)) == (*target, *cx)
                        });
                }
            }
        }
    }
    index += 1;
    proof {
        assert(siblings_from(nodes@, index - 1) =~= Seq::<int>::empty());
        assert(done + Seq::<int>::empty() =~= done);
        assert(steps.len() == children.len() + 1);
    }
    let ghost c1 = *cx;
    target.after_apply(cx, apply_from, start_index, nodes);
    let ghost c2 = *cx;
    target.after_apply_from(cx, apply_from);
    proof {
        lemma_extends_trans(c2.apply_errors@, c1.apply_errors@, old(cx).apply_errors@);
        lemma_extends_trans(cx.apply_errors@, c2.apply_errors@, old(cx).apply_errors@);
    }
    index
}

impl<T> LiveHook for Option<T> where T: LiveApply + LiveNew {
}

impl<T> LiveApply for Option<T> where T: LiveApply + LiveNew {
    /// An object that is there is applied to; else a new one is made,
    /// applied to, and kept.
    open spec fn applied(
        &self,
        cx: &Cx,
        from: ApplyFrom,
        index: int,
        nodes: Seq<LiveNode>,
        after: &Self,
        cx_after: &Cx,
    ) -> bool {
        after matches Some(inner_after) && match self {
            Some(inner) => inner.applied(cx, from, index, nodes, inner_after, cx_after),
            None => exists|o: T, c: Cx| #[trigger]
                T::made(cx, &o, &c) && o.applied(&c, from, index, nodes, inner_after, cx_after),
        }
    }

    fn apply(&mut self, cx: &mut Cx, from: ApplyFrom, index: usize, nodes: &[LiveNode]) -> (next:
        usize) {
        if let Some(v) = self {
            v.apply(cx, from, index, nodes)
        } else {
            let mut inner = T::new(cx);
            let ghost o = inner;
            let ghost c = *cx;
            let next: usize = inner.apply(cx, from, index, nodes);
            proof {
                assert(T::made(old(cx), &o, &c) && o.applied(
                    &c,
                    from,
                    index as int,
                    nodes@,
                    &inner,
                    cx,
                ));
                lemma_extends_trans(cx.apply_errors@, c.apply_errors@, old(cx).apply_errors@);
            }
            *self = Some(inner);
            next
        }
    }
}

impl<T> LiveNew for Option<T> where T: LiveApply + LiveNew {
    open spec fn made(cx: &Cx, made: &Self, cx_after: &Cx) -> bool {
        made is None && *cx_after == *cx
    }

    fn new(_cx: &mut Cx) -> (r: Self) {
        proof {
            lemma_extends_refl(_cx.apply_errors@);
        }
        Self::None
    }

    fn new_apply(cx: &mut Cx, from: ApplyFrom, index: usize, nodes: &[LiveNode]) -> (r: Self) {
        let mut ret = Self::None;
        ret.apply(cx, from, index, nodes);
        proof {
            let o: Self = Self::None;
            let c: Cx = *old(cx);
            assert(Self::made(old(cx), &o, &c) && o.applied(
                &c,
                from,
                index as int,
                nodes@,
                &ret,
                cx,
            ));
        }
        ret
    }

    fn live_type_info(_cx: &mut Cx) -> (r: LiveTypeInfo) {
        T::live_type_info(_cx)
    }
}

} // verus!
