//! The live objects of an application, each with the pointer that it was made
//! from: after a live edit the objects that the edit touches are reconciled
//! again, after a reparse every object is looked up again and brought up to
//! date.

use vstd::prelude::*;
use crate::cx::{Cx, CxAction};
use crate::event::{Event, LiveEditEvent};
use crate::live_data::LiveData;
use crate::live_error::{extends, lemma_extends_refl, lemma_extends_trans};
use crate::live_id::{LiveFileId, LiveId, LiveModuleId};
use crate::live_node::node_end;
use crate::live_node_slice::{checked_skip_node, named_sibling};
use crate::live_registry::{LivePtr, LiveRegistry};
use crate::live_traits::{applied_from_ptr, from_ptr_impl, ApplyFrom, LiveApply};

verus! {

/// A live object, the name under which its module holds it, and the pointer
/// to the node that it was reconciled with last.
pub struct LiveInstance {
    pub module_id: LiveModuleId,
    pub name: LiveId,
    pub live_ptr: LivePtr,
    pub data: LiveData,
}

pub struct LiveInstances {
    pub items: Vec<LiveInstance>,
}

/// Whether a change of the node that `changed` names touches the object made
/// from the node that `object` names: both pointers are valid, they point
/// into the same document, and the changed node lies in the range of the
/// object's node.
pub open spec fn affects(registry: &LiveRegistry, object: LivePtr, changed: LivePtr) -> bool {
    let nodes = registry.live_files@[object.file_id.to_index() as int].nodes@;
    &&& object.file_id == changed.file_id
    &&& registry.generation_valid(object)
    &&& registry.generation_valid(changed)
    &&& node_end(nodes, object.index as int) matches Some(end)
    &&& object.index <= changed.index < end
}

/// Whether a change of one of the nodes that `changed` names touches the
/// object made from the node that `object` names.
pub open spec fn any_affects(registry: &LiveRegistry, object: LivePtr, changed: Seq<LivePtr>) -> bool {
    exists|i: int| 0 <= i < changed.len() && affects(registry, object, #[trigger] changed[i])
}

/// Whether a change of the node that `changed` names touches the object made
/// from the node that `object` names.
pub fn ptr_affects(registry: &LiveRegistry, object: LivePtr, changed: LivePtr) -> (r: bool)
    ensures
        r == affects(registry, object, changed),
{
    if object.file_id.0 != changed.file_id.0 {
        return false;
    }
    if !registry.generation_valid(object) || !registry.generation_valid(changed) {
        return false;
    }
    let doc = registry.ptr_to_doc(object);
    match checked_skip_node(doc.nodes.as_slice(), object.index as usize) {
        Some(end) => object.index <= changed.index && (changed.index as usize) < end,
        None => false,
    }
}

fn is_affected(registry: &LiveRegistry, object: LivePtr, changed: &Vec<LivePtr>) -> (r: bool)
    ensures
        r == any_affects(registry, object, changed@),
{
    let mut i: usize = 0;
    while i < changed.len()
        invariant
            i <= changed@.len(),
            forall|j: int| 0 <= j < i ==> !affects(registry, object, #[trigger] changed@[j]),
        decreases changed@.len() - i,
    {
        if ptr_affects(registry, object, changed[i]) {
            return true;
        }
        i += 1;
    }
    false
}

/// What a live edit that changed the nodes `changed` makes of one live
/// object: an object that the edit touches is reconciled with its node as it
/// stands now; another object stays as it is.
pub open spec fn instance_edited(
    before: &LiveInstance,
    cx: &Cx,
    registry: &LiveRegistry,
    changed: Seq<LivePtr>,
    after: &LiveInstance,
    cx_after: &Cx,
) -> bool {
    &&& after.module_id == before.module_id
    &&& after.name == before.name
    &&& after.live_ptr == before.live_ptr
    &&& if any_affects(registry, before.live_ptr, changed) {
        before.data.applied(
            cx,
            ApplyFrom::LiveEdit,
            before.live_ptr.index as int,
            registry.live_files@[before.live_ptr.file_id.to_index() as int].nodes@,
            &after.data,
            cx_after,
        )
    } else {
        after.data == before.data && *cx_after == *cx
    }
}

/// The pointer to the object named `name` at the top of the document of a
/// module, as the registry makes it now.
pub open spec fn resolved(registry: &LiveRegistry, module_id: LiveModuleId, name: LiveId) -> Option<
    LivePtr,
> {
    match registry.spec_module_id_to_file_id(module_id) {
        Some(file) => match named_sibling(registry.live_files@[file].nodes@, 1, name) {
            Some(index) => if index <= u32::MAX {
                Some(registry.spec_live_ptr(LiveFileId(file as u16), index as u32))
            } else {
                None
            },
            None => None,
        },
        None => None,
    }
}

/// What a reparse makes of one live object: an object that its module still
/// holds under its name gets the pointer to where it stands now, and is
/// reconciled with its node as updated from the document; an object that
/// is not found stays as it is, with its stale pointer.
pub open spec fn instance_updated(
    before: &LiveInstance,
    cx: &Cx,
    registry: &LiveRegistry,
    after: &LiveInstance,
    cx_after: &Cx,
) -> bool {
    &&& after.module_id == before.module_id
    &&& after.name == before.name
    &&& match resolved(registry, before.module_id, before.name) {
        Some(live_ptr) => after.live_ptr == live_ptr && before.data.applied(
            cx,
            ApplyFrom::UpdateFromDoc { file_id: live_ptr.file_id },
            live_ptr.index as int,
            registry.live_files@[live_ptr.file_id.to_index() as int].nodes@,
            &after.data,
            cx_after,
        ),
        None => after.live_ptr == before.live_ptr && after.data == before.data && *cx_after == *cx,
    }
}

/// What a live edit that changed the nodes `changed` makes of the live
/// objects: each in turn is brought up to date, in the order in which the
/// objects are kept, each with the context that the one before it left.
pub open spec fn instances_edited(
    before: Seq<LiveInstance>,
    cx: &Cx,
    registry: &LiveRegistry,
    changed: Seq<LivePtr>,
    after: Seq<LiveInstance>,
    cx_after: &Cx,
) -> bool {
    &&& after.len() == before.len()
    &&& exists|cxs: Seq<Cx>|
        {
            &&& #[trigger] cxs.len() == before.len() + 1
            &&& cxs[0] == *cx
            &&& cxs[before.len() as int] == *cx_after
            &&& forall|k: int|
                0 <= k < before.len() ==> #[trigger] instance_edited(
                    &before[k],
                    &cxs[k],
                    registry,
                    changed,
                    &after[k],
                    &cxs[k + 1],
                )
        }
}

/// What a reparse makes of the live objects: each in turn is looked up and
/// brought up to date, in the order in which the objects are kept, each
/// with the context that the one before it left.
pub open spec fn instances_updated(
    before: Seq<LiveInstance>,
    cx: &Cx,
    registry: &LiveRegistry,
    after: Seq<LiveInstance>,
    cx_after: &Cx,
) -> bool {
    &&& after.len() == before.len()
    &&& exists|cxs: Seq<Cx>|
        {
            &&& #[trigger] cxs.len() == before.len() + 1
            &&& cxs[0] == *cx
            &&& cxs[before.len() as int] == *cx_after
            &&& forall|k: int|
                0 <= k < before.len() ==> #[trigger] instance_updated(
                    &before[k],
                    &cxs[k],
                    registry,
                    &after[k],
                    &cxs[k + 1],
                )
        }
}

impl LiveInstances {
    pub fn new() -> (r: LiveInstances)
        ensures
            r.items@.len() == 0,
    {
        LiveInstances { items: Vec::new() }
    }

    /// Makes the object named `name` of a module from a prototype, and keeps
    /// it: the object is a copy of the prototype with its node applied as new
    /// from the document. Returns the place of the object, or `None`, with
    /// nothing made, where the module holds no object of that name.
    pub fn instantiate(
        &mut self,
        cx: &mut Cx,
        registry: &LiveRegistry,
        proto: &LiveData,
        module_id: LiveModuleId,
        name: LiveId,
    ) -> (r: Option<usize>)
        requires
            registry.wf(),
        ensures
            extends(final(cx).apply_errors@, old(cx).apply_errors@),
            match resolved(registry, module_id, name) {
                Some(live_ptr) => {
                    let made = final(self).items@.last();
                    &&& r == Some(old(self).items@.len() as usize)
                    &&& final(self).items@.len() == old(self).items@.len() + 1
                    &&& final(self).items@.drop_last() == old(self).items@
                    &&& made.module_id == module_id
                    &&& made.name == name
                    &&& made.live_ptr == live_ptr
                    &&& exists|fresh: LiveData| #[trigger]
                        applied_from_ptr(&fresh, old(cx), registry, live_ptr, &made.data, final(cx))
                            && fresh@ == proto@
                },
                None => r is None && *final(self) == *old(self) && *final(cx) == *old(cx),
            },
    {
        proof {
            lemma_extends_refl(cx.apply_errors@);
        }
        match registry.module_id_and_name_to_ptr(module_id, name) {
            Some(live_ptr) => {
                let mut data = proto.clone();
                let ghost fresh = data;
                from_ptr_impl(&mut data, cx, registry, live_ptr);
                let at: usize = self.items.len();
                self.items.push(LiveInstance { module_id, name, live_ptr, data });
                proof {
                    assert(self.items@.drop_last() =~= old(self).items@);
                    assert(applied_from_ptr(&fresh, old(cx), registry, live_ptr, &data, cx));
                }
                Some(at)
            },
            None => None,
        }
    }

    /// Brings the objects up to date with a live edit that changed the nodes
    /// that `changed` names: every object whose node range holds one of
    /// them is reconciled with its node again, as a live edit, in the order
    /// in which the objects are kept; the other objects are not touched.
    pub fn live_edit(&mut self, cx: &mut Cx, registry: &LiveRegistry, changed: &Vec<LivePtr>)
        requires
            registry.wf(),
        ensures
            extends(final(cx).apply_errors@, old(cx).apply_errors@),
            instances_edited(old(self).items@, old(cx), registry, changed@, final(self).items@, final(cx)),
    {
        let ghost mut cxs: Seq<Cx> = seq![*cx];
        let count: usize = self.items.len();
        let mut k: usize = 0;
        proof {
            lemma_extends_refl(cx.apply_errors@);
        }
        while k < count
            invariant
                registry.wf(),
                k <= count == old(self).items@.len(),
                self.items@.len() == count,
                cxs.len() == k + 1,
                cxs[0] == *old(cx),
                cxs[k as int] == *cx,
                extends(cx.apply_errors@, old(cx).apply_errors@),
                forall|j: int| k <= j < count ==> self.items@[j] == old(self).items@[j],
                forall|j: int|
                    0 <= j < k ==> #[trigger] instance_edited(
                        &old(self).items@[j],
                        &cxs[j],
                        registry,
                        changed@,
                        &self.items@[j],
                        &cxs[j + 1],
                    ),
            decreases count - k,
        {
            let ghost c_before = *cx;
            let ghost items_before = self.items@;
            let ghost cxs_before = cxs;
            let live_ptr = self.items[k].live_ptr;
            if is_affected(registry, live_ptr, changed) {
                proof {
                    let i = choose|i: int|
                        0 <= i < changed@.len() && affects(registry, live_ptr, #[trigger] changed@[i]);
                    assert(affects(registry, live_ptr, changed@[i]));
                }
                let doc = registry.ptr_to_doc(live_ptr);
                self.items[k].data.apply(
                    cx,
                    ApplyFrom::LiveEdit,
                    live_ptr.index as usize,
                    doc.nodes.as_slice(),
                );
            }
            proof {
                cxs = cxs.push(*cx);
                lemma_extends_refl(c_before.apply_errors@);
                lemma_extends_trans(cx.apply_errors@, c_before.apply_errors@, old(cx).apply_errors@);
                assert(instance_edited(
                    &old(self).items@[k as int],
                    &cxs[k as int],
                    registry,
                    changed@,
                    &self.items@[k as int],
                    &cxs[k + 1],
                ));
                assert forall|j: int| 0 <= j < k implies #[trigger] instance_edited(
                    &old(self).items@[j],
                    &cxs[j],
                    registry,
                    changed@,
                    &self.items@[j],
                    &cxs[j + 1],
                ) by {
                    assert(cxs[j] == cxs_before[j]);
                    assert(cxs[j + 1] == cxs_before[j + 1]);
                    assert(self.items@[j] == items_before[j]);
                    assert(instance_edited(
                        &old(self).items@[j],
                        &cxs_before[j],
                        registry,
                        changed@,
                        &items_before[j],
                        &cxs_before[j + 1],
                    ));
                }
            }
            k += 1;
        }
        proof {
            assert(cxs.len() == old(self).items@.len() + 1);
        }
    }

    /// Brings the objects up to date with documents that were registered
    /// anew: every object is looked up again under its name; one that is
    /// found gets its new pointer and is reconciled with its node, as
    /// updated from the document; one that is not found stays as it is.
    pub fn reparse(&mut self, cx: &mut Cx, registry: &LiveRegistry)
        requires
            registry.wf(),
        ensures
            extends(final(cx).apply_errors@, old(cx).apply_errors@),
            instances_updated(old(self).items@, old(cx), registry, final(self).items@, final(cx)),
    {
        let ghost mut cxs: Seq<Cx> = seq![*cx];
        let count: usize = self.items.len();
        let mut k: usize = 0;
        proof {
            lemma_extends_refl(cx.apply_errors@);
        }
        while k < count
            invariant
                registry.wf(),
                k <= count == old(self).items@.len(),
                self.items@.len() == count,
                cxs.len() == k + 1,
                cxs[0] == *old(cx),
                cxs[k as int] == *cx,
                extends(cx.apply_errors@, old(cx).apply_errors@),
                forall|j: int| k <= j < count ==> self.items@[j] == old(self).items@[j],
                forall|j: int|
                    0 <= j < k ==> #[trigger] instance_updated(
                        &old(self).items@[j],
                        &cxs[j],
                        registry,
                        &self.items@[j],
                        &cxs[j + 1],
                    ),
            decreases count - k,
        {
            let ghost c_before = *cx;
            let ghost items_before = self.items@;
            let ghost cxs_before = cxs;
            let module_id = self.items[k].module_id;
            let name = self.items[k].name;
            match registry.module_id_and_name_to_ptr(module_id, name) {
                Some(live_ptr) => {
                    let doc = registry.ptr_to_doc(live_ptr);
                    self.items[k].data.apply(
                        cx,
                        ApplyFrom::UpdateFromDoc { file_id: live_ptr.file_id },
                        live_ptr.index as usize,
                        doc.nodes.as_slice(),
                    );
                    self.items[k].live_ptr = live_ptr;
                },
                None => {},
            }
            proof {
                cxs = cxs.push(*cx);
                lemma_extends_refl(c_before.apply_errors@);
                lemma_extends_trans(cx.apply_errors@, c_before.apply_errors@, old(cx).apply_errors@);
                assert(instance_updated(
                    &old(self).items@[k as int],
                    &cxs[k as int],
                    registry,
                    &self.items@[k as int],
                    &cxs[k + 1],
                ));
                assert forall|j: int| 0 <= j < k implies #[trigger] instance_updated(
                    &old(self).items@[j],
                    &cxs[j],
                    registry,
                    &self.items@[j],
                    &cxs[j + 1],
                ) by {
                    assert(cxs[j] == cxs_before[j]);
                    assert(cxs[j + 1] == cxs_before[j + 1]);
                    assert(self.items@[j] == items_before[j]);
                    assert(instance_updated(
                        &old(self).items@[j],
                        &cxs_before[j],
                        registry,
                        &items_before[j],
                        &cxs_before[j + 1],
                    ));
                }
            }
            k += 1;
        }
        proof {
            assert(cxs.len() == old(self).items@.len() + 1);
        }
    }

    /// Takes a live edit event: after a mutation the objects that it touches
    /// are reconciled again; after a reparse the draw shaders are flushed,
    /// every object is looked up and brought up to date, and everything is
    /// drawn again. Other events change nothing.
    pub fn handle_live_edit_event(&mut self, cx: &mut Cx, registry: &LiveRegistry, event: &Event)
        requires
            registry.wf(),
        ensures
            extends(final(cx).apply_errors@, old(cx).apply_errors@),
            match event {
                Event::LiveEdit(LiveEditEvent::Mutation { live_ptrs, .. }) => instances_edited(
                    old(self).items@,
                    old(cx),
                    registry,
                    live_ptrs@,
                    final(self).items@,
                    final(cx),
                ),
                Event::LiveEdit(LiveEditEvent::ReparseDocument) => exists|c1: Cx, c2: Cx|
                    {
                        &&& #[trigger] c1.actions_added(old(cx), seq![CxAction::FlushDrawShaders])
                        &&& instances_updated(
                            old(self).items@,
                            &c1,
                            registry,
                            final(self).items@,
                            &c2,
                        )
                        &&& #[trigger] final(cx).actions_added(&c2, seq![CxAction::RedrawAll])
                    },
                _ => *final(self) == *old(self) && *final(cx) == *old(cx),
            },
    {
        proof {
            lemma_extends_refl(cx.apply_errors@);
        }
        match event {
            Event::LiveEdit(LiveEditEvent::Mutation { live_ptrs, .. }) => {
                self.live_edit(cx, registry, live_ptrs);
            },
            Event::LiveEdit(LiveEditEvent::ReparseDocument) => {
                cx.flush_draw_shaders();
                let ghost c1 = *cx;
                self.reparse(cx, registry);
                let ghost c2 = *cx;
                cx.redraw_all();
                proof {
                    lemma_extends_trans(c2.apply_errors@, c1.apply_errors@, old(cx).apply_errors@);
                    lemma_extends_refl(c2.apply_errors@);
                    assert(c1.actions_added(old(cx), seq![CxAction::FlushDrawShaders]));
                    assert(cx.actions_added(&c2, seq![CxAction::RedrawAll]));
                }
            },
            _ => {},
        }
    }
}

} // verus!
