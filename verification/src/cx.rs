//! The context that every construction and reconciliation is handed: it
//! collects diagnostics, remembers the names of ids, owns the textures, and
//! queues what the platform is to do next.

use vstd::prelude::*;
use vstd::string::StringSliceAdditionalSpecFns;
use crate::event::{Area, MouseCursor};
use crate::live_error::{error_at, LiveError, LiveErrorKind};
use crate::live_id::{id_of_bytes, LiveId};
use crate::live_node::LiveNode;
use crate::texture::CxTexture;

verus! {

/// A name and the id made from it.
pub struct LiveIdName {
    pub id: LiveId,
    pub name: String,
}

/// The names that ids were made from, so that an id can be written out.
pub struct LiveIdNames {
    pub entries: Vec<LiveIdName>,
}

/// The name of the first entry, from `from` on, that holds `id`.
pub open spec fn name_in(entries: Seq<LiveIdName>, from: int, id: LiveId) -> Option<Seq<char>>
    decreases entries.len() - from,
{
    if from < 0 || from >= entries.len() {
        None
    } else if entries[from].id == id {
        Some(entries[from].name@)
    } else {
        name_in(entries, from + 1, id)
    }
}

impl LiveIdNames {
    pub fn new() -> (r: LiveIdNames)
        ensures
            r.entries@.len() == 0,
    {
        LiveIdNames { entries: Vec::new() }
    }

    /// The name recorded for `id`, if one was.
    pub open spec fn spec_name_of(&self, id: LiveId) -> Option<Seq<char>> {
        name_in(self.entries@, 0, id)
    }

    /// The name recorded for `id`, if one was.
    pub fn name_of(&self, id: LiveId) -> (r: Option<&String>)
        ensures
            match r {
                Some(name) => self.spec_name_of(id) == Some(name@),
                None => self.spec_name_of(id) is None,
            },
    {
        let mut i: usize = 0;
        while i < self.entries.len()
            invariant
                i <= self.entries@.len(),
                name_in(self.entries@, i as int, id) == name_in(self.entries@, 0, id),
            decreases self.entries@.len() - i,
        {
            if self.entries[i].id == id {
                return Some(&self.entries[i].name);
            }
            i += 1;
        }
        None
    }

    /// Makes the id of `name`, and records the name for it unless the id has
    /// a name already.
    pub fn intern(&mut self, name: &str) -> (id: LiveId)
        ensures
            id == id_of_bytes(name.spec_bytes()),
            old(self).spec_name_of(id) is Some ==> *final(self) == *old(self),
            old(self).spec_name_of(id) is None ==> final(self).spec_name_of(id) == Some(name@),
            forall|other: LiveId|
                other != id ==> final(self).spec_name_of(other) == old(self).spec_name_of(other),
    {
        let id = LiveId::from_str(name);
        if self.name_of(id).is_none() {
            let ghost before = self.entries@;
            self.entries.push(LiveIdName { id, name: name.to_owned() });
            proof {
                lemma_name_in_push(before, self.entries@.last(), 0, id);
                assert forall|other: LiveId| other != id implies name_in(self.entries@, 0, other)
                    == name_in(before, 0, other) by {
                    lemma_name_in_push(before, self.entries@.last(), 0, other);
                }
            }
        }
        id
    }
}

proof fn lemma_name_in_push(entries: Seq<LiveIdName>, entry: LiveIdName, from: int, id: LiveId)
    requires
        0 <= from <= entries.len(),
    ensures
        name_in(entries.push(entry), from, id) == match name_in(entries, from, id) {
            Some(name) => Some(name),
            None => if entry.id == id {
                Some(entry.name@)
            } else {
                None
            },
        },
    decreases entries.len() - from,
{
    let pushed = entries.push(entry);
    if from < entries.len() {
        assert(pushed[from] == entries[from]);
        if entries[from].id != id {
            lemma_name_in_push(entries, entry, from + 1, id);
        }
    } else {
        assert(pushed[from] == entry);
        assert(name_in(pushed, from + 1, id) is None);
    }
}

/// What the platform is asked to do once the current event is handled.
#[derive(Clone, Copy, Debug, PartialEq, Eq, Structural)]
pub enum CxAction {
    /// Drop the compiled draw shaders, so that they are made anew.
    FlushDrawShaders,
    /// Draw every window again.
    RedrawAll,
    /// Bring the shader tables up to date with an edit of this many tokens
    /// that touches this many pointers.
    UpdateShaderTables { tokens: usize, live_ptrs: usize },
    /// Draw an area again.
    RedrawArea { area: Area },
    /// Show this pointer while the mouse hovers.
    SetHoverMouseCursor { cursor: MouseCursor },
    /// Give an area the key focus.
    SetKeyFocus { area: Area },
    /// Start dragging the item with this id.
    StartDragging { item: LiveId },
}

pub struct Cx {
    /// The diagnostics recorded so far, oldest first.
    pub apply_errors: Vec<LiveError>,
    pub id_names: LiveIdNames,
    pub textures: Vec<CxTexture>,
    /// The textures that were given up and can be handed out again.
    pub textures_free: Vec<usize>,
    /// What the platform is to do, in the order in which it was asked.
    pub actions: Vec<CxAction>,
}

impl Cx {
    /// What every context keeps of its textures: each place that was given
    /// up is the place of a texture that the context holds.
    pub open spec fn textures_wf(&self) -> bool {
        forall|i: int|
            0 <= i < self.textures_free@.len() ==> (#[trigger] self.textures_free@[i])
                < self.textures@.len()
    }

    pub fn new() -> (r: Cx)
        ensures
            r.apply_errors@.len() == 0,
            r.id_names.entries@.len() == 0,
            r.textures@.len() == 0,
            r.textures_free@.len() == 0,
            r.actions@.len() == 0,
            r.textures_wf(),
    {
        Cx {
            apply_errors: Vec::new(),
            id_names: LiveIdNames::new(),
            textures: Vec::new(),
            textures_free: Vec::new(),
            actions: Vec::new(),
        }
    }

    /// This context differs from `before` in its diagnostics only, which are
    /// those of `before` and then `added`.
    pub open spec fn errors_added(&self, before: &Cx, added: Seq<LiveError>) -> bool {
        &&& self.apply_errors@ =~= before.apply_errors@ + added
        &&& self.id_names == before.id_names
        &&& self.textures == before.textures
        &&& self.textures_free == before.textures_free
        &&& self.actions == before.actions
    }

    /// This context differs from `before` in its queue of actions only, which
    /// holds those of `before` and then `added`.
    pub open spec fn actions_added(&self, before: &Cx, added: Seq<CxAction>) -> bool {
        &&& self.actions@ =~= before.actions@ + added
        &&& self.id_names == before.id_names
        &&& self.textures == before.textures
        &&& self.textures_free == before.textures_free
        &&& self.apply_errors == before.apply_errors
    }

    fn apply_error(&mut self, kind: LiveErrorKind, index: usize, nodes: &[LiveNode])
        requires
            index < nodes@.len(),
        ensures
            final(self).errors_added(old(self), seq![error_at(kind, nodes@, index as int)]),
    {
        self.apply_errors.push(
            LiveError { kind, index, id: nodes[index].id, origin: nodes[index].origin },
        );
    }

    /// Records that the object being reconciled has no field of the name of
    /// the node at `index`.
    pub fn apply_error_no_matching_field(&mut self, index: usize, nodes: &[LiveNode])
        requires
            index < nodes@.len(),
        ensures
            final(self).errors_added(
                old(self),
                seq![error_at(LiveErrorKind::NoMatchingField, nodes@, index as int)],
            ),
    {
        self.apply_error(LiveErrorKind::NoMatchingField, index, nodes);
    }

    /// Records that the node at `index` opens no object where an object is
    /// reconciled.
    pub fn apply_error_wrong_type_for_struct(&mut self, index: usize, nodes: &[LiveNode])
        requires
            index < nodes@.len(),
        ensures
            final(self).errors_added(
                old(self),
                seq![error_at(LiveErrorKind::WrongTypeForStruct, nodes@, index as int)],
            ),
    {
        self.apply_error(LiveErrorKind::WrongTypeForStruct, index, nodes);
    }

    /// Records that the value of the node at `index` is of no kind that the
    /// target takes.
    pub fn apply_error_wrong_value_type_for_primitive(&mut self, index: usize, nodes: &[LiveNode])
        requires
            index < nodes@.len(),
        ensures
            final(self).errors_added(
                old(self),
                seq![error_at(LiveErrorKind::WrongValueType, nodes@, index as int)],
            ),
    {
        self.apply_error(LiveErrorKind::WrongValueType, index, nodes);
    }

    /// Records that the object at `index` has no fields.
    pub fn apply_error_empty_object(&mut self, index: usize, nodes: &[LiveNode])
        requires
            index < nodes@.len(),
        ensures
            final(self).errors_added(
                old(self),
                seq![error_at(LiveErrorKind::EmptyObject, nodes@, index as int)],
            ),
    {
        self.apply_error(LiveErrorKind::EmptyObject, index, nodes);
    }

    /// Asks the platform to drop the compiled draw shaders.
    pub fn flush_draw_shaders(&mut self)
        ensures
            final(self).actions_added(old(self), seq![CxAction::FlushDrawShaders]),
    {
        self.actions.push(CxAction::FlushDrawShaders);
    }

    /// Asks the platform to draw every window again.
    pub fn redraw_all(&mut self)
        ensures
            final(self).actions_added(old(self), seq![CxAction::RedrawAll]),
    {
        self.actions.push(CxAction::RedrawAll);
    }

    /// Asks the platform to bring the shader tables up to date with an edit.
    pub fn update_shader_tables_with_live_edit(&mut self, tokens: usize, live_ptrs: usize)
        ensures
            final(self).actions_added(
                old(self),
                seq![CxAction::UpdateShaderTables { tokens, live_ptrs }],
            ),
    {
        self.actions.push(CxAction::UpdateShaderTables { tokens, live_ptrs });
    }
}

impl Cx {
    /// Asks the platform to draw an area again.
    pub fn redraw_area(&mut self, area: Area)
        ensures
            final(self).actions_added(old(self), seq![CxAction::RedrawArea { area }]),
    {
        self.actions.push(CxAction::RedrawArea { area });
    }

    /// Asks the platform to show a pointer while the mouse hovers.
    pub fn set_hover_mouse_cursor(&mut self, cursor: MouseCursor)
        ensures
            final(self).actions_added(old(self), seq![CxAction::SetHoverMouseCursor { cursor }]),
    {
        self.actions.push(CxAction::SetHoverMouseCursor { cursor });
    }

    /// Asks the platform to give an area the key focus.
    pub fn set_key_focus(&mut self, area: Area)
        ensures
            final(self).actions_added(old(self), seq![CxAction::SetKeyFocus { area }]),
    {
        self.actions.push(CxAction::SetKeyFocus { area });
    }

    /// Asks the platform to start dragging an item.
    pub fn start_dragging(&mut self, item: LiveId)
        ensures
            final(self).actions_added(old(self), seq![CxAction::StartDragging { item }]),
    {
        self.actions.push(CxAction::StartDragging { item });
    }
}

} // verus!
