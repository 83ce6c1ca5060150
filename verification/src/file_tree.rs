//! A tree of files and folders: the live nodes that it keeps, which of them
//! are open, selected or dragged, and how their actions become its own.

use vstd::prelude::*;
use vstd::string::StringSliceAdditionalSpecFns;
use crate::cx::{Cx, CxAction};
use crate::cx_platform::backwards;
use crate::event::{Area, Event, HitEvent, HoverState, MouseCursor};
use crate::live_data::{fields_view, DataView, FieldView, LiveData, LiveField};
use crate::live_float::LiveFloat;
use crate::live_error::{extends, lemma_extends_refl, lemma_extends_trans};
use crate::live_id::{id_of_bytes, module_id_of_bytes, LiveId, LiveModuleId, LiveType};
use crate::live_node::{lemma_node_end_bounds, node_end, LiveNode};
use crate::live_node_slice::{child_by_name, named_sibling};
use crate::live_registry::{LivePtr, LiveRegistry};
use crate::live_traits::{
    applied_from_ptr, ApplyFrom, LiveApply, LiveHook, LiveNew, LiveTypeInfo,
};

verus! {

/// The name of a node of a file tree.
#[derive(Clone, Copy, Debug, PartialEq, Eq, Hash, Structural)]
pub struct FileNodeId(pub LiveId);

/// What a file tree tells its owner.
#[derive(Clone, Copy, Debug, PartialEq, Eq, Structural)]
pub enum FileTreeAction {
    WasClicked(FileNodeId),
    ShouldStartDragging(FileNodeId),
}

/// What a node of a file tree tells the tree.
#[derive(Clone, Copy, Debug, PartialEq, Eq, Structural)]
pub enum FileTreeNodeAction {
    Nothing,
    WasClicked,
    Opening,
    Closing,
    ShouldStartDragging,
}

/// One node of a file tree, as far as it is alive: the fields that documents
/// set, and the states that its animations move to.
pub struct FileTreeNode {
    pub live: LiveData,
    pub area: Area,
    pub is_folder: bool,
    pub is_open: bool,
    pub is_selected: bool,
    pub is_focussed: bool,
    pub is_hovered: bool,
}

/// What a hit makes a node tell the tree. A finger that goes down clicks the
/// node, and before that opens a closed folder or closes an open one; a
/// finger that was dragged far enough asks for a drag. Other hits tell
/// nothing.
pub open spec fn node_actions(is_folder: bool, is_open: bool, hit: HitEvent) -> Seq<
    FileTreeNodeAction,
> {
    match hit {
        HitEvent::FingerMove { dragged } => if dragged {
            seq![FileTreeNodeAction::ShouldStartDragging]
        } else {
            Seq::empty()
        },
        HitEvent::FingerDown => if is_folder {
            if is_open {
                seq![FileTreeNodeAction::Closing, FileTreeNodeAction::WasClicked]
            } else {
                seq![FileTreeNodeAction::Opening, FileTreeNodeAction::WasClicked]
            }
        } else {
            seq![FileTreeNodeAction::WasClicked]
        },
        _ => Seq::empty(),
    }
}

/// A node after a hit: a hovering pointer sets or clears the hover state; a
/// finger that goes down selects the node and, on a folder, opens it or
/// closes it.
pub open spec fn node_after_hit(node: FileTreeNode, hit: HitEvent) -> FileTreeNode {
    FileTreeNode {
        is_open: if hit is FingerDown && node.is_folder {
            !node.is_open
        } else {
            node.is_open
        },
        is_selected: node.is_selected || hit is FingerDown,
        is_hovered: match hit {
            HitEvent::FingerHover { hover_state: HoverState::In } => true,
            HitEvent::FingerHover { hover_state: HoverState::Out } => false,
            _ => node.is_hovered,
        },
        ..node
    }
}

/// What a hit on a node asks of the platform: a hovering pointer shows the
/// hand.
pub open spec fn hover_actions(hit: HitEvent) -> Seq<CxAction> {
    if hit is FingerHover {
        seq![CxAction::SetHoverMouseCursor { cursor: MouseCursor::Hand }]
    } else {
        Seq::empty()
    }
}

impl FileTreeNode {
    /// A node that shows the given data, closed and neither selected,
    /// focussed nor hovered.
    pub fn with_data(live: LiveData, area: Area, is_folder: bool) -> (r: FileTreeNode)
        ensures
            r.live == live,
            r.area == area,
            r.is_folder == is_folder,
            !r.is_open,
            !r.is_selected,
            !r.is_focussed,
            !r.is_hovered,
    {
        FileTreeNode {
            live,
            area,
            is_folder,
            is_open: false,
            is_selected: false,
            is_focussed: false,
            is_hovered: false,
        }
    }

    pub fn set_folder_is_open(&mut self, is: bool)
        ensures
            final(self).is_open == is,
            final(self).live == old(self).live,
            final(self).area == old(self).area,
            final(self).is_folder == old(self).is_folder,
            final(self).is_selected == old(self).is_selected,
            final(self).is_focussed == old(self).is_focussed,
            final(self).is_hovered == old(self).is_hovered,
    {
        self.is_open = is;
    }

    /// Takes a hit: a hovering pointer shows the hand and sets or clears the
    /// hover state; a finger that goes down selects the node and, on a
    /// folder, opens it or closes it. Returns what the node tells the tree.
    pub fn handle_event(&mut self, cx: &mut Cx, hit: HitEvent) -> (r: Vec<FileTreeNodeAction>)
        ensures
            r@ == node_actions(old(self).is_folder, old(self).is_open, hit),
            *final(self) == node_after_hit(*old(self), hit),
            final(cx).actions_added(old(cx), hover_actions(hit)),
    {
        let mut out: Vec<FileTreeNodeAction> = Vec::new();
        match hit {
            HitEvent::FingerHover { hover_state } => {
                cx.set_hover_mouse_cursor(MouseCursor::Hand);
                match hover_state {
                    HoverState::In => {
                        self.is_hovered = true;
                    },
                    HoverState::Out => {
                        self.is_hovered = false;
                    },
                    _ => {},
                }
            },
            HitEvent::FingerMove { dragged } => {
                if dragged {
                    out.push(FileTreeNodeAction::ShouldStartDragging);
                }
            },
            HitEvent::FingerDown => {
                self.is_selected = true;
                if self.is_folder {
                    if self.is_open {
                        self.is_open = false;
                        out.push(FileTreeNodeAction::Closing);
                    } else {
                        self.is_open = true;
                        out.push(FileTreeNodeAction::Opening);
                    }
                }
                out.push(FileTreeNodeAction::WasClicked);
            },
            _ => {},
        }
        proof {
            assert(out@ =~= node_actions(old(self).is_folder, old(self).is_open, hit));
        }
        out
    }
}

impl LiveHook for FileTreeNode {
}

impl LiveApply for FileTreeNode {
    /// The fields that documents set are reconciled as `LiveData` is; the
    /// states of the node stay as they are.
    open spec fn applied(
        &self,
        cx: &Cx,
        from: ApplyFrom,
        index: int,
        nodes: Seq<LiveNode>,
        after: &Self,
        cx_after: &Cx,
    ) -> bool {
        &&& self.live.applied(cx, from, index, nodes, &after.live, cx_after)
        &&& after.area == self.area
        &&& after.is_folder == self.is_folder
        &&& after.is_open == self.is_open
        &&& after.is_selected == self.is_selected
        &&& after.is_focussed == self.is_focussed
        &&& after.is_hovered == self.is_hovered
    }

    fn apply(&mut self, cx: &mut Cx, from: ApplyFrom, index: usize, nodes: &[LiveNode]) -> (next:
        usize) {
        self.live.apply(cx, from, index, nodes)
    }
}

/// A field of a new node: a number that starts at zero.
pub open spec fn zero_field(name: &str) -> FieldView {
    FieldView {
        id: id_of_bytes(name.spec_bytes()),
        data: DataView::Float(LiveFloat { bits: 0 }),
    }
}

/// The fields that a new node has for documents to set.
pub open spec fn node_fields() -> Seq<FieldView> {
    seq![
        zero_field("indent_width"),
        zero_field("min_drag_distance"),
        zero_field("opened"),
        zero_field("focussed"),
        zero_field("hover"),
        zero_field("selected"),
    ]
}

fn new_zero_field(name: &str) -> (r: LiveField)
    ensures
        r@ == zero_field(name),
{
    LiveField::new(LiveId::from_str(name), LiveData::Float(LiveFloat { bits: 0 }))
}

impl LiveNew for FileTreeNode {
    /// A new node is the node of a file, with every number at zero and
    /// every state off.
    open spec fn made(cx: &Cx, made: &Self, cx_after: &Cx) -> bool {
        &&& *cx_after == *cx
        &&& made.live@ == (DataView::Object { fields: node_fields() })
        &&& made.area == Area(0)
        &&& !made.is_folder
        &&& !made.is_open
        &&& !made.is_selected
        &&& !made.is_focussed
        &&& !made.is_hovered
    }

    fn new(_cx: &mut Cx) -> (r: Self) {
        proof {
            lemma_extends_refl(_cx.apply_errors@);
        }
        let mut fields: Vec<LiveField> = Vec::new();
        fields.push(new_zero_field("indent_width"));
        fields.push(new_zero_field("min_drag_distance"));
        fields.push(new_zero_field("opened"));
        fields.push(new_zero_field("focussed"));
        fields.push(new_zero_field("hover"));
        fields.push(new_zero_field("selected"));
        proof {
            assert(fields_view(fields@) =~= node_fields());
        }
        FileTreeNode::with_data(LiveData::object(fields), Area(0), false)
    }

    fn live_type_info(_cx: &mut Cx) -> (r: LiveTypeInfo)
        ensures
            *final(_cx) == *old(_cx),
            r.name == id_of_bytes("FileTreeNode".spec_bytes()),
            r.live_type == LiveType(r.name.0),
            r.module_id == module_id_of_bytes("live_runtime::file_tree".spec_bytes()),
            r.fields@.len() == 0,
    {
        proof {
            lemma_extends_refl(_cx.apply_errors@);
        }
        let name = LiveId::from_str("FileTreeNode");
        LiveTypeInfo {
            live_type: LiveType(name.0),
            name,
            module_id: LiveModuleId::from_str("live_runtime::file_tree"),
            fields: Vec::new(),
        }
    }
}

/// What making a node from a pointer gives: a new node with the pointer's
/// node applied to it as new from its document, if there is a pointer and
/// it can be followed, and with every state off. What the node was made as,
/// a folder or a file, is kept.
pub open spec fn node_made(
    cx: &Cx,
    registry: &LiveRegistry,
    live_ptr: Option<LivePtr>,
    is_folder: bool,
    made: &FileTreeNode,
    cx_after: &Cx,
) -> bool {
    &&& made.is_folder == is_folder
    &&& made.area == Area(0)
    &&& !made.is_selected
    &&& !made.is_focussed
    &&& !made.is_hovered
    &&& match live_ptr {
        Some(p) => exists|o: FileTreeNode, applied: FileTreeNode|
            {
                &&& #[trigger] applied_from_ptr(&o, cx, registry, p, &applied, cx_after)
                &&& FileTreeNode::made(cx, &o, cx)
                &&& made.live == applied.live
            },
        None => *cx_after == *cx && made.live@ == (DataView::Object { fields: node_fields() }),
    }
}

fn make_node(cx: &mut Cx, registry: &LiveRegistry, live_ptr: Option<LivePtr>, is_folder: bool) -> (r:
    FileTreeNode)
    requires
        registry.wf(),
    ensures
        extends(final(cx).apply_errors@, old(cx).apply_errors@),
        node_made(old(cx), registry, live_ptr, is_folder, &r, final(cx)),
        !r.is_open,
{
    proof {
        lemma_extends_refl(cx.apply_errors@);
    }
    let mut node = <FileTreeNode as LiveNew>::new(cx);
    let ghost o = node;
    if let Some(live_ptr) = live_ptr {
        crate::live_traits::from_ptr_impl(&mut node, cx, registry, live_ptr);
    }
    let ghost applied = node;
    node.is_folder = is_folder;
    proof {
        assert(FileTreeNode::made(old(cx), &o, old(cx)));
        if let Some(p) = live_ptr {
            assert(applied_from_ptr(&o, old(cx), registry, p, &applied, cx));
            assert(applied.area == o.area);
        }
    }
    node
}

/// A node that a file tree keeps, under the name that the tree knows it by
/// and the name that documents know its kind by.
pub struct FileTreeEntry {
    pub node_id: FileNodeId,
    pub node: FileTreeNode,
    pub live_id: LiveId,
    /// Whether the node was asked for since the tree was last drawn to its
    /// end.
    pub visited: bool,
}

pub struct FileTree {
    pub area: Area,
    /// What a file node is made from.
    pub file_node: Option<LivePtr>,
    /// What a folder node is made from.
    pub folder_node: Option<LivePtr>,
    pub dragging_node_id: Option<FileNodeId>,
    pub selected_node_id: Option<FileNodeId>,
    /// The folders that are open, each once.
    pub open_nodes: Vec<FileNodeId>,
    /// The nodes that are alive, each under its own name.
    pub tree_nodes: Vec<FileTreeEntry>,
}

/// The place of the first entry, from `from` on, that is named `node_id`.
pub open spec fn entry_index(entries: Seq<FileTreeEntry>, from: int, node_id: FileNodeId) -> Option<
    int,
>
    decreases entries.len() - from,
{
    if from < 0 || from >= entries.len() {
        None
    } else if entries[from].node_id == node_id {
        Some(from)
    } else {
        entry_index(entries, from + 1, node_id)
    }
}

/// The entries from `from` on that outlive a pass over the tree: those that
/// were visited and the one that is selected, none of them visited any
/// longer.
pub open spec fn kept_entries(entries: Seq<FileTreeEntry>, selected: Option<FileNodeId>, from: int)
    -> Seq<FileTreeEntry>
    decreases entries.len() - from,
{
    if from < 0 || from >= entries.len() {
        Seq::empty()
    } else if entries[from].visited || selected == Some(entries[from].node_id) {
        seq![FileTreeEntry { visited: false, ..entries[from] }] + kept_entries(
            entries,
            selected,
            from + 1,
        )
    } else {
        kept_entries(entries, selected, from + 1)
    }
}

proof fn lemma_kept_entries_from_end(entries: Seq<FileTreeEntry>, selected: Option<FileNodeId>)
    ensures
        kept_entries(entries, selected, entries.len() as int) == Seq::<FileTreeEntry>::empty(),
        backwards(Seq::<FileTreeEntry>::empty()) == Seq::<FileTreeEntry>::empty(),
{
    assert(backwards(Seq::<FileTreeEntry>::empty()) =~= Seq::<FileTreeEntry>::empty());
}

/// A sequence with one more item holds what it held before, and the item.
proof fn lemma_contains_push(ids: Seq<FileNodeId>, added: FileNodeId, id: FileNodeId)
    ensures
        ids.push(added).contains(id) == (ids.contains(id) || added == id),
{
    let pushed = ids.push(added);
    if ids.contains(id) {
        let j = choose|j: int| 0 <= j < ids.len() && ids[j] == id;
        assert(pushed[j] == id);
    }
    if added == id {
        assert(pushed[ids.len() as int] == id);
    }
    if pushed.contains(id) {
        let j = choose|j: int| 0 <= j < pushed.len() && pushed[j] == id;
        if j < ids.len() {
            assert(ids[j] == id);
        }
    }
}

/// Whether an action of the node named `node_id` takes the selection from
/// entry `j` of a tree: the action is a click, and entry `j` is the node
/// that was selected before, and another node than the clicked one.
pub open spec fn deselects(tree: &FileTree, node_id: FileNodeId, action: FileTreeNodeAction, j: int)
    -> bool {
    &&& action is WasClicked
    &&& tree.selected_node_id matches Some(last_selected)
    &&& last_selected != node_id
    &&& entry_index(tree.tree_nodes@, 0, last_selected) == Some(j)
}

/// What a node told the tree: the name of the node, and what it told.
#[derive(Clone, Copy, Debug, PartialEq, Eq, Structural)]
pub struct Told {
    pub node_id: FileNodeId,
    pub action: FileTreeNodeAction,
}

/// The entries after each took its hit.
pub open spec fn entries_after_hits(entries: Seq<FileTreeEntry>, hits: Seq<HitEvent>) -> Seq<
    FileTreeEntry,
> {
    Seq::new(
        entries.len(),
        |j: int| FileTreeEntry { node: node_after_hit(entries[j].node, hits[j]), ..entries[j] },
    )
}

/// What the entries from `from` on tell when each takes its hit, in the
/// order of the entries.
pub open spec fn told_by(entries: Seq<FileTreeEntry>, hits: Seq<HitEvent>, from: int) -> Seq<Told>
    decreases entries.len() - from,
{
    if from < 0 || from >= entries.len() {
        Seq::empty()
    } else {
        node_actions(entries[from].node.is_folder, entries[from].node.is_open, hits[from]).map_values(
            |action: FileTreeNodeAction| Told { node_id: entries[from].node_id, action },
        ) + told_by(entries, hits, from + 1)
    }
}

/// What the hits from `from` on ask of the platform.
pub open spec fn hits_ask(hits: Seq<HitEvent>, from: int) -> Seq<CxAction>
    decreases hits.len() - from,
{
    if from < 0 || from >= hits.len() {
        Seq::empty()
    } else {
        hover_actions(hits[from]) + hits_ask(hits, from + 1)
    }
}

/// What the tree passes on of what it was told: one thing or nothing.
pub open spec fn passed_on_of(told: Told, dragging: Option<FileNodeId>) -> Seq<FileTreeAction> {
    match told.action {
        FileTreeNodeAction::WasClicked => seq![FileTreeAction::WasClicked(told.node_id)],
        FileTreeNodeAction::ShouldStartDragging => if dragging is None {
            seq![FileTreeAction::ShouldStartDragging(told.node_id)]
        } else {
            Seq::empty()
        },
        _ => Seq::empty(),
    }
}

/// What the tree passes on of what it was told from `from` on: every click,
/// and every wish to drag unless a drag is under way.
pub open spec fn passed_on(told: Seq<Told>, from: int, dragging: Option<FileNodeId>) -> Seq<
    FileTreeAction,
>
    decreases told.len() - from,
{
    if from < 0 || from >= told.len() {
        Seq::empty()
    } else {
        passed_on_of(told[from], dragging) + passed_on(told, from + 1, dragging)
    }
}

/// What the tree asks of the platform for what it was told from `from` on:
/// the key focus for its area, once for every click.
pub open spec fn told_ask(told: Seq<Told>, from: int, area: Area) -> Seq<CxAction>
    decreases told.len() - from,
{
    if from < 0 || from >= told.len() {
        Seq::empty()
    } else if told[from].action is WasClicked {
        seq![CxAction::SetKeyFocus { area }] + told_ask(told, from + 1, area)
    } else {
        told_ask(told, from + 1, area)
    }
}

/// The selected node after what was told from `from` on: the node that was
/// clicked last, or the one that was selected.
pub open spec fn selected_after(told: Seq<Told>, from: int, selected: Option<FileNodeId>)
    -> Option<FileNodeId>
    decreases told.len() - from,
{
    if from < 0 || from >= told.len() {
        selected
    } else if told[from].action is WasClicked {
        selected_after(told, from + 1, Some(told[from].node_id))
    } else {
        selected_after(told, from + 1, selected)
    }
}

/// Whether a folder is remembered as open after what was told from `from`
/// on: what the folder told last decides, and where it told nothing,
/// whether it was open.
pub open spec fn open_after(told: Seq<Told>, from: int, node_id: FileNodeId, was_open: bool) -> bool
    decreases told.len() - from,
{
    if from < 0 || from >= told.len() {
        was_open
    } else if told[from].node_id == node_id && told[from].action is Opening {
        open_after(told, from + 1, node_id, true)
    } else if told[from].node_id == node_id && told[from].action is Closing {
        open_after(told, from + 1, node_id, false)
    } else {
        open_after(told, from + 1, node_id, was_open)
    }
}

/// The entries after one thing was told: a click on another node than the
/// selected one takes the selection from the selected one.
pub open spec fn entries_after_one(
    entries: Seq<FileTreeEntry>,
    selected: Option<FileNodeId>,
    told: Told,
) -> Seq<FileTreeEntry> {
    Seq::new(
        entries.len(),
        |j: int|
            if told.action is WasClicked && selected is Some && selected != Some(told.node_id)
                && entry_index(entries, 0, selected.unwrap()) == Some(j) {
                FileTreeEntry {
                    node: FileTreeNode { is_selected: false, ..entries[j].node },
                    ..entries[j]
                }
            } else {
                entries[j]
            },
    )
}

/// The entries after what was told from `from` on, one thing after the
/// other.
pub open spec fn entries_after_told(
    told: Seq<Told>,
    from: int,
    selected: Option<FileNodeId>,
    entries: Seq<FileTreeEntry>,
) -> Seq<FileTreeEntry>
    decreases told.len() - from,
{
    if from < 0 || from >= told.len() {
        entries
    } else {
        entries_after_told(
            told,
            from + 1,
            if told[from].action is WasClicked {
                Some(told[from].node_id)
            } else {
                selected
            },
            entries_after_one(entries, selected, told[from]),
        )
    }
}

/// The entries after the tree took a hit: the selected node, if it is
/// alive, gets the focus with the tree and loses it with the tree.
pub open spec fn entries_after_focus(
    entries: Seq<FileTreeEntry>,
    selected: Option<FileNodeId>,
    hit: HitEvent,
) -> Seq<FileTreeEntry> {
    Seq::new(
        entries.len(),
        |j: int|
            if (hit is KeyFocus || hit is KeyFocusLost) && selected is Some && entry_index(
                entries,
                0,
                selected.unwrap(),
            ) == Some(j) {
                FileTreeEntry {
                    node: FileTreeNode { is_focussed: hit is KeyFocus, ..entries[j].node },
                    ..entries[j]
                }
            } else {
                entries[j]
            },
    )
}

impl FileTree {
    pub fn new(area: Area) -> (r: FileTree)
        ensures
            r.area == area,
            r.file_node is None,
            r.folder_node is None,
            r.dragging_node_id is None,
            r.selected_node_id is None,
            r.open_nodes@.len() == 0,
            r.tree_nodes@.len() == 0,
    {
        FileTree {
            area,
            file_node: None,
            folder_node: None,
            dragging_node_id: None,
            selected_node_id: None,
            open_nodes: Vec::new(),
            tree_nodes: Vec::new(),
        }
    }

    /// This tree differs from `before` in its nodes only.
    pub open spec fn same_but_nodes(&self, before: &FileTree) -> bool {
        &&& self.area == before.area
        &&& self.file_node == before.file_node
        &&& self.folder_node == before.folder_node
        &&& self.dragging_node_id == before.dragging_node_id
        &&& self.selected_node_id == before.selected_node_id
        &&& self.open_nodes == before.open_nodes
    }

    /// The place of the node named `node_id` among the nodes that are alive.
    pub fn find_node(&self, node_id: FileNodeId) -> (r: Option<usize>)
        ensures
            match r {
                Some(i) => i < self.tree_nodes@.len() && entry_index(self.tree_nodes@, 0, node_id)
                    == Some(i as int) && self.tree_nodes@[i as int].node_id == node_id,
                None => entry_index(self.tree_nodes@, 0, node_id) is None,
            },
    {
        let mut i: usize = 0;
        while i < self.tree_nodes.len()
            invariant
                i <= self.tree_nodes@.len(),
                entry_index(self.tree_nodes@, i as int, node_id) == entry_index(
                    self.tree_nodes@,
                    0,
                    node_id,
                ),
            decreases self.tree_nodes@.len() - i,
        {
            if self.tree_nodes[i].node_id == node_id {
                return Some(i);
            }
            i += 1;
        }
        None
    }

    /// Whether the folder named `node_id` is open.
    pub fn is_open(&self, node_id: FileNodeId) -> (r: bool)
        ensures
            r == self.open_nodes@.contains(node_id),
    {
        let mut i: usize = 0;
        while i < self.open_nodes.len()
            invariant
                i <= self.open_nodes@.len(),
                forall|j: int| 0 <= j < i ==> self.open_nodes@[j] != node_id,
            decreases self.open_nodes@.len() - i,
        {
            if self.open_nodes[i] == node_id {
                return true;
            }
            i += 1;
        }
        false
    }

    /// The place of the node named `node_id`, which is made if it is not
    /// alive yet: a folder from what folders are made from, a file from what
    /// files are made from, and a folder open if the tree remembers it so.
    /// The node counts as visited from now on.
    pub fn node(
        &mut self,
        cx: &mut Cx,
        registry: &LiveRegistry,
        node_id: FileNodeId,
        is_folder: bool,
    ) -> (r: usize)
        requires
            registry.wf(),
        ensures
            final(self).same_but_nodes(old(self)),
            r < final(self).tree_nodes@.len(),
            final(self).tree_nodes@[r as int].node_id == node_id,
            extends(final(cx).apply_errors@, old(cx).apply_errors@),
            match entry_index(old(self).tree_nodes@, 0, node_id) {
                Some(i) => r == i && final(self).tree_nodes@ == old(self).tree_nodes@.update(
                    i,
                    FileTreeEntry { visited: true, ..old(self).tree_nodes@[i] },
                ) && *final(cx) == *old(cx),
                None => {
                    let made = final(self).tree_nodes@[r as int];
                    &&& r == old(self).tree_nodes@.len()
                    &&& final(self).tree_nodes@.drop_last() == old(self).tree_nodes@
                    &&& made.visited
                    &&& made.live_id == id_of_bytes(
                        if is_folder {
                            "folder_node".spec_bytes()
                        } else {
                            "file_node".spec_bytes()
                        },
                    )
                    &&& made.node.is_open == (is_folder && old(self).open_nodes@.contains(node_id))
                    &&& node_made(
                        old(cx),
                        registry,
                        if is_folder {
                            old(self).folder_node
                        } else {
                            old(self).file_node
                        },
                        is_folder,
                        &made.node,
                        final(cx),
                    )
                },
            },
    {
        proof {
            lemma_extends_refl(cx.apply_errors@);
        }
        match self.find_node(node_id) {
            Some(i) => {
                self.tree_nodes[i].visited = true;
                proof {
                    assert(self.tree_nodes@ =~= old(self).tree_nodes@.update(
                        i as int,
                        FileTreeEntry { visited: true, ..old(self).tree_nodes@[i as int] },
                    ));
                }
                i
            },
            None => {
                let live_ptr = if is_folder {
                    self.folder_node
                } else {
                    self.file_node
                };
                let mut node = make_node(cx, registry, live_ptr, is_folder);
                if is_folder && self.is_open(node_id) {
                    node.set_folder_is_open(true);
                }
                let live_id = if is_folder {
                    LiveId::from_str("folder_node")
                } else {
                    LiveId::from_str("file_node")
                };
                let at: usize = self.tree_nodes.len();
                self.tree_nodes.push(FileTreeEntry { node_id, node, live_id, visited: true });
                proof {
                    assert(self.tree_nodes@.drop_last() =~= old(self).tree_nodes@);
                }
                at
            },
        }
    }

    /// Ends a pass over the tree: the nodes that were visited in the pass
    /// stay alive, and so does the selected node; the others are forgotten.
    /// The nodes that stay keep their order, and none counts as visited any
    /// longer.
    pub fn end(&mut self)
        ensures
            final(self).same_but_nodes(old(self)),
            final(self).tree_nodes@ == kept_entries(
                old(self).tree_nodes@,
                old(self).selected_node_id,
                0,
            ),
    {
        let mut kept: Vec<FileTreeEntry> = Vec::new();
        let ghost all = self.tree_nodes@;
        let selected = self.selected_node_id;
        proof {
            lemma_kept_entries_from_end(all, selected);
        }
        while self.tree_nodes.len() > 0
            invariant
                self.same_but_nodes(old(self)),
                selected == old(self).selected_node_id,
                all == old(self).tree_nodes@,
                self.tree_nodes@.len() <= all.len(),
                self.tree_nodes@ =~= all.subrange(0, self.tree_nodes@.len() as int),
                backwards(kept@) == kept_entries(all, selected, self.tree_nodes@.len() as int),
            decreases self.tree_nodes@.len(),
        {
            let ghost at = self.tree_nodes@.len() - 1;
            let ghost kept_before = kept@;
            match self.tree_nodes.pop() {
                Some(entry) => {
                    proof {
                        assert(entry == all[at]);
                    }
                    let is_selected: bool = match selected {
                        Some(node_id) => node_id == entry.node_id,
                        None => false,
                    };
                    if entry.visited || is_selected {
                        kept.push(
                            FileTreeEntry {
                                node_id: entry.node_id,
                                node: entry.node,
                                live_id: entry.live_id,
                                visited: false,
                            },
                        );
                        proof {
                            assert(backwards(kept@) =~= seq![kept@.last()] + backwards(kept_before));
                        }
                    }
                },
                None => {},
            }
        }
        let ghost kept_all = kept@;
        while kept.len() > 0
            invariant
                self.same_but_nodes(old(self)),
                kept@.len() <= kept_all.len(),
                kept@ =~= kept_all.subrange(0, kept@.len() as int),
                self.tree_nodes@ =~= backwards(kept_all).subrange(0, kept_all.len() - kept@.len()),
            decreases kept@.len(),
        {
            match kept.pop() {
                Some(entry) => {
                    self.tree_nodes.push(entry);
                },
                None => {},
            }
        }
        proof {
            assert(self.tree_nodes@ =~= backwards(kept_all));
        }
    }

    /// Forgets every node.
    pub fn forget(&mut self)
        ensures
            final(self).tree_nodes@.len() == 0,
            final(self).same_but_nodes(old(self)),
    {
        self.tree_nodes.clear();
    }

    /// Forgets the node named `file_node_id`, if it is alive.
    pub fn forget_node(&mut self, file_node_id: FileNodeId)
        ensures
            final(self).same_but_nodes(old(self)),
            match entry_index(old(self).tree_nodes@, 0, file_node_id) {
                Some(i) => final(self).tree_nodes@ == old(self).tree_nodes@.remove(i),
                None => final(self).tree_nodes@ == old(self).tree_nodes@,
            },
    {
        match self.find_node(file_node_id) {
            Some(i) => {
                self.tree_nodes.remove(i);
            },
            None => {},
        }
    }

    fn mark_open(&mut self, node_id: FileNodeId, is_open: bool)
        ensures
            final(self).open_nodes@.contains(node_id) == is_open,
            forall|other: FileNodeId|
                other != node_id ==> final(self).open_nodes@.contains(other)
                    == old(self).open_nodes@.contains(other),
            final(self).area == old(self).area,
            final(self).file_node == old(self).file_node,
            final(self).folder_node == old(self).folder_node,
            final(self).dragging_node_id == old(self).dragging_node_id,
            final(self).selected_node_id == old(self).selected_node_id,
            final(self).tree_nodes == old(self).tree_nodes,
    {
        if is_open {
            if !self.is_open(node_id) {
                self.open_nodes.push(node_id);
                proof {
                    let before = old(self).open_nodes@;
                    assert forall|other: FileNodeId| self.open_nodes@.contains(other) == (
                    before.contains(other) || other == node_id) by {
                        lemma_contains_push(before, node_id, other);
                    }
                }
            }
        } else {
            let mut kept: Vec<FileNodeId> = Vec::new();
            let mut i: usize = 0;
            while i < self.open_nodes.len()
                invariant
                    i <= self.open_nodes@.len(),
                    *self == *old(self),
                    !kept@.contains(node_id),
                    forall|other: FileNodeId|
                        other != node_id ==> kept@.contains(other) == self.open_nodes@.subrange(
                            0,
                            i as int,
                        ).contains(other),
                decreases self.open_nodes@.len() - i,
            {
                let id = self.open_nodes[i];
                let ghost seen = self.open_nodes@.subrange(0, i as int);
                let ghost kept_before = kept@;
                if id != node_id {
                    kept.push(id);
                }
                proof {
                    let seen_after = self.open_nodes@.subrange(0, i + 1);
                    assert(seen_after =~= seen.push(id));
                    assert forall|other: FileNodeId| other != node_id implies kept@.contains(other)
                        == seen_after.contains(other) by {
                        lemma_contains_push(seen, id, other);
                        if id != node_id {
                            lemma_contains_push(kept_before, id, other);
                        }
                    }
                    if id != node_id {
                        lemma_contains_push(kept_before, id, node_id);
                    }
                }
                i += 1;
            }
            proof {
                assert(self.open_nodes@.subrange(0, i as int) =~= self.open_nodes@);
            }
            self.open_nodes = kept;
        }
    }

    /// Opens or closes the folder named `node_id`: the tree remembers it, and
    /// the node, if it is alive, is told.
    pub fn set_folder_is_open(&mut self, node_id: FileNodeId, is_open: bool)
        ensures
            final(self).open_nodes@.contains(node_id) == is_open,
            forall|other: FileNodeId|
                other != node_id ==> final(self).open_nodes@.contains(other)
                    == old(self).open_nodes@.contains(other),
            final(self).area == old(self).area,
            final(self).file_node == old(self).file_node,
            final(self).folder_node == old(self).folder_node,
            final(self).dragging_node_id == old(self).dragging_node_id,
            final(self).selected_node_id == old(self).selected_node_id,
            final(self).tree_nodes@.len() == old(self).tree_nodes@.len(),
            match entry_index(old(self).tree_nodes@, 0, node_id) {
                Some(i) => final(self).tree_nodes@[i].node.is_open == is_open
                    && final(self).tree_nodes@[i].node_id == node_id && forall|j: int|
                    0 <= j < old(self).tree_nodes@.len() && j != i ==> final(self).tree_nodes@[j]
                        == old(self).tree_nodes@[j],
                None => final(self).tree_nodes@ == old(self).tree_nodes@,
            },
    {
        self.mark_open(node_id, is_open);
        match self.find_node(node_id) {
            Some(i) => {
                self.tree_nodes[i].node.set_folder_is_open(is_open);
            },
            None => {},
        }
    }

    /// Remembers that the node named `node_id` is dragged, and asks the
    /// platform to start dragging the item.
    pub fn start_dragging_file_node(&mut self, cx: &mut Cx, node_id: FileNodeId, dragged_item: LiveId)
        ensures
            final(self).dragging_node_id == Some(node_id),
            final(self).area == old(self).area,
            final(self).file_node == old(self).file_node,
            final(self).folder_node == old(self).folder_node,
            final(self).selected_node_id == old(self).selected_node_id,
            final(self).open_nodes == old(self).open_nodes,
            final(self).tree_nodes == old(self).tree_nodes,
            final(cx).actions_added(old(cx), seq![CxAction::StartDragging { item: dragged_item }]),
    {
        self.dragging_node_id = Some(node_id);
        cx.start_dragging(dragged_item);
    }

    pub fn redraw(&mut self, cx: &mut Cx)
        ensures
            *final(self) == *old(self),
            final(cx).actions_added(old(cx), seq![CxAction::RedrawArea { area: old(self).area }]),
    {
        cx.redraw_area(self.area);
    }

    /// Takes what a node told: an opened or closed folder is remembered; a
    /// click gives the tree the key focus, takes the selection from the node
    /// that had it, selects the clicked node, and is passed on; a wish to
    /// drag is passed on unless a drag is under way.
    pub fn handle_node_action(&mut self, cx: &mut Cx, node_id: FileNodeId, action: FileTreeNodeAction)
        -> (r: Option<FileTreeAction>)
        ensures
            r == match action {
                FileTreeNodeAction::WasClicked => Some(FileTreeAction::WasClicked(node_id)),
                FileTreeNodeAction::ShouldStartDragging => if old(self).dragging_node_id is None {
                    Some(FileTreeAction::ShouldStartDragging(node_id))
                } else {
                    None
                },
                _ => None,
            },
            final(self).area == old(self).area,
            final(self).file_node == old(self).file_node,
            final(self).folder_node == old(self).folder_node,
            final(self).dragging_node_id == old(self).dragging_node_id,
            final(self).selected_node_id == if action is WasClicked {
                Some(node_id)
            } else {
                old(self).selected_node_id
            },
            final(self).open_nodes@.contains(node_id) == match action {
                FileTreeNodeAction::Opening => true,
                FileTreeNodeAction::Closing => false,
                _ => old(self).open_nodes@.contains(node_id),
            },
            forall|other: FileNodeId|
                other != node_id ==> final(self).open_nodes@.contains(other)
                    == old(self).open_nodes@.contains(other),
            final(self).tree_nodes@.len() == old(self).tree_nodes@.len(),
            forall|j: int|
                0 <= j < old(self).tree_nodes@.len() ==> #[trigger] final(self).tree_nodes@[j] == if deselects(
                    old(self),
                    node_id,
                    action,
                    j,
                ) {
                    FileTreeEntry {
                        node: FileTreeNode { is_selected: false, ..old(self).tree_nodes@[j].node },
                        ..old(self).tree_nodes@[j]
                    }
                } else {
                    old(self).tree_nodes@[j]
                },
            final(cx).actions_added(
                old(cx),
                if action is WasClicked {
                    seq![CxAction::SetKeyFocus { area: old(self).area }]
                } else {
                    Seq::empty()
                },
            ),
    {
        match action {
            FileTreeNodeAction::Opening => {
                self.mark_open(node_id, true);
                None
            },
            FileTreeNodeAction::Closing => {
                self.mark_open(node_id, false);
                None
            },
            FileTreeNodeAction::WasClicked => {
                cx.set_key_focus(self.area);
                if let Some(last_selected) = self.selected_node_id {
                    if last_selected != node_id {
                        match self.find_node(last_selected) {
                            Some(i) => {
                                self.tree_nodes[i].node.is_selected = false;
                            },
                            None => {},
                        }
                    }
                }
                self.selected_node_id = Some(node_id);
                Some(FileTreeAction::WasClicked(node_id))
            },
            FileTreeNodeAction::ShouldStartDragging => {
                if self.dragging_node_id.is_none() {
                    Some(FileTreeAction::ShouldStartDragging(node_id))
                } else {
                    None
                }
            },
            FileTreeNodeAction::Nothing => None,
        }
    }

    /// Takes an event, with what it means for the area of each node that is
    /// alive and for the area of the tree. The end of a drag is remembered
    /// first. Then every node takes its hit, in the order in which the tree
    /// keeps the nodes; then the tree takes what the nodes told, in that
    /// order, as `handle_node_action` does; and then the selected node gets
    /// or loses the focus with the tree. Returns what the tree passes on.
    pub fn handle_event(
        &mut self,
        cx: &mut Cx,
        event: &Event,
        hits: &Vec<HitEvent>,
        tree_hit: HitEvent,
    ) -> (r: Vec<FileTreeAction>)
        requires
            hits@.len() == old(self).tree_nodes@.len(),
        ensures
            ({
                let told = told_by(old(self).tree_nodes@, hits@, 0);
                let dragging = if *event is DragEnd {
                    None
                } else {
                    old(self).dragging_node_id
                };
                &&& r@ == passed_on(told, 0, dragging)
                &&& final(self).dragging_node_id == dragging
                &&& final(self).selected_node_id == selected_after(
                    told,
                    0,
                    old(self).selected_node_id,
                )
                &&& forall|node_id: FileNodeId|
                    #[trigger] final(self).open_nodes@.contains(node_id) == open_after(
                        told,
                        0,
                        node_id,
                        old(self).open_nodes@.contains(node_id),
                    )
                &&& final(self).tree_nodes@ == entries_after_focus(
                    entries_after_told(
                        told,
                        0,
                        old(self).selected_node_id,
                        entries_after_hits(old(self).tree_nodes@, hits@),
                    ),
                    final(self).selected_node_id,
                    tree_hit,
                )
                &&& final(cx).actions_added(
                    old(cx),
                    hits_ask(hits@, 0) + told_ask(told, 0, old(self).area),
                )
            }),
            final(self).area == old(self).area,
            final(self).file_node == old(self).file_node,
            final(self).folder_node == old(self).folder_node,
    {
        match event {
            Event::DragEnd => {
                self.dragging_node_id = None;
            },
            _ => (),
        }
        let ghost dragging = self.dragging_node_id;
        let ghost entries = old(self).tree_nodes@;
        let ghost all_told = told_by(entries, hits@, 0);
        let mut told: Vec<Told> = Vec::new();
        let count: usize = self.tree_nodes.len();
        let mut i: usize = 0;
        let ghost mut asked: Seq<CxAction> = Seq::empty();
        proof {
            assert(asked + hits_ask(hits@, 0) =~= hits_ask(hits@, 0));
            assert(told@ + told_by(entries, hits@, 0) =~= all_told);
        }
        while i < count
            invariant
                i <= count == entries.len() == hits@.len(),
                self.tree_nodes@.len() == count,
                entries == old(self).tree_nodes@,
                self.dragging_node_id == dragging,
                self.selected_node_id == old(self).selected_node_id,
                self.open_nodes == old(self).open_nodes,
                self.area == old(self).area,
                self.file_node == old(self).file_node,
                self.folder_node == old(self).folder_node,
                forall|j: int|
                    0 <= j < i ==> self.tree_nodes@[j] == entries_after_hits(entries, hits@)[j],
                forall|j: int| i <= j < count ==> self.tree_nodes@[j] == entries[j],
                told@ + told_by(entries, hits@, i as int) == all_told,
                cx.actions_added(old(cx), asked),
                asked + hits_ask(hits@, i as int) == hits_ask(hits@, 0),
            decreases count - i,
        {
            let node_id = self.tree_nodes[i].node_id;
            let hit = hits[i];
            let ghost told_before = told@;
            let ghost asked_before = asked;
            let ghost here = node_actions(entries[i as int].node.is_folder, entries[i as int].node.is_open, hit).map_values(
                |action: FileTreeNodeAction| Told { node_id: entries[i as int].node_id, action },
            );
            let actions = self.tree_nodes[i].node.handle_event(cx, hit);
            let mut k: usize = 0;
            while k < actions.len()
                invariant
                    k <= actions@.len(),
                    actions@.len() == here.len(),
                    forall|m: int| 0 <= m < actions@.len() ==> here[m] == (Told { node_id, action: actions@[m] }),
                    told@ == told_before + here.subrange(0, k as int),
                decreases actions@.len() - k,
            {
                let ghost before = told@;
                told.push(Told { node_id, action: actions[k] });
                proof {
                    assert(here.subrange(0, k + 1) =~= here.subrange(0, k as int).push(here[k as int]));
                    assert(told@ =~= told_before + here.subrange(0, k + 1));
                }
                k += 1;
            }
            proof {
                assert(here.subrange(0, here.len() as int) =~= here);
                assert((told_before + here) + told_by(entries, hits@, i + 1) =~= told_before + (here
                    + told_by(entries, hits@, i + 1)));
                asked = asked + hover_actions(hit);
                assert((asked_before + hover_actions(hit)) + hits_ask(hits@, i + 1) =~= asked_before
                    + (hover_actions(hit) + hits_ask(hits@, i + 1)));
                assert(cx.actions@ =~= old(cx).actions@ + asked);
            }
            i += 1;
        }
        proof {
            assert(self.tree_nodes@ =~= entries_after_hits(entries, hits@));
            assert(told@ + Seq::<Told>::empty() =~= told@);
            assert(asked + Seq::<CxAction>::empty() =~= asked);
        }
        let ghost hit_entries = self.tree_nodes@;
        let ghost cx_hits = *cx;
        let mut out: Vec<FileTreeAction> = Vec::new();
        let mut k: usize = 0;
        let ghost mut asked_told: Seq<CxAction> = Seq::empty();
        proof {
            assert(out@ + passed_on(told@, 0, dragging) =~= passed_on(told@, 0, dragging));
            assert(asked_told + told_ask(told@, 0, self.area) =~= told_ask(told@, 0, self.area));
        }
        while k < told.len()
            invariant
                k <= told@.len(),
                told@ == all_told,
                self.dragging_node_id == dragging,
                self.area == old(self).area,
                self.file_node == old(self).file_node,
                self.folder_node == old(self).folder_node,
                out@ + passed_on(told@, k as int, dragging) == passed_on(told@, 0, dragging),
                selected_after(told@, k as int, self.selected_node_id) == selected_after(
                    told@,
                    0,
                    old(self).selected_node_id,
                ),
                forall|node_id: FileNodeId|
                    open_after(told@, k as int, node_id, #[trigger] self.open_nodes@.contains(node_id))
                        == open_after(told@, 0, node_id, old(self).open_nodes@.contains(node_id)),
                entries_after_told(told@, k as int, self.selected_node_id, self.tree_nodes@)
                    == entries_after_told(told@, 0, old(self).selected_node_id, hit_entries),
                cx.actions_added(&cx_hits, asked_told),
                asked_told + told_ask(told@, k as int, self.area) == told_ask(
                    told@,
                    0,
                    old(self).area,
                ),
            decreases told@.len() - k,
        {
            let one = told[k];
            let ghost before = *self;
            let ghost out_before = out@;
            let ghost asked_before = asked_told;
            let passed = self.handle_node_action(cx, one.node_id, one.action);
            proof {
                assert(self.tree_nodes@ =~= entries_after_one(
                    before.tree_nodes@,
                    before.selected_node_id,
                    one,
                ));
                let ask = if one.action is WasClicked {
                    seq![CxAction::SetKeyFocus { area: before.area }]
                } else {
                    Seq::<CxAction>::empty()
                };
                asked_told = asked_told + ask;
                assert((asked_before + ask) + told_ask(told@, k + 1, self.area) =~= asked_before + (
                ask + told_ask(told@, k + 1, self.area)));
                assert(ask + told_ask(told@, k + 1, self.area) =~= told_ask(told@, k as int, self.area));
                assert(cx.actions@ =~= cx_hits.actions@ + asked_told);
                assert forall|node_id: FileNodeId|
                    open_after(told@, k + 1, node_id, #[trigger] self.open_nodes@.contains(node_id))
                        == open_after(
                        told@,
                        0,
                        node_id,
                        old(self).open_nodes@.contains(node_id),
                    ) by {
                    assert(open_after(told@, k as int, node_id, before.open_nodes@.contains(node_id))
                        == open_after(told@, 0, node_id, old(self).open_nodes@.contains(node_id)));
                }
            }
            match passed {
                Some(action) => {
                    out.push(action);
                    proof {
                        assert(passed_on_of(one, dragging) =~= seq![action]);
                        assert(out@ =~= out_before + passed_on_of(one, dragging));
                    }
                },
                None => {
                    proof {
                        assert(passed_on_of(one, dragging) =~= Seq::<FileTreeAction>::empty());
                        assert(out@ =~= out_before + passed_on_of(one, dragging));
                    }
                },
            }
            proof {
                assert((out_before + passed_on_of(one, dragging)) + passed_on(told@, k + 1, dragging)
                    =~= out_before + (passed_on_of(one, dragging) + passed_on(
                    told@,
                    k + 1,
                    dragging,
                )));
            }
            k += 1;
        }
        proof {
            assert(out@ + Seq::<FileTreeAction>::empty() =~= out@);
            assert(asked_told + Seq::<CxAction>::empty() =~= asked_told);
            assert(cx.actions@ =~= old(cx).actions@ + (asked + asked_told));
        }
        let ghost told_entries = self.tree_nodes@;
        let focus: Option<bool> = match tree_hit {
            HitEvent::KeyFocus => Some(true),
            HitEvent::KeyFocusLost => Some(false),
            _ => None,
        };
        if let Some(is_focussed) = focus {
            if let Some(node_id) = self.selected_node_id {
                match self.find_node(node_id) {
                    Some(at) => {
                        self.tree_nodes[at].node.is_focussed = is_focussed;
                    },
                    None => {},
                }
            }
        }
        proof {
            assert(self.tree_nodes@ =~= entries_after_focus(
                told_entries,
                self.selected_node_id,
                tree_hit,
            ));
        }
        out
    }

    /// Takes an event and what it means for the area of the tree: the end
    /// of a drag is remembered, and the selected node, if it is alive, gets
    /// and loses the focus with the tree.
    pub fn handle_own_event(&mut self, event: &Event, hit: HitEvent)
        ensures
            final(self).area == old(self).area,
            final(self).file_node == old(self).file_node,
            final(self).folder_node == old(self).folder_node,
            final(self).selected_node_id == old(self).selected_node_id,
            final(self).open_nodes == old(self).open_nodes,
            final(self).dragging_node_id == if *event is DragEnd {
                None
            } else {
                old(self).dragging_node_id
            },
            final(self).tree_nodes@.len() == old(self).tree_nodes@.len(),
            forall|j: int|
                0 <= j < old(self).tree_nodes@.len() ==> {
                    let before = old(self).tree_nodes@[j];
                    let after = #[trigger] final(self).tree_nodes@[j];
                    &&& after.node_id == before.node_id
                    &&& after.live_id == before.live_id
                    &&& after.visited == before.visited
                    &&& after.node.live == before.node.live
                    &&& after.node.is_open == before.node.is_open
                    &&& after.node.is_selected == before.node.is_selected
                    &&& after.node.is_focussed == if (hit is KeyFocus || hit is KeyFocusLost)
                        && old(self).selected_node_id is Some && entry_index(
                        old(self).tree_nodes@,
                        0,
                        old(self).selected_node_id.unwrap(),
                    ) == Some(j) {
                        hit is KeyFocus
                    } else {
                        before.node.is_focussed
                    }
                },
    {
        match event {
            Event::DragEnd => {
                self.dragging_node_id = None;
            },
            _ => (),
        }
        let focus: Option<bool> = match hit {
            HitEvent::KeyFocus => Some(true),
            HitEvent::KeyFocusLost => Some(false),
            _ => None,
        };
        if let Some(is_focussed) = focus {
            if let Some(node_id) = self.selected_node_id {
                match self.find_node(node_id) {
                    Some(i) => {
                        self.tree_nodes[i].node.is_focussed = is_focussed;
                    },
                    None => {},
                }
            }
        }
    }
}

/// What applying child after child of the scope at `index` makes of entry `k`
/// of a file tree: an entry whose kind the scope names is applied to from the
/// child of that name, another stays as it is.
pub open spec fn entry_applied(
    before: &FileTreeEntry,
    cx: &Cx,
    from: ApplyFrom,
    index: int,
    nodes: Seq<LiveNode>,
    after: &FileTreeEntry,
    cx_after: &Cx,
) -> bool {
    &&& after.node_id == before.node_id
    &&& after.live_id == before.live_id
    &&& after.visited == before.visited
    &&& match named_sibling(nodes, index + 1, before.live_id) {
        Some(child) => before.node.applied(cx, from, child, nodes, &after.node, cx_after),
        None => after.node == before.node && *cx_after == *cx,
    }
}

impl LiveHook for FileTree {
    /// Once the tree was applied, the nodes that are alive are brought up to
    /// date: each is applied to from the child of the tree's scope that
    /// names its kind, in the order in which the tree keeps them. Then the
    /// tree asks to be drawn again.
    fn after_apply(&mut self, cx: &mut Cx, from: ApplyFrom, index: usize, nodes: &[LiveNode])
        ensures
            final(self).same_but_nodes(old(self)),
            final(self).tree_nodes@.len() == old(self).tree_nodes@.len(),
            nodes@[index as int].value.is_open() ==> exists|cxs: Seq<Cx>|
                {
                    &&& #[trigger] cxs.len() == old(self).tree_nodes@.len() + 1
                    &&& cxs[0] == *old(cx)
                    &&& final(cx).actions_added(
                        &cxs[old(self).tree_nodes@.len() as int],
                        seq![CxAction::RedrawArea { area: old(self).area }],
                    )
                    &&& forall|k: int|
                        0 <= k < old(self).tree_nodes@.len() ==> #[trigger] entry_applied(
                            &old(self).tree_nodes@[k],
                            &cxs[k],
                            from,
                            index as int,
                            nodes@,
                            &final(self).tree_nodes@[k],
                            &cxs[k + 1],
                        )
                },
            !nodes@[index as int].value.is_open() ==> final(self).tree_nodes == old(self).tree_nodes
                && final(cx).actions_added(
                old(cx),
                seq![CxAction::RedrawArea { area: old(self).area }],
            ),
    {
        proof {
            lemma_node_end_bounds(nodes@, index as int);
            lemma_extends_refl(cx.apply_errors@);
        }
        if index < nodes.len() && nodes[index].value.is_open() {
            let ghost mut cxs: Seq<Cx> = seq![*cx];
            let count: usize = self.tree_nodes.len();
            let mut k: usize = 0;
            while k < count
                invariant
                    k <= count == old(self).tree_nodes@.len(),
                    self.tree_nodes@.len() == count,
                    self.same_but_nodes(old(self)),
                    index < nodes@.len(),
                    nodes@[index as int].value.is_open(),
                    node_end(nodes@, index as int) is Some,
                    cxs.len() == k + 1,
                    cxs[0] == *old(cx),
                    cxs[k as int] == *cx,
                    extends(cx.apply_errors@, old(cx).apply_errors@),
                    forall|j: int| k <= j < count ==> self.tree_nodes@[j] == old(self).tree_nodes@[j],
                    forall|j: int|
                        0 <= j < k ==> #[trigger] entry_applied(
                            &old(self).tree_nodes@[j],
                            &cxs[j],
                            from,
                            index as int,
                            nodes@,
                            &self.tree_nodes@[j],
                            &cxs[j + 1],
                        ),
                decreases count - k,
            {
                let ghost c_before = *cx;
                let ghost entries_before = self.tree_nodes@;
                let ghost cxs_before = cxs;
                let live_id = self.tree_nodes[k].live_id;
                if let Some(child) = child_by_name(nodes, index, live_id) {
                    self.tree_nodes[k].node.apply(cx, from, child, nodes);
                }
                proof {
                    cxs = cxs.push(*cx);
                    lemma_extends_refl(c_before.apply_errors@);
                    lemma_extends_trans(
                        cx.apply_errors@,
                        c_before.apply_errors@,
                        old(cx).apply_errors@,
                    );
                    assert(entry_applied(
                        &old(self).tree_nodes@[k as int],
                        &cxs[k as int],
                        from,
                        index as int,
                        nodes@,
                        &self.tree_nodes@[k as int],
                        &cxs[k + 1],
                    ));
                    assert forall|j: int| 0 <= j < k implies #[trigger] entry_applied(
                        &old(self).tree_nodes@[j],
                        &cxs[j],
                        from,
                        index as int,
                        nodes@,
                        &self.tree_nodes@[j],
                        &cxs[j + 1],
                    ) by {
                        assert(cxs[j] == cxs_before[j]);
                        assert(cxs[j + 1] == cxs_before[j + 1]);
                        assert(self.tree_nodes@[j] == entries_before[j]);
                        assert(entry_applied(
                            &old(self).tree_nodes@[j],
                            &cxs_before[j],
                            from,
                            index as int,
                            nodes@,
                            &entries_before[j],
                            &cxs_before[j + 1],
                        ));
                    }
                }
                k += 1;
            }
            let ghost c_last = *cx;
            cx.redraw_area(self.area);
            proof {
                assert(cxs.len() == old(self).tree_nodes@.len() + 1);
                lemma_extends_refl(c_last.apply_errors@);
                lemma_extends_trans(cx.apply_errors@, c_last.apply_errors@, old(cx).apply_errors@);
            }
        } else {
            cx.redraw_area(self.area);
        }
    }
}

} // verus!
