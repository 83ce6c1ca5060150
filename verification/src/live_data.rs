//! A live object that describes itself: a tree of named fields, arrays and
//! scalars, with which any document can be reconciled.

use vstd::prelude::*;
use crate::cx::{Cx, LiveIdNames};
use crate::live_error::{error_at, lemma_extends_add, LiveError, LiveErrorKind};
use crate::live_float::LiveFloat;
use crate::live_id::LiveId;
use crate::live_node::{lemma_node_end_bounds, node_end, scope_end, LiveNode};
use crate::live_node_slice::{lemma_scope_step, skip_node};
use crate::live_prims::{
    coerce_bool, coerce_color, coerce_float, coerce_id, coerce_int, coerce_str, live_bool,
    live_color, live_float, live_id, live_int, live_str,
};
use crate::live_traits::{unknown_field_errors, ApplyFrom, LiveApply, LiveHook};

verus! {

/// A value of a live object. A scalar keeps its kind for life: reconciliation
/// changes what it holds, never what it is.
pub enum LiveData {
    Bool(bool),
    Int(i64),
    Float(LiveFloat),
    Color(u32),
    Id(LiveId),
    Str(String),
    /// A sequence of items; `proto` is what a new item starts as.
    Array { proto: Box<LiveData>, items: Vec<LiveData> },
    /// Named fields, in the order in which they were declared.
    Object { fields: Vec<LiveField> },
}

/// A named field of an object.
pub struct LiveField {
    pub id: LiveId,
    pub data: LiveData,
}

/// What a `LiveData` holds, as a mathematical value.
pub enum DataView {
    Bool(bool),
    Int(i64),
    Float(LiveFloat),
    Color(u32),
    Id(LiveId),
    Str(Seq<char>),
    Array { proto: Box<DataView>, items: Seq<DataView> },
    Object { fields: Seq<FieldView> },
}

/// What a `LiveField` holds, as a mathematical value.
pub struct FieldView {
    pub id: LiveId,
    pub data: DataView,
}

impl View for LiveData {
    type V = DataView;

    open spec fn view(&self) -> DataView {
        self.model()
    }
}

impl View for LiveField {
    type V = FieldView;

    open spec fn view(&self) -> FieldView {
        FieldView { id: self.id, data: self.data.model() }
    }
}

impl LiveData {
    /// What the value holds.
    pub open spec fn model(&self) -> DataView
        decreases self,
    {
        match self {
            LiveData::Bool(v) => DataView::Bool(*v),
            LiveData::Int(v) => DataView::Int(*v),
            LiveData::Float(v) => DataView::Float(*v),
            LiveData::Color(v) => DataView::Color(*v),
            LiveData::Id(v) => DataView::Id(*v),
            LiveData::Str(v) => DataView::Str(v@),
            LiveData::Array { proto, items } => DataView::Array {
                proto: Box::new(proto.model()),
                items: Seq::new(
                    items@.len(),
                    |i: int|
                        if 0 <= i < items@.len() {
                            items@[i].model()
                        } else {
                            DataView::Bool(false)
                        },
                ),
            },
            LiveData::Object { fields } => DataView::Object {
                fields: Seq::new(
                    fields@.len(),
                    |i: int|
                        if 0 <= i < fields@.len() {
                            FieldView { id: fields@[i].id, data: fields@[i].data.model() }
                        } else {
                            FieldView { id: LiveId(0), data: DataView::Bool(false) }
                        },
                ),
            },
        }
    }
}

/// What the items of an array hold.
pub open spec fn items_view(items: Seq<LiveData>) -> Seq<DataView> {
    Seq::new(items.len(), |i: int| items[i].model())
}

/// What the fields of an object hold.
pub open spec fn fields_view(fields: Seq<LiveField>) -> Seq<FieldView> {
    Seq::new(fields.len(), |i: int| fields[i]@)
}

/// The view of an array is its prototype's view and its items' views.
pub proof fn lemma_array_view(proto: Box<LiveData>, items: Vec<LiveData>)
    ensures
        (LiveData::Array { proto, items })@ == (DataView::Array {
            proto: Box::new(proto@),
            items: items_view(items@),
        }),
{
    let data = LiveData::Array { proto, items };
    assert(data@->Array_items =~= items_view(items@));
}

/// The view of an object is its fields' views.
pub proof fn lemma_object_view(fields: Vec<LiveField>)
    ensures
        (LiveData::Object { fields })@ == (DataView::Object { fields: fields_view(fields@) }),
{
    let data = LiveData::Object { fields };
    assert(data@->Object_fields =~= fields_view(fields@));
}

/// A new value and the diagnostics that making it recorded.
pub struct Applied {
    pub data: DataView,
    pub errors: Seq<LiveError>,
}

/// New fields and the diagnostics that making them recorded.
pub struct AppliedFields {
    pub fields: Seq<FieldView>,
    pub errors: Seq<LiveError>,
}

/// New items and the diagnostics that making them recorded.
pub struct AppliedItems {
    pub items: Seq<DataView>,
    pub errors: Seq<LiveError>,
}

/// The place of the first field, from `from` on, that is named `id`.
pub open spec fn field_index(fields: Seq<FieldView>, from: int, id: LiveId) -> Option<int>
    decreases fields.len() - from,
{
    if from < 0 || from >= fields.len() {
        None
    } else if fields[from].id == id {
        Some(from)
    } else {
        field_index(fields, from + 1, id)
    }
}

/// The value as it was, and the diagnostic for a node of a kind that the
/// value does not take.
pub open spec fn refuse(data: DataView, kind: LiveErrorKind, nodes: Seq<LiveNode>, index: int)
    -> Applied {
    Applied { data, errors: seq![error_at(kind, nodes, index)] }
}

/// What a scalar becomes: the value that the node gives for its kind, or the
/// scalar as it was, with a diagnostic, where the node gives none.
pub open spec fn scalar_or_refuse(
    data: DataView,
    given: Option<DataView>,
    nodes: Seq<LiveNode>,
    index: int,
) -> Applied {
    match given {
        Some(v) => Applied { data: v, errors: Seq::empty() },
        None => refuse(data, LiveErrorKind::WrongValueType, nodes, index),
    }
}

/// What reconciling the value that starts at `index` makes of `data`.
///
/// A scalar takes the value that the node gives for its kind. An array takes
/// an array node, child by child. An object takes a node that opens an
/// object, child by child. Every other node is refused: the data stays as it
/// was and a diagnostic is recorded.
pub open spec fn apply_node(data: DataView, names: LiveIdNames, nodes: Seq<LiveNode>, index: int)
    -> Applied
    decreases nodes.len() - index, 0nat,
{
    let value = nodes[index].value;
    match data {
        DataView::Bool(_) => scalar_or_refuse(
            data,
            match coerce_bool(value) {
                Some(v) => Some(DataView::Bool(v)),
                None => None,
            },
            nodes,
            index,
        ),
        DataView::Int(_) => scalar_or_refuse(
            data,
            match coerce_int(value) {
                Some(v) => Some(DataView::Int(v)),
                None => None,
            },
            nodes,
            index,
        ),
        DataView::Float(_) => scalar_or_refuse(
            data,
            match coerce_float(value) {
                Some(v) => Some(DataView::Float(v)),
                None => None,
            },
            nodes,
            index,
        ),
        DataView::Color(_) => scalar_or_refuse(
            data,
            match coerce_color(value) {
                Some(v) => Some(DataView::Color(v)),
                None => None,
            },
            nodes,
            index,
        ),
        DataView::Id(_) => scalar_or_refuse(
            data,
            match coerce_id(value) {
                Some(v) => Some(DataView::Id(v)),
                None => None,
            },
            nodes,
            index,
        ),
        DataView::Str(_) => scalar_or_refuse(
            data,
            match coerce_str(names, value) {
                Some(v) => Some(DataView::Str(v)),
                None => None,
            },
            nodes,
            index,
        ),
        DataView::Array { proto, items } => if 0 <= index < nodes.len() && value.is_array() {
            let r = apply_items(*proto, items, names, nodes, index + 1, 0);
            Applied { data: DataView::Array { proto, items: r.items }, errors: r.errors }
        } else {
            refuse(data, LiveErrorKind::WrongValueType, nodes, index)
        },
        DataView::Object { fields } => if 0 <= index < nodes.len() && value.is_structy_type() {
            let r = apply_fields(fields, names, nodes, index + 1);
            Applied { data: DataView::Object { fields: r.fields }, errors: r.errors }
        } else {
            refuse(data, LiveErrorKind::WrongTypeForStruct, nodes, index)
        },
    }
}

/// What the child at `at` makes of the fields of an object: it is applied to
/// the first field of its name; where there is none, the fields stay as they
/// were, and a diagnostic is recorded unless the child declares a class or
/// overrides an instance.
pub open spec fn apply_field(fields: Seq<FieldView>, names: LiveIdNames, nodes: Seq<LiveNode>, at: int)
    -> AppliedFields
    decreases nodes.len() - at, 1nat,
{
    match field_index(fields, 0, nodes[at].id) {
        Some(j) => if 0 <= j < fields.len() {
            let r = apply_node(fields[j].data, names, nodes, at);
            AppliedFields {
                fields: fields.update(j, FieldView { id: fields[j].id, data: r.data }),
                errors: r.errors,
            }
        } else {
            AppliedFields { fields, errors: Seq::empty() }
        },
        None => AppliedFields { fields, errors: unknown_field_errors(nodes, at) },
    }
}

/// What the children from `at` up to the close of their scope make of the
/// fields of an object, one after the other.
pub open spec fn apply_fields(fields: Seq<FieldView>, names: LiveIdNames, nodes: Seq<LiveNode>, at: int)
    -> AppliedFields
    decreases nodes.len() - at, 2nat,
{
    if at < 0 || at >= nodes.len() || nodes[at].value.is_close() {
        AppliedFields { fields, errors: Seq::empty() }
    } else {
        match node_end(nodes, at) {
            Some(next) => if at < next <= nodes.len() {
                let step = apply_field(fields, names, nodes, at);
                let rest = apply_fields(step.fields, names, nodes, next);
                AppliedFields { fields: rest.fields, errors: step.errors + rest.errors }
            } else {
                AppliedFields { fields, errors: Seq::empty() }
            },
            None => AppliedFields { fields, errors: Seq::empty() },
        }
    }
}

/// What the children from `at` up to the close of their scope make of the
/// items of an array from item `k` on: each child is applied to the item at
/// its place, or to a copy of the prototype where the array has no item
/// there; the items beyond the last child are dropped.
pub open spec fn apply_items(
    proto: DataView,
    items: Seq<DataView>,
    names: LiveIdNames,
    nodes: Seq<LiveNode>,
    at: int,
    k: int,
) -> AppliedItems
    decreases nodes.len() - at, 2nat,
{
    let kept = AppliedItems {
        items: if 0 <= k <= items.len() {
            items.subrange(0, k)
        } else {
            items
        },
        errors: Seq::empty(),
    };
    if at < 0 || at >= nodes.len() || nodes[at].value.is_close() {
        kept
    } else {
        match node_end(nodes, at) {
            Some(next) => if at < next <= nodes.len() {
                let target = if 0 <= k < items.len() {
                    items[k]
                } else {
                    proto
                };
                let r = apply_node(target, names, nodes, at);
                let stepped = if 0 <= k < items.len() {
                    items.update(k, r.data)
                } else {
                    items.push(r.data)
                };
                let rest = apply_items(proto, stepped, names, nodes, next, k + 1);
                AppliedItems { items: rest.items, errors: r.errors + rest.errors }
            } else {
                kept
            },
            None => kept,
        }
    }
}

impl Clone for LiveData {
    fn clone(&self) -> (r: LiveData)
        ensures
            r@ == self@,
        decreases *self,
    {
        match self {
            LiveData::Bool(v) => LiveData::Bool(*v),
            LiveData::Int(v) => LiveData::Int(*v),
            LiveData::Float(v) => LiveData::Float(*v),
            LiveData::Color(v) => LiveData::Color(*v),
            LiveData::Id(v) => LiveData::Id(*v),
            LiveData::Str(v) => LiveData::Str(v.clone()),
            LiveData::Array { proto, items } => {
                let out = clone_items(items);
                let p = Box::new((**proto).clone());
                proof {
                    lemma_array_view(*proto, *items);
                    lemma_array_view(p, out);
                }
                LiveData::Array { proto: p, items: out }
            },
            LiveData::Object { fields } => {
                let out = clone_fields(fields);
                proof {
                    lemma_object_view(*fields);
                    lemma_object_view(out);
                }
                LiveData::Object { fields: out }
            },
        }
    }
}

fn clone_items(items: &Vec<LiveData>) -> (r: Vec<LiveData>)
    ensures
        items_view(r@) == items_view(items@),
    decreases *items,
{
    let mut out: Vec<LiveData> = Vec::new();
    let mut i: usize = 0;
    while i < items.len()
        invariant
            i <= items@.len(),
            out@.len() == i,
            forall|j: int| 0 <= j < i ==> out@[j]@ == items@[j]@,
        decreases items@.len() - i,
    {
        out.push(items[i].clone());
        i += 1;
    }
    proof {
        assert(items_view(out@) =~= items_view(items@));
    }
    out
}

fn clone_fields(fields: &Vec<LiveField>) -> (r: Vec<LiveField>)
    ensures
        fields_view(r@) == fields_view(fields@),
    decreases *fields,
{
    let mut out: Vec<LiveField> = Vec::new();
    let mut i: usize = 0;
    while i < fields.len()
        invariant
            i <= fields@.len(),
            out@.len() == i,
            forall|j: int| 0 <= j < i ==> out@[j]@ == fields@[j]@,
        decreases fields@.len() - i,
    {
        out.push(LiveField { id: fields[i].id, data: fields[i].data.clone() });
        i += 1;
    }
    proof {
        assert(fields_view(out@) =~= fields_view(fields@));
    }
    out
}

/// The place of the first field named `id`.
pub fn find_field(fields: &Vec<LiveField>, id: LiveId) -> (r: Option<usize>)
    ensures
        match r {
            Some(j) => j < fields@.len() && field_index(fields_view(fields@), 0, id) == Some(
                j as int,
            ),
            None => field_index(fields_view(fields@), 0, id) is None,
        },
{
    let mut i: usize = 0;
    while i < fields.len()
        invariant
            i <= fields@.len(),
            field_index(fields_view(fields@), i as int, id) == field_index(
                fields_view(fields@),
                0,
                id,
            ),
        decreases fields@.len() - i,
    {
        if fields[i].id == id {
            return Some(i);
        }
        i += 1;
    }
    None
}

impl LiveData {
    /// Reconciles the value that starts at `index` with this data, and
    /// returns the index just past the value.
    pub fn apply_data(&mut self, cx: &mut Cx, index: usize, nodes: &[LiveNode]) -> (next: usize)
        requires
            node_end(nodes@, index as int) is Some,
        ensures
            node_end(nodes@, index as int) == Some(next as int),
            final(self)@ == apply_node(old(self)@, old(cx).id_names, nodes@, index as int).data,
            final(cx).errors_added(
                old(cx),
                apply_node(old(self)@, old(cx).id_names, nodes@, index as int).errors,
            ),
        decreases nodes@.len() - index,
    {
        let len: usize = nodes.len();
        proof {
            lemma_node_end_bounds(nodes@, index as int);
            lemma_node_end_bounds(nodes@, index + 1);
        }
        match self {
            LiveData::Bool(v) => {
                match live_bool(&nodes[index].value) {
                    Some(given) => {
                        *v = given;
                    },
                    None => {
                        cx.apply_error_wrong_value_type_for_primitive(index, nodes);
                    },
                }
                skip_node(nodes, index)
            },
            LiveData::Int(v) => {
                match live_int(&nodes[index].value) {
                    Some(given) => {
                        *v = given;
                    },
                    None => {
                        cx.apply_error_wrong_value_type_for_primitive(index, nodes);
                    },
                }
                skip_node(nodes, index)
            },
            LiveData::Float(v) => {
                match live_float(&nodes[index].value) {
                    Some(given) => {
                        *v = given;
                    },
                    None => {
                        cx.apply_error_wrong_value_type_for_primitive(index, nodes);
                    },
                }
                skip_node(nodes, index)
            },
            LiveData::Color(v) => {
                match live_color(&nodes[index].value) {
                    Some(given) => {
                        *v = given;
                    },
                    None => {
                        cx.apply_error_wrong_value_type_for_primitive(index, nodes);
                    },
                }
                skip_node(nodes, index)
            },
            LiveData::Id(v) => {
                match live_id(&nodes[index].value) {
                    Some(given) => {
                        *v = given;
                    },
                    None => {
                        cx.apply_error_wrong_value_type_for_primitive(index, nodes);
                    },
                }
                skip_node(nodes, index)
            },
            LiveData::Str(v) => {
                match live_str(&cx.id_names, &nodes[index].value) {
                    Some(given) => {
                        *v = given;
                    },
                    None => {
                        cx.apply_error_wrong_value_type_for_primitive(index, nodes);
                    },
                }
                skip_node(nodes, index)
            },
            LiveData::Array { proto, items } => {
                proof {
                    lemma_array_view(*proto, *items);
                }
                if !nodes[index].value.is_array() {
                    cx.apply_error_wrong_value_type_for_primitive(index, nodes);
                    return skip_node(nodes, index);
                }
                let ghost names = cx.id_names;
                let ghost total = apply_items(
                    proto@,
                    items_view(items@),
                    names,
                    nodes@,
                    index + 1,
                    0,
                );
                let ghost mut done: Seq<LiveError> = Seq::empty();
                let old_len: usize = items.len();
                let mut at: usize = index + 1;
                let mut k: usize = 0;
                while at < len && !nodes[at].value.is_close()
                    invariant
                        len == nodes@.len(),
                        index < at < len,
                        k < at,
                        scope_end(nodes@, at as int) is Some,
                        scope_end(nodes@, at as int) == node_end(nodes@, index as int),
                        k <= items@.len(),
                        k < old_len ==> items@.len() == old_len,
                        k >= old_len ==> items@.len() == k,
                        cx.id_names == names,
                        cx.errors_added(old(cx), done),
                        apply_items(proto@, items_view(items@), names, nodes@, at as int, k as int).items
                            == total.items,
                        done + apply_items(
                            proto@,
                            items_view(items@),
                            names,
                            nodes@,
                            at as int,
                            k as int,
                        ).errors == total.errors,
                    decreases len - at,
                {
                    proof {
                        lemma_scope_step(nodes@, at as int);
                        lemma_node_end_bounds(nodes@, node_end(nodes@, at as int).unwrap());
                    }
                    let ghost before = items_view(items@);
                    let ghost target = if k < items@.len() {
                        items@[k as int]@
                    } else {
                        proto@
                    };
                    let ghost step = apply_node(target, names, nodes@, at as int);
                    let ghost at_before = at;
                    if k < old_len {
                        at = items[k].apply_data(cx, at, nodes);
                        proof {
                            assert(items_view(items@) =~= before.update(k as int, step.data));
                        }
                    } else {
                        let mut item = (**proto).clone();
                        at = item.apply_data(cx, at, nodes);
                        items.push(item);
                        proof {
                            assert(items_view(items@) =~= before.push(step.data));
                        }
                    }
                    proof {
                        let rest = apply_items(
                            proto@,
                            items_view(items@),
                            names,
                            nodes@,
                            at as int,
                            k + 1,
                        );
                        assert(done + (step.errors + rest.errors) =~= (done + step.errors)
                            + rest.errors);
                        done = done + step.errors;
                    }
                    k += 1;
                }
                let ghost before = items_view(items@);
                items.truncate(k);
                proof {
                    assert(items_view(items@) =~= before.subrange(0, k as int));
                    assert(done + Seq::<LiveError>::empty() =~= done);
                    lemma_array_view(*proto, *items);
                }
                at + 1
            },
            LiveData::Object { fields } => {
                proof {
                    lemma_object_view(*fields);
                }
                if !nodes[index].value.is_structy_type() {
                    cx.apply_error_wrong_type_for_struct(index, nodes);
                    return skip_node(nodes, index);
                }
                let ghost names = cx.id_names;
                let ghost total = apply_fields(fields_view(fields@), names, nodes@, index + 1);
                let ghost mut done: Seq<LiveError> = Seq::empty();
                let mut at: usize = index + 1;
                while at < len && !nodes[at].value.is_close()
                    invariant
                        len == nodes@.len(),
                        index < at < len,
                        scope_end(nodes@, at as int) is Some,
                        scope_end(nodes@, at as int) == node_end(nodes@, index as int),
                        cx.id_names == names,
                        cx.errors_added(old(cx), done),
                        apply_fields(fields_view(fields@), names, nodes@, at as int).fields
                            == total.fields,
                        done + apply_fields(fields_view(fields@), names, nodes@, at as int).errors
                            == total.errors,
                    decreases len - at,
                {
                    proof {
                        lemma_scope_step(nodes@, at as int);
                        lemma_node_end_bounds(nodes@, node_end(nodes@, at as int).unwrap());
                    }
                    let ghost before = fields_view(fields@);
                    let ghost step = apply_field(before, names, nodes@, at as int);
                    match find_field(fields, nodes[at].id) {
                        Some(j) => {
                            at = fields[j].data.apply_data(cx, at, nodes);
                            proof {
                                assert(fields_view(fields@) =~= step.fields);
                            }
                        },
                        None => {
                            if !nodes[at].id.is_capitalised() && !nodes[at].origin.node_has_prefix() {
                                cx.apply_error_no_matching_field(at, nodes);
                            }
                            at = skip_node(nodes, at);
                        },
                    }
                    proof {
                        let rest = apply_fields(fields_view(fields@), names, nodes@, at as int);
                        assert(done + (step.errors + rest.errors) =~= (done + step.errors)
                            + rest.errors);
                        done = done + step.errors;
                    }
                }
                proof {
                    assert(done + Seq::<LiveError>::empty() =~= done);
                    lemma_object_view(*fields);
                }
                at + 1
            },
        }
    }
}

impl LiveField {
    pub fn new(id: LiveId, data: LiveData) -> (r: LiveField)
        ensures
            r.id == id,
            r.data == data,
    {
        LiveField { id, data }
    }
}

impl LiveData {
    /// An object with the given fields.
    pub fn object(fields: Vec<LiveField>) -> (r: LiveData)
        ensures
            r == (LiveData::Object { fields }),
            r@ == (DataView::Object { fields: fields_view(fields@) }),
    {
        proof {
            lemma_object_view(fields);
        }
        LiveData::Object { fields }
    }

    /// An array without items, whose new items start as copies of `proto`.
    pub fn array(proto: LiveData) -> (r: LiveData)
        ensures
            r@ == (DataView::Array { proto: Box::new(proto@), items: Seq::empty() }),
    {
        let items: Vec<LiveData> = Vec::new();
        let proto = Box::new(proto);
        proof {
            lemma_array_view(proto, items);
            assert(items_view(items@) =~= Seq::<DataView>::empty());
        }
        LiveData::Array { proto, items }
    }

    /// The first field named `id`, if the data is an object that has one.
    pub fn field(&self, id: LiveId) -> (r: Option<&LiveData>)
        ensures
            match r {
                Some(data) => self@ is Object && field_index(self@->Object_fields, 0, id) is Some
                    && data@ == self@->Object_fields[field_index(
                    self@->Object_fields,
                    0,
                    id,
                ).unwrap()].data,
                None => !(self@ is Object) || field_index(self@->Object_fields, 0, id) is None,
            },
    {
        match self {
            LiveData::Object { fields } => {
                proof {
                    lemma_object_view(*fields);
                }
                match find_field(fields, id) {
                    Some(j) => Some(&fields[j].data),
                    None => None,
                }
            },
            _ => None,
        }
    }

    /// The number of items, if the data is an array.
    pub fn item_count(&self) -> (r: Option<usize>)
        ensures
            match r {
                Some(n) => self@ is Array && self@->Array_items.len() == n,
                None => !(self@ is Array),
            },
    {
        match self {
            LiveData::Array { proto, items } => {
                proof {
                    lemma_array_view(*proto, *items);
                }
                Some(items.len())
            },
            _ => None,
        }
    }

    /// Item `k`, if the data is an array that has one.
    pub fn item(&self, k: usize) -> (r: Option<&LiveData>)
        ensures
            match r {
                Some(data) => self@ is Array && k < self@->Array_items.len() && data@
                    == self@->Array_items[k as int],
                None => !(self@ is Array) || k >= self@->Array_items.len(),
            },
    {
        match self {
            LiveData::Array { proto, items } => {
                proof {
                    lemma_array_view(*proto, *items);
                }
                if k < items.len() {
                    Some(&items[k])
                } else {
                    None
                }
            },
            _ => None,
        }
    }

    pub fn as_bool(&self) -> (r: Option<bool>)
        ensures
            r == match self@ {
                DataView::Bool(v) => Some(v),
                _ => None,
            },
    {
        match self {
            LiveData::Bool(v) => Some(*v),
            _ => None,
        }
    }

    pub fn as_int(&self) -> (r: Option<i64>)
        ensures
            r == match self@ {
                DataView::Int(v) => Some(v),
                _ => None,
            },
    {
        match self {
            LiveData::Int(v) => Some(*v),
            _ => None,
        }
    }

    pub fn as_float(&self) -> (r: Option<LiveFloat>)
        ensures
            r == match self@ {
                DataView::Float(v) => Some(v),
                _ => None,
            },
    {
        match self {
            LiveData::Float(v) => Some(*v),
            _ => None,
        }
    }

    pub fn as_color(&self) -> (r: Option<u32>)
        ensures
            r == match self@ {
                DataView::Color(v) => Some(v),
                _ => None,
            },
    {
        match self {
            LiveData::Color(v) => Some(*v),
            _ => None,
        }
    }

    pub fn as_id(&self) -> (r: Option<LiveId>)
        ensures
            r == match self@ {
                DataView::Id(v) => Some(v),
                _ => None,
            },
    {
        match self {
            LiveData::Id(v) => Some(*v),
            _ => None,
        }
    }

    pub fn as_str(&self) -> (r: Option<&String>)
        ensures
            match r {
                Some(s) => self@ == DataView::Str(s@),
                None => !(self@ is Str),
            },
    {
        match self {
            LiveData::Str(v) => Some(v),
            _ => None,
        }
    }
}

impl LiveHook for LiveData {
}

impl LiveApply for LiveData {
    /// The data becomes what `apply_node` says, and the context gains the
    /// diagnostics that `apply_node` lists. Why the nodes are applied makes
    /// no difference.
    open spec fn applied(
        &self,
        cx: &Cx,
        from: ApplyFrom,
        index: int,
        nodes: Seq<LiveNode>,
        after: &Self,
        cx_after: &Cx,
    ) -> bool {
        &&& after@ == apply_node(self@, cx.id_names, nodes, index).data
        &&& cx_after.errors_added(cx, apply_node(self@, cx.id_names, nodes, index).errors)
    }

    fn apply(&mut self, cx: &mut Cx, from: ApplyFrom, index: usize, nodes: &[LiveNode]) -> (next:
        usize) {
        proof {
            lemma_extends_add(
                cx.apply_errors@,
                apply_node(self@, cx.id_names, nodes@, index as int).errors,
            );
        }
        self.apply_data(cx, index, nodes)
    }
}

} // verus!
