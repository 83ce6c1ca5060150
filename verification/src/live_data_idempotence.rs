//! Reconciling the same nodes a second time changes nothing.

use vstd::prelude::*;
use crate::cx::LiveIdNames;
use crate::live_data::{
    apply_field, apply_fields, apply_items, apply_node, field_index, DataView, FieldView,
};
use crate::live_data_laws::{
    lemma_apply_field_keeps_names, lemma_apply_fields_keeps_names, lemma_field_index_bounds,
    lemma_field_index_same_names, same_names,
};
use crate::live_node::{node_end, LiveNode};
use crate::live_prims::{
    coerce_bool, coerce_color, coerce_float, coerce_id, coerce_int, coerce_str,
};
use crate::live_node_slice::siblings_from;

verus! {

/// What the value that starts at `index` makes of `data`.
pub open spec fn patched(data: DataView, names: LiveIdNames, nodes: Seq<LiveNode>, index: int)
    -> DataView {
    apply_node(data, names, nodes, index).data
}

/// What the values that start at the indices of `list` make of `data`, applied
/// one after the other.
pub open spec fn apply_list(data: DataView, names: LiveIdNames, nodes: Seq<LiveNode>, list: Seq<int>)
    -> DataView
    decreases list.len(),
{
    if list.len() == 0 {
        data
    } else {
        patched(apply_list(data, names, nodes, list.drop_last()), names, nodes, list.last())
    }
}

/// Applying a list is applying its first part and then its second.
pub proof fn lemma_apply_list_concat(
    data: DataView,
    names: LiveIdNames,
    nodes: Seq<LiveNode>,
    a: Seq<int>,
    b: Seq<int>,
)
    ensures
        apply_list(data, names, nodes, a + b) == apply_list(
            apply_list(data, names, nodes, a),
            names,
            nodes,
            b,
        ),
    decreases b.len(),
{
    if b.len() == 0 {
        assert(a + b =~= a);
    } else {
        lemma_apply_list_concat(data, names, nodes, a, b.drop_last());
        assert((a + b).drop_last() =~= a + b.drop_last());
        assert((a + b).last() == b.last());
    }
}

/// Applying a list of one index is applying the value at that index.
pub proof fn lemma_apply_list_one(data: DataView, names: LiveIdNames, nodes: Seq<LiveNode>, index: int)
    ensures
        apply_list(data, names, nodes, seq![index]) == patched(data, names, nodes, index),
{
    assert(seq![index].drop_last() =~= Seq::<int>::empty());
    assert(apply_list(data, names, nodes, Seq::<int>::empty()) == data);
}

/// Two values are of one kind: both the same kind of scalar, or arrays with
/// the same prototype, or objects whose fields have the same names.
pub open spec fn same_kind(a: DataView, b: DataView) -> bool {
    match a {
        DataView::Bool(_) => b is Bool,
        DataView::Int(_) => b is Int,
        DataView::Float(_) => b is Float,
        DataView::Color(_) => b is Color,
        DataView::Id(_) => b is Id,
        DataView::Str(_) => b is Str,
        DataView::Array { proto, .. } => b is Array && b->Array_proto == proto,
        DataView::Object { fields } => b is Object && same_names(b->Object_fields, fields),
    }
}

/// Reconciliation keeps the kind of a value.
pub proof fn lemma_patched_same_kind(data: DataView, names: LiveIdNames, nodes: Seq<LiveNode>, index: int)
    ensures
        same_kind(data, patched(data, names, nodes, index)),
{
    match data {
        DataView::Object { fields } => {
            lemma_apply_fields_keeps_names(fields, names, nodes, index + 1);
        },
        _ => {},
    }
}

pub proof fn lemma_same_kind_trans(a: DataView, b: DataView, c: DataView)
    requires
        same_kind(a, b),
        same_kind(b, c),
    ensures
        same_kind(a, c),
{
    match a {
        DataView::Object { fields } => {
            let fb = b->Object_fields;
            let fc = c->Object_fields;
            assert forall|i: int| 0 <= i < fc.len() implies (#[trigger] fc[i]).id == fields[i].id by {
                assert(fb[i].id == fields[i].id);
            }
        },
        _ => {},
    }
}

/// Reconciliation with a list keeps the kind of a value.
pub proof fn lemma_apply_list_same_kind(
    data: DataView,
    names: LiveIdNames,
    nodes: Seq<LiveNode>,
    list: Seq<int>,
)
    ensures
        same_kind(data, apply_list(data, names, nodes, list)),
    decreases list.len(),
{
    if list.len() == 0 {
        match data {
            DataView::Object { fields } => {},
            _ => {},
        }
    } else {
        let before = apply_list(data, names, nodes, list.drop_last());
        lemma_apply_list_same_kind(data, names, nodes, list.drop_last());
        lemma_patched_same_kind(before, names, nodes, list.last());
        lemma_same_kind_trans(data, before, patched(before, names, nodes, list.last()));
    }
}

/// The children from `at` up to the close of their scope that are applied to
/// field `j` of an object with the given fields.
pub open spec fn targets(fields: Seq<FieldView>, nodes: Seq<LiveNode>, at: int, j: int) -> Seq<int>
    decreases nodes.len() - at,
{
    if at < 0 || at >= nodes.len() || nodes[at].value.is_close() {
        Seq::empty()
    } else {
        match node_end(nodes, at) {
            Some(next) => if at < next <= nodes.len() {
                let rest = targets(fields, nodes, next, j);
                if field_index(fields, 0, nodes[at].id) == Some(j) {
                    seq![at] + rest
                } else {
                    rest
                }
            } else {
                Seq::empty()
            },
            None => Seq::empty(),
        }
    }
}

/// The nodes that the values at the indices of `list`, applied one after the
/// other to an object with the given fields, apply to field `j`.
pub open spec fn selected(fields: Seq<FieldView>, nodes: Seq<LiveNode>, list: Seq<int>, j: int)
    -> Seq<int>
    decreases list.len(),
{
    if list.len() == 0 {
        Seq::empty()
    } else {
        let m = list.last();
        selected(fields, nodes, list.drop_last(), j) + if 0 <= m < nodes.len()
            && nodes[m].value.is_structy_type() {
            targets(fields, nodes, m + 1, j)
        } else {
            Seq::empty()
        }
    }
}

proof fn lemma_targets_same_names(
    a: Seq<FieldView>,
    b: Seq<FieldView>,
    nodes: Seq<LiveNode>,
    at: int,
    j: int,
)
    requires
        same_names(a, b),
    ensures
        targets(a, nodes, at, j) == targets(b, nodes, at, j),
    decreases nodes.len() - at,
{
    if at < 0 || at >= nodes.len() || nodes[at].value.is_close() {
    } else {
        match node_end(nodes, at) {
            Some(next) => {
                if at < next <= nodes.len() {
                    lemma_targets_same_names(a, b, nodes, next, j);
                    lemma_field_index_same_names(a, b, 0, nodes[at].id);
                }
            },
            None => {},
        }
    }
}

proof fn lemma_selected_same_names(
    a: Seq<FieldView>,
    b: Seq<FieldView>,
    nodes: Seq<LiveNode>,
    list: Seq<int>,
    j: int,
)
    requires
        same_names(a, b),
    ensures
        selected(a, nodes, list, j) == selected(b, nodes, list, j),
    decreases list.len(),
{
    if list.len() > 0 {
        lemma_selected_same_names(a, b, nodes, list.drop_last(), j);
        lemma_targets_same_names(a, b, nodes, list.last() + 1, j);
    }
}

proof fn lemma_selected_concat(
    fields: Seq<FieldView>,
    nodes: Seq<LiveNode>,
    a: Seq<int>,
    b: Seq<int>,
    j: int,
)
    ensures
        selected(fields, nodes, a + b, j) == selected(fields, nodes, a, j) + selected(
            fields,
            nodes,
            b,
            j,
        ),
    decreases b.len(),
{
    if b.len() == 0 {
        assert(a + b =~= a);
        assert(selected(fields, nodes, a, j) + Seq::<int>::empty() =~= selected(
            fields,
            nodes,
            a,
            j,
        ));
    } else {
        lemma_selected_concat(fields, nodes, a, b.drop_last(), j);
        assert((a + b).drop_last() =~= a + b.drop_last());
        assert((a + b).last() == b.last());
        let m = b.last();
        let t = if 0 <= m < nodes.len() && nodes[m].value.is_structy_type() {
            targets(fields, nodes, m + 1, j)
        } else {
            Seq::empty()
        };
        assert((selected(fields, nodes, a, j) + selected(fields, nodes, b.drop_last(), j)) + t
            =~= selected(fields, nodes, a, j) + (selected(fields, nodes, b.drop_last(), j) + t));
    }
}

/// Walking the children of a scope applies to each field exactly the
/// children that name it, in order.
proof fn lemma_fields_walk(
    fields: Seq<FieldView>,
    names: LiveIdNames,
    nodes: Seq<LiveNode>,
    at: int,
    j: int,
)
    requires
        0 <= j < fields.len(),
    ensures
        same_names(apply_fields(fields, names, nodes, at).fields, fields),
        apply_fields(fields, names, nodes, at).fields[j].data == apply_list(
            fields[j].data,
            names,
            nodes,
            targets(fields, nodes, at, j),
        ),
    decreases nodes.len() - at,
{
    lemma_apply_fields_keeps_names(fields, names, nodes, at);
    if at < 0 || at >= nodes.len() || nodes[at].value.is_close() {
    } else {
        match node_end(nodes, at) {
            Some(next) => {
                if at < next <= nodes.len() {
                    let step = apply_field(fields, names, nodes, at);
                    lemma_apply_field_keeps_names(fields, names, nodes, at);
                    lemma_fields_walk(step.fields, names, nodes, next, j);
                    lemma_targets_same_names(step.fields, fields, nodes, next, j);
                    lemma_field_index_bounds(fields, 0, nodes[at].id);
                    let rest = targets(fields, nodes, next, j);
                    if field_index(fields, 0, nodes[at].id) == Some(j) {
                        lemma_apply_list_concat(fields[j].data, names, nodes, seq![at], rest);
                        lemma_apply_list_one(fields[j].data, names, nodes, at);
                    }
                }
            },
            None => {},
        }
    }
}

/// Applying a list of values to an object applies to each field exactly the
/// nodes that are selected for it, in order.
proof fn lemma_object_list(
    fields: Seq<FieldView>,
    names: LiveIdNames,
    nodes: Seq<LiveNode>,
    list: Seq<int>,
    j: int,
)
    requires
        0 <= j < fields.len(),
    ensures
        apply_list(DataView::Object { fields }, names, nodes, list) is Object,
        same_names(apply_list(DataView::Object { fields }, names, nodes, list)->Object_fields, fields),
        apply_list(DataView::Object { fields }, names, nodes, list)->Object_fields[j].data
            == apply_list(fields[j].data, names, nodes, selected(fields, nodes, list, j)),
    decreases list.len(),
{
    let object = DataView::Object { fields };
    if list.len() == 0 {
    } else {
        let m = list.last();
        let before = apply_list(object, names, nodes, list.drop_last());
        lemma_object_list(fields, names, nodes, list.drop_last(), j);
        let mid = before->Object_fields;
        let sel = selected(fields, nodes, list.drop_last(), j);
        if 0 <= m < nodes.len() && nodes[m].value.is_structy_type() {
            lemma_fields_walk(mid, names, nodes, m + 1, j);
            lemma_targets_same_names(mid, fields, nodes, m + 1, j);
            let t = targets(fields, nodes, m + 1, j);
            lemma_apply_list_concat(fields[j].data, names, nodes, sel, t);
            let after = apply_fields(mid, names, nodes, m + 1).fields;
            assert forall|i: int| 0 <= i < after.len() implies (#[trigger] after[i]).id
                == fields[i].id by {
                assert(mid[i].id == fields[i].id);
            }
        } else {
            assert(sel + Seq::<int>::empty() =~= sel);
        }
    }
}

/// Whether the node at `m` opens an array.
pub open spec fn opens_array(nodes: Seq<LiveNode>, m: int) -> bool {
    0 <= m < nodes.len() && nodes[m].value.is_array()
}

/// The number of items of an array of `len` items once the values at the
/// indices of `list` were applied to it: that of the children of the last
/// array node among them.
pub open spec fn final_len(len: int, nodes: Seq<LiveNode>, list: Seq<int>) -> int
    decreases list.len(),
{
    if list.len() == 0 {
        len
    } else if opens_array(nodes, list.last()) {
        siblings_from(nodes, list.last() + 1).len() as int
    } else {
        final_len(len, nodes, list.drop_last())
    }
}

/// Whether one of the values at the indices of `list` is an array too short
/// to have an item `i`: applying it drops item `i`.
pub open spec fn killed(nodes: Seq<LiveNode>, list: Seq<int>, i: int) -> bool
    decreases list.len(),
{
    if list.len() == 0 {
        false
    } else if opens_array(nodes, list.last()) && siblings_from(nodes, list.last() + 1).len() <= i {
        true
    } else {
        killed(nodes, list.drop_last(), i)
    }
}

/// The nodes that the values at the indices of `list` apply to item `i` of an
/// array, counted from the last of them that dropped the item.
pub open spec fn item_patches(nodes: Seq<LiveNode>, list: Seq<int>, i: int) -> Seq<int>
    decreases list.len(),
{
    if list.len() == 0 {
        Seq::empty()
    } else if opens_array(nodes, list.last()) {
        if 0 <= i < siblings_from(nodes, list.last() + 1).len() {
            item_patches(nodes, list.drop_last(), i) + seq![
                siblings_from(nodes, list.last() + 1)[i],
            ]
        } else {
            Seq::empty()
        }
    } else {
        item_patches(nodes, list.drop_last(), i)
    }
}

/// Walking the children of an array node keeps the items before `k`, and
/// applies child after child to item after item from `k` on, or to the
/// prototype where the array has no such item.
proof fn lemma_items_walk(
    proto: DataView,
    items: Seq<DataView>,
    names: LiveIdNames,
    nodes: Seq<LiveNode>,
    at: int,
    k: int,
)
    requires
        0 <= k <= items.len(),
    ensures
        apply_items(proto, items, names, nodes, at, k).items.len() == k + siblings_from(
            nodes,
            at,
        ).len(),
        forall|i: int|
            0 <= i < k ==> #[trigger] apply_items(proto, items, names, nodes, at, k).items[i]
                == items[i],
        forall|t: int|
            0 <= t < siblings_from(nodes, at).len() ==> #[trigger] apply_items(
                proto,
                items,
                names,
                nodes,
                at,
                k,
            ).items[k + t] == patched(
                if k + t < items.len() {
                    items[k + t]
                } else {
                    proto
                },
                names,
                nodes,
                siblings_from(nodes, at)[t],
            ),
    decreases nodes.len() - at,
{
    let result = apply_items(proto, items, names, nodes, at, k).items;
    let sib = siblings_from(nodes, at);
    if at < 0 || at >= nodes.len() || nodes[at].value.is_close() {
    } else {
        match node_end(nodes, at) {
            Some(next) => {
                if at < next <= nodes.len() {
                    let target = if 0 <= k < items.len() {
                        items[k]
                    } else {
                        proto
                    };
                    let r = apply_node(target, names, nodes, at);
                    let stepped = if 0 <= k < items.len() {
                        items.update(k, r.data)
                    } else {
                        items.push(r.data)
                    };
                    let rest = siblings_from(nodes, next);
                    lemma_items_walk(proto, stepped, names, nodes, next, k + 1);
                    let deeper = apply_items(proto, stepped, names, nodes, next, k + 1).items;
                    assert(result == deeper);
                    assert(sib == seq![at] + rest);
                    assert forall|i: int| 0 <= i < k implies #[trigger] result[i] == items[i] by {
                        assert(deeper[i] == stepped[i]);
                    }
                    assert forall|t: int| 0 <= t < sib.len() implies #[trigger] result[k + t]
                        == patched(
                        if k + t < items.len() {
                            items[k + t]
                        } else {
                            proto
                        },
                        names,
                        nodes,
                        sib[t],
                    ) by {
                        if t == 0 {
                            assert(deeper[k] == stepped[k]);
                        } else {
                            assert(deeper[(k + 1) + (t - 1)] == patched(
                                if (k + 1) + (t - 1) < stepped.len() {
                                    stepped[(k + 1) + (t - 1)]
                                } else {
                                    proto
                                },
                                names,
                                nodes,
                                rest[t - 1],
                            ));
                            assert(sib[t] == rest[t - 1]);
                        }
                    }
                }
            },
            None => {},
        }
    }
}

/// An item that an array does not have after a list was applied was either
/// dropped by the list or never there, and the list applies nothing to it.
proof fn lemma_beyond_final_len(len: int, nodes: Seq<LiveNode>, list: Seq<int>, i: int)
    requires
        0 <= len,
        i >= final_len(len, nodes, list),
        0 <= i,
    ensures
        killed(nodes, list, i) || i >= len,
        item_patches(nodes, list, i) == Seq::<int>::empty(),
    decreases list.len(),
{
    if list.len() > 0 && !opens_array(nodes, list.last()) {
        lemma_beyond_final_len(len, nodes, list.drop_last(), i);
    }
}

/// Applying a list of values to an array gives it the items of the last
/// array node of the list; each is the item that was there, or the
/// prototype where it was dropped or never there, with the nodes applied
/// that the list has for it.
proof fn lemma_array_list(
    proto: DataView,
    items: Seq<DataView>,
    names: LiveIdNames,
    nodes: Seq<LiveNode>,
    list: Seq<int>,
    i: int,
)
    ensures
        apply_list(DataView::Array { proto: Box::new(proto), items }, names, nodes, list) is Array,
        *apply_list(
            DataView::Array { proto: Box::new(proto), items },
            names,
            nodes,
            list,
        )->Array_proto == proto,
        apply_list(
            DataView::Array { proto: Box::new(proto), items },
            names,
            nodes,
            list,
        )->Array_items.len() == final_len(items.len() as int, nodes, list),
        0 <= i < final_len(items.len() as int, nodes, list) ==> apply_list(
            DataView::Array { proto: Box::new(proto), items },
            names,
            nodes,
            list,
        )->Array_items[i] == apply_list(
            if killed(nodes, list, i) || i >= items.len() {
                proto
            } else {
                items[i]
            },
            names,
            nodes,
            item_patches(nodes, list, i),
        ),
    decreases list.len(),
{
    let array = DataView::Array { proto: Box::new(proto), items };
    if list.len() == 0 {
    } else {
        let m = list.last();
        let shorter = list.drop_last();
        let before = apply_list(array, names, nodes, shorter);
        lemma_array_list(proto, items, names, nodes, shorter, i);
        let mid = before->Array_items;
        if opens_array(nodes, m) {
            lemma_items_walk(proto, mid, names, nodes, m + 1, 0);
            let sib = siblings_from(nodes, m + 1);
            let result = apply_items(proto, mid, names, nodes, m + 1, 0).items;
            if 0 <= i < sib.len() {
                assert(result[0 + i] == patched(
                    if 0 + i < mid.len() {
                        mid[0 + i]
                    } else {
                        proto
                    },
                    names,
                    nodes,
                    sib[i],
                ));
                let patches = item_patches(nodes, shorter, i);
                assert((patches + seq![sib[i]]).drop_last() =~= patches);
                if i >= mid.len() {
                    lemma_beyond_final_len(items.len() as int, nodes, shorter, i);
                }
            }
        } else {
        }
    }
}

proof fn lemma_item_patches_concat(nodes: Seq<LiveNode>, a: Seq<int>, b: Seq<int>, i: int)
    requires
        0 <= i,
    ensures
        killed(nodes, a + b, i) == (killed(nodes, b, i) || killed(nodes, a, i)),
        item_patches(nodes, a + b, i) == if killed(nodes, b, i) {
            item_patches(nodes, b, i)
        } else {
            item_patches(nodes, a, i) + item_patches(nodes, b, i)
        },
    decreases b.len(),
{
    if b.len() == 0 {
        assert(a + b =~= a);
        assert(item_patches(nodes, a, i) + Seq::<int>::empty() =~= item_patches(nodes, a, i));
    } else {
        lemma_item_patches_concat(nodes, a, b.drop_last(), i);
        assert((a + b).drop_last() =~= a + b.drop_last());
        assert((a + b).last() == b.last());
        let m = b.last();
        if opens_array(nodes, m) && 0 <= i < siblings_from(nodes, m + 1).len() {
            let c = seq![siblings_from(nodes, m + 1)[i]];
            assert((item_patches(nodes, a, i) + item_patches(nodes, b.drop_last(), i)) + c
                =~= item_patches(nodes, a, i) + (item_patches(nodes, b.drop_last(), i) + c));
        }
    }
}

/// Whether a value of the kind of `data` takes the node at `index`: a scalar
/// takes a node that gives a value of its kind, an array an array node, an
/// object a node that opens an object.
pub open spec fn takes(data: DataView, names: LiveIdNames, nodes: Seq<LiveNode>, index: int) -> bool {
    let value = nodes[index].value;
    match data {
        DataView::Bool(_) => coerce_bool(value) is Some,
        DataView::Int(_) => coerce_int(value) is Some,
        DataView::Float(_) => coerce_float(value) is Some,
        DataView::Color(_) => coerce_color(value) is Some,
        DataView::Id(_) => coerce_id(value) is Some,
        DataView::Str(_) => coerce_str(names, value) is Some,
        DataView::Array { .. } => 0 <= index < nodes.len() && value.is_array(),
        DataView::Object { .. } => 0 <= index < nodes.len() && value.is_structy_type(),
    }
}

/// Whether a value is a scalar.
pub open spec fn is_scalar(data: DataView) -> bool {
    !(data is Array) && !(data is Object)
}

/// A node that a value does not take leaves the value as it is; a node
/// that a scalar takes gives every scalar of that kind the same value.
proof fn lemma_takes(a: DataView, b: DataView, names: LiveIdNames, nodes: Seq<LiveNode>, index: int)
    requires
        same_kind(a, b),
    ensures
        takes(a, names, nodes, index) == takes(b, names, nodes, index),
        !takes(a, names, nodes, index) ==> patched(b, names, nodes, index) == b,
        takes(a, names, nodes, index) && is_scalar(a) ==> patched(b, names, nodes, index)
            == patched(a, names, nodes, index),
{
}

/// A node that a value does not take can be left out of a list.
proof fn lemma_drop_refused(
    data: DataView,
    names: LiveIdNames,
    nodes: Seq<LiveNode>,
    p: Seq<int>,
    n: int,
    m: Seq<int>,
)
    requires
        !takes(data, names, nodes, n),
    ensures
        apply_list(data, names, nodes, p + seq![n] + m) == apply_list(data, names, nodes, p + m),
{
    let y = apply_list(data, names, nodes, p);
    lemma_apply_list_same_kind(data, names, nodes, p);
    lemma_takes(data, y, names, nodes, n);
    assert((p + seq![n]).drop_last() =~= p);
    lemma_apply_list_concat(data, names, nodes, p + seq![n], m);
    lemma_apply_list_concat(data, names, nodes, p, m);
}

/// Among values applied one after the other, a value that is applied again
/// later need not be applied the first time: what it did then is done
/// again, or undone, by the time the list ends.
pub proof fn lemma_absorb_one(
    data: DataView,
    names: LiveIdNames,
    nodes: Seq<LiveNode>,
    p: Seq<int>,
    n: int,
    m: Seq<int>,
)
    ensures
        apply_list(data, names, nodes, p + seq![n] + m + seq![n]) == apply_list(
            data,
            names,
            nodes,
            p + m + seq![n],
        ),
    decreases data, 0nat, 0nat,
{
    let ll = p + seq![n] + m + seq![n];
    let lr = p + m + seq![n];
    let yl = apply_list(data, names, nodes, p + seq![n] + m);
    let yr = apply_list(data, names, nodes, p + m);
    let left = apply_list(data, names, nodes, ll);
    let right = apply_list(data, names, nodes, lr);
    assert(ll.drop_last() =~= p + seq![n] + m);
    assert(lr.drop_last() =~= p + m);
    assert(left == patched(yl, names, nodes, n));
    assert(right == patched(yr, names, nodes, n));
    lemma_apply_list_same_kind(data, names, nodes, p + seq![n] + m);
    lemma_apply_list_same_kind(data, names, nodes, p + m);
    lemma_apply_list_same_kind(data, names, nodes, ll);
    lemma_apply_list_same_kind(data, names, nodes, lr);
    lemma_takes(data, yl, names, nodes, n);
    lemma_takes(data, yr, names, nodes, n);
    if !takes(data, names, nodes, n) {
        lemma_drop_refused(data, names, nodes, p, n, m);
    } else {
        match data {
            DataView::Object { fields } => {
                let lf = left->Object_fields;
                let rf = right->Object_fields;
                assert forall|j: int| 0 <= j < fields.len() implies lf[j] == rf[j] by {
                    lemma_object_list(fields, names, nodes, ll, j);
                    lemma_object_list(fields, names, nodes, lr, j);
                    let sp = selected(fields, nodes, p, j);
                    let sn = selected(fields, nodes, seq![n], j);
                    let sm = selected(fields, nodes, m, j);
                    lemma_selected_concat(fields, nodes, p + seq![n] + m, seq![n], j);
                    lemma_selected_concat(fields, nodes, p + seq![n], m, j);
                    lemma_selected_concat(fields, nodes, p, seq![n], j);
                    lemma_selected_concat(fields, nodes, p + m, seq![n], j);
                    lemma_selected_concat(fields, nodes, p, m, j);
                    lemma_absorb(fields[j].data, names, nodes, sp, sn, sm);
                    assert(lf[j].id == fields[j].id);
                    assert(rf[j].id == fields[j].id);
                }
                assert(lf =~= rf);
            },
            DataView::Array { proto, items } => {
                let array = DataView::Array { proto: Box::new(*proto), items };
                assert(array == data);
                let li = left->Array_items;
                let ri = right->Array_items;
                let count = siblings_from(nodes, n + 1).len() as int;
                lemma_array_list(*proto, items, names, nodes, ll, 0);
                lemma_array_list(*proto, items, names, nodes, lr, 0);
                assert(li.len() == count);
                assert(ri.len() == count);
                assert forall|i: int| 0 <= i < count implies li[i] == ri[i] by {
                    lemma_array_list(*proto, items, names, nodes, ll, i);
                    lemma_array_list(*proto, items, names, nodes, lr, i);
                    let c = siblings_from(nodes, n + 1)[i];
                    let pp = item_patches(nodes, p, i);
                    let pm = item_patches(nodes, m, i);
                    assert((p + seq![n]).drop_last() =~= p);
                    lemma_item_patches_concat(nodes, p + seq![n], m, i);
                    lemma_item_patches_concat(nodes, p, m, i);
                    if !killed(nodes, m, i) {
                        let base = if killed(nodes, p, i) || i >= items.len() {
                            *proto
                        } else {
                            items[i]
                        };
                        lemma_absorb_one(base, names, nodes, pp, c, pm);
                    }
                }
                assert(li =~= ri);
            },
            _ => {},
        }
    }
}

/// Among values applied one after the other, a run of values that is
/// applied again later, in the same order, need not be applied the first
/// time.
pub proof fn lemma_absorb(
    data: DataView,
    names: LiveIdNames,
    nodes: Seq<LiveNode>,
    p: Seq<int>,
    l1: Seq<int>,
    l2: Seq<int>,
)
    ensures
        apply_list(data, names, nodes, p + l1 + l2 + l1) == apply_list(
            data,
            names,
            nodes,
            p + l2 + l1,
        ),
    decreases data, 1nat, l1.len(),
{
    if l1.len() == 0 {
        assert(p + l1 + l2 + l1 =~= p + l2 + l1);
    } else {
        let a = l1.drop_last();
        let n = l1.last();
        assert(l1 =~= a + seq![n]);
        assert(p + l1 + l2 + l1 =~= (p + a) + seq![n] + (l2 + a) + seq![n]);
        lemma_absorb_one(data, names, nodes, p + a, n, l2 + a);
        assert((p + a) + (l2 + a) + seq![n] =~= (p + a + l2 + a) + seq![n]);
        assert(((p + a + l2 + a) + seq![n]).drop_last() =~= p + a + l2 + a);
        lemma_absorb(data, names, nodes, p, a, l2);
        assert(p + l2 + l1 =~= (p + l2 + a) + seq![n]);
        assert(((p + l2 + a) + seq![n]).drop_last() =~= p + l2 + a);
    }
}

/// Reconciling a value with the same nodes twice gives what reconciling it
/// once gives.
pub proof fn lemma_apply_twice(data: DataView, names: LiveIdNames, nodes: Seq<LiveNode>, index: int)
    ensures
        patched(patched(data, names, nodes, index), names, nodes, index) == patched(
            data,
            names,
            nodes,
            index,
        ),
{
    let none = Seq::<int>::empty();
    lemma_absorb_one(data, names, nodes, none, index, none);
    assert(none + seq![index] + none + seq![index] =~= seq![index] + seq![index]);
    assert(none + none + seq![index] =~= seq![index]);
    lemma_apply_list_one(data, names, nodes, index);
    lemma_apply_list_concat(data, names, nodes, seq![index], seq![index]);
    lemma_apply_list_one(patched(data, names, nodes, index), names, nodes, index);
}

} // verus!
