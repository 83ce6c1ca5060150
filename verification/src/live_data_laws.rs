//! What holds of reconciliation with a `LiveData`, whatever the document.

use vstd::prelude::*;
use crate::cx::{Cx, LiveIdNames};
use crate::live_data::{
    apply_field, apply_fields, apply_node, field_index, AppliedFields, DataView, FieldView,
    LiveData,
};
use crate::live_data_idempotence::lemma_apply_twice;
use crate::live_traits::{ApplyFrom, LiveApply};
use crate::live_error::{error_at, LiveError, LiveErrorKind};
use crate::live_id::LiveId;
use crate::live_node::{node_end, LiveNode};
use crate::live_node_slice::siblings_from;
use crate::live_traits::unknown_field_errors;

verus! {

/// Two lists of fields have the same names in the same places.
pub open spec fn same_names(a: Seq<FieldView>, b: Seq<FieldView>) -> bool {
    &&& a.len() == b.len()
    &&& forall|i: int| 0 <= i < a.len() ==> (#[trigger] a[i]).id == b[i].id
}

/// Lists of fields with the same names find a name at the same place.
pub proof fn lemma_field_index_same_names(a: Seq<FieldView>, b: Seq<FieldView>, from: int, id: LiveId)
    requires
        same_names(a, b),
        0 <= from,
    ensures
        field_index(a, from, id) == field_index(b, from, id),
    decreases a.len() - from,
{
    if from < a.len() {
        assert(a[from].id == b[from].id);
        if a[from].id != id {
            lemma_field_index_same_names(a, b, from + 1, id);
        }
    }
}

/// The place that `field_index` finds lies in the list and holds the name.
pub proof fn lemma_field_index_bounds(fields: Seq<FieldView>, from: int, id: LiveId)
    requires
        0 <= from,
    ensures
        field_index(fields, from, id) matches Some(j) ==> from <= j < fields.len() && fields[j].id
            == id,
    decreases fields.len() - from,
{
    if from < fields.len() && fields[from].id != id {
        lemma_field_index_bounds(fields, from + 1, id);
    }
}

/// Reconciliation never renames, adds or removes a field of an object.
pub proof fn lemma_apply_field_keeps_names(
    fields: Seq<FieldView>,
    names: LiveIdNames,
    nodes: Seq<LiveNode>,
    at: int,
)
    ensures
        same_names(apply_field(fields, names, nodes, at).fields, fields),
{
    lemma_field_index_bounds(fields, 0, nodes[at].id);
}

/// Reconciliation never renames, adds or removes a field of an object.
pub proof fn lemma_apply_fields_keeps_names(
    fields: Seq<FieldView>,
    names: LiveIdNames,
    nodes: Seq<LiveNode>,
    at: int,
)
    ensures
        same_names(apply_fields(fields, names, nodes, at).fields, fields),
    decreases nodes.len() - at,
{
    if at < 0 || at >= nodes.len() || nodes[at].value.is_close() {
    } else {
        match node_end(nodes, at) {
            Some(next) => {
                if at < next <= nodes.len() {
                    let step = apply_field(fields, names, nodes, at);
                    lemma_apply_field_keeps_names(fields, names, nodes, at);
                    lemma_apply_fields_keeps_names(step.fields, names, nodes, next);
                }
            },
            None => {},
        }
    }
}

/// What the children from `at` on make of the fields of an object when the
/// child at `skipped` is left out.
pub open spec fn apply_fields_without(
    fields: Seq<FieldView>,
    names: LiveIdNames,
    nodes: Seq<LiveNode>,
    at: int,
    skipped: int,
) -> AppliedFields
    decreases nodes.len() - at,
{
    if at < 0 || at >= nodes.len() || nodes[at].value.is_close() {
        AppliedFields { fields, errors: Seq::empty() }
    } else {
        match node_end(nodes, at) {
            Some(next) => if at < next <= nodes.len() {
                let step = if at == skipped {
                    AppliedFields { fields, errors: Seq::empty() }
                } else {
                    apply_field(fields, names, nodes, at)
                };
                let rest = apply_fields_without(step.fields, names, nodes, next, skipped);
                AppliedFields { fields: rest.fields, errors: step.errors + rest.errors }
            } else {
                AppliedFields { fields, errors: Seq::empty() }
            },
            None => AppliedFields { fields, errors: Seq::empty() },
        }
    }
}

/// `with` is `without` with the diagnostics `added` put in at one place.
pub open spec fn inserted(with: Seq<LiveError>, without: Seq<LiveError>, added: Seq<LiveError>)
    -> bool {
    exists|pos: int|
        0 <= pos <= without.len() && #[trigger] with.subrange(0, pos) == without.subrange(0, pos)
            && with == without.subrange(0, pos) + added + without.subrange(
            pos,
            without.len() as int,
        )
}

/// A child that no field takes does not get in the way of its siblings:
/// the fields end up as if the child were not there, and the diagnostics are
/// those of the siblings with the child's own put in between, which is one
/// diagnostic, or none where the child declares a class or overrides an
/// instance.
pub proof fn lemma_unknown_child_is_skipped(
    fields: Seq<FieldView>,
    names: LiveIdNames,
    nodes: Seq<LiveNode>,
    at: int,
    skipped: int,
)
    requires
        field_index(fields, 0, nodes[skipped].id) is None,
    ensures
        apply_fields(fields, names, nodes, at).fields == apply_fields_without(
            fields,
            names,
            nodes,
            at,
            skipped,
        ).fields,
        siblings_from(nodes, at).contains(skipped) ==> inserted(
            apply_fields(fields, names, nodes, at).errors,
            apply_fields_without(fields, names, nodes, at, skipped).errors,
            unknown_field_errors(nodes, skipped),
        ),
        !siblings_from(nodes, at).contains(skipped) ==> apply_fields(fields, names, nodes, at).errors
            == apply_fields_without(fields, names, nodes, at, skipped).errors,
    decreases nodes.len() - at,
{
    let with = apply_fields(fields, names, nodes, at);
    let without = apply_fields_without(fields, names, nodes, at, skipped);
    let added = unknown_field_errors(nodes, skipped);
    if at < 0 || at >= nodes.len() || nodes[at].value.is_close() {
        assert(siblings_from(nodes, at) =~= Seq::<int>::empty());
    } else {
        match node_end(nodes, at) {
            Some(next) => {
                if at < next <= nodes.len() {
                    let step = apply_field(fields, names, nodes, at);
                    let rest_siblings = siblings_from(nodes, next);
                    assert(siblings_from(nodes, at) == seq![at] + rest_siblings);
                    lemma_siblings_after(nodes, next, at);
                    if at == skipped {
                        // the child itself: nothing but its diagnostics
                        assert(step.fields == fields);
                        assert(step.errors == added);
                        lemma_unknown_child_is_skipped(fields, names, nodes, next, skipped);
                        let rest = apply_fields(fields, names, nodes, next);
                        let rest_without = apply_fields_without(fields, names, nodes, next, skipped);
                        assert(!rest_siblings.contains(skipped));
                        assert(without.errors =~= rest.errors);
                        assert(with.errors =~= added + rest.errors);
                        assert((seq![at] + rest_siblings)[0] == at);
                        assert(with.errors.subrange(0, 0) =~= without.errors.subrange(0, 0));
                        assert(with.errors =~= without.errors.subrange(0, 0) + added
                            + without.errors.subrange(0, without.errors.len() as int));
                    } else {
                        lemma_apply_field_keeps_names(fields, names, nodes, at);
                        lemma_field_index_same_names(step.fields, fields, 0, nodes[skipped].id);
                        lemma_unknown_child_is_skipped(step.fields, names, nodes, next, skipped);
                        let rest = apply_fields(step.fields, names, nodes, next);
                        let rest_without = apply_fields_without(
                            step.fields,
                            names,
                            nodes,
                            next,
                            skipped,
                        );
                        if rest_siblings.contains(skipped) {
                            let k = choose|k: int| 0 <= k < rest_siblings.len() && rest_siblings[k] == skipped;
                            assert((seq![at] + rest_siblings)[k + 1] == skipped);
                            let pos = choose|pos: int|
                                0 <= pos <= rest_without.errors.len() && #[trigger] rest.errors.subrange(
                                    0,
                                    pos,
                                ) == rest_without.errors.subrange(0, pos) && rest.errors
                                    == rest_without.errors.subrange(0, pos) + added
                                    + rest_without.errors.subrange(
                                    pos,
                                    rest_without.errors.len() as int,
                                );
                            let shifted = step.errors.len() + pos;
                            assert(with.errors.subrange(0, shifted) =~= without.errors.subrange(
                                0,
                                shifted,
                            ));
                            assert(with.errors =~= without.errors.subrange(0, shifted) + added
                                + without.errors.subrange(shifted, without.errors.len() as int));
                        } else {
                            assert forall|k: int| 0 <= k < (seq![at] + rest_siblings).len() implies (
                            seq![at] + rest_siblings)[k] != skipped by {
                                if k > 0 {
                                    assert((seq![at] + rest_siblings)[k] == rest_siblings[k - 1]);
                                }
                            }
                        }
                    }
                } else {
                    assert(siblings_from(nodes, at) =~= Seq::<int>::empty());
                }
            },
            None => {
                assert(siblings_from(nodes, at) =~= Seq::<int>::empty());
            },
        }
    }
}

/// The siblings from `at` on all stand at `at` or after it.
pub proof fn lemma_siblings_after(nodes: Seq<LiveNode>, at: int, before: int)
    requires
        before < at,
    ensures
        !siblings_from(nodes, at).contains(before),
    decreases nodes.len() - at,
{
    if at < 0 || at >= nodes.len() || nodes[at].value.is_close() {
    } else {
        match node_end(nodes, at) {
            Some(next) => {
                if at < next <= nodes.len() {
                    lemma_siblings_after(nodes, next, before);
                    let rest = siblings_from(nodes, next);
                    assert forall|k: int| 0 <= k < (seq![at] + rest).len() implies (seq![at]
                        + rest)[k] != before by {
                        if k > 0 {
                            assert((seq![at] + rest)[k] == rest[k - 1]);
                        }
                    }
                }
            },
            None => {},
        }
    }
}

/// An object reconciled with a node range in which one child names no field
/// of the object, while every other child is applied without a diagnostic:
/// every field ends up as if that child were not there, and exactly one
/// diagnostic is recorded, for that child.
pub proof fn lemma_fail_soft(
    fields: Seq<FieldView>,
    names: LiveIdNames,
    nodes: Seq<LiveNode>,
    index: int,
    unknown: int,
)
    requires
        0 <= index < nodes.len(),
        nodes[index].value.is_structy_type(),
        siblings_from(nodes, index + 1).contains(unknown),
        field_index(fields, 0, nodes[unknown].id) is None,
        !nodes[unknown].id.is_capitalised(),
        !nodes[unknown].origin.node_has_prefix(),
        apply_fields_without(fields, names, nodes, index + 1, unknown).errors.len() == 0,
    ensures
        apply_node(DataView::Object { fields }, names, nodes, index).data == (DataView::Object {
            fields: apply_fields_without(fields, names, nodes, index + 1, unknown).fields,
        }),
        apply_node(DataView::Object { fields }, names, nodes, index).errors == seq![
            error_at(LiveErrorKind::NoMatchingField, nodes, unknown),
        ],
{
    lemma_unknown_child_is_skipped(fields, names, nodes, index + 1, unknown);
    let with = apply_fields(fields, names, nodes, index + 1).errors;
    let without = apply_fields_without(fields, names, nodes, index + 1, unknown).errors;
    assert(without =~= Seq::<LiveError>::empty());
    let pos = choose|pos: int|
        0 <= pos <= without.len() && #[trigger] with.subrange(0, pos) == without.subrange(0, pos)
            && with == without.subrange(0, pos) + unknown_field_errors(nodes, unknown)
            + without.subrange(pos, without.len() as int);
    assert(with =~= unknown_field_errors(nodes, unknown));
}

/// Applying the same node range to a `LiveData` a second time leaves every
/// field as the first time left it, whatever the data was before and for
/// whatever reason the range is applied.
pub proof fn lemma_applied_twice(
    data: LiveData,
    cx: Cx,
    once: LiveData,
    cx_once: Cx,
    twice: LiveData,
    cx_twice: Cx,
    first: ApplyFrom,
    second: ApplyFrom,
    nodes: Seq<LiveNode>,
    index: int,
)
    requires
        data.applied(&cx, first, index, nodes, &once, &cx_once),
        once.applied(&cx_once, second, index, nodes, &twice, &cx_twice),
    ensures
        twice@ == once@,
{
    lemma_apply_twice(data@, cx.id_names, nodes, index);
}

/// What a node range makes of the fields of a `LiveData` does not depend on
/// why it is applied: a live edit writes the same fields as a construction
/// from the document.
pub proof fn lemma_applied_whatever_the_reason(
    data: LiveData,
    cx: Cx,
    after: LiveData,
    cx_after: Cx,
    first: ApplyFrom,
    second: ApplyFrom,
    nodes: Seq<LiveNode>,
    index: int,
)
    ensures
        data.applied(&cx, first, index, nodes, &after, &cx_after) == data.applied(
            &cx,
            second,
            index,
            nodes,
            &after,
            &cx_after,
        ),
{
}

} // verus!
