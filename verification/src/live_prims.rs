//! How node values turn into values of the primitive kinds, and the
//! primitive kinds and arrays as objects that can be made and reconciled.

use vstd::prelude::*;
use vstd::string::StringSliceAdditionalSpecFns;
use vstd::utf8::encode_utf8;
use crate::cx::{Cx, LiveIdNames};
use crate::live_error::{
    error_at, extends, lemma_extends_add, lemma_extends_refl, lemma_extends_trans, LiveErrorKind,
};
use crate::live_float::LiveFloat;
use crate::live_id::{id_of_bytes, LiveId, LiveModuleId, LiveType};
use crate::live_node::{lemma_node_end_bounds, node_end, scope_end, LiveNode, LiveValue};
use crate::live_node_slice::{children_of, lemma_scope_step, siblings_from, skip_node};
use crate::live_traits::{ApplyFrom, LiveApply, LiveHook, LiveNew, LiveTypeInfo, ToLiveValue};

verus! {

/// The truth value that a node value gives: only a truth value gives one.
pub open spec fn coerce_bool(value: LiveValue) -> Option<bool> {
    match value {
        LiveValue::Bool(v) => Some(v),
        _ => None,
    }
}

/// The integer that a node value gives: an integer gives itself, a number
/// with a fraction is cut to an integer.
pub open spec fn coerce_int(value: LiveValue) -> Option<i64> {
    match value {
        LiveValue::Int(v) => Some(v),
        LiveValue::Float(v) => Some(v.spec_to_int()),
        _ => None,
    }
}

/// The number that a node value gives: a number gives itself, an integer
/// gives the number nearest to it.
pub open spec fn coerce_float(value: LiveValue) -> Option<LiveFloat> {
    match value {
        LiveValue::Float(v) => Some(v),
        LiveValue::Int(v) => Some(LiveFloat::spec_from_int(v)),
        _ => None,
    }
}

/// The colour that a node value gives: only a colour gives one.
pub open spec fn coerce_color(value: LiveValue) -> Option<u32> {
    match value {
        LiveValue::Color(v) => Some(v),
        _ => None,
    }
}

/// The id that a node value gives: an id gives itself, a string gives the
/// id of the name that it spells.
pub open spec fn coerce_id(value: LiveValue) -> Option<LiveId> {
    match value {
        LiveValue::Id(v) => Some(v),
        LiveValue::Str(s) => Some(id_of_bytes(encode_utf8(s@))),
        _ => None,
    }
}

/// The string that a node value gives: a string gives itself, an id gives
/// the name recorded for it, and none where no name is recorded.
pub open spec fn coerce_str(names: LiveIdNames, value: LiveValue) -> Option<Seq<char>> {
    match value {
        LiveValue::Str(s) => Some(s@),
        LiveValue::Id(v) => names.spec_name_of(v),
        _ => None,
    }
}

pub fn live_bool(value: &LiveValue) -> (r: Option<bool>)
    ensures
        r == coerce_bool(*value),
{
    match value {
        LiveValue::Bool(v) => Some(*v),
        _ => None,
    }
}

pub fn live_int(value: &LiveValue) -> (r: Option<i64>)
    ensures
        r == coerce_int(*value),
{
    match value {
        LiveValue::Int(v) => Some(*v),
        LiveValue::Float(v) => Some(v.to_int()),
        _ => None,
    }
}

pub fn live_float(value: &LiveValue) -> (r: Option<LiveFloat>)
    ensures
        r == coerce_float(*value),
{
    match value {
        LiveValue::Float(v) => Some(*v),
        LiveValue::Int(v) => Some(LiveFloat::from_int(*v)),
        _ => None,
    }
}

pub fn live_color(value: &LiveValue) -> (r: Option<u32>)
    ensures
        r == coerce_color(*value),
{
    match value {
        LiveValue::Color(v) => Some(*v),
        _ => None,
    }
}

pub fn live_id(value: &LiveValue) -> (r: Option<LiveId>)
    ensures
        r == coerce_id(*value),
{
    match value {
        LiveValue::Id(v) => Some(*v),
        LiveValue::Str(s) => Some(LiveId::from_str(s.as_str())),
        _ => None,
    }
}

pub fn live_str(names: &LiveIdNames, value: &LiveValue) -> (r: Option<String>)
    ensures
        match r {
            Some(s) => coerce_str(*names, *value) == Some(s@),
            None => coerce_str(*names, *value) is None,
        },
{
    match value {
        LiveValue::Str(s) => Some(s.clone()),
        LiveValue::Id(v) => match names.name_of(*v) {
            Some(name) => Some(name.clone()),
            None => None,
        },
        _ => None,
    }
}

/// The context after a node was refused for its kind: one diagnostic more.
pub open spec fn refused(cx: &Cx, nodes: Seq<LiveNode>, index: int, cx_after: &Cx) -> bool {
    cx_after.errors_added(cx, seq![error_at(LiveErrorKind::WrongValueType, nodes, index)])
}

/// What is told of a primitive kind: its name, and no fields.
pub fn primitive_type_info(name: &str) -> (r: LiveTypeInfo)
    ensures
        r.name == id_of_bytes(name.spec_bytes()),
        r.live_type == LiveType(id_of_bytes(name.spec_bytes()).0),
        r.module_id == LiveModuleId(LiveId(0), LiveId(0)),
        r.fields@.len() == 0,
{
    let id = LiveId::from_str(name);
    LiveTypeInfo {
        live_type: LiveType(id.0),
        name: id,
        module_id: LiveModuleId(LiveId(0), LiveId(0)),
        fields: Vec::new(),
    }
}

impl LiveHook for bool {
}

impl LiveApply for bool {
    open spec fn applied(
        &self,
        cx: &Cx,
        from: ApplyFrom,
        index: int,
        nodes: Seq<LiveNode>,
        after: &Self,
        cx_after: &Cx,
    ) -> bool {
        match coerce_bool(nodes[index].value) {
            Some(v) => *after == v && *cx_after == *cx,
            None => *after == *self && refused(cx, nodes, index, cx_after),
        }
    }

    fn apply(&mut self, cx: &mut Cx, from: ApplyFrom, index: usize, nodes: &[LiveNode]) -> (next:
        usize) {
        proof {
            lemma_node_end_bounds(nodes@, index as int);
            lemma_extends_refl(cx.apply_errors@);
            lemma_extends_add(
                cx.apply_errors@,
                seq![error_at(LiveErrorKind::WrongValueType, nodes@, index as int)],
            );
        }
        match live_bool(&nodes[index].value) {
            Some(v) => {
                *self = v;
            },
            None => {
                cx.apply_error_wrong_value_type_for_primitive(index, nodes);
            },
        }
        skip_node(nodes, index)
    }
}

impl LiveNew for bool {
    open spec fn made(cx: &Cx, made: &Self, cx_after: &Cx) -> bool {
        *made == false && *cx_after == *cx
    }

    fn new(_cx: &mut Cx) -> (r: Self) {
        proof {
            lemma_extends_refl(_cx.apply_errors@);
        }
        false
    }

    fn live_type_info(_cx: &mut Cx) -> (r: LiveTypeInfo)
        ensures
            *final(_cx) == *old(_cx),
            r.name == id_of_bytes("bool".spec_bytes()),
            r.live_type == LiveType(r.name.0),
            r.module_id == LiveModuleId(LiveId(0), LiveId(0)),
            r.fields@.len() == 0,
    {
        proof {
            lemma_extends_refl(_cx.apply_errors@);
        }
        primitive_type_info("bool")
    }
}

impl LiveHook for i64 {
}

impl LiveApply for i64 {
    open spec fn applied(
        &self,
        cx: &Cx,
        from: ApplyFrom,
        index: int,
        nodes: Seq<LiveNode>,
        after: &Self,
        cx_after: &Cx,
    ) -> bool {
        match coerce_int(nodes[index].value) {
            Some(v) => *after == v && *cx_after == *cx,
            None => *after == *self && refused(cx, nodes, index, cx_after),
        }
    }

    fn apply(&mut self, cx: &mut Cx, from: ApplyFrom, index: usize, nodes: &[LiveNode]) -> (next:
        usize) {
        proof {
            lemma_node_end_bounds(nodes@, index as int);
            lemma_extends_refl(cx.apply_errors@);
            lemma_extends_add(
                cx.apply_errors@,
                seq![error_at(LiveErrorKind::WrongValueType, nodes@, index as int)],
            );
        }
        match live_int(&nodes[index].value) {
            Some(v) => {
                *self = v;
            },
            None => {
                cx.apply_error_wrong_value_type_for_primitive(index, nodes);
            },
        }
        skip_node(nodes, index)
    }
}

impl LiveNew for i64 {
    open spec fn made(cx: &Cx, made: &Self, cx_after: &Cx) -> bool {
        *made == 0 && *cx_after == *cx
    }

    fn new(_cx: &mut Cx) -> (r: Self) {
        proof {
            lemma_extends_refl(_cx.apply_errors@);
        }
        0
    }

    fn live_type_info(_cx: &mut Cx) -> (r: LiveTypeInfo)
        ensures
            *final(_cx) == *old(_cx),
            r.name == id_of_bytes("i64".spec_bytes()),
            r.live_type == LiveType(r.name.0),
            r.module_id == LiveModuleId(LiveId(0), LiveId(0)),
            r.fields@.len() == 0,
    {
        proof {
            lemma_extends_refl(_cx.apply_errors@);
        }
        primitive_type_info("i64")
    }
}

impl LiveHook for LiveFloat {
}

impl LiveApply for LiveFloat {
    open spec fn applied(
        &self,
        cx: &Cx,
        from: ApplyFrom,
        index: int,
        nodes: Seq<LiveNode>,
        after: &Self,
        cx_after: &Cx,
    ) -> bool {
        match coerce_float(nodes[index].value) {
            Some(v) => *after == v && *cx_after == *cx,
            None => *after == *self && refused(cx, nodes, index, cx_after),
        }
    }

    fn apply(&mut self, cx: &mut Cx, from: ApplyFrom, index: usize, nodes: &[LiveNode]) -> (next:
        usize) {
        proof {
            lemma_node_end_bounds(nodes@, index as int);
            lemma_extends_refl(cx.apply_errors@);
            lemma_extends_add(
                cx.apply_errors@,
                seq![error_at(LiveErrorKind::WrongValueType, nodes@, index as int)],
            );
        }
        match live_float(&nodes[index].value) {
            Some(v) => {
                *self = v;
            },
            None => {
                cx.apply_error_wrong_value_type_for_primitive(index, nodes);
            },
        }
        skip_node(nodes, index)
    }
}

impl LiveNew for LiveFloat {
    open spec fn made(cx: &Cx, made: &Self, cx_after: &Cx) -> bool {
        made.bits == 0 && *cx_after == *cx
    }

    fn new(_cx: &mut Cx) -> (r: Self) {
        proof {
            lemma_extends_refl(_cx.apply_errors@);
        }
        LiveFloat { bits: 0 }
    }

    fn live_type_info(_cx: &mut Cx) -> (r: LiveTypeInfo)
        ensures
            *final(_cx) == *old(_cx),
            r.name == id_of_bytes("f64".spec_bytes()),
            r.live_type == LiveType(r.name.0),
            r.module_id == LiveModuleId(LiveId(0), LiveId(0)),
            r.fields@.len() == 0,
    {
        proof {
            lemma_extends_refl(_cx.apply_errors@);
        }
        primitive_type_info("f64")
    }
}

impl LiveHook for LiveId {
}

impl LiveApply for LiveId {
    open spec fn applied(
        &self,
        cx: &Cx,
        from: ApplyFrom,
        index: int,
        nodes: Seq<LiveNode>,
        after: &Self,
        cx_after: &Cx,
    ) -> bool {
        match coerce_id(nodes[index].value) {
            Some(v) => *after == v && *cx_after == *cx,
            None => *after == *self && refused(cx, nodes, index, cx_after),
        }
    }

    fn apply(&mut self, cx: &mut Cx, from: ApplyFrom, index: usize, nodes: &[LiveNode]) -> (next:
        usize) {
        proof {
            lemma_node_end_bounds(nodes@, index as int);
            lemma_extends_refl(cx.apply_errors@);
            lemma_extends_add(
                cx.apply_errors@,
                seq![error_at(LiveErrorKind::WrongValueType, nodes@, index as int)],
            );
        }
        match live_id(&nodes[index].value) {
            Some(v) => {
                *self = v;
            },
            None => {
                cx.apply_error_wrong_value_type_for_primitive(index, nodes);
            },
        }
        skip_node(nodes, index)
    }
}

impl LiveNew for LiveId {
    open spec fn made(cx: &Cx, made: &Self, cx_after: &Cx) -> bool {
        *made == LiveId(0) && *cx_after == *cx
    }

    fn new(_cx: &mut Cx) -> (r: Self) {
        proof {
            lemma_extends_refl(_cx.apply_errors@);
        }
        LiveId(0)
    }

    fn live_type_info(_cx: &mut Cx) -> (r: LiveTypeInfo)
        ensures
            *final(_cx) == *old(_cx),
            r.name == id_of_bytes("LiveId".spec_bytes()),
            r.live_type == LiveType(r.name.0),
            r.module_id == LiveModuleId(LiveId(0), LiveId(0)),
            r.fields@.len() == 0,
    {
        proof {
            lemma_extends_refl(_cx.apply_errors@);
        }
        primitive_type_info("LiveId")
    }
}

impl LiveHook for String {
}

impl LiveApply for String {
    open spec fn applied(
        &self,
        cx: &Cx,
        from: ApplyFrom,
        index: int,
        nodes: Seq<LiveNode>,
        after: &Self,
        cx_after: &Cx,
    ) -> bool {
        match coerce_str(cx.id_names, nodes[index].value) {
            Some(v) => after@ == v && *cx_after == *cx,
            None => *after == *self && refused(cx, nodes, index, cx_after),
        }
    }

    fn apply(&mut self, cx: &mut Cx, from: ApplyFrom, index: usize, nodes: &[LiveNode]) -> (next:
        usize) {
        proof {
            lemma_node_end_bounds(nodes@, index as int);
            lemma_extends_refl(cx.apply_errors@);
            lemma_extends_add(
                cx.apply_errors@,
                seq![error_at(LiveErrorKind::WrongValueType, nodes@, index as int)],
            );
        }
        match live_str(&cx.id_names, &nodes[index].value) {
            Some(v) => {
                *self = v;
            },
            None => {
                cx.apply_error_wrong_value_type_for_primitive(index, nodes);
            },
        }
        skip_node(nodes, index)
    }
}

impl LiveNew for String {
    open spec fn made(cx: &Cx, made: &Self, cx_after: &Cx) -> bool {
        made@.len() == 0 && *cx_after == *cx
    }

    fn new(_cx: &mut Cx) -> (r: Self) {
        proof {
            lemma_extends_refl(_cx.apply_errors@);
        }
        String::new()
    }

    fn live_type_info(_cx: &mut Cx) -> (r: LiveTypeInfo)
        ensures
            *final(_cx) == *old(_cx),
            r.name == id_of_bytes("String".spec_bytes()),
            r.live_type == LiveType(r.name.0),
            r.module_id == LiveModuleId(LiveId(0), LiveId(0)),
            r.fields@.len() == 0,
    {
        proof {
            lemma_extends_refl(_cx.apply_errors@);
        }
        primitive_type_info("String")
    }
}

/// What applying child `at` of an array node makes of item `k`: an item that
/// was there is applied to, a missing one is made new and applied to.
pub open spec fn item_applied<T: LiveApply + LiveNew>(
    before: Seq<T>,
    k: int,
    cx: &Cx,
    from: ApplyFrom,
    at: int,
    nodes: Seq<LiveNode>,
    after: &T,
    cx_after: &Cx,
) -> bool {
    if k < before.len() {
        before[k].applied(cx, from, at, nodes, after, cx_after)
    } else {
        exists|o: T, c: Cx| #[trigger]
            T::made(cx, &o, &c) && o.applied(&c, from, at, nodes, after, cx_after)
    }
}

impl<T> LiveHook for Vec<T> where T: LiveApply + LiveNew {
}

impl<T> LiveApply for Vec<T> where T: LiveApply + LiveNew {
    /// An array node gives the vector one item for each of its children:
    /// child `k` is applied to item `k`, in order, each with the context
    /// that the one before it left; items beyond the last child are
    /// dropped, and items for further children are made new. Another node
    /// is refused.
    open spec fn applied(
        &self,
        cx: &Cx,
        from: ApplyFrom,
        index: int,
        nodes: Seq<LiveNode>,
        after: &Self,
        cx_after: &Cx,
    ) -> bool {
        if nodes[index].value.is_array() {
            let children = children_of(nodes, index);
            &&& after@.len() == children.len()
            &&& exists|cxs: Seq<Cx>|
                {
                    &&& #[trigger] cxs.len() == children.len() + 1
                    &&& cxs[0] == *cx
                    &&& cxs[children.len() as int] == *cx_after
                    &&& forall|k: int|
                        0 <= k < children.len() ==> #[trigger] item_applied(
                            self@,
                            k,
                            &cxs[k],
                            from,
                            children[k],
                            nodes,
                            &after@[k],
                            &cxs[k + 1],
                        )
                }
        } else {
            *after == *self && refused(cx, nodes, index, cx_after)
        }
    }

    fn apply(&mut self, cx: &mut Cx, from: ApplyFrom, index: usize, nodes: &[LiveNode]) -> (next:
        usize) {
        let len: usize = nodes.len();
        proof {
            lemma_node_end_bounds(nodes@, index as int);
            lemma_node_end_bounds(nodes@, index + 1);
            lemma_extends_refl(cx.apply_errors@);
        }
        if !nodes[index].value.is_array() {
            proof {
                lemma_extends_add(
                    cx.apply_errors@,
                    seq![error_at(LiveErrorKind::WrongValueType, nodes@, index as int)],
                );
            }
            cx.apply_error_wrong_value_type_for_primitive(index, nodes);
            return skip_node(nodes, index);
        }
        let old_len: usize = self.len();
        let ghost children = children_of(nodes@, index as int);
        let ghost mut cxs: Seq<Cx> = seq![*cx];
        let mut at: usize = index + 1;
        let mut k: usize = 0;
        proof {
            assert(children.skip(0) =~= children);
        }
        while at < len && !nodes[at].value.is_close()
            invariant
                len == nodes@.len(),
                index < at < len,
                k < at,
                scope_end(nodes@, at as int) is Some,
                scope_end(nodes@, at as int) == node_end(nodes@, index as int),
                children == children_of(nodes@, index as int),
                k <= children.len(),
                siblings_from(nodes@, at as int) == children.skip(k as int),
                cxs.len() == k + 1,
                cxs[0] == *old(cx),
                cxs[k as int] == *cx,
                old_len == old(self)@.len(),
                self@.len() == if k <= old_len {
                    old_len
                } else {
                    k
                },
                forall|j: int| k <= j < old_len ==> self@[j] == old(self)@[j],
                forall|j: int|
                    0 <= j < k ==> #[trigger] item_applied(
                        old(self)@,
                        j,
                        &cxs[j],
                        from,
                        children[j],
                        nodes@,
                        &self@[j],
                        &cxs[j + 1],
                    ),
                extends(cx.apply_errors@, old(cx).apply_errors@),
            decreases len - at,
        {
            proof {
                lemma_scope_step(nodes@, at as int);
                lemma_node_end_bounds(nodes@, node_end(nodes@, at as int).unwrap());
                let next = node_end(nodes@, at as int).unwrap();
                assert(siblings_from(nodes@, at as int) == seq![at as int] + siblings_from(
                    nodes@,
                    next,
                ));
                assert(children.skip(k as int).len() > 0);
                assert(children[k as int] == children.skip(k as int)[0]);
                assert(children.skip(k as int).skip(1) =~= children.skip(k + 1));
                assert((seq![at as int] + siblings_from(nodes@, next)).skip(1) =~= siblings_from(
                    nodes@,
                    next,
                ));
                assert(siblings_from(nodes@, next) =~= children.skip(k + 1));
            }
            let ghost c_before = *cx;
            let ghost items_before = self@;
            let ghost cxs_before = cxs;
            if k < old_len {
                at = self[k].apply(cx, from, at, nodes);
            } else {
                let mut item = T::new(cx);
                let ghost o = item;
                let ghost c = *cx;
                at = item.apply(cx, from, at, nodes);
                proof {
                    assert(T::made(&c_before, &o, &c) && o.applied(
                        &c,
                        from,
                        children[k as int],
                        nodes@,
                        &item,
                        cx,
                    ));
                    lemma_extends_trans(cx.apply_errors@, c.apply_errors@, c_before.apply_errors@);
                }
                self.push(item);
            }
            proof {
                cxs = cxs.push(*cx);
                lemma_extends_trans(cx.apply_errors@, c_before.apply_errors@, old(cx).apply_errors@);
                assert(item_applied(
                    old(self)@,
                    k as int,
                    &cxs[k as int],
                    from,
                    children[k as int],
                    nodes@,
                    &self@[k as int],
                    &cxs[k + 1],
                ));
                assert forall|j: int| 0 <= j < k implies #[trigger] item_applied(
                    old(self)@,
                    j,
                    &cxs[j],
                    from,
                    children[j],
                    nodes@,
                    &self@[j],
                    &cxs[j + 1],
                ) by {
                    assert(cxs[j] == cxs_before[j]);
                    assert(cxs[j + 1] == cxs_before[j + 1]);
                    assert(self@[j] == items_before[j]);
                    assert(item_applied(
                        old(self)@,
                        j,
                        &cxs_before[j],
                        from,
                        children[j],
                        nodes@,
                        &items_before[j],
                        &cxs_before[j + 1],
                    ));
                }
            }
            k += 1;
        }
        let ghost items_before = self@;
        self.truncate(k);
        proof {
            assert(siblings_from(nodes@, at as int) =~= Seq::<int>::empty());
            assert(children.skip(k as int).len() == 0);
            assert(k == children.len());
            assert forall|j: int| 0 <= j < children.len() implies #[trigger] item_applied(
                old(self)@,
                j,
                &cxs[j],
                from,
                children[j],
                nodes@,
                &self@[j],
                &cxs[j + 1],
            ) by {
                assert(self@[j] == items_before[j]);
            }
            assert(cxs.len() == children.len() + 1);
        }
        at + 1
    }
}

impl<T> LiveNew for Vec<T> where T: LiveApply + LiveNew {
    open spec fn made(cx: &Cx, made: &Self, cx_after: &Cx) -> bool {
        made@.len() == 0 && *cx_after == *cx
    }

    fn new(_cx: &mut Cx) -> (r: Self) {
        proof {
            lemma_extends_refl(_cx.apply_errors@);
        }
        Vec::new()
    }

    fn live_type_info(_cx: &mut Cx) -> (r: LiveTypeInfo) {
        T::live_type_info(_cx)
    }
}

impl ToLiveValue for bool {
    fn to_live_value(&self) -> (r: LiveValue)
        ensures
            r == LiveValue::Bool(*self),
    {
        LiveValue::Bool(*self)
    }
}

impl ToLiveValue for i64 {
    fn to_live_value(&self) -> (r: LiveValue)
        ensures
            r == LiveValue::Int(*self),
    {
        LiveValue::Int(*self)
    }
}

impl ToLiveValue for LiveFloat {
    fn to_live_value(&self) -> (r: LiveValue)
        ensures
            r == LiveValue::Float(*self),
    {
        LiveValue::Float(*self)
    }
}

impl ToLiveValue for LiveId {
    fn to_live_value(&self) -> (r: LiveValue)
        ensures
            r == LiveValue::Id(*self),
    {
        LiveValue::Id(*self)
    }
}

impl ToLiveValue for String {
    fn to_live_value(&self) -> (r: LiveValue)
        ensures
            r matches LiveValue::Str(s) && s@ == self@,
    {
        LiveValue::Str(self.clone())
    }
}

} // verus!
