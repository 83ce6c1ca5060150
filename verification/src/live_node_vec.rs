//! Writing a node stream, node by node.

use vstd::prelude::*;
use crate::live_float::LiveFloat;
use crate::live_id::{LiveId, LiveType};
use crate::live_node::{LiveNode, LiveNodeOrigin, LiveValue};

verus! {

/// The node that the writers below append for a name and a value.
pub open spec fn plain_node(id: LiveId, value: LiveValue) -> LiveNode {
    LiveNode {
        origin: LiveNodeOrigin { file_id: crate::live_id::LiveFileId(0), line: 0, column: 0, has_prefix: false },
        id,
        value,
    }
}

/// Appending to a stream: each call adds one node at the end, with an empty
/// origin, and leaves the nodes before it as they were.
pub trait LiveNodeVec {
    /// The nodes written so far.
    spec fn stream(&self) -> Seq<LiveNode>;

    fn push_node(&mut self, node: LiveNode)
        ensures
            final(self).stream() == old(self).stream().push(node),
    ;

    fn open_object(&mut self, id: LiveId)
        ensures
            final(self).stream() == old(self).stream().push(plain_node(id, LiveValue::Object)),
    ;

    fn open_array(&mut self, id: LiveId)
        ensures
            final(self).stream() == old(self).stream().push(plain_node(id, LiveValue::Array)),
    ;

    fn open_clone(&mut self, id: LiveId, clone: LiveId)
        ensures
            final(self).stream() == old(self).stream().push(plain_node(id, LiveValue::Clone(clone))),
    ;

    fn open_class(&mut self, id: LiveId, live_type: LiveType)
        ensures
            final(self).stream() == old(self).stream().push(
                plain_node(id, LiveValue::Class { live_type }),
            ),
    ;

    fn close(&mut self)
        ensures
            final(self).stream() == old(self).stream().push(plain_node(LiveId(0), LiveValue::Close)),
    ;

    fn push_bool(&mut self, id: LiveId, v: bool)
        ensures
            final(self).stream() == old(self).stream().push(plain_node(id, LiveValue::Bool(v))),
    ;

    fn push_int(&mut self, id: LiveId, v: i64)
        ensures
            final(self).stream() == old(self).stream().push(plain_node(id, LiveValue::Int(v))),
    ;

    fn push_float(&mut self, id: LiveId, v: LiveFloat)
        ensures
            final(self).stream() == old(self).stream().push(plain_node(id, LiveValue::Float(v))),
    ;

    fn push_color(&mut self, id: LiveId, v: u32)
        ensures
            final(self).stream() == old(self).stream().push(plain_node(id, LiveValue::Color(v))),
    ;

    fn push_id(&mut self, id: LiveId, v: LiveId)
        ensures
            final(self).stream() == old(self).stream().push(plain_node(id, LiveValue::Id(v))),
    ;

    fn push_str(&mut self, id: LiveId, v: &str)
        ensures
            final(self).stream().len() == old(self).stream().len() + 1,
            final(self).stream().drop_last() == old(self).stream(),
            final(self).stream().last().id == id,
            final(self).stream().last().origin == plain_node(id, LiveValue::Null).origin,
            final(self).stream().last().value matches LiveValue::Str(s) && s@ == v@,
    ;
}

impl LiveNodeVec for Vec<LiveNode> {
    open spec fn stream(&self) -> Seq<LiveNode> {
        self@
    }

    fn push_node(&mut self, node: LiveNode) {
        self.push(node);
    }

    fn open_object(&mut self, id: LiveId) {
        self.push(LiveNode { origin: LiveNodeOrigin::empty(), id, value: LiveValue::Object });
    }

    fn open_array(&mut self, id: LiveId) {
        self.push(LiveNode { origin: LiveNodeOrigin::empty(), id, value: LiveValue::Array });
    }

    fn open_clone(&mut self, id: LiveId, clone: LiveId) {
        self.push(LiveNode { origin: LiveNodeOrigin::empty(), id, value: LiveValue::Clone(clone) });
    }

    fn open_class(&mut self, id: LiveId, live_type: LiveType) {
        self.push(
            LiveNode { origin: LiveNodeOrigin::empty(), id, value: LiveValue::Class { live_type } },
        );
    }

    fn close(&mut self) {
        self.push(LiveNode { origin: LiveNodeOrigin::empty(), id: LiveId(0), value: LiveValue::Close });
    }

    fn push_bool(&mut self, id: LiveId, v: bool) {
        self.push(LiveNode { origin: LiveNodeOrigin::empty(), id, value: LiveValue::Bool(v) });
    }

    fn push_int(&mut self, id: LiveId, v: i64) {
        self.push(LiveNode { origin: LiveNodeOrigin::empty(), id, value: LiveValue::Int(v) });
    }

    fn push_float(&mut self, id: LiveId, v: LiveFloat) {
        self.push(LiveNode { origin: LiveNodeOrigin::empty(), id, value: LiveValue::Float(v) });
    }

    fn push_color(&mut self, id: LiveId, v: u32) {
        self.push(LiveNode { origin: LiveNodeOrigin::empty(), id, value: LiveValue::Color(v) });
    }

    fn push_id(&mut self, id: LiveId, v: LiveId) {
        self.push(LiveNode { origin: LiveNodeOrigin::empty(), id, value: LiveValue::Id(v) });
    }

    fn push_str(&mut self, id: LiveId, v: &str) {
        let s: String = v.to_owned();
        self.push(LiveNode { origin: LiveNodeOrigin::empty(), id, value: LiveValue::Str(s) });
        assert(self@.drop_last() =~= old(self)@);
    }
}

} // verus!
