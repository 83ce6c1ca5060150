//! What holds of applying a node range twice to the values that the library
//! reconciles itself: the second application leaves what the first left.

use vstd::prelude::*;
use crate::cx::Cx;
use crate::live_float::LiveFloat;
use crate::live_id::LiveId;
use crate::live_node::LiveNode;
use crate::live_node_slice::children_of;
use crate::live_prims::item_applied;
use crate::live_traits::{ApplyFrom, LiveApply, LiveNew};
use crate::texture::Texture;

verus! {

/// Whether the values of a type settle: whatever a value was, whatever the
/// reasons to apply and whatever the contexts, once a range was applied to
/// it a second application of the same range leaves it as the first left
/// it.
pub open spec fn settles<T: LiveApply>() -> bool {
    forall|
        a: T,
        c0: Cx,
        from: ApplyFrom,
        again: ApplyFrom,
        index: int,
        nodes: Seq<LiveNode>,
        b: T,
        c1: Cx,
        c2: Cx,
        c: T,
        c3: Cx,
    |
        #![trigger a.applied(&c0, from, index, nodes, &b, &c1), b.applied(&c2, again, index, nodes, &c, &c3)]
        a.applied(&c0, from, index, nodes, &b, &c1) && b.applied(&c2, again, index, nodes, &c, &c3)
            ==> c == b
}

/// Truth values settle.
pub proof fn lemma_bool_settles()
    ensures
        settles::<bool>(),
{
}

/// Integers settle.
pub proof fn lemma_int_settles()
    ensures
        settles::<i64>(),
{
}

/// Numbers settle.
pub proof fn lemma_float_settles()
    ensures
        settles::<LiveFloat>(),
{
}

/// Ids settle.
pub proof fn lemma_id_settles()
    ensures
        settles::<LiveId>(),
{
}

/// Textures settle: no range changes one.
pub proof fn lemma_texture_settles()
    ensures
        settles::<Texture>(),
{
}

/// A string that a range was applied to holds the same characters after a
/// second application of the range, in a context that knows the same names.
pub proof fn lemma_string_applied_twice(
    a: String,
    c0: Cx,
    from: ApplyFrom,
    again: ApplyFrom,
    index: int,
    nodes: Seq<LiveNode>,
    b: String,
    c1: Cx,
    c2: Cx,
    c: String,
    c3: Cx,
)
    requires
        a.applied(&c0, from, index, nodes, &b, &c1),
        b.applied(&c2, again, index, nodes, &c, &c3),
        c2.id_names == c0.id_names,
    ensures
        c@ == b@,
{
}

/// An object that may be missing settles where the object does: the first
/// application makes the object if it is missing, the second finds it.
pub proof fn lemma_option_settles<T: LiveApply + LiveNew>()
    requires
        settles::<T>(),
    ensures
        settles::<Option<T>>(),
{
    assert forall|
        a: Option<T>,
        c0: Cx,
        from: ApplyFrom,
        again: ApplyFrom,
        index: int,
        nodes: Seq<LiveNode>,
        b: Option<T>,
        c1: Cx,
        c2: Cx,
        c: Option<T>,
        c3: Cx,
    |
        #![trigger a.applied(&c0, from, index, nodes, &b, &c1), b.applied(&c2, again, index, nodes, &c, &c3)]
        a.applied(&c0, from, index, nodes, &b, &c1) && b.applied(
            &c2,
            again,
            index,
            nodes,
            &c,
            &c3,
        ) implies c == b by {
        let inner_b = b.unwrap();
        let inner_c = c.unwrap();
        assert(inner_b.applied(&c2, again, index, nodes, &inner_c, &c3));
        match a {
            Some(inner_a) => {
                assert(inner_a.applied(&c0, from, index, nodes, &inner_b, &c1));
            },
            None => {
                let (o, made_cx) = choose|o: T, made_cx: Cx| #[trigger]
                    T::made(&c0, &o, &made_cx) && o.applied(
                        &made_cx,
                        from,
                        index,
                        nodes,
                        &inner_b,
                        &c1,
                    );
                assert(o.applied(&made_cx, from, index, nodes, &inner_b, &c1));
            },
        }
        assert(inner_c == inner_b);
    }
}

/// A vector whose items settle holds the same items after a second
/// application of an array: as many as the array has children, each as the
/// first application left it.
pub proof fn lemma_vec_applied_twice<T: LiveApply + LiveNew>(
    a: Vec<T>,
    c0: Cx,
    from: ApplyFrom,
    again: ApplyFrom,
    index: int,
    nodes: Seq<LiveNode>,
    b: Vec<T>,
    c1: Cx,
    c2: Cx,
    c: Vec<T>,
    c3: Cx,
)
    requires
        settles::<T>(),
        a.applied(&c0, from, index, nodes, &b, &c1),
        b.applied(&c2, again, index, nodes, &c, &c3),
    ensures
        c@ == b@,
{
    if nodes[index].value.is_array() {
        let children = children_of(nodes, index);
        let first = choose|cxs: Seq<Cx>|
            {
                &&& #[trigger] cxs.len() == children.len() + 1
                &&& cxs[0] == c0
                &&& cxs[children.len() as int] == c1
                &&& forall|k: int|
                    0 <= k < children.len() ==> #[trigger] item_applied(
                        a@,
                        k,
                        &cxs[k],
                        from,
                        children[k],
                        nodes,
                        &b@[k],
                        &cxs[k + 1],
                    )
            };
        let second = choose|cxs: Seq<Cx>|
            {
                &&& #[trigger] cxs.len() == children.len() + 1
                &&& cxs[0] == c2
                &&& cxs[children.len() as int] == c3
                &&& forall|k: int|
                    0 <= k < children.len() ==> #[trigger] item_applied(
                        b@,
                        k,
                        &cxs[k],
                        again,
                        children[k],
                        nodes,
                        &c@[k],
                        &cxs[k + 1],
                    )
            };
        assert forall|k: int| 0 <= k < children.len() implies c@[k] == b@[k] by {
            assert(item_applied(
                a@,
                k,
                &first[k],
                from,
                children[k],
                nodes,
                &b@[k],
                &first[k + 1],
            ));
            assert(item_applied(
                b@,
                k,
                &second[k],
                again,
                children[k],
                nodes,
                &c@[k],
                &second[k + 1],
            ));
            assert(b@[k].applied(&second[k], again, children[k], nodes, &c@[k], &second[k + 1]));
            if k < a@.len() {
                assert(a@[k].applied(&first[k], from, children[k], nodes, &b@[k], &first[k + 1]));
            } else {
                let (o, made_cx) = choose|o: T, made_cx: Cx| #[trigger]
                    T::made(&first[k], &o, &made_cx) && o.applied(
                        &made_cx,
                        from,
                        children[k],
                        nodes,
                        &b@[k],
                        &first[k + 1],
                    );
                assert(o.applied(&made_cx, from, children[k], nodes, &b@[k], &first[k + 1]));
            }
        }
        assert(c@ =~= b@);
    }
}

} // verus!
