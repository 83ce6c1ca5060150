//! Reading a node stream: skipping a value, walking the children of a scope,
//! finding a child by name, and checking that a stream is balanced.

use vstd::prelude::*;
use crate::live_id::LiveId;
use crate::live_node::{lemma_node_end_bounds, node_end, scope_end, LiveNode};

verus! {

/// The index that a scan with a depth counter stops at: it starts at `index`
/// inside `depth` open scopes, counts opens up and closes down, and stops after
/// the node that brings it back to where a value that starts at depth 0 ends.
/// `None` where the stream ends first, or a close comes at depth 0.
pub open spec fn scan_end(nodes: Seq<LiveNode>, index: int, depth: nat) -> Option<int>
    decreases nodes.len() - index,
{
    if index < 0 || index >= nodes.len() {
        None
    } else if nodes[index].value.is_open() {
        scan_end(nodes, index + 1, depth + 1)
    } else if nodes[index].value.is_close() {
        if depth == 0 {
            None
        } else if depth == 1 {
            Some(index + 1)
        } else {
            scan_end(nodes, index + 1, (depth - 1) as nat)
        }
    } else {
        if depth == 0 {
            Some(index + 1)
        } else {
            scan_end(nodes, index + 1, depth)
        }
    }
}

/// The index just past `depth` nested scopes that are open at `index`.
pub open spec fn scopes_end(nodes: Seq<LiveNode>, index: int, depth: nat) -> Option<int>
    decreases depth,
{
    if depth == 0 {
        Some(index)
    } else {
        match scope_end(nodes, index) {
            Some(next) => scopes_end(nodes, next, (depth - 1) as nat),
            None => None,
        }
    }
}

/// The depth-counting scan finds exactly the end of the value, and of the
/// enclosing scopes, that the nesting of the stream defines.
pub proof fn lemma_scan_end(nodes: Seq<LiveNode>, index: int, depth: nat)
    ensures
        depth == 0 ==> scan_end(nodes, index, depth) == node_end(nodes, index),
        depth > 0 ==> scan_end(nodes, index, depth) == scopes_end(nodes, index, depth),
    decreases nodes.len() - index,
{
    if index < 0 || index >= nodes.len() {
        assert(scope_end(nodes, index) is None);
    } else if nodes[index].value.is_open() {
        lemma_scan_end(nodes, index + 1, depth + 1);
        lemma_node_end_bounds(nodes, index);
        lemma_node_end_bounds(nodes, index + 1);
        assert(scan_end(nodes, index, depth) == scopes_end(nodes, index + 1, depth + 1));
        assert(node_end(nodes, index) == scope_end(nodes, index + 1));
        match scope_end(nodes, index + 1) {
            Some(e1) => {
                assert(scopes_end(nodes, index + 1, depth + 1) == scopes_end(nodes, e1, depth));
                if depth > 0 {
                    assert(scope_end(nodes, index) == scope_end(nodes, e1));
                    assert(scopes_end(nodes, e1, depth) == scopes_end(nodes, index, depth));
                } else {
                    assert(scopes_end(nodes, e1, 0) == Some(e1));
                }
            },
            None => {
                assert(scopes_end(nodes, index + 1, depth + 1) is None);
                assert(scope_end(nodes, index) is None);
            },
        }
    } else if nodes[index].value.is_close() {
        assert(scope_end(nodes, index) == Some(index + 1));
        if depth > 1 {
            lemma_scan_end(nodes, index + 1, (depth - 1) as nat);
            assert(scopes_end(nodes, index, depth) == scopes_end(
                nodes,
                index + 1,
                (depth - 1) as nat,
            ));
        } else if depth == 1 {
            assert(scopes_end(nodes, index + 1, 0) == Some(index + 1));
            assert(scopes_end(nodes, index, 1) == scopes_end(nodes, index + 1, 0));
        }
    } else {
        if depth > 0 {
            lemma_scan_end(nodes, index + 1, depth);
            assert(node_end(nodes, index) == Some(index + 1));
            assert(scope_end(nodes, index) == scope_end(nodes, index + 1));
            assert(scopes_end(nodes, index, depth) == scopes_end(nodes, index + 1, depth));
        }
    }
}

/// The indices of the values that follow one another from `index` up to the
/// close of their scope.
pub open spec fn siblings_from(nodes: Seq<LiveNode>, index: int) -> Seq<int>
    decreases nodes.len() - index,
{
    if index < 0 || index >= nodes.len() || nodes[index].value.is_close() {
        Seq::empty()
    } else {
        match node_end(nodes, index) {
            Some(next) => if index < next <= nodes.len() {
                seq![index] + siblings_from(nodes, next)
            } else {
                Seq::empty()
            },
            None => Seq::empty(),
        }
    }
}

/// The indices of the direct children of the scope opened at `parent`.
pub open spec fn children_of(nodes: Seq<LiveNode>, parent: int) -> Seq<int> {
    siblings_from(nodes, parent + 1)
}

/// The first of the values that follow one another from `index` whose name is
/// `name`; values nested inside them are not looked at.
pub open spec fn named_sibling(nodes: Seq<LiveNode>, index: int, name: LiveId) -> Option<int>
    decreases nodes.len() - index,
{
    if index < 0 || index >= nodes.len() || nodes[index].value.is_close() {
        None
    } else if nodes[index].id == name {
        Some(index)
    } else {
        match node_end(nodes, index) {
            Some(next) => if index < next <= nodes.len() {
                named_sibling(nodes, next, name)
            } else {
                None
            },
            None => None,
        }
    }
}

/// What a stack of open scopes accepts: read from `index` with `depth` scopes
/// open, no close comes without an open before it, and the stream ends with
/// every scope closed.
pub open spec fn balanced_from(nodes: Seq<LiveNode>, index: int, depth: nat) -> bool
    decreases nodes.len() - index,
{
    if index < 0 || index >= nodes.len() {
        depth == 0
    } else if nodes[index].value.is_open() {
        balanced_from(nodes, index + 1, depth + 1)
    } else if nodes[index].value.is_close() {
        depth > 0 && balanced_from(nodes, index + 1, (depth - 1) as nat)
    } else {
        balanced_from(nodes, index + 1, depth)
    }
}

/// A stream is balanced when every open marker has its close and every close
/// its open.
pub open spec fn stack_balanced(nodes: Seq<LiveNode>) -> bool {
    balanced_from(nodes, 0, 0)
}

/// Complete values follow one another from `index` to the end of the stream.
pub open spec fn tiles(nodes: Seq<LiveNode>, index: int) -> bool
    decreases nodes.len() - index,
{
    if index < 0 || index >= nodes.len() {
        index == nodes.len()
    } else {
        match node_end(nodes, index) {
            Some(next) => index < next <= nodes.len() && tiles(nodes, next),
            None => false,
        }
    }
}

/// `depth` scopes close one after the other from `index`, and complete values
/// follow up to the end of the stream.
pub open spec fn closes_then_tiles(nodes: Seq<LiveNode>, index: int, depth: nat) -> bool
    decreases depth,
{
    if depth == 0 {
        tiles(nodes, index)
    } else {
        match scope_end(nodes, index) {
            Some(next) => closes_then_tiles(nodes, next, (depth - 1) as nat),
            None => false,
        }
    }
}

proof fn lemma_balanced_from(nodes: Seq<LiveNode>, index: int, depth: nat)
    requires
        0 <= index <= nodes.len(),
    ensures
        balanced_from(nodes, index, depth) == closes_then_tiles(nodes, index, depth),
    decreases nodes.len() - index,
{
    if index >= nodes.len() {
        assert(scope_end(nodes, index) is None);
        assert(tiles(nodes, index));
    } else if nodes[index].value.is_open() {
        lemma_balanced_from(nodes, index + 1, depth + 1);
        lemma_node_end_bounds(nodes, index);
        lemma_node_end_bounds(nodes, index + 1);
        assert(node_end(nodes, index) == scope_end(nodes, index + 1));
        match scope_end(nodes, index + 1) {
            Some(e1) => {
                assert(closes_then_tiles(nodes, index + 1, depth + 1) == closes_then_tiles(
                    nodes,
                    e1,
                    depth,
                ));
                if depth > 0 {
                    assert(scope_end(nodes, index) == scope_end(nodes, e1));
                    assert(closes_then_tiles(nodes, index, depth) == closes_then_tiles(
                        nodes,
                        e1,
                        depth,
                    ));
                } else {
                    assert(tiles(nodes, index) == tiles(nodes, e1));
                }
            },
            None => {
                assert(!closes_then_tiles(nodes, index + 1, depth + 1));
                assert(scope_end(nodes, index) is None);
            },
        }
    } else if nodes[index].value.is_close() {
        assert(scope_end(nodes, index) == Some(index + 1));
        if depth > 0 {
            lemma_balanced_from(nodes, index + 1, (depth - 1) as nat);
            assert(closes_then_tiles(nodes, index, depth) == closes_then_tiles(
                nodes,
                index + 1,
                (depth - 1) as nat,
            ));
        } else {
            assert(!tiles(nodes, index));
        }
    } else {
        lemma_balanced_from(nodes, index + 1, depth);
        assert(node_end(nodes, index) == Some(index + 1));
        if depth > 0 {
            assert(scope_end(nodes, index) == scope_end(nodes, index + 1));
            assert(closes_then_tiles(nodes, index, depth) == closes_then_tiles(
                nodes,
                index + 1,
                depth,
            ));
        } else {
            assert(tiles(nodes, index) == tiles(nodes, index + 1));
        }
    }
}

/// Skipping value after value from the start of a balanced stream ends exactly
/// at its length, and only a balanced stream can be walked so.
pub proof fn lemma_balanced_iff_tiles(nodes: Seq<LiveNode>)
    ensures
        stack_balanced(nodes) <==> tiles(nodes, 0),
{
    lemma_balanced_from(nodes, 0, 0);
}

/// In a scope that ends, every node before its close that is no close itself
/// starts a complete value, which ends inside the scope.
pub proof fn lemma_node_in_scope(nodes: Seq<LiveNode>, start: int, index: int)
    requires
        scope_end(nodes, start) is Some,
        start <= index < scope_end(nodes, start).unwrap() - 1,
        !nodes[index].value.is_close(),
    ensures
        node_end(nodes, index) is Some,
        node_end(nodes, index).unwrap() < scope_end(nodes, start).unwrap(),
    decreases nodes.len() - start,
{
    lemma_node_end_bounds(nodes, start);
    if nodes[start].value.is_close() {
    } else {
        let next = node_end(nodes, start).unwrap();
        lemma_node_end_bounds(nodes, next);
        if index == start {
        } else if index < next {
            lemma_node_in_scope(nodes, start + 1, index);
        } else {
            lemma_node_in_scope(nodes, next, index);
        }
    }
}

/// In a stream of complete values, every node that is no close starts a
/// complete value.
pub proof fn lemma_node_in_tiles(nodes: Seq<LiveNode>, start: int, index: int)
    requires
        tiles(nodes, start),
        0 <= start <= index < nodes.len(),
        !nodes[index].value.is_close(),
    ensures
        node_end(nodes, index) is Some,
    decreases nodes.len() - start,
{
    let next = node_end(nodes, start).unwrap();
    lemma_node_end_bounds(nodes, start);
    if index == start {
    } else if index < next {
        lemma_node_in_scope(nodes, start + 1, index);
    } else {
        lemma_node_in_tiles(nodes, next, index);
    }
}

/// A document is a stream that one scope of named fields spans from its first
/// node to its last.
pub open spec fn is_document(nodes: Seq<LiveNode>) -> bool {
    &&& nodes.len() > 0
    &&& nodes[0].value.is_structy_type()
    &&& node_end(nodes, 0) == Some(nodes.len() as int)
}

/// Past a value that is no close, the rest of the scope ends where the scope
/// ended before it.
pub proof fn lemma_scope_step(nodes: Seq<LiveNode>, index: int)
    requires
        scope_end(nodes, index) is Some,
        !nodes[index].value.is_close(),
    ensures
        node_end(nodes, index) is Some,
        index < node_end(nodes, index).unwrap() < scope_end(nodes, index).unwrap(),
        scope_end(nodes, node_end(nodes, index).unwrap()) == scope_end(nodes, index),
{
    lemma_node_end_bounds(nodes, index);
    lemma_node_end_bounds(nodes, node_end(nodes, index).unwrap());
}

/// The index just past the value that starts at `index`, or `None` where
/// the stream is malformed there: the index is past the end, a close
/// stands there, or the stream ends inside the value.
pub fn checked_skip_node(nodes: &[LiveNode], index: usize) -> (r: Option<usize>)
    ensures
        match r {
            Some(end) => node_end(nodes@, index as int) == Some(end as int),
            None => node_end(nodes@, index as int) is None,
        },
{
    let len: usize = nodes.len();
    if index >= len {
        return None;
    }
    let mut at: usize = index;
    let mut depth: usize = 0;
    proof {
        lemma_scan_end(nodes@, index as int, 0);
    }
    while at < len
        invariant
            len == nodes@.len(),
            index <= at <= len,
            depth <= at - index,
            scan_end(nodes@, at as int, depth as nat) == node_end(nodes@, index as int),
        decreases len - at,
    {
        if nodes[at].value.is_open() {
            depth += 1;
        } else if nodes[at].value.is_close() {
            if depth == 0 {
                return None;
            }
            depth -= 1;
            if depth == 0 {
                return Some(at + 1);
            }
        } else {
            if depth == 0 {
                return Some(at + 1);
            }
        }
        at += 1;
    }
    None
}

/// The index just past the value that starts at `index`.
pub fn skip_node(nodes: &[LiveNode], index: usize) -> (r: usize)
    requires
        node_end(nodes@, index as int) is Some,
    ensures
        node_end(nodes@, index as int) == Some(r as int),
        index < r <= nodes@.len(),
{
    proof {
        lemma_node_end_bounds(nodes@, index as int);
    }
    match checked_skip_node(nodes, index) {
        Some(end) => end,
        None => index,
    }
}

/// The first direct child of the scope opened at `parent`.
pub fn first_child(nodes: &[LiveNode], parent: usize) -> (r: Option<usize>)
    requires
        nodes@[parent as int].value.is_open(),
        node_end(nodes@, parent as int) is Some,
    ensures
        match r {
            Some(child) => children_of(nodes@, parent as int).len() > 0 && children_of(
                nodes@,
                parent as int,
            )[0] == child,
            None => children_of(nodes@, parent as int).len() == 0,
        },
{
    let len: usize = nodes.len();
    proof {
        lemma_node_end_bounds(nodes@, parent as int);
        lemma_node_end_bounds(nodes@, parent + 1);
    }
    if parent + 1 >= len || nodes[parent + 1].value.is_close() {
        None
    } else {
        Some(parent + 1)
    }
}

/// The sibling that follows the value at `index` in its scope.
pub fn next_child(nodes: &[LiveNode], index: usize) -> (r: Option<usize>)
    requires
        scope_end(nodes@, index as int) is Some,
        !nodes@[index as int].value.is_close(),
    ensures
        siblings_from(nodes@, index as int).len() > 0,
        siblings_from(nodes@, index as int)[0] == index,
        match r {
            Some(next) => siblings_from(nodes@, index as int).len() > 1 && siblings_from(
                nodes@,
                index as int,
            )[1] == next && scope_end(nodes@, next as int) == scope_end(
                nodes@,
                index as int,
            ) && !nodes@[next as int].value.is_close(),
            None => siblings_from(nodes@, index as int).len() == 1,
        },
{
    proof {
        lemma_scope_step(nodes@, index as int);
        lemma_node_end_bounds(nodes@, node_end(nodes@, index as int).unwrap());
    }
    let next: usize = skip_node(nodes, index);
    if nodes[next].value.is_close() {
        None
    } else {
        proof {
            lemma_scope_step(nodes@, next as int);
            let after = node_end(nodes@, next as int).unwrap();
            assert(siblings_from(nodes@, next as int) == seq![next as int] + siblings_from(
                nodes@,
                after,
            ));
            assert(siblings_from(nodes@, index as int) == seq![index as int] + siblings_from(
                nodes@,
                next as int,
            ));
            assert(siblings_from(nodes@, index as int).len() > 1);
            assert(siblings_from(nodes@, index as int)[1] == siblings_from(nodes@, next as int)[0]);
            assert(siblings_from(nodes@, next as int)[0] == next);
            assert(scope_end(nodes@, next as int) == scope_end(nodes@, index as int));
        }
        Some(next)
    }
}

/// The direct children of the scope opened at `parent`, in order.
pub fn child_indices(nodes: &[LiveNode], parent: usize) -> (r: Vec<usize>)
    requires
        nodes@[parent as int].value.is_open(),
        node_end(nodes@, parent as int) is Some,
    ensures
        r@.map_values(|i: usize| i as int) == children_of(nodes@, parent as int),
{
    let len: usize = nodes.len();
    proof {
        lemma_node_end_bounds(nodes@, parent as int);
        lemma_node_end_bounds(nodes@, parent + 1);
    }
    let mut out: Vec<usize> = Vec::new();
    let mut at: usize = parent + 1;
    while at < len && !nodes[at].value.is_close()
        invariant
            len == nodes@.len(),
            scope_end(nodes@, at as int) is Some,
            at < nodes@.len(),
            out@.map_values(|i: usize| i as int) + siblings_from(nodes@, at as int)
                == children_of(nodes@, parent as int),
        decreases nodes@.len() - at,
    {
        proof {
            lemma_scope_step(nodes@, at as int);
            lemma_node_end_bounds(nodes@, node_end(nodes@, at as int).unwrap());
        }
        let ghost before = out@.map_values(|i: usize| i as int);
        let next: usize = skip_node(nodes, at);
        out.push(at);
        proof {
            assert(out@.map_values(|i: usize| i as int) =~= before + seq![at as int]);
            assert(siblings_from(nodes@, at as int) =~= seq![at as int] + siblings_from(
                nodes@,
                next as int,
            ));
            assert(out@.map_values(|i: usize| i as int) + siblings_from(nodes@, next as int)
                =~= before + siblings_from(nodes@, at as int));
        }
        at = next;
    }
    proof {
        assert(siblings_from(nodes@, at as int) =~= Seq::<int>::empty());
        assert(out@.map_values(|i: usize| i as int) + Seq::<int>::empty()
            =~= out@.map_values(|i: usize| i as int));
    }
    out
}

/// The first direct child of the scope opened at `parent` that is named
/// `name`; nested scopes are not searched.
pub fn child_by_name(nodes: &[LiveNode], parent: usize, name: LiveId) -> (r: Option<usize>)
    requires
        nodes@[parent as int].value.is_open(),
        node_end(nodes@, parent as int) is Some,
    ensures
        match r {
            Some(child) => named_sibling(nodes@, parent + 1, name) == Some(child as int)
                && node_end(nodes@, child as int) is Some,
            None => named_sibling(nodes@, parent + 1, name) is None,
        },
{
    let len: usize = nodes.len();
    proof {
        lemma_node_end_bounds(nodes@, parent as int);
        lemma_node_end_bounds(nodes@, parent + 1);
    }
    let mut at: usize = parent + 1;
    while at < len && !nodes[at].value.is_close()
        invariant
            len == nodes@.len(),
            scope_end(nodes@, at as int) is Some,
            at < nodes@.len(),
            named_sibling(nodes@, at as int, name) == named_sibling(nodes@, parent + 1, name),
        decreases nodes@.len() - at,
    {
        proof {
            lemma_scope_step(nodes@, at as int);
            lemma_node_end_bounds(nodes@, node_end(nodes@, at as int).unwrap());
        }
        if nodes[at].id == name {
            return Some(at);
        }
        at = skip_node(nodes, at);
    }
    None
}

/// Whether every open marker of the stream has its close and every close
/// its open.
pub fn is_balanced(nodes: &[LiveNode]) -> (r: bool)
    ensures
        r == stack_balanced(nodes@),
{
    let len: usize = nodes.len();
    let mut at: usize = 0;
    let mut depth: usize = 0;
    while at < len
        invariant
            len == nodes@.len(),
            at <= len,
            depth <= at,
            balanced_from(nodes@, at as int, depth as nat) == stack_balanced(nodes@),
        decreases len - at,
    {
        if nodes[at].value.is_open() {
            depth += 1;
        } else if nodes[at].value.is_close() {
            if depth == 0 {
                return false;
            }
            depth -= 1;
        }
        at += 1;
    }
    depth == 0
}

/// Whether the stream is one document: a single scope that spans it all.
pub fn check_document(nodes: &[LiveNode]) -> (r: bool)
    ensures
        r == is_document(nodes@),
{
    if nodes.len() == 0 {
        return false;
    }
    if !nodes[0].value.is_structy_type() {
        return false;
    }
    match checked_skip_node(nodes, 0) {
        Some(end) => end == nodes.len(),
        None => false,
    }
}

} // verus!
