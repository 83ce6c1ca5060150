use live_runtime::live_id::{LiveFileId, LiveId};
use live_runtime::live_node::{LiveNode, LiveNodeOrigin, LiveValue};
use live_runtime::live_node_slice::{
    check_document, checked_skip_node, child_by_name, child_indices, first_child, is_balanced,
    next_child, skip_node,
};
use live_runtime::live_node_vec::LiveNodeVec;

fn sample() -> Vec<LiveNode> {
    // {a: 1, b: {x: 1, y: 2}, c: [1, 2, 3]}
    let mut nodes: Vec<LiveNode> = Vec::new();
    nodes.open_object(LiveId(0));
    nodes.push_int(LiveId::from_str("a"), 1);
    nodes.open_object(LiveId::from_str("b"));
    nodes.push_int(LiveId::from_str("x"), 1);
    nodes.push_int(LiveId::from_str("y"), 2);
    nodes.close();
    nodes.open_array(LiveId::from_str("c"));
    nodes.push_int(LiveId(0), 1);
    nodes.push_int(LiveId(0), 2);
    nodes.push_int(LiveId(0), 3);
    nodes.close();
    nodes.close();
    nodes
}

#[test]
fn skip_node_returns_index_after_matching_close() {
    let nodes = sample();
    assert_eq!(nodes.len(), 12);
    assert_eq!(skip_node(&nodes, 0), 12);
    assert_eq!(skip_node(&nodes, 1), 2);
    assert_eq!(skip_node(&nodes, 2), 6);
    assert_eq!(skip_node(&nodes, 6), 11);
    assert_eq!(skip_node(&nodes, 7), 8);
}

#[test]
fn checked_skip_node_fails_on_malformed_streams() {
    let mut nodes: Vec<LiveNode> = Vec::new();
    nodes.open_object(LiveId(0));
    nodes.push_int(LiveId::from_str("a"), 1);
    assert_eq!(checked_skip_node(&nodes, 0), None);
    assert_eq!(checked_skip_node(&nodes, 1), Some(2));
    assert_eq!(checked_skip_node(&nodes, 2), None);
    nodes.close();
    assert_eq!(checked_skip_node(&nodes, 0), Some(3));
    assert_eq!(checked_skip_node(&nodes, 2), None);
    assert!(check_document(&nodes));
    nodes.close();
    assert!(!is_balanced(&nodes));
    assert!(!check_document(&nodes));
}

#[test]
fn children_are_walked_without_entering_nested_scopes() {
    let nodes = sample();
    assert_eq!(child_indices(&nodes, 0), vec![1, 2, 6]);
    assert_eq!(child_indices(&nodes, 2), vec![3, 4]);
    assert_eq!(child_indices(&nodes, 6), vec![7, 8, 9]);
    assert_eq!(first_child(&nodes, 0), Some(1));
    assert_eq!(next_child(&nodes, 1), Some(2));
    assert_eq!(next_child(&nodes, 2), Some(6));
    assert_eq!(next_child(&nodes, 6), None);
    assert_eq!(next_child(&nodes, 2), Some(6));
}

#[test]
fn child_by_name_finds_first_direct_child_only() {
    let nodes = sample();
    assert_eq!(child_by_name(&nodes, 0, LiveId::from_str("a")), Some(1));
    assert_eq!(child_by_name(&nodes, 0, LiveId::from_str("b")), Some(2));
    assert_eq!(child_by_name(&nodes, 0, LiveId::from_str("c")), Some(6));
    assert_eq!(child_by_name(&nodes, 0, LiveId::from_str("x")), None);
    assert_eq!(child_by_name(&nodes, 2, LiveId::from_str("y")), Some(4));
}

#[test]
fn skipping_from_zero_ends_at_stream_length() {
    let mut nodes = sample();
    nodes.push_int(LiveId::from_str("tail"), 7);
    nodes.open_array(LiveId(0));
    nodes.close();
    assert!(is_balanced(&nodes));
    let mut at = 0;
    let mut steps = 0;
    while at < nodes.len() {
        at = skip_node(&nodes, at);
        steps += 1;
    }
    assert_eq!(at, nodes.len());
    assert_eq!(steps, 3);
}

#[test]
fn child_by_name_takes_the_first_of_equal_names() {
    let mut nodes: Vec<LiveNode> = Vec::new();
    nodes.open_object(LiveId(0));
    nodes.open_object(LiveId::from_str("x"));
    nodes.push_int(LiveId::from_str("y"), 1);
    nodes.close();
    nodes.push_int(LiveId::from_str("y"), 2);
    nodes.push_int(LiveId::from_str("y"), 3);
    nodes.close();
    assert_eq!(child_by_name(&nodes, 0, LiveId::from_str("y")), Some(4));
    assert_eq!(child_by_name(&nodes, 1, LiveId::from_str("y")), Some(2));
    assert_eq!(child_by_name(&nodes, 0, LiveId(0)), None);
}

#[test]
fn balanced_streams_are_those_that_can_be_walked() {
    let mut nodes = sample();
    assert!(is_balanced(&nodes));
    assert!(is_balanced(&[]));
    nodes.insert(3, LiveNode { origin: LiveNodeOrigin::empty(), id: LiveId(0), value: LiveValue::Close });
    // {a, b: {}, x, y}, c: [...]} has one close too many
    assert!(!is_balanced(&nodes));
    assert_eq!(checked_skip_node(&nodes, 0), Some(7));
    assert!(!check_document(&nodes));
    nodes.remove(3);
    nodes.remove(5);
    assert!(!is_balanced(&nodes));
    assert_eq!(checked_skip_node(&nodes, 0), None);
}

#[test]
fn origins_keep_their_place_and_their_prefix_mark() {
    let origin = LiveNodeOrigin::from_position(LiveFileId(2), 7, 13);
    assert_eq!(origin.file_id, LiveFileId(2));
    assert_eq!(origin.line, 7);
    assert_eq!(origin.column, 13);
    assert!(!origin.node_has_prefix());
    let marked = origin.with_node_has_prefix(true);
    assert!(marked.node_has_prefix());
    assert_eq!(marked.with_node_has_prefix(false), origin);
    assert_eq!(LiveNodeOrigin::empty(), LiveNodeOrigin::from_position(LiveFileId(0), 0, 0));
}
