use live_runtime::cx::{Cx, CxAction};
use live_runtime::event::{Event, LiveEditEvent, LiveTokenId};
use live_runtime::live_data::{LiveData, LiveField};
use live_runtime::live_id::{LiveFileId, LiveId, LiveModuleId};
use live_runtime::live_instances::{ptr_affects, LiveInstances};
use live_runtime::live_node::{LiveNode, LiveValue};
use live_runtime::live_node_vec::LiveNodeVec;
use live_runtime::live_registry::{LivePtr, LiveRegistry};

fn id(name: &str) -> LiveId {
    LiveId::from_str(name)
}

fn proto() -> LiveData {
    LiveData::object(vec![
        LiveField::new(id("width"), LiveData::Int(0)),
        LiveField::new(id("height"), LiveData::Int(0)),
    ])
}

fn document(width: i64) -> Vec<LiveNode> {
    // {left: {width: .., height: 2}, right: {width: 7}}
    let mut nodes: Vec<LiveNode> = Vec::new();
    nodes.open_object(LiveId(0));
    nodes.open_object(id("left"));
    nodes.push_int(id("width"), width);
    nodes.push_int(id("height"), 2);
    nodes.close();
    nodes.open_object(id("right"));
    nodes.push_int(id("width"), 7);
    nodes.close();
    nodes.close();
    nodes
}

fn field(instances: &LiveInstances, at: usize, name: &str) -> i64 {
    instances.items[at].data.field(id(name)).unwrap().as_int().unwrap()
}

fn set_field(instances: &mut LiveInstances, at: usize, name: &str, value: i64) {
    let mut nodes: Vec<LiveNode> = Vec::new();
    nodes.open_object(LiveId(0));
    nodes.push_int(id(name), value);
    nodes.close();
    let mut cx = Cx::new();
    instances.items[at].data.apply_data(&mut cx, 0, &nodes);
}

#[test]
fn a_live_edit_reaches_the_objects_it_touches_only() {
    let mut cx = Cx::new();
    let mut registry = LiveRegistry::new();
    let module = LiveModuleId::from_str("app::main");
    let file = registry.register_nodes(module, document(1)).unwrap();
    let mut instances = LiveInstances::new();
    assert_eq!(instances.instantiate(&mut cx, &registry, &proto(), module, id("left")), Some(0));
    assert_eq!(instances.instantiate(&mut cx, &registry, &proto(), module, id("right")), Some(1));
    assert_eq!(instances.instantiate(&mut cx, &registry, &proto(), module, id("nobody")), None);
    assert_eq!(instances.instantiate(&mut cx, &registry, &proto(), LiveModuleId(id("x"), id("y")), id("left")), None);
    assert_eq!(instances.items.len(), 2);
    assert_eq!((field(&instances, 0, "width"), field(&instances, 0, "height")), (1, 2));
    assert_eq!((field(&instances, 1, "width"), field(&instances, 1, "height")), (7, 0));
    assert_eq!(instances.items[1].live_ptr, LivePtr { file_id: file, index: 5, generation: 0 });

    // the application changes fields that the edit does not mention
    set_field(&mut instances, 0, "height", 50);
    set_field(&mut instances, 1, "width", 70);
    let width = registry.file_id_index_to_live_ptr(file, 2);
    let token = LiveTokenId { file_id: file, token_index: 0 };
    let event = registry.live_edit(width, token, LiveValue::Int(9)).unwrap();
    instances.handle_live_edit_event(&mut cx, &registry, &Event::LiveEdit(event));
    // the touched object is reconciled with its whole node, the other is left alone
    assert_eq!((field(&instances, 0, "width"), field(&instances, 0, "height")), (9, 2));
    assert_eq!((field(&instances, 1, "width"), field(&instances, 1, "height")), (70, 0));
    assert!(cx.apply_errors.is_empty());
    assert!(cx.actions.is_empty());
    instances.handle_live_edit_event(&mut cx, &registry, &Event::Paint);
    assert_eq!(field(&instances, 1, "width"), 70);
}

#[test]
fn a_reparse_looks_every_object_up_again() {
    let mut cx = Cx::new();
    let mut registry = LiveRegistry::new();
    let module = LiveModuleId::from_str("app::main");
    registry.register_nodes(module, document(1)).unwrap();
    let mut instances = LiveInstances::new();
    instances.instantiate(&mut cx, &registry, &proto(), module, id("left"));
    instances.instantiate(&mut cx, &registry, &proto(), module, id("right"));

    // the new document has `right` first and no `left`
    let mut nodes: Vec<LiveNode> = Vec::new();
    nodes.open_object(LiveId(0));
    nodes.open_object(id("right"));
    nodes.push_int(id("height"), 33);
    nodes.close();
    nodes.close();
    registry.register_nodes(module, nodes).unwrap();
    let stale = instances.items[0].live_ptr;
    assert!(!registry.generation_valid(stale));
    instances.handle_live_edit_event(&mut cx, &registry, &Event::LiveEdit(LiveEditEvent::ReparseDocument));
    assert_eq!(instances.items[0].live_ptr, stale);
    assert_eq!((field(&instances, 0, "width"), field(&instances, 0, "height")), (1, 2));
    assert_eq!(instances.items[1].live_ptr, LivePtr { file_id: LiveFileId(0), index: 1, generation: 1 });
    assert_eq!((field(&instances, 1, "width"), field(&instances, 1, "height")), (7, 33));
    assert_eq!(cx.actions, vec![CxAction::FlushDrawShaders, CxAction::RedrawAll]);
}

#[test]
fn a_change_touches_the_ranges_that_hold_it() {
    let mut registry = LiveRegistry::new();
    let module = LiveModuleId::from_str("app::main");
    let file = registry.register_nodes(module, document(1)).unwrap();
    let other = registry.register_nodes(LiveModuleId::from_str("app::other"), document(1)).unwrap();
    let at = |file: LiveFileId, index: u32| LivePtr { file_id: file, index, generation: 0 };
    assert!(ptr_affects(&registry, at(file, 1), at(file, 1)));
    assert!(ptr_affects(&registry, at(file, 1), at(file, 2)));
    assert!(ptr_affects(&registry, at(file, 1), at(file, 4)));
    assert!(!ptr_affects(&registry, at(file, 1), at(file, 5)));
    assert!(!ptr_affects(&registry, at(file, 1), at(file, 0)));
    assert!(ptr_affects(&registry, at(file, 0), at(file, 6)));
    assert!(ptr_affects(&registry, at(file, 2), at(file, 2)));
    assert!(!ptr_affects(&registry, at(file, 2), at(file, 3)));
    assert!(!ptr_affects(&registry, at(file, 1), at(other, 2)));
    // a pointer at a close names no object, and a stale pointer none either
    assert!(!ptr_affects(&registry, at(file, 4), at(file, 4)));
    let stale = LivePtr { file_id: file, index: 1, generation: 9 };
    assert!(!ptr_affects(&registry, stale, at(file, 2)));
    assert!(!ptr_affects(&registry, at(file, 1), LivePtr { file_id: file, index: 2, generation: 9 }));
}
