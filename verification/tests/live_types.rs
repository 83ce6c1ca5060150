use live_runtime::cx::Cx;
use live_runtime::live_data::{LiveData, LiveField};
use live_runtime::live_id::{LiveId, LiveModuleId, LiveType};
use live_runtime::live_node::LiveNode;
use live_runtime::live_node_vec::LiveNodeVec;
use live_runtime::live_registry::LiveRegistry;
use live_runtime::live_types::LiveTypes;

fn id(name: &str) -> LiveId {
    LiveId::from_str(name)
}

fn button() -> LiveData {
    LiveData::object(vec![
        LiveField::new(id("width"), LiveData::Int(100)),
        LiveField::new(id("label"), LiveData::Str(String::from("ok"))),
    ])
}

fn document(width: i64) -> Vec<LiveNode> {
    let mut nodes: Vec<LiveNode> = Vec::new();
    nodes.open_object(LiveId(0));
    nodes.open_class(id("button"), LiveType(1));
    nodes.push_int(id("width"), width);
    nodes.close();
    nodes.close();
    nodes
}

#[test]
fn objects_are_made_from_the_prototype_of_their_type() {
    let mut cx = Cx::new();
    let mut registry = LiveRegistry::new();
    let module = LiveModuleId::from_str("app::main");
    registry.register_nodes(module, document(40)).unwrap();
    let ptr = registry.module_id_and_name_to_ptr(module, id("button")).unwrap();
    let mut types = LiveTypes::new();
    types.register(LiveType(1), button());
    types.register(LiveType(2), LiveData::Int(7));

    let made = types.new_from_ptr(&mut cx, &registry, LiveType(1), Some(ptr)).unwrap();
    assert_eq!(made.field(id("width")).unwrap().as_int(), Some(40));
    assert_eq!(made.field(id("label")).unwrap().as_str().unwrap(), "ok");
    // the prototype stays as it was
    let bare = types.new_from_ptr(&mut cx, &registry, LiveType(1), None).unwrap();
    assert_eq!(bare.field(id("width")).unwrap().as_int(), Some(100));
    assert_eq!(types.new_instance(LiveType(2)).unwrap().as_int(), Some(7));
    assert!(types.new_instance(LiveType(3)).is_none());
    assert!(types.new_from_ptr(&mut cx, &registry, LiveType(3), Some(ptr)).is_none());

    // a stale pointer gives the prototype, unpatched
    registry.register_nodes(module, document(50)).unwrap();
    let stale = types.new_from_ptr(&mut cx, &registry, LiveType(1), Some(ptr)).unwrap();
    assert_eq!(stale.field(id("width")).unwrap().as_int(), Some(100));
    assert!(cx.apply_errors.is_empty());

    // a type that is registered again gets the new prototype
    types.register(LiveType(2), LiveData::Int(8));
    assert_eq!(types.new_instance(LiveType(2)).unwrap().as_int(), Some(8));
    assert_eq!(types.entries.len(), 2);
}
