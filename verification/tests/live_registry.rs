use live_runtime::event::{LiveEditEvent, LiveTokenId};
use live_runtime::live_edit::{scopes_around, LiveEditError};
use live_runtime::live_float::LiveFloat;
use live_runtime::live_id::{LiveFileId, LiveId, LiveModuleId};
use live_runtime::live_node::{LiveNode, LiveValue};
use live_runtime::live_node_slice::{check_document, child_by_name};
use live_runtime::live_node_vec::LiveNodeVec;
use live_runtime::live_registry::{LiveFile, LivePtr, LiveRegistry, LiveRegistryError};

fn id(name: &str) -> LiveId {
    LiveId::from_str(name)
}

fn document(width: i64) -> Vec<LiveNode> {
    // {Button: {width: .., label: {size: 9.0}, tags: [1, 2]}, theme: {dark: true}}
    let mut nodes: Vec<LiveNode> = Vec::new();
    nodes.open_object(LiveId(0));
    nodes.open_object(id("Button"));
    nodes.push_int(id("width"), width);
    nodes.open_clone(id("label"), id("Label"));
    nodes.push_float(id("size"), LiveFloat::from_bits(9.0f64.to_bits()));
    nodes.close();
    nodes.open_array(id("tags"));
    nodes.push_int(LiveId(0), 1);
    nodes.push_int(LiveId(0), 2);
    nodes.close();
    nodes.close();
    nodes.open_object(id("theme"));
    nodes.push_bool(id("dark"), true);
    nodes.close();
    nodes.close();
    nodes
}

fn token() -> LiveTokenId {
    LiveTokenId { file_id: LiveFileId(0), token_index: 3 }
}

#[test]
fn reregistration_invalidates_old_pointers() {
    let mut registry = LiveRegistry::new();
    let app = LiveModuleId::from_str("app::main");
    let lib = LiveModuleId::from_str("lib::theme");
    let file = registry.register_nodes(app, document(10)).unwrap();
    let other = registry.register_nodes(lib, document(20)).unwrap();
    assert_eq!((file, other), (LiveFileId(0), LiveFileId(1)));
    let old = registry.file_id_index_to_live_ptr(file, 1);
    let other_ptr = registry.file_id_index_to_live_ptr(other, 1);
    assert!(registry.generation_valid(old));
    assert_eq!(old, LivePtr { file_id: file, index: 1, generation: 0 });

    assert_eq!(registry.register_nodes(app, document(11)), Ok(file));
    assert!(!registry.generation_valid(old));
    assert!(registry.generation_valid(other_ptr));
    let new = registry.file_id_index_to_live_ptr(file, 1);
    assert!(registry.generation_valid(new));
    assert_eq!(new.generation, 1);
    assert_eq!(registry.live_files.len(), 2);
    assert_eq!(registry.ptr_to_doc(new).generation, 1);
    assert_eq!(registry.ptr_to_doc(new).module_id, app);
    assert!(registry.ptr_to_nodes(new).is_some());
    assert!(registry.ptr_to_nodes(old).is_none());
}

#[test]
fn pointers_into_unknown_files_are_invalid() {
    let registry = LiveRegistry::new();
    assert!(!registry.generation_valid(LivePtr { file_id: LiveFileId(0), index: 0, generation: 0 }));
    assert!(registry.ptr_to_nodes(LivePtr { file_id: LiveFileId(4), index: 0, generation: 0 }).is_none());
}

#[test]
fn malformed_documents_are_refused() {
    let mut registry = LiveRegistry::new();
    let app = LiveModuleId::from_str("app::main");
    assert_eq!(registry.register_nodes(app, Vec::new()), Err(LiveRegistryError::Malformed));
    let mut unclosed = document(1);
    unclosed.pop();
    assert_eq!(registry.register_nodes(app, unclosed), Err(LiveRegistryError::Malformed));
    let mut trailing = document(1);
    trailing.push_int(id("x"), 1);
    assert_eq!(registry.register_nodes(app, trailing), Err(LiveRegistryError::Malformed));
    let mut scalar: Vec<LiveNode> = Vec::new();
    scalar.push_int(id("x"), 1);
    assert_eq!(registry.register_nodes(app, scalar), Err(LiveRegistryError::Malformed));
    let mut array: Vec<LiveNode> = Vec::new();
    array.open_array(LiveId(0));
    array.close();
    assert_eq!(registry.register_nodes(app, array), Err(LiveRegistryError::Malformed));
    assert!(registry.live_files.is_empty());
    assert_eq!(registry.module_id_to_file_id(app), None);
}

#[test]
fn generation_limit_is_reported() {
    let mut registry = LiveRegistry::new();
    let app = LiveModuleId::from_str("app::main");
    registry.register_nodes(app, document(1)).unwrap();
    registry.live_files[0].generation = u64::MAX;
    assert_eq!(registry.register_nodes(app, document(2)), Err(LiveRegistryError::TooManyGenerations));
    assert_eq!(registry.live_files[0].generation, u64::MAX);
}

#[test]
fn main_module_and_names_resolve() {
    let mut registry = LiveRegistry::new();
    let app = LiveModuleId::from_str("app::main");
    registry.register_nodes(LiveModuleId::from_str("lib::theme"), document(1)).unwrap();
    registry.register_nodes(app, document(2)).unwrap();
    assert_eq!(registry.module_id_to_file_id(app), Some(LiveFileId(1)));
    assert!(!registry.set_main_module(LiveModuleId::from_str("nowhere")));
    assert_eq!(registry.main_module, None);
    assert!(registry.set_main_module(app));
    assert_eq!(registry.main_module, Some(LiveFileId(1)));
    let ptr = registry.module_id_and_name_to_ptr(app, id("theme")).unwrap();
    assert_eq!(ptr, LivePtr { file_id: LiveFileId(1), index: 11, generation: 0 });
    assert_eq!(registry.module_id_and_name_to_ptr(app, id("width")), None);
    assert_eq!(registry.module_id_and_name_to_ptr(LiveModuleId::from_str("nowhere"), id("theme")), None);
    assert_eq!(registry.file_id_to_file(LiveFileId(0)).module_id, LiveModuleId::from_str("lib::theme"));
}

#[test]
fn live_edit_patches_in_place_and_keeps_generation() {
    let mut registry = LiveRegistry::new();
    let app = LiveModuleId::from_str("app::main");
    let file = registry.register_nodes(app, document(10)).unwrap();
    let size = registry.file_id_index_to_live_ptr(file, 4);
    let whole = registry.file_id_index_to_live_ptr(file, 1);
    let event = registry.live_edit(size, token(), LiveValue::Int(12)).unwrap();
    assert!(registry.generation_valid(size));
    assert!(registry.generation_valid(whole));
    assert_eq!(registry.live_files[0].generation, 0);
    assert!(matches!(registry.live_files[0].nodes[4].value, LiveValue::Int(12)));
    assert_eq!(registry.live_files[0].nodes[4].id, id("size"));
    assert!(check_document(&registry.live_files[0].nodes));
    match event {
        LiveEditEvent::Mutation { tokens, apply, live_ptrs } => {
            assert_eq!(tokens, vec![token()]);
            assert_eq!(live_ptrs, vec![size]);
            // {Button: {label: {size: 12}}}
            assert_eq!(apply.len(), 7);
            assert!(check_document(&apply));
            assert!(matches!(apply[0].value, LiveValue::Object));
            assert_eq!(apply[1].id, id("Button"));
            assert!(matches!(apply[1].value, LiveValue::Object));
            assert_eq!(apply[2].id, id("label"));
            assert!(matches!(apply[2].value, LiveValue::Clone(c) if c == id("Label")));
            assert_eq!(apply[3].id, id("size"));
            assert!(matches!(apply[3].value, LiveValue::Int(12)));
            for close in &apply[4..] {
                assert!(matches!(close.value, LiveValue::Close));
            }
            assert_eq!(child_by_name(&apply, 0, id("Button")), Some(1));
            assert_eq!(child_by_name(&apply, 0, id("theme")), None);
        }
        LiveEditEvent::ReparseDocument => panic!("a mutation was expected"),
    }
    let event = registry.live_edit(size, token(), LiveValue::Str(String::from("big"))).unwrap();
    match event {
        LiveEditEvent::Mutation { apply, .. } => {
            assert!(matches!(&apply[3].value, LiveValue::Str(s) if s == "big"));
        }
        LiveEditEvent::ReparseDocument => panic!("a mutation was expected"),
    }
    assert!(matches!(&registry.live_files[0].nodes[4].value, LiveValue::Str(s) if s == "big"));
}

#[test]
fn live_edit_refuses_what_needs_a_reparse() {
    let mut registry = LiveRegistry::new();
    let app = LiveModuleId::from_str("app::main");
    let file = registry.register_nodes(app, document(10)).unwrap();
    let at = |registry: &LiveRegistry, index: usize| registry.file_id_index_to_live_ptr(file, index);
    // an open marker, a close, the root, an index past the end, an item of an array
    for index in [1, 5, 0, 14, 99, 7] {
        let ptr = at(&registry, index);
        assert_eq!(
            registry.live_edit(ptr, token(), LiveValue::Int(1)).err(),
            Some(LiveEditError::NeedsReparse),
            "index {}",
            index
        );
    }
    // a structural new value
    let width = at(&registry, 2);
    assert_eq!(registry.live_edit(width, token(), LiveValue::Object).err(), Some(LiveEditError::NeedsReparse));
    assert_eq!(registry.live_edit(width, token(), LiveValue::Close).err(), Some(LiveEditError::NeedsReparse));
    assert!(matches!(registry.live_files[0].nodes[2].value, LiveValue::Int(10)));
    // a stale pointer
    registry.register_nodes(app, document(11)).unwrap();
    assert_eq!(registry.live_edit(width, token(), LiveValue::Int(1)).err(), Some(LiveEditError::Stale));
    assert!(matches!(registry.live_files[0].nodes[2].value, LiveValue::Int(11)));
}

#[test]
fn scopes_around_lists_enclosing_open_markers() {
    let nodes = document(1);
    assert_eq!(scopes_around(&nodes, 0), Vec::<usize>::new());
    assert_eq!(scopes_around(&nodes, 1), vec![0]);
    assert_eq!(scopes_around(&nodes, 4), vec![0, 1, 3]);
    assert_eq!(scopes_around(&nodes, 6), vec![0, 1]);
    assert_eq!(scopes_around(&nodes, 7), vec![0, 1, 6]);
    assert_eq!(scopes_around(&nodes, 12), vec![0, 11]);
    assert_eq!(scopes_around(&nodes, nodes.len()), Vec::<usize>::new());
}

#[test]
fn file_limit_is_reported() {
    let mut registry = LiveRegistry::new();
    for i in 0..0x10000u64 {
        let mut nodes: Vec<LiveNode> = Vec::new();
        nodes.open_object(LiveId(0));
        nodes.close();
        registry.live_files.push(LiveFile {
            module_id: LiveModuleId(LiveId(1), LiveId(i + 1)),
            generation: 0,
            nodes,
        });
    }
    let one_more = LiveModuleId(LiveId(2), LiveId(1));
    assert_eq!(registry.register_nodes(one_more, document(1)), Err(LiveRegistryError::TooManyFiles));
    assert_eq!(registry.live_files.len(), 0x10000);
    // a module that is registered already can still be registered anew
    let last = LiveModuleId(LiveId(1), LiveId(0x10000));
    assert_eq!(registry.register_nodes(last, document(1)), Ok(LiveFileId(0xffff)));
    assert_eq!(registry.live_files[0xffff].generation, 1);
}
