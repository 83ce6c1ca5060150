use live_runtime::cx::{Cx, CxAction};
use live_runtime::event::{Event, LiveEditEvent, LiveTokenId};
use live_runtime::live_error::LiveErrorKind;
use live_runtime::live_float::LiveFloat;
use live_runtime::live_id::{LiveFileId, LiveId, LiveModuleId, LiveType};
use live_runtime::live_node::{LiveNode, LiveValue};
use live_runtime::live_node_slice::skip_node;
use live_runtime::live_node_vec::LiveNodeVec;
use live_runtime::live_registry::{LivePtr, LiveRegistry};
use live_runtime::live_traits::{
    apply_struct, checked_apply, from_ptr_impl, ApplyFrom, LiveApply, LiveApplyValue, LiveHook,
    LiveNew, LiveTypeInfo, ToLiveValue,
};

fn id(name: &str) -> LiveId {
    LiveId::from_str(name)
}

fn float(v: f64) -> LiveFloat {
    LiveFloat::from_bits(v.to_bits())
}

/// A button-like object with two fields and hooks that count their calls.
#[derive(Default)]
struct Knob {
    value: i64,
    label: String,
    scale: Option<LiveFloat>,
    new_from_doc_calls: usize,
    after_apply_calls: usize,
    after_new_calls: usize,
    provenance: Vec<ApplyFrom>,
}

impl LiveHook for Knob {
    fn after_apply(&mut self, _cx: &mut Cx, from: ApplyFrom, _index: usize, _nodes: &[LiveNode]) {
        self.after_apply_calls += 1;
        self.provenance.push(from);
    }

    fn after_new_from_doc(&mut self, _cx: &mut Cx) {
        self.new_from_doc_calls += 1;
    }

    fn after_new(&mut self, _cx: &mut Cx) {
        self.after_new_calls += 1;
    }
}

impl LiveApplyValue for Knob {
    fn apply_value(&mut self, cx: &mut Cx, from: ApplyFrom, index: usize, nodes: &[LiveNode]) -> usize {
        let name = nodes[index].id;
        if name == id("value") {
            self.value.apply(cx, from, index, nodes)
        } else if name == id("label") {
            self.label.apply(cx, from, index, nodes)
        } else if name == id("scale") {
            self.scale.apply(cx, from, index, nodes)
        } else {
            self.apply_value_unknown(cx, from, index, nodes)
        }
    }
}

impl LiveApply for Knob {
    fn apply(&mut self, cx: &mut Cx, from: ApplyFrom, index: usize, nodes: &[LiveNode]) -> usize {
        apply_struct(self, cx, from, index, nodes)
    }
}

impl LiveNew for Knob {
    fn new(cx: &mut Cx) -> Self {
        let mut knob = Knob::default();
        knob.after_new(cx);
        knob
    }

    fn live_type_info(_cx: &mut Cx) -> LiveTypeInfo {
        LiveTypeInfo {
            live_type: LiveType(7),
            name: id("Knob"),
            module_id: LiveModuleId::from_str("test::knob"),
            fields: Vec::new(),
        }
    }
}

/// An object whose `before_apply` takes every value itself.
#[derive(Default)]
struct Opaque {
    seen: Vec<usize>,
}

impl LiveHook for Opaque {
    fn before_apply(&mut self, _cx: &mut Cx, _from: ApplyFrom, index: usize, nodes: &[LiveNode]) -> Option<usize> {
        self.seen.push(index);
        Some(skip_node(nodes, index))
    }
}

impl LiveApplyValue for Opaque {
    fn apply_value(&mut self, _cx: &mut Cx, _from: ApplyFrom, _index: usize, _nodes: &[LiveNode]) -> usize {
        panic!("the hook takes every value");
    }
}

fn document(value: i64, label: &str) -> Vec<LiveNode> {
    // {Knob: {value: .., label: ".."}, other: {value: 1}}
    let mut nodes: Vec<LiveNode> = Vec::new();
    nodes.open_object(LiveId(0));
    nodes.open_object(id("knob"));
    nodes.push_int(id("value"), value);
    nodes.push_str(id("label"), label);
    nodes.close();
    nodes.open_object(id("other"));
    nodes.push_int(id("value"), 1);
    nodes.close();
    nodes.close();
    nodes
}

#[test]
fn apply_from_reports_documents() {
    let file_id = LiveFileId(3);
    assert!(ApplyFrom::NewFromDoc { file_id }.is_from_doc());
    assert!(ApplyFrom::UpdateFromDoc { file_id }.is_from_doc());
    for from in [ApplyFrom::LiveEdit, ApplyFrom::New, ApplyFrom::Animate, ApplyFrom::StateInit, ApplyFrom::ApplyOver] {
        assert!(!from.is_from_doc());
        assert_eq!(from.file_id(), None);
    }
    assert_eq!(ApplyFrom::NewFromDoc { file_id }.file_id(), Some(file_id));
    assert_eq!(ApplyFrom::UpdateFromDoc { file_id }.file_id(), Some(file_id));
}

#[test]
fn one_time_hook_runs_on_construction_only() {
    let mut cx = Cx::new();
    let mut registry = LiveRegistry::new();
    let module = LiveModuleId::from_str("app::main");
    let file_id = registry.register_nodes(module, document(5, "first")).unwrap();
    let ptr = registry.module_id_and_name_to_ptr(module, id("knob")).unwrap();
    let mut knob = Knob::new_from_ptr(&mut cx, &registry, Some(ptr));
    assert_eq!(knob.value, 5);
    assert_eq!(knob.label, "first");
    assert_eq!(knob.after_new_calls, 1);
    assert_eq!(knob.new_from_doc_calls, 1);
    assert_eq!(knob.after_apply_calls, 1);
    assert_eq!(knob.provenance, vec![ApplyFrom::NewFromDoc { file_id }]);

    // a live edit of `value`
    let value_ptr = registry.file_id_index_to_live_ptr(file_id, 2);
    let token = LiveTokenId { file_id, token_index: 9 };
    let event = registry
        .live_edit(value_ptr, token, LiveValue::Int(6))
        .unwrap();
    knob.handle_live_edit_event(&mut cx, &registry, &Event::LiveEdit(event), id("knob"));
    assert_eq!(knob.value, 6);
    assert_eq!(knob.label, "first");
    assert_eq!(knob.new_from_doc_calls, 1);
    assert_eq!(knob.after_apply_calls, 2);
    assert_eq!(knob.provenance[1], ApplyFrom::LiveEdit);
    assert!(cx.apply_errors.is_empty());
    assert_eq!(cx.actions, vec![CxAction::UpdateShaderTables { tokens: 1, live_ptrs: 1 }]);
}

#[test]
fn reparse_applies_main_module_as_update() {
    let mut cx = Cx::new();
    let mut registry = LiveRegistry::new();
    registry.register_nodes(LiveModuleId::from_str("app::main"), document(5, "first")).unwrap();
    let mut knob = Knob::new_as_main_module(&mut cx, &mut registry, "app::main", id("knob")).unwrap();
    assert_eq!(registry.main_module, Some(LiveFileId(0)));
    assert_eq!(knob.value, 5);
    registry.register_nodes(LiveModuleId::from_str("app::main"), document(8, "second")).unwrap();
    knob.handle_live_edit_event(&mut cx, &registry, &Event::LiveEdit(LiveEditEvent::ReparseDocument), id("knob"));
    assert_eq!(knob.value, 8);
    assert_eq!(knob.label, "second");
    assert_eq!(knob.new_from_doc_calls, 1);
    assert_eq!(knob.provenance[1], ApplyFrom::UpdateFromDoc { file_id: LiveFileId(0) });
    assert_eq!(cx.actions, vec![CxAction::FlushDrawShaders, CxAction::RedrawAll]);
    // an object that the document does not hold stays as it is
    let mut stranger = Knob::new(&mut cx);
    stranger.handle_live_edit_event(&mut cx, &registry, &Event::LiveEdit(LiveEditEvent::ReparseDocument), id("nobody"));
    assert_eq!(stranger.after_apply_calls, 0);
    // other events change nothing
    knob.handle_live_edit_event(&mut cx, &registry, &Event::Paint, id("knob"));
    assert_eq!(knob.after_apply_calls, 2);
}

#[test]
fn stale_pointer_gives_unpatched_default() {
    let mut cx = Cx::new();
    let mut registry = LiveRegistry::new();
    let module = LiveModuleId::from_str("app::main");
    registry.register_nodes(module, document(5, "first")).unwrap();
    let ptr = registry.module_id_and_name_to_ptr(module, id("knob")).unwrap();
    registry.register_nodes(module, document(6, "second")).unwrap();
    let knob = Knob::new_from_ptr(&mut cx, &registry, Some(ptr));
    assert_eq!(knob.value, 0);
    assert_eq!(knob.label, "");
    assert_eq!(knob.after_apply_calls, 0);
    assert_eq!(knob.new_from_doc_calls, 0);
    assert!(cx.apply_errors.is_empty());
    let bare = Knob::new_from_ptr(&mut cx, &registry, None);
    assert_eq!(bare.value, 0);
    // a pointer that names no node start is skipped as well
    let close = LivePtr { file_id: LiveFileId(0), index: 4, generation: 1 };
    assert!(registry.generation_valid(close));
    let mut target = Knob::new(&mut cx);
    from_ptr_impl(&mut target, &mut cx, &registry, close);
    assert_eq!(target.after_apply_calls, 0);
    let beyond = LivePtr { file_id: LiveFileId(0), index: 400, generation: 1 };
    from_ptr_impl(&mut target, &mut cx, &registry, beyond);
    assert_eq!(target.after_apply_calls, 0);
}

#[test]
fn from_ptr_reports_empty_objects() {
    let mut cx = Cx::new();
    let mut registry = LiveRegistry::new();
    let module = LiveModuleId::from_str("app::main");
    let mut nodes: Vec<LiveNode> = Vec::new();
    nodes.open_object(LiveId(0));
    nodes.open_object(id("knob"));
    nodes.close();
    nodes.close();
    registry.register_nodes(module, nodes).unwrap();
    let ptr = registry.module_id_and_name_to_ptr(module, id("knob")).unwrap();
    let knob = Knob::new_from_ptr(&mut cx, &registry, Some(ptr));
    assert_eq!(knob.after_apply_calls, 1);
    assert_eq!(cx.apply_errors.len(), 1);
    assert_eq!(cx.apply_errors[0].kind, LiveErrorKind::EmptyObject);
    assert_eq!(cx.apply_errors[0].index, 1);
}

#[test]
fn new_from_module_finds_top_level_objects() {
    let mut cx = Cx::new();
    let mut registry = LiveRegistry::new();
    registry.register_nodes(LiveModuleId::from_str("app::main"), document(5, "first")).unwrap();
    assert!(Knob::new_from_module(&mut cx, &registry, "app::main", id("knob")).is_some());
    assert!(Knob::new_from_module(&mut cx, &registry, "app::main", id("value")).is_none());
    assert!(Knob::new_from_module(&mut cx, &registry, "app::other", id("knob")).is_none());
    assert!(Knob::new_as_main_module(&mut cx, &mut registry, "app::other", id("knob")).is_none());
    assert_eq!(registry.main_module, None);
}

#[test]
fn struct_engine_reports_wrong_shape_and_unknown_fields() {
    let mut cx = Cx::new();
    let mut knob = Knob::new(&mut cx);
    let mut nodes: Vec<LiveNode> = Vec::new();
    nodes.push_int(id("knob"), 3);
    assert_eq!(knob.apply(&mut cx, ApplyFrom::New, 0, &nodes), 1);
    assert_eq!(cx.apply_errors.len(), 1);
    assert_eq!(cx.apply_errors[0].kind, LiveErrorKind::WrongTypeForStruct);
    assert_eq!(knob.after_apply_calls, 0);

    let mut nodes: Vec<LiveNode> = Vec::new();
    nodes.open_object(LiveId(0));
    nodes.push_int(id("value"), 3);
    nodes.push_int(id("missing"), 3);
    nodes.push_bool(id("label"), false);
    nodes.push_int(id("scale"), 2);
    nodes.close();
    knob.apply_over(&mut cx, &nodes);
    let kinds: Vec<LiveErrorKind> = cx.apply_errors.iter().map(|e| e.kind).collect();
    assert_eq!(
        kinds,
        vec![LiveErrorKind::WrongTypeForStruct, LiveErrorKind::NoMatchingField, LiveErrorKind::WrongValueType]
    );
    assert_eq!(knob.value, 3);
    assert_eq!(knob.scale, Some(float(2.0)));
    assert_eq!(knob.provenance, vec![ApplyFrom::ApplyOver]);
}

#[test]
fn before_apply_can_take_the_whole_value() {
    let mut cx = Cx::new();
    let mut opaque = Opaque::default();
    let nodes = document(1, "x");
    assert_eq!(apply_struct(&mut opaque, &mut cx, ApplyFrom::New, 1, &nodes), 5);
    assert_eq!(opaque.seen, vec![1]);
}

#[test]
fn option_makes_its_object_on_first_apply() {
    let mut cx = Cx::new();
    let nodes = document(4, "x");
    let mut slot: Option<Knob> = Option::<Knob>::new(&mut cx);
    assert!(slot.is_none());
    assert_eq!(slot.apply(&mut cx, ApplyFrom::New, 1, &nodes), 5);
    assert_eq!(slot.as_ref().unwrap().value, 4);
    assert_eq!(slot.as_ref().unwrap().after_new_calls, 1);
    slot.as_mut().unwrap().value = 9;
    slot.apply(&mut cx, ApplyFrom::LiveEdit, 5, &nodes);
    assert_eq!(slot.as_ref().unwrap().value, 1);
    assert_eq!(slot.as_ref().unwrap().after_new_calls, 1);
    let made = Option::<Knob>::new_apply(&mut cx, ApplyFrom::New, 1, &nodes);
    assert_eq!(made.unwrap().value, 4);
    let mut at = 1;
    let made = Knob::new_apply_mut_index(&mut cx, ApplyFrom::New, &mut at, &nodes);
    assert_eq!(at, 5);
    assert_eq!(made.label, "x");
    assert_eq!(Option::<Knob>::live_type_info(&mut cx).name, id("Knob"));
}

#[test]
fn vec_field_follows_the_array() {
    let mut cx = Cx::new();
    let mut values: Vec<i64> = Vec::new();
    let arrays: [&[i64]; 3] = [&[1, 2], &[1, 2, 3, 4], &[1]];
    for array in arrays {
        let mut nodes: Vec<LiveNode> = Vec::new();
        nodes.open_array(LiveId(0));
        for v in array {
            nodes.push_int(LiveId(0), *v);
        }
        nodes.close();
        assert_eq!(values.apply(&mut cx, ApplyFrom::New, 0, &nodes), nodes.len());
        assert_eq!(values, array.to_vec());
    }
    let mut nodes: Vec<LiveNode> = Vec::new();
    nodes.push_int(LiveId(0), 1);
    values.apply(&mut cx, ApplyFrom::New, 0, &nodes);
    assert_eq!(values, vec![1]);
    assert_eq!(cx.apply_errors.len(), 1);
    assert_eq!(cx.apply_errors[0].kind, LiveErrorKind::WrongValueType);
}

#[test]
fn primitives_take_what_their_kind_takes() {
    let mut cx = Cx::new();
    let hello = cx.id_names.intern("hello");
    let mut nodes: Vec<LiveNode> = Vec::new();
    nodes.push_bool(LiveId(0), true);
    nodes.push_int(LiveId(0), -7);
    nodes.push_float(LiveId(0), float(2.9));
    nodes.push_id(LiveId(0), hello);
    nodes.push_str(LiveId(0), "text");
    nodes.push_color(LiveId(0), 0x11223344);
    let mut b = bool::new(&mut cx);
    let mut i = i64::new(&mut cx);
    let mut f = LiveFloat::new(&mut cx);
    let mut n = LiveId::new(&mut cx);
    let mut s = <String as LiveNew>::new(&mut cx);
    assert_eq!((b, i, f, n, s.as_str()), (false, 0, float(0.0), LiveId(0), ""));
    assert_eq!(b.apply(&mut cx, ApplyFrom::New, 0, &nodes), 1);
    assert_eq!(i.apply(&mut cx, ApplyFrom::New, 1, &nodes), 2);
    assert_eq!(f.apply(&mut cx, ApplyFrom::New, 2, &nodes), 3);
    assert_eq!(n.apply(&mut cx, ApplyFrom::New, 3, &nodes), 4);
    assert_eq!(s.apply(&mut cx, ApplyFrom::New, 4, &nodes), 5);
    assert_eq!((b, i, f, n, s.as_str()), (true, -7, float(2.9), hello, "text"));
    assert!(cx.apply_errors.is_empty());
    i.apply(&mut cx, ApplyFrom::New, 2, &nodes);
    f.apply(&mut cx, ApplyFrom::New, 1, &nodes);
    n.apply(&mut cx, ApplyFrom::New, 4, &nodes);
    s.apply(&mut cx, ApplyFrom::New, 3, &nodes);
    assert_eq!((i, f, n, s.as_str()), (2, float(-7.0), id("text"), "hello"));
    assert!(cx.apply_errors.is_empty());
    b.apply(&mut cx, ApplyFrom::New, 1, &nodes);
    i.apply(&mut cx, ApplyFrom::New, 0, &nodes);
    f.apply(&mut cx, ApplyFrom::New, 5, &nodes);
    n.apply(&mut cx, ApplyFrom::New, 2, &nodes);
    s.apply(&mut cx, ApplyFrom::New, 1, &nodes);
    assert_eq!(cx.apply_errors.len(), 5);
    assert_eq!((b, i, f, n, s.as_str()), (true, 2, float(-7.0), id("text"), "hello"));
    assert_eq!(bool::live_type_info(&mut cx).name, id("bool"));
}

#[test]
fn checked_apply_leaves_malformed_ranges_alone() {
    let mut cx = Cx::new();
    let mut knob = Knob::new(&mut cx);
    let mut nodes = document(3, "x");
    nodes.truncate(4);
    assert_eq!(checked_apply(&mut knob, &mut cx, ApplyFrom::New, 1, &nodes), None);
    assert_eq!(checked_apply(&mut knob, &mut cx, ApplyFrom::New, 9, &nodes), None);
    assert_eq!(knob.after_apply_calls, 0);
    assert_eq!(knob.value, 0);
    let nodes = document(3, "x");
    assert_eq!(checked_apply(&mut knob, &mut cx, ApplyFrom::New, 1, &nodes), Some(5));
    assert_eq!(checked_apply(&mut knob, &mut cx, ApplyFrom::New, 4, &nodes), None);
    assert_eq!(knob.value, 3);
    assert!(cx.apply_errors.is_empty());
}

#[test]
fn primitives_write_themselves_out() {
    assert!(matches!(true.to_live_value(), LiveValue::Bool(true)));
    assert!(matches!((-4i64).to_live_value(), LiveValue::Int(-4)));
    assert!(matches!(float(1.5).to_live_value(), LiveValue::Float(f) if f == float(1.5)));
    assert!(matches!(id("a").to_live_value(), LiveValue::Id(i) if i == id("a")));
    assert!(matches!(String::from("s").to_live_value(), LiveValue::Str(s) if s == "s"));
}

#[test]
fn hooks_left_as_they_stand_change_nothing() {
    let mut cx = Cx::new();
    let nodes = document(1, "x");
    let mut knob = Knob::default();
    assert_eq!(knob.before_apply(&mut cx, ApplyFrom::New, 1, &nodes), None);
    assert_eq!(knob.apply_value_instance(&mut cx, ApplyFrom::New, 1, &nodes), 5);
    Knob::live_register(&mut cx);
    assert!(cx.apply_errors.is_empty());
    assert!(cx.actions.is_empty());
    assert_eq!(knob.value, 0);
    assert_eq!(knob.label, "");
    assert_eq!(knob.after_apply_calls, 0);
}

#[test]
fn a_second_application_leaves_what_the_first_left() {
    let mut cx = Cx::new();
    let mut nodes: Vec<LiveNode> = Vec::new();
    nodes.open_array(LiveId(0));
    nodes.push_int(LiveId(0), 7);
    nodes.push_float(LiveId(0), float(2.5));
    nodes.push_str(LiveId(0), "refused");
    nodes.close();

    let mut values: Vec<Option<i64>> = vec![Some(1)];
    values.apply(&mut cx, ApplyFrom::New, 0, &nodes);
    let first = values.clone();
    assert_eq!(first, vec![Some(7), Some(2), Some(0)]);
    values.apply(&mut cx, ApplyFrom::LiveEdit, 0, &nodes);
    assert_eq!(values, first);

    let mut word = String::from("before");
    word.apply(&mut cx, ApplyFrom::New, 3, &nodes);
    assert_eq!(word, "refused");
    word.apply(&mut cx, ApplyFrom::New, 3, &nodes);
    assert_eq!(word, "refused");
    word.apply(&mut cx, ApplyFrom::New, 1, &nodes);
    assert_eq!(word, "refused");
}
