use live_runtime::cx::Cx;
use live_runtime::live_data::{LiveData, LiveField};
use live_runtime::live_error::LiveErrorKind;
use live_runtime::live_float::LiveFloat;
use live_runtime::live_id::LiveId;
use live_runtime::live_node::{LiveNode, LiveNodeOrigin, LiveValue};
use live_runtime::live_node_vec::LiveNodeVec;
use live_runtime::live_traits::{ApplyFrom, LiveApply};

fn id(name: &str) -> LiveId {
    LiveId::from_str(name)
}

fn float(v: f64) -> LiveFloat {
    LiveFloat::from_bits(v.to_bits())
}

fn as_f64(data: &LiveData) -> f64 {
    f64::from_bits(data.as_float().unwrap().to_bits())
}

fn point() -> LiveData {
    LiveData::object(vec![
        LiveField::new(id("x"), LiveData::Float(float(0.0))),
        LiveField::new(id("y"), LiveData::Float(float(0.0))),
    ])
}

fn target() -> LiveData {
    LiveData::object(vec![
        LiveField::new(id("a"), LiveData::Int(0)),
        LiveField::new(id("b"), point()),
    ])
}

fn example_document() -> Vec<LiveNode> {
    // {a: 1, b: {x: 1.0, y: 2.0}, c: [1, 2, 3]}
    let mut nodes: Vec<LiveNode> = Vec::new();
    nodes.open_object(LiveId(0));
    nodes.push_int(id("a"), 1);
    nodes.open_object(id("b"));
    nodes.push_float(id("x"), float(1.0));
    nodes.push_float(id("y"), float(2.0));
    nodes.close();
    nodes.open_array(id("c"));
    nodes.push_int(LiveId(0), 1);
    nodes.push_int(LiveId(0), 2);
    nodes.push_int(LiveId(0), 3);
    nodes.close();
    nodes.close();
    nodes
}

fn int_array(values: &[i64]) -> Vec<LiveNode> {
    let mut nodes: Vec<LiveNode> = Vec::new();
    nodes.open_array(LiveId(0));
    for v in values {
        nodes.push_int(LiveId(0), *v);
    }
    nodes.close();
    nodes
}

fn ints(data: &LiveData) -> Vec<i64> {
    let n = data.item_count().unwrap();
    (0..n).map(|k| data.item(k).unwrap().as_int().unwrap()).collect()
}

#[test]
fn example_document_applies_known_fields_and_reports_unknown() {
    let mut cx = Cx::new();
    let mut object = target();
    let nodes = example_document();
    let next = object.apply(&mut cx, ApplyFrom::New, 0, &nodes);
    assert_eq!(next, nodes.len());
    assert_eq!(object.field(id("a")).unwrap().as_int(), Some(1));
    let b = object.field(id("b")).unwrap();
    assert_eq!(as_f64(b.field(id("x")).unwrap()), 1.0);
    assert_eq!(as_f64(b.field(id("y")).unwrap()), 2.0);
    assert!(object.field(id("c")).is_none());
    assert_eq!(cx.apply_errors.len(), 1);
    assert_eq!(cx.apply_errors[0].kind, LiveErrorKind::NoMatchingField);
    assert_eq!(cx.apply_errors[0].index, 6);
    assert_eq!(cx.apply_errors[0].id, id("c"));
}

#[test]
fn applying_twice_gives_the_same_state() {
    let mut cx = Cx::new();
    let mut object = target();
    let nodes = example_document();
    object.apply(&mut cx, ApplyFrom::New, 0, &nodes);
    let a1 = object.field(id("a")).unwrap().as_int();
    let x1 = as_f64(object.field(id("b")).unwrap().field(id("x")).unwrap());
    let y1 = as_f64(object.field(id("b")).unwrap().field(id("y")).unwrap());
    object.apply(&mut cx, ApplyFrom::New, 0, &nodes);
    assert_eq!(object.field(id("a")).unwrap().as_int(), a1);
    assert_eq!(as_f64(object.field(id("b")).unwrap().field(id("x")).unwrap()), x1);
    assert_eq!(as_f64(object.field(id("b")).unwrap().field(id("y")).unwrap()), y1);
    assert_eq!(cx.apply_errors.len(), 2);
}

#[test]
fn array_grows_and_shrinks_with_the_document() {
    let mut cx = Cx::new();
    let mut array = LiveData::array(LiveData::Int(0));
    let first = int_array(&[1, 2]);
    assert_eq!(array.apply(&mut cx, ApplyFrom::New, 0, &first), first.len());
    assert_eq!(ints(&array), vec![1, 2]);
    let second = int_array(&[1, 2, 3, 4]);
    array.apply(&mut cx, ApplyFrom::LiveEdit, 0, &second);
    assert_eq!(array.item_count(), Some(4));
    assert_eq!(ints(&array), vec![1, 2, 3, 4]);
    let third = int_array(&[1]);
    array.apply(&mut cx, ApplyFrom::LiveEdit, 0, &third);
    assert_eq!(array.item_count(), Some(1));
    assert_eq!(ints(&array), vec![1]);
    assert!(cx.apply_errors.is_empty());
}

#[test]
fn array_keeps_untouched_fields_of_items_that_stay() {
    let mut cx = Cx::new();
    let mut array = LiveData::array(point());
    let mut nodes: Vec<LiveNode> = Vec::new();
    nodes.open_array(LiveId(0));
    nodes.open_object(LiveId(0));
    nodes.push_float(id("x"), float(5.0));
    nodes.push_float(id("y"), float(6.0));
    nodes.close();
    nodes.close();
    array.apply(&mut cx, ApplyFrom::New, 0, &nodes);
    let mut patch: Vec<LiveNode> = Vec::new();
    patch.open_array(LiveId(0));
    patch.open_object(LiveId(0));
    patch.push_float(id("x"), float(7.0));
    patch.close();
    patch.open_object(LiveId(0));
    patch.push_float(id("y"), float(8.0));
    patch.close();
    patch.close();
    array.apply(&mut cx, ApplyFrom::LiveEdit, 0, &patch);
    assert_eq!(array.item_count(), Some(2));
    assert_eq!(as_f64(array.item(0).unwrap().field(id("x")).unwrap()), 7.0);
    assert_eq!(as_f64(array.item(0).unwrap().field(id("y")).unwrap()), 6.0);
    assert_eq!(as_f64(array.item(1).unwrap().field(id("x")).unwrap()), 0.0);
    assert_eq!(as_f64(array.item(1).unwrap().field(id("y")).unwrap()), 8.0);
}

#[test]
fn one_unknown_field_among_valid_ones_is_skipped_and_reported_once() {
    let mut cx = Cx::new();
    let mut object = target();
    let mut nodes: Vec<LiveNode> = Vec::new();
    nodes.open_object(LiveId(0));
    nodes.push_int(id("a"), 41);
    nodes.open_object(id("bogus"));
    nodes.push_int(id("a"), 99);
    nodes.open_array(id("deep"));
    nodes.close();
    nodes.close();
    nodes.open_object(id("b"));
    nodes.push_float(id("y"), float(2.5));
    nodes.close();
    nodes.close();
    let next = object.apply(&mut cx, ApplyFrom::New, 0, &nodes);
    assert_eq!(next, nodes.len());
    assert_eq!(cx.apply_errors.len(), 1);
    assert_eq!(cx.apply_errors[0].kind, LiveErrorKind::NoMatchingField);
    assert_eq!(cx.apply_errors[0].index, 2);
    assert_eq!(object.field(id("a")).unwrap().as_int(), Some(41));
    assert_eq!(as_f64(object.field(id("b")).unwrap().field(id("y")).unwrap()), 2.5);
}

#[test]
fn capitalised_and_prefixed_unknown_fields_are_skipped_silently() {
    let mut cx = Cx::new();
    let mut object = target();
    let mut nodes: Vec<LiveNode> = Vec::new();
    nodes.open_object(LiveId(0));
    nodes.open_object(id("Button"));
    nodes.push_int(id("a"), 3);
    nodes.close();
    nodes.push_node(LiveNode {
        origin: LiveNodeOrigin::empty().with_node_has_prefix(true),
        id: id("instance"),
        value: LiveValue::Int(1),
    });
    nodes.push_int(id("a"), 7);
    nodes.close();
    let next = object.apply(&mut cx, ApplyFrom::New, 0, &nodes);
    assert_eq!(next, nodes.len());
    assert!(cx.apply_errors.is_empty());
    assert_eq!(object.field(id("a")).unwrap().as_int(), Some(7));
    assert!(id("Button").is_capitalised());
    assert!(!id("button").is_capitalised());
}

#[test]
fn scalars_are_coerced_by_shape() {
    let mut cx = Cx::new();
    let name = cx.id_names.intern("hello");
    let mut object = LiveData::object(vec![
        LiveField::new(id("i"), LiveData::Int(0)),
        LiveField::new(id("f"), LiveData::Float(float(0.0))),
        LiveField::new(id("s"), LiveData::Str(String::new())),
        LiveField::new(id("n"), LiveData::Id(LiveId(0))),
        LiveField::new(id("b"), LiveData::Bool(false)),
        LiveField::new(id("c"), LiveData::Color(0)),
    ]);
    let mut nodes: Vec<LiveNode> = Vec::new();
    nodes.open_object(LiveId(0));
    nodes.push_float(id("i"), float(-3.75));
    nodes.push_int(id("f"), 12);
    nodes.push_id(id("s"), name);
    nodes.push_str(id("n"), "world");
    nodes.push_bool(id("b"), true);
    nodes.push_color(id("c"), 0xff00ff80);
    nodes.close();
    assert_eq!(object.apply(&mut cx, ApplyFrom::New, 0, &nodes), nodes.len());
    assert!(cx.apply_errors.is_empty());
    assert_eq!(object.field(id("i")).unwrap().as_int(), Some(-3));
    assert_eq!(as_f64(object.field(id("f")).unwrap()), 12.0);
    assert_eq!(object.field(id("s")).unwrap().as_str().unwrap(), "hello");
    assert_eq!(object.field(id("n")).unwrap().as_id(), Some(id("world")));
    assert_eq!(object.field(id("b")).unwrap().as_bool(), Some(true));
    assert_eq!(object.field(id("c")).unwrap().as_color(), Some(0xff00ff80));
}

#[test]
fn mismatched_kinds_are_refused_with_a_diagnostic() {
    let mut cx = Cx::new();
    let mut object = LiveData::object(vec![
        LiveField::new(id("i"), LiveData::Int(5)),
        LiveField::new(id("s"), LiveData::Str(String::from("keep"))),
        LiveField::new(id("o"), point()),
        LiveField::new(id("l"), LiveData::array(LiveData::Int(0))),
    ]);
    let mut nodes: Vec<LiveNode> = Vec::new();
    nodes.open_object(LiveId(0));
    nodes.push_bool(id("i"), true);
    nodes.push_id(id("s"), id("never_interned"));
    nodes.push_int(id("o"), 1);
    nodes.open_object(id("l"));
    nodes.push_int(id("x"), 1);
    nodes.close();
    nodes.close();
    assert_eq!(object.apply(&mut cx, ApplyFrom::New, 0, &nodes), nodes.len());
    let kinds: Vec<LiveErrorKind> = cx.apply_errors.iter().map(|e| e.kind).collect();
    assert_eq!(
        kinds,
        vec![
            LiveErrorKind::WrongValueType,
            LiveErrorKind::WrongValueType,
            LiveErrorKind::WrongTypeForStruct,
            LiveErrorKind::WrongValueType,
        ]
    );
    let at: Vec<usize> = cx.apply_errors.iter().map(|e| e.index).collect();
    assert_eq!(at, vec![1, 2, 3, 4]);
    assert_eq!(object.field(id("i")).unwrap().as_int(), Some(5));
    assert_eq!(object.field(id("s")).unwrap().as_str().unwrap(), "keep");
    assert_eq!(object.field(id("l")).unwrap().item_count(), Some(0));
}

#[test]
fn repeated_names_apply_in_document_order() {
    let mut cx = Cx::new();
    let mut object = target();
    let mut nodes: Vec<LiveNode> = Vec::new();
    nodes.open_object(LiveId(0));
    nodes.push_int(id("a"), 1);
    nodes.push_int(id("a"), 2);
    nodes.close();
    object.apply(&mut cx, ApplyFrom::New, 0, &nodes);
    assert_eq!(object.field(id("a")).unwrap().as_int(), Some(2));
}

#[test]
fn clone_copies_the_whole_tree() {
    let mut cx = Cx::new();
    let mut object = target();
    let copy = object.clone();
    object.apply(&mut cx, ApplyFrom::New, 0, &example_document());
    assert_eq!(copy.field(id("a")).unwrap().as_int(), Some(0));
    assert_eq!(object.field(id("a")).unwrap().as_int(), Some(1));
}
