use live_runtime::cx::Cx;
use live_runtime::live_data::{LiveData, LiveField};
use live_runtime::live_error::LiveErrorKind;
use live_runtime::live_float::LiveFloat;
use live_runtime::live_id::{LiveFileId, LiveId, LiveModuleId, LiveType};
use live_runtime::live_node::{LiveNode, LiveNodeOrigin, LiveValue};
use live_runtime::live_node_slice::check_document;
use live_runtime::live_parser::parse_document;
use live_runtime::live_registry::{LiveRegistry, LiveRegistryError};
use live_runtime::live_traits::{ApplyFrom, LiveApply};

fn id(name: &str) -> LiveId {
    LiveId::from_str(name)
}

fn float(v: f64) -> LiveFloat {
    LiveFloat::from_bits(v.to_bits())
}

fn parse(source: &str) -> Option<Vec<LiveNode>> {
    parse_document(LiveFileId(3), source)
}

/// The names and values of a stream, written out for comparison.
fn shape(nodes: &[LiveNode]) -> Vec<String> {
    nodes
        .iter()
        .map(|node| {
            let value = match &node.value {
                LiveValue::Null => String::from("null"),
                LiveValue::Str(s) => format!("{:?}", s),
                LiveValue::Bool(v) => format!("{}", v),
                LiveValue::Int(v) => format!("{}", v),
                LiveValue::Float(v) => format!("{:?}", f64::from_bits(v.to_bits())),
                LiveValue::Color(v) => format!("#{:08x}", v),
                LiveValue::Id(v) => format!("id:{:x}", v.0),
                LiveValue::Dsl { start, end } => format!("fn:{}..{}", start, end),
                LiveValue::Array => String::from("["),
                LiveValue::Object => String::from("{"),
                LiveValue::Clone(v) => format!("clone:{:x}{{", v.0),
                LiveValue::Class { live_type } => format!("class:{:x}{{", live_type.0),
                LiveValue::Close => String::from("close"),
            };
            format!("{:x}={}", node.id.0, value)
        })
        .collect()
}

fn named(name: &str, value: &str) -> String {
    format!("{:x}={}", id(name).0, value)
}

#[test]
fn the_example_document_is_read_and_applied() {
    let nodes = parse("{a: 1, b: {x: 1.0, y: 2.0}, c: [1,2,3]}").unwrap();
    assert_eq!(
        shape(&nodes),
        vec![
            named("", "{"),
            named("a", "1"),
            named("b", "{"),
            named("x", "1.0"),
            named("y", "2.0"),
            named("", "close"),
            named("c", "["),
            named("", "1"),
            named("", "2"),
            named("", "3"),
            named("", "close"),
            named("", "close"),
        ]
    );
    assert!(check_document(&nodes));
    let mut cx = Cx::new();
    let mut object = LiveData::object(vec![
        LiveField::new(id("a"), LiveData::Int(0)),
        LiveField::new(
            id("b"),
            LiveData::object(vec![
                LiveField::new(id("x"), LiveData::Float(float(0.0))),
                LiveField::new(id("y"), LiveData::Float(float(0.0))),
            ]),
        ),
    ]);
    assert_eq!(object.apply(&mut cx, ApplyFrom::New, 0, &nodes), nodes.len());
    assert_eq!(object.field(id("a")).unwrap().as_int(), Some(1));
    let b = object.field(id("b")).unwrap();
    assert_eq!(b.field(id("x")).unwrap().as_float(), Some(float(1.0)));
    assert_eq!(b.field(id("y")).unwrap().as_float(), Some(float(2.0)));
    assert_eq!(cx.apply_errors.len(), 1);
    assert_eq!(cx.apply_errors[0].kind, LiveErrorKind::NoMatchingField);
    assert_eq!(cx.apply_errors[0].id, id("c"));
    assert_eq!(cx.apply_errors[0].origin, LiveNodeOrigin { file_id: LiveFileId(3), line: 1, column: 29, has_prefix: false });
}

#[test]
fn every_kind_of_value_is_read() {
    let source = r##"
        // a button
        {
            Button: {{Button}} {
                label: "press me"     // strings run to the next quote
                width: 120, height: -7
                scale: 0.96 dim: 10.
                on: true off: false
                back: #ff8000 fore: #01020380
                flow: Down
                text_style: FONT_DATA { top_drop: 1.3 }
                instance hover: 0.0
                items: [1, [2.5 "x"], {a: b}, []]
            }
        }
    "##;
    let nodes = parse(source).unwrap();
    assert!(check_document(&nodes));
    let class = format!("class:{:x}{{", id("Button").0);
    let clone = format!("clone:{:x}{{", id("FONT_DATA").0);
    let down = format!("id:{:x}", id("Down").0);
    let b = format!("id:{:x}", id("b").0);
    assert_eq!(
        shape(&nodes),
        vec![
            named("", "{"),
            named("Button", &class),
            named("label", "\"press me\""),
            named("width", "120"),
            named("height", "-7"),
            named("scale", "0.96"),
            named("dim", "10.0"),
            named("on", "true"),
            named("off", "false"),
            named("back", "#ff8000ff"),
            named("fore", "#01020380"),
            named("flow", &down),
            named("text_style", &clone),
            named("top_drop", "1.3"),
            named("", "close"),
            named("hover", "0.0"),
            named("items", "["),
            named("", "1"),
            named("", "["),
            named("", "2.5"),
            named("", "\"x\""),
            named("", "close"),
            named("", "{"),
            named("a", &b),
            named("", "close"),
            named("", "["),
            named("", "close"),
            named("", "close"),
            named("", "close"),
            named("", "close"),
        ]
    );
    assert!(matches!(nodes[1].value, LiveValue::Class { live_type } if live_type == LiveType(id("Button").0)));
    let prefixed: Vec<bool> = nodes.iter().map(|node| node.origin.has_prefix).collect();
    assert_eq!(prefixed.iter().filter(|p| **p).count(), 1);
    assert!(nodes[15].origin.has_prefix);
    // origins point at names, items and closing brackets
    assert_eq!((nodes[0].origin.line, nodes[0].origin.column), (3, 9));
    assert_eq!((nodes[1].origin.line, nodes[1].origin.column), (4, 13));
    assert_eq!((nodes[2].origin.line, nodes[2].origin.column), (5, 17));
    assert_eq!((nodes[4].origin.line, nodes[4].origin.column), (6, 29));
    assert_eq!((nodes[15].origin.line, nodes[15].origin.column), (12, 26));
    assert_eq!((nodes[17].origin.line, nodes[17].origin.column), (13, 25));
    assert_eq!((nodes[29].origin.line, nodes[29].origin.column), (15, 9));
    assert!(nodes.iter().all(|node| node.origin.file_id == LiveFileId(3)));
}

#[test]
fn numbers_are_read_exactly() {
    let value = |text: &str| parse(&format!("{{v: {}}}", text)).map(|nodes| shape(&nodes)[1].clone());
    let int = |v: i64| Some(named("v", &format!("{}", v)));
    assert_eq!(value("0"), int(0));
    assert_eq!(value("-0"), int(0));
    assert_eq!(value("007"), int(7));
    assert_eq!(value("9223372036854775807"), int(i64::MAX));
    assert_eq!(value("-9223372036854775808"), int(i64::MIN));
    assert_eq!(value("9223372036854775808"), None);
    assert_eq!(value("-9223372036854775809"), None);
    assert_eq!(value("18446744073709551616"), None);
    assert_eq!(value("-"), None);
    assert_eq!(value("-.5"), None);
    assert_eq!(value(".5"), None);
    for text in [
        "0.0",
        "-0.0",
        "1.",
        "0.1",
        "0.96",
        "3.14159265358979",
        "0.30000000000000004",
        "123456789.123456789",
        "-2.5",
        "1844674407370955161.5",
        "0.0000000000000000001",
        "9007199254740993.0",
        "0.5",
        "4.35",
        "1000000.000001",
    ] {
        let nodes = parse(&format!("{{v: {}}}", text)).unwrap();
        let expected: f64 = text.parse().unwrap();
        assert!(
            matches!(nodes[1].value, LiveValue::Float(f) if f.to_bits() == expected.to_bits()),
            "{}",
            text
        );
    }
    // more digits than a number holds
    assert_eq!(value("18446744073709551616.0"), None);
    assert_eq!(value("1844674407370955161.6"), None);
    assert_eq!(value("0.00000000000000000001"), None);
}

#[test]
fn texts_that_spell_no_document_are_refused() {
    for source in [
        "",
        "   ",
        "a: 1",
        "[1]",
        "{",
        "{a: 1",
        "{a: 1}}",
        "{a: 1} b",
        "{a 1}",
        "{a: }",
        "{: 1}",
        "{1: 1}",
        "{a: 1; b: 2}",
        "{a: [1, 2}",
        "{a: {b: 1]}",
        "{a: \"open}",
        "{a: #ff}",
        "{a: #ff80000}",
        "{a: #ff8000000}",
        "{a: #gg0000}",
        "{a: {{B} {}}",
        "{a: {{}} {}}",
        "{a: {{B}}}",
        "{a b c: 1}",
        "{a: b: 1}",
        "{a: é}",
        "{é: 1}",
        "{a: \"é}",
        "{a: 1} / comment",
        "{a: @}",
    ] {
        assert!(parse(source).is_none(), "{:?}", source);
    }
    for source in [
        "{}",
        " { } ",
        ",{,},",
        "// only a comment\n{}// and one without a line break",
        "{a:1}",
        "{a:1,}",
        "{a : 1 b : 2}",
        "{a: b\n{}}",
        "{a: {{ B }} {}}",
        "{a: truely}",
        "{true: false}",
        "{a: \"\"}",
        "{a: \"// no comment\"}",
        "{a: 1//x\n}",
        "{a: -1.}",
    ] {
        let nodes = parse(source);
        assert!(nodes.is_some(), "{:?}", source);
        assert!(check_document(&nodes.unwrap()), "{:?}", source);
    }
    assert_eq!(shape(&parse("{a: b\n{}}").unwrap())[1], named("a", &format!("clone:{:x}{{", id("b").0)));
    assert_eq!(shape(&parse("{a: truely}").unwrap())[1], named("a", &format!("id:{:x}", id("truely").0)));
    assert_eq!(shape(&parse("{a: \"// no comment\"}").unwrap())[1], named("a", "\"// no comment\""));
}

#[test]
fn sources_are_registered_as_documents() {
    let mut registry = LiveRegistry::new();
    let app = LiveModuleId::from_str("app::main");
    let lib = LiveModuleId::from_str("app::lib");
    assert_eq!(registry.register_document(app, "{a: 1}"), Ok(LiveFileId(0)));
    assert_eq!(registry.register_document(lib, "{b: 2}"), Ok(LiveFileId(1)));
    assert_eq!(registry.live_files[1].nodes[1].origin.file_id, LiveFileId(1));
    let ptr = registry.module_id_and_name_to_ptr(app, id("a")).unwrap();
    assert_eq!(registry.register_document(app, "{a: 1"), Err(LiveRegistryError::Unreadable));
    assert!(registry.generation_valid(ptr));
    assert_eq!(registry.register_document(app, "{a: 2}"), Ok(LiveFileId(0)));
    assert!(!registry.generation_valid(ptr));
    assert_eq!(registry.live_files[0].generation, 1);
    assert!(matches!(registry.live_files[0].nodes[1].value, LiveValue::Int(2)));
    assert_eq!(registry.live_files[0].nodes[1].origin.file_id, LiveFileId(0));
    registry.live_files[0].generation = u64::MAX;
    assert_eq!(registry.register_document(app, "{a: 3}"), Err(LiveRegistryError::TooManyGenerations));
    assert_eq!(registry.register_document(app, "{"), Err(LiveRegistryError::Unreadable));
}

#[test]
fn function_bodies_are_kept_as_text() {
    let source = "{quad: {instance hover: 0.0\n fn pixel(self) -> vec4 { if x { a } else { b } return #f }\n size: 2}}";
    let nodes = parse(source).unwrap();
    assert!(check_document(&nodes));
    assert_eq!(nodes.len(), 7);
    match nodes[3].value {
        LiveValue::Dsl { start, end } => {
            assert_eq!(
                &source[start as usize..end as usize],
                "fn pixel(self) -> vec4 { if x { a } else { b } return #f }"
            );
        }
        _ => panic!("a function was expected"),
    }
    assert_eq!(nodes[3].id, id("pixel"));
    assert!(nodes[3].origin.has_prefix);
    assert_eq!((nodes[3].origin.line, nodes[3].origin.column), (2, 5));
    assert!(matches!(nodes[4].value, LiveValue::Int(2)));
    // a function is no field: an object that has none of its name skips it silently
    let mut cx = Cx::new();
    let mut object =
        LiveData::object(vec![LiveField::new(id("quad"), LiveData::object(vec![LiveField::new(id("size"), LiveData::Int(0))]))]);
    assert_eq!(object.apply(&mut cx, ApplyFrom::New, 0, &nodes), nodes.len());
    assert!(cx.apply_errors.is_empty());
    assert_eq!(object.field(id("quad")).unwrap().field(id("size")).unwrap().as_int(), Some(2));
    for source in ["{fn f() {}", "{fn f() { { }}", "{fn f()}", "{f() {}}", "{fn f {}}", "{fn (a) {}}"] {
        assert!(parse(source).is_none(), "{:?}", source);
    }
    assert!(parse("{fn f(){}}").is_some());
    assert!(parse("{ fn a(x){x} fn b(y){{y}} }").is_some());
}

#[test]
fn strings_and_comments_hold_any_characters() {
    let nodes = parse("// größer\n{a: \"é\", b: \"日本語 😀\" // ∃\n c: \"\"}").unwrap();
    assert_eq!(nodes.len(), 5);
    let strings: Vec<String> = nodes[1..4]
        .iter()
        .map(|node| match &node.value {
            LiveValue::Str(s) => s.clone(),
            _ => panic!("a string was written"),
        })
        .collect();
    assert_eq!(strings, vec!["é".to_string(), "日本語 😀".to_string(), String::new()]);
    assert_eq!(nodes[2].id, LiveId::from_str("b"));
    // places are counted in bytes
    assert_eq!((nodes[1].origin.line, nodes[1].origin.column), (2, 2));
    assert_eq!((nodes[2].origin.line, nodes[2].origin.column), (2, 11));
    assert_eq!((nodes[3].origin.line, nodes[3].origin.column), (3, 2));
}
