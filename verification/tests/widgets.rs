use live_runtime::cx::{Cx, CxAction};
use live_runtime::cx_platform::{CxPlatform, Timer, TimerStart, Vec2};
use live_runtime::desktop_loop::{
    can_wait, handle_core_midi_signals, keep_alive, loop_calls, mouse_cursor, paint_window_command,
    paint_window_state, pass_target, CxPassParent, CxWindowCmd, CxWindowState, DesktopEvent,
    LoopCall, MidiSignal, PassTarget, WindowAction, KEEP_ALIVE_COUNT,
};
use live_runtime::event::{Area, Event, HitEvent, HoverState, KeyCode, MouseCursor};
use live_runtime::file_tree::{FileNodeId, FileTree, FileTreeAction, FileTreeNodeAction};
use live_runtime::fold_header::{
    animate_fold, draw_component, ChildDraw, DrawState, DrawStep, FoldButtonAction,
    FoldHeaderAction, FoldHeaderOpen,
};
use live_runtime::font::get_glyph_index;
use live_runtime::live_error::LiveErrorKind;
use live_runtime::live_float::LiveFloat;
use live_runtime::live_id::{LiveId, LiveModuleId};
use live_runtime::live_node::LiveNode;
use live_runtime::live_node_vec::LiveNodeVec;
use live_runtime::live_registry::LiveRegistry;
use live_runtime::live_traits::{ApplyFrom, LiveApply, LiveHook, LiveNew};
use live_runtime::menu::{Command, CxCommandSetting, Menu};
use live_runtime::platform::{
    draw_shader_for, find_draw_shader, CxPlatformDrawCallVao, CxPlatformDrawShader,
    CxPlatformGeometry, PIXEL_SHADER_HEAD, VERTEX_SHADER_HEAD,
};
use live_runtime::shader_view::{ShaderView, ShaderViewHover};
use live_runtime::texture::{Texture, TextureCx, TextureDesc, TextureFormat};
use live_runtime::ty::{Ident, Ty};

fn id(name: &str) -> LiveId {
    LiveId::from_str(name)
}

fn float(v: f64) -> LiveFloat {
    LiveFloat::from_bits(v.to_bits())
}

#[test]
fn ty_elements_lengths_and_sizes() {
    let vec3s = Ty::Array { elem_ty: Box::new(Ty::Vec3), len: 5 };
    let nested = Ty::Array { elem_ty: Box::new(vec3s.clone()), len: 2 };
    let structs = Ty::Array { elem_ty: Box::new(Ty::Struct { ident: Ident(id("S")) }), len: 2 };
    assert_eq!(Ty::Bvec3.elem_ty(), Some(Ty::Bool));
    assert_eq!(Ty::Ivec2.elem_ty(), Some(Ty::Int));
    assert_eq!(Ty::Vec4.elem_ty(), Some(Ty::Float));
    assert_eq!(Ty::Mat2.elem_ty(), Some(Ty::Vec2));
    assert_eq!(Ty::Mat3.elem_ty(), Some(Ty::Vec3));
    assert_eq!(Ty::Mat4.elem_ty(), Some(Ty::Vec4));
    assert_eq!(nested.elem_ty(), Some(vec3s.clone()));
    assert_eq!(Ty::Float.elem_ty(), None);
    assert_eq!(Ty::Void.elem_ty(), None);
    assert_eq!(Ty::Int.len(), Some(1));
    assert_eq!(Ty::Mat2.len(), Some(2));
    assert_eq!(Ty::Ivec3.len(), Some(3));
    assert_eq!(Ty::Mat4.len(), Some(4));
    assert_eq!(vec3s.len(), Some(5));
    assert_eq!(Ty::Void.len(), None);
    assert_eq!(Ty::Struct { ident: Ident(id("S")) }.len(), None);
    assert_eq!(Ty::Bool.size(), Some(1));
    assert_eq!(Ty::Bvec2.size(), Some(2));
    assert_eq!(Ty::Vec3.size(), Some(3));
    assert_eq!(Ty::Mat2.size(), Some(4));
    assert_eq!(Ty::Mat3.size(), Some(9));
    assert_eq!(Ty::Mat4.size(), Some(16));
    assert_eq!(vec3s.size(), Some(15));
    assert_eq!(nested.size(), Some(30));
    assert_eq!(structs.size(), None);
    assert_eq!(Ty::Void.size(), None);
    assert_eq!(Ty::Array { elem_ty: Box::new(Ty::Mat4), len: 0 }.size(), Some(0));
    assert!(nested.fits());
    assert!(structs.fits());
    let huge = Ty::Array { elem_ty: Box::new(Ty::Mat4), len: usize::MAX / 16 + 1 };
    assert!(!huge.fits());
    assert!(!Ty::Array { elem_ty: Box::new(huge), len: 0 }.fits());
    assert!(Ty::Array { elem_ty: Box::new(Ty::Mat4), len: usize::MAX / 16 }.fits());
}

#[test]
fn menus_are_built_and_compared() {
    let quit = Command::from(id("quit"));
    assert_eq!(quit, Command(id("quit")));
    assert_eq!(Command::default(), Command(LiveId(0)));
    let build = |name: &str| {
        Menu::main(vec![Menu::sub(name, vec![Menu::item("Quit", quit), Menu::line()])])
    };
    let menu = build("File");
    match &menu {
        Menu::Main { items } => match &items[0] {
            Menu::Sub { name, items } => {
                assert_eq!(name, "File");
                assert!(matches!(&items[0], Menu::Item { name, command } if name == "Quit" && *command == quit));
                assert!(matches!(items[1], Menu::Line));
            }
            _ => panic!("a submenu was expected"),
        },
        _ => panic!("a main menu was expected"),
    }
    assert!(menu == build("File"));
    assert!(menu == menu.clone());
    assert!(menu != build("Edit"));
    assert!(Menu::line() != Menu::item("Quit", quit));
    assert!(Menu::item("Quit", quit) != Menu::item("Quit", Command(id("exit"))));
    let setting = CxCommandSetting::default();
    assert!(!setting.shift && !setting.enabled);
    assert_eq!(setting.key_code, KeyCode::Unknown);
    assert_eq!(KeyCode::default(), KeyCode::Unknown);
}

#[test]
fn platform_keeps_requests_until_the_loop_runs() {
    let mut platform = CxPlatform::new();
    let first = platform.start_timer(float(0.2), true);
    let second = platform.start_timer(float(1.5), false);
    assert_eq!((first, second), (Timer(1), Timer(2)));
    assert_eq!(
        platform.start_timer,
        vec![
            TimerStart { timer_id: 1, interval: float(0.2), repeats: true },
            TimerStart { timer_id: 2, interval: float(1.5), repeats: false },
        ]
    );
    platform.stop_timer(Timer(0));
    platform.stop_timer(first);
    assert_eq!(platform.stop_timer, vec![1]);

    let menu = Menu::main(vec![Menu::line()]);
    platform.update_menu(&menu);
    assert!(platform.set_menu);
    platform.set_menu = false;
    platform.update_menu(&menu.clone());
    assert!(!platform.set_menu);
    platform.update_menu(&Menu::main(vec![]));
    assert!(platform.set_menu);
    assert!(platform.last_menu == Some(Menu::main(vec![])));

    platform.show_text_ime(float(3.0), float(4.0));
    platform.set_window_position(Vec2 { x: float(1.0), y: float(2.0) });
    platform.set_window_outer_size(Vec2 { x: float(800.0), y: float(600.0) });
    platform.start_dragging(id("file"));
    assert_eq!(platform.set_ime_position, Some(Vec2 { x: float(3.0), y: float(4.0) }));
    assert_eq!(platform.set_window_position, Some(Vec2 { x: float(1.0), y: float(2.0) }));
    assert_eq!(platform.set_window_outer_size, Some(Vec2 { x: float(800.0), y: float(600.0) }));
    assert_eq!(platform.start_dragging, Some(id("file")));
}

#[test]
fn draw_shaders_get_their_heads() {
    let shader = CxPlatformDrawShader::new(String::from("void main(){}"), String::from("pixel"));
    assert_eq!(shader.vertex, format!("{}void main(){{}}", VERTEX_SHADER_HEAD));
    assert_eq!(shader.pixel, format!("{}pixel", PIXEL_SHADER_HEAD));
    assert!(VERTEX_SHADER_HEAD.starts_with("\n            precision highp float;\n"));
    assert!(VERTEX_SHADER_HEAD.ends_with("mat2 transpose(mat2 m){return mat2(m[0][0],m[1][0],m[0][1],m[1][1]);}\n            "));
    assert!(PIXEL_SHADER_HEAD.starts_with("\n            #extension GL_OES_standard_derivatives : enable\n"));
    assert!(!VERTEX_SHADER_HEAD.contains("{{"));
}

#[test]
fn draw_shaders_are_kept_once_per_source() {
    let mut shaders: Vec<CxPlatformDrawShader> = Vec::new();
    assert_eq!(draw_shader_for(&mut shaders, String::from("v"), String::from("p")), (0, true));
    assert_eq!(draw_shader_for(&mut shaders, String::from("w"), String::from("p")), (1, true));
    assert_eq!(shaders.len(), 2);
    // kept pairs carry their heads: only a source that comes with the head is found again
    let headed_v = shaders[1].vertex.clone();
    let headed_p = shaders[1].pixel.clone();
    assert_eq!(find_draw_shader(&shaders, &headed_v, &headed_p), Some(1));
    assert_eq!(find_draw_shader(&shaders, &headed_v, &String::from("p")), None);
    assert_eq!(draw_shader_for(&mut shaders, headed_v, headed_p), (1, false));
    assert_eq!(shaders.len(), 2);
}

#[test]
fn vertex_array_objects_follow_their_buffers() {
    let geometry = CxPlatformGeometry { vb_id: Some(4), ib_id: Some(5) };
    let mut vao = CxPlatformDrawCallVao::new(9);
    assert!(!vao.is_for(2, Some(3), &geometry));
    vao.bind(2, Some(3), &geometry);
    assert_eq!(vao.vao_id, 9);
    assert!(vao.is_for(2, Some(3), &geometry));
    assert!(!vao.is_for(1, Some(3), &geometry));
    assert!(!vao.is_for(2, None, &geometry));
    assert!(!vao.is_for(2, Some(3), &CxPlatformGeometry { vb_id: Some(4), ib_id: None }));
}

#[test]
fn glyphs_are_found_in_the_basic_plane() {
    let mut map = vec![0usize; 0x10000];
    map['a' as usize] = 17;
    map[0xffff] = 3;
    assert_eq!(get_glyph_index(&map, 'a'), Some(17));
    assert_eq!(get_glyph_index(&map, 'b'), Some(0));
    assert_eq!(get_glyph_index(&map, '\u{ffff}'), Some(3));
    assert_eq!(get_glyph_index(&map, '\u{10000}'), None);
    assert_eq!(get_glyph_index(&map, '😀'), None);
}

#[test]
fn textures_reuse_released_places() {
    let mut cx = Cx::new();
    let mut first = Texture::new(&mut cx);
    let second = Texture::new(&mut cx);
    assert_eq!((first.texture_id, second.texture_id), (0, 1));
    assert_eq!(first.get_desc(&mut cx), TextureDesc::default());
    let desc = TextureDesc {
        format: TextureFormat::RenderBGRA,
        width: Some(64),
        height: Some(32),
        multisample: None,
    };
    first.set_desc(&mut cx, desc);
    assert_eq!(first.get_desc(&mut cx), desc);
    assert_eq!(second.get_desc(&mut cx).format, TextureFormat::Default);
    first.release(&mut cx);
    assert_eq!(cx.textures_free, vec![0]);
    let third = Texture::new(&mut cx);
    assert_eq!(third.texture_id, 0);
    assert_eq!(cx.textures.len(), 2);
    assert!(cx.textures_free.is_empty());
    assert_eq!(Texture::live_type_info(&mut cx).name, id("Texture"));
}

#[test]
fn textures_take_no_fields() {
    let mut cx = Cx::new();
    let mut texture = Texture::new(&mut cx);
    let mut nodes: Vec<LiveNode> = Vec::new();
    nodes.open_object(LiveId(0));
    nodes.push_int(id("width"), 1);
    nodes.open_object(id("Size"));
    nodes.push_int(id("x"), 1);
    nodes.close();
    nodes.close();
    nodes.push_int(id("scalar"), 1);
    assert_eq!(texture.apply(&mut cx, ApplyFrom::New, 0, &nodes), 6);
    let at: Vec<usize> = cx.apply_errors.iter().map(|e| e.index).collect();
    assert_eq!(at, vec![1]);
    assert!(cx.apply_errors.iter().all(|e| e.kind == LiveErrorKind::NoMatchingField));
    assert_eq!(texture.apply(&mut cx, ApplyFrom::New, 6, &nodes), 7);
    assert_eq!(cx.apply_errors[1].kind, LiveErrorKind::WrongTypeForStruct);
    assert_eq!(texture.texture_id, 0);
}

#[test]
fn shader_view_follows_the_pointer() {
    let mut cx = Cx::new();
    let mut view = ShaderView {
        area: Area(3),
        size: (float(200.0), float(200.0)),
        pad: (float(10.0), float(10.0)),
        hover: ShaderViewHover::Off,
    };
    view.handle_event(&mut cx, HitEvent::FingerHover { hover_state: HoverState::In });
    assert_eq!(view.hover, ShaderViewHover::On);
    view.handle_event(&mut cx, HitEvent::FingerHover { hover_state: HoverState::Over });
    assert_eq!(view.hover, ShaderViewHover::On);
    view.handle_event(&mut cx, HitEvent::FingerDown);
    assert_eq!(view.hover, ShaderViewHover::Pressed);
    view.handle_event(&mut cx, HitEvent::FingerMove { dragged: true });
    assert_eq!(view.hover, ShaderViewHover::Pressed);
    view.handle_event(&mut cx, HitEvent::FingerUp { is_over: true, has_hovers: true });
    assert_eq!(view.hover, ShaderViewHover::On);
    view.handle_event(&mut cx, HitEvent::FingerUp { is_over: true, has_hovers: false });
    assert_eq!(view.hover, ShaderViewHover::Off);
    view.handle_event(&mut cx, HitEvent::FingerDown);
    view.handle_event(&mut cx, HitEvent::FingerUp { is_over: false, has_hovers: true });
    assert_eq!(view.hover, ShaderViewHover::Off);
    view.handle_event(&mut cx, HitEvent::FingerHover { hover_state: HoverState::Out });
    assert_eq!(view.hover, ShaderViewHover::Off);
    let arrow = CxAction::SetHoverMouseCursor { cursor: MouseCursor::Arrow };
    assert_eq!(cx.actions, vec![arrow, arrow, arrow]);
    view.redraw(&mut cx);
    assert_eq!(cx.actions[3], CxAction::RedrawArea { area: Area(3) });
}

#[test]
fn fold_header_follows_its_button() {
    assert_eq!(animate_fold(FoldHeaderOpen::Off, FoldButtonAction::Opening), FoldHeaderOpen::On);
    assert_eq!(animate_fold(FoldHeaderOpen::On, FoldButtonAction::Closing), FoldHeaderOpen::Off);
    assert_eq!(animate_fold(FoldHeaderOpen::On, FoldButtonAction::Nothing), FoldHeaderOpen::On);
    assert_ne!(FoldHeaderAction::Opening, FoldHeaderAction::Closing);
    assert_ne!(FoldHeaderAction::Nothing, FoldHeaderAction::Closing);
}

fn tree_document(indent: f64) -> Vec<LiveNode> {
    // {FileTree: {folder_node: {indent_width: .., opened: 1.0}, file_node: {indent_width: ..}}}
    let mut nodes: Vec<LiveNode> = Vec::new();
    nodes.open_object(LiveId(0));
    nodes.open_object(id("FileTree"));
    nodes.open_object(id("folder_node"));
    nodes.push_float(id("indent_width"), float(indent));
    nodes.push_float(id("opened"), float(1.0));
    nodes.close();
    nodes.open_object(id("file_node"));
    nodes.push_float(id("indent_width"), float(indent + 1.0));
    nodes.close();
    nodes.close();
    nodes.close();
    nodes
}

fn indent_of(tree: &FileTree, at: usize) -> f64 {
    let bits = tree.tree_nodes[at].node.live.field(id("indent_width")).unwrap().as_float().unwrap();
    f64::from_bits(bits.to_bits())
}

#[test]
fn file_tree_makes_nodes_from_pointers_and_reapplies_them() {
    let mut cx = Cx::new();
    let mut registry = LiveRegistry::new();
    let module = LiveModuleId::from_str("studio::file_tree");
    let file = registry.register_nodes(module, tree_document(10.0)).unwrap();
    let mut tree = FileTree::new(Area(1));
    tree.folder_node = Some(registry.file_id_index_to_live_ptr(file, 2));
    tree.file_node = Some(registry.file_id_index_to_live_ptr(file, 6));
    let src = FileNodeId(id("src"));
    let main = FileNodeId(id("main.rs"));
    tree.set_folder_is_open(src, true);
    assert_eq!(tree.node(&mut cx, &registry, src, true), 0);
    assert_eq!(tree.node(&mut cx, &registry, main, false), 1);
    assert_eq!(tree.node(&mut cx, &registry, src, true), 0);
    assert_eq!(tree.tree_nodes.len(), 2);
    assert!(tree.tree_nodes[0].node.is_folder && tree.tree_nodes[0].node.is_open);
    assert!(!tree.tree_nodes[1].node.is_folder && !tree.tree_nodes[1].node.is_open);
    assert_eq!(tree.tree_nodes[0].live_id, id("folder_node"));
    assert_eq!(tree.tree_nodes[1].live_id, id("file_node"));
    assert_eq!(indent_of(&tree, 0), 10.0);
    assert_eq!(indent_of(&tree, 1), 11.0);
    assert!(cx.apply_errors.is_empty());

    // the tree was applied from a changed document: its nodes follow
    let changed = tree_document(20.0);
    tree.after_apply(&mut cx, ApplyFrom::LiveEdit, 1, &changed);
    assert_eq!(indent_of(&tree, 0), 20.0);
    assert_eq!(indent_of(&tree, 1), 21.0);
    assert!(tree.tree_nodes[0].node.is_open);
    assert_eq!(cx.actions, vec![CxAction::RedrawArea { area: Area(1) }]);

    // stale pointers give nodes that are not patched
    registry.register_nodes(module, tree_document(30.0)).unwrap();
    let lib = FileNodeId(id("lib.rs"));
    let at = tree.node(&mut cx, &registry, lib, false);
    assert_eq!(indent_of(&tree, at), 0.0);
    tree.forget_node(main);
    assert_eq!(tree.find_node(lib), Some(1));
    assert_eq!(tree.find_node(main), None);
    tree.forget();
    assert!(tree.tree_nodes.is_empty());
    assert!(tree.is_open(src));
}

#[test]
fn file_tree_turns_node_actions_into_its_own() {
    let mut cx = Cx::new();
    let registry = LiveRegistry::new();
    let mut tree = FileTree::new(Area(1));
    let src = FileNodeId(id("src"));
    let main = FileNodeId(id("main.rs"));
    let folder = tree.node(&mut cx, &registry, src, true);
    let file = tree.node(&mut cx, &registry, main, false);

    let told = tree.tree_nodes[folder].node.handle_event(&mut cx, HitEvent::FingerDown);
    assert_eq!(told, vec![FileTreeNodeAction::Opening, FileTreeNodeAction::WasClicked]);
    let mut passed = Vec::new();
    for action in told {
        passed.extend(tree.handle_node_action(&mut cx, src, action));
    }
    assert_eq!(passed, vec![FileTreeAction::WasClicked(src)]);
    assert!(tree.is_open(src));
    assert_eq!(tree.selected_node_id, Some(src));
    assert!(tree.tree_nodes[folder].node.is_selected);

    let told = tree.tree_nodes[folder].node.handle_event(&mut cx, HitEvent::FingerDown);
    assert_eq!(told, vec![FileTreeNodeAction::Closing, FileTreeNodeAction::WasClicked]);
    assert_eq!(tree.handle_node_action(&mut cx, src, FileTreeNodeAction::Closing), None);
    assert!(!tree.is_open(src));

    let told = tree.tree_nodes[file].node.handle_event(&mut cx, HitEvent::FingerDown);
    assert_eq!(told, vec![FileTreeNodeAction::WasClicked]);
    assert_eq!(
        tree.handle_node_action(&mut cx, main, FileTreeNodeAction::WasClicked),
        Some(FileTreeAction::WasClicked(main))
    );
    assert_eq!(tree.selected_node_id, Some(main));
    assert!(!tree.tree_nodes[folder].node.is_selected);
    assert!(tree.tree_nodes[file].node.is_selected);

    tree.handle_own_event(&Event::Paint, HitEvent::KeyFocus);
    assert!(tree.tree_nodes[file].node.is_focussed && !tree.tree_nodes[folder].node.is_focussed);
    tree.handle_own_event(&Event::Paint, HitEvent::KeyFocusLost);
    assert!(!tree.tree_nodes[file].node.is_focussed);

    let told = tree.tree_nodes[file].node.handle_event(&mut cx, HitEvent::FingerMove { dragged: false });
    assert!(told.is_empty());
    let told = tree.tree_nodes[file].node.handle_event(&mut cx, HitEvent::FingerMove { dragged: true });
    assert_eq!(told, vec![FileTreeNodeAction::ShouldStartDragging]);
    assert_eq!(
        tree.handle_node_action(&mut cx, main, FileTreeNodeAction::ShouldStartDragging),
        Some(FileTreeAction::ShouldStartDragging(main))
    );
    tree.start_dragging_file_node(&mut cx, main, id("main.rs"));
    assert_eq!(tree.dragging_node_id, Some(main));
    assert_eq!(tree.handle_node_action(&mut cx, main, FileTreeNodeAction::ShouldStartDragging), None);
    tree.handle_own_event(&Event::DragEnd, HitEvent::Nothing);
    assert_eq!(tree.dragging_node_id, None);
    assert_eq!(tree.handle_node_action(&mut cx, main, FileTreeNodeAction::Nothing), None);

    tree.tree_nodes[file].node.handle_event(&mut cx, HitEvent::FingerHover { hover_state: HoverState::In });
    assert!(tree.tree_nodes[file].node.is_hovered);
    tree.tree_nodes[file].node.handle_event(&mut cx, HitEvent::FingerHover { hover_state: HoverState::Out });
    assert!(!tree.tree_nodes[file].node.is_hovered);
    tree.redraw(&mut cx);
    let hand = CxAction::SetHoverMouseCursor { cursor: MouseCursor::Hand };
    let focus = CxAction::SetKeyFocus { area: Area(1) };
    assert_eq!(
        cx.actions,
        vec![
            focus,
            focus,
            CxAction::StartDragging { item: id("main.rs") },
            hand,
            hand,
            CxAction::RedrawArea { area: Area(1) },
        ]
    );
    tree.set_folder_is_open(src, true);
    tree.set_folder_is_open(src, true);
    assert_eq!(tree.open_nodes, vec![src]);
    assert!(tree.tree_nodes[folder].node.is_open);
    tree.set_folder_is_open(src, false);
    assert!(tree.open_nodes.is_empty());
    assert!(!tree.tree_nodes[folder].node.is_open);
}

#[test]
fn desktop_loop_keeps_painting_after_input() {
    assert_eq!(keep_alive(0, DesktopEvent::Input), (KEEP_ALIVE_COUNT, false));
    assert_eq!(keep_alive(3, DesktopEvent::Input), (5, false));
    assert_eq!(keep_alive(5, DesktopEvent::Timer { timer_id: 0 }), (4, true));
    assert_eq!(keep_alive(1, DesktopEvent::Timer { timer_id: 0 }), (0, true));
    assert_eq!(keep_alive(0, DesktopEvent::Timer { timer_id: 0 }), (0, false));
    assert_eq!(keep_alive(4, DesktopEvent::Timer { timer_id: 7 }), (4, false));
    assert_eq!(keep_alive(4, DesktopEvent::Paint), (4, false));
}

#[test]
fn desktop_loop_paints_windows_and_passes() {
    assert_eq!(paint_window_state(CxWindowState::Create), (CxWindowState::Created, WindowAction::Create));
    assert_eq!(paint_window_state(CxWindowState::Close), (CxWindowState::Closed, WindowAction::Close));
    assert_eq!(paint_window_state(CxWindowState::Created), (CxWindowState::Created, WindowAction::Nothing));
    assert_eq!(paint_window_state(CxWindowState::Closed), (CxWindowState::Closed, WindowAction::Nothing));
    for (command, action) in [
        (CxWindowCmd::Restore, WindowAction::Restore),
        (CxWindowCmd::Maximize, WindowAction::Maximize),
        (CxWindowCmd::Minimize, WindowAction::Minimize),
        (CxWindowCmd::Nothing, WindowAction::Nothing),
    ] {
        let mut command = command;
        assert_eq!(paint_window_command(&mut command), action);
        assert_eq!(command, CxWindowCmd::Nothing);
    }
    assert_eq!(mouse_cursor(Some(MouseCursor::Move), Some(MouseCursor::Hand)), MouseCursor::Move);
    assert_eq!(mouse_cursor(None, Some(MouseCursor::Hand)), MouseCursor::Hand);
    assert_eq!(mouse_cursor(None, None), MouseCursor::Default);
    assert_eq!(pass_target(CxPassParent::Window(2)), PassTarget::WindowLayer { window_id: 2 });
    assert_eq!(pass_target(CxPassParent::Pass(3)), PassTarget::TextureOfPass { parent_pass_id: 3 });
    assert_eq!(pass_target(CxPassParent::Nobody), PassTarget::Texture);
    assert!(can_wait(false, 0, false));
    assert!(!can_wait(true, 0, false));
    assert!(!can_wait(false, 1, false));
    assert!(!can_wait(false, 0, true));
}

#[test]
fn desktop_loop_calls_handlers_in_order() {
    let handler = LoopCall::CallEventHandler;
    assert_eq!(loop_calls(DesktopEvent::AppGotFocus), vec![LoopCall::RepaintWindows, handler]);
    assert_eq!(
        loop_calls(DesktopEvent::WindowResizeLoop { was_started: true }),
        vec![LoopCall::ResizeWindow { start: true }]
    );
    assert_eq!(
        loop_calls(DesktopEvent::WindowGeomChange { resized: true }),
        vec![LoopCall::UpdateWindowGeom, LoopCall::RedrawWindow, handler]
    );
    assert_eq!(
        loop_calls(DesktopEvent::WindowGeomChange { resized: false }),
        vec![LoopCall::UpdateWindowGeom, handler]
    );
    assert_eq!(loop_calls(DesktopEvent::WindowClosed), vec![LoopCall::CloseWindow, handler]);
    assert_eq!(loop_calls(DesktopEvent::Paint), vec![LoopCall::Paint]);
    assert_eq!(loop_calls(DesktopEvent::Nothing), vec![]);
    assert_eq!(
        loop_calls(DesktopEvent::Signal),
        vec![LoopCall::HandleMidiSignals, handler, LoopCall::CallSignalsAndTriggers]
    );
    for event in [DesktopEvent::Input, DesktopEvent::Timer { timer_id: 3 }, DesktopEvent::Other] {
        assert_eq!(
            loop_calls(event),
            vec![handler, LoopCall::CallLiveEdit, LoopCall::CallSignalsAndTriggers]
        );
    }
    assert_eq!(handle_core_midi_signals(false, true, true), MidiSignal::Nothing);
    assert_eq!(handle_core_midi_signals(true, true, true), MidiSignal::InputData);
    assert_eq!(handle_core_midi_signals(true, false, true), MidiSignal::InputsChanged);
    assert_eq!(handle_core_midi_signals(true, false, false), MidiSignal::Nothing);
}

#[test]
fn fold_header_draws_header_then_body() {
    let mut state = None;
    let (steps, waits) = draw_component(&mut state, ChildDraw::Done, true, ChildDraw::Done);
    assert_eq!(
        steps,
        vec![
            DrawStep::BeginTurtle,
            DrawStep::DrawHeader,
            DrawStep::BeginBodyView,
            DrawStep::DrawBody,
            DrawStep::EndBodyView,
            DrawStep::ReverseWalk,
            DrawStep::EndTurtle,
        ]
    );
    assert_eq!((state, waits), (None, None));

    // a body that does not show ends the drawing after the header
    let (steps, waits) = draw_component(&mut state, ChildDraw::Done, false, ChildDraw::Done);
    assert_eq!(
        steps,
        vec![
            DrawStep::BeginTurtle,
            DrawStep::DrawHeader,
            DrawStep::BeginBodyView,
            DrawStep::ReverseWalk,
            DrawStep::EndTurtle,
        ]
    );
    assert_eq!((state, waits), (None, None));
}

#[test]
fn fold_header_resumes_where_a_child_waited() {
    let button = LiveId::from_str("fold_button");
    let list = LiveId::from_str("list");
    let mut state = None;
    let (steps, waits) = draw_component(&mut state, ChildDraw::Waits(button), true, ChildDraw::Done);
    assert_eq!(steps, vec![DrawStep::BeginTurtle, DrawStep::DrawHeader]);
    assert_eq!((state, waits), (Some(DrawState::DrawHeader), Some(button)));

    let (steps, waits) = draw_component(&mut state, ChildDraw::Done, true, ChildDraw::Waits(list));
    assert_eq!(steps, vec![DrawStep::DrawHeader, DrawStep::BeginBodyView, DrawStep::DrawBody]);
    assert_eq!((state, waits), (Some(DrawState::DrawBody), Some(list)));

    let (steps, waits) = draw_component(&mut state, ChildDraw::Waits(button), false, ChildDraw::Waits(list));
    assert_eq!(steps, vec![DrawStep::DrawBody]);
    assert_eq!((state, waits), (Some(DrawState::DrawBody), Some(list)));

    let (steps, waits) = draw_component(&mut state, ChildDraw::Done, true, ChildDraw::Done);
    assert_eq!(
        steps,
        vec![DrawStep::DrawBody, DrawStep::EndBodyView, DrawStep::ReverseWalk, DrawStep::EndTurtle]
    );
    assert_eq!((state, waits), (None, None));
}
