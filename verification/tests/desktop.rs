use live_runtime::cx::{Cx, CxAction, LiveIdNames};
use live_runtime::cx_platform::{CxPlatform, TimerStart, Vec2};
use live_runtime::desktop_loop::{
    close_window, paint_windows, turn, CxWindow, CxWindowCmd, CxWindowState, DesktopEvent,
    LoopCall, WindowAction, WindowPaint,
};
use live_runtime::event::{Area, Event, HitEvent, HoverState, MouseCursor};
use live_runtime::file_tree::{FileNodeId, FileTree, FileTreeAction};
use live_runtime::font::get_glyph_index;
use live_runtime::live_float::LiveFloat;
use live_runtime::live_id::LiveId;
use live_runtime::live_registry::LiveRegistry;
use live_runtime::live_traits::LiveNew;
use live_runtime::menu::{Command, Menu};
use live_runtime::texture::{Texture, TextureCx, TextureDesc};
use live_runtime::ty::{Ident, Ty};

fn id(name: &str) -> LiveId {
    LiveId::from_str(name)
}

fn float(v: f64) -> LiveFloat {
    LiveFloat::from_bits(v.to_bits())
}

fn window(window_state: CxWindowState, window_command: CxWindowCmd) -> CxWindow {
    CxWindow { window_state, window_command, window_topmost: None }
}

#[test]
fn paint_hands_out_what_was_asked_and_leaves_nothing() {
    let mut platform = CxPlatform::new();
    let first = platform.start_timer(float(0.5), true);
    let second = platform.start_timer(float(1.5), false);
    platform.stop_timer(first);
    platform.stop_timer(second);
    platform.show_text_ime(float(3.0), float(4.0));
    let menu = Menu::main(vec![Menu::item("Quit", Command(id("quit")))]);
    platform.update_menu(&menu);
    platform.start_dragging(id("item"));

    let requests = platform.take_paint_requests();
    assert_eq!(requests.set_ime_position, Some(Vec2 { x: float(3.0), y: float(4.0) }));
    assert_eq!(
        requests.start_timer,
        vec![
            TimerStart { timer_id: 2, interval: float(1.5), repeats: false },
            TimerStart { timer_id: 1, interval: float(0.5), repeats: true },
        ]
    );
    assert_eq!(requests.stop_timer, vec![2, 1]);
    assert!(requests.menu == Some(menu));
    assert!(platform.set_ime_position.is_none());
    assert!(platform.start_timer.is_empty());
    assert!(platform.stop_timer.is_empty());
    assert!(!platform.set_menu);
    assert!(platform.last_menu.is_some());
    assert_eq!(platform.timer_id, 2);
    assert_eq!(platform.start_dragging, Some(id("item")));

    // nothing is left for the next paint
    let again = platform.take_paint_requests();
    assert!(again.set_ime_position.is_none());
    assert!(again.start_timer.is_empty());
    assert!(again.stop_timer.is_empty());
    assert!(again.menu.is_none());

    assert_eq!(platform.take_dragging(), Some(id("item")));
    assert_eq!(platform.take_dragging(), None);
}

#[test]
fn paint_creates_and_closes_windows() {
    let mut windows = vec![
        window(CxWindowState::Created, CxWindowCmd::Maximize),
        window(CxWindowState::Create, CxWindowCmd::Nothing),
        window(CxWindowState::Close, CxWindowCmd::Restore),
        window(CxWindowState::Closed, CxWindowCmd::Minimize),
        CxWindow {
            window_state: CxWindowState::Create,
            window_command: CxWindowCmd::Nothing,
            window_topmost: Some(true),
        },
    ];
    let mut platform_windows = vec![0, 2];
    let paints = paint_windows(&mut windows, &mut platform_windows);
    let states: Vec<CxWindowState> = windows.iter().map(|w| w.window_state).collect();
    assert_eq!(
        states,
        vec![
            CxWindowState::Created,
            CxWindowState::Created,
            CxWindowState::Closed,
            CxWindowState::Closed,
            CxWindowState::Created,
        ]
    );
    assert!(windows.iter().all(|w| w.window_command == CxWindowCmd::Nothing));
    assert_eq!(windows[4].window_topmost, Some(true));
    assert_eq!(platform_windows, vec![0, 2, 1, 4]);
    assert_eq!(
        paints,
        vec![
            WindowPaint { state: WindowAction::Nothing, command: WindowAction::Maximize, topmost: None },
            WindowPaint { state: WindowAction::Create, command: WindowAction::Nothing, topmost: None },
            WindowPaint { state: WindowAction::Close, command: WindowAction::Restore, topmost: None },
            WindowPaint { state: WindowAction::Nothing, command: WindowAction::Minimize, topmost: None },
            WindowPaint { state: WindowAction::Create, command: WindowAction::Nothing, topmost: Some(true) },
        ]
    );
    // a second paint creates nothing anew
    paint_windows(&mut windows, &mut platform_windows);
    assert_eq!(platform_windows, vec![0, 2, 1, 4]);
}

#[test]
fn a_closed_window_leaves_and_the_last_one_ends_the_loop() {
    let mut windows = vec![
        window(CxWindowState::Created, CxWindowCmd::Nothing),
        window(CxWindowState::Created, CxWindowCmd::Restore),
        window(CxWindowState::Created, CxWindowCmd::Nothing),
    ];
    let mut platform_windows = vec![2, 0, 1];
    assert!(!close_window(&mut windows, &mut platform_windows, 0));
    assert_eq!(platform_windows, vec![2, 1]);
    assert_eq!(windows[0].window_state, CxWindowState::Closed);
    assert_eq!(windows[1], window(CxWindowState::Created, CxWindowCmd::Restore));
    // a window without a platform window changes no list and ends nothing
    assert!(!close_window(&mut windows, &mut platform_windows, 0));
    assert_eq!(platform_windows, vec![2, 1]);
    assert!(!close_window(&mut windows, &mut platform_windows, 2));
    assert_eq!(platform_windows, vec![1]);
    assert!(close_window(&mut windows, &mut platform_windows, 1));
    assert!(platform_windows.is_empty());
    assert!(windows.iter().all(|w| w.window_state == CxWindowState::Closed));
    assert_eq!(windows[1].window_command, CxWindowCmd::Restore);
    assert!(!close_window(&mut windows, &mut platform_windows, 1));
}

#[test]
fn a_turn_wraps_every_event_that_is_not_used_up() {
    let around = |inner: Vec<LoopCall>| {
        let mut calls = vec![LoopCall::ProcessPreEvent];
        calls.extend(inner);
        calls.push(LoopCall::StartDragging);
        calls.push(LoopCall::ProcessPostEvent);
        calls
    };
    let other = turn(0, DesktopEvent::Other);
    assert_eq!(
        other.calls,
        around(vec![
            LoopCall::CallEventHandler,
            LoopCall::CallLiveEdit,
            LoopCall::CallSignalsAndTriggers,
        ])
    );
    assert_eq!((other.counter, other.paint_dirty), (0, false));

    let signal = turn(2, DesktopEvent::Signal);
    assert_eq!(
        signal.calls,
        around(vec![
            LoopCall::HandleMidiSignals,
            LoopCall::CallEventHandler,
            LoopCall::CallSignalsAndTriggers,
        ])
    );
    assert_eq!(turn(0, DesktopEvent::Nothing).calls, around(vec![]));
    assert_eq!(
        turn(0, DesktopEvent::WindowResizeLoop { was_started: false }).calls,
        around(vec![LoopCall::ResizeWindow { start: false }])
    );

    let input = turn(0, DesktopEvent::Input);
    assert_eq!(input.counter, 5);
    assert!(!input.paint_dirty);

    // a tick of timer 0 while the counter runs is used up by a repaint
    let tick = turn(5, DesktopEvent::Timer { timer_id: 0 });
    assert_eq!(tick.calls, vec![LoopCall::RepaintWindows]);
    assert_eq!((tick.counter, tick.paint_dirty), (4, true));
    let idle = turn(0, DesktopEvent::Timer { timer_id: 0 });
    assert_eq!(idle.calls, other.calls);
    assert!(!idle.paint_dirty);

    let focus = turn(0, DesktopEvent::AppGotFocus);
    assert_eq!(focus.calls, around(vec![LoopCall::RepaintWindows, LoopCall::CallEventHandler]));
    assert!(focus.paint_dirty);
}

fn tree_with_nodes() -> (FileTree, Cx, FileNodeId, FileNodeId, FileNodeId) {
    let mut cx = Cx::new();
    let registry = LiveRegistry::new();
    let mut tree = FileTree::new(Area(9));
    let src = FileNodeId(id("src"));
    let main = FileNodeId(id("main.rs"));
    let lib = FileNodeId(id("lib.rs"));
    tree.node(&mut cx, &registry, src, true);
    tree.node(&mut cx, &registry, main, false);
    tree.node(&mut cx, &registry, lib, false);
    (tree, cx, src, main, lib)
}

#[test]
fn the_tree_takes_one_hit_for_each_node() {
    let (mut tree, mut cx, src, main, lib) = tree_with_nodes();
    let nothing = HitEvent::Nothing;

    // a click on the folder opens it and selects it
    let told = tree.handle_event(
        &mut cx,
        &Event::Paint,
        &vec![HitEvent::FingerDown, nothing, HitEvent::FingerHover { hover_state: HoverState::In }],
        nothing,
    );
    assert_eq!(told, vec![FileTreeAction::WasClicked(src)]);
    assert_eq!(tree.selected_node_id, Some(src));
    assert_eq!(tree.open_nodes, vec![src]);
    assert!(tree.tree_nodes[0].node.is_open && tree.tree_nodes[0].node.is_selected);
    assert!(tree.tree_nodes[2].node.is_hovered);
    assert_eq!(
        cx.actions,
        vec![
            CxAction::SetHoverMouseCursor { cursor: MouseCursor::Hand },
            CxAction::SetKeyFocus { area: Area(9) },
        ]
    );

    // two clicks in one event: the last one keeps the selection
    let told = tree.handle_event(
        &mut cx,
        &Event::Paint,
        &vec![nothing, HitEvent::FingerDown, HitEvent::FingerDown],
        HitEvent::KeyFocus,
    );
    assert_eq!(told, vec![FileTreeAction::WasClicked(main), FileTreeAction::WasClicked(lib)]);
    assert_eq!(tree.selected_node_id, Some(lib));
    assert!(!tree.tree_nodes[0].node.is_selected);
    assert!(!tree.tree_nodes[1].node.is_selected);
    assert!(tree.tree_nodes[2].node.is_selected);
    assert!(tree.tree_nodes[2].node.is_focussed);
    assert!(!tree.tree_nodes[1].node.is_focussed);

    // a wish to drag is passed on until a drag is under way
    let drag = vec![nothing, HitEvent::FingerMove { dragged: true }, nothing];
    assert_eq!(
        tree.handle_event(&mut cx, &Event::Paint, &drag, nothing),
        vec![FileTreeAction::ShouldStartDragging(main)]
    );
    tree.start_dragging_file_node(&mut cx, main, id("item"));
    assert_eq!(tree.handle_event(&mut cx, &Event::Paint, &drag, nothing), vec![]);
    // the end of a drag is taken before the nodes tell anything
    assert_eq!(
        tree.handle_event(&mut cx, &Event::DragEnd, &drag, HitEvent::KeyFocusLost),
        vec![FileTreeAction::ShouldStartDragging(main)]
    );
    assert_eq!(tree.dragging_node_id, None);
    assert!(!tree.tree_nodes[2].node.is_focussed);

    // a second click on the folder closes it
    tree.handle_event(
        &mut cx,
        &Event::Paint,
        &vec![HitEvent::FingerDown, nothing, nothing],
        nothing,
    );
    assert!(tree.open_nodes.is_empty());
    assert!(!tree.tree_nodes[0].node.is_open);
}

#[test]
fn the_end_of_a_pass_keeps_visited_nodes_and_the_selected_one() {
    let (mut tree, mut cx, src, main, lib) = tree_with_nodes();
    let registry = LiveRegistry::new();
    assert!(tree.tree_nodes.iter().all(|entry| entry.visited));
    tree.end();
    assert_eq!(tree.tree_nodes.len(), 3);
    assert!(tree.tree_nodes.iter().all(|entry| !entry.visited));

    // the next pass draws the folder only; the file that is selected stays
    tree.selected_node_id = Some(lib);
    assert_eq!(tree.node(&mut cx, &registry, src, true), 0);
    assert!(tree.tree_nodes[0].visited);
    tree.end();
    let kept: Vec<FileNodeId> = tree.tree_nodes.iter().map(|entry| entry.node_id).collect();
    assert_eq!(kept, vec![src, lib]);
    assert_eq!(tree.find_node(main), None);
    assert!(tree.tree_nodes.iter().all(|entry| !entry.visited));

    // a pass that draws nothing keeps the selected node alone
    tree.end();
    let kept: Vec<FileNodeId> = tree.tree_nodes.iter().map(|entry| entry.node_id).collect();
    assert_eq!(kept, vec![lib]);
    tree.selected_node_id = None;
    tree.end();
    assert!(tree.tree_nodes.is_empty());
}

#[test]
fn shader_types_are_written_as_the_language_writes_them() {
    let mut names = LiveIdNames::new();
    let light = names.intern("Light");
    assert_eq!(Ty::Void.text(&names), "void");
    assert_eq!(Ty::Bvec3.text(&names), "bvec3");
    assert_eq!(Ty::Mat4.text(&names), "mat4");
    let array = Ty::Array { elem_ty: Box::new(Ty::Vec4), len: 12 };
    assert_eq!(array.text(&names), "vec4[12]");
    let nested = Ty::Array { elem_ty: Box::new(array), len: 0 };
    assert_eq!(nested.text(&names), "vec4[12][0]");
    let big = Ty::Array { elem_ty: Box::new(Ty::Int), len: 1_000_007 };
    assert_eq!(big.text(&names), "int[1000007]");
    assert_eq!(Ty::Struct { ident: Ident(light) }.text(&names), "Light");
    assert_eq!(
        Ty::Array { elem_ty: Box::new(Ty::Struct { ident: Ident(light) }), len: 3 }.text(&names),
        "Light[3]"
    );
    assert_eq!(
        Ty::Struct { ident: Ident(LiveId(0x00ab_cdef_0123_4567)) }.text(&names),
        "00abcdef01234567"
    );
    assert_eq!(Ty::Struct { ident: Ident(LiveId(u64::MAX)) }.text(&names), "ffffffffffffffff");
}

#[test]
fn a_reused_texture_is_one_that_the_context_holds() {
    let mut cx = Cx::new();
    let first = Texture::new(&mut cx);
    let second = Texture::new(&mut cx);
    assert_eq!((first.texture_id, second.texture_id), (0, 1));
    first.release(&mut cx);
    assert!(cx.textures_free.iter().all(|place| *place < cx.textures.len()));
    let mut third = Texture::new(&mut cx);
    assert!(third.texture_id < cx.textures.len());
    let desc = TextureDesc { width: Some(8), ..TextureDesc::default() };
    third.set_desc(&mut cx, desc);
    assert_eq!(third.get_desc(&mut cx), desc);
    assert!(cx.textures_free.is_empty());
}

#[test]
fn a_short_glyph_map_serves_the_characters_it_holds() {
    let map: Vec<usize> = (0..128).map(|code| code + 1).collect();
    assert_eq!(get_glyph_index(&map, 'a'), Some(98));
    assert_eq!(get_glyph_index(&map, '\u{7f}'), Some(128));
    assert_eq!(get_glyph_index(&map, '\u{10000}'), None);
    assert_eq!(get_glyph_index(&Vec::new(), '😀'), None);
}
