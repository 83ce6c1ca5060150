//! What the desktop event loop decides: when an idle application is still
//! painted, what becomes of the windows when the loop paints and when the
//! platform closes one, which pointer is shown, where a pass is drawn to,
//! and what is called for an event.

use vstd::prelude::*;
use crate::event::MouseCursor;

verus! {

/// How many ticks of the keep-alive timer an application is painted for after
/// the last input.
pub const KEEP_ALIVE_COUNT: usize = 5;

/// An event, as far as the loop tells events apart.
#[derive(Clone, Copy, Debug, PartialEq, Eq, Structural)]
pub enum DesktopEvent {
    /// A finger, a key or text came in.
    Input,
    Timer { timer_id: u64 },
    AppGotFocus,
    WindowResizeLoop { was_started: bool },
    /// A window moved or changed its size; `resized` tells whether its inner
    /// size changed.
    WindowGeomChange { resized: bool },
    WindowClosed,
    Paint,
    Nothing,
    Signal,
    Other,
}

/// The keep-alive counter after an event, and whether the event is used up
/// by a repaint: input fills the counter; a tick of timer 0 while the
/// counter runs takes one off it, repaints the windows, and is not handed on.
pub open spec fn keep_alive_after(counter: usize, event: DesktopEvent) -> (usize, bool) {
    match event {
        DesktopEvent::Input => (KEEP_ALIVE_COUNT, false),
        DesktopEvent::Timer { timer_id } => if timer_id == 0 && counter > 0 {
            ((counter - 1) as usize, true)
        } else {
            (counter, false)
        },
        _ => (counter, false),
    }
}

pub fn keep_alive(counter: usize, event: DesktopEvent) -> (r: (usize, bool))
    ensures
        r == keep_alive_after(counter, event),
{
    match event {
        DesktopEvent::Input => (KEEP_ALIVE_COUNT, false),
        DesktopEvent::Timer { timer_id } => {
            if timer_id == 0 && counter > 0 {
                (counter - 1, true)
            } else {
                (counter, false)
            }
        },
        _ => (counter, false),
    }
}

/// What the application wants of a window.
#[derive(Clone, Copy, Debug, PartialEq, Eq, Structural)]
pub enum CxWindowState {
    Create,
    Created,
    Close,
    Closed,
}

/// What the application wants a window to do.
#[derive(Clone, Copy, Debug, PartialEq, Eq, Structural)]
pub enum CxWindowCmd {
    Nothing,
    Restore,
    Maximize,
    Minimize,
}

/// What the loop does to a window of the platform when it paints.
#[derive(Clone, Copy, Debug, PartialEq, Eq, Structural)]
pub enum WindowAction {
    Nothing,
    Create,
    Close,
    Restore,
    Maximize,
    Minimize,
}

/// The state of a window after the loop painted, and what the loop does to
/// bring it there: a window to create is created, a window to close is
/// closed, and the others stay as they are.
pub open spec fn window_state_after_paint(state: CxWindowState) -> (CxWindowState, WindowAction) {
    match state {
        CxWindowState::Create => (CxWindowState::Created, WindowAction::Create),
        CxWindowState::Close => (CxWindowState::Closed, WindowAction::Close),
        CxWindowState::Created => (CxWindowState::Created, WindowAction::Nothing),
        CxWindowState::Closed => (CxWindowState::Closed, WindowAction::Nothing),
    }
}

pub fn paint_window_state(state: CxWindowState) -> (r: (CxWindowState, WindowAction))
    ensures
        r == window_state_after_paint(state),
{
    match state {
        CxWindowState::Create => (CxWindowState::Created, WindowAction::Create),
        CxWindowState::Close => (CxWindowState::Closed, WindowAction::Close),
        CxWindowState::Created => (CxWindowState::Created, WindowAction::Nothing),
        CxWindowState::Closed => (CxWindowState::Closed, WindowAction::Nothing),
    }
}

/// What the loop does for a command when it paints; the command is done
/// with it, and none is left.
pub open spec fn window_command_action(command: CxWindowCmd) -> WindowAction {
    match command {
        CxWindowCmd::Restore => WindowAction::Restore,
        CxWindowCmd::Maximize => WindowAction::Maximize,
        CxWindowCmd::Minimize => WindowAction::Minimize,
        CxWindowCmd::Nothing => WindowAction::Nothing,
    }
}

pub fn paint_window_command(command: &mut CxWindowCmd) -> (r: WindowAction)
    ensures
        r == window_command_action(*old(command)),
        *final(command) == CxWindowCmd::Nothing,
{
    let action = match *command {
        CxWindowCmd::Restore => WindowAction::Restore,
        CxWindowCmd::Maximize => WindowAction::Maximize,
        CxWindowCmd::Minimize => WindowAction::Minimize,
        CxWindowCmd::Nothing => WindowAction::Nothing,
    };
    *command = CxWindowCmd::Nothing;
    action
}

/// A window of the application: what is wanted of it.
#[derive(Clone, Copy, Debug, PartialEq, Eq, Structural)]
pub struct CxWindow {
    pub window_state: CxWindowState,
    pub window_command: CxWindowCmd,
    /// Whether the window is to stay above the others, where that was asked.
    pub window_topmost: Option<bool>,
}

/// What the loop does to the platform window of one window when it paints.
#[derive(Clone, Copy, Debug, PartialEq, Eq, Structural)]
pub struct WindowPaint {
    pub state: WindowAction,
    pub command: WindowAction,
    pub topmost: Option<bool>,
}

/// A window after the loop painted: its state as `window_state_after_paint`
/// gives it, and no command left.
pub open spec fn window_after_paint(window: CxWindow) -> CxWindow {
    CxWindow {
        window_state: window_state_after_paint(window.window_state).0,
        window_command: CxWindowCmd::Nothing,
        window_topmost: window.window_topmost,
    }
}

/// What the loop does to the platform window of a window when it paints.
pub open spec fn window_paint(window: CxWindow) -> WindowPaint {
    WindowPaint {
        state: window_state_after_paint(window.window_state).1,
        command: window_command_action(window.window_command),
        topmost: window.window_topmost,
    }
}

/// The windows from `from` on that are to be created, by their indices.
pub open spec fn windows_to_create(windows: Seq<CxWindow>, from: int) -> Seq<usize>
    decreases windows.len() - from,
{
    if from < 0 || from >= windows.len() {
        Seq::empty()
    } else if windows[from].window_state == CxWindowState::Create {
        seq![from as usize] + windows_to_create(windows, from + 1)
    } else {
        windows_to_create(windows, from + 1)
    }
}

/// Brings every window to where it is wanted when the loop paints. Each
/// window to create gets one platform window, which is put behind those
/// that are there, in the order of the windows; a window to close is
/// closed, and its platform window stays until the platform reports it
/// closed. No command is left. Returns what is done to the platform window
/// of each window.
pub fn paint_windows(windows: &mut Vec<CxWindow>, platform_windows: &mut Vec<usize>) -> (r: Vec<
    WindowPaint,
>)
    ensures
        final(windows)@ == old(windows)@.map_values(|w: CxWindow| window_after_paint(w)),
        r@ == old(windows)@.map_values(|w: CxWindow| window_paint(w)),
        final(platform_windows)@ == old(platform_windows)@ + windows_to_create(old(windows)@, 0),
{
    let count: usize = windows.len();
    let mut paints: Vec<WindowPaint> = Vec::new();
    let mut index: usize = 0;
    proof {
        assert(old(platform_windows)@ + Seq::<usize>::empty() =~= old(platform_windows)@);
    }
    while index < count
        invariant
            index <= count == old(windows)@.len(),
            windows@.len() == count,
            paints@.len() == index,
            forall|i: int| 0 <= i < index ==> windows@[i] == window_after_paint(old(windows)@[i]),
            forall|i: int| index <= i < count ==> windows@[i] == old(windows)@[i],
            forall|i: int| 0 <= i < index ==> paints@[i] == window_paint(old(windows)@[i]),
            platform_windows@ + windows_to_create(old(windows)@, index as int) == old(
                platform_windows,
            )@ + windows_to_create(old(windows)@, 0),
        decreases count - index,
    {
        let window = windows[index];
        let ghost before = platform_windows@;
        let (window_state, state) = paint_window_state(window.window_state);
        let mut window_command = window.window_command;
        let command = paint_window_command(&mut window_command);
        if window.window_state == CxWindowState::Create {
            platform_windows.push(index);
            proof {
                assert((before + seq![index]) + windows_to_create(old(windows)@, index + 1)
                    =~= before + (seq![index] + windows_to_create(old(windows)@, index + 1)));
                assert(platform_windows@ =~= before + seq![index]);
            }
        }
        windows[index] = CxWindow {
            window_state,
            window_command,
            window_topmost: window.window_topmost,
        };
        paints.push(WindowPaint { state, command, topmost: window.window_topmost });
        index += 1;
    }
    proof {
        assert(platform_windows@ + Seq::<usize>::empty() =~= platform_windows@);
        assert(windows@ =~= old(windows)@.map_values(|w: CxWindow| window_after_paint(w)));
        assert(paints@ =~= old(windows)@.map_values(|w: CxWindow| window_paint(w)));
    }
    paints
}

/// The place of the first platform window, from `from` on, that belongs to
/// the window `window_id`.
pub open spec fn platform_window_of(platform_windows: Seq<usize>, from: int, window_id: usize)
    -> Option<int>
    decreases platform_windows.len() - from,
{
    if from < 0 || from >= platform_windows.len() {
        None
    } else if platform_windows[from] == window_id {
        Some(from)
    } else {
        platform_window_of(platform_windows, from + 1, window_id)
    }
}

/// Takes note that the platform closed a window: the window is closed; its
/// platform window, if it has one, leaves the list, and the others keep
/// their order. Returns whether the loop is to end, which it is when the
/// platform window that left was the last.
pub fn close_window(windows: &mut Vec<CxWindow>, platform_windows: &mut Vec<usize>, window_id: usize)
    -> (end: bool)
    requires
        window_id < old(windows)@.len(),
    ensures
        final(windows)@ == old(windows)@.update(
            window_id as int,
            CxWindow { window_state: CxWindowState::Closed, ..old(windows)@[window_id as int] },
        ),
        match platform_window_of(old(platform_windows)@, 0, window_id) {
            Some(place) => final(platform_windows)@ == old(platform_windows)@.remove(place) && end
                == (old(platform_windows)@.len() == 1),
            None => final(platform_windows)@ == old(platform_windows)@ && !end,
        },
{
    let window = windows[window_id];
    windows[window_id] = CxWindow { window_state: CxWindowState::Closed, ..window };
    let mut at: usize = 0;
    while at < platform_windows.len()
        invariant
            at <= platform_windows@.len(),
            window_id < old(windows)@.len(),
            windows@ == old(windows)@.update(
                window_id as int,
                CxWindow { window_state: CxWindowState::Closed, ..old(windows)@[window_id as int] },
            ),
            platform_windows@ == old(platform_windows)@,
            platform_window_of(platform_windows@, at as int, window_id) == platform_window_of(
                platform_windows@,
                0,
                window_id,
            ),
        decreases platform_windows@.len() - at,
    {
        if platform_windows[at] == window_id {
            platform_windows.remove(at);
            return platform_windows.len() == 0;
        }
        at += 1;
    }
    false
}

/// The pointer to show: the one asked for while a button is down, else the
/// one asked for while hovering, else the default.
pub open spec fn cursor_to_show(down: Option<MouseCursor>, hover: Option<MouseCursor>) -> MouseCursor {
    match down {
        Some(cursor) => cursor,
        None => match hover {
            Some(cursor) => cursor,
            None => MouseCursor::Default,
        },
    }
}

pub fn mouse_cursor(down: Option<MouseCursor>, hover: Option<MouseCursor>) -> (r: MouseCursor)
    ensures
        r == cursor_to_show(down, hover),
{
    if let Some(cursor) = down {
        cursor
    } else if let Some(cursor) = hover {
        cursor
    } else {
        MouseCursor::Default
    }
}

/// What a pass belongs to.
#[derive(Clone, Copy, Debug, PartialEq, Eq, Structural)]
pub enum CxPassParent {
    Window(usize),
    Pass(usize),
    Nobody,
}

/// Where a pass is drawn to, and with which scale.
#[derive(Clone, Copy, Debug, PartialEq, Eq, Structural)]
pub enum PassTarget {
    /// To the layer of a window, with the scale of the window.
    WindowLayer { window_id: usize },
    /// To a texture, with the scale that the parent pass has.
    TextureOfPass { parent_pass_id: usize },
    /// To a texture, with scale 1.
    Texture,
}

/// The passes of windows are drawn to the layers of their windows, the
/// others to textures.
pub open spec fn target_of_pass(parent: CxPassParent) -> PassTarget {
    match parent {
        CxPassParent::Window(window_id) => PassTarget::WindowLayer { window_id },
        CxPassParent::Pass(parent_pass_id) => PassTarget::TextureOfPass { parent_pass_id },
        CxPassParent::Nobody => PassTarget::Texture,
    }
}

pub fn pass_target(parent: CxPassParent) -> (r: PassTarget)
    ensures
        r == target_of_pass(parent),
{
    match parent {
        CxPassParent::Window(window_id) => PassTarget::WindowLayer { window_id },
        CxPassParent::Pass(parent_pass_id) => PassTarget::TextureOfPass { parent_pass_id },
        CxPassParent::Nobody => PassTarget::Texture,
    }
}

/// What the loop calls for an event, in order.
#[derive(Clone, Copy, Debug, PartialEq, Eq, Structural)]
pub enum LoopCall {
    /// Paint the main pass of every window again.
    RepaintWindows,
    /// Start or stop the resize of the event's window.
    ResizeWindow { start: bool },
    /// Take the new geometry of the event's window.
    UpdateWindowGeom,
    /// Draw the main pass of the event's window and its child passes again.
    RedrawWindow,
    /// Mark the event's window closed and give up its platform window.
    CloseWindow,
    /// Create and close windows, start and stop timers, and draw the passes.
    Paint,
    HandleMidiSignals,
    CallEventHandler,
    CallLiveEdit,
    CallSignalsAndTriggers,
    /// What the desktop does with an event before anything else sees it.
    ProcessPreEvent,
    /// Start the drag that waits to start, if one does.
    StartDragging,
    /// What the desktop does with an event once it was handled; it may end
    /// the loop.
    ProcessPostEvent,
}

/// What the loop calls for an event that the keep-alive repaint did not use
/// up.
pub open spec fn calls_for(event: DesktopEvent) -> Seq<LoopCall> {
    match event {
        DesktopEvent::AppGotFocus => seq![LoopCall::RepaintWindows, LoopCall::CallEventHandler],
        DesktopEvent::WindowResizeLoop { was_started } => seq![
            LoopCall::ResizeWindow { start: was_started },
        ],
        DesktopEvent::WindowGeomChange { resized } => if resized {
            seq![LoopCall::UpdateWindowGeom, LoopCall::RedrawWindow, LoopCall::CallEventHandler]
        } else {
            seq![LoopCall::UpdateWindowGeom, LoopCall::CallEventHandler]
        },
        DesktopEvent::WindowClosed => seq![LoopCall::CloseWindow, LoopCall::CallEventHandler],
        DesktopEvent::Paint => seq![LoopCall::Paint],
        DesktopEvent::Nothing => Seq::empty(),
        DesktopEvent::Signal => seq![
            LoopCall::HandleMidiSignals,
            LoopCall::CallEventHandler,
            LoopCall::CallSignalsAndTriggers,
        ],
        _ => seq![
            LoopCall::CallEventHandler,
            LoopCall::CallLiveEdit,
            LoopCall::CallSignalsAndTriggers,
        ],
    }
}

pub fn loop_calls(event: DesktopEvent) -> (r: Vec<LoopCall>)
    ensures
        r@ == calls_for(event),
{
    let mut calls: Vec<LoopCall> = Vec::new();
    match event {
        DesktopEvent::AppGotFocus => {
            calls.push(LoopCall::RepaintWindows);
            calls.push(LoopCall::CallEventHandler);
        },
        DesktopEvent::WindowResizeLoop { was_started } => {
            calls.push(LoopCall::ResizeWindow { start: was_started });
        },
        DesktopEvent::WindowGeomChange { resized } => {
            calls.push(LoopCall::UpdateWindowGeom);
            if resized {
                calls.push(LoopCall::RedrawWindow);
            }
            calls.push(LoopCall::CallEventHandler);
        },
        DesktopEvent::WindowClosed => {
            calls.push(LoopCall::CloseWindow);
            calls.push(LoopCall::CallEventHandler);
        },
        DesktopEvent::Paint => {
            calls.push(LoopCall::Paint);
        },
        DesktopEvent::Nothing => {},
        DesktopEvent::Signal => {
            calls.push(LoopCall::HandleMidiSignals);
            calls.push(LoopCall::CallEventHandler);
            calls.push(LoopCall::CallSignalsAndTriggers);
        },
        _ => {
            calls.push(LoopCall::CallEventHandler);
            calls.push(LoopCall::CallLiveEdit);
            calls.push(LoopCall::CallSignalsAndTriggers);
        },
    }
    proof {
        assert(calls@ =~= calls_for(event));
    }
    calls
}

/// One turn of the loop: the keep-alive counter afterwards, what is called,
/// in order, and whether something was painted that has to be shown.
pub struct Turn {
    pub counter: usize,
    pub calls: Vec<LoopCall>,
    pub paint_dirty: bool,
}

/// Everything that the loop calls for an event, in order. A tick that the
/// keep-alive repaint uses up repaints the windows and nothing else. For
/// every other event the desktop sees the event first, then comes what
/// `calls_for` lists for the event, then a waiting drag is started, and the
/// desktop sees the event again.
pub open spec fn turn_calls(counter: usize, event: DesktopEvent) -> Seq<LoopCall> {
    if keep_alive_after(counter, event).1 {
        seq![LoopCall::RepaintWindows]
    } else {
        seq![LoopCall::ProcessPreEvent] + calls_for(event) + seq![
            LoopCall::StartDragging,
            LoopCall::ProcessPostEvent,
        ]
    }
}

/// Whether an event leaves something painted that has to be shown: a tick
/// that the keep-alive repaint uses up does, and so does the application
/// getting the focus.
pub open spec fn turn_paints(counter: usize, event: DesktopEvent) -> bool {
    keep_alive_after(counter, event).1 || event == DesktopEvent::AppGotFocus
}

/// One turn of the loop for one event.
pub fn turn(counter: usize, event: DesktopEvent) -> (r: Turn)
    ensures
        r.counter == keep_alive_after(counter, event).0,
        r.calls@ == turn_calls(counter, event),
        r.paint_dirty == turn_paints(counter, event),
{
    let (counter_after, used_up) = keep_alive(counter, event);
    let mut calls: Vec<LoopCall> = Vec::new();
    if used_up {
        calls.push(LoopCall::RepaintWindows);
        proof {
            assert(calls@ =~= turn_calls(counter, event));
        }
        return Turn { counter: counter_after, calls, paint_dirty: true };
    }
    calls.push(LoopCall::ProcessPreEvent);
    let mut inner = loop_calls(event);
    calls.append(&mut inner);
    calls.push(LoopCall::StartDragging);
    calls.push(LoopCall::ProcessPostEvent);
    proof {
        assert(calls@ =~= turn_calls(counter, event));
    }
    let paint_dirty = match event {
        DesktopEvent::AppGotFocus => true,
        _ => false,
    };
    Turn { counter: counter_after, calls, paint_dirty }
}

/// Whether the loop may wait for the next event: nothing asks to be drawn
/// again, no next frame is asked for, and nothing was painted dirty.
pub fn can_wait(need_redrawing: bool, new_next_frames: usize, paint_dirty: bool) -> (r: bool)
    ensures
        r == !(need_redrawing || new_next_frames != 0 || paint_dirty),
{
    if need_redrawing || new_next_frames != 0 || paint_dirty {
        false
    } else {
        true
    }
}

/// What a signal means for MIDI.
#[derive(Clone, Copy, Debug, PartialEq, Eq, Structural)]
pub enum MidiSignal {
    Nothing,
    /// Hand the input data that came in to the application, and keep none.
    InputData,
    /// Connect every input, and hand the list of inputs to the application.
    InputsChanged,
}

/// What a signal event means for MIDI: without access to MIDI nothing; with
/// it, the signal for input data goes before the signal for changed inputs.
pub open spec fn midi_signal_of(has_access: bool, input_data: bool, inputs_changed: bool)
    -> MidiSignal {
    if !has_access {
        MidiSignal::Nothing
    } else if input_data {
        MidiSignal::InputData
    } else if inputs_changed {
        MidiSignal::InputsChanged
    } else {
        MidiSignal::Nothing
    }
}

pub fn handle_core_midi_signals(has_access: bool, input_data: bool, inputs_changed: bool) -> (r:
    MidiSignal)
    ensures
        r == midi_signal_of(has_access, input_data, inputs_changed),
{
    if has_access {
        if input_data {
            MidiSignal::InputData
        } else if inputs_changed {
            MidiSignal::InputsChanged
        } else {
            MidiSignal::Nothing
        }
    } else {
        MidiSignal::Nothing
    }
}

} // verus!
