//! Input events, as far as the library reads them.

use vstd::prelude::*;
use crate::live_id::LiveFileId;
use crate::live_node::LiveNode;
use crate::live_node_slice::is_document;
use crate::live_registry::LivePtr;

verus! {

/// A token of a document's source.
#[derive(Clone, Copy, Debug, PartialEq, Eq, Hash, Structural)]
pub struct LiveTokenId {
    pub file_id: LiveFileId,
    pub token_index: u32,
}

/// What an edit of a source did to the documents.
pub enum LiveEditEvent {
    /// The edit changed the structure of a document: the document was
    /// registered anew, and the main module is to be applied from its root.
    ReparseDocument,
    /// The edit changed values only: `apply` is a document that holds the
    /// changed values under the names of the objects that they belong to.
    Mutation { tokens: Vec<LiveTokenId>, apply: Vec<LiveNode>, live_ptrs: Vec<LivePtr> },
}

impl LiveEditEvent {
    /// The stream of a mutation is a document.
    pub open spec fn wf(&self) -> bool {
        match self {
            LiveEditEvent::ReparseDocument => true,
            LiveEditEvent::Mutation { apply, .. } => is_document(apply@),
        }
    }
}

/// What an object is told of.
pub enum Event {
    Construct,
    Destruct,
    Paint,
    DragEnd,
    LiveEdit(LiveEditEvent),
}

impl Event {
    pub open spec fn wf(&self) -> bool {
        match self {
            Event::LiveEdit(live_edit_event) => live_edit_event.wf(),
            _ => true,
        }
    }
}

/// A key of the keyboard.
#[derive(Clone, Copy, Debug, PartialEq, Eq, Hash, Structural)]
pub enum KeyCode {
    Escape,
    Backtick,
    Key0,
    Key1,
    Key2,
    Key3,
    Key4,
    Key5,
    Key6,
    Key7,
    Key8,
    Key9,
    Minus,
    Equals,
    Backspace,
    Tab,
    KeyQ,
    KeyW,
    KeyE,
    KeyR,
    KeyT,
    KeyY,
    KeyU,
    KeyI,
    KeyO,
    KeyP,
    LBracket,
    RBracket,
    Return,
    KeyA,
    KeyS,
    KeyD,
    KeyF,
    KeyG,
    KeyH,
    KeyJ,
    KeyK,
    KeyL,
    Semicolon,
    Quote,
    Backslash,
    KeyZ,
    KeyX,
    KeyC,
    KeyV,
    KeyB,
    KeyN,
    KeyM,
    Comma,
    Period,
    Slash,
    Control,
    Alt,
    Shift,
    Logo,
    Space,
    Capslock,
    F1,
    F2,
    F3,
    F4,
    F5,
    F6,
    F7,
    F8,
    F9,
    F10,
    F11,
    F12,
    PrintScreen,
    Scrolllock,
    Pause,
    Insert,
    Delete,
    Home,
    End,
    PageUp,
    PageDown,
    Numpad0,
    Numpad1,
    Numpad2,
    Numpad3,
    Numpad4,
    Numpad5,
    Numpad6,
    Numpad7,
    Numpad8,
    Numpad9,
    NumpadEquals,
    NumpadSubtract,
    NumpadAdd,
    NumpadDecimal,
    NumpadMultiply,
    NumpadDivide,
    Numlock,
    NumpadEnter,
    ArrowUp,
    ArrowDown,
    ArrowLeft,
    ArrowRight,
    Unknown,
}

impl Default for KeyCode {
    fn default() -> (r: KeyCode)
        ensures
            r == KeyCode::Unknown,
    {
        KeyCode::Unknown
    }
}

/// Whether a pointer came over an area, stayed over it, or left it.
#[derive(Clone, Copy, Debug, PartialEq, Eq, Structural)]
pub enum HoverState {
    In,
    Over,
    Out,
}

/// What an event means for one area, as far as the objects here read it.
#[derive(Clone, Copy, Debug, PartialEq, Eq, Structural)]
pub enum HitEvent {
    /// A pointer hovers: it came over the area, is over it, or left it.
    FingerHover { hover_state: HoverState },
    /// A finger or button went down on the area.
    FingerDown,
    /// A finger that went down on the area moved; `dragged` tells whether it
    /// is as far from where it went down as a drag has to be.
    FingerMove { dragged: bool },
    /// A finger that went down on the area came up; `is_over` tells whether
    /// it came up over the area, `has_hovers` whether its device hovers.
    FingerUp { is_over: bool, has_hovers: bool },
    /// The area got the key focus.
    KeyFocus,
    /// The area lost the key focus.
    KeyFocusLost,
    /// The event does not concern the area.
    Nothing,
}

/// The shape of the mouse pointer.
#[derive(Clone, Copy, Debug, PartialEq, Eq, Structural)]
pub enum MouseCursor {
    Hidden,
    Default,
    Crosshair,
    Hand,
    Arrow,
    Move,
    Text,
    Wait,
    Help,
    NotAllowed,
}

/// A part of a window that an object draws into.
#[derive(Clone, Copy, Debug, PartialEq, Eq, Hash, Structural)]
pub struct Area(pub usize);

} // verus!
