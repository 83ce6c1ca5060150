//! A view that shows a shader and reacts to the pointer.

use vstd::prelude::*;
use crate::cx::{Cx, CxAction};
use crate::event::{Area, HitEvent, HoverState, MouseCursor};
use crate::live_float::LiveFloat;

verus! {

/// The states of the hover animation of a shader view.
#[derive(Clone, Copy, Debug, PartialEq, Eq, Structural)]
pub enum ShaderViewHover {
    Off,
    On,
    Pressed,
}

pub struct ShaderView {
    /// Where the view draws.
    pub area: Area,
    /// Width and height.
    pub size: (LiveFloat, LiveFloat),
    /// The space left free at the left and at the top.
    pub pad: (LiveFloat, LiveFloat),
    /// The state that the hover animation moves to.
    pub hover: ShaderViewHover,
}

/// The hover state that a hit moves a shader view to: a pointer that comes
/// in switches it on, one that leaves switches it off, a finger that goes
/// down presses it, and a finger that comes up leaves it on only where it is
/// still over the view and its device hovers. Other hits keep the state.
pub open spec fn hover_after(hover: ShaderViewHover, hit: HitEvent) -> ShaderViewHover {
    match hit {
        HitEvent::FingerHover { hover_state: HoverState::In } => ShaderViewHover::On,
        HitEvent::FingerHover { hover_state: HoverState::Out } => ShaderViewHover::Off,
        HitEvent::FingerDown => ShaderViewHover::Pressed,
        HitEvent::FingerUp { is_over, has_hovers } => if is_over && has_hovers {
            ShaderViewHover::On
        } else {
            ShaderViewHover::Off
        },
        _ => hover,
    }
}

/// What the platform is asked for when a hit reaches a shader view: the
/// arrow pointer for a hovering pointer, else nothing.
pub open spec fn hit_actions(hit: HitEvent) -> Seq<CxAction> {
    match hit {
        HitEvent::FingerHover { .. } => seq![
            CxAction::SetHoverMouseCursor { cursor: MouseCursor::Arrow },
        ],
        _ => Seq::empty(),
    }
}

impl ShaderView {
    pub fn handle_event(&mut self, cx: &mut Cx, hit: HitEvent)
        ensures
            final(self).hover == hover_after(old(self).hover, hit),
            final(self).area == old(self).area,
            final(self).size == old(self).size,
            final(self).pad == old(self).pad,
            final(cx).actions_added(old(cx), hit_actions(hit)),
    {
        match hit {
            HitEvent::FingerHover { hover_state } => {
                cx.set_hover_mouse_cursor(MouseCursor::Arrow);
                match hover_state {
                    HoverState::In => {
                        self.hover = ShaderViewHover::On;
                    },
                    HoverState::Out => {
                        self.hover = ShaderViewHover::Off;
                    },
                    _ => (),
                }
            },
            HitEvent::FingerDown => {
                self.hover = ShaderViewHover::Pressed;
            },
            HitEvent::FingerUp { is_over, has_hovers } => {
                if is_over && has_hovers {
                    self.hover = ShaderViewHover::On;
                } else {
                    self.hover = ShaderViewHover::Off;
                }
            },
            _ => (),
        }
    }

    pub fn redraw(&mut self, cx: &mut Cx)
        ensures
            *final(self) == *old(self),
            final(cx).actions_added(old(cx), seq![CxAction::RedrawArea { area: old(self).area }]),
    {
        cx.redraw_area(self.area);
    }
}

} // verus!
