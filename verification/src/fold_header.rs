//! A header that folds the body below it open and shut.

use vstd::prelude::*;
use crate::live_id::LiveId;

verus! {

/// What a fold header tells its owner.
#[derive(Clone, Copy, Debug, PartialEq, Eq, Structural)]
pub enum FoldHeaderAction {
    Opening,
    Closing,
    Nothing,
}

/// What the fold button of a header tells the header.
#[derive(Clone, Copy, Debug, PartialEq, Eq, Structural)]
pub enum FoldButtonAction {
    Opening,
    Closing,
    Nothing,
}

/// The state that the open animation of a fold header moves to.
#[derive(Clone, Copy, Debug, PartialEq, Eq, Structural)]
pub enum FoldHeaderOpen {
    Off,
    On,
}

/// The state that the open animation moves to once the fold button spoke:
/// on when the button opens, off when it closes, else as before.
pub open spec fn open_after(open: FoldHeaderOpen, action: FoldButtonAction) -> FoldHeaderOpen {
    match action {
        FoldButtonAction::Opening => FoldHeaderOpen::On,
        FoldButtonAction::Closing => FoldHeaderOpen::Off,
        FoldButtonAction::Nothing => open,
    }
}

/// Where the open animation of a header goes once its fold button spoke.
pub fn animate_fold(open: FoldHeaderOpen, action: FoldButtonAction) -> (r: FoldHeaderOpen)
    ensures
        r == open_after(open, action),
{
    match action {
        FoldButtonAction::Opening => FoldHeaderOpen::On,
        FoldButtonAction::Closing => FoldHeaderOpen::Off,
        FoldButtonAction::Nothing => open,
    }
}

/// How far the drawing of a fold header has come.
#[derive(Clone, Copy, Debug, PartialEq, Eq, Structural)]
pub enum DrawState {
    DrawHeader,
    DrawBody,
}

/// One step of the drawing of a fold header.
#[derive(Clone, Copy, Debug, PartialEq, Eq, Structural)]
pub enum DrawStep {
    BeginTurtle,
    DrawHeader,
    BeginBodyView,
    DrawBody,
    EndBodyView,
    /// Take back the height of the part of the body that is folded away.
    ReverseWalk,
    EndTurtle,
}

/// How a child answers when it is asked to draw: it is done, or it waits
/// for the child with the given name to be drawn first.
#[derive(Clone, Copy, Debug, PartialEq, Eq, Structural)]
pub enum ChildDraw {
    Done,
    Waits(LiveId),
}

/// What one call to draw a fold header comes to.
pub struct Drawn {
    /// How far the drawing has come; `None` once it is done.
    pub state: Option<DrawState>,
    /// What was drawn in this call, in order.
    pub steps: Seq<DrawStep>,
    /// The child that the drawing waits for, if it is not done.
    pub waits: Option<LiveId>,
}

/// The drawing of the body, from the point where the header is drawn and
/// the view of the body is open.
pub open spec fn draw_body(steps: Seq<DrawStep>, body: ChildDraw) -> Drawn {
    match body {
        ChildDraw::Waits(id) => Drawn {
            state: Some(DrawState::DrawBody),
            steps: steps.push(DrawStep::DrawBody),
            waits: Some(id),
        },
        ChildDraw::Done => Drawn {
            state: None,
            steps: steps.push(DrawStep::DrawBody).push(DrawStep::EndBodyView).push(
                DrawStep::ReverseWalk,
            ).push(DrawStep::EndTurtle),
            waits: None,
        },
    }
}

/// The drawing of the header and what follows it. A header that waits
/// leaves the drawing where it is. Where the view of the body does not
/// show, the drawing ends without the body.
pub open spec fn draw_header(
    steps: Seq<DrawStep>,
    header: ChildDraw,
    body_shows: bool,
    body: ChildDraw,
) -> Drawn {
    match header {
        ChildDraw::Waits(id) => Drawn {
            state: Some(DrawState::DrawHeader),
            steps: steps.push(DrawStep::DrawHeader),
            waits: Some(id),
        },
        ChildDraw::Done => if body_shows {
            draw_body(steps.push(DrawStep::DrawHeader).push(DrawStep::BeginBodyView), body)
        } else {
            Drawn {
                state: None,
                steps: steps.push(DrawStep::DrawHeader).push(DrawStep::BeginBodyView).push(
                    DrawStep::ReverseWalk,
                ).push(DrawStep::EndTurtle),
                waits: None,
            }
        },
    }
}

/// One call to draw a fold header that has come as far as `state`, with
/// children that answer as given: a drawing that starts opens the turtle;
/// then the drawing goes on from where it was.
pub open spec fn draw_component_spec(
    state: Option<DrawState>,
    header: ChildDraw,
    body_shows: bool,
    body: ChildDraw,
) -> Drawn {
    match state {
        None => draw_header(seq![DrawStep::BeginTurtle], header, body_shows, body),
        Some(DrawState::DrawHeader) => draw_header(Seq::empty(), header, body_shows, body),
        Some(DrawState::DrawBody) => draw_body(Seq::empty(), body),
    }
}

/// One call to draw a fold header: `state` is how far the drawing has
/// come, and is moved on; the steps that were drawn are returned, and the
/// child that the drawing waits for, if it is not done.
pub fn draw_component(
    state: &mut Option<DrawState>,
    header: ChildDraw,
    body_shows: bool,
    body: ChildDraw,
) -> (r: (Vec<DrawStep>, Option<LiveId>))
    ensures
        *final(state) == draw_component_spec(*old(state), header, body_shows, body).state,
        r.0@ == draw_component_spec(*old(state), header, body_shows, body).steps,
        r.1 == draw_component_spec(*old(state), header, body_shows, body).waits,
{
    let mut steps: Vec<DrawStep> = Vec::new();
    if state.is_none() {
        *state = Some(DrawState::DrawHeader);
        steps.push(DrawStep::BeginTurtle);
    }
    if let Some(DrawState::DrawHeader) = *state {
        steps.push(DrawStep::DrawHeader);
        if let ChildDraw::Waits(id) = header {
            return (steps, Some(id));
        }
        steps.push(DrawStep::BeginBodyView);
        if !body_shows {
            steps.push(DrawStep::ReverseWalk);
            steps.push(DrawStep::EndTurtle);
            *state = None;
            return (steps, None);
        }
        *state = Some(DrawState::DrawBody);
    }
    if let Some(DrawState::DrawBody) = *state {
        steps.push(DrawStep::DrawBody);
        if let ChildDraw::Waits(id) = body {
            return (steps, Some(id));
        }
        steps.push(DrawStep::EndBodyView);
        steps.push(DrawStep::ReverseWalk);
        steps.push(DrawStep::EndTurtle);
        *state = None;
    }
    (steps, None)
}

} // verus!
