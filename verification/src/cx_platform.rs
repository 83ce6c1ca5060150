//! What an application asks of the desktop platform between two turns of the
//! event loop: the requests are kept here until the loop carries them out.

use vstd::prelude::*;
use crate::live_float::LiveFloat;
use crate::live_id::LiveId;
use crate::menu::Menu;

verus! {

/// A running timer; timer 0 is no timer.
#[derive(Clone, Copy, Debug, PartialEq, Eq, Hash, Structural)]
pub struct Timer(pub u64);

/// A timer to start: its number, its interval in seconds, and whether it
/// fires again and again.
#[derive(Clone, Copy, Debug, PartialEq, Eq, Structural)]
pub struct TimerStart {
    pub timer_id: u64,
    pub interval: LiveFloat,
    pub repeats: bool,
}

/// A point or a size, by its two coordinates.
#[derive(Clone, Copy, Debug, PartialEq, Eq, Structural)]
pub struct Vec2 {
    pub x: LiveFloat,
    pub y: LiveFloat,
}

pub struct CxPlatform {
    /// The number of the timer started last.
    pub timer_id: u64,
    pub last_menu: Option<Menu>,
    /// Whether the menu has to be handed to the platform.
    pub set_menu: bool,
    pub set_window_position: Option<Vec2>,
    pub set_window_outer_size: Option<Vec2>,
    pub set_ime_position: Option<Vec2>,
    /// The timers to start, in the order in which they were asked for.
    pub start_timer: Vec<TimerStart>,
    /// The timers to stop, in the order in which they were asked for.
    pub stop_timer: Vec<u64>,
    /// The item whose drag is to start.
    pub start_dragging: Option<LiveId>,
}

/// What the loop takes from the platform state when it paints, for the
/// platform to carry out.
pub struct PaintRequests {
    /// Where the text input is to show, if that was asked for.
    pub set_ime_position: Option<Vec2>,
    /// The timers to start, the one asked for last first.
    pub start_timer: Vec<TimerStart>,
    /// The timers to stop, the one asked for last first.
    pub stop_timer: Vec<u64>,
    /// The menu to hand to the platform, if a new one was taken.
    pub menu: Option<Menu>,
}

/// A sequence read from its end.
pub open spec fn backwards<A>(s: Seq<A>) -> Seq<A> {
    Seq::new(s.len(), |i: int| s[s.len() - 1 - i])
}

fn drain_backwards<A>(from: &mut Vec<A>) -> (r: Vec<A>)
    ensures
        r@ == backwards(old(from)@),
        final(from)@.len() == 0,
{
    let mut out: Vec<A> = Vec::new();
    let ghost all = from@;
    while from.len() > 0
        invariant
            from@ =~= all.subrange(0, all.len() - out@.len()),
            out@.len() <= all.len(),
            out@ =~= backwards(all).subrange(0, out@.len() as int),
        decreases from@.len(),
    {
        let ghost before = out@;
        match from.pop() {
            Some(item) => {
                out.push(item);
                proof {
                    assert(item == all[all.len() - 1 - before.len()]);
                    assert(out@ =~= backwards(all).subrange(0, out@.len() as int));
                }
            },
            None => {},
        }
    }
    proof {
        assert(out@ =~= backwards(all));
    }
    out
}

impl CxPlatform {
    pub fn new() -> (r: CxPlatform)
        ensures
            r.timer_id == 0,
            r.last_menu is None,
            !r.set_menu,
            r.set_window_position is None,
            r.set_window_outer_size is None,
            r.set_ime_position is None,
            r.start_timer@.len() == 0,
            r.stop_timer@.len() == 0,
            r.start_dragging is None,
    {
        CxPlatform {
            timer_id: 0,
            last_menu: None,
            set_menu: false,
            set_window_position: None,
            set_window_outer_size: None,
            set_ime_position: None,
            start_timer: Vec::new(),
            stop_timer: Vec::new(),
            start_dragging: None,
        }
    }

    /// This differs from `before` in its timers only.
    pub open spec fn same_but_timers(&self, before: &CxPlatform) -> bool {
        &&& self.last_menu == before.last_menu
        &&& self.set_menu == before.set_menu
        &&& self.set_window_position == before.set_window_position
        &&& self.set_window_outer_size == before.set_window_outer_size
        &&& self.set_ime_position == before.set_ime_position
        &&& self.start_dragging == before.start_dragging
    }

    /// Asks for the text input to show at a place.
    pub fn show_text_ime(&mut self, x: LiveFloat, y: LiveFloat)
        ensures
            *final(self) == (CxPlatform { set_ime_position: Some(Vec2 { x, y }), ..*old(self) }),
    {
        self.set_ime_position = Some(Vec2 { x, y });
    }

    pub fn set_window_outer_size(&mut self, size: Vec2)
        ensures
            *final(self) == (CxPlatform { set_window_outer_size: Some(size), ..*old(self) }),
    {
        self.set_window_outer_size = Some(size);
    }

    pub fn set_window_position(&mut self, pos: Vec2)
        ensures
            *final(self) == (CxPlatform { set_window_position: Some(pos), ..*old(self) }),
    {
        self.set_window_position = Some(pos);
    }

    /// Asks for a timer, and returns it: it has the number after that of
    /// the timer started last.
    pub fn start_timer(&mut self, interval: LiveFloat, repeats: bool) -> (r: Timer)
        requires
            old(self).timer_id < u64::MAX,
        ensures
            r.0 == old(self).timer_id + 1,
            final(self).timer_id == r.0,
            final(self).start_timer@ == old(self).start_timer@.push(
                TimerStart { timer_id: r.0, interval, repeats },
            ),
            final(self).stop_timer == old(self).stop_timer,
            final(self).same_but_timers(old(self)),
    {
        self.timer_id += 1;
        self.start_timer.push(TimerStart { timer_id: self.timer_id, interval, repeats });
        Timer(self.timer_id)
    }

    /// Asks for a timer to stop; timer 0 is no timer, and nothing is asked.
    pub fn stop_timer(&mut self, timer: Timer)
        ensures
            timer.0 != 0 ==> final(self).stop_timer@ == old(self).stop_timer@.push(timer.0),
            timer.0 == 0 ==> final(self).stop_timer@ == old(self).stop_timer@,
            final(self).timer_id == old(self).timer_id,
            final(self).start_timer == old(self).start_timer,
            final(self).same_but_timers(old(self)),
    {
        if timer.0 != 0 {
            self.stop_timer.push(timer.0);
        }
    }

    /// Takes the menu of the application: a menu that differs from the one
    /// taken last is kept, and is to be handed to the platform.
    pub fn update_menu(&mut self, menu: &Menu)
        ensures
            final(self).last_menu is Some,
            final(self).last_menu.unwrap()@ == menu@,
            final(self).set_menu == {
                ||| old(self).set_menu
                ||| old(self).last_menu is None
                ||| old(self).last_menu.unwrap()@ != menu@
            },
            final(self).timer_id == old(self).timer_id,
            final(self).start_timer == old(self).start_timer,
            final(self).stop_timer == old(self).stop_timer,
            final(self).set_window_position == old(self).set_window_position,
            final(self).set_window_outer_size == old(self).set_window_outer_size,
            final(self).set_ime_position == old(self).set_ime_position,
            final(self).start_dragging == old(self).start_dragging,
    {
        let changed: bool = match &self.last_menu {
            Some(last_menu) => !last_menu.same(menu),
            None => true,
        };
        if changed {
            self.last_menu = Some(menu.clone());
            self.set_menu = true;
        }
    }

    /// Takes what the loop carries out when it paints, and leaves none of
    /// it waiting: the place of the text input, the timers to start and to
    /// stop, each list from the request made last to the one made first,
    /// and the menu if a new one was taken. The menu itself is kept, to tell
    /// the next one from it.
    pub fn take_paint_requests(&mut self) -> (r: PaintRequests)
        ensures
            r.set_ime_position == old(self).set_ime_position,
            r.start_timer@ == backwards(old(self).start_timer@),
            r.stop_timer@ == backwards(old(self).stop_timer@),
            match r.menu {
                Some(menu) => old(self).set_menu && (old(self).last_menu matches Some(last)
                    && menu@ == last@),
                None => !old(self).set_menu || old(self).last_menu is None,
            },
            final(self).set_ime_position is None,
            final(self).start_timer@.len() == 0,
            final(self).stop_timer@.len() == 0,
            !final(self).set_menu,
            final(self).last_menu == old(self).last_menu,
            final(self).timer_id == old(self).timer_id,
            final(self).set_window_position == old(self).set_window_position,
            final(self).set_window_outer_size == old(self).set_window_outer_size,
            final(self).start_dragging == old(self).start_dragging,
    {
        let set_ime_position = self.set_ime_position;
        self.set_ime_position = None;
        let start_timer = drain_backwards(&mut self.start_timer);
        let stop_timer = drain_backwards(&mut self.stop_timer);
        let menu = if self.set_menu {
            match &self.last_menu {
                Some(menu) => Some(menu.clone()),
                None => None,
            }
        } else {
            None
        };
        self.set_menu = false;
        PaintRequests { set_ime_position, start_timer, stop_timer, menu }
    }

    /// Takes the drag that waits to start, if one does.
    pub fn take_dragging(&mut self) -> (r: Option<LiveId>)
        ensures
            r == old(self).start_dragging,
            *final(self) == (CxPlatform { start_dragging: None, ..*old(self) }),
    {
        let item = self.start_dragging;
        self.start_dragging = None;
        item
    }

    /// Asks for the drag of an item to start. No drag may be waiting to
    /// start already.
    pub fn start_dragging(&mut self, dragged_item: LiveId)
        requires
            old(self).start_dragging is None,
        ensures
            *final(self) == (CxPlatform { start_dragging: Some(dragged_item), ..*old(self) }),
    {
        self.start_dragging = Some(dragged_item);
    }
}

} // verus!
