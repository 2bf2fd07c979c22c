//! The decisions of the game's main loop: when to draw, which group of
//! systems an event runs, and when to leave. The program waits for the
//! events, runs the systems and draws; these functions say what to do.

use vstd::prelude::*;
use crate::game::WorldEvent;
use crate::game::menu::Key;

verus! {

/// What the event queue hands the main loop.
#[derive(Clone, Copy, Debug, PartialEq, Eq, Structural)]
pub enum LoopEvent {
    /// The window was closed.
    DisplayClose,
    /// A key was pressed.
    KeyDown(Key),
    /// The logic timer ticked.
    TimerTick,
    /// Anything else.
    Other,
}

/// What the main loop does about one event: the key the systems see as
/// pressed, the group of systems to run, whether a frame is due to be
/// drawn afterwards, and whether to leave the loop once the systems ran.
#[derive(Clone, Copy, Debug, PartialEq, Eq, Structural)]
pub struct LoopStep {
    pub key_down: Option<Key>,
    pub run: Option<WorldEvent>,
    pub redraw: bool,
    pub exit: bool,
}

/// Whether to draw before waiting for the next event: a frame is due and
/// no event is waiting. After drawing, no frame is due.
pub fn should_draw(redraw: bool, queue_empty: bool) -> (r: bool)
    ensures
        r == (redraw && queue_empty),
{
    redraw && queue_empty
}

/// The step for `event`, when `redraw` says whether a frame is due. A key
/// press runs the input systems with that key down, and the escape key
/// leaves the loop after them; a timer tick runs the logic systems and
/// makes a frame due; closing the window leaves at once.
pub fn on_event(redraw: bool, event: LoopEvent) -> (s: LoopStep)
    ensures
        match event {
            LoopEvent::DisplayClose => s == (LoopStep { key_down: None, run: None, redraw, exit: true }),
            LoopEvent::KeyDown(k) => s == (LoopStep {
                key_down: Some(k),
                run: Some(WorldEvent::Input),
                redraw,
                exit: k == Key::Escape,
            }),
            LoopEvent::TimerTick => s == (LoopStep {
                key_down: None,
                run: Some(WorldEvent::Logic),
                redraw: true,
                exit: false,
            }),
            LoopEvent::Other => s == (LoopStep { key_down: None, run: None, redraw, exit: false }),
        },
{
    match event {
        LoopEvent::DisplayClose => LoopStep { key_down: None, run: None, redraw, exit: true },
        LoopEvent::KeyDown(k) => {
            let exit = match k {
                Key::Escape => true,
                _ => false,
            };
            LoopStep { key_down: Some(k), run: Some(WorldEvent::Input), redraw, exit }
        },
        LoopEvent::TimerTick => LoopStep { key_down: None, run: Some(WorldEvent::Logic), redraw: true, exit: false },
        LoopEvent::Other => LoopStep { key_down: None, run: None, redraw, exit: false },
    }
}

} // verus!
