//! The rules of the space-camera game that sit on top of the entity
//! system: which entities each game system tracks, the menu and the
//! intermission screens, the high-score file and level configuration.

pub mod gravity;
pub mod easter;
pub mod menu;
pub mod intermiss;
pub mod score;
pub mod config;
pub mod resource_manager;
pub mod sfx;
pub mod bodies;
pub mod event_loop;

use vstd::prelude::*;

verus! {

/// The three kinds of frame event the game's systems are grouped by.
#[derive(Clone, Copy, Debug, PartialEq, Eq, Structural)]
pub enum WorldEvent {
    Draw,
    Input,
    Logic,
}

impl WorldEvent {
    /// The event's number, in declaration order.
    pub open spec fn number(self) -> int {
        match self {
            WorldEvent::Draw => 0,
            WorldEvent::Input => 1,
            WorldEvent::Logic => 2,
        }
    }

    pub fn to_u64(&self) -> (r: Option<u64>)
        ensures
            r == Some(self.number() as u64),
    {
        match self {
            WorldEvent::Draw => Some(0),
            WorldEvent::Input => Some(1),
            WorldEvent::Logic => Some(2),
        }
    }

    pub fn to_i64(&self) -> (r: Option<i64>)
        ensures
            r == Some(self.number() as i64),
    {
        match self {
            WorldEvent::Draw => Some(0),
            WorldEvent::Input => Some(1),
            WorldEvent::Logic => Some(2),
        }
    }
}

} // verus!
