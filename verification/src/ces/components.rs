//! The kinds of component an entity can carry.

use vstd::prelude::*;

verus! {

/// How many kinds of component there are.
pub const NUM_COMPONENTS: usize = 16;

/// A kind of component; each entity has at most one component of each kind.
#[derive(Clone, Copy, Debug, PartialEq, Eq, Structural)]
pub enum ComponentType {
    Location,
    Velocity,
    Acceleration,
    GameMode,
    MenuMode,
    State,
    Player,
    Size,
    OldLocation,
    Sprite,
    Mass,
    Target,
    Solid,
    Hole,
    Switchable,
    IntermissMode,
}

impl ComponentType {
    /// The position of this kind in the declaration order above.
    pub open spec fn index(self) -> int {
        match self {
            ComponentType::Location => 0,
            ComponentType::Velocity => 1,
            ComponentType::Acceleration => 2,
            ComponentType::GameMode => 3,
            ComponentType::MenuMode => 4,
            ComponentType::State => 5,
            ComponentType::Player => 6,
            ComponentType::Size => 7,
            ComponentType::OldLocation => 8,
            ComponentType::Sprite => 9,
            ComponentType::Mass => 10,
            ComponentType::Target => 11,
            ComponentType::Solid => 12,
            ComponentType::Hole => 13,
            ComponentType::Switchable => 14,
            ComponentType::IntermissMode => 15,
        }
    }

    pub fn as_uint(&self) -> (i: usize)
        ensures
            i == self.index(),
            i < NUM_COMPONENTS,
    {
        match self {
            ComponentType::Location => 0,
            ComponentType::Velocity => 1,
            ComponentType::Acceleration => 2,
            ComponentType::GameMode => 3,
            ComponentType::MenuMode => 4,
            ComponentType::State => 5,
            ComponentType::Player => 6,
            ComponentType::Size => 7,
            ComponentType::OldLocation => 8,
            ComponentType::Sprite => 9,
            ComponentType::Mass => 10,
            ComponentType::Target => 11,
            ComponentType::Solid => 12,
            ComponentType::Hole => 13,
            ComponentType::Switchable => 14,
            ComponentType::IntermissMode => 15,
        }
    }
}

} // verus!
