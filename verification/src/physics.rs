//! The demonstration physics system: it moves every entity that has both a
//! velocity and a location.

use vstd::prelude::*;
use crate::ces::Entity;
use crate::ces::components::ComponentType;
use crate::game::bodies::lists_kind;
use crate::ces::system::{System, Track, remove_member, update_member, tracks_after_change, tracks_after_removal};

verus! {

/// The kinds an entity needs to be moved.
pub open spec fn physics_kinds() -> Seq<ComponentType> {
    seq![ComponentType::Velocity, ComponentType::Location]
}

pub struct PhysicsSystem {
    entities: Vec<usize>,
}

impl PhysicsSystem {
    pub fn new() -> (s: PhysicsSystem)
        ensures
            s.tracks() == seq![(physics_kinds(), Seq::<usize>::empty())],
    {
        PhysicsSystem { entities: Vec::new() }
    }

    /// The system keeps one list, of the entities with the kinds of
    /// `physics_kinds`.
    pub proof fn lemma_tracks(&self)
        ensures
            self.tracks().len() == 1,
            self.tracks()[0].0 == physics_kinds(),
    {
    }

    /// The entities this system moves.
    pub fn entities(&self) -> (r: &Vec<usize>)
        ensures
            r@ == self.tracks()[0].1,
    {
        &self.entities
    }
}

impl System for PhysicsSystem {
    closed spec fn tracks(&self) -> Seq<Track> {
        seq![(physics_kinds(), self.entities@)]
    }

    fn remove_entity(&mut self, entity_idx: usize) {
        remove_member(&mut self.entities, entity_idx);
        assert(self.tracks() =~= tracks_after_removal(old(self).tracks(), entity_idx));
    }

    fn component_changed_event(&mut self, entity: &Entity, entity_idx: usize) {
        let kinds = [ComponentType::Velocity, ComponentType::Location];
        assert(kinds@ =~= physics_kinds());
        update_member(&mut self.entities, kinds.as_slice(), entity, entity_idx);
        assert(self.tracks() =~= tracks_after_change(old(self).tracks(), entity@, entity_idx));
    }
}

/// The kinds of an entity physics moves, written out: a velocity and a location.
pub proof fn lemma_physics_kinds()
    ensures
        physics_kinds().len() == 2,
        physics_kinds()[0] == ComponentType::Velocity,
        physics_kinds()[1] == ComponentType::Location,
        forall|k: int| lists_kind(physics_kinds(), k) <==> (k == ComponentType::Velocity.index() || k == ComponentType::Location.index()),
{
    let kinds = physics_kinds();
    assert forall|k: int| lists_kind(kinds, k) <==> (k == ComponentType::Velocity.index() || k == ComponentType::Location.index()) by {
        if lists_kind(kinds, k) {
            let i = choose|i: int| 0 <= i < kinds.len() && (#[trigger] kinds[i]).index() == k;
            assert(0 <= i < 2);
        }
        assert(kinds[0].index() == ComponentType::Velocity.index());
        assert(kinds[1].index() == ComponentType::Location.index());
    }
}

} // verus!
