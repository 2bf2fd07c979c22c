//! Gravity: every massive body pulls on every movable one.

use vstd::prelude::*;
use crate::ces::Entity;
use crate::ces::components::ComponentType;
use crate::ces::has_kinds;
use crate::game::bodies::lists_kind;
use crate::ces::laws::{law_change_event_membership, law_removal_event_membership};
use crate::ces::system::{System, Track, remove_member, update_member, tracks_after_change, tracks_after_removal};

verus! {

/// The kinds a body needs to exert gravity.
pub open spec fn all_mass_kinds() -> Seq<ComponentType> {
    seq![ComponentType::Mass, ComponentType::Location, ComponentType::Size]
}

/// The kinds a body needs to be moved by gravity.
pub open spec fn movable_mass_kinds() -> Seq<ComponentType> {
    seq![ComponentType::Mass, ComponentType::Location, ComponentType::Acceleration, ComponentType::Size]
}

pub struct GravitySystem {
    all_masses: Vec<usize>,
    movable_masses: Vec<usize>,
}

impl GravitySystem {
    pub fn new() -> (s: GravitySystem)
        ensures
            s.tracks() == seq![
                (all_mass_kinds(), Seq::<usize>::empty()),
                (movable_mass_kinds(), Seq::<usize>::empty()),
            ],
    {
        GravitySystem { all_masses: Vec::new(), movable_masses: Vec::new() }
    }

    /// A gravity system keeps two lists: the bodies with the kinds of
    /// `all_mass_kinds`, then those with the kinds of `movable_mass_kinds`.
    pub proof fn lemma_tracks(&self)
        ensures
            self.tracks().len() == 2,
            self.tracks()[0].0 == all_mass_kinds(),
            self.tracks()[1].0 == movable_mass_kinds(),
    {
    }

    /// The bodies that exert gravity.
    pub fn all_masses(&self) -> (r: &Vec<usize>)
        ensures
            r@ == self.tracks()[0].1,
    {
        &self.all_masses
    }

    /// The bodies that gravity moves.
    pub fn movable_masses(&self) -> (r: &Vec<usize>)
        ensures
            r@ == self.tracks()[1].1,
    {
        &self.movable_masses
    }
}

impl System for GravitySystem {
    closed spec fn tracks(&self) -> Seq<Track> {
        seq![(all_mass_kinds(), self.all_masses@), (movable_mass_kinds(), self.movable_masses@)]
    }

    fn remove_entity(&mut self, entity_idx: usize) {
        remove_member(&mut self.movable_masses, entity_idx);
        remove_member(&mut self.all_masses, entity_idx);
        assert(self.tracks() =~= tracks_after_removal(old(self).tracks(), entity_idx));
    }

    fn component_changed_event(&mut self, entity: &Entity, entity_idx: usize) {
        let all = [ComponentType::Mass, ComponentType::Location, ComponentType::Size];
        let movable = [
            ComponentType::Mass,
            ComponentType::Location,
            ComponentType::Acceleration,
            ComponentType::Size,
        ];
        assert(all@ =~= all_mass_kinds());
        assert(movable@ =~= movable_mass_kinds());
        update_member(&mut self.all_masses, all.as_slice(), entity, entity_idx);
        update_member(&mut self.movable_masses, movable.as_slice(), entity, entity_idx);
        assert(self.tracks() =~= tracks_after_change(old(self).tracks(), entity@, entity_idx));
    }
}

/// Every body gravity moves is also one that exerts gravity.
pub open spec fn movable_within_all(tr: Seq<Track>) -> bool {
    forall|x: usize| #[trigger] tr[1].1.contains(x) ==> tr[0].1.contains(x)
}

/// A body that can be moved by gravity has every kind a body that exerts
/// gravity needs.
pub proof fn lemma_movable_kinds_cover_all(ent: Seq<Option<usize>>)
    ensures
        has_kinds(ent, movable_mass_kinds()) ==> has_kinds(ent, all_mass_kinds()),
{
    if has_kinds(ent, movable_mass_kinds()) {
        let m = movable_mass_kinds();
        let a = all_mass_kinds();
        assert(ent[m[0].index()] is Some);
        assert(ent[m[1].index()] is Some);
        assert(ent[m[3].index()] is Some);
        assert forall|i: int| 0 <= i < a.len() implies ent[(#[trigger] a[i]).index()] is Some by {
            if i == 2 {
                assert(a[2] == m[3]);
            } else {
                assert(a[i] == m[i]);
            }
        }
    }
}

/// Change and removal events keep both of a gravity system's lists free of
/// repeats and keep every movable body among the bodies that exert gravity;
/// after a change, the entity is in each list exactly when it has that
/// list's kinds.
pub proof fn law_gravity_lists(g: GravitySystem, ent: Seq<Option<usize>>, x: usize)
    requires
        g.tracks()[0].1.no_duplicates(),
        g.tracks()[1].1.no_duplicates(),
        movable_within_all(g.tracks()),
    ensures
        ({
            let c = tracks_after_change(g.tracks(), ent, x);
            &&& c[0].1.no_duplicates()
            &&& c[1].1.no_duplicates()
            &&& movable_within_all(c)
            &&& c[0].1.contains(x) == has_kinds(ent, all_mass_kinds())
            &&& c[1].1.contains(x) == has_kinds(ent, movable_mass_kinds())
        }),
        ({
            let r = tracks_after_removal(g.tracks(), x);
            &&& r[0].1.no_duplicates()
            &&& r[1].1.no_duplicates()
            &&& movable_within_all(r)
            &&& !r[0].1.contains(x)
            &&& !r[1].1.contains(x)
        }),
{
    g.lemma_tracks();
    let tr = g.tracks();
    law_change_event_membership(tr[0].1, tr[0].0, ent, x);
    law_change_event_membership(tr[1].1, tr[1].0, ent, x);
    law_removal_event_membership(tr[0].1, x);
    law_removal_event_membership(tr[1].1, x);
    lemma_movable_kinds_cover_all(ent);
    let c = tracks_after_change(tr, ent, x);
    assert forall|y: usize| #[trigger] c[1].1.contains(y) implies c[0].1.contains(y) by {
        if y != x {
            assert(tr[1].1.contains(y));
        }
    }
    let r = tracks_after_removal(tr, x);
    assert forall|y: usize| #[trigger] r[1].1.contains(y) implies r[0].1.contains(y) by {
        assert(tr[1].1.contains(y));
    }
}

/// The kinds of a body that exerts gravity, written out: a mass, a location and a size.
pub proof fn lemma_all_mass_kinds()
    ensures
        all_mass_kinds().len() == 3,
        all_mass_kinds()[0] == ComponentType::Mass,
        all_mass_kinds()[1] == ComponentType::Location,
        all_mass_kinds()[2] == ComponentType::Size,
        forall|k: int| lists_kind(all_mass_kinds(), k) <==> (k == ComponentType::Mass.index() || k == ComponentType::Location.index() || k == ComponentType::Size.index()),
{
    let kinds = all_mass_kinds();
    assert forall|k: int| lists_kind(kinds, k) <==> (k == ComponentType::Mass.index() || k == ComponentType::Location.index() || k == ComponentType::Size.index()) by {
        if lists_kind(kinds, k) {
            let i = choose|i: int| 0 <= i < kinds.len() && (#[trigger] kinds[i]).index() == k;
            assert(0 <= i < 3);
        }
        assert(kinds[0].index() == ComponentType::Mass.index());
        assert(kinds[1].index() == ComponentType::Location.index());
        assert(kinds[2].index() == ComponentType::Size.index());
    }
}

/// The kinds of a body gravity moves, written out: a mass, a location, an acceleration and a size.
pub proof fn lemma_movable_mass_kinds()
    ensures
        movable_mass_kinds().len() == 4,
        movable_mass_kinds()[0] == ComponentType::Mass,
        movable_mass_kinds()[1] == ComponentType::Location,
        movable_mass_kinds()[2] == ComponentType::Acceleration,
        movable_mass_kinds()[3] == ComponentType::Size,
        forall|k: int| lists_kind(movable_mass_kinds(), k) <==> (k == ComponentType::Mass.index() || k == ComponentType::Location.index() || k == ComponentType::Acceleration.index() || k == ComponentType::Size.index()),
{
    let kinds = movable_mass_kinds();
    assert forall|k: int| lists_kind(kinds, k) <==> (k == ComponentType::Mass.index() || k == ComponentType::Location.index() || k == ComponentType::Acceleration.index() || k == ComponentType::Size.index()) by {
        if lists_kind(kinds, k) {
            let i = choose|i: int| 0 <= i < kinds.len() && (#[trigger] kinds[i]).index() == k;
            assert(0 <= i < 4);
        }
        assert(kinds[0].index() == ComponentType::Mass.index());
        assert(kinds[1].index() == ComponentType::Location.index());
        assert(kinds[2].index() == ComponentType::Acceleration.index());
        assert(kinds[3].index() == ComponentType::Size.index());
    }
}

} // verus!
