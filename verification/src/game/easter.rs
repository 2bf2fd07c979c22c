//! The hidden switch: flying into a hole turns every target into a planet.

use vstd::prelude::*;
use rand::Rng;
use crate::ces::{Components, Entities, Entity, consistent, removal_scheduled};
use crate::ces::components::ComponentType;
use crate::ces::system::{System, Track, remove_member, update_member, tracks_after_change, tracks_after_removal};
use crate::game::menu::NUM_APPEARANCES;
use crate::game::bodies::lists_kind;

verus! {

/// The kinds a target needs to be switched.
pub open spec fn target_kinds() -> Seq<ComponentType> {
    seq![ComponentType::Switchable, ComponentType::Sprite]
}

/// The kinds a hole needs.
pub open spec fn hole_kinds() -> Seq<ComponentType> {
    seq![ComponentType::Hole, ComponentType::Location, ComponentType::Size]
}

/// `rand::thread_rng().gen_range(0..n)`: a number drawn from `0..n`.
/// What is claimed: the draw lies in `0..n`, as the documentation of
/// `gen_range` says; nothing is claimed of which number comes.
#[verifier::external_body]
fn random_below(n: i32) -> (r: i32)
    requires
        0 < n,
    ensures
        0 <= r < n,
{
    rand::thread_rng().gen_range(0..n)
}

pub struct EasterSystem {
    targets: Vec<usize>,
    holes: Vec<usize>,
}

impl EasterSystem {
    pub fn new() -> (s: EasterSystem)
        ensures
            s.tracks() == seq![(target_kinds(), Seq::<usize>::empty()), (hole_kinds(), Seq::<usize>::empty())],
    {
        EasterSystem { targets: Vec::new(), holes: Vec::new() }
    }

    /// A switch system keeps two lists: the targets, with the kinds of
    /// `target_kinds`, then the holes, with the kinds of `hole_kinds`.
    pub proof fn lemma_tracks(&self)
        ensures
            self.tracks().len() == 2,
            self.tracks()[0].0 == target_kinds(),
            self.tracks()[1].0 == hole_kinds(),
    {
    }

    /// The targets that would be switched.
    pub fn targets(&self) -> (r: &Vec<usize>)
        ensures
            r@ == self.tracks()[0].1,
    {
        &self.targets
    }

    /// The holes that trigger the switch.
    pub fn holes(&self) -> (r: &Vec<usize>)
        ensures
            r@ == self.tracks()[1].1,
    {
        &self.holes
    }

    /// Whether there is anything for the switch to look at.
    pub fn is_idle(&self) -> (idle: bool)
        ensures
            idle == (self.tracks()[0].1.len() == 0 && self.tracks()[1].1.len() == 0),
    {
        self.holes.len() == 0 && self.targets.len() == 0
    }

    /// When the switch fires, every target gets a planet look drawn at
    /// random: one pair (target, appearance) per target, in list order.
    pub fn new_appearances(&self) -> (r: Vec<(usize, i32)>)
        ensures
            r@.len() == self.tracks()[0].1.len(),
            forall|i: int|
                0 <= i < r@.len() ==> (#[trigger] r@[i]).0 == self.tracks()[0].1[i] && 0 <= r@[i].1
                    < NUM_APPEARANCES,
    {
        let mut r: Vec<(usize, i32)> = Vec::new();
        let mut i: usize = 0;
        while i < self.targets.len()
            invariant
                i <= self.targets@.len(),
                r@.len() == i,
                forall|j: int|
                    0 <= j < i ==> (#[trigger] r@[j]).0 == self.targets@[j] && 0 <= r@[j].1 < NUM_APPEARANCES,
            decreases self.targets@.len() - i,
        {
            let a = random_below(NUM_APPEARANCES);
            r.push((self.targets[i], a));
            i = i + 1;
        }
        r
    }

    /// The switch firing. `touching` says, hole by hole in list order,
    /// whether the player touches it (the caller's collision test). When
    /// some hole is touched, the first such hole loses its hole component
    /// at the next update and every target is given a new look, as
    /// `new_appearances` draws them; when none is, nothing happens.
    pub fn fire<P>(&self, touching: &Vec<bool>, entities: &mut Entities, components: &mut Components<P>) -> (r:
        Option<Vec<(usize, i32)>>)
        requires
            consistent(*old(entities), *old(components)),
            touching@.len() == self.tracks()[1].1.len(),
            forall|i: int| 0 <= i < touching@.len() ==> old(entities).live(#[trigger] self.tracks()[1].1[i] as int),
        ensures
            consistent(*final(entities), *final(components)),
            match r {
                None => {
                    &&& forall|i: int| 0 <= i < touching@.len() ==> !#[trigger] touching@[i]
                    &&& *final(entities) == *old(entities)
                    &&& *final(components) == *old(components)
                },
                Some(looks) => {
                    &&& exists|i: int|
                        0 <= i < touching@.len() && #[trigger] touching@[i] && (forall|j: int|
                            0 <= j < i ==> !#[trigger] touching@[j]) && removal_scheduled(
                            *old(entities),
                            *old(components),
                            *final(entities),
                            *final(components),
                            self.tracks()[1].1[i],
                            ComponentType::Hole,
                        )
                    &&& looks@.len() == self.tracks()[0].1.len()
                    &&& forall|i: int|
                        0 <= i < looks@.len() ==> (#[trigger] looks@[i]).0 == self.tracks()[0].1[i] && 0
                            <= looks@[i].1 < NUM_APPEARANCES
                },
            },
    {
        let mut i: usize = 0;
        while i < touching.len()
            invariant
                i <= touching@.len(),
                touching@.len() == self.holes@.len(),
                forall|j: int| 0 <= j < touching@.len() ==> old(entities).live(#[trigger] self.holes@[j] as int),
                forall|j: int| 0 <= j < i ==> !#[trigger] touching@[j],
                *entities == *old(entities),
                *components == *old(components),
                consistent(*old(entities), *old(components)),
            decreases touching@.len() - i,
        {
            if touching[i] {
                let hole = self.holes[i];
                components.sched_remove(hole, ComponentType::Hole, entities);
                let looks = self.new_appearances();
                assert(touching@[i as int]);
                return Some(looks);
            }
            i = i + 1;
        }
        None
    }
}

impl System for EasterSystem {
    closed spec fn tracks(&self) -> Seq<Track> {
        seq![(target_kinds(), self.targets@), (hole_kinds(), self.holes@)]
    }

    fn remove_entity(&mut self, entity_idx: usize) {
        remove_member(&mut self.targets, entity_idx);
        remove_member(&mut self.holes, entity_idx);
        assert(self.tracks() =~= tracks_after_removal(old(self).tracks(), entity_idx));
    }

    fn component_changed_event(&mut self, entity: &Entity, entity_idx: usize) {
        let targets = [ComponentType::Switchable, ComponentType::Sprite];
        let holes = [ComponentType::Hole, ComponentType::Location, ComponentType::Size];
        assert(targets@ =~= target_kinds());
        assert(holes@ =~= hole_kinds());
        update_member(&mut self.targets, targets.as_slice(), entity, entity_idx);
        update_member(&mut self.holes, holes.as_slice(), entity, entity_idx);
        assert(self.tracks() =~= tracks_after_change(old(self).tracks(), entity@, entity_idx));
    }
}

/// The kinds of a target the switch changes, written out: switchable, with a sprite.
pub proof fn lemma_target_kinds()
    ensures
        target_kinds().len() == 2,
        target_kinds()[0] == ComponentType::Switchable,
        target_kinds()[1] == ComponentType::Sprite,
        forall|k: int| lists_kind(target_kinds(), k) <==> (k == ComponentType::Switchable.index() || k == ComponentType::Sprite.index()),
{
    let kinds = target_kinds();
    assert forall|k: int| lists_kind(kinds, k) <==> (k == ComponentType::Switchable.index() || k == ComponentType::Sprite.index()) by {
        if lists_kind(kinds, k) {
            let i = choose|i: int| 0 <= i < kinds.len() && (#[trigger] kinds[i]).index() == k;
            assert(0 <= i < 2);
        }
        assert(kinds[0].index() == ComponentType::Switchable.index());
        assert(kinds[1].index() == ComponentType::Sprite.index());
    }
}

/// The kinds of a hole the switch watches, written out: a hole, with a location and a size.
pub proof fn lemma_hole_kinds()
    ensures
        hole_kinds().len() == 3,
        hole_kinds()[0] == ComponentType::Hole,
        hole_kinds()[1] == ComponentType::Location,
        hole_kinds()[2] == ComponentType::Size,
        forall|k: int| lists_kind(hole_kinds(), k) <==> (k == ComponentType::Hole.index() || k == ComponentType::Location.index() || k == ComponentType::Size.index()),
{
    let kinds = hole_kinds();
    assert forall|k: int| lists_kind(kinds, k) <==> (k == ComponentType::Hole.index() || k == ComponentType::Location.index() || k == ComponentType::Size.index()) by {
        if lists_kind(kinds, k) {
            let i = choose|i: int| 0 <= i < kinds.len() && (#[trigger] kinds[i]).index() == k;
            assert(0 <= i < 3);
        }
        assert(kinds[0].index() == ComponentType::Hole.index());
        assert(kinds[1].index() == ComponentType::Location.index());
        assert(kinds[2].index() == ComponentType::Size.index());
    }
}

} // verus!
