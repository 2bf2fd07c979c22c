//! Systems and the lists of entities they act on.
//!
//! A system keeps, for each set of component kinds it cares about, the list
//! of entities that have a component of every one of those kinds. The list
//! is kept up to date from two events: an entity's set of components
//! changed, and an entity was removed.

use vstd::prelude::*;
use crate::ces::Entity;
use crate::ces::has_kinds;
use crate::ces::components::ComponentType;

verus! {

/// A membership list: the kinds an entity needs, and the entities that
/// currently have them all.
pub type Track = (Seq<ComponentType>, Seq<usize>);


/// The first position of `x` in `s`, or -1 when `x` does not occur.
pub open spec fn first_pos(s: Seq<usize>, x: usize) -> int
    decreases s.len(),
{
    if s.len() == 0 {
        -1
    } else if s[0] == x {
        0
    } else {
        let p = first_pos(s.drop_first(), x);
        if p < 0 {
            -1
        } else {
            p + 1
        }
    }
}

/// `s` without its first occurrence of `x`, the last element taking its
/// place; `s` itself when `x` does not occur.
pub open spec fn list_without(s: Seq<usize>, x: usize) -> Seq<usize> {
    let p = first_pos(s, x);
    if p < 0 {
        s
    } else {
        s.update(p, s.last()).drop_last()
    }
}

/// The list after entity `x`, with component slots `ent`, reported a change:
/// it is appended when it qualifies and is absent, and taken out when it no
/// longer qualifies.
pub open spec fn list_after_change(
    s: Seq<usize>,
    kinds: Seq<ComponentType>,
    ent: Seq<Option<usize>>,
    x: usize,
) -> Seq<usize> {
    if has_kinds(ent, kinds) {
        if first_pos(s, x) < 0 {
            s.push(x)
        } else {
            s
        }
    } else {
        list_without(s, x)
    }
}

pub open spec fn tracks_after_change(tr: Seq<Track>, ent: Seq<Option<usize>>, x: usize) -> Seq<
    Track,
> {
    Seq::new(tr.len(), |i: int| (tr[i].0, list_after_change(tr[i].1, tr[i].0, ent, x)))
}

pub open spec fn tracks_after_removal(tr: Seq<Track>, x: usize) -> Seq<Track> {
    Seq::new(tr.len(), |i: int| (tr[i].0, list_without(tr[i].1, x)))
}

/// The tracks after the changes `xs`, in order, where `view_of(x)` gives
/// the component slots of entity `x`.
pub open spec fn tracks_after_changes(
    tr: Seq<Track>,
    view_of: spec_fn(usize) -> Seq<Option<usize>>,
    xs: Seq<usize>,
) -> Seq<Track>
    decreases xs.len(),
{
    if xs.len() == 0 {
        tr
    } else {
        tracks_after_changes(tracks_after_change(tr, view_of(xs[0]), xs[0]), view_of, xs.drop_first())
    }
}

/// The tracks after the removals `xs`, in order.
pub open spec fn tracks_after_removals(tr: Seq<Track>, xs: Seq<usize>) -> Seq<Track>
    decreases xs.len(),
{
    if xs.len() == 0 {
        tr
    } else {
        tracks_after_removals(tracks_after_removal(tr, xs[0]), xs.drop_first())
    }
}

/// Something that keeps membership lists of entities.
pub trait System {
    /// The membership lists, in a fixed order.
    spec fn tracks(&self) -> Seq<Track>;

    /// Entity `entity_idx` is gone: it leaves every list.
    fn remove_entity(&mut self, entity_idx: usize)
        ensures
            final(self).tracks() == tracks_after_removal(old(self).tracks(), entity_idx),
    ;

    /// Entity `entity_idx` now has the components of `entity`: it joins
    /// every list whose kinds it has, and leaves every other.
    fn component_changed_event(&mut self, entity: &Entity, entity_idx: usize)
        ensures
            final(self).tracks() == tracks_after_change(old(self).tracks(), entity@, entity_idx),
    ;
}

/// The first position of `x` in `list`.
pub fn position_elem(list: &Vec<usize>, x: usize) -> (pos: Option<usize>)
    ensures
        match pos {
            Some(p) => first_pos(list@, x) == p,
            None => first_pos(list@, x) == -1,
        },
{
    let mut i: usize = 0;
    while i < list.len()
        invariant
            i <= list@.len(),
            forall|j: int| 0 <= j < i ==> list@[j] != x,
        decreases list@.len() - i,
    {
        if list[i] == x {
            proof {
                lemma_first_pos_at(list@, x, i as int);
            }
            return Some(i);
        }
        i = i + 1;
    }
    proof {
        lemma_first_pos_absent(list@, x);
    }
    None
}

proof fn lemma_first_pos_at(s: Seq<usize>, x: usize, i: int)
    requires
        0 <= i < s.len(),
        s[i] == x,
        forall|j: int| 0 <= j < i ==> s[j] != x,
    ensures
        first_pos(s, x) == i,
    decreases i,
{
    if i > 0 {
        lemma_first_pos_at(s.drop_first(), x, i - 1);
    }
}

proof fn lemma_first_pos_absent(s: Seq<usize>, x: usize)
    requires
        forall|j: int| 0 <= j < s.len() ==> s[j] != x,
    ensures
        first_pos(s, x) == -1,
    decreases s.len(),
{
    if s.len() > 0 {
        lemma_first_pos_absent(s.drop_first(), x);
    }
}

/// Where `first_pos` lands, `x` is; where it finds nothing, `x` is absent.
pub proof fn lemma_first_pos(s: Seq<usize>, x: usize)
    ensures
        -1 <= first_pos(s, x) < s.len(),
        first_pos(s, x) >= 0 ==> s[first_pos(s, x)] == x,
        first_pos(s, x) >= 0 ==> forall|j: int| 0 <= j < first_pos(s, x) ==> s[j] != x,
        first_pos(s, x) < 0 <==> !s.contains(x),
    decreases s.len(),
{
    if s.len() > 0 {
        lemma_first_pos(s.drop_first(), x);
        if s[0] != x {
            if first_pos(s, x) >= 0 {
                assert forall|j: int| 0 <= j < first_pos(s, x) implies s[j] != x by {
                    if j > 0 {
                        assert(s[j] == s.drop_first()[j - 1]);
                    }
                }
            }
            if s.drop_first().contains(x) {
                let j = choose|j: int| 0 <= j < s.drop_first().len() && s.drop_first()[j] == x;
                assert(s[j + 1] == x);
            }
            if s.contains(x) {
                let j = choose|j: int| 0 <= j < s.len() && s[j] == x;
                assert(s.drop_first()[j - 1] == x);
            }
        }
    }
}

/// Takes entity `x` out of `list`, if it is there.
pub fn remove_member(list: &mut Vec<usize>, x: usize)
    ensures
        final(list)@ == list_without(old(list)@, x),
{
    match position_elem(list, x) {
        Some(pos) => {
            proof {
                lemma_first_pos(list@, x);
            }
            list.swap_remove(pos);
            assert(list@ =~= list_without(old(list)@, x));
        },
        None => {},
    }
}

/// Brings `list` up to date after entity `x` reported that it now has the
/// components of `entity`.
pub fn update_member(list: &mut Vec<usize>, kinds: &[ComponentType], entity: &Entity, x: usize)
    ensures
        final(list)@ == list_after_change(old(list)@, kinds@, entity@, x),
{
    let pos = position_elem(list, x);
    if entity.have_components(kinds) {
        if pos.is_none() {
            list.push(x);
        }
    } else {
        remove_member(list, x);
    }
}

/// A system with one membership list, for the kinds it was made with.
pub struct SimpleSystem {
    kinds: Vec<ComponentType>,
    entities: Vec<usize>,
}

impl SimpleSystem {
    pub fn new(kinds: Vec<ComponentType>) -> (s: SimpleSystem)
        ensures
            s.tracks() == seq![(kinds@, Seq::<usize>::empty())],
    {
        SimpleSystem { kinds, entities: Vec::new() }
    }

    /// The system keeps exactly one list.
    pub proof fn lemma_tracks(&self)
        ensures
            self.tracks().len() == 1,
    {
    }

    /// The entities that currently have every kind this system needs.
    pub fn get_entities(&self) -> (r: &Vec<usize>)
        ensures
            r@ == self.tracks()[0].1,
    {
        &self.entities
    }

    /// The kinds this system needs.
    pub fn get_component_types(&self) -> (r: &Vec<ComponentType>)
        ensures
            r@ == self.tracks()[0].0,
    {
        &self.kinds
    }
}

impl System for SimpleSystem {
    closed spec fn tracks(&self) -> Seq<Track> {
        seq![(self.kinds@, self.entities@)]
    }

    fn remove_entity(&mut self, entity_idx: usize) {
        remove_member(&mut self.entities, entity_idx);
        assert(self.tracks() =~= tracks_after_removal(old(self).tracks(), entity_idx));
    }

    fn component_changed_event(&mut self, entity: &Entity, entity_idx: usize) {
        update_member(&mut self.entities, self.kinds.as_slice(), entity, entity_idx);
        assert(self.tracks() =~= tracks_after_change(old(self).tracks(), entity@, entity_idx));
    }
}

} // verus!
