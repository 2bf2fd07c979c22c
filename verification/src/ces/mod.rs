//! Entities, the components attached to them, and the bookkeeping that
//! defers removals to the next update.

pub mod components;
pub mod system;
pub mod world;
pub mod laws;

use vstd::prelude::*;
use crate::free_list::FreeList;
use crate::free_list::names;
use crate::free_list::push_post;
use crate::free_list::slots_after_frees;
use crate::free_list::stack_after_frees;
use self::components::ComponentType;
use self::components::NUM_COMPONENTS;

verus! {

/// Whether an entity with component slots `ent` has every kind in `kinds`.
pub open spec fn has_kinds(ent: Seq<Option<usize>>, kinds: Seq<ComponentType>) -> bool {
    forall|i: int| 0 <= i < kinds.len() ==> ent[(#[trigger] kinds[i]).index()] is Some
}

/// An entity: for each kind of component, the slot of its component of
/// that kind, if it has one.
pub struct Entity {
    components: [Option<usize>; 16],
}

impl View for Entity {
    type V = Seq<Option<usize>>;

    closed spec fn view(&self) -> Seq<Option<usize>> {
        self.components@
    }
}

impl Entity {
    /// The slot of this entity's component of kind `kind`.
    pub open spec fn comp(&self, kind: ComponentType) -> Option<usize> {
        self@[kind.index()]
    }

    pub open spec fn has_all(&self, kinds: Seq<ComponentType>) -> bool {
        has_kinds(self@, kinds)
    }

    /// An entity records one slot per kind.
    pub proof fn lemma_len(&self)
        ensures
            self@.len() == NUM_COMPONENTS,
    {
    }

    pub fn new() -> (e: Entity)
        ensures
            e@.len() == NUM_COMPONENTS,
            forall|k: ComponentType| (#[trigger] e.comp(k)) is None,
    {
        Entity { components: [None; 16] }
    }

    pub fn get_comp_idx(&self, comp_type: ComponentType) -> (r: Option<usize>)
        ensures
            r == self.comp(comp_type),
    {
        self.components[comp_type.as_uint()]
    }

    pub fn set_comp_idx(&mut self, comp_type: ComponentType, comp_idx: Option<usize>)
        ensures
            final(self)@ == old(self)@.update(comp_type.index(), comp_idx),
    {
        let i = comp_type.as_uint();
        self.components[i] = comp_idx;
        assert(self@ =~= old(self)@.update(comp_type.index(), comp_idx));
    }

    /// This entity's component of kind `comp_type` in `comp_set`, if it has
    /// one; the slot it names must hold a component.
    pub fn get<'a, T>(&self, comp_type: ComponentType, comp_set: &'a ComponentSet<T>) -> (r: Option<&'a T>)
        requires
            self.comp(comp_type) matches Some(c) ==> c < comp_set.store()@.len() && comp_set.store()@[c as int] is Some,
        ensures
            match self.comp(comp_type) {
                Some(c) => r is Some && *r.unwrap() == comp_set.store()@[c as int].unwrap(),
                None => r is None,
            },
    {
        match self.get_comp_idx(comp_type) {
            Some(c) => Some(comp_set.get(c)),
            None => None,
        }
    }

    /// Mutable access to this entity's component of kind `comp_type` in
    /// `comp_set`, if it has one; nothing else in `comp_set` changes.
    pub fn get_mut<'a, T>(&self, comp_type: ComponentType, comp_set: &'a mut ComponentSet<T>) -> (r: Option<&'a mut T>)
        requires
            self.comp(comp_type) matches Some(c) ==> c < old(comp_set).store()@.len() && old(comp_set).store()@[c as int] is Some,
        ensures
            final(comp_set).pending() == old(comp_set).pending(),
            final(comp_set).store().free_stack() == old(comp_set).store().free_stack(),
            match self.comp(comp_type) {
                Some(c) => {
                    &&& r is Some
                    &&& *r.unwrap() == old(comp_set).store()@[c as int].unwrap()
                    &&& final(comp_set).store()@ == old(comp_set).store()@.update(c as int, Some(*final(r.unwrap())))
                },
                None => r is None && final(comp_set).store()@ == old(comp_set).store()@,
            },
    {
        match self.get_comp_idx(comp_type) {
            Some(c) => Some(comp_set.get_mut(c)),
            None => None,
        }
    }

    /// Whether this entity has a component of every kind in `comps`.
    pub fn have_components(&self, comps: &[ComponentType]) -> (have_all: bool)
        ensures
            have_all == self.has_all(comps@),
    {
        let mut i: usize = 0;
        while i < comps.len()
            invariant
                i <= comps@.len(),
                self.has_all(comps@.take(i as int)),
            decreases comps@.len() - i,
        {
            if self.get_comp_idx(comps[i]).is_none() {
                assert(self.comp(comps@[i as int]) is None);
                return false;
            }
            proof {
                let t = comps@.take(i + 1);
                assert forall|j: int| 0 <= j < t.len() implies self@[(#[trigger] t[j]).index()] is Some by {
                    if j < i {
                        assert(comps@.take(i as int)[j] == t[j]);
                    }
                }
            }
            i = i + 1;
        }
        assert(comps@.take(i as int) =~= comps@);
        true
    }
}

/// The entities named by a list of scheduled component removals.
pub open spec fn removal_entities(p: Seq<(usize, usize)>) -> Seq<usize> {
    p.map_values(|r: (usize, usize)| r.0)
}

/// The component slots named by a list of scheduled component removals.
pub open spec fn removal_slots(p: Seq<(usize, usize)>) -> Seq<usize> {
    p.map_values(|r: (usize, usize)| r.1)
}

/// `post` is `pre` with the component of kind `kind` dropped from every
/// live entity that `idxs` names; nothing else differs.
pub open spec fn kind_cleared(
    pre: Seq<Option<Entity>>,
    post: Seq<Option<Entity>>,
    kind: ComponentType,
    idxs: Seq<usize>,
) -> bool {
    &&& post.len() == pre.len()
    &&& forall|j: int| 0 <= j < pre.len() ==> (#[trigger] post[j] is Some <==> pre[j] is Some)
    &&& forall|j: int|
        0 <= j < pre.len() && pre[j] is Some ==> (#[trigger] post[j]).unwrap()@ == if names(
            idxs,
            j,
        ) {
            pre[j].unwrap()@.update(kind.index(), None)
        } else {
            pre[j].unwrap()@
        }
}

/// The components of one kind, and the removals scheduled for them.
pub struct ComponentSet<T> {
    components: FreeList<T>,
    removals: Vec<(usize, usize)>,
}

impl<T> ComponentSet<T> {
    /// The component slots.
    pub closed spec fn store(&self) -> FreeList<T> {
        self.components
    }

    /// The scheduled removals, as (entity, component slot) pairs, oldest
    /// first.
    pub closed spec fn pending(&self) -> Seq<(usize, usize)> {
        self.removals@
    }

    pub open spec fn wf(&self) -> bool {
        self.store().wf()
    }

    pub fn new() -> (set: ComponentSet<T>)
        ensures
            set.wf(),
            set.store()@ == Seq::<Option<T>>::empty(),
            set.store().free_stack() == Seq::<usize>::empty(),
            set.pending() == Seq::<(usize, usize)>::empty(),
    {
        ComponentSet { components: FreeList::new(), removals: Vec::new() }
    }

    /// Stores a component and returns its slot.
    pub fn add(&mut self, comp: T) -> (idx: usize)
        requires
            old(self).wf(),
        ensures
            final(self).wf(),
            push_post(old(self).store(), final(self).store(), comp, idx),
            final(self).pending() == old(self).pending(),
    {
        let idx = self.components.push(comp);
        idx
    }

    /// Records that entity `entity_idx` is to lose the component in slot
    /// `comp_idx` at the next update.
    pub fn sched_remove(&mut self, entity_idx: usize, comp_idx: usize)
        ensures
            final(self).store() == old(self).store(),
            final(self).pending() == old(self).pending().push((entity_idx, comp_idx)),
    {
        self.removals.push((entity_idx, comp_idx));
    }

    /// The component in slot `comp_idx`, which must be occupied.
    pub fn get(&self, comp_idx: usize) -> (r: &T)
        requires
            comp_idx < self.store()@.len(),
            self.store()@[comp_idx as int] is Some,
        ensures
            *r == self.store()@[comp_idx as int].unwrap(),
    {
        self.components.get(comp_idx).unwrap()
    }

    /// Mutable access to the component in slot `comp_idx`, which must be
    /// occupied.
    pub fn get_mut(&mut self, comp_idx: usize) -> (r: &mut T)
        requires
            comp_idx < old(self).store()@.len(),
            old(self).store()@[comp_idx as int] is Some,
        ensures
            *r == old(self).store()@[comp_idx as int].unwrap(),
            old(self).wf() ==> final(self).wf(),
            final(self).store()@ == old(self).store()@.update(comp_idx as int, Some(*final(r))),
            final(self).store().free_stack() == old(self).store().free_stack(),
            final(self).pending() == old(self).pending(),
    {
        self.components.get_mut(comp_idx).unwrap()
    }

    /// Carries out the scheduled removals, oldest first: each named entity
    /// loses its component of kind `comp_type`, and each named slot is freed.
    pub fn process_removals(&mut self, comp_type: ComponentType, entities: &mut FreeList<Entity>)
        requires
            old(self).wf(),
            forall|i: int|
                0 <= i < old(self).pending().len() ==> {
                    let (e, c) = #[trigger] old(self).pending()[i];
                    &&& e < old(entities)@.len()
                    &&& old(entities)@[e as int] is Some
                    &&& c < old(self).store()@.len()
                },
        ensures
            final(self).wf(),
            final(self).pending() == Seq::<(usize, usize)>::empty(),
            final(self).store()@ == slots_after_frees(
                old(self).store()@,
                removal_slots(old(self).pending()),
            ),
            final(self).store().free_stack() == stack_after_frees(
                old(self).store()@,
                old(self).store().free_stack(),
                removal_slots(old(self).pending()),
            ),
            final(entities).free_stack() == old(entities).free_stack(),
            kind_cleared(
                old(entities)@,
                final(entities)@,
                comp_type,
                removal_entities(old(self).pending()),
            ),
    {
        let ghost p = self.removals@;
        let ghost ents = removal_entities(p);
        let ghost slots = removal_slots(p);
        let mut i: usize = 0;
        assert(slots_after_frees(old(self).store()@, slots.take(0)) =~= old(self).store()@);
        assert(slots.skip(0) =~= slots);
        while i < self.removals.len()
            invariant
                i <= p.len(),
                self.removals@ == p,
                ents == removal_entities(p),
                slots == removal_slots(p),
                self.wf(),
                self.store()@ == slots_after_frees(old(self).store()@, slots.take(i as int)),
                stack_after_frees(self.store()@, self.store().free_stack(), slots.skip(i as int))
                    == stack_after_frees(
                    old(self).store()@,
                    old(self).store().free_stack(),
                    slots,
                ),
                entities.free_stack() == old(entities).free_stack(),
                kind_cleared(old(entities)@, entities@, comp_type, ents.take(i as int)),
                p == old(self).pending(),
                forall|j: int|
                    0 <= j < p.len() ==> {
                        let (e, c) = #[trigger] old(self).pending()[j];
                        &&& e < old(entities)@.len()
                        &&& old(entities)@[e as int] is Some
                        &&& c < old(self).store()@.len()
                    },
            decreases p.len() - i,
        {
            let (entity_idx, comp_idx) = self.removals[i];
            assert(p[i as int] == (entity_idx, comp_idx));
            let ghost ents_before = entities@;
            match entities.get_mut(entity_idx) {
                Some(e) => {
                    proof {
                        e.lemma_len();
                    }
                    e.set_comp_idx(comp_type, None);
                },
                None => {},
            }
            let ghost store_before = self.store()@;
            let ghost stack_before = self.store().free_stack();
            self.components.free(comp_idx);
            proof {
                assert(slots.skip(i as int)[0] == comp_idx);
                assert(slots.skip(i as int).drop_first() =~= slots.skip(i + 1));
                assert(slots_after_frees(old(self).store()@, slots.take(i + 1)) =~= self.store()@)
                    by {
                    assert forall|k: int| 0 <= k < store_before.len() implies #[trigger] slots_after_frees(
                        old(self).store()@,
                        slots.take(i + 1),
                    )[k] == self.store()@[k] by {
                        if k == comp_idx {
                            assert(slots.take(i + 1)[i as int] == comp_idx);
                        } else if names(slots.take(i + 1), k) {
                            let t1 = slots.take(i + 1);
                            let w = choose|w: int| 0 <= w < t1.len() && #[trigger] t1[w] as int == k;
                            assert(slots.take(i as int)[w] as int == k);
                        } else {
                            assert forall|w: int| 0 <= w < i implies slots.take(i as int)[w] as int
                                != k by {
                                assert(slots.take(i + 1)[w] == slots.take(i as int)[w]);
                            }
                        }
                    }
                }
                assert(ents.take(i + 1)[i as int] == entity_idx);
                assert forall|j: int|
                    0 <= j < old(entities)@.len() && old(entities)@[j] is Some implies (
                    #[trigger] entities@[j]).unwrap()@ == if names(ents.take(i + 1), j) {
                        old(entities)@[j].unwrap()@.update(comp_type.index(), None)
                    } else {
                        old(entities)@[j].unwrap()@
                    } by {
                    if j == entity_idx {
                    } else if names(ents.take(i + 1), j) {
                        let t1 = ents.take(i + 1);
                        let w = choose|w: int| 0 <= w < t1.len() && #[trigger] t1[w] as int == j;
                        assert(ents.take(i as int)[w] as int == j);
                    } else {
                        assert forall|w: int| 0 <= w < i implies ents.take(i as int)[w] as int
                            != j by {
                            assert(ents.take(i + 1)[w] == ents.take(i as int)[w]);
                        }
                    }
                }
            }
            i = i + 1;
        }
        self.removals.clear();
        assert(slots.take(i as int) =~= slots);
        assert(ents.take(i as int) =~= ents);
        assert(slots.skip(i as int) =~= Seq::<usize>::empty());
    }
}

/// The kind at position `i` of the declaration order.
pub fn kind_at(i: usize) -> (k: ComponentType)
    requires
        i < NUM_COMPONENTS,
    ensures
        k.index() == i,
{
    match i {
        0 => ComponentType::Location,
        1 => ComponentType::Velocity,
        2 => ComponentType::Acceleration,
        3 => ComponentType::GameMode,
        4 => ComponentType::MenuMode,
        5 => ComponentType::State,
        6 => ComponentType::Player,
        7 => ComponentType::Size,
        8 => ComponentType::OldLocation,
        9 => ComponentType::Sprite,
        10 => ComponentType::Mass,
        11 => ComponentType::Target,
        12 => ComponentType::Solid,
        13 => ComponentType::Hole,
        14 => ComponentType::Switchable,
        _ => ComponentType::IntermissMode,
    }
}

/// The view of an entity with no components.
pub open spec fn blank_view() -> Seq<Option<usize>> {
    Seq::new(NUM_COMPONENTS as nat, |k: int| None::<usize>)
}

/// The component slots `v` of entity `j` once the removals scheduled in
/// `comps` for the kinds at positions below `n` are carried out.
pub open spec fn cleared_upto<P>(v: Seq<Option<usize>>, comps: Components<P>, j: int, n: int) -> Seq<
    Option<usize>,
> {
    Seq::new(
        v.len(),
        |k: int|
            if 0 <= k < n && names(removal_entities(comps.set_at(k).pending()), j) {
                None
            } else {
                v[k]
            },
    )
}

/// `post` is `pre` with the removals scheduled in `comps` for the kinds
/// below position `n` applied to the live entities.
pub open spec fn removals_applied<P>(
    pre: Seq<Option<Entity>>,
    post: Seq<Option<Entity>>,
    comps: Components<P>,
    n: int,
) -> bool {
    &&& post.len() == pre.len()
    &&& forall|j: int| 0 <= j < pre.len() ==> (#[trigger] post[j] is Some <==> pre[j] is Some)
    &&& forall|j: int|
        0 <= j < pre.len() && pre[j] is Some ==> (#[trigger] post[j]).unwrap()@ == cleared_upto(
            pre[j].unwrap()@,
            comps,
            j,
            n,
        )
}

/// One store of components per kind.
pub struct Components<P> {
    sets: Vec<ComponentSet<P>>,
}

impl<P> Components<P> {
    /// The store for the kind at position `k`.
    pub closed spec fn set_at(&self, k: int) -> ComponentSet<P> {
        self.sets@[k]
    }

    /// The store for kind `kind`.
    pub open spec fn set(&self, kind: ComponentType) -> ComponentSet<P> {
        self.set_at(kind.index())
    }

    pub closed spec fn wf(&self) -> bool {
        &&& self.sets@.len() == NUM_COMPONENTS
        &&& forall|k: int| 0 <= k < NUM_COMPONENTS ==> (#[trigger] self.sets@[k]).wf()
    }

    pub proof fn lemma_wf(&self)
        requires
            self.wf(),
        ensures
            forall|k: int| 0 <= k < NUM_COMPONENTS ==> (#[trigger] self.set_at(k)).wf(),
    {
    }

    pub fn new() -> (c: Components<P>)
        ensures
            c.wf(),
            forall|k: int|
                0 <= k < NUM_COMPONENTS ==> {
                    &&& (#[trigger] c.set_at(k)).store()@ == Seq::<Option<P>>::empty()
                    &&& c.set_at(k).store().free_stack() == Seq::<usize>::empty()
                    &&& c.set_at(k).pending() == Seq::<(usize, usize)>::empty()
                },
    {
        let mut sets: Vec<ComponentSet<P>> = Vec::new();
        let mut i: usize = 0;
        while i < NUM_COMPONENTS
            invariant
                i <= NUM_COMPONENTS,
                sets@.len() == i,
                forall|k: int|
                    0 <= k < i ==> {
                        &&& (#[trigger] sets@[k]).wf()
                        &&& sets@[k].store()@ == Seq::<Option<P>>::empty()
                        &&& sets@[k].store().free_stack() == Seq::<usize>::empty()
                        &&& sets@[k].pending() == Seq::<(usize, usize)>::empty()
                    },
            decreases NUM_COMPONENTS - i,
        {
            sets.push(ComponentSet::new());
            i = i + 1;
        }
        Components { sets }
    }

    /// Carries out every scheduled component removal, kind by kind in
    /// declaration order: each named entity loses its component of that
    /// kind and each named slot is freed.
    pub fn process_removals(&mut self, entities: &mut FreeList<Entity>)
        requires
            old(self).wf(),
            forall|k: int, i: int|
                0 <= k < NUM_COMPONENTS && 0 <= i < old(self).set_at(k).pending().len() ==> {
                    let (e, c) = #[trigger] old(self).set_at(k).pending()[i];
                    &&& e < old(entities)@.len()
                    &&& old(entities)@[e as int] is Some
                    &&& c < old(self).set_at(k).store()@.len()
                },
        ensures
            final(self).wf(),
            forall|k: int|
                0 <= k < NUM_COMPONENTS ==> {
                    &&& (#[trigger] final(self).set_at(k)).pending() == Seq::<(usize, usize)>::empty()
                    &&& final(self).set_at(k).store()@ == slots_after_frees(
                        old(self).set_at(k).store()@,
                        removal_slots(old(self).set_at(k).pending()),
                    )
                    &&& final(self).set_at(k).store().free_stack() == stack_after_frees(
                        old(self).set_at(k).store()@,
                        old(self).set_at(k).store().free_stack(),
                        removal_slots(old(self).set_at(k).pending()),
                    )
                },
            final(entities).free_stack() == old(entities).free_stack(),
            removals_applied(old(entities)@, final(entities)@, *old(self), NUM_COMPONENTS as int),
    {
        let mut i: usize = 0;
        proof {
            assert forall|j: int| 0 <= j < old(entities)@.len() && old(entities)@[j] is Some implies (
            #[trigger] entities@[j]).unwrap()@ == cleared_upto(old(entities)@[j].unwrap()@, *old(self), j, 0) by {
                assert(entities@[j].unwrap()@ =~= cleared_upto(old(entities)@[j].unwrap()@, *old(self), j, 0));
            }
        }
        while i < NUM_COMPONENTS
            invariant
                i <= NUM_COMPONENTS,
                self.wf(),
                entities.free_stack() == old(entities).free_stack(),
                removals_applied(old(entities)@, entities@, *old(self), i as int),
                forall|k: int|
                    0 <= k < i ==> {
                        &&& (#[trigger] self.set_at(k)).pending() == Seq::<(usize, usize)>::empty()
                        &&& self.set_at(k).store()@ == slots_after_frees(
                            old(self).set_at(k).store()@,
                            removal_slots(old(self).set_at(k).pending()),
                        )
                        &&& self.set_at(k).store().free_stack() == stack_after_frees(
                            old(self).set_at(k).store()@,
                            old(self).set_at(k).store().free_stack(),
                            removal_slots(old(self).set_at(k).pending()),
                        )
                    },
                forall|k: int| i <= k < NUM_COMPONENTS ==> #[trigger] self.set_at(k) == old(self).set_at(k),
                forall|k: int, n: int|
                    0 <= k < NUM_COMPONENTS && 0 <= n < old(self).set_at(k).pending().len() ==> {
                        let (e, c) = #[trigger] old(self).set_at(k).pending()[n];
                        &&& e < old(entities)@.len()
                        &&& old(entities)@[e as int] is Some
                        &&& c < old(self).set_at(k).store()@.len()
                    },
            decreases NUM_COMPONENTS - i,
        {
            let kind = kind_at(i);
            let ghost before = entities@;
            let ghost sets_before = self.sets@;
            proof {
                assert forall|k: int| i <= k < NUM_COMPONENTS implies sets_before[k] == old(self).set_at(k) by {
                    assert(self.set_at(k) == old(self).set_at(k));
                }
                assert forall|k: int| 0 <= k < i implies {
                    &&& (#[trigger] sets_before[k]).pending() == Seq::<(usize, usize)>::empty()
                    &&& sets_before[k].store()@ == slots_after_frees(
                        old(self).set_at(k).store()@,
                        removal_slots(old(self).set_at(k).pending()),
                    )
                    &&& sets_before[k].store().free_stack() == stack_after_frees(
                        old(self).set_at(k).store()@,
                        old(self).set_at(k).store().free_stack(),
                        removal_slots(old(self).set_at(k).pending()),
                    )
                } by {
                    assert(self.set_at(k) == sets_before[k]);
                }
                assert(self.sets@[i as int].wf());
                assert(self.set_at(i as int) == old(self).set_at(i as int));
                assert forall|n: int| 0 <= n < self.set_at(i as int).pending().len() implies {
                    let (e, c) = #[trigger] self.set_at(i as int).pending()[n];
                    &&& e < entities@.len()
                    &&& entities@[e as int] is Some
                    &&& c < self.set_at(i as int).store()@.len()
                } by {
                    let (e, c) = old(self).set_at(i as int).pending()[n];
                    assert(old(entities)@[e as int] is Some);
                    assert(entities@[e as int] is Some);
                }
            }
            self.sets[i].process_removals(kind, entities);
            proof {
                let ents_i = removal_entities(old(self).set_at(i as int).pending());
                assert forall|k2: int| 0 <= k2 < NUM_COMPONENTS && k2 != i implies #[trigger] self.sets@[k2]
                    == sets_before[k2] by {}
                assert forall|k2: int| 0 <= k2 < NUM_COMPONENTS implies (#[trigger] self.sets@[k2]).wf() by {
                    if k2 != i {
                        assert(self.sets@[k2] == sets_before[k2]);
                        assert(sets_before[k2].wf());
                    }
                }
                assert forall|k2: int| i + 1 <= k2 < NUM_COMPONENTS implies #[trigger] self.set_at(k2)
                    == old(self).set_at(k2) by {
                    assert(self.sets@[k2] == sets_before[k2]);
                    assert(sets_before[k2] == old(self).set_at(k2));
                }
                assert forall|k2: int| 0 <= k2 < i + 1 implies {
                    &&& (#[trigger] self.set_at(k2)).pending() == Seq::<(usize, usize)>::empty()
                    &&& self.set_at(k2).store()@ == slots_after_frees(
                        old(self).set_at(k2).store()@,
                        removal_slots(old(self).set_at(k2).pending()),
                    )
                    &&& self.set_at(k2).store().free_stack() == stack_after_frees(
                        old(self).set_at(k2).store()@,
                        old(self).set_at(k2).store().free_stack(),
                        removal_slots(old(self).set_at(k2).pending()),
                    )
                } by {
                    if k2 < i {
                        assert(self.sets@[k2] == sets_before[k2]);
                    } else {
                        assert(sets_before[k2] == old(self).set_at(k2));
                    }
                }
                assert forall|j: int| 0 <= j < old(entities)@.len() && old(entities)@[j] is Some implies (
                #[trigger] entities@[j]).unwrap()@ == cleared_upto(
                    old(entities)@[j].unwrap()@,
                    *old(self),
                    j,
                    i + 1,
                ) by {
                    assert(before[j] is Some);
                    assert(before[j].unwrap()@ == cleared_upto(old(entities)@[j].unwrap()@, *old(self), j, i as int));
                    assert(entities@[j].unwrap()@ =~= cleared_upto(old(entities)@[j].unwrap()@, *old(self), j, i + 1));
                }
                assert forall|j: int| 0 <= j < old(entities)@.len() implies (#[trigger] entities@[j] is Some
                    <==> old(entities)@[j] is Some) by {
                    assert(before[j] is Some <==> old(entities)@[j] is Some);
                }
            }
            i = i + 1;
        }
    }

    /// Gives entity `entity_idx` the component `comp` of kind `comp_type`
    /// and reports the entity as changed, unless it already has a component
    /// of that kind, in which case nothing changes and `comp` is dropped.
    pub fn add(&mut self, entity_idx: usize, comp_type: ComponentType, comp: P, entities: &mut Entities)
        requires
            consistent(*old(entities), *old(self)),
            old(entities).live(entity_idx as int),
        ensures
            consistent(*final(entities), *final(self)),
            old(entities).entity(entity_idx as int)[comp_type.index()] is Some ==> *final(entities)
                == *old(entities) && *final(self) == *old(self),
            old(entities).entity(entity_idx as int)[comp_type.index()] is None ==> {
                let c = final(entities).entity(entity_idx as int)[comp_type.index()].unwrap();
                &&& entity_gained(*old(entities), *final(entities), entity_idx as int, comp_type.index(), c)
                &&& push_post(old(self).set(comp_type).store(), final(self).set(comp_type).store(), comp, c)
                &&& final(self).set(comp_type).pending() == old(self).set(comp_type).pending()
                &&& forall|k2: int|
                    0 <= k2 < NUM_COMPONENTS && k2 != comp_type.index() ==> #[trigger] final(self).set_at(k2)
                        == old(self).set_at(k2)
            },
    {
        let present = entities.entities.get(entity_idx).unwrap().get_comp_idx(comp_type).is_some();
        if !present {
            let i = comp_type.as_uint();
            proof {
                assert(self.sets@[i as int].wf());
            }
            let c = self.sets[i].add(comp);
            let ghost mid = entities.entities@;
            match entities.entities.get_mut(entity_idx) {
                Some(e) => {
                    e.set_comp_idx(comp_type, Some(c));
                },
                None => {},
            }
            entities.changes.push(entity_idx);
            proof {
                assert forall|k2: int| 0 <= k2 < NUM_COMPONENTS implies (#[trigger] self.sets@[k2]).wf() by {
                    if k2 != i {
                        assert(self.sets@[k2] == old(self).sets@[k2]);
                    }
                }
                assert(entity_gained(*old(entities), *entities, entity_idx as int, i as int, c));
                lemma_gain_keeps_consistent(*old(entities), *old(self), *entities, *self, entity_idx as int, i as int, c, comp);
            }
        }
    }

    /// Schedules the removal of entity `entity_idx`'s component of kind
    /// `comp_type` for the next update and reports the entity as changed;
    /// nothing happens when it has no component of that kind.
    pub fn sched_remove(&mut self, entity_idx: usize, comp_type: ComponentType, entities: &mut Entities)
        requires
            consistent(*old(entities), *old(self)),
            old(entities).live(entity_idx as int),
        ensures
            consistent(*final(entities), *final(self)),
            removal_scheduled(*old(entities), *old(self), *final(entities), *final(self), entity_idx, comp_type),
    {
        let found = entities.entities.get(entity_idx).unwrap().get_comp_idx(comp_type);
        match found {
            Some(c) => {
                let i = comp_type.as_uint();
                self.sets[i].sched_remove(entity_idx, c);
                entities.changes.push(entity_idx);
                proof {
                    let k = i as int;
                    assert forall|k2: int| 0 <= k2 < NUM_COMPONENTS implies (#[trigger] self.sets@[k2]).wf() by {
                        if k2 != k {
                            assert(self.sets@[k2] == old(self).sets@[k2]);
                        }
                    }
                    assert forall|k2: int, n: int|
                        0 <= k2 < NUM_COMPONENTS && 0 <= n < self.set_at(k2).pending().len() implies {
                        let (e2, c2) = #[trigger] self.set_at(k2).pending()[n];
                        &&& entities.live(e2 as int)
                        &&& entities.entity(e2 as int)[k2] == Some(c2)
                    } by {
                        if k2 != k {
                            assert(self.set_at(k2) == old(self).set_at(k2));
                        } else if n < old(self).set_at(k2).pending().len() {
                            assert(self.set_at(k2).pending()[n] == old(self).set_at(k2).pending()[n]);
                        }
                    }
                    assert forall|n: int| 0 <= n < entities.changes().len() implies entities.live(
                        #[trigger] entities.changes()[n] as int,
                    ) by {
                        if n < old(entities).changes().len() {
                            assert(entities.changes()[n] == old(entities).changes()[n]);
                        }
                    }
                    assert(entities.table() == old(entities).table());
                    assert forall|n: int| 0 <= n < entities.removals().len() implies #[trigger] entities.removals()[n]
                        < entities.table()@.len() by {
                        assert(entities.removals()[n] == old(entities).removals()[n]);
                    }
                    assert forall|j1: int, j2: int, k2: int|
                        entities.live(j1) && entities.live(j2) && 0 <= k2 < NUM_COMPONENTS && (
                        #[trigger] entities.entity(j1)[k2]) is Some && entities.entity(j1)[k2] == (
                        #[trigger] entities.entity(j2)[k2]) implies j1 == j2 by {
                        assert(entities.entity(j1) == old(entities).entity(j1));
                        assert(entities.entity(j2) == old(entities).entity(j2));
                    }
                    assert forall|j: int, k2: int|
                        entities.live(j) && 0 <= k2 < NUM_COMPONENTS && (#[trigger] entities.entity(j)[k2]) is Some implies {
                        let c2 = entities.entity(j)[k2].unwrap();
                        &&& c2 < self.set_at(k2).store()@.len()
                        &&& self.set_at(k2).store()@[c2 as int] is Some
                    } by {
                        assert(entities.table() == old(entities).table());
                        assert(old(entities).live(j));
                        assert(entities.entity(j) == old(entities).entity(j));
                        assert(old(entities).entity(j)[k2] is Some);
                        if k2 != k {
                            assert(self.set_at(k2) == old(self).set_at(k2));
                        } else {
                            assert(self.set_at(k2).store() == old(self).set_at(k2).store());
                        }
                    }
                }
            },
            None => {},
        }
    }

    /// The component of kind `comp_type` in slot `comp_idx`.
    pub fn get(&self, comp_type: ComponentType, comp_idx: usize) -> (r: &P)
        requires
            self.wf(),
            comp_idx < self.set(comp_type).store()@.len(),
            self.set(comp_type).store()@[comp_idx as int] is Some,
        ensures
            *r == self.set(comp_type).store()@[comp_idx as int].unwrap(),
    {
        self.sets[comp_type.as_uint()].get(comp_idx)
    }

    /// Mutable access to the component of kind `comp_type` in slot
    /// `comp_idx`; no other slot and no other kind changes.
    pub fn get_mut(&mut self, comp_type: ComponentType, comp_idx: usize) -> (r: &mut P)
        requires
            old(self).wf(),
            comp_idx < old(self).set(comp_type).store()@.len(),
            old(self).set(comp_type).store()@[comp_idx as int] is Some,
        ensures
            final(self).wf(),
            *r == old(self).set(comp_type).store()@[comp_idx as int].unwrap(),
            final(self).set(comp_type).store()@ == old(self).set(comp_type).store()@.update(
                comp_idx as int,
                Some(*final(r)),
            ),
            final(self).set(comp_type).store().free_stack() == old(self).set(
                comp_type,
            ).store().free_stack(),
            final(self).set(comp_type).pending() == old(self).set(comp_type).pending(),
            forall|k: int|
                0 <= k < NUM_COMPONENTS && k != comp_type.index() ==> #[trigger] final(self).set_at(k)
                    == old(self).set_at(k),
    {
        let i = comp_type.as_uint();
        self.sets[i].get_mut(comp_idx)
    }
}

/// The entity table, with the entities whose components changed and the
/// entities scheduled for removal since the last update.
pub struct Entities {
    entities: FreeList<Entity>,
    changes: Vec<usize>,
    removals: Vec<usize>,
}

impl Entities {
    pub closed spec fn table(&self) -> FreeList<Entity> {
        self.entities
    }

    /// Entities whose set of components changed, in the order reported.
    pub closed spec fn changes(&self) -> Seq<usize> {
        self.changes@
    }

    /// Entities scheduled for removal, in the order scheduled.
    pub closed spec fn removals(&self) -> Seq<usize> {
        self.removals@
    }

    /// Whether slot `idx` holds a live entity.
    pub open spec fn live(&self, idx: int) -> bool {
        0 <= idx < self.table()@.len() && self.table()@[idx] is Some
    }

    /// The view of the live entity in slot `idx`.
    pub open spec fn entity(&self, idx: int) -> Seq<Option<usize>> {
        self.table()@[idx].unwrap()@
    }

    pub fn new() -> (e: Entities)
        ensures
            e.table().wf(),
            e.table()@ == Seq::<Option<Entity>>::empty(),
            e.table().free_stack() == Seq::<usize>::empty(),
            e.changes() == Seq::<usize>::empty(),
            e.removals() == Seq::<usize>::empty(),
    {
        Entities { entities: FreeList::new(), changes: Vec::new(), removals: Vec::new() }
    }

    /// Adds an entity with no components and reports it as changed.
    pub fn add(&mut self) -> (idx: usize)
        requires
            old(self).table().wf(),
        ensures
            final(self).table().wf(),
            push_post(old(self).table(), final(self).table(), final(self).table()@[idx as int].unwrap(), idx),
            final(self).entity(idx as int) == blank_view(),
            final(self).changes() == old(self).changes().push(idx),
            final(self).removals() == old(self).removals(),
    {
        let ent = Entity::new();
        proof {
            ent.lemma_len();
            assert(ent@ =~= blank_view()) by {
                assert forall|k: int| 0 <= k < NUM_COMPONENTS implies ent@[k] is None by {
                    let kind = kind_at_spec(k);
                    assert(ent.comp(kind) is None);
                }
            }
        }
        let idx = self.entities.push(ent);
        proof {
            crate::free_list::law_push_then_get(old(self).table(), self.table(), ent, idx);
        }
        self.changes.push(idx);
        idx
    }

    /// Schedules entity `idx` for removal at the next update.
    pub fn sched_remove(&mut self, idx: usize)
        ensures
            final(self).table() == old(self).table(),
            final(self).changes() == old(self).changes(),
            final(self).removals() == old(self).removals().push(idx),
    {
        self.removals.push(idx);
    }

    /// Carries out the scheduled component removals, then hands back the
    /// entities reported as changed, in order, and forgets them.
    pub fn process_changes<P>(&mut self, components: &mut Components<P>) -> (changed: Vec<usize>)
        requires
            consistent(*old(self), *old(components)),
        ensures
            consistent(*final(self), *final(components)),
            changed@ == old(self).changes(),
            final(self).changes() == Seq::<usize>::empty(),
            final(self).removals() == old(self).removals(),
            final(self).table().free_stack() == old(self).table().free_stack(),
            removals_applied(old(self).table()@, final(self).table()@, *old(components), NUM_COMPONENTS as int),
            forall|k: int|
                0 <= k < NUM_COMPONENTS ==> {
                    &&& (#[trigger] final(components).set_at(k)).pending() == Seq::<(usize, usize)>::empty()
                    &&& final(components).set_at(k).store()@ == slots_after_frees(
                        old(components).set_at(k).store()@,
                        removal_slots(old(components).set_at(k).pending()),
                    )
                    &&& final(components).set_at(k).store().free_stack() == stack_after_frees(
                        old(components).set_at(k).store()@,
                        old(components).set_at(k).store().free_stack(),
                        removal_slots(old(components).set_at(k).pending()),
                    )
                },
    {
        proof {
            assert forall|k: int, i: int|
                0 <= k < NUM_COMPONENTS && 0 <= i < components.set_at(k).pending().len() implies {
                let (e, c) = #[trigger] components.set_at(k).pending()[i];
                &&& e < self.entities@.len()
                &&& self.entities@[e as int] is Some
                &&& c < components.set_at(k).store()@.len()
            } by {
                let (e, c) = components.set_at(k).pending()[i];
                assert(self.live(e as int));
                self.entities@[e as int].unwrap().lemma_len();
                assert(self.entity(e as int)[k] == Some(c));
            }
        }
        components.process_removals(&mut self.entities);
        let mut changed: Vec<usize> = Vec::new();
        std::mem::swap(&mut changed, &mut self.changes);
        proof {
            components.lemma_wf();
            lemma_removals_keep_consistent(*old(self), *old(components), *self, *components);
        }
        changed
    }

    /// Frees the entities scheduled for removal, in order, and hands them
    /// back; the schedule is then empty.
    pub fn process_removals(&mut self) -> (removed: Vec<usize>)
        requires
            old(self).table().wf(),
            forall|i: int| 0 <= i < old(self).removals().len() ==> #[trigger] old(self).removals()[i] < old(self).table()@.len(),
        ensures
            final(self).table().wf(),
            removed@ == old(self).removals(),
            final(self).removals() == Seq::<usize>::empty(),
            final(self).changes() == old(self).changes(),
            final(self).table()@ == slots_after_frees(old(self).table()@, old(self).removals()),
            final(self).table().free_stack() == stack_after_frees(
                old(self).table()@,
                old(self).table().free_stack(),
                old(self).removals(),
            ),
    {
        let mut removed: Vec<usize> = Vec::new();
        std::mem::swap(&mut removed, &mut self.removals);
        let ghost r = removed@;
        let mut i: usize = 0;
        proof {
            assert(slots_after_frees(old(self).table()@, r.take(0)) =~= old(self).table()@);
            assert(r.skip(0) =~= r);
            assert forall|n: int| 0 <= n < r.len() implies #[trigger] r[n] < old(self).table()@.len() by {
                assert(old(self).removals()[n] == r[n]);
            }
        }
        while i < removed.len()
            invariant
                i <= r.len(),
                removed@ == r,
                r == old(self).removals(),
                self.removals() == Seq::<usize>::empty(),
                self.changes() == old(self).changes(),
                self.table().wf(),
                self.table()@ == slots_after_frees(old(self).table()@, r.take(i as int)),
                stack_after_frees(self.table()@, self.table().free_stack(), r.skip(i as int))
                    == stack_after_frees(old(self).table()@, old(self).table().free_stack(), r),
                forall|n: int| 0 <= n < r.len() ==> #[trigger] r[n] < old(self).table()@.len(),
            decreases r.len() - i,
        {
            let idx = removed[i];
            let ghost before = self.table()@;
            self.entities.free(idx);
            proof {
                assert(r.skip(i as int)[0] == idx);
                assert(r.skip(i as int).drop_first() =~= r.skip(i + 1));
                let t1 = r.take(i + 1);
                let t0 = r.take(i as int);
                assert(t1[i as int] == idx);
                assert forall|k: int| 0 <= k < before.len() implies #[trigger] slots_after_frees(
                    old(self).table()@,
                    t1,
                )[k] == self.table()@[k] by {
                    if k == idx {
                    } else if names(t1, k) {
                        let w = choose|w: int| 0 <= w < t1.len() && #[trigger] t1[w] as int == k;
                        assert(t0[w] as int == k);
                    } else {
                        assert forall|w: int| 0 <= w < i implies t0[w] as int != k by {
                            assert(t1[w] == t0[w]);
                        }
                    }
                }
                assert(slots_after_frees(old(self).table()@, t1) =~= self.table()@);
            }
            i = i + 1;
        }
        proof {
            assert(r.take(i as int) =~= r);
            assert(r.skip(i as int) =~= Seq::<usize>::empty());
        }
        removed
    }

    /// The number of slots of the entity table, live or not.
    pub fn table_len(&self) -> (n: usize)
        ensures
            n == self.table()@.len(),
    {
        self.entities.items_len()
    }

    /// Whether slot `idx` holds a live entity.
    pub fn is_live(&self, idx: usize) -> (b: bool)
        ensures
            b == self.live(idx as int),
    {
        idx < self.entities.items_len() && self.entities.get(idx).is_some()
    }

    /// The live entity in slot `entity_idx`.
    pub fn get(&self, entity_idx: usize) -> (e: &Entity)
        requires
            self.live(entity_idx as int),
        ensures
            *e == self.table()@[entity_idx as int].unwrap(),
    {
        self.entities.get(entity_idx).unwrap()
    }
}

/// What scheduling the removal of entity `entity_idx`'s component of kind
/// `comp_type` does: when it has one, the removal is queued in that
/// kind's store and the entity reported as changed, and nothing else
/// changes; when it has none, nothing changes at all.
pub open spec fn removal_scheduled<P>(
    pre_e: Entities,
    pre_c: Components<P>,
    post_e: Entities,
    post_c: Components<P>,
    entity_idx: usize,
    comp_type: ComponentType,
) -> bool {
    &&& pre_e.entity(entity_idx as int)[comp_type.index()] is None ==> post_e == pre_e && post_c == pre_c
    &&& pre_e.entity(entity_idx as int)[comp_type.index()] is Some ==> {
        let c = pre_e.entity(entity_idx as int)[comp_type.index()].unwrap();
        &&& post_e.table() == pre_e.table()
        &&& post_e.changes() == pre_e.changes().push(entity_idx)
        &&& post_e.removals() == pre_e.removals()
        &&& post_c.set(comp_type).store() == pre_c.set(comp_type).store()
        &&& post_c.set(comp_type).pending() == pre_c.set(comp_type).pending().push((entity_idx, c))
        &&& forall|k2: int|
            0 <= k2 < NUM_COMPONENTS && k2 != comp_type.index() ==> #[trigger] post_c.set_at(k2) == pre_c.set_at(k2)
    }
}


/// How the entity table and the component stores fit together:
/// every component slot a live entity names is occupied, no two live
/// entities name the same slot of one kind, every scheduled component
/// removal names a live entity and the slot it holds, every reported change
/// names a live entity, and every scheduled entity removal names a slot of
/// the table.
pub open spec fn consistent<P>(ents: Entities, comps: Components<P>) -> bool {
    &&& ents.table().wf()
    &&& comps.wf()
    &&& forall|j: int, k: int|
        ents.live(j) && 0 <= k < NUM_COMPONENTS && (#[trigger] ents.entity(j)[k]) is Some ==> {
            let c = ents.entity(j)[k].unwrap();
            &&& c < comps.set_at(k).store()@.len()
            &&& comps.set_at(k).store()@[c as int] is Some
        }
    &&& forall|j1: int, j2: int, k: int|
        ents.live(j1) && ents.live(j2) && 0 <= k < NUM_COMPONENTS && (
        #[trigger] ents.entity(j1)[k]) is Some && ents.entity(j1)[k] == (#[trigger] ents.entity(
            j2,
        )[k]) ==> j1 == j2
    &&& forall|k: int, i: int|
        0 <= k < NUM_COMPONENTS && 0 <= i < comps.set_at(k).pending().len() ==> {
            let (e, c) = #[trigger] comps.set_at(k).pending()[i];
            &&& ents.live(e as int)
            &&& ents.entity(e as int)[k] == Some(c)
        }
    &&& forall|i: int|
        0 <= i < ents.changes().len() ==> ents.live(#[trigger] ents.changes()[i] as int)
    &&& forall|i: int|
        0 <= i < ents.removals().len() ==> #[trigger] ents.removals()[i] < ents.table()@.len()
}

/// `post` is `pre` with entity `e` naming slot `c` for the kind at position
/// `k`, and `e` reported as changed; nothing else differs.
pub open spec fn entity_gained(pre: Entities, post: Entities, e: int, k: int, c: usize) -> bool {
    &&& post.table()@.len() == pre.table()@.len()
    &&& post.table().free_stack() == pre.table().free_stack()
    &&& forall|j: int| 0 <= j < pre.table()@.len() && j != e ==> #[trigger] post.table()@[j] == pre.table()@[j]
    &&& post.live(e)
    &&& post.entity(e) == pre.entity(e).update(k, Some(c))
    &&& post.changes() == pre.changes().push(e as usize)
    &&& post.removals() == pre.removals()
}

proof fn lemma_gain_keeps_consistent<P>(
    pre_e: Entities,
    pre_c: Components<P>,
    post_e: Entities,
    post_c: Components<P>,
    e: int,
    k: int,
    c: usize,
    comp: P,
)
    requires
        consistent(pre_e, pre_c),
        pre_e.live(e),
        e <= usize::MAX,
        0 <= k < NUM_COMPONENTS,
        pre_e.entity(e)[k] is None,
        post_e.table().wf(),
        post_c.wf(),
        entity_gained(pre_e, post_e, e, k, c),
        push_post(pre_c.set_at(k).store(), post_c.set_at(k).store(), comp, c),
        post_c.set_at(k).pending() == pre_c.set_at(k).pending(),
        forall|k2: int| 0 <= k2 < NUM_COMPONENTS && k2 != k ==> #[trigger] post_c.set_at(k2) == pre_c.set_at(k2),
    ensures
        consistent(post_e, post_c),
{
    let pre_store = pre_c.set_at(k).store();
    let post_store = post_c.set_at(k).store();
    crate::free_list::law_push_then_get(pre_store, post_store, comp, c);
    assert forall|j: int|
        pre_e.live(j) && j != e implies post_e.live(j) && post_e.entity(j) == pre_e.entity(j) by {
        assert(post_e.table()@[j] == pre_e.table()@[j]);
    }
    // A slot another live entity names is occupied, so it is not the new one.
    assert forall|j: int|
        pre_e.live(j) && (#[trigger] pre_e.entity(j)[k]) is Some implies pre_e.entity(j)[k].unwrap()
        != c by {
        let c2 = pre_e.entity(j)[k].unwrap();
        assert(c2 < pre_store@.len() && pre_store@[c2 as int] is Some);
    }
    assert forall|j: int, k2: int|
        post_e.live(j) && 0 <= k2 < NUM_COMPONENTS && (#[trigger] post_e.entity(j)[k2]) is Some implies {
        let c2 = post_e.entity(j)[k2].unwrap();
        &&& c2 < post_c.set_at(k2).store()@.len()
        &&& post_c.set_at(k2).store()@[c2 as int] is Some
    } by {
        if j == e && k2 == k {
        } else if k2 == k {
            assert(pre_e.live(j));
            assert(post_e.entity(j)[k2] == pre_e.entity(j)[k2]);
        } else {
            if j != e {
                assert(pre_e.live(j));
            }
            assert(post_e.entity(j)[k2] == pre_e.entity(j)[k2]);
            assert(post_c.set_at(k2) == pre_c.set_at(k2));
        }
    }
    assert forall|j1: int, j2: int, k2: int|
        post_e.live(j1) && post_e.live(j2) && 0 <= k2 < NUM_COMPONENTS && (
        #[trigger] post_e.entity(j1)[k2]) is Some && post_e.entity(j1)[k2] == (
        #[trigger] post_e.entity(j2)[k2]) implies j1 == j2 by {
        if j1 != e {
            assert(pre_e.live(j1));
        }
        if j2 != e {
            assert(pre_e.live(j2));
        }
        if k2 == k && j1 == e && j2 != e {
            assert(pre_e.entity(j2)[k] is Some);
        } else if k2 == k && j2 == e && j1 != e {
            assert(pre_e.entity(j1)[k] is Some);
        } else if j1 != e && j2 != e {
            assert(pre_e.entity(j1)[k2] == post_e.entity(j1)[k2]);
            assert(pre_e.entity(j2)[k2] == post_e.entity(j2)[k2]);
        } else if j1 == e && j2 == e {
        } else {
            assert(post_e.entity(e)[k2] == pre_e.entity(e)[k2]);
            if j1 == e {
                assert(pre_e.entity(j2)[k2] == post_e.entity(j2)[k2]);
            } else {
                assert(pre_e.entity(j1)[k2] == post_e.entity(j1)[k2]);
            }
        }
    }
    assert forall|k2: int, i: int|
        0 <= k2 < NUM_COMPONENTS && 0 <= i < post_c.set_at(k2).pending().len() implies {
        let (e2, c2) = #[trigger] post_c.set_at(k2).pending()[i];
        &&& post_e.live(e2 as int)
        &&& post_e.entity(e2 as int)[k2] == Some(c2)
    } by {
        if k2 != k {
            assert(post_c.set_at(k2) == pre_c.set_at(k2));
        }
        let (e2, c2) = pre_c.set_at(k2).pending()[i];
        assert(pre_e.live(e2 as int));
        assert(pre_e.entity(e2 as int)[k2] == Some(c2));
        if e2 != e {
            assert(post_e.entity(e2 as int) == pre_e.entity(e2 as int));
        }
    }
    assert forall|i: int| 0 <= i < post_e.changes().len() implies post_e.live(
        #[trigger] post_e.changes()[i] as int,
    ) by {
        if i < pre_e.changes().len() {
            let x = pre_e.changes()[i] as int;
            assert(pre_e.changes()[i] == post_e.changes()[i]);
            assert(pre_e.live(x));
            if x != e {
                assert(post_e.table()@[x] == pre_e.table()@[x]);
            }
        }
    }
    assert forall|i: int| 0 <= i < post_e.removals().len() implies #[trigger] post_e.removals()[i]
        < post_e.table()@.len() by {
        assert(pre_e.removals()[i] == post_e.removals()[i]);
    }
}

proof fn lemma_removals_keep_consistent<P>(
    pre_e: Entities,
    pre_c: Components<P>,
    post_e: Entities,
    post_c: Components<P>,
)
    requires
        consistent(pre_e, pre_c),
        post_e.table().wf(),
        post_c.wf(),
        post_e.table().free_stack() == pre_e.table().free_stack(),
        removals_applied(pre_e.table()@, post_e.table()@, pre_c, NUM_COMPONENTS as int),
        post_e.changes() == Seq::<usize>::empty(),
        post_e.removals() == pre_e.removals(),
        forall|k: int|
            0 <= k < NUM_COMPONENTS ==> {
                &&& (#[trigger] post_c.set_at(k)).pending() == Seq::<(usize, usize)>::empty()
                &&& post_c.set_at(k).store()@ == slots_after_frees(
                    pre_c.set_at(k).store()@,
                    removal_slots(pre_c.set_at(k).pending()),
                )
            },
    ensures
        consistent(post_e, post_c),
{
    assert forall|j: int| #[trigger] post_e.live(j) implies pre_e.live(j) && post_e.entity(j) == cleared_upto(
        pre_e.entity(j),
        pre_c,
        j,
        NUM_COMPONENTS as int,
    ) by {
        assert(post_e.table()@[j] is Some <==> pre_e.table()@[j] is Some);
    }
    assert forall|j: int, k: int|
        post_e.live(j) && 0 <= k < NUM_COMPONENTS && (#[trigger] post_e.entity(j)[k]) is Some implies {
        let c = post_e.entity(j)[k].unwrap();
        &&& c < post_c.set_at(k).store()@.len()
        &&& post_c.set_at(k).store()@[c as int] is Some
    } by {
        assert(pre_e.live(j));
        pre_e.table()@[j].unwrap().lemma_len();
        let c = post_e.entity(j)[k].unwrap();
        assert(pre_e.entity(j)[k] == Some(c));
        assert(!names(removal_entities(pre_c.set_at(k).pending()), j));
        let p = pre_c.set_at(k).pending();
        if names(removal_slots(p), c as int) {
            let w = choose|w: int| 0 <= w < removal_slots(p).len() && removal_slots(p)[w] as int == c as int;
            let (e2, c2) = p[w];
            assert(pre_e.live(e2 as int));
            assert(pre_e.entity(e2 as int)[k] == Some(c2));
            assert(removal_entities(p)[w] == e2);
        }
    }
    assert forall|j1: int, j2: int, k: int|
        post_e.live(j1) && post_e.live(j2) && 0 <= k < NUM_COMPONENTS && (
        #[trigger] post_e.entity(j1)[k]) is Some && post_e.entity(j1)[k] == (
        #[trigger] post_e.entity(j2)[k]) implies j1 == j2 by {
        pre_e.table()@[j1].unwrap().lemma_len();
        pre_e.table()@[j2].unwrap().lemma_len();
        assert(pre_e.entity(j1)[k] == post_e.entity(j1)[k]);
        assert(pre_e.entity(j2)[k] == post_e.entity(j2)[k]);
    }
    assert forall|i: int| 0 <= i < post_e.removals().len() implies #[trigger] post_e.removals()[i]
        < post_e.table()@.len() by {
        assert(pre_e.removals()[i] == post_e.removals()[i]);
    }
}

/// The kind at position `k`, for `0 <= k < NUM_COMPONENTS`.
pub open spec fn kind_at_spec(k: int) -> ComponentType {
    if k == 0 {
        ComponentType::Location
    } else if k == 1 {
        ComponentType::Velocity
    } else if k == 2 {
        ComponentType::Acceleration
    } else if k == 3 {
        ComponentType::GameMode
    } else if k == 4 {
        ComponentType::MenuMode
    } else if k == 5 {
        ComponentType::State
    } else if k == 6 {
        ComponentType::Player
    } else if k == 7 {
        ComponentType::Size
    } else if k == 8 {
        ComponentType::OldLocation
    } else if k == 9 {
        ComponentType::Sprite
    } else if k == 10 {
        ComponentType::Mass
    } else if k == 11 {
        ComponentType::Target
    } else if k == 12 {
        ComponentType::Solid
    } else if k == 13 {
        ComponentType::Hole
    } else if k == 14 {
        ComponentType::Switchable
    } else {
        ComponentType::IntermissMode
    }
}

} // verus!
