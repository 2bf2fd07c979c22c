//! The world: entities, their components, and the systems that track them.

use vstd::prelude::*;
use crate::free_list::names;
use crate::free_list::push_post;
use crate::free_list::slots_after_frees;
use crate::free_list::stack_after_frees;
use crate::free_list::lemma_stack_after_frees_occupancy;
use crate::ces::{Entities, Entity, Components, consistent, cleared_upto, removal_slots, blank_view, entity_gained};
use crate::ces::components::{ComponentType, NUM_COMPONENTS};
use crate::ces::system::{System, Track, tracks_after_change, tracks_after_changes, tracks_after_removal, tracks_after_removals};

verus! {

/// The per-frame work of the systems, supplied by the program: it is run
/// once for each system, in order, at the end of every update. It gets the
/// system, the entity table and the component stores, and hands back the
/// table and stores, changed only through their own methods, which keep the
/// two consistent.
pub trait SystemWork<P, S> {
    fn update(&self, system: &S, entities: Entities, components: Components<P>) -> (r: (Entities, Components<P>))
        requires
            consistent(entities, components),
        ensures
            consistent(r.0, r.1),
    ;
}

pub struct World<P, S> {
    entities: Entities,
    components: Components<P>,
    systems: Vec<S>,
}

impl<P, S: System> World<P, S> {
    pub closed spec fn ents(&self) -> Entities {
        self.entities
    }

    pub closed spec fn comps(&self) -> Components<P> {
        self.components
    }

    /// The systems, in the order they were added.
    pub closed spec fn system_list(&self) -> Seq<S> {
        self.systems@
    }

    pub open spec fn wf(&self) -> bool {
        consistent(self.ents(), self.comps())
    }

    /// The entity table and the component stores.
    pub open spec fn parts(&self) -> (Entities, Components<P>) {
        (self.ents(), self.comps())
    }

    /// The component slots of entity `x` once the scheduled component
    /// removals are carried out.
    pub open spec fn view_after_removals(&self) -> spec_fn(usize) -> Seq<Option<usize>> {
        |x: usize| cleared_upto(self.ents().entity(x as int), self.comps(), x as int, NUM_COMPONENTS as int)
    }

    pub fn new() -> (w: World<P, S>)
        ensures
            w.wf(),
            w.ents().table()@ == Seq::<Option<Entity>>::empty(),
            w.ents().table().free_stack() == Seq::<usize>::empty(),
            w.ents().changes() == Seq::<usize>::empty(),
            w.ents().removals() == Seq::<usize>::empty(),
            w.system_list() == Seq::<S>::empty(),
            forall|k: int|
                0 <= k < NUM_COMPONENTS ==> {
                    &&& (#[trigger] w.comps().set_at(k)).store()@ == Seq::<Option<P>>::empty()
                    &&& w.comps().set_at(k).store().free_stack() == Seq::<usize>::empty()
                    &&& w.comps().set_at(k).pending() == Seq::<(usize, usize)>::empty()
                },
    {
        World { entities: Entities::new(), components: Components::new(), systems: Vec::new() }
    }

    /// Adds a system; it hears of every change and removal from now on.
    pub fn add_system(&mut self, sys: S)
        ensures
            final(self).ents() == old(self).ents(),
            final(self).comps() == old(self).comps(),
            final(self).system_list() == old(self).system_list().push(sys),
    {
        self.systems.push(sys);
    }

    /// Adds an entity with no components; systems hear of it at the next
    /// update.
    pub fn add_entity(&mut self) -> (idx: usize)
        requires
            old(self).wf(),
        ensures
            final(self).wf(),
            final(self).ents().live(idx as int),
            final(self).ents().entity(idx as int) == blank_view(),
            !old(self).ents().live(idx as int),
            final(self).ents().table()@.len() >= old(self).ents().table()@.len(),
            old(self).ents().table().free_stack().len() > 0 ==> idx == old(self).ents().table().free_stack().last(),
            old(self).ents().table().free_stack().len() == 0 ==> idx == old(self).ents().table()@.len(),
            forall|j: int| 0 <= j < old(self).ents().table()@.len() && j != idx ==> #[trigger] final(self).ents().table()@[j] == old(self).ents().table()@[j],
            final(self).ents().changes() == old(self).ents().changes().push(idx),
            final(self).ents().removals() == old(self).ents().removals(),
            final(self).comps() == old(self).comps(),
            final(self).system_list() == old(self).system_list(),
    {
        let idx = self.entities.add();
        proof {
            let pre = old(self).ents();
            let post = self.ents();
            crate::free_list::law_push_then_get(pre.table(), post.table(), post.table()@[idx as int].unwrap(), idx);
            assert forall|j: int| #[trigger] post.live(j) && j != idx implies pre.live(j) && post.entity(j) == pre.entity(j) by {
                assert(post.table()@[j] == pre.table()@[j]);
            }
            assert forall|j: int| #[trigger] pre.live(j) implies post.live(j) by {
                if j != idx {
                    assert(post.table()@[j] == pre.table()@[j]);
                }
            }
            assert forall|i: int| 0 <= i < post.removals().len() implies #[trigger] post.removals()[i] < post.table()@.len() by {
                assert(post.removals()[i] == pre.removals()[i]);
            }
            lemma_table_change_keeps_consistent(pre, post, self.comps(), idx as int);
        }
        idx
    }

    /// Schedules entity `entity_idx` for removal at the next update.
    pub fn sched_remove_entity(&mut self, entity_idx: usize)
        requires
            old(self).wf(),
            entity_idx < old(self).ents().table()@.len(),
        ensures
            final(self).wf(),
            final(self).ents().table() == old(self).ents().table(),
            final(self).ents().changes() == old(self).ents().changes(),
            final(self).ents().removals() == old(self).ents().removals().push(entity_idx),
            final(self).comps() == old(self).comps(),
            final(self).system_list() == old(self).system_list(),
    {
        self.entities.sched_remove(entity_idx);
        proof {
            let pre = old(self).ents();
            let post = self.ents();
            assert forall|i: int| 0 <= i < post.removals().len() implies #[trigger] post.removals()[i] < post.table()@.len() by {
                if i < pre.removals().len() {
                    assert(post.removals()[i] == pre.removals()[i]);
                }
            }
            lemma_table_change_keeps_consistent(pre, post, self.comps(), -1);
        }
    }

    /// Gives entity `entity_idx` the component `comp` of kind `comp_type`,
    /// unless it already has one of that kind.
    pub fn add_component(&mut self, entity_idx: usize, comp_type: ComponentType, comp: P)
        requires
            old(self).wf(),
            old(self).ents().live(entity_idx as int),
        ensures
            final(self).wf(),
            add_component_post(*old(self), *final(self), entity_idx, comp_type, comp),
    {
        self.components.add(entity_idx, comp_type, comp, &mut self.entities);
    }

    /// Schedules the removal of entity `entity_idx`'s component of kind
    /// `comp_type` for the next update.
    pub fn sched_remove_component(&mut self, entity_idx: usize, comp_type: ComponentType)
        requires
            old(self).wf(),
            old(self).ents().live(entity_idx as int),
        ensures
            final(self).wf(),
            sched_remove_component_post(*old(self), *final(self), entity_idx, comp_type),
    {
        self.components.sched_remove(entity_idx, comp_type, &mut self.entities);
    }

    /// Adds an entity made of `parts`: a component for each part, added in
    /// order, so that of two parts of one kind the first is kept. Systems
    /// hear of the entity at the next update.
    pub fn create_body(&mut self, parts: Vec<(ComponentType, P)>) -> (idx: usize)
        requires
            old(self).wf(),
        ensures
            final(self).wf(),
            !old(self).ents().live(idx as int),
            final(self).ents().live(idx as int),
            final(self).ents().table()@.len() >= old(self).ents().table()@.len(),
            forall|k: int|
                0 <= k < NUM_COMPONENTS ==> ((#[trigger] final(self).ents().entity(idx as int)[k]) is Some
                    <==> has_part(parts@, k)),
            forall|k: int|
                0 <= k < NUM_COMPONENTS && !has_part(parts@, k) ==> #[trigger] final(self).comps().set_at(k)
                    == old(self).comps().set_at(k),
            forall|k: int, c: int|
                0 <= k < NUM_COMPONENTS && 0 <= c < old(self).comps().set_at(k).store()@.len()
                    && old(self).comps().set_at(k).store()@[c] is Some ==> #[trigger] final(self).comps().set_at(
                    k,
                ).store()@[c] == old(self).comps().set_at(k).store()@[c],
            forall|i: int|
                0 <= i < parts@.len() && first_of_kind(parts@, i) ==> holds_part(
                    *final(self),
                    idx,
                    (#[trigger] parts@[i]).0,
                    parts@[i].1,
                ),
            old(self).ents().table().free_stack().len() > 0 ==> idx == old(self).ents().table().free_stack().last(),
            old(self).ents().table().free_stack().len() == 0 ==> idx == old(self).ents().table()@.len(),
            forall|j: int|
                0 <= j < old(self).ents().table()@.len() && j != idx ==> #[trigger] final(self).ents().table()@[j]
                    == old(self).ents().table()@[j],
            final(self).system_list() == old(self).system_list(),
    {
        let ghost orig = parts@;
        let mut rest = parts;
        let idx = self.add_entity();
        let ghost mid = *self;
        while rest.len() > 0
            invariant
                self.wf(),
                self.ents().live(idx as int),
                0 <= orig.len() - rest@.len() <= orig.len(),
                rest@ == orig.skip(orig.len() - rest@.len()),
                forall|k: int|
                    0 <= k < NUM_COMPONENTS ==> ((#[trigger] self.ents().entity(idx as int)[k]) is Some
                        <==> has_part(orig.take(orig.len() - rest@.len()), k)),
                forall|i: int|
                    0 <= i < orig.len() - rest@.len() && first_of_kind(orig, i) ==> holds_part(
                        *self,
                        idx,
                        (#[trigger] orig[i]).0,
                        orig[i].1,
                    ),
                self.ents().table()@.len() == mid.ents().table()@.len(),
                forall|j: int|
                    0 <= j < mid.ents().table()@.len() && j != idx ==> #[trigger] self.ents().table()@[j]
                        == mid.ents().table()@[j],
                self.system_list() == mid.system_list(),
                forall|k: int|
                    0 <= k < NUM_COMPONENTS && !has_part(orig.take(orig.len() - rest@.len()), k)
                        ==> #[trigger] self.comps().set_at(k) == old(self).comps().set_at(k),
                forall|k: int, c: int|
                    0 <= k < NUM_COMPONENTS && 0 <= c < old(self).comps().set_at(k).store()@.len()
                        && old(self).comps().set_at(k).store()@[c] is Some ==> #[trigger] self.comps().set_at(
                        k,
                    ).store()@[c] == old(self).comps().set_at(k).store()@[c],
            decreases rest@.len(),
        {
            let ghost pre = *self;
            let ghost n = orig.len() - rest@.len();
            let (kind, comp) = rest.remove(0);
            proof {
                assert(orig[n] == (kind, comp));
                assert(rest@ =~= orig.skip(n + 1));
            }
            self.add_component(idx, kind, comp);
            proof {
                let post = *self;
                pre.comps().lemma_wf();
                assert(pre.comps().set_at(kind.index()).wf());
                lemma_occupied_kept(pre, post, idx, kind, comp);
                assert forall|k: int| 0 <= k < NUM_COMPONENTS implies ((#[trigger] post.ents().entity(idx as int)[k])
                    is Some <==> has_part(orig.take(n + 1), k)) by {
                    lemma_body_kind(pre, post, orig, n, idx, kind, comp, k);
                }
                assert forall|i: int| 0 <= i < n + 1 && first_of_kind(orig, i) implies holds_part(
                    post,
                    idx,
                    (#[trigger] orig[i]).0,
                    orig[i].1,
                ) by {
                    if i < n {
                        assert(orig.take(n)[i] == orig[i]);
                        assert(pre.ents().entity(idx as int)[orig[i].0.index()] is Some);
                    }
                    lemma_body_part(pre, post, orig, n, idx, kind, comp, i);
                }
            }
        }
        proof {
            assert(orig.take(orig.len() as int) =~= orig);
        }
        idx
    }

    /// One step of the simulation, as `update` runs it: first the
    /// bookkeeping (`process_pending`), then each system's own per-frame
    /// work, once per system, in the order the systems were added. Returns
    /// the world after each stage: first as the systems received it, after
    /// the bookkeeping; then after the work of each system in turn, each
    /// produced by `work` from the one before; the last is the final world.
    pub fn update<W: SystemWork<P, S>>(&mut self, work: &W) -> (stages: Ghost<Seq<World<P, S>>>)
        requires
            old(self).wf(),
        ensures
            stages@.len() == stages@[0].system_list().len() + 1,
            update_post(*old(self), stages@[0]),
            stages@.last() == *final(self),
            forall|i: int| 0 <= i < stages@.len() ==> (#[trigger] stages@[i]).wf()
                && stages@[i].system_list() == stages@[0].system_list(),
            forall|i: int|
                0 <= i < stages@[0].system_list().len() ==> call_ensures(
                    W::update,
                    (work, &stages@[0].system_list()[i], stages@[i].ents(), stages@[i].comps()),
                    (#[trigger] stages@[i + 1]).parts(),
                ),
    {
        self.process_pending();
        let ghost mid = *self;
        let mut ents = Entities::new();
        std::mem::swap(&mut ents, &mut self.entities);
        let mut comps: Components<P> = Components::new();
        std::mem::swap(&mut comps, &mut self.components);
        let ghost mut stages: Seq<World<P, S>> = seq![mid];
        let mut i: usize = 0;
        while i < self.systems.len()
            invariant
                consistent(ents, comps),
                self.systems == mid.systems,
                mid.wf(),
                update_post(*old(self), mid),
                i <= self.systems@.len(),
                stages.len() == i + 1,
                stages[0] == mid,
                stages.last().ents() == ents && stages.last().comps() == comps,
                stages.last().systems == mid.systems,
                forall|j: int| 0 <= j < stages.len() ==> (#[trigger] stages[j]).wf()
                    && stages[j].system_list() == mid.system_list(),
                forall|j: int|
                    0 <= j < i ==> call_ensures(
                        W::update,
                        (work, &mid.system_list()[j], stages[j].ents(), stages[j].comps()),
                        (#[trigger] stages[j + 1]).parts(),
                    ),
            decreases mid.systems@.len() - i,
        {
            let f = W::update;
            let ghost pre_ents = ents;
            let ghost pre_comps = comps;
            let (e2, c2) = f(work, &self.systems[i], ents, comps);
            ents = e2;
            comps = c2;
            proof {
                let next = World { entities: ents, components: comps, systems: mid.systems };
                assert(stages[i as int].ents() == pre_ents && stages[i as int].comps() == pre_comps);
                stages = stages.push(next);
                assert(next.parts() == (ents, comps));
            }
            i = i + 1;
        }
        self.entities = ents;
        self.components = comps;
        proof {
            let last = stages.last();
            assert(self.entities == last.entities);
            assert(self.components == last.components);
            assert(self.systems == last.systems);
        }
        Ghost(stages)
    }

    /// The bookkeeping of one step: the scheduled component removals are
    /// carried out; every system hears of every entity reported as changed,
    /// in the order reported; the entities scheduled for removal are freed;
    /// every system hears of every removal, in the order scheduled.
    pub fn process_pending(&mut self)
        requires
            old(self).wf(),
        ensures
            final(self).wf(),
            update_post(*old(self), *final(self)),
    {
        let ghost f = old(self).view_after_removals();
        let ghost sys0 = self.systems@;
        let changed = self.entities.process_changes(&mut self.components);
        let ghost ch = changed@;
        let ghost mid = self.entities;
        let ghost comps_mid = self.components;
        let mut n: usize = 0;
        proof {
            assert(ch.skip(0) =~= ch);
            assert forall|i: int| 0 <= i < ch.len() implies mid.live(#[trigger] ch[i] as int) by {
                assert(old(self).ents().changes()[i] == ch[i]);
                assert(old(self).ents().live(old(self).ents().changes()[i] as int));
                assert(mid.table()@[ch[i] as int] is Some <==> old(self).ents().table()@[ch[i] as int] is Some);
            }
            assert forall|j: int| #[trigger] mid.live(j) implies old(self).ents().live(j) && mid.entity(j) == f(j as usize) by {
                assert(mid.table()@[j] is Some <==> old(self).ents().table()@[j] is Some);
            }
        }
        while n < changed.len()
            invariant
                n <= ch.len(),
                changed@ == ch,
                ch == old(self).ents().changes(),
                self.entities == mid,
                self.components == comps_mid,
                forall|i: int| 0 <= i < ch.len() ==> mid.live(#[trigger] ch[i] as int),
                consistent(self.ents(), self.comps()),
                f == old(self).view_after_removals(),
                forall|j: int| #[trigger] mid.live(j) ==> old(self).ents().live(j) && mid.entity(j) == f(j as usize),
                forall|j: int| 0 <= j < old(self).ents().table()@.len() ==> (#[trigger] mid.live(j) <==> old(self).ents().live(j)),
                self.systems@.len() == sys0.len(),
                forall|i: int|
                    0 <= i < sys0.len() ==> tracks_after_changes((#[trigger] self.systems@[i]).tracks(), f, ch.skip(n as int))
                        == tracks_after_changes(sys0[i].tracks(), f, ch),
            decreases ch.len() - n,
        {
            let idx = changed[n];
            proof {
                assert(mid.live(ch[n as int] as int));
            }
            let ent = self.entities.get(idx);
            let ghost before = self.systems@;
            let mut s: usize = 0;
            while s < self.systems.len()
                invariant
                    s <= before.len(),
                    self.systems@.len() == before.len(),
                    self.entities == mid,
                    self.components == comps_mid,
                    ent@ == f(idx),
                    forall|i: int| 0 <= i < s ==> (#[trigger] self.systems@[i]).tracks() == tracks_after_change(before[i].tracks(), f(idx), idx),
                    forall|i: int| s <= i < before.len() ==> #[trigger] self.systems@[i] == before[i],
                decreases before.len() - s,
            {
                self.systems[s].component_changed_event(ent, idx);
                s = s + 1;
            }
            proof {
                assert(ch.skip(n as int)[0] == idx);
                assert(ch.skip(n as int).drop_first() =~= ch.skip(n + 1));
                assert forall|i: int| 0 <= i < sys0.len() implies tracks_after_changes((#[trigger] self.systems@[i]).tracks(), f, ch.skip(n + 1))
                    == tracks_after_changes(sys0[i].tracks(), f, ch) by {
                    assert(tracks_after_changes(before[i].tracks(), f, ch.skip(n as int))
                        == tracks_after_changes(sys0[i].tracks(), f, ch));
                }
            }
            n = n + 1;
        }
        proof {
            assert(ch.skip(n as int) =~= Seq::<usize>::empty());
        }
        let ghost sys1 = self.systems@;
        let removed = self.entities.process_removals();
        let ghost rm = removed@;
        let ghost post_rm = self.entities;
        let mut m: usize = 0;
        proof {
            assert(rm.skip(0) =~= rm);
        }
        while m < removed.len()
            invariant
                m <= rm.len(),
                removed@ == rm,
                self.entities == post_rm,
                self.components == comps_mid,
                self.systems@.len() == sys1.len(),
                forall|i: int|
                    0 <= i < sys1.len() ==> tracks_after_removals((#[trigger] self.systems@[i]).tracks(), rm.skip(m as int))
                        == tracks_after_removals(sys1[i].tracks(), rm),
            decreases rm.len() - m,
        {
            let idx = removed[m];
            let ghost before = self.systems@;
            let mut s: usize = 0;
            while s < self.systems.len()
                invariant
                    s <= before.len(),
                    self.systems@.len() == before.len(),
                    self.entities == post_rm,
                    self.components == comps_mid,
                    forall|i: int| 0 <= i < s ==> (#[trigger] self.systems@[i]).tracks() == tracks_after_removal(before[i].tracks(), idx),
                    forall|i: int| s <= i < before.len() ==> #[trigger] self.systems@[i] == before[i],
                decreases before.len() - s,
            {
                self.systems[s].remove_entity(idx);
                s = s + 1;
            }
            proof {
                assert(rm.skip(m as int)[0] == idx);
                assert(rm.skip(m as int).drop_first() =~= rm.skip(m + 1));
                assert forall|i: int| 0 <= i < sys1.len() implies tracks_after_removals((#[trigger] self.systems@[i]).tracks(), rm.skip(m + 1))
                    == tracks_after_removals(sys1[i].tracks(), rm) by {
                    assert(tracks_after_removals(before[i].tracks(), rm.skip(m as int))
                        == tracks_after_removals(sys1[i].tracks(), rm));
                }
            }
            m = m + 1;
        }
        proof {
            assert(rm.skip(m as int) =~= Seq::<usize>::empty());
            let pre = old(self).ents();
            assert(rm == pre.removals());
            let post = self.ents();
            lemma_stack_after_frees_occupancy(mid.table()@, pre.table()@, pre.table().free_stack(), pre.removals());
            assert forall|j: int| 0 <= j < pre.table()@.len() implies (#[trigger] post.live(j) <==> (
                pre.live(j) && !names(pre.removals(), j))) by {
                assert(mid.live(j) <==> pre.live(j));
            }
            assert forall|j: int| #[trigger] post.live(j) implies mid.live(j) && post.entity(j) == mid.entity(j) by {}
            lemma_entity_removals_keep_consistent(mid, self.comps(), post);
        }
    }

    /// The live entity in slot `entity_idx`.
    pub fn entity(&self, entity_idx: usize) -> (e: &Entity)
        requires
            self.ents().live(entity_idx as int),
        ensures
            e@ == self.ents().entity(entity_idx as int),
    {
        self.entities.get(entity_idx)
    }

    /// The component of kind `comp_type` that entity `entity_idx` has, if any.
    pub fn get_component(&self, entity_idx: usize, comp_type: ComponentType) -> (r: Option<&P>)
        requires
            self.wf(),
            self.ents().live(entity_idx as int),
        ensures
            match self.ents().entity(entity_idx as int)[comp_type.index()] {
                Some(c) => r is Some && *r.unwrap() == self.comps().set(comp_type).store()@[c as int].unwrap(),
                None => r is None,
            },
    {
        let e = self.entities.get(entity_idx);
        match e.get_comp_idx(comp_type) {
            Some(c) => {
                proof {
                    lemma_index_in_range(comp_type);
                }
                Some(self.components.get(comp_type, c))
            },
            None => None,
        }
    }

    /// Mutable access to the component of kind `comp_type` that entity
    /// `entity_idx` has, if any; only that component can change.
    pub fn get_component_mut(&mut self, entity_idx: usize, comp_type: ComponentType) -> (r: Option<&mut P>)
        requires
            old(self).wf(),
            old(self).ents().live(entity_idx as int),
        ensures
            final(self).ents() == old(self).ents(),
            final(self).system_list() == old(self).system_list(),
            match old(self).ents().entity(entity_idx as int)[comp_type.index()] {
                Some(c) => {
                    &&& r is Some
                    &&& *r.unwrap() == old(self).comps().set(comp_type).store()@[c as int].unwrap()
                    &&& final(self).comps().set(comp_type).store()@ == old(self).comps().set(comp_type).store()@.update(
                        c as int,
                        Some(*final(r.unwrap())),
                    )
                    &&& final(self).comps().set(comp_type).store().free_stack() == old(self).comps().set(comp_type).store().free_stack()
                    &&& final(self).comps().set(comp_type).pending() == old(self).comps().set(comp_type).pending()
                    &&& forall|k2: int|
                        0 <= k2 < NUM_COMPONENTS && k2 != comp_type.index() ==> #[trigger] final(self).comps().set_at(k2)
                            == old(self).comps().set_at(k2)
                },
                None => r is None && final(self).comps() == old(self).comps(),
            },
    {
        let found = self.entities.get(entity_idx).get_comp_idx(comp_type);
        match found {
            Some(c) => {
                proof {
                    lemma_index_in_range(comp_type);
                }
                Some(self.components.get_mut(comp_type, c))
            },
            None => None,
        }
    }

    /// The entity table.
    pub fn entities(&self) -> (e: &Entities)
        ensures
            *e == self.ents(),
    {
        &self.entities
    }

    /// The component stores.
    pub fn components(&self) -> (c: &Components<P>)
        ensures
            *c == self.comps(),
    {
        &self.components
    }

    /// The system at position `i`.
    pub fn system(&self, i: usize) -> (s: &S)
        requires
            i < self.system_list().len(),
        ensures
            *s == self.system_list()[i as int],
    {
        &self.systems[i]
    }

    /// How many systems there are.
    pub fn num_systems(&self) -> (n: usize)
        ensures
            n == self.system_list().len(),
    {
        self.systems.len()
    }
}

/// What `add_component` does: an entity that lacks a component of the kind
/// gets `comp` in the slot its store hands out; one that has one is left
/// alone.
pub open spec fn add_component_post<P, S: System>(
    pre: World<P, S>,
    post: World<P, S>,
    entity_idx: usize,
    comp_type: ComponentType,
    comp: P,
) -> bool {
    &&& post.system_list() == pre.system_list()
    &&& pre.ents().entity(entity_idx as int)[comp_type.index()] is Some ==> post.ents() == pre.ents()
        && post.comps() == pre.comps()
    &&& pre.ents().entity(entity_idx as int)[comp_type.index()] is None ==> {
        let c = post.ents().entity(entity_idx as int)[comp_type.index()].unwrap();
        &&& entity_gained(pre.ents(), post.ents(), entity_idx as int, comp_type.index(), c)
        &&& push_post(pre.comps().set(comp_type).store(), post.comps().set(comp_type).store(), comp, c)
        &&& post.comps().set(comp_type).pending() == pre.comps().set(comp_type).pending()
        &&& forall|k2: int|
            0 <= k2 < NUM_COMPONENTS && k2 != comp_type.index() ==> #[trigger] post.comps().set_at(k2)
                == pre.comps().set_at(k2)
    }
}

/// What `sched_remove_component` does: the removal of the component the
/// entity holds is scheduled and the entity reported as changed; an entity
/// without one is left alone.
pub open spec fn sched_remove_component_post<P, S: System>(
    pre: World<P, S>,
    post: World<P, S>,
    entity_idx: usize,
    comp_type: ComponentType,
) -> bool {
    &&& post.system_list() == pre.system_list()
    &&& pre.ents().entity(entity_idx as int)[comp_type.index()] is None ==> post.ents() == pre.ents()
        && post.comps() == pre.comps()
    &&& pre.ents().entity(entity_idx as int)[comp_type.index()] is Some ==> {
        let c = pre.ents().entity(entity_idx as int)[comp_type.index()].unwrap();
        &&& post.ents().table() == pre.ents().table()
        &&& post.ents().changes() == pre.ents().changes().push(entity_idx)
        &&& post.ents().removals() == pre.ents().removals()
        &&& post.comps().set(comp_type).store() == pre.comps().set(comp_type).store()
        &&& post.comps().set(comp_type).pending() == pre.comps().set(comp_type).pending().push(
            (entity_idx, c),
        )
        &&& forall|k2: int|
            0 <= k2 < NUM_COMPONENTS && k2 != comp_type.index() ==> #[trigger] post.comps().set_at(k2)
                == pre.comps().set_at(k2)
    }
}

/// What `update` does, from the world before to the world after.
pub open spec fn update_post<P, S: System>(pre: World<P, S>, post: World<P, S>) -> bool {
    &&& post.ents().changes() == Seq::<usize>::empty()
    &&& post.ents().removals() == Seq::<usize>::empty()
    &&& post.ents().table()@.len() == pre.ents().table()@.len()
    &&& forall|j: int|
        0 <= j < pre.ents().table()@.len() ==> (#[trigger] post.ents().live(j) <==> (pre.ents().live(j)
            && !names(pre.ents().removals(), j)))
    &&& forall|j: int|
        #[trigger] post.ents().live(j) ==> post.ents().entity(j) == (pre.view_after_removals())(
            j as usize,
        )
    &&& post.ents().table().free_stack() == stack_after_frees(
        pre.ents().table()@,
        pre.ents().table().free_stack(),
        pre.ents().removals(),
    )
    &&& forall|k: int|
        0 <= k < NUM_COMPONENTS ==> {
            &&& (#[trigger] post.comps().set_at(k)).pending() == Seq::<(usize, usize)>::empty()
            &&& post.comps().set_at(k).store()@ == slots_after_frees(
                pre.comps().set_at(k).store()@,
                removal_slots(pre.comps().set_at(k).pending()),
            )
            &&& post.comps().set_at(k).store().free_stack() == stack_after_frees(
                pre.comps().set_at(k).store()@,
                pre.comps().set_at(k).store().free_stack(),
                removal_slots(pre.comps().set_at(k).pending()),
            )
        }
    &&& post.system_list().len() == pre.system_list().len()
    &&& forall|i: int|
        0 <= i < pre.system_list().len() ==> (#[trigger] post.system_list()[i]).tracks()
            == tracks_after_removals(
            tracks_after_changes(
                pre.system_list()[i].tracks(),
                pre.view_after_removals(),
                pre.ents().changes(),
            ),
            pre.ents().removals(),
        )
}

proof fn lemma_entity_removals_keep_consistent<P>(pre: Entities, comps: Components<P>, post: Entities)
    requires
        consistent(pre, comps),
        pre.changes() == Seq::<usize>::empty(),
        forall|k: int| 0 <= k < NUM_COMPONENTS ==> (#[trigger] comps.set_at(k)).pending() == Seq::<(usize, usize)>::empty(),
        post.table().wf(),
        post.table()@.len() == pre.table()@.len(),
        forall|j: int| #[trigger] post.live(j) ==> pre.live(j) && post.entity(j) == pre.entity(j),
        post.changes() == Seq::<usize>::empty(),
        post.removals() == Seq::<usize>::empty(),
    ensures
        consistent(post, comps),
{
    assert forall|j: int, k: int|
        post.live(j) && 0 <= k < NUM_COMPONENTS && (#[trigger] post.entity(j)[k]) is Some implies {
        let c = post.entity(j)[k].unwrap();
        &&& c < comps.set_at(k).store()@.len()
        &&& comps.set_at(k).store()@[c as int] is Some
    } by {
        assert(pre.live(j));
        assert(pre.entity(j)[k] is Some);
    }
    assert forall|j1: int, j2: int, k: int|
        post.live(j1) && post.live(j2) && 0 <= k < NUM_COMPONENTS && (
        #[trigger] post.entity(j1)[k]) is Some && post.entity(j1)[k] == (
        #[trigger] post.entity(j2)[k]) implies j1 == j2 by {
        assert(pre.live(j1) && pre.live(j2));
        assert(pre.entity(j1)[k] == post.entity(j1)[k]);
        assert(pre.entity(j2)[k] == post.entity(j2)[k]);
    }
}

proof fn lemma_index_in_range(k: ComponentType)
    ensures
        0 <= k.index() < NUM_COMPONENTS,
{
}

} // verus!

verus! {

/// The world stays consistent when its entity table changes only by
/// adding the blank entity `fresh` (none when `fresh` is negative), its
/// change reports gain at most that entity, and its removal reports stay
/// within the table.
proof fn lemma_table_change_keeps_consistent<P>(pre: Entities, post: Entities, comps: Components<P>, fresh: int)
    requires
        consistent(pre, comps),
        post.table().wf(),
        forall|j: int| #[trigger] post.live(j) && j != fresh ==> pre.live(j) && post.entity(j) == pre.entity(j),
        forall|j: int| #[trigger] pre.live(j) ==> post.live(j),
        fresh >= 0 ==> !pre.live(fresh) && post.entity(fresh) == blank_view(),
        post.changes() == pre.changes() || (fresh >= 0 && post.live(fresh) && post.changes() == pre.changes().push(
            fresh as usize,
        )),
        forall|i: int| 0 <= i < post.removals().len() ==> #[trigger] post.removals()[i] < post.table()@.len(),
    ensures
        consistent(post, comps),
{
    assert forall|j: int, k: int|
        post.live(j) && 0 <= k < NUM_COMPONENTS && (#[trigger] post.entity(j)[k]) is Some implies {
        let c = post.entity(j)[k].unwrap();
        &&& c < comps.set_at(k).store()@.len()
        &&& comps.set_at(k).store()@[c as int] is Some
    } by {
        assert(pre.live(j));
    }
    assert forall|j1: int, j2: int, k: int|
        post.live(j1) && post.live(j2) && 0 <= k < NUM_COMPONENTS && (#[trigger] post.entity(j1)[k]) is Some
            && post.entity(j1)[k] == (#[trigger] post.entity(j2)[k]) implies j1 == j2 by {
        assert(pre.live(j1) && pre.live(j2));
    }
    assert forall|k: int, i: int| 0 <= k < NUM_COMPONENTS && 0 <= i < comps.set_at(k).pending().len() implies {
        let (e, c) = #[trigger] comps.set_at(k).pending()[i];
        &&& post.live(e as int)
        &&& post.entity(e as int)[k] == Some(c)
    } by {
        let (e, c) = comps.set_at(k).pending()[i];
        assert(pre.live(e as int));
        assert(pre.entity(e as int)[k] == Some(c));
    }
    assert forall|i: int| 0 <= i < post.changes().len() implies post.live(#[trigger] post.changes()[i] as int) by {
        if i < pre.changes().len() {
            assert(post.changes()[i] == pre.changes()[i]);
            assert(pre.live(pre.changes()[i] as int));
        }
    }
}

/// Adding a component leaves every occupied slot of every store as it was.
proof fn lemma_occupied_kept<P, S: System>(pre: World<P, S>, post: World<P, S>, idx: usize, kind: ComponentType, comp: P)
    requires
        pre.wf(),
        add_component_post(pre, post, idx, kind, comp),
    ensures
        forall|k: int, c: int|
            0 <= k < NUM_COMPONENTS && 0 <= c < pre.comps().set_at(k).store()@.len()
                && pre.comps().set_at(k).store()@[c] is Some ==> #[trigger] post.comps().set_at(k).store()@[c]
                == pre.comps().set_at(k).store()@[c],
{
    if pre.ents().entity(idx as int)[kind.index()] is None {
        pre.comps().lemma_wf();
        let c0 = post.ents().entity(idx as int)[kind.index()].unwrap();
        crate::free_list::law_push_then_get(pre.comps().set(kind).store(), post.comps().set(kind).store(), comp, c0);
    }
}

/// Whether the component of kind `kind` of entity `idx` of `w` is `comp`.
pub open spec fn holds_part<P, S: System>(w: World<P, S>, idx: usize, kind: ComponentType, comp: P) -> bool {
    w.comps().set(kind).store()@[w.ents().entity(idx as int)[kind.index()].unwrap() as int] == Some(comp)
}

/// One step of `create_body`, for the kind numbered `k`: after part `n` of
/// `orig` is added, entity `idx` has that kind just when one of the first
/// `n + 1` parts is of it.
proof fn lemma_body_kind<P, S: System>(
    pre: World<P, S>,
    post: World<P, S>,
    orig: Seq<(ComponentType, P)>,
    n: int,
    idx: usize,
    kind: ComponentType,
    comp: P,
    k: int,
)
    requires
        pre.ents().live(idx as int),
        0 <= n < orig.len(),
        orig[n] == (kind, comp),
        add_component_post(pre, post, idx, kind, comp),
        0 <= k < NUM_COMPONENTS,
        pre.ents().entity(idx as int)[k] is Some <==> has_part(orig.take(n), k),
    ensures
        post.ents().entity(idx as int)[k] is Some <==> has_part(orig.take(n + 1), k),
{
    assert(orig.take(n + 1) =~= orig.take(n).push((kind, comp)));
    if has_part(orig.take(n), k) {
        let w = choose|w: int| 0 <= w < orig.take(n).len() && (#[trigger] orig.take(n)[w]).0.index() == k;
        assert(orig.take(n + 1)[w] == orig.take(n)[w]);
    }
    if k == kind.index() {
        assert(orig.take(n + 1)[n] == (kind, comp));
    }
    if has_part(orig.take(n + 1), k) && k != kind.index() {
        let w = choose|w: int| 0 <= w < orig.take(n + 1).len() && (#[trigger] orig.take(n + 1)[w]).0.index() == k;
        assert(w < n);
        assert(orig.take(n)[w] == orig.take(n + 1)[w]);
    }
}

/// One step of `create_body`, for part `i`: the first part of a kind is
/// what entity `idx` holds of that kind, before and after part `n` is
/// added.
proof fn lemma_body_part<P, S: System>(
    pre: World<P, S>,
    post: World<P, S>,
    orig: Seq<(ComponentType, P)>,
    n: int,
    idx: usize,
    kind: ComponentType,
    comp: P,
    i: int,
)
    requires
        pre.ents().live(idx as int),
        0 <= n < orig.len(),
        orig[n] == (kind, comp),
        add_component_post(pre, post, idx, kind, comp),
        pre.ents().entity(idx as int)[kind.index()] is Some <==> has_part(orig.take(n), kind.index()),
        0 <= i <= n,
        first_of_kind(orig, i),
        i < n ==> pre.ents().entity(idx as int)[orig[i].0.index()] is Some,
        i < n ==> holds_part(pre, idx, orig[i].0, orig[i].1),
        pre.comps().set(kind).store().wf(),
    ensures
        holds_part(post, idx, orig[i].0, orig[i].1),
{
    let kk = kind.index();
    let ki = orig[i].0.index();
    if i == n {
        if pre.ents().entity(idx as int)[kk] is Some {
            let w = choose|w: int| 0 <= w < orig.take(n).len() && (#[trigger] orig.take(n)[w]).0.index() == kk;
            assert(orig[w] == orig.take(n)[w]);
            assert(orig[w].0.index() != orig[i].0.index());
        }
        let c = post.ents().entity(idx as int)[kk].unwrap();
        crate::free_list::law_push_then_get(pre.comps().set(kind).store(), post.comps().set(kind).store(), comp, c);
    } else if pre.ents().entity(idx as int)[kk] is None {
        assert(ki != kk);
        assert(post.comps().set_at(ki) == pre.comps().set_at(ki));
        assert(post.ents().entity(idx as int)[ki] == pre.ents().entity(idx as int)[ki]);
    }
}

/// Whether one of `parts` is of the kind numbered `k`.
pub open spec fn has_part<P>(parts: Seq<(ComponentType, P)>, k: int) -> bool {
    exists|i: int| 0 <= i < parts.len() && (#[trigger] parts[i]).0.index() == k
}

/// Whether no part before part `i` is of its kind.
pub open spec fn first_of_kind<P>(parts: Seq<(ComponentType, P)>, i: int) -> bool {
    forall|j: int| 0 <= j < i ==> (#[trigger] parts[j]).0.index() != parts[i].0.index()
}

} // verus!
