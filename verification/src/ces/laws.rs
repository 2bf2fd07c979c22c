//! What holds of the world across operations.

use vstd::prelude::*;
use crate::free_list::{names, slots_after_frees, law_push_then_get};
use crate::ces::{has_kinds, cleared_upto, removal_entities, removal_slots};
use crate::ces::components::{ComponentType, NUM_COMPONENTS};
use crate::ces::system::{
    System,
    Track,
    first_pos,
    list_without,
    list_after_change,
    lemma_first_pos,
    tracks_after_change,
    tracks_after_changes,
    tracks_after_removal,
    tracks_after_removals,
};
use crate::ces::world::{World, add_component_post, update_post};

verus! {

/// After an entity leaves a list that names nobody twice, it is absent,
/// everyone else's membership is as before, and still nobody is named twice.
pub proof fn law_removal_event_membership(s: Seq<usize>, x: usize)
    requires
        s.no_duplicates(),
    ensures
        list_without(s, x).no_duplicates(),
        !list_without(s, x).contains(x),
        forall|y: usize| y != x ==> (#[trigger] list_without(s, x).contains(y) <==> s.contains(y)),
{
    lemma_first_pos(s, x);
    let p = first_pos(s, x);
    let t = list_without(s, x);
    if p >= 0 {
        let last = s.len() - 1;
        assert forall|i: int, j: int| 0 <= i < t.len() && 0 <= j < t.len() && i != j implies t[i] != t[j] by {
            let si = if i == p { last } else { i };
            let sj = if j == p { last } else { j };
            assert(t[i] == s[si]);
            assert(t[j] == s[sj]);
        }
        assert forall|i: int| 0 <= i < t.len() implies t[i] != x by {
            let si = if i == p { last } else { i };
            assert(t[i] == s[si]);
        }
        assert forall|y: usize| y != x implies (#[trigger] t.contains(y) <==> s.contains(y)) by {
            if s.contains(y) {
                let i = choose|i: int| 0 <= i < s.len() && s[i] == y;
                if i == last {
                    if p != last {
                        assert(t[p] == y);
                    }
                } else {
                    assert(i != p);
                    assert(t[i] == y);
                }
            }
            if t.contains(y) {
                let i = choose|i: int| 0 <= i < t.len() && t[i] == y;
                let si = if i == p { last } else { i };
                assert(s[si] == y);
            }
        }
    }
}

/// After an entity reports a change to a list that names nobody twice, it
/// is in the list exactly when it has every kind the list needs, everyone
/// else's membership is as before, and still nobody is named twice.
pub proof fn law_change_event_membership(
    s: Seq<usize>,
    kinds: Seq<ComponentType>,
    ent: Seq<Option<usize>>,
    x: usize,
)
    requires
        s.no_duplicates(),
    ensures
        list_after_change(s, kinds, ent, x).no_duplicates(),
        list_after_change(s, kinds, ent, x).contains(x) == has_kinds(ent, kinds),
        forall|y: usize|
            y != x ==> (#[trigger] list_after_change(s, kinds, ent, x).contains(y) <==> s.contains(y)),
{
    lemma_first_pos(s, x);
    law_removal_event_membership(s, x);
    let t = list_after_change(s, kinds, ent, x);
    if has_kinds(ent, kinds) && first_pos(s, x) < 0 {
        assert(t[s.len() as int] == x);
        assert forall|y: usize| y != x implies (#[trigger] t.contains(y) <==> s.contains(y)) by {
            if s.contains(y) {
                let i = choose|i: int| 0 <= i < s.len() && s[i] == y;
                assert(t[i] == y);
            }
            if t.contains(y) {
                let i = choose|i: int| 0 <= i < t.len() && t[i] == y;
                assert(i < s.len());
                assert(s[i] == y);
            }
        }
    }
}

/// Every list of every system names nobody twice.
pub open spec fn tracks_distinct(tr: Seq<Track>) -> bool {
    forall|i: int| 0 <= i < tr.len() ==> (#[trigger] tr[i]).1.no_duplicates()
}

proof fn lemma_changes_membership(tr: Seq<Track>, view_of: spec_fn(usize) -> Seq<Option<usize>>, xs: Seq<usize>)
    requires
        tracks_distinct(tr),
    ensures
        tracks_after_changes(tr, view_of, xs).len() == tr.len(),
        tracks_distinct(tracks_after_changes(tr, view_of, xs)),
        forall|i: int| 0 <= i < tr.len() ==> (#[trigger] tracks_after_changes(tr, view_of, xs)[i]).0 == tr[i].0,
        forall|i: int, y: usize|
            0 <= i < tr.len() ==> {
                &&& names(xs, y as int) ==> (#[trigger] tracks_after_changes(tr, view_of, xs)[i].1.contains(y)
                    <==> has_kinds(view_of(y), tr[i].0))
                &&& !names(xs, y as int) ==> (tracks_after_changes(tr, view_of, xs)[i].1.contains(y)
                    <==> tr[i].1.contains(y))
            },
    decreases xs.len(),
{
    if xs.len() > 0 {
        let x = xs[0];
        let tr1 = tracks_after_change(tr, view_of(x), x);
        assert forall|i: int| 0 <= i < tr.len() implies {
            let t = (#[trigger] tr1[i]).1;
            &&& t.no_duplicates()
            &&& t.contains(x) == has_kinds(view_of(x), tr[i].0)
            &&& forall|y: usize| y != x ==> (t.contains(y) <==> tr[i].1.contains(y))
        } by {
            assert(tr[i].1.no_duplicates());
            law_change_event_membership(tr[i].1, tr[i].0, view_of(x), x);
            assert forall|y: usize| y != x implies (tr1[i].1.contains(y) <==> tr[i].1.contains(y)) by {
                assert(list_after_change(tr[i].1, tr[i].0, view_of(x), x).contains(y) <==> tr[i].1.contains(y));
            }
        }
        lemma_changes_membership(tr1, view_of, xs.drop_first());
        let fin = tracks_after_changes(tr, view_of, xs);
        assert(fin == tracks_after_changes(tr1, view_of, xs.drop_first()));
        assert forall|i: int| 0 <= i < tr.len() implies (#[trigger] fin[i]).0 == tr[i].0 by {
            assert(tr1[i].0 == tr[i].0);
        }
        assert forall|i: int, y: usize| 0 <= i < tr.len() implies {
            &&& names(xs, y as int) ==> (#[trigger] fin[i].1.contains(y) <==> has_kinds(view_of(y), tr[i].0))
            &&& !names(xs, y as int) ==> (fin[i].1.contains(y) <==> tr[i].1.contains(y))
        } by {
            let rest = xs.drop_first();
            if names(rest, y as int) {
                let w = choose|w: int| 0 <= w < rest.len() && rest[w] as int == y as int;
                assert(xs[w + 1] as int == y as int);
            } else if y == x {
                assert(xs[0] as int == y as int);
            } else {
                if names(xs, y as int) {
                    let w = choose|w: int| 0 <= w < xs.len() && xs[w] as int == y as int;
                    assert(w != 0);
                    assert(rest[w - 1] as int == y as int);
                }
            }
        }
    }
}

proof fn lemma_removals_membership(tr: Seq<Track>, xs: Seq<usize>)
    requires
        tracks_distinct(tr),
    ensures
        tracks_after_removals(tr, xs).len() == tr.len(),
        tracks_distinct(tracks_after_removals(tr, xs)),
        forall|i: int| 0 <= i < tr.len() ==> (#[trigger] tracks_after_removals(tr, xs)[i]).0 == tr[i].0,
        forall|i: int, y: usize|
            0 <= i < tr.len() ==> {
                &&& names(xs, y as int) ==> !#[trigger] tracks_after_removals(tr, xs)[i].1.contains(y)
                &&& !names(xs, y as int) ==> (tracks_after_removals(tr, xs)[i].1.contains(y)
                    <==> tr[i].1.contains(y))
            },
    decreases xs.len(),
{
    if xs.len() > 0 {
        let x = xs[0];
        let tr1 = tracks_after_removal(tr, x);
        assert forall|i: int| 0 <= i < tr.len() implies {
            let t = (#[trigger] tr1[i]).1;
            &&& t.no_duplicates()
            &&& !t.contains(x)
            &&& forall|y: usize| y != x ==> (t.contains(y) <==> tr[i].1.contains(y))
        } by {
            assert(tr[i].1.no_duplicates());
            law_removal_event_membership(tr[i].1, x);
            assert forall|y: usize| y != x implies (tr1[i].1.contains(y) <==> tr[i].1.contains(y)) by {
                assert(list_without(tr[i].1, x).contains(y) <==> tr[i].1.contains(y));
            }
        }
        lemma_removals_membership(tr1, xs.drop_first());
        let fin = tracks_after_removals(tr, xs);
        assert forall|i: int| 0 <= i < tr.len() implies (#[trigger] fin[i]).0 == tr[i].0 by {
            assert(tr1[i].0 == tr[i].0);
        }
        assert forall|i: int, y: usize| 0 <= i < tr.len() implies {
            &&& names(xs, y as int) ==> !#[trigger] fin[i].1.contains(y)
            &&& !names(xs, y as int) ==> (fin[i].1.contains(y) <==> tr[i].1.contains(y))
        } by {
            let rest = xs.drop_first();
            if names(rest, y as int) {
                let w = choose|w: int| 0 <= w < rest.len() && rest[w] as int == y as int;
                assert(xs[w + 1] as int == y as int);
            } else if y == x {
                assert(xs[0] as int == y as int);
            } else {
                if names(xs, y as int) {
                    let w = choose|w: int| 0 <= w < xs.len() && xs[w] as int == y as int;
                    assert(w != 0);
                    assert(rest[w - 1] as int == y as int);
                }
            }
        }
    }
}

/// After `update`, every list of every system names exactly the right
/// entities: a removed entity is in no list; an entity that reported a
/// change and was not removed is in a list exactly when it has every kind
/// the list needs; any other entity's membership is unchanged; and no list
/// names anybody twice.
pub proof fn law_update_membership<P, S: System>(pre: World<P, S>, post: World<P, S>)
    requires
        pre.wf(),
        update_post(pre, post),
        forall|i: int| 0 <= i < pre.system_list().len() ==> tracks_distinct(#[trigger] pre.system_list()[i].tracks()),
    ensures
        forall|i: int| 0 <= i < post.system_list().len() ==> tracks_distinct(#[trigger] post.system_list()[i].tracks()),
        forall|i: int, t: int, y: usize|
            0 <= i < pre.system_list().len() && 0 <= t < pre.system_list()[i].tracks().len() ==> {
                let before = pre.system_list()[i].tracks()[t];
                let after = post.system_list()[i].tracks()[t].1;
                &&& names(pre.ents().removals(), y as int) ==> !#[trigger] post.system_list()[i].tracks()[t].1.contains(y)
                &&& !names(pre.ents().removals(), y as int) && names(pre.ents().changes(), y as int) ==> (
                    after.contains(y) <==> has_kinds((pre.view_after_removals())(y), before.0))
                &&& !names(pre.ents().removals(), y as int) && !names(pre.ents().changes(), y as int) ==> (
                    after.contains(y) <==> before.1.contains(y))
            },
{
    assert forall|i: int| 0 <= i < pre.system_list().len() implies {
        &&& tracks_distinct(#[trigger] post.system_list()[i].tracks())
        &&& forall|t: int, y: usize|
            0 <= t < pre.system_list()[i].tracks().len() ==> {
                let before = pre.system_list()[i].tracks()[t];
                let after = post.system_list()[i].tracks()[t].1;
                &&& names(pre.ents().removals(), y as int) ==> !#[trigger] post.system_list()[i].tracks()[t].1.contains(y)
                &&& !names(pre.ents().removals(), y as int) && names(pre.ents().changes(), y as int) ==> (
                    after.contains(y) <==> has_kinds((pre.view_after_removals())(y), before.0))
                &&& !names(pre.ents().removals(), y as int) && !names(pre.ents().changes(), y as int) ==> (
                    after.contains(y) <==> before.1.contains(y))
            }
    } by {
        let tr = pre.system_list()[i].tracks();
        let f = pre.view_after_removals();
        lemma_changes_membership(tr, f, pre.ents().changes());
        let mid = tracks_after_changes(tr, f, pre.ents().changes());
        lemma_removals_membership(mid, pre.ents().removals());
        assert forall|t: int, y: usize| 0 <= t < tr.len() implies {
            let before = tr[t];
            let after = post.system_list()[i].tracks()[t].1;
            &&& names(pre.ents().removals(), y as int) ==> !#[trigger] post.system_list()[i].tracks()[t].1.contains(y)
            &&& !names(pre.ents().removals(), y as int) && names(pre.ents().changes(), y as int) ==> (
                after.contains(y) <==> has_kinds(f(y), before.0))
            &&& !names(pre.ents().removals(), y as int) && !names(pre.ents().changes(), y as int) ==> (
                after.contains(y) <==> before.1.contains(y))
        } by {
            assert(mid[t].0 == tr[t].0);
            assert(tracks_after_removals(mid, pre.ents().removals())[t] == post.system_list()[i].tracks()[t]);
        }
    }
}

/// A component that was added can be read back: the entity names a slot
/// for that kind, and the slot holds the component.
pub proof fn law_add_then_get<P, S: System>(
    pre: World<P, S>,
    post: World<P, S>,
    entity_idx: usize,
    comp_type: ComponentType,
    comp: P,
)
    requires
        pre.wf(),
        pre.ents().live(entity_idx as int),
        pre.ents().entity(entity_idx as int)[comp_type.index()] is None,
        add_component_post(pre, post, entity_idx, comp_type, comp),
    ensures
        post.ents().live(entity_idx as int),
        post.ents().entity(entity_idx as int)[comp_type.index()] is Some,
        ({
            let c = post.ents().entity(entity_idx as int)[comp_type.index()].unwrap();
            &&& c < post.comps().set(comp_type).store()@.len()
            &&& post.comps().set(comp_type).store()@[c as int] == Some(comp)
        }),
{
    pre.comps().lemma_wf();
    assert(0 <= comp_type.index() < NUM_COMPONENTS);
    let c = post.ents().entity(entity_idx as int)[comp_type.index()].unwrap();
    pre.ents().table()@[entity_idx as int].unwrap().lemma_len();
    law_push_then_get(pre.comps().set(comp_type).store(), post.comps().set(comp_type).store(), comp, c);
}

/// A scheduled component removal takes effect at the next update: the
/// component slot is freed, and the entity, if it survives the update,
/// no longer has a component of that kind.
pub proof fn law_scheduled_removal_applied<P, S: System>(
    pre: World<P, S>,
    post: World<P, S>,
    k: int,
    n: int,
)
    requires
        pre.wf(),
        update_post(pre, post),
        0 <= k < NUM_COMPONENTS,
        0 <= n < pre.comps().set_at(k).pending().len(),
    ensures
        ({
            let (e, c) = pre.comps().set_at(k).pending()[n];
            &&& c < post.comps().set_at(k).store()@.len()
            &&& post.comps().set_at(k).store()@[c as int] is None
            &&& post.ents().live(e as int) ==> post.ents().entity(e as int)[k] is None
        }),
{
    let p = pre.comps().set_at(k).pending();
    let (e, c) = p[n];
    assert(pre.ents().live(e as int));
    assert(pre.ents().entity(e as int)[k] == Some(c));
    pre.comps().lemma_wf();
    assert(removal_slots(p)[n] == c);
    assert(removal_entities(p)[n] == e);
    assert(names(removal_slots(p), c as int));
    assert(names(removal_entities(p), e as int));
    pre.ents().table()@[e as int].unwrap().lemma_len();
}

/// An entity scheduled for removal is gone after the next update; a live
/// entity that was neither scheduled for removal nor named by a scheduled
/// component removal keeps exactly the components it had.
pub proof fn law_update_entities<P, S: System>(pre: World<P, S>, post: World<P, S>, j: int)
    requires
        pre.wf(),
        update_post(pre, post),
        0 <= j < pre.ents().table()@.len(),
    ensures
        names(pre.ents().removals(), j) ==> !post.ents().live(j),
        pre.ents().live(j) && !names(pre.ents().removals(), j) && (forall|k: int|
            0 <= k < NUM_COMPONENTS ==> !names(removal_entities(#[trigger] pre.comps().set_at(k).pending()), j))
            ==> post.ents().live(j) && post.ents().entity(j) == pre.ents().entity(j),
{
    if pre.ents().live(j) && !names(pre.ents().removals(), j) && (forall|k: int|
        0 <= k < NUM_COMPONENTS ==> !names(removal_entities(#[trigger] pre.comps().set_at(k).pending()), j)) {
        assert(post.ents().live(j));
        pre.ents().table()@[j].unwrap().lemma_len();
        assert(post.ents().entity(j) =~= pre.ents().entity(j));
    }
}

} // verus!
