//! The bodies a level is built of: stars, holes, targets and the player,
//! and the kinds of component each is made of.

use vstd::prelude::*;
use crate::ces::components::{ComponentType, NUM_COMPONENTS};
use crate::ces::has_kinds;
use crate::ces::system::System;
use crate::ces::world::{World, first_of_kind, has_part, holds_part};
use crate::game::easter;
use crate::game::gravity::{all_mass_kinds, movable_mass_kinds};

verus! {

/// A star: a fixed, solid body that pulls on the player.
pub open spec fn star_kinds() -> Seq<ComponentType> {
    seq![
        ComponentType::Location,
        ComponentType::OldLocation,
        ComponentType::Size,
        ComponentType::Mass,
        ComponentType::Solid,
        ComponentType::Sprite,
    ]
}

/// A hole: a fixed body that pulls on the player and swallows it.
pub open spec fn hole_kinds() -> Seq<ComponentType> {
    seq![
        ComponentType::Location,
        ComponentType::OldLocation,
        ComponentType::Size,
        ComponentType::Mass,
        ComponentType::Hole,
        ComponentType::Sprite,
    ]
}

/// A target: a spaceship to photograph, which the hidden switch can change.
pub open spec fn target_kinds() -> Seq<ComponentType> {
    seq![
        ComponentType::Location,
        ComponentType::OldLocation,
        ComponentType::Size,
        ComponentType::Switchable,
        ComponentType::Sprite,
        ComponentType::Target,
    ]
}

/// The player: a moving body that gravity pulls.
pub open spec fn player_kinds() -> Seq<ComponentType> {
    seq![
        ComponentType::Location,
        ComponentType::OldLocation,
        ComponentType::Velocity,
        ComponentType::Acceleration,
        ComponentType::Size,
        ComponentType::Mass,
        ComponentType::Sprite,
        ComponentType::Player,
    ]
}

/// Whether one of `kinds` is the kind numbered `k`.
pub open spec fn lists_kind(kinds: Seq<ComponentType>, k: int) -> bool {
    exists|i: int| 0 <= i < kinds.len() && (#[trigger] kinds[i]).index() == k
}

/// Whether entity `idx` of `w` is live and has exactly the kinds `kinds`.
pub open spec fn made_of<P, S: System>(w: World<P, S>, idx: usize, kinds: Seq<ComponentType>) -> bool {
    &&& w.ents().live(idx as int)
    &&& forall|k: int|
        0 <= k < NUM_COMPONENTS ==> ((#[trigger] w.ents().entity(idx as int)[k]) is Some <==> lists_kind(kinds, k))
}

/// Whether `post` is `pre` with one entity added, in slot `idx`, which was
/// not live before: every other slot of the table, every store of a kind
/// not in `kinds`, and the systems are as they were.
pub open spec fn added_alone<P, S: System>(pre: World<P, S>, post: World<P, S>, idx: usize, kinds: Seq<ComponentType>) -> bool {
    &&& !pre.ents().live(idx as int)
    &&& forall|j: int|
        0 <= j < pre.ents().table()@.len() && j != idx ==> #[trigger] post.ents().table()@[j] == pre.ents().table()@[j]
    &&& forall|k: int|
        0 <= k < NUM_COMPONENTS && !lists_kind(kinds, k) ==> #[trigger] post.comps().set_at(k) == pre.comps().set_at(k)
    &&& post.system_list() == pre.system_list()
}

/// Whether entity `idx` of `w` holds `comps[i]` as its component of kind
/// `kinds[i]`, for each `i`.
pub open spec fn holds_parts<P, S: System>(w: World<P, S>, idx: usize, kinds: Seq<ComponentType>, comps: Seq<P>) -> bool {
    forall|i: int| 0 <= i < kinds.len() ==> holds_part(w, idx, #[trigger] kinds[i], comps[i])
}

/// Whether no kind occurs twice in `kinds`.
pub open spec fn distinct_kinds(kinds: Seq<ComponentType>) -> bool {
    forall|i: int, j: int| 0 <= j < i < kinds.len() ==> (#[trigger] kinds[j]).index() != (#[trigger] kinds[i]).index()
}

/// Whether entity `idx` of `w` has a component of kind `kind`, and it is
/// `comp`.
pub open spec fn carries<P, S: System>(w: World<P, S>, idx: usize, kind: ComponentType, comp: P) -> bool {
    &&& w.ents().entity(idx as int)[kind.index()] is Some
    &&& holds_part(w, idx, kind, comp)
}

/// The parts `kinds` paired with `comps`, one for one.
pub open spec fn zip_parts<P>(kinds: Seq<ComponentType>, comps: Seq<P>) -> Seq<(ComponentType, P)> {
    Seq::new(kinds.len(), |i: int| (kinds[i], comps[i]))
}

proof fn lemma_parts_kinds<P>(kinds: Seq<ComponentType>, comps: Seq<P>)
    requires
        kinds.len() == comps.len(),
    ensures
        forall|k: int| has_part(zip_parts(kinds, comps), k) <==> lists_kind(kinds, k),
{
    let parts = zip_parts(kinds, comps);
    assert forall|k: int| has_part(parts, k) <==> lists_kind(kinds, k) by {
        if has_part(parts, k) {
            let i = choose|i: int| 0 <= i < parts.len() && (#[trigger] parts[i]).0.index() == k;
            assert(kinds[i].index() == k);
        }
        if lists_kind(kinds, k) {
            let i = choose|i: int| 0 <= i < kinds.len() && (#[trigger] kinds[i]).index() == k;
            assert(parts[i].0.index() == k);
        }
    }
}

/// Adds an entity whose components are `comps`, of the kinds `kinds`, one
/// for one.
fn create_made_of<P, S: System>(
    world: &mut World<P, S>,
    kinds: Vec<ComponentType>,
    comps: Vec<P>,
) -> (idx: usize)
    requires
        old(world).wf(),
        kinds@.len() == comps@.len(),
    ensures
        final(world).wf(),
        made_of(*final(world), idx, kinds@),
        distinct_kinds(kinds@) ==> holds_parts(*final(world), idx, kinds@, comps@),
        forall|i: int|
            0 <= i < kinds@.len() && distinct_kinds(kinds@) ==> carries(*final(world), idx, #[trigger] kinds@[i], comps@[i]),
        added_alone(*old(world), *final(world), idx, kinds@),
{
    let ghost gk = kinds@;
    let ghost gc = comps@;
    let mut parts: Vec<(ComponentType, P)> = Vec::new();
    let mut kinds = kinds;
    let mut comps = comps;
    while kinds.len() > 0
        invariant
            kinds@.len() == comps@.len(),
            gk.len() == gc.len(),
            parts@.len() + kinds@.len() == gk.len(),
            kinds@ == gk.skip(parts@.len() as int),
            comps@ == gc.skip(parts@.len() as int),
            parts@ == zip_parts(gk.take(parts@.len() as int), gc.take(parts@.len() as int)),
        decreases kinds@.len(),
    {
        let ghost n = parts@.len() as int;
        let kind = kinds.remove(0);
        let comp = comps.remove(0);
        proof {
            assert(gk[n] == kind && gc[n] == comp);
            assert(kinds@ =~= gk.skip(n + 1));
            assert(comps@ =~= gc.skip(n + 1));
        }
        parts.push((kind, comp));
        proof {
            assert(parts@ =~= zip_parts(gk.take(n + 1), gc.take(n + 1)));
        }
    }
    proof {
        assert(gk.take(gk.len() as int) =~= gk);
        assert(gc.take(gc.len() as int) =~= gc);
        lemma_parts_kinds(gk, gc);
    }
    let ghost parts_v = parts@;
    let idx = world.create_body(parts);
    proof {
        if distinct_kinds(gk) {
            assert forall|i: int| 0 <= i < gk.len() implies holds_part(*world, idx, #[trigger] gk[i], gc[i]) by {
                assert(parts_v[i] == (gk[i], gc[i]));
                assert forall|j: int| 0 <= j < i implies (#[trigger] parts_v[j]).0.index() != parts_v[i].0.index() by {
                    assert(parts_v[j].0 == gk[j]);
                }
                assert(first_of_kind(parts_v, i));
            }
            assert forall|i: int| 0 <= i < gk.len() implies carries(*world, idx, #[trigger] gk[i], gc[i]) by {
                assert(holds_part(*world, idx, gk[i], gc[i]));
                assert(lists_kind(gk, gk[i].index()));
            }
        }
    }
    idx
}

/// Adds a star, from its location, old location, size, mass, solidity
/// and sprite components.
pub fn create_star<P, S: System>(
    world: &mut World<P, S>,
    location: P,
    old_location: P,
    size: P,
    mass: P,
    solid: P,
    sprite: P,
) -> (idx: usize)
    requires
        old(world).wf(),
    ensures
        final(world).wf(),
        made_of(*final(world), idx, star_kinds()),
        holds_parts(*final(world), idx, star_kinds(), seq![location, old_location, size, mass, solid, sprite]),
        added_alone(*old(world), *final(world), idx, star_kinds()),
        forall|k: int|
            0 <= k < NUM_COMPONENTS ==> ((#[trigger] final(world).ents().entity(idx as int)[k]) is Some <==> (k == ComponentType::Location.index() || k == ComponentType::OldLocation.index() || k == ComponentType::Size.index() || k == ComponentType::Mass.index() || k == ComponentType::Solid.index() || k == ComponentType::Sprite.index())),
        carries(*final(world), idx, ComponentType::Location, location),
        carries(*final(world), idx, ComponentType::OldLocation, old_location),
        carries(*final(world), idx, ComponentType::Size, size),
        carries(*final(world), idx, ComponentType::Mass, mass),
        carries(*final(world), idx, ComponentType::Solid, solid),
        carries(*final(world), idx, ComponentType::Sprite, sprite),
{
    proof {
        lemma_star_kinds();
        assert(seq![location, old_location, size, mass, solid, sprite][0] == location);
        assert(seq![location, old_location, size, mass, solid, sprite][1] == old_location);
        assert(seq![location, old_location, size, mass, solid, sprite][2] == size);
        assert(seq![location, old_location, size, mass, solid, sprite][3] == mass);
        assert(seq![location, old_location, size, mass, solid, sprite][4] == solid);
        assert(seq![location, old_location, size, mass, solid, sprite][5] == sprite);
    }
    let kinds = vec![
        ComponentType::Location,
        ComponentType::OldLocation,
        ComponentType::Size,
        ComponentType::Mass,
        ComponentType::Solid,
        ComponentType::Sprite,
    ];
    let comps = vec![location, old_location, size, mass, solid, sprite];
    assert(kinds@ == star_kinds());
    assert(comps@ == seq![location, old_location, size, mass, solid, sprite]);
    assert(distinct_kinds(kinds@));
    create_made_of(world, kinds, comps)
}

/// Adds a hole, from its location, old location, size, mass, hole and
/// sprite components.
pub fn create_hole<P, S: System>(
    world: &mut World<P, S>,
    location: P,
    old_location: P,
    size: P,
    mass: P,
    hole: P,
    sprite: P,
) -> (idx: usize)
    requires
        old(world).wf(),
    ensures
        final(world).wf(),
        made_of(*final(world), idx, hole_kinds()),
        holds_parts(*final(world), idx, hole_kinds(), seq![location, old_location, size, mass, hole, sprite]),
        added_alone(*old(world), *final(world), idx, hole_kinds()),
        forall|k: int|
            0 <= k < NUM_COMPONENTS ==> ((#[trigger] final(world).ents().entity(idx as int)[k]) is Some <==> (k == ComponentType::Location.index() || k == ComponentType::OldLocation.index() || k == ComponentType::Size.index() || k == ComponentType::Mass.index() || k == ComponentType::Hole.index() || k == ComponentType::Sprite.index())),
        carries(*final(world), idx, ComponentType::Location, location),
        carries(*final(world), idx, ComponentType::OldLocation, old_location),
        carries(*final(world), idx, ComponentType::Size, size),
        carries(*final(world), idx, ComponentType::Mass, mass),
        carries(*final(world), idx, ComponentType::Hole, hole),
        carries(*final(world), idx, ComponentType::Sprite, sprite),
{
    proof {
        lemma_hole_kinds();
        assert(seq![location, old_location, size, mass, hole, sprite][0] == location);
        assert(seq![location, old_location, size, mass, hole, sprite][1] == old_location);
        assert(seq![location, old_location, size, mass, hole, sprite][2] == size);
        assert(seq![location, old_location, size, mass, hole, sprite][3] == mass);
        assert(seq![location, old_location, size, mass, hole, sprite][4] == hole);
        assert(seq![location, old_location, size, mass, hole, sprite][5] == sprite);
    }
    let kinds = vec![
        ComponentType::Location,
        ComponentType::OldLocation,
        ComponentType::Size,
        ComponentType::Mass,
        ComponentType::Hole,
        ComponentType::Sprite,
    ];
    let comps = vec![location, old_location, size, mass, hole, sprite];
    assert(kinds@ == hole_kinds());
    assert(comps@ == seq![location, old_location, size, mass, hole, sprite]);
    assert(distinct_kinds(kinds@));
    create_made_of(world, kinds, comps)
}

/// Adds a target, from its location, old location, size, switchability,
/// sprite and target components.
pub fn create_target<P, S: System>(
    world: &mut World<P, S>,
    location: P,
    old_location: P,
    size: P,
    switchable: P,
    sprite: P,
    target: P,
) -> (idx: usize)
    requires
        old(world).wf(),
    ensures
        final(world).wf(),
        made_of(*final(world), idx, target_kinds()),
        holds_parts(*final(world), idx, target_kinds(), seq![location, old_location, size, switchable, sprite, target]),
        added_alone(*old(world), *final(world), idx, target_kinds()),
        forall|k: int|
            0 <= k < NUM_COMPONENTS ==> ((#[trigger] final(world).ents().entity(idx as int)[k]) is Some <==> (k == ComponentType::Location.index() || k == ComponentType::OldLocation.index() || k == ComponentType::Size.index() || k == ComponentType::Switchable.index() || k == ComponentType::Sprite.index() || k == ComponentType::Target.index())),
        carries(*final(world), idx, ComponentType::Location, location),
        carries(*final(world), idx, ComponentType::OldLocation, old_location),
        carries(*final(world), idx, ComponentType::Size, size),
        carries(*final(world), idx, ComponentType::Switchable, switchable),
        carries(*final(world), idx, ComponentType::Sprite, sprite),
        carries(*final(world), idx, ComponentType::Target, target),
{
    proof {
        lemma_target_kinds();
        assert(seq![location, old_location, size, switchable, sprite, target][0] == location);
        assert(seq![location, old_location, size, switchable, sprite, target][1] == old_location);
        assert(seq![location, old_location, size, switchable, sprite, target][2] == size);
        assert(seq![location, old_location, size, switchable, sprite, target][3] == switchable);
        assert(seq![location, old_location, size, switchable, sprite, target][4] == sprite);
        assert(seq![location, old_location, size, switchable, sprite, target][5] == target);
    }
    let kinds = vec![
        ComponentType::Location,
        ComponentType::OldLocation,
        ComponentType::Size,
        ComponentType::Switchable,
        ComponentType::Sprite,
        ComponentType::Target,
    ];
    let comps = vec![location, old_location, size, switchable, sprite, target];
    assert(kinds@ == target_kinds());
    assert(comps@ == seq![location, old_location, size, switchable, sprite, target]);
    assert(distinct_kinds(kinds@));
    create_made_of(world, kinds, comps)
}

/// Adds the player, from its location, old location, velocity,
/// acceleration, size, mass, sprite and player components.
pub fn create_player<P, S: System>(
    world: &mut World<P, S>,
    location: P,
    old_location: P,
    velocity: P,
    acceleration: P,
    size: P,
    mass: P,
    sprite: P,
    player: P,
) -> (idx: usize)
    requires
        old(world).wf(),
    ensures
        final(world).wf(),
        made_of(*final(world), idx, player_kinds()),
        holds_parts(*final(world), idx, player_kinds(), seq![location, old_location, velocity, acceleration, size, mass, sprite, player]),
        added_alone(*old(world), *final(world), idx, player_kinds()),
        forall|k: int|
            0 <= k < NUM_COMPONENTS ==> ((#[trigger] final(world).ents().entity(idx as int)[k]) is Some <==> (k == ComponentType::Location.index() || k == ComponentType::OldLocation.index() || k == ComponentType::Velocity.index() || k == ComponentType::Acceleration.index() || k == ComponentType::Size.index() || k == ComponentType::Mass.index() || k == ComponentType::Sprite.index() || k == ComponentType::Player.index())),
        carries(*final(world), idx, ComponentType::Location, location),
        carries(*final(world), idx, ComponentType::OldLocation, old_location),
        carries(*final(world), idx, ComponentType::Velocity, velocity),
        carries(*final(world), idx, ComponentType::Acceleration, acceleration),
        carries(*final(world), idx, ComponentType::Size, size),
        carries(*final(world), idx, ComponentType::Mass, mass),
        carries(*final(world), idx, ComponentType::Sprite, sprite),
        carries(*final(world), idx, ComponentType::Player, player),
{
    proof {
        lemma_player_kinds();
        assert(seq![location, old_location, velocity, acceleration, size, mass, sprite, player][0] == location);
        assert(seq![location, old_location, velocity, acceleration, size, mass, sprite, player][1] == old_location);
        assert(seq![location, old_location, velocity, acceleration, size, mass, sprite, player][2] == velocity);
        assert(seq![location, old_location, velocity, acceleration, size, mass, sprite, player][3] == acceleration);
        assert(seq![location, old_location, velocity, acceleration, size, mass, sprite, player][4] == size);
        assert(seq![location, old_location, velocity, acceleration, size, mass, sprite, player][5] == mass);
        assert(seq![location, old_location, velocity, acceleration, size, mass, sprite, player][6] == sprite);
        assert(seq![location, old_location, velocity, acceleration, size, mass, sprite, player][7] == player);
    }
    let kinds = vec![
        ComponentType::Location,
        ComponentType::OldLocation,
        ComponentType::Velocity,
        ComponentType::Acceleration,
        ComponentType::Size,
        ComponentType::Mass,
        ComponentType::Sprite,
        ComponentType::Player,
    ];
    let comps = vec![location, old_location, velocity, acceleration, size, mass, sprite, player];
    assert(kinds@ == player_kinds());
    assert(comps@ == seq![location, old_location, velocity, acceleration, size, mass, sprite, player]);
    assert(distinct_kinds(kinds@));
    create_made_of(world, kinds, comps)
}

/// The kinds a star is made of, written out: `star_kinds()` lists
/// exactly these, in this order.
pub proof fn lemma_star_kinds()
    ensures
        star_kinds().len() == 6,
        star_kinds()[0] == ComponentType::Location,
        star_kinds()[1] == ComponentType::OldLocation,
        star_kinds()[2] == ComponentType::Size,
        star_kinds()[3] == ComponentType::Mass,
        star_kinds()[4] == ComponentType::Solid,
        star_kinds()[5] == ComponentType::Sprite,
        forall|k: int| lists_kind(star_kinds(), k) <==> (k == ComponentType::Location.index() || k == ComponentType::OldLocation.index() || k == ComponentType::Size.index() || k == ComponentType::Mass.index() || k == ComponentType::Solid.index() || k == ComponentType::Sprite.index()),
{
    let kinds = star_kinds();
    assert forall|k: int| lists_kind(kinds, k) <==> (k == ComponentType::Location.index() || k == ComponentType::OldLocation.index() || k == ComponentType::Size.index() || k == ComponentType::Mass.index() || k == ComponentType::Solid.index() || k == ComponentType::Sprite.index()) by {
        if lists_kind(kinds, k) {
            let i = choose|i: int| 0 <= i < kinds.len() && (#[trigger] kinds[i]).index() == k;
            assert(0 <= i < 6);
        }
        assert(kinds[0].index() == ComponentType::Location.index());
        assert(kinds[1].index() == ComponentType::OldLocation.index());
        assert(kinds[2].index() == ComponentType::Size.index());
        assert(kinds[3].index() == ComponentType::Mass.index());
        assert(kinds[4].index() == ComponentType::Solid.index());
        assert(kinds[5].index() == ComponentType::Sprite.index());
    }
}

/// What a star built from its components holds, its kinds written out:
/// exactly these kinds, each with the component it was given.
pub proof fn law_star_built<P, S: System>(
    w: World<P, S>,
    idx: usize,
    location: P,
    old_location: P,
    size: P,
    mass: P,
    solid: P,
    sprite: P,
)
    requires
        made_of(w, idx, star_kinds()),
        holds_parts(w, idx, star_kinds(), seq![location, old_location, size, mass, solid, sprite]),
    ensures
        w.ents().live(idx as int),
        forall|k: int|
            0 <= k < NUM_COMPONENTS ==> ((#[trigger] w.ents().entity(idx as int)[k]) is Some <==> (k == ComponentType::Location.index() || k == ComponentType::OldLocation.index() || k == ComponentType::Size.index() || k == ComponentType::Mass.index() || k == ComponentType::Solid.index() || k == ComponentType::Sprite.index())),
        carries(w, idx, ComponentType::Location, location),
        carries(w, idx, ComponentType::OldLocation, old_location),
        carries(w, idx, ComponentType::Size, size),
        carries(w, idx, ComponentType::Mass, mass),
        carries(w, idx, ComponentType::Solid, solid),
        carries(w, idx, ComponentType::Sprite, sprite),
{
    lemma_star_kinds();
    let kinds = star_kinds();
    let comps = seq![location, old_location, size, mass, solid, sprite];
    assert(holds_part(w, idx, kinds[0], comps[0]) && lists_kind(kinds, kinds[0].index()));
    assert(holds_part(w, idx, kinds[1], comps[1]) && lists_kind(kinds, kinds[1].index()));
    assert(holds_part(w, idx, kinds[2], comps[2]) && lists_kind(kinds, kinds[2].index()));
    assert(holds_part(w, idx, kinds[3], comps[3]) && lists_kind(kinds, kinds[3].index()));
    assert(holds_part(w, idx, kinds[4], comps[4]) && lists_kind(kinds, kinds[4].index()));
    assert(holds_part(w, idx, kinds[5], comps[5]) && lists_kind(kinds, kinds[5].index()));
}

/// The kinds a hole is made of, written out: `hole_kinds()` lists
/// exactly these, in this order.
pub proof fn lemma_hole_kinds()
    ensures
        hole_kinds().len() == 6,
        hole_kinds()[0] == ComponentType::Location,
        hole_kinds()[1] == ComponentType::OldLocation,
        hole_kinds()[2] == ComponentType::Size,
        hole_kinds()[3] == ComponentType::Mass,
        hole_kinds()[4] == ComponentType::Hole,
        hole_kinds()[5] == ComponentType::Sprite,
        forall|k: int| lists_kind(hole_kinds(), k) <==> (k == ComponentType::Location.index() || k == ComponentType::OldLocation.index() || k == ComponentType::Size.index() || k == ComponentType::Mass.index() || k == ComponentType::Hole.index() || k == ComponentType::Sprite.index()),
{
    let kinds = hole_kinds();
    assert forall|k: int| lists_kind(kinds, k) <==> (k == ComponentType::Location.index() || k == ComponentType::OldLocation.index() || k == ComponentType::Size.index() || k == ComponentType::Mass.index() || k == ComponentType::Hole.index() || k == ComponentType::Sprite.index()) by {
        if lists_kind(kinds, k) {
            let i = choose|i: int| 0 <= i < kinds.len() && (#[trigger] kinds[i]).index() == k;
            assert(0 <= i < 6);
        }
        assert(kinds[0].index() == ComponentType::Location.index());
        assert(kinds[1].index() == ComponentType::OldLocation.index());
        assert(kinds[2].index() == ComponentType::Size.index());
        assert(kinds[3].index() == ComponentType::Mass.index());
        assert(kinds[4].index() == ComponentType::Hole.index());
        assert(kinds[5].index() == ComponentType::Sprite.index());
    }
}

/// What a hole built from its components holds, its kinds written out:
/// exactly these kinds, each with the component it was given.
pub proof fn law_hole_built<P, S: System>(
    w: World<P, S>,
    idx: usize,
    location: P,
    old_location: P,
    size: P,
    mass: P,
    hole: P,
    sprite: P,
)
    requires
        made_of(w, idx, hole_kinds()),
        holds_parts(w, idx, hole_kinds(), seq![location, old_location, size, mass, hole, sprite]),
    ensures
        w.ents().live(idx as int),
        forall|k: int|
            0 <= k < NUM_COMPONENTS ==> ((#[trigger] w.ents().entity(idx as int)[k]) is Some <==> (k == ComponentType::Location.index() || k == ComponentType::OldLocation.index() || k == ComponentType::Size.index() || k == ComponentType::Mass.index() || k == ComponentType::Hole.index() || k == ComponentType::Sprite.index())),
        carries(w, idx, ComponentType::Location, location),
        carries(w, idx, ComponentType::OldLocation, old_location),
        carries(w, idx, ComponentType::Size, size),
        carries(w, idx, ComponentType::Mass, mass),
        carries(w, idx, ComponentType::Hole, hole),
        carries(w, idx, ComponentType::Sprite, sprite),
{
    lemma_hole_kinds();
    let kinds = hole_kinds();
    let comps = seq![location, old_location, size, mass, hole, sprite];
    assert(holds_part(w, idx, kinds[0], comps[0]) && lists_kind(kinds, kinds[0].index()));
    assert(holds_part(w, idx, kinds[1], comps[1]) && lists_kind(kinds, kinds[1].index()));
    assert(holds_part(w, idx, kinds[2], comps[2]) && lists_kind(kinds, kinds[2].index()));
    assert(holds_part(w, idx, kinds[3], comps[3]) && lists_kind(kinds, kinds[3].index()));
    assert(holds_part(w, idx, kinds[4], comps[4]) && lists_kind(kinds, kinds[4].index()));
    assert(holds_part(w, idx, kinds[5], comps[5]) && lists_kind(kinds, kinds[5].index()));
}

/// The kinds a target is made of, written out: `target_kinds()` lists
/// exactly these, in this order.
pub proof fn lemma_target_kinds()
    ensures
        target_kinds().len() == 6,
        target_kinds()[0] == ComponentType::Location,
        target_kinds()[1] == ComponentType::OldLocation,
        target_kinds()[2] == ComponentType::Size,
        target_kinds()[3] == ComponentType::Switchable,
        target_kinds()[4] == ComponentType::Sprite,
        target_kinds()[5] == ComponentType::Target,
        forall|k: int| lists_kind(target_kinds(), k) <==> (k == ComponentType::Location.index() || k == ComponentType::OldLocation.index() || k == ComponentType::Size.index() || k == ComponentType::Switchable.index() || k == ComponentType::Sprite.index() || k == ComponentType::Target.index()),
{
    let kinds = target_kinds();
    assert forall|k: int| lists_kind(kinds, k) <==> (k == ComponentType::Location.index() || k == ComponentType::OldLocation.index() || k == ComponentType::Size.index() || k == ComponentType::Switchable.index() || k == ComponentType::Sprite.index() || k == ComponentType::Target.index()) by {
        if lists_kind(kinds, k) {
            let i = choose|i: int| 0 <= i < kinds.len() && (#[trigger] kinds[i]).index() == k;
            assert(0 <= i < 6);
        }
        assert(kinds[0].index() == ComponentType::Location.index());
        assert(kinds[1].index() == ComponentType::OldLocation.index());
        assert(kinds[2].index() == ComponentType::Size.index());
        assert(kinds[3].index() == ComponentType::Switchable.index());
        assert(kinds[4].index() == ComponentType::Sprite.index());
        assert(kinds[5].index() == ComponentType::Target.index());
    }
}

/// What a target built from its components holds, its kinds written out:
/// exactly these kinds, each with the component it was given.
pub proof fn law_target_built<P, S: System>(
    w: World<P, S>,
    idx: usize,
    location: P,
    old_location: P,
    size: P,
    switchable: P,
    sprite: P,
    target: P,
)
    requires
        made_of(w, idx, target_kinds()),
        holds_parts(w, idx, target_kinds(), seq![location, old_location, size, switchable, sprite, target]),
    ensures
        w.ents().live(idx as int),
        forall|k: int|
            0 <= k < NUM_COMPONENTS ==> ((#[trigger] w.ents().entity(idx as int)[k]) is Some <==> (k == ComponentType::Location.index() || k == ComponentType::OldLocation.index() || k == ComponentType::Size.index() || k == ComponentType::Switchable.index() || k == ComponentType::Sprite.index() || k == ComponentType::Target.index())),
        carries(w, idx, ComponentType::Location, location),
        carries(w, idx, ComponentType::OldLocation, old_location),
        carries(w, idx, ComponentType::Size, size),
        carries(w, idx, ComponentType::Switchable, switchable),
        carries(w, idx, ComponentType::Sprite, sprite),
        carries(w, idx, ComponentType::Target, target),
{
    lemma_target_kinds();
    let kinds = target_kinds();
    let comps = seq![location, old_location, size, switchable, sprite, target];
    assert(holds_part(w, idx, kinds[0], comps[0]) && lists_kind(kinds, kinds[0].index()));
    assert(holds_part(w, idx, kinds[1], comps[1]) && lists_kind(kinds, kinds[1].index()));
    assert(holds_part(w, idx, kinds[2], comps[2]) && lists_kind(kinds, kinds[2].index()));
    assert(holds_part(w, idx, kinds[3], comps[3]) && lists_kind(kinds, kinds[3].index()));
    assert(holds_part(w, idx, kinds[4], comps[4]) && lists_kind(kinds, kinds[4].index()));
    assert(holds_part(w, idx, kinds[5], comps[5]) && lists_kind(kinds, kinds[5].index()));
}

/// The kinds a player is made of, written out: `player_kinds()` lists
/// exactly these, in this order.
pub proof fn lemma_player_kinds()
    ensures
        player_kinds().len() == 8,
        player_kinds()[0] == ComponentType::Location,
        player_kinds()[1] == ComponentType::OldLocation,
        player_kinds()[2] == ComponentType::Velocity,
        player_kinds()[3] == ComponentType::Acceleration,
        player_kinds()[4] == ComponentType::Size,
        player_kinds()[5] == ComponentType::Mass,
        player_kinds()[6] == ComponentType::Sprite,
        player_kinds()[7] == ComponentType::Player,
        forall|k: int| lists_kind(player_kinds(), k) <==> (k == ComponentType::Location.index() || k == ComponentType::OldLocation.index() || k == ComponentType::Velocity.index() || k == ComponentType::Acceleration.index() || k == ComponentType::Size.index() || k == ComponentType::Mass.index() || k == ComponentType::Sprite.index() || k == ComponentType::Player.index()),
{
    let kinds = player_kinds();
    assert forall|k: int| lists_kind(kinds, k) <==> (k == ComponentType::Location.index() || k == ComponentType::OldLocation.index() || k == ComponentType::Velocity.index() || k == ComponentType::Acceleration.index() || k == ComponentType::Size.index() || k == ComponentType::Mass.index() || k == ComponentType::Sprite.index() || k == ComponentType::Player.index()) by {
        if lists_kind(kinds, k) {
            let i = choose|i: int| 0 <= i < kinds.len() && (#[trigger] kinds[i]).index() == k;
            assert(0 <= i < 8);
        }
        assert(kinds[0].index() == ComponentType::Location.index());
        assert(kinds[1].index() == ComponentType::OldLocation.index());
        assert(kinds[2].index() == ComponentType::Velocity.index());
        assert(kinds[3].index() == ComponentType::Acceleration.index());
        assert(kinds[4].index() == ComponentType::Size.index());
        assert(kinds[5].index() == ComponentType::Mass.index());
        assert(kinds[6].index() == ComponentType::Sprite.index());
        assert(kinds[7].index() == ComponentType::Player.index());
    }
}

/// What a player built from its components holds, its kinds written out:
/// exactly these kinds, each with the component it was given.
pub proof fn law_player_built<P, S: System>(
    w: World<P, S>,
    idx: usize,
    location: P,
    old_location: P,
    velocity: P,
    acceleration: P,
    size: P,
    mass: P,
    sprite: P,
    player: P,
)
    requires
        made_of(w, idx, player_kinds()),
        holds_parts(w, idx, player_kinds(), seq![location, old_location, velocity, acceleration, size, mass, sprite, player]),
    ensures
        w.ents().live(idx as int),
        forall|k: int|
            0 <= k < NUM_COMPONENTS ==> ((#[trigger] w.ents().entity(idx as int)[k]) is Some <==> (k == ComponentType::Location.index() || k == ComponentType::OldLocation.index() || k == ComponentType::Velocity.index() || k == ComponentType::Acceleration.index() || k == ComponentType::Size.index() || k == ComponentType::Mass.index() || k == ComponentType::Sprite.index() || k == ComponentType::Player.index())),
        carries(w, idx, ComponentType::Location, location),
        carries(w, idx, ComponentType::OldLocation, old_location),
        carries(w, idx, ComponentType::Velocity, velocity),
        carries(w, idx, ComponentType::Acceleration, acceleration),
        carries(w, idx, ComponentType::Size, size),
        carries(w, idx, ComponentType::Mass, mass),
        carries(w, idx, ComponentType::Sprite, sprite),
        carries(w, idx, ComponentType::Player, player),
{
    lemma_player_kinds();
    let kinds = player_kinds();
    let comps = seq![location, old_location, velocity, acceleration, size, mass, sprite, player];
    assert(holds_part(w, idx, kinds[0], comps[0]) && lists_kind(kinds, kinds[0].index()));
    assert(holds_part(w, idx, kinds[1], comps[1]) && lists_kind(kinds, kinds[1].index()));
    assert(holds_part(w, idx, kinds[2], comps[2]) && lists_kind(kinds, kinds[2].index()));
    assert(holds_part(w, idx, kinds[3], comps[3]) && lists_kind(kinds, kinds[3].index()));
    assert(holds_part(w, idx, kinds[4], comps[4]) && lists_kind(kinds, kinds[4].index()));
    assert(holds_part(w, idx, kinds[5], comps[5]) && lists_kind(kinds, kinds[5].index()));
    assert(holds_part(w, idx, kinds[6], comps[6]) && lists_kind(kinds, kinds[6].index()));
    assert(holds_part(w, idx, kinds[7], comps[7]) && lists_kind(kinds, kinds[7].index()));
}

/// What gravity and the hidden switch make of each body: stars and holes
/// pull but are not moved, the player is both pulled and pulls, targets
/// neither; the switch tracks targets and holes and nothing else.
pub proof fn law_body_roles<P, S: System>(w: World<P, S>, star: usize, hole: usize, target: usize, player: usize)
    requires
        made_of(w, star, star_kinds()),
        made_of(w, hole, hole_kinds()),
        made_of(w, target, target_kinds()),
        made_of(w, player, player_kinds()),
    ensures
        has_kinds(w.ents().entity(star as int), all_mass_kinds()),
        !has_kinds(w.ents().entity(star as int), movable_mass_kinds()),
        has_kinds(w.ents().entity(hole as int), all_mass_kinds()),
        !has_kinds(w.ents().entity(hole as int), movable_mass_kinds()),
        has_kinds(w.ents().entity(player as int), movable_mass_kinds()),
        !has_kinds(w.ents().entity(target as int), all_mass_kinds()),
        has_kinds(w.ents().entity(target as int), easter::target_kinds()),
        has_kinds(w.ents().entity(hole as int), easter::hole_kinds()),
        !has_kinds(w.ents().entity(star as int), easter::target_kinds()),
        !has_kinds(w.ents().entity(star as int), easter::hole_kinds()),
        !has_kinds(w.ents().entity(player as int), easter::target_kinds()),
        !has_kinds(w.ents().entity(player as int), easter::hole_kinds()),
{
    let s = w.ents().entity(star as int);
    let h = w.ents().entity(hole as int);
    let t = w.ents().entity(target as int);
    let p = w.ents().entity(player as int);
    assert(lists_kind(star_kinds(), ComponentType::Mass.index()) && star_kinds()[3] == ComponentType::Mass);
    assert(star_kinds()[0] == ComponentType::Location && star_kinds()[2] == ComponentType::Size);
    assert(s[ComponentType::Mass.index()] is Some && s[ComponentType::Location.index()] is Some
        && s[ComponentType::Size.index()] is Some);
    assert(s[ComponentType::Acceleration.index()] is None);
    assert(!has_kinds(s, movable_mass_kinds())) by {
        assert(movable_mass_kinds()[2] == ComponentType::Acceleration);
    }
    assert(hole_kinds()[0] == ComponentType::Location && hole_kinds()[2] == ComponentType::Size
        && hole_kinds()[3] == ComponentType::Mass && hole_kinds()[4] == ComponentType::Hole);
    assert(h[ComponentType::Mass.index()] is Some && h[ComponentType::Location.index()] is Some
        && h[ComponentType::Size.index()] is Some && h[ComponentType::Hole.index()] is Some);
    assert(h[ComponentType::Acceleration.index()] is None);
    assert(!has_kinds(h, movable_mass_kinds())) by {
        assert(movable_mass_kinds()[2] == ComponentType::Acceleration);
    }
    assert(player_kinds()[0] == ComponentType::Location && player_kinds()[3] == ComponentType::Acceleration
        && player_kinds()[4] == ComponentType::Size && player_kinds()[5] == ComponentType::Mass);
    assert(p[ComponentType::Mass.index()] is Some && p[ComponentType::Location.index()] is Some
        && p[ComponentType::Size.index()] is Some && p[ComponentType::Acceleration.index()] is Some);
    assert(t[ComponentType::Mass.index()] is None);
    assert(!has_kinds(t, all_mass_kinds())) by {
        assert(all_mass_kinds()[0] == ComponentType::Mass);
    }
    assert(target_kinds()[5] == ComponentType::Target && target_kinds()[4] == ComponentType::Sprite
        && target_kinds()[0] == ComponentType::Location && target_kinds()[2] == ComponentType::Size
        && target_kinds()[3] == ComponentType::Switchable && target_kinds()[1] == ComponentType::OldLocation);
    assert(t[ComponentType::Target.index()] is Some && t[ComponentType::Sprite.index()] is Some
        && t[ComponentType::Location.index()] is Some && t[ComponentType::Size.index()] is Some
        && t[ComponentType::Switchable.index()] is Some && t[ComponentType::OldLocation.index()] is Some);
    assert(s[ComponentType::Target.index()] is None && s[ComponentType::Hole.index()] is None
        && s[ComponentType::Switchable.index()] is None);
    assert(p[ComponentType::Target.index()] is None && p[ComponentType::Hole.index()] is None
        && p[ComponentType::Switchable.index()] is None);
}

} // verus!

verus! {

/// Whether entity `idx` of `w` is live and made of `parts`: it has exactly
/// their kinds, and the first part of each kind is its component of that
/// kind.
pub open spec fn made_of_parts<P, S: System>(w: World<P, S>, idx: usize, parts: Seq<(ComponentType, P)>) -> bool {
    &&& w.ents().live(idx as int)
    &&& forall|k: int|
        0 <= k < NUM_COMPONENTS ==> ((#[trigger] w.ents().entity(idx as int)[k]) is Some <==> has_part(parts, k))
    &&& forall|i: int|
        0 <= i < parts.len() && first_of_kind(parts, i) ==> holds_part(w, idx, (#[trigger] parts[i]).0, parts[i].1)
}

/// An entity made of its parts stays so when another entity, not live
/// before, is added and nothing else live or stored is touched.
proof fn lemma_made_kept<P, S: System>(
    pre: World<P, S>,
    post: World<P, S>,
    e: usize,
    idx: usize,
    parts: Seq<(ComponentType, P)>,
)
    requires
        pre.wf(),
        made_of_parts(pre, e, parts),
        !pre.ents().live(idx as int),
        post.ents().table()@.len() >= pre.ents().table()@.len(),
        forall|j: int|
            0 <= j < pre.ents().table()@.len() && j != idx ==> #[trigger] post.ents().table()@[j]
                == pre.ents().table()@[j],
        forall|k: int, c: int|
            0 <= k < NUM_COMPONENTS && 0 <= c < pre.comps().set_at(k).store()@.len()
                && pre.comps().set_at(k).store()@[c] is Some ==> #[trigger] post.comps().set_at(k).store()@[c]
                == pre.comps().set_at(k).store()@[c],
    ensures
        made_of_parts(post, e, parts),
        e != idx,
{
    assert(post.ents().table()@[e as int] == pre.ents().table()@[e as int]);
    assert forall|i: int| 0 <= i < parts.len() && first_of_kind(parts, i) implies holds_part(
        post,
        e,
        (#[trigger] parts[i]).0,
        parts[i].1,
    ) by {
        let k = parts[i].0.index();
        assert(has_part(parts, k));
        assert(pre.ents().entity(e as int)[k] is Some);
        let c = pre.ents().entity(e as int)[k].unwrap();
        assert(c < pre.comps().set_at(k).store()@.len());
        assert(post.comps().set_at(k).store()@[c as int] == pre.comps().set_at(k).store()@[c as int]);
    }
}

/// Builds a level: first the player from `player`, then one entity for
/// each of `bodies`, in order. Returns the player's entity and the bodies'
/// entities, in the order of `bodies`; all are new and distinct, each is
/// made of its parts, and the entities live before are left alone.
pub fn create_level<P, S: System>(
    world: &mut World<P, S>,
    player: Vec<(ComponentType, P)>,
    bodies: Vec<Vec<(ComponentType, P)>>,
) -> (r: (usize, Vec<usize>))
    requires
        old(world).wf(),
    ensures
        final(world).wf(),
        final(world).system_list() == old(world).system_list(),
        made_of_parts(*final(world), r.0, player@),
        !old(world).ents().live(r.0 as int),
        r.1@.len() == bodies@.len(),
        forall|i: int|
            0 <= i < bodies@.len() ==> made_of_parts(*final(world), #[trigger] r.1@[i], bodies@[i]@),
        forall|i: int|
            0 <= i < bodies@.len() ==> !old(world).ents().live(#[trigger] r.1@[i] as int) && r.1@[i] != r.0,
        forall|i: int, j: int| 0 <= i < j < bodies@.len() ==> #[trigger] r.1@[i] != #[trigger] r.1@[j],
        final(world).ents().table()@.len() >= old(world).ents().table()@.len(),
        forall|j: int|
            #[trigger] old(world).ents().live(j) ==> final(world).ents().table()@[j] == old(world).ents().table()@[j],
{
    let ghost orig = bodies@;
    let ghost player_parts = player@;
    let p = world.create_body(player);
    let mut rest = bodies;
    let mut ids: Vec<usize> = Vec::new();
    while rest.len() > 0
        invariant
            world.wf(),
            world.system_list() == old(world).system_list(),
            ids@.len() + rest@.len() == orig.len(),
            rest@ == orig.skip(ids@.len() as int),
            made_of_parts(*world, p, player_parts),
            !old(world).ents().live(p as int),
            forall|i: int| 0 <= i < ids@.len() ==> made_of_parts(*world, #[trigger] ids@[i], orig[i]@),
            forall|i: int|
                0 <= i < ids@.len() ==> !old(world).ents().live(#[trigger] ids@[i] as int) && ids@[i] != p,
            forall|i: int, j: int| 0 <= i < j < ids@.len() ==> #[trigger] ids@[i] != #[trigger] ids@[j],
            world.ents().table()@.len() >= old(world).ents().table()@.len(),
            forall|j: int|
                #[trigger] old(world).ents().live(j) ==> world.ents().table()@[j] == old(world).ents().table()@[j],
        decreases rest@.len(),
    {
        let ghost pre = *world;
        let ghost n = ids@.len() as int;
        let parts = rest.remove(0);
        proof {
            assert(orig[n] == parts);
            assert(rest@ =~= orig.skip(n + 1));
        }
        let e = world.create_body(parts);
        proof {
            lemma_made_kept(pre, *world, p, e, player_parts);
            assert forall|i: int| 0 <= i < n implies made_of_parts(*world, #[trigger] ids@[i], orig[i]@) && ids@[i] != e by {
                lemma_made_kept(pre, *world, ids@[i], e, orig[i]@);
            }
            assert forall|j: int| #[trigger] old(world).ents().live(j) implies world.ents().table()@[j]
                == old(world).ents().table()@[j] by {
                assert(pre.ents().table()@[j] == old(world).ents().table()@[j]);
                assert(pre.ents().live(j));
            }
            if old(world).ents().live(e as int) {
                assert(pre.ents().table()@[e as int] == old(world).ents().table()@[e as int]);
                assert(pre.ents().live(e as int));
            }
        }
        ids.push(e);
    }
    (p, ids)
}

} // verus!
