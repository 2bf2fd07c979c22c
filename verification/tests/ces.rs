use spacecam::ces::components::ComponentType;
use spacecam::ces::system::{position_elem, remove_member, update_member, SimpleSystem, System};
use spacecam::ces::world::{SystemWork, World};
use spacecam::ces::{ComponentSet, Components, Entities, Entity};
use spacecam::free_list::FreeList;
use spacecam::physics::PhysicsSystem;

#[test]
fn entity_starts_without_components() {
    let e = Entity::new();
    for i in 0..16 {
        assert_eq!(e.get_comp_idx(spacecam::ces::kind_at(i)), None);
    }
    assert!(e.have_components(&[]));
    assert!(!e.have_components(&[ComponentType::Location]));
}

#[test]
fn kind_numbers_follow_declaration_order() {
    assert_eq!(ComponentType::Location.as_uint(), 0);
    assert_eq!(ComponentType::Velocity.as_uint(), 1);
    assert_eq!(ComponentType::Size.as_uint(), 7);
    assert_eq!(ComponentType::IntermissMode.as_uint(), 15);
    for i in 0..16 {
        assert_eq!(spacecam::ces::kind_at(i).as_uint(), i);
    }
}

#[test]
fn have_components_needs_every_kind() {
    let mut e = Entity::new();
    e.set_comp_idx(ComponentType::Mass, Some(3));
    e.set_comp_idx(ComponentType::Location, Some(0));
    assert!(e.have_components(&[ComponentType::Mass, ComponentType::Location]));
    assert!(!e.have_components(&[ComponentType::Mass, ComponentType::Location, ComponentType::Size]));
    e.set_comp_idx(ComponentType::Size, Some(9));
    assert!(e.have_components(&[ComponentType::Mass, ComponentType::Location, ComponentType::Size]));
    e.set_comp_idx(ComponentType::Mass, None);
    assert!(!e.have_components(&[ComponentType::Mass]));
    assert_eq!(e.get_comp_idx(ComponentType::Size), Some(9));
}

#[test]
fn entity_reads_its_component_from_a_set() {
    let mut set: ComponentSet<&str> = ComponentSet::new();
    let c = set.add("here");
    let mut e = Entity::new();
    assert_eq!(e.get(ComponentType::Target, &set), None);
    e.set_comp_idx(ComponentType::Target, Some(c));
    assert_eq!(e.get(ComponentType::Target, &set), Some(&"here"));
    *e.get_mut(ComponentType::Target, &mut set).unwrap() = "there";
    assert_eq!(set.get(c), &"there");
}

#[test]
fn component_set_processes_removals() {
    let mut set: ComponentSet<i32> = ComponentSet::new();
    let mut ents: FreeList<Entity> = FreeList::new();
    let e = ents.push(Entity::new());
    let c0 = set.add(5);
    let c1 = set.add(6);
    ents.get_mut(e).unwrap().set_comp_idx(ComponentType::Velocity, Some(c1));
    set.sched_remove(e, c1);
    set.process_removals(ComponentType::Velocity, &mut ents);
    assert_eq!(ents.get(e).unwrap().get_comp_idx(ComponentType::Velocity), None);
    // The freed slot is handed out again.
    assert_eq!(set.add(7), c1);
    assert_eq!(set.get(c0), &5);
}

#[test]
fn components_add_only_once_per_kind() {
    let mut comps: Components<i32> = Components::new();
    let mut ents = Entities::new();
    let e = ents.add();
    comps.add(e, ComponentType::Mass, 10, &mut ents);
    comps.add(e, ComponentType::Mass, 20, &mut ents);
    let c = ents.get(e).get_comp_idx(ComponentType::Mass).unwrap();
    assert_eq!(comps.get(ComponentType::Mass, c), &10);
    let changed = ents.process_changes(&mut comps);
    // Added once by `add`, and once by the first component.
    assert_eq!(changed, vec![e, e]);
}

#[test]
fn scheduled_component_removal_waits_for_processing() {
    let mut comps: Components<i32> = Components::new();
    let mut ents = Entities::new();
    let e = ents.add();
    comps.add(e, ComponentType::Hole, 1, &mut ents);
    ents.process_changes(&mut comps);
    comps.sched_remove(e, ComponentType::Hole, &mut ents);
    assert!(ents.get(e).get_comp_idx(ComponentType::Hole).is_some());
    let changed = ents.process_changes(&mut comps);
    assert_eq!(changed, vec![e]);
    assert!(ents.get(e).get_comp_idx(ComponentType::Hole).is_none());
    // Removing what is not there changes nothing.
    comps.sched_remove(e, ComponentType::Hole, &mut ents);
    assert!(ents.process_changes(&mut comps).is_empty());
}

#[test]
fn entities_removal_frees_slots_in_order() {
    let mut ents = Entities::new();
    let a = ents.add();
    let b = ents.add();
    ents.sched_remove(b);
    ents.sched_remove(a);
    let removed = ents.process_removals();
    assert_eq!(removed, vec![b, a]);
    assert!(!ents.is_live(a));
    assert!(!ents.is_live(b));
    // Last freed first.
    assert_eq!(ents.add(), a);
    assert_eq!(ents.add(), b);
}

#[test]
fn membership_helpers() {
    let mut list = vec![4usize, 7, 9];
    assert_eq!(position_elem(&list, 7), Some(1));
    assert_eq!(position_elem(&list, 8), None);
    remove_member(&mut list, 4);
    assert_eq!(list, vec![9, 7]);
    remove_member(&mut list, 5);
    assert_eq!(list, vec![9, 7]);
    let mut e = Entity::new();
    e.set_comp_idx(ComponentType::Player, Some(0));
    update_member(&mut list, &[ComponentType::Player], &e, 3);
    assert_eq!(list, vec![9, 7, 3]);
    update_member(&mut list, &[ComponentType::Player], &e, 3);
    assert_eq!(list, vec![9, 7, 3]);
    update_member(&mut list, &[ComponentType::Player, ComponentType::Sprite], &e, 9);
    assert_eq!(list, vec![3, 7]);
}

#[test]
fn simple_system_tracks_its_kinds() {
    let mut sys = SimpleSystem::new(vec![ComponentType::MenuMode, ComponentType::State]);
    assert_eq!(sys.get_component_types(), &vec![ComponentType::MenuMode, ComponentType::State]);
    let mut e = Entity::new();
    e.set_comp_idx(ComponentType::MenuMode, Some(0));
    sys.component_changed_event(&e, 0);
    assert!(sys.get_entities().is_empty());
    e.set_comp_idx(ComponentType::State, Some(0));
    sys.component_changed_event(&e, 0);
    assert_eq!(sys.get_entities(), &vec![0]);
    sys.remove_entity(0);
    assert!(sys.get_entities().is_empty());
}

#[derive(Debug, Clone, PartialEq)]
enum Payload {
    Location(i32, i32),
    Velocity(i32, i32),
}

struct NoWork;

impl SystemWork<Payload, PhysicsSystem> for NoWork {
    fn update(
        &self,
        _system: &PhysicsSystem,
        entities: Entities,
        components: Components<Payload>,
    ) -> (Entities, Components<Payload>) {
        (entities, components)
    }
}

/// Moves every member of a physics system by its velocity, and records the
/// members it saw, system by system.
struct Mover {
    seen: std::cell::RefCell<Vec<Vec<usize>>>,
}

impl SystemWork<Payload, PhysicsSystem> for Mover {
    fn update(
        &self,
        system: &PhysicsSystem,
        entities: Entities,
        mut components: Components<Payload>,
    ) -> (Entities, Components<Payload>) {
        self.seen.borrow_mut().push(system.entities().clone());
        for &e in system.entities() {
            let ent = entities.get(e);
            let v = ent.get_comp_idx(ComponentType::Velocity).unwrap();
            let l = ent.get_comp_idx(ComponentType::Location).unwrap();
            let (vx, vy) = match components.get(ComponentType::Velocity, v) {
                Payload::Velocity(vx, vy) => (*vx, *vy),
                _ => panic!(),
            };
            if let Payload::Location(x, y) = components.get_mut(ComponentType::Location, l) {
                *x += vx;
                *y += vy;
            }
        }
        (entities, components)
    }
}

#[test]
fn update_runs_each_systems_work_in_order() {
    let mut world: World<Payload, PhysicsSystem> = World::new();
    world.add_system(PhysicsSystem::new());
    world.add_system(PhysicsSystem::new());
    let e = world.add_entity();
    world.add_component(e, ComponentType::Location, Payload::Location(10, 10));
    world.add_component(e, ComponentType::Velocity, Payload::Velocity(-1, 2));
    let mover = Mover { seen: std::cell::RefCell::new(Vec::new()) };
    world.update(&mover);
    // Both systems ran, in order, after hearing of the new entity.
    assert_eq!(*mover.seen.borrow(), vec![vec![e], vec![e]]);
    assert_eq!(world.get_component(e, ComponentType::Location), Some(&Payload::Location(8, 14)));
    world.update(&mover);
    assert_eq!(mover.seen.borrow().len(), 4);
    assert_eq!(world.get_component(e, ComponentType::Location), Some(&Payload::Location(6, 18)));
}

#[test]
fn world_follows_the_demo_program() {
    let mut world: World<Payload, PhysicsSystem> = World::new();
    world.add_system(PhysicsSystem::new());
    let e = world.add_entity();
    world.update(&NoWork);
    assert!(world.system(0).entities().is_empty());
    world.add_component(e, ComponentType::Location, Payload::Location(10, 10));
    world.add_component(e, ComponentType::Velocity, Payload::Velocity(-1, -1));
    world.update(&NoWork);
    assert_eq!(world.system(0).entities(), &vec![e]);
    assert_eq!(world.get_component(e, ComponentType::Location), Some(&Payload::Location(10, 10)));
    world.sched_remove_component(e, ComponentType::Velocity);
    // Nothing happens until the update.
    assert_eq!(world.system(0).entities(), &vec![e]);
    world.update(&NoWork);
    assert!(world.system(0).entities().is_empty());
    assert_eq!(world.get_component(e, ComponentType::Velocity), None);
    world.add_component(e, ComponentType::Velocity, Payload::Velocity(-1, -1));
    world.sched_remove_entity(e);
    world.update(&NoWork);
    assert!(world.system(0).entities().is_empty());
    assert!(!world.entities().is_live(e));
}

#[test]
fn world_component_can_be_changed_in_place() {
    let mut world: World<Payload, PhysicsSystem> = World::new();
    let e = world.add_entity();
    world.add_component(e, ComponentType::Location, Payload::Location(1, 2));
    if let Some(Payload::Location(x, _)) = world.get_component_mut(e, ComponentType::Location) {
        *x += 5;
    }
    assert_eq!(world.get_component(e, ComponentType::Location), Some(&Payload::Location(6, 2)));
    assert!(world.get_component_mut(e, ComponentType::Mass).is_none());
}

#[test]
fn removed_then_readded_entity_starts_blank() {
    let mut world: World<Payload, PhysicsSystem> = World::new();
    world.add_system(PhysicsSystem::new());
    let e = world.add_entity();
    world.add_component(e, ComponentType::Location, Payload::Location(0, 0));
    world.add_component(e, ComponentType::Velocity, Payload::Velocity(0, 0));
    world.update(&NoWork);
    world.sched_remove_entity(e);
    world.update(&NoWork);
    let f = world.add_entity();
    assert_eq!(f, e);
    assert_eq!(world.entity(f).get_comp_idx(ComponentType::Location), None);
    world.update(&NoWork);
    assert!(world.system(0).entities().is_empty());
}

#[test]
fn update_keeps_untouched_entities() {
    let mut world: World<Payload, PhysicsSystem> = World::new();
    world.add_system(PhysicsSystem::new());
    let a = world.add_entity();
    let b = world.add_entity();
    for &x in &[a, b] {
        world.add_component(x, ComponentType::Location, Payload::Location(0, 0));
        world.add_component(x, ComponentType::Velocity, Payload::Velocity(1, 1));
    }
    world.update(&NoWork);
    assert_eq!(world.system(0).entities(), &vec![a, b]);
    world.sched_remove_component(a, ComponentType::Location);
    world.update(&NoWork);
    assert_eq!(world.system(0).entities(), &vec![b]);
    assert_eq!(world.get_component(b, ComponentType::Velocity), Some(&Payload::Velocity(1, 1)));
    assert_eq!(world.num_systems(), 1);
}

#[test]
fn double_scheduled_removal_is_harmless() {
    let mut world: World<Payload, PhysicsSystem> = World::new();
    let a = world.add_entity();
    let b = world.add_entity();
    world.add_component(a, ComponentType::Location, Payload::Location(3, 3));
    world.sched_remove_component(a, ComponentType::Location);
    world.sched_remove_component(a, ComponentType::Location);
    world.sched_remove_entity(b);
    world.sched_remove_entity(b);
    world.update(&NoWork);
    assert!(world.entities().is_live(a));
    assert!(!world.entities().is_live(b));
    assert_eq!(world.get_component(a, ComponentType::Location), None);
    // Both freed slots are reusable, each once.
    let c = world.add_entity();
    assert_eq!(c, b);
    let d = world.add_entity();
    assert_eq!(d, 2);
}
