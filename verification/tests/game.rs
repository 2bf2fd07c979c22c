use spacecam::ces::components::ComponentType;
use spacecam::ces::system::System;
use spacecam::ces::Entity;
use spacecam::ces::world::{SystemWork, World};
use spacecam::ces::{Components, Entities};
use spacecam::game::bodies::{create_hole, create_level, create_player, create_star, create_target};
use spacecam::game::event_loop::{on_event, should_draw, LoopEvent, LoopStep};
use spacecam::game::config::{get_score_file, get_set_name, level_from_config, level_from_table, split_dots_exec};
use spacecam::game::easter::EasterSystem;
use spacecam::game::gravity::GravitySystem;
use spacecam::game::intermiss::{IntermissAction, IntermissMode, CAMERA_COST, FUEL_COST};
use spacecam::game::menu::{Key, MenuAction, MenuMode, NUM_APPEARANCES};
use spacecam::game::resource_manager::{ResourceLoader, ResourceManager};
use spacecam::game::score::{decode_high_score, encode_high_score, load_high_score};
use spacecam::game::sfx::pick_voice;
use spacecam::game::WorldEvent;

fn entity_with(kinds: &[ComponentType]) -> Entity {
    let mut e = Entity::new();
    for (i, k) in kinds.iter().enumerate() {
        e.set_comp_idx(*k, Some(i));
    }
    e
}

#[test]
fn gravity_tracks_massive_and_movable_bodies() {
    let mut g = GravitySystem::new();
    let star = entity_with(&[ComponentType::Mass, ComponentType::Location, ComponentType::Size]);
    let ship = entity_with(&[
        ComponentType::Mass,
        ComponentType::Location,
        ComponentType::Size,
        ComponentType::Acceleration,
    ]);
    g.component_changed_event(&star, 1);
    g.component_changed_event(&ship, 2);
    assert_eq!(g.all_masses(), &vec![1, 2]);
    assert_eq!(g.movable_masses(), &vec![2]);
    let wreck = entity_with(&[ComponentType::Location, ComponentType::Size]);
    g.component_changed_event(&wreck, 2);
    assert_eq!(g.all_masses(), &vec![1]);
    assert!(g.movable_masses().is_empty());
    g.remove_entity(1);
    assert!(g.all_masses().is_empty());
}

#[test]
fn easter_tracks_targets_and_holes() {
    let mut s = EasterSystem::new();
    assert!(s.is_idle());
    let target = entity_with(&[ComponentType::Switchable, ComponentType::Sprite]);
    let hole = entity_with(&[ComponentType::Hole, ComponentType::Location, ComponentType::Size]);
    s.component_changed_event(&target, 4);
    s.component_changed_event(&target, 6);
    s.component_changed_event(&hole, 5);
    assert_eq!(s.targets(), &vec![4, 6]);
    assert_eq!(s.holes(), &vec![5]);
    assert!(!s.is_idle());
    s.remove_entity(4);
    assert_eq!(s.targets(), &vec![6]);
}

#[test]
fn easter_switch_gives_each_target_a_valid_look() {
    let mut s = EasterSystem::new();
    let target = entity_with(&[ComponentType::Switchable, ComponentType::Sprite]);
    for t in [3usize, 8, 9, 11] {
        s.component_changed_event(&target, t);
    }
    for _ in 0..50 {
        let looks = s.new_appearances();
        assert_eq!(looks.iter().map(|p| p.0).collect::<Vec<_>>(), vec![3, 8, 9, 11]);
        assert!(looks.iter().all(|p| 0 <= p.1 && p.1 < NUM_APPEARANCES));
    }
}

fn sets() -> Vec<(String, String)> {
    vec![
        ("levels/a.cfg".to_string(), "A".to_string()),
        ("levels/b.cfg".to_string(), "B".to_string()),
    ]
}

#[test]
fn menu_cursor_wraps() {
    let mut m = MenuMode::new(sets());
    let mut look = 0;
    assert_eq!(m.input(Key::Up, &mut look), MenuAction::Stay);
    assert_eq!(m.cur_sel, 3);
    m.input(Key::Down, &mut look);
    assert_eq!(m.cur_sel, 0);
    m.input(Key::Down, &mut look);
    m.input(Key::Down, &mut look);
    assert_eq!(m.cur_sel, 2);
}

#[test]
fn menu_changes_look_and_set() {
    let mut m = MenuMode::new(sets());
    let mut look = 0;
    m.input(Key::Down, &mut look);
    m.input(Key::Left, &mut look);
    assert_eq!(look, NUM_APPEARANCES - 1);
    m.input(Key::Right, &mut look);
    assert_eq!(look, 0);
    m.input(Key::Down, &mut look);
    m.input(Key::Left, &mut look);
    assert_eq!(m.set_sel, 1);
    assert_eq!(m.selected_set_file(), "levels/b.cfg");
    m.input(Key::Right, &mut look);
    assert_eq!(m.set_sel, 0);
    assert_eq!(look, 0);
}

#[test]
fn menu_start_and_quit() {
    let mut m = MenuMode::new(sets());
    let mut look = 1;
    assert_eq!(m.input(Key::Space, &mut look), MenuAction::Start);
    assert_eq!(m.input(Key::Enter, &mut look), MenuAction::Start);
    assert_eq!(m.input(Key::Escape, &mut look), MenuAction::Quit);
    m.input(Key::Up, &mut look);
    assert_eq!(m.input(Key::Enter, &mut look), MenuAction::Quit);
    m.input(Key::Up, &mut look);
    assert_eq!(m.input(Key::Space, &mut look), MenuAction::Stay);
    assert_eq!(m.input(Key::Other, &mut look), MenuAction::Stay);
    assert_eq!(look, 1);
}

#[test]
fn intermission_bonuses() {
    let m = IntermissMode::new("levels/a.cfg".to_string(), Some("next".to_string()), 1000, 9000, 30, 45);
    assert_eq!(m.fuel_bonus, 3000);
    assert_eq!(m.time_bonus, 4500);
    assert_eq!(m.completion_bonus, 5000);
    assert_eq!(m.score, 13500);
    assert_eq!(m.high_score, 13500);
    assert_eq!(m.disp_score, 1000);
    assert_eq!(m.disp_high_score, 9000);
    let low = IntermissMode::new("levels/a.cfg".to_string(), None, 0, 100000, 0, 0);
    assert_eq!(low.score, 5000);
    assert_eq!(low.high_score, 100000);
}

#[test]
fn intermission_tally_counts_up_to_the_score() {
    let mut m = IntermissMode::new("levels/a.cfg".to_string(), Some("next".to_string()), 1000, 0, 2, 3);
    let mut steps = 0;
    while m.tally() {
        steps += 1;
        assert_eq!(m.score, m.disp_score + m.time_bonus + m.fuel_bonus + m.completion_bonus - m.cost);
        assert!(m.disp_high_score >= m.disp_score);
    }
    assert_eq!(m.disp_score, m.score);
    assert_eq!(m.disp_score, 1000 + 200 + 300 + 5000);
    assert_eq!(m.disp_high_score, m.score);
    // The completion bonus is the longest: fifty steps.
    assert_eq!(steps, 50);
}

#[test]
fn intermission_time_bonus_counts_twice_per_step() {
    let mut m = IntermissMode::new("levels/a.cfg".to_string(), Some("next".to_string()), 0, 0, 0, 3);
    m.tally();
    assert_eq!(m.time_bonus, 100);
    assert_eq!(m.disp_score, 300);
}

#[test]
fn intermission_purchases() {
    let mut m = IntermissMode::new("levels/a.cfg".to_string(), Some("next".to_string()), 60000, 0, 0, 0);
    assert_eq!(m.score, 65000);
    assert_eq!(m.input(Key::Down), IntermissAction::Moved);
    assert_eq!(m.input(Key::Enter), IntermissAction::BoughtFuel);
    assert_eq!(m.score, 65000 - FUEL_COST);
    assert_eq!(m.cost, FUEL_COST);
    assert_eq!(m.input(Key::Space), IntermissAction::Stay);
    m.input(Key::Down);
    assert_eq!(m.input(Key::Space), IntermissAction::Stay);
    assert_eq!(m.score, 20000);
    m.score = CAMERA_COST + 1;
    assert_eq!(m.input(Key::Space), IntermissAction::BoughtCamera);
    assert_eq!(m.score, 1);
    m.input(Key::Down);
    assert_eq!(m.cur_sel, 0);
    assert_eq!(m.input(Key::Space), IntermissAction::NextLevel);
    assert_eq!(m.input(Key::Escape), IntermissAction::ToMenu);
    assert_eq!(m.set, "levels/a.cfg");
    assert_eq!(m.next, Some("next".to_string()));
}

#[test]
fn intermission_last_level_returns_to_menu() {
    let mut m = IntermissMode::new("levels/a.cfg".to_string(), None, 0, 0, 0, 0);
    m.input(Key::Down);
    assert_eq!(m.input(Key::Enter), IntermissAction::ToMenu);
    assert_eq!(m.cost, 0);
}

#[test]
fn high_score_bytes() {
    assert_eq!(encode_high_score(1), vec![1, 0, 0, 0]);
    assert_eq!(encode_high_score(258), vec![2, 1, 0, 0]);
    assert_eq!(encode_high_score(-1), vec![255, 255, 255, 255]);
    assert_eq!(decode_high_score(&[0x78, 0x56, 0x34, 0x12]), 0x12345678);
    assert_eq!(decode_high_score(&[0, 0, 0, 0x80, 9]), i32::MIN);
    for s in [0, 7, 13500, -42, i32::MAX, i32::MIN] {
        assert_eq!(decode_high_score(&encode_high_score(s)), s);
        assert_eq!(encode_high_score(s), s.to_le_bytes().to_vec());
    }
    assert_eq!(load_high_score(None), 0);
    assert_eq!(load_high_score(Some(&[5, 0, 0, 0])), 5);
}

#[test]
fn set_config_lookups() {
    let text = "name = \"Deep Space\"\nscore_file = \"deep.score\"\n[start]\nstart_pos = [1, 2]\n";
    assert_eq!(get_set_name(text), Some("Deep Space".to_string()));
    assert_eq!(get_score_file(text), Some("deep.score".to_string()));
    assert_eq!(get_set_name("score_file = \"x\""), None);
    assert_eq!(get_set_name("name = 3"), None);
    assert_eq!(get_set_name("name = = ="), None);
}

struct Doubler;

impl ResourceLoader<i32, i32> for Doubler {
    fn load(_dummy: Option<Self>, key: &str, user_data: &i32) -> Option<(String, i32)> {
        if key == "missing" {
            None
        } else {
            Some((key.to_string(), key.len() as i32 * *user_data))
        }
    }
}

#[test]
fn resource_manager_caches() {
    let mut m: ResourceManager<i32, Doubler> = ResourceManager::new();
    assert!(m.lookup("abc").is_none());
    assert_eq!(*m.load("abc", &2).unwrap(), 6);
    // Cached: the loader is not asked again.
    assert_eq!(*m.load("abc", &100).unwrap(), 6);
    assert_eq!(*m.lookup("abc").unwrap(), 6);
    assert!(m.load("missing", &2).is_none());
    assert!(m.lookup("missing").is_none());
    let r = m.store("abc".to_string(), 1);
    assert_eq!(*r, 1);
    assert_eq!(*m.lookup("abc").unwrap(), 1);
}

#[test]
fn sfx_voice_choice() {
    assert_eq!(pick_voice(&vec![]), 0);
    assert_eq!(pick_voice(&vec![true, true]), 2);
    assert_eq!(pick_voice(&vec![false, true, false, true]), 2);
    assert_eq!(pick_voice(&vec![false, true, true]), 0);
}

#[test]
fn world_event_numbers() {
    assert_eq!(WorldEvent::Draw.to_u64(), Some(0));
    assert_eq!(WorldEvent::Input.to_u64(), Some(1));
    assert_eq!(WorldEvent::Logic.to_i64(), Some(2));
}

const SET_TEXT: &str = "name = \"Deep Space\"\n\
score_file = \"deep.score\"\n\
[first]\n\
start_pos = [10, -20]\n\
start_vel = [0.5, 1.5]\n\
stars = [[1, 2, 0], [3, 4, 1]]\n\
targets = [[5, 6, 2]]\n\
holes = [[7, 8]]\n\
intro_text = \"Hello\"\n\
next = \"second\"\n\
[second]\n\
start_pos = [0, 0]\n\
[bad_row]\n\
start_pos = [0, 0]\n\
stars = [[1, 2]]\n\
[no_start]\n\
stars = [[1, 2, 3]]\n";

#[test]
fn level_reads_every_entry() {
    let l = level_from_config(SET_TEXT, "first").unwrap();
    assert_eq!((l.start_x, l.start_y), (10, -20));
    assert_eq!(l.stars, vec![(1, 2, 0), (3, 4, 1)]);
    assert_eq!(l.targets, vec![(5, 6, 2)]);
    assert_eq!(l.holes, vec![(7, 8)]);
    assert_eq!(l.intro_text, Some("Hello".to_string()));
    assert_eq!(l.next, Some("second".to_string()));
}

#[test]
fn level_missing_lists_are_empty() {
    let l = level_from_config(SET_TEXT, "second").unwrap();
    assert_eq!((l.start_x, l.start_y), (0, 0));
    assert!(l.stars.is_empty() && l.targets.is_empty() && l.holes.is_empty());
    assert_eq!(l.intro_text, None);
    assert_eq!(l.next, None);
}

#[test]
fn level_reads_only_the_leading_integers_of_a_row() {
    let text = "[lvl]\nstart_pos = [3, 4, \"spare\"]\nstars = [[1, 2, 0, \"tag\"]]\nholes = [[5, 6, 7.5]]\n";
    let l = level_from_config(text, "lvl").unwrap();
    assert_eq!((l.start_x, l.start_y), (3, 4));
    assert_eq!(l.stars, vec![(1, 2, 0)]);
    assert_eq!(l.holes, vec![(5, 6)]);
    assert!(level_from_config("[lvl]\nstart_pos = [3, 4]\nstars = [[1, 2.5, 0]]\n", "lvl").is_none());
    assert!(level_from_config("[lvl]\nstart_pos = [3, 4]\nstars = [7]\n", "lvl").is_none());
    assert!(level_from_config("[lvl]\nstart_pos = [3, 4]\nintro_text = 5\n", "lvl").is_none());
    assert!(level_from_config("[lvl]\nstart_pos = 3\n", "lvl").is_none());
    assert!(level_from_config("lvl = 1\n", "lvl").is_none());
}

#[test]
fn level_malformed_is_refused() {
    assert!(level_from_config(SET_TEXT, "bad_row").is_none());
    assert!(level_from_config(SET_TEXT, "no_start").is_none());
    assert!(level_from_config(SET_TEXT, "absent").is_none());
    assert!(level_from_config("[x\nstart_pos = [1, 2]", "x").is_none());
}

struct Renamer;

impl ResourceLoader<i32, i32> for Renamer {
    fn load(_dummy: Option<Self>, key: &str, user_data: &i32) -> Option<(String, i32)> {
        Some((format!("{}.png", key), *user_data))
    }
}

#[test]
fn resource_manager_caches_under_the_loaders_name() {
    let mut m: ResourceManager<i32, Renamer> = ResourceManager::new();
    assert_eq!(*m.load("ship", &7).unwrap(), 7);
    assert!(m.lookup("ship").is_none());
    assert_eq!(*m.lookup("ship.png").unwrap(), 7);
    assert_eq!(*m.load("ship.png", &9).unwrap(), 7);
}

struct Idle;

impl SystemWork<u32, GravitySystem> for Idle {
    fn update(
        &self,
        _system: &GravitySystem,
        entities: Entities,
        components: Components<u32>,
    ) -> (Entities, Components<u32>) {
        (entities, components)
    }
}

#[test]
fn level_bodies_get_their_kinds_and_gravity_roles() {
    let mut w: World<u32, GravitySystem> = World::new();
    w.add_system(GravitySystem::new());
    let star = create_star(&mut w, 1, 2, 3, 4, 5, 6);
    let hole = create_hole(&mut w, 11, 12, 13, 14, 15, 16);
    let target = create_target(&mut w, 21, 22, 23, 24, 25, 26);
    let player = create_player(&mut w, 31, 32, 33, 34, 35, 36, 37, 38);
    assert_eq!((star, hole, target, player), (0, 1, 2, 3));
    assert_eq!(w.get_component(star, ComponentType::Solid), Some(&5));
    assert_eq!(w.get_component(star, ComponentType::Sprite), Some(&6));
    assert_eq!(w.get_component(star, ComponentType::Hole), None);
    assert_eq!(w.get_component(hole, ComponentType::Hole), Some(&15));
    assert_eq!(w.get_component(target, ComponentType::Target), Some(&26));
    assert_eq!(w.get_component(target, ComponentType::Mass), None);
    assert_eq!(w.get_component(player, ComponentType::Acceleration), Some(&34));
    assert_eq!(w.get_component(player, ComponentType::Player), Some(&38));
    assert!(w.entity(player).have_components(&[ComponentType::Velocity, ComponentType::OldLocation]));
    w.update(&Idle);
    let g = w.system(0);
    let mut all = g.all_masses().clone();
    all.sort();
    assert_eq!(all, vec![star, hole, player]);
    assert_eq!(g.movable_masses(), &vec![player]);
}

#[test]
fn body_parts_keep_the_first_of_a_kind() {
    let mut w: World<u32, GravitySystem> = World::new();
    let e = w.create_body(vec![(ComponentType::Mass, 1), (ComponentType::Size, 2), (ComponentType::Mass, 3)]);
    assert_eq!(w.get_component(e, ComponentType::Mass), Some(&1));
    assert_eq!(w.get_component(e, ComponentType::Size), Some(&2));
    assert_eq!(w.get_component(e, ComponentType::Location), None);
}

#[test]
fn main_loop_decisions() {
    assert!(should_draw(true, true));
    assert!(!should_draw(true, false));
    assert!(!should_draw(false, true));
    assert_eq!(
        on_event(false, LoopEvent::TimerTick),
        LoopStep { key_down: None, run: Some(WorldEvent::Logic), redraw: true, exit: false }
    );
    assert_eq!(
        on_event(true, LoopEvent::KeyDown(Key::Space)),
        LoopStep { key_down: Some(Key::Space), run: Some(WorldEvent::Input), redraw: true, exit: false }
    );
    assert_eq!(
        on_event(false, LoopEvent::KeyDown(Key::Escape)),
        LoopStep { key_down: Some(Key::Escape), run: Some(WorldEvent::Input), redraw: false, exit: true }
    );
    assert_eq!(
        on_event(true, LoopEvent::DisplayClose),
        LoopStep { key_down: None, run: None, redraw: true, exit: true }
    );
    assert_eq!(on_event(false, LoopEvent::Other), LoopStep { key_down: None, run: None, redraw: false, exit: false });
}

#[test]
fn level_is_built_player_first_then_bodies_in_order() {
    let mut w: World<u32, GravitySystem> = World::new();
    w.add_system(GravitySystem::new());
    let keep = w.add_entity();
    w.add_component(keep, ComponentType::Location, 99);
    let (player, bodies) = create_level(
        &mut w,
        vec![(ComponentType::Location, 1), (ComponentType::Player, 2)],
        vec![
            vec![(ComponentType::Location, 10), (ComponentType::Mass, 11)],
            vec![(ComponentType::Hole, 20)],
        ],
    );
    assert_eq!((player, bodies.clone()), (1, vec![2, 3]));
    assert_eq!(w.get_component(player, ComponentType::Player), Some(&2));
    assert_eq!(w.get_component(bodies[0], ComponentType::Mass), Some(&11));
    assert_eq!(w.get_component(bodies[1], ComponentType::Hole), Some(&20));
    assert_eq!(w.get_component(bodies[1], ComponentType::Location), None);
    assert_eq!(w.get_component(keep, ComponentType::Location), Some(&99));
}

#[test]
fn level_names_with_dots_name_nested_tables() {
    let text = "[campaign.one]\nstart_pos = [5, 6]\nnext = \"campaign.two\"\n[campaign.two]\nstart_pos = [7, 8]\n";
    let l = level_from_config(text, "campaign.one").unwrap();
    assert_eq!((l.start_x, l.start_y), (5, 6));
    assert_eq!(l.next, Some("campaign.two".to_string()));
    let l2 = level_from_config(text, l.next.as_ref().unwrap()).unwrap();
    assert_eq!((l2.start_x, l2.start_y), (7, 8));
    assert!(level_from_config(text, "campaign").is_none());
    assert!(level_from_config(text, "campaign.three").is_none());
    assert!(level_from_config(text, "campaign.one.start_pos").is_none());
    let quoted = "[\"a.b\"]\nstart_pos = [1, 1]\n";
    assert!(level_from_config(quoted, "a.b").is_none());
}

#[test]
fn dots_split_names() {
    assert_eq!(split_dots_exec("a.bc"), vec![vec!['a'], vec!['b', 'c']]);
    assert_eq!(split_dots_exec(""), vec![Vec::<char>::new()]);
    assert_eq!(split_dots_exec("x."), vec![vec!['x'], vec![]]);
    assert_eq!(split_dots_exec("plain"), vec!["plain".chars().collect::<Vec<char>>()]);
}

#[test]
fn level_from_a_table_document() {
    let l = level_from_table("start_pos = [2, 3]\nholes = [[1, 1]]\n").unwrap();
    assert_eq!((l.start_x, l.start_y, l.holes.clone()), (2, 3, vec![(1, 1)]));
    assert!(level_from_table("holes = [[1, 1]]\n").is_none());
}

/// Fires the hidden switch as if the player touched every hole, and keeps
/// the looks it hands out.
struct TouchAll {
    looks: std::cell::RefCell<Vec<Option<Vec<(usize, i32)>>>>,
}

impl SystemWork<u32, EasterSystem> for TouchAll {
    fn update(
        &self,
        system: &EasterSystem,
        mut entities: Entities,
        mut components: Components<u32>,
    ) -> (Entities, Components<u32>) {
        let touching = vec![true; system.holes().len()];
        let r = system.fire(&touching, &mut entities, &mut components);
        self.looks.borrow_mut().push(r);
        (entities, components)
    }
}

#[test]
fn switch_fires_on_a_touched_hole() {
    let mut w: World<u32, EasterSystem> = World::new();
    w.add_system(EasterSystem::new());
    let hole = create_hole(&mut w, 1, 2, 3, 4, 5, 6);
    let target = create_target(&mut w, 11, 12, 13, 14, 15, 16);
    let fire = TouchAll { looks: std::cell::RefCell::new(Vec::new()) };
    // The bookkeeping of the first update makes the switch hear of both,
    // so its work then finds the hole touched and fires.
    w.update(&fire);
    let looks = fire.looks.borrow().clone();
    assert_eq!(looks.len(), 1);
    let first = looks[0].clone().unwrap();
    assert_eq!(first.len(), 1);
    assert_eq!(first[0].0, target);
    assert!(first[0].1 >= 0 && first[0].1 < NUM_APPEARANCES);
    // The hole's removal was queued; it takes effect at the next update.
    assert_eq!(w.get_component(hole, ComponentType::Hole), Some(&5));
    w.update(&fire);
    assert_eq!(w.get_component(hole, ComponentType::Hole), None);
    assert!(w.system(0).holes().is_empty());
    assert_eq!(fire.looks.borrow()[1], None);
}
