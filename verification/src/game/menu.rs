//! The title menu: a cursor over four entries (start, appearance, mission
//! set, quit), moved and acted on by key presses.

use vstd::prelude::*;

verus! {

/// How many looks the player's ship can have.
pub const NUM_APPEARANCES: i32 = 3;

/// How many entries the title menu has.
pub const NUM_ENTRIES: usize = 4;

/// The keys the menus react to.
#[derive(Clone, Copy, Debug, PartialEq, Eq, Structural)]
pub enum Key {
    Up,
    Down,
    Left,
    Right,
    Space,
    Enter,
    Escape,
    Other,
}

/// One step back through `0..n`, from the first to the last.
pub open spec fn wrap_prev(x: int, n: int) -> int {
    if x == 0 {
        n - 1
    } else {
        x - 1
    }
}

/// One step on through `0..n`, from the last to the first.
pub open spec fn wrap_next(x: int, n: int) -> int {
    if x == n - 1 {
        0
    } else {
        x + 1
    }
}

/// What the title menu asks for after a key press.
#[derive(Clone, Copy, Debug, PartialEq, Eq, Structural)]
pub enum MenuAction {
    Stay,
    Start,
    Quit,
}

/// The title menu's cursor and the mission sets to choose from, each as
/// (file name, display name).
pub struct MenuMode {
    pub cur_sel: usize,
    pub set_sel: usize,
    pub sets: Vec<(String, String)>,
}

impl MenuMode {
    pub open spec fn wf(&self) -> bool {
        &&& self.cur_sel < NUM_ENTRIES
        &&& self.set_sel < self.sets@.len()
    }

    /// The menu with the cursor on the first entry and the first set chosen.
    pub fn new(sets: Vec<(String, String)>) -> (m: MenuMode)
        requires
            sets@.len() > 0,
        ensures
            m.wf(),
            m.cur_sel == 0,
            m.set_sel == 0,
            m.sets@ == sets@,
    {
        MenuMode { cur_sel: 0, set_sel: 0, sets }
    }

    /// Reacts to `key`: up and down move the cursor, wrapping around; left
    /// and right change the ship's look on the second entry and the mission
    /// set on the third, wrapping around; space or enter starts on the first
    /// entry and quits on the last; escape quits.
    pub fn input(&mut self, key: Key, appearance: &mut i32) -> (action: MenuAction)
        requires
            old(self).wf(),
            0 <= *old(appearance) < NUM_APPEARANCES,
        ensures
            final(self).wf(),
            0 <= *final(appearance) < NUM_APPEARANCES,
            final(self).sets@ == old(self).sets@,
            final(self).cur_sel == match key {
                Key::Up => wrap_prev(old(self).cur_sel as int, NUM_ENTRIES as int),
                Key::Down => wrap_next(old(self).cur_sel as int, NUM_ENTRIES as int),
                _ => old(self).cur_sel as int,
            },
            *final(appearance) == if old(self).cur_sel == 1 && key == Key::Left {
                wrap_prev(*old(appearance) as int, NUM_APPEARANCES as int)
            } else if old(self).cur_sel == 1 && key == Key::Right {
                wrap_next(*old(appearance) as int, NUM_APPEARANCES as int)
            } else {
                *old(appearance) as int
            },
            final(self).set_sel == if old(self).cur_sel == 2 && key == Key::Left {
                wrap_prev(old(self).set_sel as int, old(self).sets@.len() as int)
            } else if old(self).cur_sel == 2 && key == Key::Right {
                wrap_next(old(self).set_sel as int, old(self).sets@.len() as int)
            } else {
                old(self).set_sel as int
            },
            old(self).cur_sel == 2 && key == Key::Right ==> final(self).set_sel == (old(self).set_sel + 1)
                % (old(self).sets@.len() as int),
            old(self).cur_sel == 2 && key == Key::Left ==> final(self).set_sel == (old(self).set_sel
                + old(self).sets@.len() - 1) % (old(self).sets@.len() as int),
            old(self).cur_sel == 1 && key == Key::Right ==> *final(appearance) == (*old(appearance) + 1)
                % (NUM_APPEARANCES as int),
            old(self).cur_sel == 1 && key == Key::Left ==> *final(appearance) == (*old(appearance)
                + NUM_APPEARANCES - 1) % (NUM_APPEARANCES as int),
            key == Key::Down ==> final(self).cur_sel == (old(self).cur_sel + 1) % (NUM_ENTRIES as int),
            key == Key::Up ==> final(self).cur_sel == (old(self).cur_sel + NUM_ENTRIES - 1) % (
            NUM_ENTRIES as int),
            action == match key {
                Key::Space | Key::Enter => if old(self).cur_sel == 0 {
                    MenuAction::Start
                } else if old(self).cur_sel == 3 {
                    MenuAction::Quit
                } else {
                    MenuAction::Stay
                },
                Key::Escape => MenuAction::Quit,
                _ => MenuAction::Stay,
            },
    {
        proof {
            law_wrap_steps_by_one(old(self).cur_sel as int, NUM_ENTRIES as int);
            law_wrap_steps_by_one(*old(appearance) as int, NUM_APPEARANCES as int);
            law_wrap_steps_by_one(old(self).set_sel as int, old(self).sets@.len() as int);
        }
        match key {
            Key::Up => {
                self.cur_sel = if self.cur_sel == 0 {
                    NUM_ENTRIES - 1
                } else {
                    self.cur_sel - 1
                };
                MenuAction::Stay
            },
            Key::Down => {
                self.cur_sel = if self.cur_sel == NUM_ENTRIES - 1 {
                    0
                } else {
                    self.cur_sel + 1
                };
                MenuAction::Stay
            },
            Key::Left => {
                if self.cur_sel == 1 {
                    *appearance = if *appearance == 0 {
                        NUM_APPEARANCES - 1
                    } else {
                        *appearance - 1
                    };
                } else if self.cur_sel == 2 {
                    self.set_sel = if self.set_sel == 0 {
                        self.sets.len() - 1
                    } else {
                        self.set_sel - 1
                    };
                }
                MenuAction::Stay
            },
            Key::Right => {
                if self.cur_sel == 1 {
                    *appearance = if *appearance == NUM_APPEARANCES - 1 {
                        0
                    } else {
                        *appearance + 1
                    };
                } else if self.cur_sel == 2 {
                    self.set_sel = if self.set_sel == self.sets.len() - 1 {
                        0
                    } else {
                        self.set_sel + 1
                    };
                }
                MenuAction::Stay
            },
            Key::Space | Key::Enter => {
                if self.cur_sel == 0 {
                    MenuAction::Start
                } else if self.cur_sel == 3 {
                    MenuAction::Quit
                } else {
                    MenuAction::Stay
                }
            },
            Key::Escape => MenuAction::Quit,
            Key::Other => MenuAction::Stay,
        }
    }

    /// The file name of the chosen mission set.
    pub fn selected_set_file(&self) -> (f: &String)
        requires
            self.wf(),
        ensures
            *f == self.sets@[self.set_sel as int].0,
    {
        &self.sets[self.set_sel].0
    }
}

/// Stepping back then on, or on then back, returns to where one started.
pub proof fn law_wrap_round_trip(x: int, n: int)
    requires
        0 <= x < n,
    ensures
        0 <= wrap_prev(x, n) < n,
        0 <= wrap_next(x, n) < n,
        wrap_next(wrap_prev(x, n), n) == x,
        wrap_prev(wrap_next(x, n), n) == x,
{
}

/// A step on or back moves by exactly one place round `0..n`: on from `x`
/// is `x + 1` modulo `n`, back is `x - 1` modulo `n`.
pub proof fn law_wrap_steps_by_one(x: int, n: int)
    requires
        0 <= x < n,
    ensures
        wrap_next(x, n) == (x + 1) % n,
        wrap_prev(x, n) == (x + n - 1) % n,
{
    if x == n - 1 {
        vstd::arithmetic::div_mod::lemma_mod_self_0(n);
    } else {
        vstd::arithmetic::div_mod::lemma_small_mod((x + 1) as nat, n as nat);
    }
    if x == 0 {
        vstd::arithmetic::div_mod::lemma_small_mod((n - 1) as nat, n as nat);
    } else {
        vstd::arithmetic::div_mod::lemma_mod_add_multiples_vanish(x - 1, n);
        vstd::arithmetic::div_mod::lemma_small_mod((x - 1) as nat, n as nat);
    }
}

/// The title menu has four entries and the ship three looks.
pub proof fn law_menu_numbers()
    ensures
        NUM_ENTRIES == 4,
        NUM_APPEARANCES == 3,
{
}

} // verus!
