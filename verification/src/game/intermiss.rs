//! The screen between levels: the bonuses are counted into the displayed
//! score a step at a time, and upgrades can be bought with points.

use vstd::prelude::*;
use crate::game::menu::{Key, wrap_prev, wrap_next};

verus! {

/// How many entries the intermission menu has.
pub const NUM_ENTRIES: usize = 3;

/// The price of an extra fuel tank, in points.
pub const FUEL_COST: i32 = 45000;

/// The price of a better camera, in points.
pub const CAMERA_COST: i32 = 20000;

/// How many points one counting step moves.
pub const COUNT_RATE: i32 = 100;

/// The bonus for finishing a level.
pub const COMPLETION_BONUS: i32 = 5000;

/// What the intermission screen asks for after a key press.
#[derive(Clone, Copy, Debug, PartialEq, Eq, Structural)]
pub enum IntermissAction {
    Stay,
    Moved,
    ToMenu,
    NextLevel,
    BoughtFuel,
    BoughtCamera,
}

/// The points side of the intermission screen.
pub struct IntermissMode {
    /// The score, bonuses included, less what was spent.
    pub score: i32,
    pub high_score: i32,
    /// The score as shown while the bonuses are counted in.
    pub disp_score: i32,
    pub time_bonus: i32,
    pub fuel_bonus: i32,
    pub completion_bonus: i32,
    pub cur_sel: usize,
    /// Points spent and not yet counted out of the shown score.
    pub cost: i32,
    pub disp_high_score: i32,
    /// The file of the mission set being played.
    pub set: String,
    /// The name of the level after this one, if there is one.
    pub next: Option<String>,
}

impl IntermissMode {
    /// The points still to be counted into the shown score.
    pub open spec fn uncounted(&self) -> int {
        self.time_bonus + self.fuel_bonus + self.completion_bonus - self.cost
    }

    /// The screen after a level finished with `score` points, `fuel` whole
    /// units of fuel and `time` whole units of time bonus left: each unit
    /// is worth a hundred points, finishing is worth `COMPLETION_BONUS`, and
    /// the high score rises to the new score if it beats it.
    pub fn new(
        set: String,
        next: Option<String>,
        score: i32,
        high_score: i32,
        fuel: i32,
        time: i32,
    ) -> (m: IntermissMode)
        requires
            -21474836 <= fuel <= 21474836,
            -21474836 <= time <= 21474836,
            i32::MIN <= score + 100 * fuel + 100 * time + COMPLETION_BONUS <= i32::MAX,
        ensures
            m.fuel_bonus == 100 * fuel,
            m.time_bonus == 100 * time,
            m.completion_bonus == COMPLETION_BONUS,
            m.score == score + 100 * fuel + 100 * time + COMPLETION_BONUS,
            m.high_score == if m.score > high_score { m.score } else { high_score },
            m.disp_score == score,
            m.disp_high_score == high_score,
            m.cost == 0,
            m.cur_sel == 0,
            m.set == set,
            m.next == next,
            m.score == m.disp_score + m.uncounted(),
    {
        let fuel_bonus = fuel * 100;
        let time_bonus = time * 100;
        let completion_bonus = COMPLETION_BONUS;
        let total: i64 = score as i64 + time_bonus as i64 + fuel_bonus as i64 + completion_bonus as i64;
        let new_score = total as i32;
        let new_high = if new_score > high_score {
            new_score
        } else {
            high_score
        };
        IntermissMode {
            score: new_score,
            high_score: new_high,
            disp_score: score,
            time_bonus,
            fuel_bonus,
            completion_bonus,
            cur_sel: 0,
            cost: 0,
            disp_high_score: high_score,
            set,
            next,
        }
    }

    /// One counting step: a hundred points move from each positive bonus
    /// into the shown score (the time bonus twice, if it is still positive
    /// the second time), and a hundred spent points move out of it; the
    /// shown high score follows the shown score up. Returns whether
    /// anything was counted.
    pub fn tally(&mut self) -> (counting: bool)
        requires
            i32::MIN + COUNT_RATE <= old(self).disp_score <= i32::MAX - 4 * COUNT_RATE,
        ensures
            ({
                let o = *old(self);
                let tb1 = if o.time_bonus > 0 { o.time_bonus - COUNT_RATE } else { o.time_bonus as int };
                let tb2 = if tb1 > 0 { tb1 - COUNT_RATE } else { tb1 };
                let fb = if o.fuel_bonus > 0 { o.fuel_bonus - COUNT_RATE } else { o.fuel_bonus as int };
                let cb = if o.completion_bonus > 0 { o.completion_bonus - COUNT_RATE } else { o.completion_bonus as int };
                let co = if o.cost > 0 { o.cost - COUNT_RATE } else { o.cost as int };
                let ds = o.disp_score + (o.time_bonus - tb2) + (o.fuel_bonus - fb) + (o.completion_bonus - cb)
                    - (o.cost - co);
                &&& final(self).time_bonus == tb2
                &&& final(self).fuel_bonus == fb
                &&& final(self).completion_bonus == cb
                &&& final(self).cost == co
                &&& final(self).disp_score == ds
                &&& final(self).disp_high_score == if ds > o.disp_high_score { ds } else { o.disp_high_score as int }
                &&& counting == (o.time_bonus > 0 || o.fuel_bonus > 0 || o.completion_bonus > 0 || o.cost > 0)
            }),
            final(self).score == old(self).score,
            final(self).high_score == old(self).high_score,
            final(self).cur_sel == old(self).cur_sel,
            final(self).set == old(self).set,
            final(self).next == old(self).next,
    {
        let rate = COUNT_RATE;
        let mut counting = false;
        if self.time_bonus > 0 {
            self.time_bonus = self.time_bonus - rate;
            self.disp_score = self.disp_score + rate;
            counting = true;
        }
        if self.fuel_bonus > 0 {
            self.fuel_bonus = self.fuel_bonus - rate;
            self.disp_score = self.disp_score + rate;
            counting = true;
        }
        if self.completion_bonus > 0 {
            self.completion_bonus = self.completion_bonus - rate;
            self.disp_score = self.disp_score + rate;
            counting = true;
        }
        if self.time_bonus > 0 {
            self.time_bonus = self.time_bonus - rate;
            self.disp_score = self.disp_score + rate;
            counting = true;
        }
        if self.cost > 0 {
            self.cost = self.cost - rate;
            self.disp_score = self.disp_score - rate;
            counting = true;
        }
        if self.disp_score > self.disp_high_score {
            self.disp_high_score = self.disp_score;
        }
        counting
    }

    /// Reacts to `key`: escape goes back to the menu; space or enter, when
    /// there is a next level, continues on the first entry and buys fuel or
    /// a better camera on the others if the score is above the price, and
    /// otherwise goes back to the menu; up and down move the cursor,
    /// wrapping around.
    pub fn input(&mut self, key: Key) -> (action: IntermissAction)
        requires
            old(self).cur_sel < NUM_ENTRIES,
            old(self).cost <= i32::MAX - FUEL_COST,
        ensures
            final(self).cur_sel < NUM_ENTRIES,
            final(self).high_score == old(self).high_score,
            final(self).disp_score == old(self).disp_score,
            final(self).disp_high_score == old(self).disp_high_score,
            final(self).time_bonus == old(self).time_bonus,
            final(self).fuel_bonus == old(self).fuel_bonus,
            final(self).completion_bonus == old(self).completion_bonus,
            final(self).set == old(self).set,
            final(self).next == old(self).next,
            final(self).score + final(self).cost == old(self).score + old(self).cost,
            final(self).cur_sel == match key {
                Key::Up => wrap_prev(old(self).cur_sel as int, NUM_ENTRIES as int),
                Key::Down => wrap_next(old(self).cur_sel as int, NUM_ENTRIES as int),
                _ => old(self).cur_sel as int,
            },
            action == match key {
                Key::Escape => IntermissAction::ToMenu,
                Key::Space | Key::Enter => if old(self).next is None {
                    IntermissAction::ToMenu
                } else if old(self).cur_sel == 0 {
                    IntermissAction::NextLevel
                } else if old(self).cur_sel == 1 && old(self).score > FUEL_COST {
                    IntermissAction::BoughtFuel
                } else if old(self).cur_sel == 2 && old(self).score > CAMERA_COST {
                    IntermissAction::BoughtCamera
                } else {
                    IntermissAction::Stay
                },
                Key::Up | Key::Down => IntermissAction::Moved,
                _ => IntermissAction::Stay,
            },
            action == IntermissAction::BoughtFuel ==> final(self).score == old(self).score - FUEL_COST
                && final(self).cost == old(self).cost + FUEL_COST,
            action == IntermissAction::BoughtCamera ==> final(self).score == old(self).score - CAMERA_COST
                && final(self).cost == old(self).cost + CAMERA_COST,
            action != IntermissAction::BoughtFuel && action != IntermissAction::BoughtCamera ==> final(self).score
                == old(self).score && final(self).cost == old(self).cost,
    {
        match key {
            Key::Escape => IntermissAction::ToMenu,
            Key::Space | Key::Enter => {
                if self.next.is_some() {
                    if self.cur_sel == 0 {
                        IntermissAction::NextLevel
                    } else if self.cur_sel == 1 {
                        if self.score > FUEL_COST {
                            self.score = self.score - FUEL_COST;
                            self.cost = self.cost + FUEL_COST;
                            IntermissAction::BoughtFuel
                        } else {
                            IntermissAction::Stay
                        }
                    } else if self.cur_sel == 2 {
                        if self.score > CAMERA_COST {
                            self.score = self.score - CAMERA_COST;
                            self.cost = self.cost + CAMERA_COST;
                            IntermissAction::BoughtCamera
                        } else {
                            IntermissAction::Stay
                        }
                    } else {
                        IntermissAction::Stay
                    }
                } else {
                    IntermissAction::ToMenu
                }
            },
            Key::Up => {
                self.cur_sel = if self.cur_sel == 0 {
                    NUM_ENTRIES - 1
                } else {
                    self.cur_sel - 1
                };
                IntermissAction::Moved
            },
            Key::Down => {
                self.cur_sel = if self.cur_sel == NUM_ENTRIES - 1 {
                    0
                } else {
                    self.cur_sel + 1
                };
                IntermissAction::Moved
            },
            _ => IntermissAction::Stay,
        }
    }
}

/// Buying moves points from the score into what is still to be counted out
/// of the shown score, so the shown score plus the uncounted points stays
/// equal to the score.
pub proof fn law_purchase_accounted(pre: IntermissMode, post: IntermissMode)
    requires
        pre.score == pre.disp_score + pre.uncounted(),
        post.disp_score == pre.disp_score,
        post.time_bonus == pre.time_bonus,
        post.fuel_bonus == pre.fuel_bonus,
        post.completion_bonus == pre.completion_bonus,
        post.score + post.cost == pre.score + pre.cost,
    ensures
        post.score == post.disp_score + post.uncounted(),
{
}

/// Whether every amount still to be counted is a non-negative multiple of
/// the counting step.
pub open spec fn counts_evenly(m: IntermissMode) -> bool {
    &&& m.time_bonus >= 0 && m.time_bonus % COUNT_RATE == 0
    &&& m.fuel_bonus >= 0 && m.fuel_bonus % COUNT_RATE == 0
    &&& m.completion_bonus >= 0 && m.completion_bonus % COUNT_RATE == 0
    &&& m.cost >= 0 && m.cost % COUNT_RATE == 0
}

/// A counting step moves points without creating or losing any, and keeps
/// amounts that count evenly counting evenly; once a step counts nothing,
/// nothing is left to count and the shown score is the score.
pub proof fn law_tally_accounting(pre: IntermissMode, post: IntermissMode, counting: bool)
    requires
        counts_evenly(pre),
        ({
            let tb1 = if pre.time_bonus > 0 { pre.time_bonus - COUNT_RATE } else { pre.time_bonus as int };
            let tb2 = if tb1 > 0 { tb1 - COUNT_RATE } else { tb1 };
            let fb = if pre.fuel_bonus > 0 { pre.fuel_bonus - COUNT_RATE } else { pre.fuel_bonus as int };
            let cb = if pre.completion_bonus > 0 { pre.completion_bonus - COUNT_RATE } else { pre.completion_bonus as int };
            let co = if pre.cost > 0 { pre.cost - COUNT_RATE } else { pre.cost as int };
            let ds = pre.disp_score + (pre.time_bonus - tb2) + (pre.fuel_bonus - fb) + (pre.completion_bonus - cb)
                - (pre.cost - co);
            &&& post.time_bonus == tb2
            &&& post.fuel_bonus == fb
            &&& post.completion_bonus == cb
            &&& post.cost == co
            &&& post.disp_score == ds
            &&& counting == (pre.time_bonus > 0 || pre.fuel_bonus > 0 || pre.completion_bonus > 0 || pre.cost > 0)
        }),
        post.score == pre.score,
    ensures
        counts_evenly(post),
        post.disp_score + post.uncounted() == pre.disp_score + pre.uncounted(),
        !counting ==> post.uncounted() == 0 && post.disp_score == pre.disp_score,
        !counting && pre.score == pre.disp_score + pre.uncounted() ==> post.disp_score == post.score,
{
}

/// The prices and rates of the intermission screen, as numbers: a fuel
/// tank costs 45000 points, a camera 20000, each counting step moves 100
/// points, and finishing a level is worth 5000.
pub proof fn law_intermission_numbers()
    ensures
        FUEL_COST == 45000,
        CAMERA_COST == 20000,
        COUNT_RATE == 100,
        COMPLETION_BONUS == 5000,
        NUM_ENTRIES == 3,
{
}

} // verus!
