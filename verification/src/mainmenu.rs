//! The main menu: four items, one of which sets the level to start from.

use vstd::prelude::*;
use crate::consts::DEMO_LEVEL;
use crate::scenes::{Keys, SceneKind, Transition};
use crate::scores::{Scores, ScoresView};

verus! {

/// Number of items of the menu.
pub const MENU_ITEMS: usize = 4;

/// The item that sets the level to start from.
pub const LVL_MENU_ITEM: usize = 1;

/// The main menu.
pub struct TitleScene {
    /// The item that is selected: play, play from a level, demo, quit.
    pub menu_id: usize,
}

/// The step by which the keys change the level to start from.
pub open spec fn level_step(keys: Keys) -> usize {
    if keys.shift {
        10
    } else {
        1
    }
}

/// Whether the keys confirm the selected item.
pub open spec fn confirms(keys: Keys) -> bool {
    keys.space || keys.enter || keys.numpad_enter
}

/// The item that is selected after the keys were taken: up and down move the
/// selection, and go round at the ends.
pub open spec fn selected(menu_id: usize, keys: Keys) -> usize {
    if keys.up {
        if menu_id == 0 {
            3
        } else {
            (menu_id - 1) as usize
        }
    } else if keys.down {
        if menu_id == 3 {
            0
        } else {
            (menu_id + 1) as usize
        }
    } else {
        menu_id
    }
}

/// The level that is the current one after the keys were taken: left and
/// right change it while the item that sets the level is selected, by one,
/// or by ten with shift.
pub open spec fn level_chosen(menu_id: usize, keys: Keys, scores: ScoresView) -> usize {
    if keys.up || keys.down || menu_id != LVL_MENU_ITEM {
        scores.curr_level
    } else if keys.left {
        scores.lowered(level_step(keys))
    } else if keys.right {
        scores.raised(level_step(keys))
    } else {
        scores.curr_level
    }
}

/// What the menu asks of the stack of scenes: nothing, unless the keys
/// confirm the selected item and none of them moves the selection or changes
/// the level. Then the first two items begin a game, the third shows the
/// demo, and the last ends the menu.
pub open spec fn asked(menu_id: usize, keys: Keys) -> Transition {
    if keys.up || keys.down || ((keys.left || keys.right) && menu_id == LVL_MENU_ITEM)
        || !confirms(keys) {
        Transition::Stay
    } else if menu_id == 3 {
        Transition::Pop
    } else if menu_id == 0 || menu_id == 1 {
        Transition::Push(SceneKind::Play)
    } else if menu_id == 2 {
        Transition::Push(SceneKind::Demo { level: DEMO_LEVEL })
    } else {
        Transition::Stay
    }
}

impl TitleScene {
    /// The invariant of the menu: one of its items is selected.
    pub open spec fn wf(&self) -> bool {
        self.menu_id < MENU_ITEMS
    }

    /// Creates the menu with its first item selected.
    pub fn new() -> (t: TitleScene)
        ensures
            t.menu_id == 0,
            t.wf(),
    {
        TitleScene { menu_id: 0 }
    }

    /// What the menu will ask of the stack of scenes when it takes these
    /// keys.
    pub fn asks(&self, keys: &Keys) -> (t: Transition)
        ensures
            t == asked(self.menu_id, *keys),
    {
        if keys.up || keys.down || ((keys.left || keys.right) && self.menu_id == 1) || !(
        keys.space || keys.enter || keys.numpad_enter) {
            Transition::Stay
        } else if self.menu_id == 3 {
            Transition::Pop
        } else if self.menu_id == 0 || self.menu_id == 1 {
            Transition::Push(SceneKind::Play)
        } else if self.menu_id == 2 {
            Transition::Push(SceneKind::Demo { level: DEMO_LEVEL })
        } else {
            Transition::Stay
        }
    }

    /// Takes the keys of one tick: up and down move the selection; left and
    /// right change the level to start from; space and the enter keys
    /// confirm the selected item.
    pub fn update(&mut self, keys: &Keys, scores: &mut Scores) -> (t: Transition)
        requires
            old(self).wf(),
        ensures
            final(self).menu_id == selected(old(self).menu_id, *keys),
            final(scores)@ == (ScoresView {
                curr_level: level_chosen(old(self).menu_id, *keys, old(scores)@),
                ..old(scores)@
            }),
            t == asked(old(self).menu_id, *keys),
            final(self).wf(),
    {
        if keys.up {
            if self.menu_id == 0 {
                self.menu_id = 3;
            } else {
                self.menu_id = self.menu_id - 1;
            }
            Transition::Stay
        } else if keys.down {
            if self.menu_id == 3 {
                self.menu_id = 0;
            } else {
                self.menu_id = self.menu_id + 1;
            }
            Transition::Stay
        } else if keys.left && self.menu_id == 1 {
            let diff: usize = if keys.shift {
                10
            } else {
                1
            };
            scores.dec_curr_level(diff);
            Transition::Stay
        } else if keys.right && self.menu_id == 1 {
            let diff: usize = if keys.shift {
                10
            } else {
                1
            };
            scores.inc_curr_level(diff);
            Transition::Stay
        } else if keys.space || keys.enter || keys.numpad_enter {
            if self.menu_id == 3 {
                Transition::Pop
            } else if self.menu_id == 0 || self.menu_id == 1 {
                Transition::Push(SceneKind::Play)
            } else if self.menu_id == 2 {
                Transition::Push(SceneKind::Demo { level: DEMO_LEVEL })
            } else {
                Transition::Stay
            }
        } else {
            Transition::Stay
        }
    }
}

} // verus!
