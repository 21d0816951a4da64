//! Level selection on the title screen.
use vstd::prelude::*;

verus! {

/// Number of selectable levels.
pub const LEVEL_COUNT: usize = 3;

/// Keys pressed on the title screen this frame.
#[derive(Clone, Copy, Debug, PartialEq, Eq)]
pub struct MenuKeys {
    pub up: bool,
    pub down: bool,
    pub enter: bool,
    pub one: bool,
    pub two: bool,
    pub three: bool,
}

/// The highlighted level and the running title animation time in
/// microseconds.
#[derive(Clone, Copy, Debug, PartialEq, Eq)]
pub struct Menu {
    pub selected_level: usize,
    pub title_animation: i64,
}

/// Highlight after the arrow keys: up moves toward the first level, down
/// toward the last, neither past the ends.
pub open spec fn moved_selection(sel: int, keys: MenuKeys) -> int {
    let a = if keys.up && sel > 0 { sel - 1 } else { sel };
    if keys.down && a < LEVEL_COUNT - 1 { a + 1 } else { a }
}

/// Level chosen this frame: Enter picks the highlighted level; otherwise the
/// number keys pick levels one to three, the lowest first.
pub open spec fn chosen_level(sel: int, keys: MenuKeys) -> Option<int> {
    if keys.enter {
        Some(sel)
    } else if keys.one {
        Some(0)
    } else if keys.two {
        Some(1)
    } else if keys.three {
        Some(2)
    } else {
        None
    }
}

impl Menu {
    pub open spec fn wf(&self) -> bool {
        self.selected_level < LEVEL_COUNT && self.title_animation >= 0
    }

    /// The title screen with the first level highlighted.
    pub fn new() -> (r: Menu)
        ensures
            r.wf(),
            r.selected_level == 0,
            r.title_animation == 0,
    {
        Menu { selected_level: 0, title_animation: 0 }
    }

    /// Advances the title animation by `dt` microseconds, moves the
    /// highlight, and returns the level to start, if one was chosen.
    pub fn update(&mut self, keys: MenuKeys, dt: i64) -> (r: Option<usize>)
        requires
            old(self).wf(),
            0 <= dt,
        ensures
            final(self).wf(),
            final(self).selected_level == moved_selection(old(self).selected_level as int, keys),
            final(self).title_animation == if old(self).title_animation + dt <= i64::MAX {
                old(self).title_animation + dt
            } else {
                i64::MAX as int
            },
            r matches Some(l) ==> l < LEVEL_COUNT,
            (match r {
                Some(l) => Some(l as int),
                None => None,
            }) == chosen_level(final(self).selected_level as int, keys),
    {
        if self.title_animation <= i64::MAX - dt {
            self.title_animation = self.title_animation + dt;
        } else {
            self.title_animation = i64::MAX;
        }
        if keys.up && self.selected_level > 0 {
            self.selected_level = self.selected_level - 1;
        }
        if keys.down && self.selected_level < LEVEL_COUNT - 1 {
            self.selected_level = self.selected_level + 1;
        }
        if keys.enter {
            return Some(self.selected_level);
        }
        if keys.one {
            return Some(0);
        }
        if keys.two {
            return Some(1);
        }
        if keys.three {
            return Some(2);
        }
        None
    }
}

} // verus!
