//! The right-click menu's state: whether it is open, which row is hovered,
//! and when the pointer left it.
//!
//! Nothing outside the window can tell the menu that the user clicked
//! elsewhere, so it also closes itself once the pointer has been away for a
//! moment. Where the menu is drawn, and which row lies under the pointer, is
//! pixel geometry and is worked out by the caller.

use vstd::prelude::*;

use crate::config::SPRITE_VARIANTS;

verus! {

/// How long the pointer may be away before the menu closes itself, in
/// nanoseconds.
pub const CLOSE_AFTER_LEAVE_NS: u64 = 1_500_000_000;

/// The rows: one per sprite variant, then the pin toggle.
pub const ITEM_COUNT: usize = 4;

/// The row of the pin toggle, the last one.
pub const LOCK_INDEX: usize = 3;

pub struct MenuState {
    open: bool,
    hovered: Option<usize>,
    /// When the pointer left the panel, in nanoseconds on the caller's
    /// monotonic clock; `None` while it is inside.
    left_at: Option<u64>,
    /// Set whenever something that affects the drawing changes.
    dirty: bool,
    /// Mirror of the pin state, so the row can read Pin or Unpin.
    locked: bool,
}

/// The time from `since` to `now`, or zero if `now` is earlier (a clock
/// reading never goes backwards, but an elapsed time never goes negative).
pub open spec fn elapsed(since: u64, now: u64) -> int {
    if now >= since {
        now - since
    } else {
        0
    }
}

impl MenuState {
    pub closed spec fn open_spec(&self) -> bool {
        self.open
    }

    pub closed spec fn left_at_spec(&self) -> Option<u64> {
        self.left_at
    }

    pub closed spec fn dirty_spec(&self) -> bool {
        self.dirty
    }

    pub closed spec fn hovered_spec(&self) -> Option<usize> {
        self.hovered
    }

    pub closed spec fn locked_spec(&self) -> bool {
        self.locked
    }

    /// The row under the pointer, if any.
    pub fn hovered(&self) -> (r: Option<usize>)
        ensures
            r == self.hovered_spec(),
    {
        self.hovered
    }

    /// Whether the row reads Unpin.
    pub fn locked(&self) -> (r: bool)
        ensures
            r == self.locked_spec(),
    {
        self.locked
    }

    pub fn set_locked(&mut self, locked: bool)
        ensures
            final(self).locked_spec() == locked,
            final(self).open_spec() == old(self).open_spec(),
            final(self).hovered_spec() == old(self).hovered_spec(),
            final(self).left_at_spec() == old(self).left_at_spec(),
            final(self).dirty_spec() == old(self).dirty_spec(),
    {
        self.locked = locked;
    }

    /// Sprite variants plus the pin toggle.
    pub fn item_count() -> (n: usize)
        ensures
            n == SPRITE_VARIANTS@.len() + 1,
            n == ITEM_COUNT,
    {
        SPRITE_VARIANTS.len() + 1
    }

    /// The row index of the pin toggle, the last row.
    pub fn lock_index() -> (n: usize)
        ensures
            n == SPRITE_VARIANTS@.len(),
            n == LOCK_INDEX,
    {
        SPRITE_VARIANTS.len()
    }

    pub fn new() -> (m: MenuState)
        ensures
            !m.open_spec(),
            m.hovered_spec() is None,
            m.left_at_spec() is None,
            !m.dirty_spec(),
            !m.locked_spec(),
    {
        MenuState { open: false, hovered: None, left_at: None, dirty: false, locked: false }
    }

    pub fn is_open(&self) -> (r: bool)
        ensures
            r == self.open_spec(),
    {
        self.open
    }

    /// True (once) if the drawing changed since the last call.
    pub fn take_dirty(&mut self) -> (r: bool)
        ensures
            r == old(self).dirty_spec(),
            !final(self).dirty_spec(),
            final(self).open_spec() == old(self).open_spec(),
            final(self).hovered_spec() == old(self).hovered_spec(),
            final(self).left_at_spec() == old(self).left_at_spec(),
            final(self).locked_spec() == old(self).locked_spec(),
    {
        let r = self.dirty;
        self.dirty = false;
        r
    }

    /// Open the menu with nothing hovered and the pointer counted as inside.
    pub fn open(&mut self)
        ensures
            final(self).open_spec(),
            final(self).hovered_spec() is None,
            final(self).left_at_spec() is None,
            final(self).dirty_spec(),
            final(self).locked_spec() == old(self).locked_spec(),
    {
        self.open = true;
        self.hovered = None;
        self.left_at = None;
        self.dirty = true;
    }

    /// Close the menu, if it is open.
    pub fn close(&mut self)
        ensures
            !final(self).open_spec(),
            final(self).locked_spec() == old(self).locked_spec(),
            old(self).open_spec() ==> final(self).hovered_spec() is None && final(self).left_at_spec() is None
                && final(self).dirty_spec(),
            !old(self).open_spec() ==> final(self).hovered_spec() == old(self).hovered_spec()
                && final(self).left_at_spec() == old(self).left_at_spec() && final(self).dirty_spec()
                == old(self).dirty_spec(),
    {
        if !self.open {
            return;
        }
        self.open = false;
        self.hovered = None;
        self.left_at = None;
        self.dirty = true;
    }

    /// Feed pointer motion at `now_ns`: `inside` says whether the pointer is
    /// over the panel, `row` which row it is over. Leaving the panel starts
    /// the close timer, coming back stops it, and a change of hovered row
    /// marks the drawing dirty.
    pub fn pointer_moved(&mut self, inside: bool, row: Option<usize>, now_ns: u64)
        ensures
            final(self).open_spec() == old(self).open_spec(),
            final(self).locked_spec() == old(self).locked_spec(),
            !old(self).open_spec() ==> final(self).hovered_spec() == old(self).hovered_spec()
                && final(self).left_at_spec() == old(self).left_at_spec() && final(self).dirty_spec()
                == old(self).dirty_spec(),
            old(self).open_spec() ==> {
                let hovered = if inside {
                    row
                } else {
                    None
                };
                &&& final(self).hovered_spec() == hovered
                &&& final(self).left_at_spec() == (if inside {
                    None
                } else if old(self).left_at_spec() is None {
                    Some(now_ns)
                } else {
                    old(self).left_at_spec()
                })
                &&& final(self).dirty_spec() == (old(self).dirty_spec() || hovered != old(self).hovered_spec())
            },
    {
        if !self.open {
            return;
        }
        if inside {
            self.left_at = None;
        } else if self.left_at.is_none() {
            self.left_at = Some(now_ns);
        }
        let hovered = if inside {
            row
        } else {
            None
        };
        if hovered != self.hovered {
            self.hovered = hovered;
            self.dirty = true;
        }
    }

    /// The pointer left the surface entirely at `now_ns`.
    pub fn pointer_left(&mut self, now_ns: u64)
        ensures
            final(self).open_spec() == old(self).open_spec(),
            final(self).locked_spec() == old(self).locked_spec(),
            !old(self).open_spec() ==> final(self).hovered_spec() == old(self).hovered_spec()
                && final(self).left_at_spec() == old(self).left_at_spec() && final(self).dirty_spec()
                == old(self).dirty_spec(),
            old(self).open_spec() ==> {
                &&& final(self).hovered_spec() is None
                &&& final(self).left_at_spec() == (if old(self).left_at_spec() is None {
                    Some(now_ns)
                } else {
                    old(self).left_at_spec()
                })
                &&& final(self).dirty_spec() == (old(self).dirty_spec() || old(self).hovered_spec() is Some)
            },
    {
        if !self.open {
            return;
        }
        if self.left_at.is_none() {
            self.left_at = Some(now_ns);
        }
        if self.hovered.is_some() {
            self.hovered = None;
            self.dirty = true;
        }
    }

    /// Close the menu if the pointer has been away long enough, as of
    /// `now_ns`. Returns whether it closed.
    pub fn tick(&mut self, now_ns: u64) -> (closed: bool)
        ensures
            closed == (old(self).open_spec() && match old(self).left_at_spec() {
                Some(t) => elapsed(t, now_ns) >= CLOSE_AFTER_LEAVE_NS,
                None => false,
            }),
            closed ==> !final(self).open_spec() && final(self).hovered_spec() is None
                && final(self).left_at_spec() is None && final(self).dirty_spec(),
            !closed ==> final(self).open_spec() == old(self).open_spec() && final(self).hovered_spec()
                == old(self).hovered_spec() && final(self).left_at_spec() == old(self).left_at_spec()
                && final(self).dirty_spec() == old(self).dirty_spec(),
            final(self).locked_spec() == old(self).locked_spec(),
    {
        if !self.open {
            return false;
        }
        let left_at = match self.left_at {
            Some(t) => t,
            None => {
                return false;
            },
        };
        let away = if now_ns >= left_at {
            now_ns - left_at
        } else {
            0
        };
        if away >= CLOSE_AFTER_LEAVE_NS {
            self.close();
            return true;
        }
        false
    }
}

/// A closed menu stays closed however the clock runs: ticking it never
/// reports a close, and pointer motion does not open it.
pub proof fn lemma_closed_menu_stays_closed(m: MenuState, now_ns: u64)
    requires
        !m.open_spec(),
    ensures
        !(m.open_spec() && match m.left_at_spec() {
            Some(t) => elapsed(t, now_ns) >= CLOSE_AFTER_LEAVE_NS,
            None => false,
        }),
{
}

/// While the pointer stays over the panel the close timer is off, so the
/// menu does not close however long it stays open.
pub proof fn lemma_pointer_inside_keeps_open(m: MenuState, now_ns: u64)
    requires
        m.open_spec(),
        m.left_at_spec() is None,
    ensures
        !(match m.left_at_spec() {
            Some(t) => elapsed(t, now_ns) >= CLOSE_AFTER_LEAVE_NS,
            None => false,
        }),
{
}

} // verus!
