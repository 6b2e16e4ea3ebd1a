//! The decisions of the crab's core that are not tied to a windowing system:
//! what drives it, how much of the strip a backend shows, what a click does,
//! and what a reaction plays.
//!
//! Positions on the strip are fractional pixels and stay with the caller;
//! they reach these functions as whole-pixel rectangles and as flags.

use vstd::prelude::*;

use crate::config::{is_known_variant, known_variant, Reactions, SPRITE_VARIANTS};
use crate::geom::{fits_i32, IRect};
use crate::menu::LOCK_INDEX;
use crate::text::str_eq;
use crate::tracker::Reaction;

verus! {

/// How often a demo switches animation, in nanoseconds.
pub const DEMO_PERIOD_NS: u64 = 2_000_000_000;

/// How often a replay feeds the next recorded event, in nanoseconds.
pub const REPLAY_PERIOD_NS: u64 = 900_000_000;

/// What is driving the crab. Times are nanoseconds on the caller's
/// monotonic clock.
pub enum Mode {
    Live,
    /// Cycle every animation on a timer, so art can be tuned without running
    /// a coding session.
    Demo { index: usize, last: Option<u64> },
    /// Replay a recorded JSONL event log, looping.
    Replay { lines: Vec<Vec<u8>>, index: usize, last: Option<u64> },
}

/// Whether a timer last fired at `last` is due again at `now` after
/// `period`. One that never fired is due at once.
pub open spec fn due(last: Option<u64>, now: u64, period: u64) -> bool {
    match last {
        None => true,
        Some(t) => (if now >= t { now - t } else { 0 }) >= period,
    }
}

fn is_due(last: Option<u64>, now: u64, period: u64) -> (r: bool)
    ensures
        r == due(last, now, period),
{
    match last {
        None => true,
        Some(t) => (if now >= t {
            now - t
        } else {
            0
        }) >= period,
    }
}

impl Mode {
    /// In a demo, once every period: which of `count` animations to play
    /// next, taking them in turn. The timer restarts when it fires, even
    /// with nothing to play.
    pub fn next_demo(&mut self, now_ns: u64, count: usize) -> (r: Option<usize>)
        ensures
            match *old(self) {
                Mode::Demo { index, last } => if due(last, now_ns, DEMO_PERIOD_NS) {
                    &&& (if count == 0 {
                        r is None && *final(self) == (Mode::Demo { index, last: Some(now_ns) })
                    } else {
                        r == Some((index as int % count as int) as usize) && *final(self) == (Mode::Demo {
                            index: (if index == usize::MAX {
                                0
                            } else {
                                index + 1
                            }) as usize,
                            last: Some(now_ns),
                        })
                    })
                } else {
                    r is None && *final(self) == *old(self)
                },
                _ => r is None && *final(self) == *old(self),
            },
    {
        match self {
            Mode::Demo { index, last } => {
                if !is_due(*last, now_ns, DEMO_PERIOD_NS) {
                    return None;
                }
                *last = Some(now_ns);
                if count == 0 {
                    return None;
                }
                let pick = *index % count;
                *index = if *index == usize::MAX {
                    0
                } else {
                    *index + 1
                };
                Some(pick)
            },
            _ => None,
        }
    }

    /// In a replay, once every period: which recorded line to feed next,
    /// taking them in turn and looping.
    pub fn next_replay(&mut self, now_ns: u64) -> (r: Option<usize>)
        ensures
            match *old(self) {
                Mode::Replay { lines, index, last } => if due(last, now_ns, REPLAY_PERIOD_NS)
                    && lines@.len() > 0 {
                    &&& r == Some((index as int % lines@.len() as int) as usize)
                    &&& *final(self) == (Mode::Replay {
                        lines,
                        index: (if index == usize::MAX {
                            0
                        } else {
                            index + 1
                        }) as usize,
                        last: Some(now_ns),
                    })
                } else {
                    r is None && *final(self) == *old(self)
                },
                _ => r is None && *final(self) == *old(self),
            },
    {
        match self {
            Mode::Replay { lines, index, last } => {
                if !is_due(*last, now_ns, REPLAY_PERIOD_NS) || lines.len() == 0 {
                    return None;
                }
                *last = Some(now_ns);
                let pick = *index % lines.len();
                *index = if *index == usize::MAX {
                    0
                } else {
                    *index + 1
                };
                Some(pick)
            },
            _ => None,
        }
    }
}

/// How much of the strip the backend can actually put on screen.
#[derive(Debug, Clone, Copy, PartialEq, Eq, Structural)]
pub enum Layout {
    /// One surface spanning the whole strip, with an input region confined to
    /// the crab. What layer-shell gives us.
    FullStrip,
    /// A small window that follows the crab, because the platform cannot make
    /// part of a window click-through.
    FollowCrab,
}

#[derive(Debug, Clone, Copy, PartialEq, Eq, Structural)]
pub enum Button {
    Left,
    Right,
    Other,
}

/// A frame that needs presenting.
pub struct Painted {
    /// Rectangles that changed, in surface coordinates.
    pub damage: Vec<IRect>,
    /// Where the surface sits within the strip, and how big it is.
    pub surface: IRect,
}

/// The whole strip as a rectangle at the origin.
pub open spec fn strip_spec(strip_width: i32, strip_height: i32) -> IRect {
    IRect::new_spec(0, 0, strip_width, strip_height)
}

/// The part of the strip a surface has to cover: all of it for a full-strip
/// surface; for one that follows the crab, the crab and the open menu's
/// panel, with two pixels of slack for the sprite's soft edge, clipped to
/// the strip.
pub open spec fn surface_spec(
    layout: Layout,
    strip_width: i32,
    strip_height: i32,
    crab: IRect,
    menu_panel: Option<IRect>,
) -> IRect {
    match layout {
        Layout::FullStrip => strip_spec(strip_width, strip_height),
        Layout::FollowCrab => {
            let r = match menu_panel {
                Some(p) => crab.union_spec(p),
                None => crab,
            };
            r.inflate_spec(2).clamp_spec(strip_width, strip_height)
        },
    }
}

/// The arithmetic of `surface_spec` stays within `i32`.
pub open spec fn surface_fits(crab: IRect, menu_panel: Option<IRect>, strip_width: i32, strip_height: i32) -> bool {
    let r = match menu_panel {
        Some(p) => crab.union_spec(p),
        None => crab,
    };
    &&& match menu_panel {
        Some(p) => crab.union_fits(p),
        None => true,
    }
    &&& r.inflate_fits(2)
    &&& r.inflate_spec(2).clamp_fits(strip_width, strip_height)
}

pub fn surface_rect(
    layout: Layout,
    strip_width: i32,
    strip_height: i32,
    crab: IRect,
    menu_panel: Option<IRect>,
) -> (r: IRect)
    requires
        layout == Layout::FollowCrab ==> surface_fits(crab, menu_panel, strip_width, strip_height),
    ensures
        r == surface_spec(layout, strip_width, strip_height, crab, menu_panel),
{
    match layout {
        Layout::FullStrip => IRect::new(0, 0, strip_width, strip_height),
        Layout::FollowCrab => {
            let r = match menu_panel {
                Some(p) => crab.union(&p),
                None => crab,
            };
            r.inflate(2).clamp_to(strip_width, strip_height)
        },
    }
}

/// The rectangle that accepts pointer input: everything while the menu is
/// open, so it can be hovered and dismissed; otherwise only the crab.
pub fn input_rect(menu_open: bool, strip_width: i32, strip_height: i32, crab: IRect) -> (r: IRect)
    ensures
        r == (if menu_open {
            strip_spec(strip_width, strip_height)
        } else {
            crab
        }),
{
    if menu_open {
        IRect::new(0, 0, strip_width, strip_height)
    } else {
        crab
    }
}

pub open spec fn reaction_spec(reaction: Reaction, reactions: Reactions) -> Option<Seq<char>> {
    match reaction {
        Reaction::Errored => if reactions.error {
            Some("tumble"@)
        } else {
            None
        },
        Reaction::Finished => if reactions.finished {
            Some("celebrate"@)
        } else {
            None
        },
    }
}

/// The animation a reaction plays, if that reaction is switched on: a
/// failed tool tumbles, a finished session celebrates.
pub fn reaction_animation(reaction: Reaction, reactions: &Reactions) -> (r: Option<&'static str>)
    ensures
        match r {
            Some(a) => reaction_spec(reaction, *reactions) == Some(a@),
            None => reaction_spec(reaction, *reactions) is None,
        },
{
    match reaction {
        Reaction::Errored => if reactions.error {
            Some("tumble")
        } else {
            None
        },
        Reaction::Finished => if reactions.finished {
            Some("celebrate")
        } else {
            None
        },
    }
}

/// What a button press does.
#[derive(Debug, Clone, Copy, PartialEq, Eq, Structural)]
pub enum PressAction {
    /// Pin or unpin the crab, then close the menu.
    ToggleLock,
    /// Switch to the sprite variant of this menu row, then close the menu.
    ChooseVariant(usize),
    /// Dismiss the menu.
    CloseMenu,
    /// Open the menu over the crab.
    OpenMenu,
    /// Pick the crab up.
    StartDrag,
    Ignore,
}

pub open spec fn press_spec(
    menu_open: bool,
    button: Button,
    menu_row: Option<usize>,
    in_panel: bool,
    on_crab: bool,
    pinned: bool,
) -> PressAction {
    if menu_open {
        if button != Button::Other && menu_row is Some {
            if menu_row->0 == LOCK_INDEX {
                PressAction::ToggleLock
            } else {
                PressAction::ChooseVariant(menu_row->0)
            }
        } else if !in_panel {
            PressAction::CloseMenu
        } else {
            PressAction::Ignore
        }
    } else if !on_crab {
        PressAction::Ignore
    } else {
        match button {
            Button::Right => PressAction::OpenMenu,
            Button::Left => if pinned {
                PressAction::Ignore
            } else {
                PressAction::StartDrag
            },
            Button::Other => PressAction::Ignore,
        }
    }
}

/// What pressing `button` does. With the menu open, a left or right click
/// on a row picks it and anywhere else outside the panel dismisses the menu.
/// With it closed, only a press on the crab does anything: the right button
/// opens the menu, the left one picks an unpinned crab up. `menu_row` is the
/// row under the pointer, `in_panel` whether the pointer is over the panel,
/// `on_crab` whether it is over the crab.
pub fn press_action(
    menu_open: bool,
    button: Button,
    menu_row: Option<usize>,
    in_panel: bool,
    on_crab: bool,
    pinned: bool,
) -> (a: PressAction)
    ensures
        a == press_spec(menu_open, button, menu_row, in_panel, on_crab, pinned),
{
    if menu_open {
        if button != Button::Other {
            if let Some(index) = menu_row {
                if index == LOCK_INDEX {
                    return PressAction::ToggleLock;
                }
                return PressAction::ChooseVariant(index);
            }
        }
        if !in_panel {
            return PressAction::CloseMenu;
        }
        return PressAction::Ignore;
    }
    if !on_crab {
        return PressAction::Ignore;
    }
    match button {
        Button::Right => PressAction::OpenMenu,
        Button::Left => if pinned {
            PressAction::Ignore
        } else {
            PressAction::StartDrag
        },
        Button::Other => PressAction::Ignore,
    }
}

/// The sprite variant of a menu row.
pub fn variant_for_row(row: usize) -> (v: &'static str)
    requires
        row < SPRITE_VARIANTS@.len(),
    ensures
        v == SPRITE_VARIANTS@[row as int],
{
    SPRITE_VARIANTS[row]
}

/// What asking for a sprite variant does.
#[derive(Debug, Clone, Copy, PartialEq, Eq, Structural)]
pub enum VariantChange {
    /// It is already the one in use.
    Unchanged,
    /// It is not one this build can draw: refused.
    Unknown,
    /// Switch to it.
    Switch,
}

pub open spec fn variant_change_spec(current: Seq<char>, requested: Seq<char>) -> VariantChange {
    if requested == current {
        VariantChange::Unchanged
    } else if !known_variant(requested) {
        VariantChange::Unknown
    } else {
        VariantChange::Switch
    }
}

pub fn variant_change(current: &str, requested: &str) -> (c: VariantChange)
    ensures
        c == variant_change_spec(current@, requested@),
{
    if str_eq(requested, current) {
        VariantChange::Unchanged
    } else if !is_known_variant(requested) {
        VariantChange::Unknown
    } else {
        VariantChange::Switch
    }
}

/// The first position at or after `from` holding `b`, or -1.
pub open spec fn first_byte(raw: Seq<u8>, b: u8, from: int) -> int
    decreases raw.len() - from,
{
    if from < 0 || from >= raw.len() {
        -1
    } else if raw[from] == b {
        from
    } else {
        first_byte(raw, b, from + 1)
    }
}

pub proof fn lemma_first_byte_bounds(raw: Seq<u8>, b: u8, from: int)
    ensures
        first_byte(raw, b, from) == -1 || (from <= first_byte(raw, b, from) < raw.len() && raw[first_byte(
            raw,
            b,
            from,
        )] == b),
    decreases raw.len() - from,
{
    if from >= 0 && from < raw.len() && raw[from] != b {
        lemma_first_byte_bounds(raw, b, from + 1);
    }
}

/// A line without its trailing carriage return, if it has one.
pub open spec fn trim_cr(line: Seq<u8>) -> Seq<u8> {
    if line.len() > 0 && line.last() == 0x0d {
        line.drop_last()
    } else {
        line
    }
}

/// The non-empty lines of `raw` from `start` on: split at `\n`, each with a
/// trailing `\r` removed.
pub open spec fn lines_from(raw: Seq<u8>, start: int) -> Seq<Seq<u8>>
    decreases raw.len() - start,
{
    if start < 0 || start >= raw.len() {
        Seq::empty()
    } else {
        let nl = first_byte(raw, 0x0a, start);
        let end = if nl < 0 {
            raw.len() as int
        } else {
            nl
        };
        let line = trim_cr(raw.subrange(start, end));
        let rest = if nl < 0 {
            Seq::empty()
        } else {
            proof {
                lemma_first_byte_bounds(raw, 0x0a, start);
            }
            lines_from(raw, nl + 1)
        };
        if line.len() == 0 {
            rest
        } else {
            seq![line] + rest
        }
    }
}

fn find_byte(raw: &[u8], b: u8, from: usize) -> (r: Option<usize>)
    requires
        from <= raw@.len(),
    ensures
        match r {
            Some(i) => i == first_byte(raw@, b, from as int) && from <= i < raw@.len(),
            None => first_byte(raw@, b, from as int) == -1,
        },
{
    proof {
        lemma_first_byte_bounds(raw@, b, from as int);
    }
    let mut i = from;
    while i < raw.len()
        invariant
            from <= i <= raw@.len(),
            first_byte(raw@, b, from as int) == first_byte(raw@, b, i as int),
        decreases raw@.len() - i,
    {
        if raw[i] == b {
            return Some(i);
        }
        i += 1;
    }
    None
}

/// Split a JSONL replay log into one payload per line: lines end at `\n`,
/// lose a trailing `\r`, and empty ones are dropped.
pub fn replay_lines(raw: &[u8]) -> (lines: Vec<Vec<u8>>)
    ensures
        lines@.map_values(|l: Vec<u8>| l@) == lines_from(raw@, 0),
{
    let mut out: Vec<Vec<u8>> = Vec::new();
    let mut start: usize = 0;
    while start < raw.len()
        invariant
            start <= raw@.len(),
            lines_from(raw@, 0) == out@.map_values(|l: Vec<u8>| l@) + lines_from(raw@, start as int),
        decreases raw@.len() - start,
    {
        let nl = find_byte(raw, 0x0a, start);
        let end = match nl {
            Some(i) => i,
            None => raw.len(),
        };
        let mut stop = end;
        if stop > start && raw[stop - 1] == 0x0d {
            stop = stop - 1;
        }
        let mut line: Vec<u8> = Vec::new();
        let mut k = start;
        while k < stop
            invariant
                start <= k <= stop <= raw@.len(),
                line@ == raw@.subrange(start as int, k as int),
            decreases stop - k,
        {
            line.push(raw[k]);
            k += 1;
        }
        let ghost seg = raw@.subrange(start as int, end as int);
        proof {
            assert(line@ =~= trim_cr(seg));
        }
        let ghost before = out@;
        if line.len() > 0 {
            out.push(line);
            proof {
                assert(out@.map_values(|l: Vec<u8>| l@) =~= before.map_values(|l: Vec<u8>| l@).push(
                    trim_cr(seg),
                ));
            }
        }
        start = match nl {
            Some(i) => i + 1,
            None => raw.len(),
        };
        proof {
            let tail = if nl is None {
                Seq::<Seq<u8>>::empty()
            } else {
                lines_from(raw@, start as int)
            };
            if nl is None {
                assert(lines_from(raw@, start as int) =~= Seq::<Seq<u8>>::empty());
            }
            if trim_cr(seg).len() == 0 {
                assert(out@.map_values(|l: Vec<u8>| l@) =~= before.map_values(|l: Vec<u8>| l@));
            } else {
                assert(before.map_values(|l: Vec<u8>| l@) + (seq![trim_cr(seg)] + tail) =~= out@.map_values(
                    |l: Vec<u8>| l@,
                ) + tail);
            }
        }
    }
    proof {
        assert(lines_from(raw@, start as int) =~= Seq::<Seq<u8>>::empty());
        assert(out@.map_values(|l: Vec<u8>| l@) + Seq::<Seq<u8>>::empty() =~= out@.map_values(
            |l: Vec<u8>| l@,
        ));
    }
    out
}

/// A replay log's payloads, or `None` when it holds none: a log with
/// nothing to replay is refused.
pub fn replay_log(raw: &[u8]) -> (r: Option<Vec<Vec<u8>>>)
    ensures
        r is None <==> lines_from(raw@, 0).len() == 0,
        r matches Some(lines) ==> lines@.map_values(|l: Vec<u8>| l@) == lines_from(raw@, 0),
{
    let lines = replay_lines(raw);
    if lines.len() == 0 {
        proof {
            assert(lines@.map_values(|l: Vec<u8>| l@).len() == 0);
        }
        None
    } else {
        Some(lines)
    }
}

/// Everything that decides what the crab looks like in a frame: the sheet
/// row, the frame, the whole-pixel position and the facing.
pub type VisualKey = (i32, usize, i32, i32);

/// A frame is repainted only when its picture can differ from the one on
/// screen: a forced redraw, a menu change, a surface that moved or
/// resized, or a different look of the crab.
pub fn needs_repaint(
    force: bool,
    menu_dirty: bool,
    surface: IRect,
    last_surface: IRect,
    visual: VisualKey,
    last_visual: Option<VisualKey>,
) -> (r: bool)
    ensures
        r == (force || menu_dirty || surface != last_surface || last_visual != Some(visual)),
{
    let same_visual = match last_visual {
        Some(v) => v.0 == visual.0 && v.1 == visual.1 && v.2 == visual.2 && v.3 == visual.3,
        None => false,
    };
    force || menu_dirty || surface != last_surface || !same_visual
}

/// Pinning blocks drags and nothing else: a pinned crab is never picked
/// up, while every other press does what it does unpinned.
pub proof fn law_pinning_blocks_only_drags(
    menu_open: bool,
    button: Button,
    menu_row: Option<usize>,
    in_panel: bool,
    on_crab: bool,
)
    ensures
        press_spec(menu_open, button, menu_row, in_panel, on_crab, true) != PressAction::StartDrag,
        press_spec(menu_open, button, menu_row, in_panel, on_crab, false) != PressAction::StartDrag
            ==> press_spec(menu_open, button, menu_row, in_panel, on_crab, true) == press_spec(
            menu_open,
            button,
            menu_row,
            in_panel,
            on_crab,
            false,
        ),
{
}

/// With the menu open, a left or a right press on a row picks that row,
/// whichever of the two buttons it is: the lock row toggles the pin, any
/// other row chooses its sprite variant. Neither where the crab is nor the
/// pin changes that.
pub proof fn law_open_menu_rows_pick(
    button: Button,
    row: usize,
    in_panel: bool,
    on_crab: bool,
    pinned: bool,
)
    requires
        button == Button::Left || button == Button::Right,
    ensures
        row == LOCK_INDEX ==> press_spec(true, button, Some(row), in_panel, on_crab, pinned)
            == PressAction::ToggleLock,
        row != LOCK_INDEX ==> press_spec(true, button, Some(row), in_panel, on_crab, pinned)
            == PressAction::ChooseVariant(row),
        press_spec(true, Button::Left, Some(row), in_panel, on_crab, pinned) == press_spec(
            true,
            Button::Right,
            Some(row),
            in_panel,
            on_crab,
            pinned,
        ),
{
}

/// With the menu open, a press of any button that picks no row dismisses
/// the menu when it lands outside the panel, and does nothing inside it; a
/// press never opens the menu again or picks up the crab while it is open.
pub proof fn law_open_menu_dismissed_outside(
    button: Button,
    menu_row: Option<usize>,
    in_panel: bool,
    on_crab: bool,
    pinned: bool,
)
    requires
        button == Button::Other || menu_row is None,
    ensures
        !in_panel ==> press_spec(true, button, menu_row, in_panel, on_crab, pinned)
            == PressAction::CloseMenu,
        in_panel ==> press_spec(true, button, menu_row, in_panel, on_crab, pinned)
            == PressAction::Ignore,
        press_spec(true, button, menu_row, in_panel, on_crab, pinned) != PressAction::OpenMenu,
        press_spec(true, button, menu_row, in_panel, on_crab, pinned) != PressAction::StartDrag,
{
}

/// With the menu closed, only a press on the crab does anything: the right
/// button opens the menu, the left one picks up an unpinned crab, and
/// nothing is ever chosen, toggled or dismissed.
pub proof fn law_closed_menu_presses(
    button: Button,
    menu_row: Option<usize>,
    in_panel: bool,
    on_crab: bool,
    pinned: bool,
)
    ensures
        !on_crab ==> press_spec(false, button, menu_row, in_panel, on_crab, pinned)
            == PressAction::Ignore,
        on_crab && button == Button::Right ==> press_spec(false, button, menu_row, in_panel, on_crab, pinned)
            == PressAction::OpenMenu,
        on_crab && button == Button::Left && !pinned ==> press_spec(
            false,
            button,
            menu_row,
            in_panel,
            on_crab,
            pinned,
        ) == PressAction::StartDrag,
        button == Button::Other ==> press_spec(false, button, menu_row, in_panel, on_crab, pinned)
            == PressAction::Ignore,
{
}

/// A surface that follows the crab stays inside the strip.
pub proof fn law_follow_surface_inside_strip(
    strip_width: i32,
    strip_height: i32,
    crab: IRect,
    menu_panel: Option<IRect>,
)
    requires
        surface_fits(crab, menu_panel, strip_width, strip_height),
    ensures
        ({
            let s = surface_spec(Layout::FollowCrab, strip_width, strip_height, crab, menu_panel);
            s.x >= 0 && s.y >= 0 && (!s.empty_spec() ==> s.right_spec() <= strip_width
                && s.bottom_spec() <= strip_height)
        }),
{
}

} // verus!
